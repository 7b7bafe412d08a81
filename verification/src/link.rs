//! Reading the `Link` header of a GitHub response: which URL, if any, is marked
//! `rel="next"`.

use vstd::prelude::*;
use crate::text::{chars_of, same_chars, string_of, trim, trim_bounds};
use vstd::utf8::encode_utf8;

verus! {

/// Why a `Link` header could not be read.
#[derive(Debug, Clone, Copy, PartialEq, Eq, Structural)]
pub enum LinkError {
    /// The header value holds a byte that is not visible ASCII.
    NotVisibleAscii,
    /// An entry has no `;` between the URL and its parameter.
    UnexpectedLinkHeader,
    /// A parameter has no `=`.
    UnexpectedRelPair,
    /// A parameter is not `rel`.
    UnexpectedRelWord,
    /// The URL is not enclosed in the expected delimiters.
    BadTrim,
}

/// A header byte that `HeaderValue::to_str` accepts: visible ASCII or a tab.
pub open spec fn is_visible_ascii(b: u8) -> bool {
    (32 <= b < 127) || b == 9
}

/// The text of a header value, when every byte is visible ASCII.
pub open spec fn header_text(bytes: Seq<u8>) -> Option<Seq<char>> {
    if forall|i: int| 0 <= i < bytes.len() ==> is_visible_ascii(#[trigger] bytes[i]) {
        Some(bytes.map_values(|b: u8| b as char))
    } else {
        None
    }
}

/// The text of a header value, as `HeaderValue::to_str` reads it.
pub fn header_value_text(bytes: &[u8]) -> (r: Option<Vec<char>>)
    ensures
        match r {
            Some(v) => header_text(bytes@) == Some(v@),
            None => header_text(bytes@) is None,
        },
{
    let mut v: Vec<char> = Vec::new();
    let mut i: usize = 0;
    while i < bytes.len()
        invariant
            i <= bytes@.len(),
            forall|j: int| 0 <= j < i ==> is_visible_ascii(#[trigger] bytes@[j]),
            v@ == bytes@.take(i as int).map_values(|b: u8| b as char),
        decreases bytes@.len() - i,
    {
        let b = bytes[i];
        if !((32 <= b && b < 127) || b == 9) {
            return None;
        }
        v.push(b as char);
        assert(bytes@.take(i + 1).map_values(|b: u8| b as char) =~= bytes@.take(
            i as int,
        ).map_values(|b: u8| b as char).push(b as char));
        i = i + 1;
    }
    assert(bytes@.take(bytes@.len() as int) =~= bytes@);
    Some(v)
}

/// The index of the first `c` in `s`.
pub open spec fn first_index_of(s: Seq<char>, c: char) -> Option<int>
    decreases s.len(),
{
    if s.len() == 0 {
        None
    } else if s[0] == c {
        Some(0)
    } else {
        match first_index_of(s.drop_first(), c) {
            Some(i) => Some(i + 1),
            None => None,
        }
    }
}

pub proof fn lemma_first_index_of(s: Seq<char>, c: char, k: int)
    requires
        0 <= k <= s.len(),
        forall|j: int| 0 <= j < k ==> #[trigger] s[j] != c,
        k < s.len() ==> s[k] == c,
    ensures
        first_index_of(s, c) == (if k < s.len() {
            Some(k)
        } else {
            None::<int>
        }),
    decreases k,
{
    if k > 0 {
        assert forall|j: int| 0 <= j < k - 1 implies #[trigger] s.drop_first()[j] != c by {
            assert(s.drop_first()[j] == s[j + 1]);
        }
        assert(s[0] != c);
        lemma_first_index_of(s.drop_first(), c, k - 1);
    }
}

/// The first index `i >= lo` with `s[i] == c`, as an index into `s[lo..]`.
fn find_char(s: &[char], lo: usize, c: char) -> (r: Option<usize>)
    requires
        lo <= s@.len(),
    ensures
        match r {
            Some(i) => lo <= i < s@.len() && first_index_of(s@.skip(lo as int), c) == Some(
                i - lo,
            ),
            None => first_index_of(s@.skip(lo as int), c) is None,
        },
{
    let mut i: usize = lo;
    while i < s.len()
        invariant
            lo <= i <= s@.len(),
            forall|j: int| lo <= j < i ==> #[trigger] s@[j] != c,
        decreases s@.len() - i,
    {
        if s[i] == c {
            proof {
                let t = s@.skip(lo as int);
                assert forall|j: int| 0 <= j < i - lo implies #[trigger] t[j] != c by {
                    assert(t[j] == s@[j + lo]);
                }
                lemma_first_index_of(t, c, i - lo);
            }
            return Some(i);
        }
        i = i + 1;
    }
    proof {
        let t = s@.skip(lo as int);
        assert forall|j: int| 0 <= j < t.len() implies #[trigger] t[j] != c by {
            assert(t[j] == s@[j + lo]);
        }
        lemma_first_index_of(t, c, t.len() as int);
    }
    None
}

/// The two trimmed halves of `s` around the first `at`, as `s.splitn(2, at)` and
/// `str::trim` give them; `None` where `s` has no `at`.
pub open spec fn split_2_trim_spec(s: Seq<char>, at: char) -> Option<(Seq<char>, Seq<char>)> {
    match first_index_of(s, at) {
        Some(i) => Some((trim(s.take(i)), trim(s.skip(i + 1)))),
        None => None,
    }
}

/// Splits `s` at the first `at` and trims both halves.
pub fn split_2_trim<'a>(s: &'a str, at: char) -> (r: Option<(&'a str, &'a str)>)
    ensures
        match r {
            Some((one, two)) => split_2_trim_spec(s@, at) == Some((one@, two@)),
            None => split_2_trim_spec(s@, at) is None,
        },
{
    let cs = chars_of(s);
    assert(cs@.skip(0) =~= cs@);
    match find_char(&cs, 0, at) {
        None => None,
        Some(i) => {
            assert(i < cs.len());
            let (a1, b1) = trim_bounds(&cs, 0, i);
            let (a2, b2) = trim_bounds(&cs, i + 1, cs.len());
            assert(cs@.subrange(0, i as int) =~= s@.take(i as int));
            assert(cs@.subrange(i + 1, cs@.len() as int) =~= s@.skip(i + 1));
            Some((s.substring_char(a1, b1), s.substring_char(a2, b2)))
        },
    }
}

/// `s` trimmed, then stripped of a leading `front` and a trailing `back`; an error where
/// the trimmed text is shorter than two characters or is not so enclosed.
pub open spec fn trim_ends_spec(s: Seq<char>, front: char, back: char) -> Result<
    Seq<char>,
    LinkError,
> {
    let t = trim(s);
    if t.len() >= 2 && t[0] == front && t.last() == back {
        Ok(t.subrange(1, t.len() - 1))
    } else {
        Err(LinkError::BadTrim)
    }
}

/// Where `str::trim` and then `&s[1..s.len() - 1]` would slice inside a character: a
/// delimiter that is not ASCII matches the first or last byte of the trimmed text, which is
/// then part of a character of several bytes.
pub open spec fn trim_ends_panics(s: Seq<char>, front: u8, back: u8) -> bool {
    let b = encode_utf8(trim(s));
    &&& front >= 128 || back >= 128
    &&& b.len() >= 2
    &&& b[0] == front
    &&& b.last() == back
}

/// What `trim_ends` gives: with ASCII delimiters, the trimmed text stripped of them where
/// it is enclosed in them; a delimiter that is not ASCII never matches a character.
pub open spec fn trim_ends_bytes_spec(s: Seq<char>, front: u8, back: u8) -> Result<Seq<char>, LinkError> {
    if front < 128 && back < 128 {
        trim_ends_spec(s, front as char, back as char)
    } else {
        Err(LinkError::BadTrim)
    }
}

/// Trims `s` and strips the delimiter bytes `front` and `back` from its two ends.
pub fn trim_ends<'a>(s: &'a str, front: u8, back: u8) -> (r: Result<&'a str, LinkError>)
    requires
        !trim_ends_panics(s@, front, back),
    ensures
        match r {
            Ok(t) => trim_ends_bytes_spec(s@, front, back) == Ok::<Seq<char>, LinkError>(t@),
            Err(e) => trim_ends_bytes_spec(s@, front, back) == Err::<Seq<char>, LinkError>(e),
        },
{
    if front >= 128 || back >= 128 {
        return Err(LinkError::BadTrim);
    }
    let cs = chars_of(s);
    let (a, b) = trim_bounds(&cs, 0, cs.len());
    assert(cs@.subrange(0, cs@.len() as int) =~= s@);
    if b - a < 2 || cs[a] != front as char || cs[b - 1] != back as char {
        return Err(LinkError::BadTrim);
    }
    let ghost t = trim(s@);
    assert(t[0] == cs@[a as int]);
    assert(t.last() == cs@[b - 1]);
    assert(t.subrange(1, t.len() - 1) =~= s@.subrange(a + 1, b - 1));
    Ok(s.substring_char(a + 1, b - 1))
}

/// The URL of a `Link` entry: the text between `<` and `>`.
pub fn parse_link_url<'a>(s: &'a str) -> (r: Result<&'a str, LinkError>)
    ensures
        match r {
            Ok(t) => trim_ends_spec(s@, '<', '>') == Ok::<Seq<char>, LinkError>(t@),
            Err(e) => trim_ends_spec(s@, '<', '>') == Err::<Seq<char>, LinkError>(e),
        },
{
    trim_ends(s, 60u8, 62u8)
}

/// The pieces of `s` between the occurrences of `c`, as `s.split(c)` yields them.
pub open spec fn split_all(s: Seq<char>, c: char) -> Seq<Seq<char>>
    decreases s.len(),
{
    if s.len() == 0 {
        seq![Seq::<char>::empty()]
    } else {
        let r = split_all(s.drop_last(), c);
        if s.last() == c {
            r.push(Seq::<char>::empty())
        } else {
            r.update(r.len() - 1, r.last().push(s.last()))
        }
    }
}

/// The bounds of the pieces of `s` between the occurrences of `c`.
fn split_ranges(s: &[char], c: char) -> (r: Vec<(usize, usize)>)
    ensures
        r@.len() == split_all(s@, c).len(),
        forall|k: int|
            0 <= k < r@.len() ==> {
                &&& (#[trigger] r@[k]).0 <= r@[k].1 <= s@.len()
                &&& s@.subrange(r@[k].0 as int, r@[k].1 as int) == split_all(s@, c)[k]
            },
{
    let mut done: Vec<(usize, usize)> = Vec::new();
    let mut start: usize = 0;
    let mut i: usize = 0;
    assert(s@.take(0) =~= Seq::<char>::empty());
    while i < s.len()
        invariant
            start <= i <= s@.len(),
            split_all(s@.take(i as int), c).len() == done@.len() + 1,
            split_all(s@.take(i as int), c).last() == s@.subrange(start as int, i as int),
            forall|k: int|
                0 <= k < done@.len() ==> {
                    &&& (#[trigger] done@[k]).0 <= done@[k].1 <= s@.len()
                    &&& s@.subrange(done@[k].0 as int, done@[k].1 as int) == split_all(
                        s@.take(i as int),
                        c,
                    )[k]
                },
        decreases s@.len() - i,
    {
        let ghost prev = split_all(s@.take(i as int), c);
        assert(s@.take(i + 1).drop_last() =~= s@.take(i as int));
        assert(s@.take(i + 1).last() == s@[i as int]);
        if s[i] == c {
            done.push((start, i));
            start = i + 1;
        } else {
            assert(s@.subrange(start as int, i + 1) =~= s@.subrange(start as int, i as int).push(
                s@[i as int],
            ));
        }
        i = i + 1;
    }
    done.push((start, i));
    assert(s@.take(i as int) =~= s@);
    done
}

/// The parameter name that a `Link` entry must carry.
pub open spec fn rel_word() -> Seq<char> {
    seq!['r', 'e', 'l']
}

/// The parameter value that marks the next page.
pub open spec fn next_value() -> Seq<char> {
    seq!['"', 'n', 'e', 'x', 't', '"']
}

/// What one entry of a `Link` header decides: `None` to go on with the next entry,
/// or the answer.
pub open spec fn entry_step(e: Seq<char>) -> Option<Result<Option<Seq<char>>, LinkError>> {
    match split_2_trim_spec(e, ';') {
        None => Some(Err(LinkError::UnexpectedLinkHeader)),
        Some((url, maybe_rel)) => match split_2_trim_spec(maybe_rel, '=') {
            None => Some(Err(LinkError::UnexpectedRelPair)),
            Some((word, value)) => if word == rel_word() {
                if value == next_value() {
                    Some(
                        match trim_ends_spec(url, '<', '>') {
                            Ok(u) => Ok(Some(u)),
                            Err(e) => Err(e),
                        },
                    )
                } else {
                    None
                }
            } else {
                Some(Err(LinkError::UnexpectedRelWord))
            },
        },
    }
}

/// The answer for a sequence of entries: the first one that decides, else no next page.
pub open spec fn next_link_in(entries: Seq<Seq<char>>) -> Result<Option<Seq<char>>, LinkError>
    decreases entries.len(),
{
    if entries.len() == 0 {
        Ok(None)
    } else {
        match entry_step(entries[0]) {
            Some(r) => r,
            None => next_link_in(entries.drop_first()),
        }
    }
}

/// The URL of the next page that a `Link` header value names, if any.
pub open spec fn next_link(header: Option<Seq<u8>>) -> Result<Option<Seq<char>>, LinkError> {
    match header {
        None => Ok(None),
        Some(bytes) => match header_text(bytes) {
            None => Err(LinkError::NotVisibleAscii),
            Some(t) => next_link_in(split_all(t, ',')),
        },
    }
}

/// The view of an answer that holds strings.
pub open spec fn link_view(r: Result<Option<String>, LinkError>) -> Result<
    Option<Seq<char>>,
    LinkError,
> {
    match r {
        Ok(Some(u)) => Ok(Some(u@)),
        Ok(None) => Ok(None),
        Err(e) => Err(e),
    }
}

/// The bytes of an optional header value.
pub open spec fn header_bytes(h: Option<&[u8]>) -> Option<Seq<u8>> {
    match h {
        Some(b) => Some(b@),
        None => None,
    }
}

/// Whether the characters of `s` are those of `t`.
fn str_eq_chars(s: &str, t: &Vec<char>) -> (r: bool)
    ensures
        r == (s@ == t@),
{
    let cs = chars_of(s);
    same_chars(cs.as_slice(), t.as_slice())
}

/// What one entry decides, computed.
fn link_entry(entry: &str) -> (r: Option<Result<Option<String>, LinkError>>)
    ensures
        match r {
            None => entry_step(entry@) is None,
            Some(x) => entry_step(entry@) == Some(link_view(x)),
        },
{
    match split_2_trim(entry, ';') {
        None => Some(Err(LinkError::UnexpectedLinkHeader)),
        Some((url, maybe_rel)) => match split_2_trim(maybe_rel, '=') {
            None => Some(Err(LinkError::UnexpectedRelPair)),
            Some((word, value)) => {
                let rel = vec!['r', 'e', 'l'];
                let next = vec!['"', 'n', 'e', 'x', 't', '"'];
                assert(rel@ =~= rel_word());
                assert(next@ =~= next_value());
                if str_eq_chars(word, &rel) {
                    if str_eq_chars(value, &next) {
                        match parse_link_url(url) {
                            Ok(u) => Some(Ok(Some(u.to_owned()))),
                            Err(e) => Some(Err(e)),
                        }
                    } else {
                        None
                    }
                } else {
                    Some(Err(LinkError::UnexpectedRelWord))
                }
            },
        },
    }
}

/// The URL of the next page named by a `Link` header value (`link_header` holds the raw
/// bytes of the header, `None` where the response has none).
pub fn parse_next(link_header: Option<&[u8]>) -> (r: Result<Option<String>, LinkError>)
    ensures
        link_view(r) == next_link(header_bytes(link_header)),
{
    let bytes = match link_header {
        None => return Ok(None),
        Some(b) => b,
    };
    let cs = match header_value_text(bytes) {
        None => return Err(LinkError::NotVisibleAscii),
        Some(v) => v,
    };
    let text = string_of(&cs);
    let ranges = split_ranges(&cs, ',');
    let ghost pieces = split_all(cs@, ',');
    assert(header_bytes(link_header) == Some(bytes@));
    assert(next_link(header_bytes(link_header)) == next_link_in(pieces));
    let mut k: usize = 0;
    assert(pieces.skip(0) =~= pieces);
    while k < ranges.len()
        invariant
            text@ == cs@,
            pieces == split_all(cs@, ','),
            ranges@.len() == pieces.len(),
            forall|j: int|
                0 <= j < ranges@.len() ==> {
                    &&& (#[trigger] ranges@[j]).0 <= ranges@[j].1 <= cs@.len()
                    &&& cs@.subrange(ranges@[j].0 as int, ranges@[j].1 as int) == pieces[j]
                },
            k <= ranges@.len(),
            next_link_in(pieces) == next_link_in(pieces.skip(k as int)),
            next_link(header_bytes(link_header)) == next_link_in(pieces),
        decreases ranges@.len() - k,
    {
        let (a, b) = ranges[k];
        let entry = text.as_str().substring_char(a, b);
        assert(entry@ == pieces[k as int]);
        assert(pieces.skip(k as int).drop_first() =~= pieces.skip(k + 1));
        assert(pieces.skip(k as int)[0] == pieces[k as int]);
        match link_entry(entry) {
            Some(res) => {
                assert(pieces.skip(k as int).len() > 0);
                assert(next_link_in(pieces.skip(k as int)) == link_view(res));
                return res;
            },
            None => {},
        }
        k = k + 1;
    }
    Ok(None)
}

/// Stripping the delimiters gives back what was enclosed: a URL written `<url>` reads
/// back as `url`.
pub proof fn law_trim_ends_roundtrip(s: Seq<char>, front: char, back: char)
    requires
        !crate::text::is_space(front),
        !crate::text::is_space(back),
    ensures
        trim_ends_spec(seq![front] + s + seq![back], front, back) == Ok::<Seq<char>, LinkError>(s),
{
    let w = seq![front] + s + seq![back];
    crate::text::lemma_trim_start_skip(w, 0);
    assert(w.skip(0) =~= w);
    crate::text::lemma_trim_end_take(w, w.len() as int);
    assert(w.take(w.len() as int) =~= w);
    assert(w.subrange(1, w.len() - 1) =~= s);
}

/// The `Link` entry `<url>; rel="value"`, as GitHub writes it.
pub open spec fn link_entry_text(url: Seq<char>, value: Seq<char>) -> Seq<char> {
    seq!['<'] + url + seq!['>', ';', ' ', 'r', 'e', 'l', '=', '"'] + value + seq!['"']
}

/// `s` holds no `c`.
pub open spec fn free_of(s: Seq<char>, c: char) -> bool {
    forall|i: int| 0 <= i < s.len() ==> #[trigger] s[i] != c
}

proof fn lemma_trim_unchanged(s: Seq<char>)
    requires
        s.len() > 0,
        !crate::text::is_space(s[0]),
        !crate::text::is_space(s.last()),
    ensures
        trim(s) == s,
{
    crate::text::lemma_trim_start_skip(s, 0);
    assert(s.skip(0) =~= s);
    crate::text::lemma_trim_end_take(s, s.len() as int);
    assert(s.take(s.len() as int) =~= s);
}

proof fn lemma_split_at_semicolon(lead: Seq<char>, url: Seq<char>, value: Seq<char>)
    requires
        free_of(url, ';'),
        forall|i: int| 0 <= i < lead.len() ==> #[trigger] lead[i] == ' ',
    ensures
        split_2_trim_spec(lead + link_entry_text(url, value), ';') == Some((
            seq!['<'] + url + seq!['>'],
            seq!['r', 'e', 'l', '=', '"'] + value + seq!['"'],
        )),
{
    let e = lead + link_entry_text(url, value);
    let l = lead.len() as int;
    let n = url.len() as int;
    let a0 = seq!['<'] + url + seq!['>'];
    let a = lead + a0;
    let b = seq![' ', 'r', 'e', 'l', '=', '"'] + value + seq!['"'];
    let c = seq!['r', 'e', 'l', '=', '"'] + value + seq!['"'];
    assert(e =~= a + seq![';'] + b);
    assert forall|j: int| 0 <= j < l + n + 2 implies #[trigger] e[j] != ';' by {
        if j < l {
            assert(e[j] == lead[j]);
        } else if l + 1 <= j <= l + n {
            assert(e[j] == url[j - l - 1]);
        }
    }
    assert(e[l + n + 2] == ';');
    lemma_first_index_of(e, ';', l + n + 2);
    assert(e.take(l + n + 2) =~= a);
    assert(e.skip(l + n + 3) =~= b);
    assert forall|i: int| 0 <= i < l implies crate::text::is_space(#[trigger] a[i]) by {
        assert(a[i] == lead[i]);
    }
    crate::text::lemma_trim_start_skip(a, l);
    assert(a.skip(l) =~= a0);
    crate::text::lemma_trim_end_take(a0, a0.len() as int);
    assert(a0.take(a0.len() as int) =~= a0);
    crate::text::lemma_trim_start_skip(b, 1);
    assert(b.skip(1) =~= c);
    crate::text::lemma_trim_end_take(c, c.len() as int);
    assert(c.take(c.len() as int) =~= c);
}

proof fn lemma_split_rel_pair(value: Seq<char>)
    ensures
        split_2_trim_spec(seq!['r', 'e', 'l', '=', '"'] + value + seq!['"'], '=') == Some((
            rel_word(),
            seq!['"'] + value + seq!['"'],
        )),
{
    let c = seq!['r', 'e', 'l', '=', '"'] + value + seq!['"'];
    let d = seq!['"'] + value + seq!['"'];
    assert forall|j: int| 0 <= j < 3 implies #[trigger] c[j] != '=' by {}
    assert(c[3] == '=');
    lemma_first_index_of(c, '=', 3);
    assert(c.take(3) =~= rel_word());
    assert(c.skip(4) =~= d);
    lemma_trim_unchanged(rel_word());
    lemma_trim_unchanged(d);
}

proof fn lemma_quoted_next(value: Seq<char>)
    ensures
        (seq!['"'] + value + seq!['"'] == next_value()) == (value == seq!['n', 'e', 'x', 't']),
{
    let d = seq!['"'] + value + seq!['"'];
    if value == seq!['n', 'e', 'x', 't'] {
        assert(d =~= next_value());
    } else if d == next_value() {
        assert(d.len() == 6);
        assert(value.len() == 4);
        assert(value[0] == d[1] && d[1] == next_value()[1]);
        assert(value[1] == d[2] && d[2] == next_value()[2]);
        assert(value[2] == d[3] && d[3] == next_value()[3]);
        assert(value[3] == d[4] && d[4] == next_value()[4]);
        assert(value =~= seq!['n', 'e', 'x', 't']);
    }
}

proof fn lemma_link_entry_after_spaces(lead: Seq<char>, url: Seq<char>, value: Seq<char>)
    requires
        free_of(url, ';'),
        forall|i: int| 0 <= i < lead.len() ==> #[trigger] lead[i] == ' ',
    ensures
        entry_step(lead + link_entry_text(url, value)) == (if value == seq!['n', 'e', 'x', 't'] {
            Some(Ok::<Option<Seq<char>>, LinkError>(Some(url)))
        } else {
            None
        }),
{
    lemma_split_at_semicolon(lead, url, value);
    lemma_split_rel_pair(value);
    lemma_quoted_next(value);
    let a0 = seq!['<'] + url + seq!['>'];
    lemma_trim_unchanged(a0);
    assert(a0.subrange(1, a0.len() - 1) =~= url);
}

/// What an entry `<url>; rel="value"` decides, for a URL without `;`: the URL where the
/// value is `next`, and nothing (go on with the next entry) for any other value.
pub proof fn law_link_entry(url: Seq<char>, value: Seq<char>)
    requires
        free_of(url, ';'),
    ensures
        entry_step(link_entry_text(url, value)) == (if value == seq!['n', 'e', 'x', 't'] {
            Some(Ok::<Option<Seq<char>>, LinkError>(Some(url)))
        } else {
            None
        }),
{
    lemma_link_entry_after_spaces(Seq::empty(), url, value);
    assert(Seq::<char>::empty() + link_entry_text(url, value) =~= link_entry_text(url, value));
}

/// An entry whose `rel` is not `next` decides nothing: the answer for it and the entries
/// after it is the answer for the entries after it.
pub proof fn law_other_rel_is_skipped(url: Seq<char>, value: Seq<char>, rest: Seq<Seq<char>>)
    requires
        free_of(url, ';'),
        value != seq!['n', 'e', 'x', 't'],
    ensures
        next_link_in(seq![link_entry_text(url, value)] + rest) == next_link_in(rest),
{
    law_link_entry(url, value);
    let es = seq![link_entry_text(url, value)] + rest;
    assert(es[0] == link_entry_text(url, value));
    assert(es.drop_first() =~= rest);
}

/// Among entries `<url>; rel="value"` (URLs without `;`), the answer is the URL of the
/// first entry whose value is `next`, whatever entries come before it.
pub proof fn law_first_next_entry_wins(urls: Seq<Seq<char>>, values: Seq<Seq<char>>, k: int)
    requires
        urls.len() == values.len(),
        0 <= k < urls.len(),
        forall|i: int| 0 <= i < urls.len() ==> free_of(#[trigger] urls[i], ';'),
        values[k] == seq!['n', 'e', 'x', 't'],
        forall|i: int| 0 <= i < k ==> #[trigger] values[i] != seq!['n', 'e', 'x', 't'],
    ensures
        next_link_in(Seq::new(urls.len(), |i: int| link_entry_text(urls[i], values[i])))
            == Ok::<Option<Seq<char>>, LinkError>(Some(urls[k])),
    decreases k,
{
    let es = Seq::new(urls.len(), |i: int| link_entry_text(urls[i], values[i]));
    assert(es[0] == link_entry_text(urls[0], values[0]));
    if k == 0 {
        law_link_entry(urls[0], values[0]);
    } else {
        let us = urls.drop_first();
        let vs = values.drop_first();
        assert forall|i: int| 0 <= i < us.len() implies free_of(#[trigger] us[i], ';') by {
            assert(us[i] == urls[i + 1]);
        }
        assert forall|i: int| 0 <= i < k - 1 implies #[trigger] vs[i] != seq!['n', 'e', 'x', 't'] by {
            assert(vs[i] == values[i + 1]);
        }
        law_first_next_entry_wins(us, vs, k - 1);
        assert(free_of(urls[0], ';'));
        assert(values[0] != seq!['n', 'e', 'x', 't']);
        law_link_entry(urls[0], values[0]);
        assert(es.drop_first() =~= Seq::new(us.len(), |i: int| link_entry_text(us[i], vs[i])));
    }
}

/// The `Link` header `<u0>; rel="v0", <u1>; rel="v1", ...` of the given entries.
pub open spec fn link_header_text(urls: Seq<Seq<char>>, values: Seq<Seq<char>>) -> Seq<char>
    decreases urls.len(),
{
    if urls.len() == 0 {
        Seq::empty()
    } else if urls.len() == 1 {
        link_entry_text(urls[0], values[0])
    } else {
        link_header_text(urls.drop_last(), values.drop_last()) + seq![',', ' ']
            + link_entry_text(urls.last(), values.last())
    }
}

proof fn lemma_split_all_nonempty(s: Seq<char>, c: char)
    ensures
        split_all(s, c).len() >= 1,
    decreases s.len(),
{
    if s.len() > 0 {
        lemma_split_all_nonempty(s.drop_last(), c);
    }
}

proof fn lemma_split_all_free(t: Seq<char>, c: char)
    requires
        free_of(t, c),
    ensures
        split_all(t, c) == seq![t],
    decreases t.len(),
{
    if t.len() > 0 {
        assert(free_of(t.drop_last(), c)) by {
            assert forall|i: int| 0 <= i < t.drop_last().len() implies #[trigger] t.drop_last()[i] != c by {
                assert(t.drop_last()[i] == t[i]);
            }
        }
        lemma_split_all_free(t.drop_last(), c);
        assert(t[t.len() - 1] != c);
        assert(t.drop_last().push(t.last()) =~= t);
        assert(seq![t.drop_last()].update(0, t.drop_last().push(t.last())) =~= seq![t]);
    } else {
        assert(t =~= Seq::<char>::empty());
    }
}

proof fn lemma_split_all_join(s: Seq<char>, c: char, t: Seq<char>)
    ensures
        split_all(s + seq![c] + t, c) == split_all(s, c) + split_all(t, c),
    decreases t.len(),
{
    lemma_split_all_nonempty(s, c);
    if t.len() == 0 {
        assert(s + seq![c] + t =~= s.push(c));
        assert(s.push(c).drop_last() =~= s);
        assert(split_all(s, c).push(Seq::<char>::empty()) =~= split_all(s, c) + seq![Seq::<char>::empty()]);
    } else {
        let t0 = t.drop_last();
        let x = t.last();
        lemma_split_all_join(s, c, t0);
        lemma_split_all_nonempty(t0, c);
        let w = s + seq![c] + t;
        assert(w.drop_last() =~= s + seq![c] + t0);
        assert(w.last() == x);
        let pa = split_all(s, c);
        let pb = split_all(t0, c);
        if x == c {
            assert((pa + pb).push(Seq::<char>::empty()) =~= pa + pb.push(Seq::<char>::empty()));
        } else {
            assert((pa + pb).update((pa + pb).len() - 1, (pa + pb).last().push(x)) =~= pa + pb.update(
                pb.len() - 1,
                pb.last().push(x),
            ));
        }
    }
}

/// The pieces of a header of entries: the entries, each after the first one with its
/// leading space.
pub open spec fn header_pieces(urls: Seq<Seq<char>>, values: Seq<Seq<char>>) -> Seq<Seq<char>> {
    Seq::new(
        urls.len(),
        |i: int|
            if i == 0 {
                link_entry_text(urls[i], values[i])
            } else {
                seq![' '] + link_entry_text(urls[i], values[i])
            },
    )
}

proof fn lemma_entry_free_of_comma(url: Seq<char>, value: Seq<char>)
    requires
        free_of(url, ','),
        free_of(value, ','),
    ensures
        free_of(link_entry_text(url, value), ','),
        free_of(seq![' '] + link_entry_text(url, value), ','),
{
    let e = link_entry_text(url, value);
    let n = url.len() as int;
    assert forall|i: int| 0 <= i < e.len() implies #[trigger] e[i] != ',' by {
        if 1 <= i <= n {
            assert(e[i] == url[i - 1]);
        } else if n + 9 <= i < e.len() - 1 {
            assert(e[i] == value[i - n - 9]);
        }
    }
    let f = seq![' '] + e;
    assert forall|i: int| 0 <= i < f.len() implies #[trigger] f[i] != ',' by {
        if i > 0 {
            assert(f[i] == e[i - 1]);
        }
    }
}

proof fn lemma_split_header(urls: Seq<Seq<char>>, values: Seq<Seq<char>>)
    requires
        urls.len() == values.len(),
        urls.len() >= 1,
        forall|i: int| 0 <= i < urls.len() ==> free_of(#[trigger] urls[i], ','),
        forall|i: int| 0 <= i < values.len() ==> free_of(#[trigger] values[i], ','),
    ensures
        split_all(link_header_text(urls, values), ',') == header_pieces(urls, values),
    decreases urls.len(),
{
    let n = urls.len() as int;
    lemma_entry_free_of_comma(urls[n - 1], values[n - 1]);
    if n == 1 {
        lemma_split_all_free(link_entry_text(urls[0], values[0]), ',');
        assert(header_pieces(urls, values) =~= seq![link_entry_text(urls[0], values[0])]);
    } else {
        let us = urls.drop_last();
        let vs = values.drop_last();
        assert forall|i: int| 0 <= i < us.len() implies free_of(#[trigger] us[i], ',') by {
            assert(us[i] == urls[i]);
        }
        assert forall|i: int| 0 <= i < vs.len() implies free_of(#[trigger] vs[i], ',') by {
            assert(vs[i] == values[i]);
        }
        lemma_split_header(us, vs);
        let last = seq![' '] + link_entry_text(urls.last(), values.last());
        assert(link_header_text(urls, values) =~= link_header_text(us, vs) + seq![','] + last);
        lemma_split_all_join(link_header_text(us, vs), ',', last);
        lemma_split_all_free(last, ',');
        assert(header_pieces(urls, values) =~= header_pieces(us, vs) + seq![last]);
    }
}

proof fn lemma_pieces_first_next(urls: Seq<Seq<char>>, values: Seq<Seq<char>>, from: int, k: int)
    requires
        urls.len() == values.len(),
        0 <= from <= k < urls.len(),
        forall|i: int| 0 <= i < urls.len() ==> free_of(#[trigger] urls[i], ';'),
        values[k] == seq!['n', 'e', 'x', 't'],
        forall|i: int| 0 <= i < k ==> #[trigger] values[i] != seq!['n', 'e', 'x', 't'],
    ensures
        next_link_in(header_pieces(urls, values).skip(from)) == Ok::<Option<Seq<char>>, LinkError>(
            Some(urls[k]),
        ),
    decreases k - from,
{
    let p = header_pieces(urls, values).skip(from);
    let lead = if from == 0 {
        Seq::<char>::empty()
    } else {
        seq![' ']
    };
    assert(p[0] =~= lead + link_entry_text(urls[from], values[from]));
    lemma_link_entry_after_spaces(lead, urls[from], values[from]);
    if from < k {
        lemma_pieces_first_next(urls, values, from + 1, k);
        assert(p.drop_first() =~= header_pieces(urls, values).skip(from + 1));
    }
}

/// For a `Link` header of entries `<url>; rel="value"` joined by `, ` (no `,` in URLs and
/// values, no `;` in URLs), the next page is the URL of the first entry marked
/// `rel="next"`, whatever entries (`prev`, `first`, `last`) come before or after it.
pub proof fn law_header_first_next(urls: Seq<Seq<char>>, values: Seq<Seq<char>>, k: int)
    requires
        urls.len() == values.len(),
        0 <= k < urls.len(),
        forall|i: int| 0 <= i < urls.len() ==> free_of(#[trigger] urls[i], ';') && free_of(urls[i], ','),
        forall|i: int| 0 <= i < values.len() ==> free_of(#[trigger] values[i], ','),
        values[k] == seq!['n', 'e', 'x', 't'],
        forall|i: int| 0 <= i < k ==> #[trigger] values[i] != seq!['n', 'e', 'x', 't'],
    ensures
        next_link_in(split_all(link_header_text(urls, values), ',')) == Ok::<
            Option<Seq<char>>,
            LinkError,
        >(Some(urls[k])),
{
    assert forall|i: int| 0 <= i < urls.len() implies free_of(#[trigger] urls[i], ',') by {}
    lemma_split_header(urls, values);
    lemma_pieces_first_next(urls, values, 0, k);
    assert(header_pieces(urls, values).skip(0) =~= header_pieces(urls, values));
}

/// A header of entries none of which is marked `rel="next"` names no next page.
pub proof fn law_header_without_next(urls: Seq<Seq<char>>, values: Seq<Seq<char>>)
    requires
        urls.len() == values.len(),
        forall|i: int| 0 <= i < urls.len() ==> free_of(#[trigger] urls[i], ';') && free_of(urls[i], ','),
        forall|i: int| 0 <= i < values.len() ==> free_of(#[trigger] values[i], ',') && values[i] != seq!['n', 'e', 'x', 't'],
    ensures
        urls.len() > 0 ==> next_link_in(split_all(link_header_text(urls, values), ',')) == Ok::<
            Option<Seq<char>>,
            LinkError,
        >(None),
{
    if urls.len() > 0 {
        assert forall|i: int| 0 <= i < urls.len() implies free_of(#[trigger] urls[i], ',') by {}
        lemma_split_header(urls, values);
        lemma_pieces_none(urls, values, 0);
        assert(header_pieces(urls, values).skip(0) =~= header_pieces(urls, values));
    }
}

proof fn lemma_pieces_none(urls: Seq<Seq<char>>, values: Seq<Seq<char>>, from: int)
    requires
        urls.len() == values.len(),
        0 <= from <= urls.len(),
        forall|i: int| 0 <= i < urls.len() ==> free_of(#[trigger] urls[i], ';'),
        forall|i: int| 0 <= i < values.len() ==> #[trigger] values[i] != seq!['n', 'e', 'x', 't'],
    ensures
        next_link_in(header_pieces(urls, values).skip(from)) == Ok::<Option<Seq<char>>, LinkError>(
            None,
        ),
    decreases urls.len() - from,
{
    let p = header_pieces(urls, values).skip(from);
    if from < urls.len() {
        let lead = if from == 0 {
            Seq::<char>::empty()
        } else {
            seq![' ']
        };
        assert(p[0] =~= lead + link_entry_text(urls[from], values[from]));
        lemma_link_entry_after_spaces(lead, urls[from], values[from]);
        lemma_pieces_none(urls, values, from + 1);
        assert(p.drop_first() =~= header_pieces(urls, values).skip(from + 1));
    }
}

/// What `parse_next` answers for the raw bytes of such a header (visible ASCII): the URL
/// of the first entry marked `rel="next"`.
pub proof fn law_parse_next_first_next(bytes: Seq<u8>, urls: Seq<Seq<char>>, values: Seq<Seq<char>>, k: int)
    requires
        forall|i: int| 0 <= i < bytes.len() ==> is_visible_ascii(#[trigger] bytes[i]),
        bytes.map_values(|b: u8| b as char) == link_header_text(urls, values),
        urls.len() == values.len(),
        0 <= k < urls.len(),
        forall|i: int| 0 <= i < urls.len() ==> free_of(#[trigger] urls[i], ';') && free_of(urls[i], ','),
        forall|i: int| 0 <= i < values.len() ==> free_of(#[trigger] values[i], ','),
        values[k] == seq!['n', 'e', 'x', 't'],
        forall|i: int| 0 <= i < k ==> #[trigger] values[i] != seq!['n', 'e', 'x', 't'],
    ensures
        next_link(Some(bytes)) == Ok::<Option<Seq<char>>, LinkError>(Some(urls[k])),
{
    law_header_first_next(urls, values, k);
}

/// Splitting at the first separator gives back, trimmed, the text before it and the text
/// after it: for `a` without `c`, `a c b` splits into `trim(a)` and `trim(b)`.
pub proof fn law_split_2_trim_halves(a: Seq<char>, c: char, b: Seq<char>)
    requires
        free_of(a, c),
    ensures
        split_2_trim_spec(a + seq![c] + b, c) == Some((trim(a), trim(b))),
{
    let s = a + seq![c] + b;
    assert forall|j: int| 0 <= j < a.len() implies #[trigger] s[j] != c by {
        assert(s[j] == a[j]);
    }
    lemma_first_index_of(s, c, a.len() as int);
    assert(s.take(a.len() as int) =~= a);
    assert(s.skip(a.len() as int + 1) =~= b);
}

/// Text without the separator does not split.
pub proof fn law_split_2_trim_needs_separator(s: Seq<char>, c: char)
    requires
        free_of(s, c),
    ensures
        split_2_trim_spec(s, c) is None,
{
    lemma_first_index_of(s, c, s.len() as int);
}

} // verus!
