//! Decisions taken between requests to the GitHub API: whether to fetch another page,
//! how to answer a response status, when the rate limit forces a wait, and the reading
//! of the rate-limit headers.

use vstd::prelude::*;
use crate::link::{header_bytes, header_text, header_value_text, next_link, parse_next, LinkError};
use crate::dates::{format_midnight_rfc3339, in_date_range, rfc3339_midnight, Timestamp, FIRST_DAY, LAST_DAY, UNIX_EPOCH_DAY};
use crate::text::{decimal, push_str, string_of};

verus! {

/// The most pages fetched for one listing.
pub const MAX_PAGES: u64 = 10;

/// What to do after a page has been read.
#[derive(Debug, PartialEq, Eq)]
pub enum PageStep {
    /// The listing is complete.
    Stop,
    /// The response names a next page, but `MAX_PAGES` pages have been read.
    MaxPagesReached,
    /// Fetch the page at this URL next.
    Fetch(String),
}

/// A step, with the URL as characters.
pub enum StepView {
    Stop,
    MaxPagesReached,
    Fetch(Seq<char>),
}

/// The step after page number `page` (counted from 1), for the answer that the page's
/// own filter gave (`keep_going`) and the next-page URL named by the response.
pub open spec fn page_step_spec(page: u64, keep_going: bool, next: Result<Option<Seq<char>>, LinkError>) -> Result<StepView, LinkError> {
    if !keep_going {
        Ok(StepView::Stop)
    } else {
        match next {
            Err(e) => Err(e),
            Ok(None) => Ok(StepView::Stop),
            Ok(Some(url)) => if page >= MAX_PAGES {
                Ok(StepView::MaxPagesReached)
            } else {
                Ok(StepView::Fetch(url))
            },
        }
    }
}

/// The view of a step.
pub open spec fn step_view(r: Result<PageStep, LinkError>) -> Result<StepView, LinkError> {
    match r {
        Ok(PageStep::Stop) => Ok(StepView::Stop),
        Ok(PageStep::MaxPagesReached) => Ok(StepView::MaxPagesReached),
        Ok(PageStep::Fetch(u)) => Ok(StepView::Fetch(u@)),
        Err(e) => Err(e),
    }
}

/// Decides, after page number `page` of a listing, whether to fetch another one.
/// `link_header` holds the raw bytes of the response's `Link` header, if it has one.
/// The header is read only when the page's filter asks to go on; no page is fetched after
/// `MAX_PAGES` of them.
pub fn next_page(page: u64, keep_going: bool, link_header: Option<&[u8]>) -> (r: Result<PageStep, LinkError>)
    ensures
        step_view(r) == page_step_spec(page, keep_going, next_link(header_bytes(link_header))),
        r matches Ok(PageStep::Fetch(_)) ==> page < MAX_PAGES,
        next_link(header_bytes(link_header)) matches Ok(Some(u)) ==> (keep_going && page < 10 ==> (r matches Ok(
            PageStep::Fetch(v),
        ) && v@ == u)),
        r matches Ok(PageStep::MaxPagesReached) ==> page >= 10,
{
    if !keep_going {
        return Ok(PageStep::Stop);
    }
    match parse_next(link_header) {
        Err(e) => Err(e),
        Ok(None) => Ok(PageStep::Stop),
        Ok(Some(url)) => {
            if page >= MAX_PAGES {
                Ok(PageStep::MaxPagesReached)
            } else {
                Ok(PageStep::Fetch(url))
            }
        },
    }
}

/// The rate-limit state that GitHub reports with each response.
#[derive(Debug, Clone, Copy, PartialEq, Eq, Structural)]
pub struct RateLimitValues {
    /// `X-RateLimit-Limit`
    pub limit: u64,
    /// `X-RateLimit-Remaining`
    pub remaining: u64,
    /// `X-RateLimit-Reset`, in seconds since the Unix epoch.
    pub reset: u64,
}

/// Whether the last known rate-limit state forces a wait before the next request.
pub fn must_wait(limits: Option<RateLimitValues>) -> (r: bool)
    ensures
        r == (limits matches Some(l) && l.remaining == 0),
{
    match limits {
        Some(l) => l.remaining == 0,
        None => false,
    }
}

/// How to answer a response.
#[derive(Debug, Clone, Copy, PartialEq, Eq, Structural)]
pub enum ResponseAction {
    /// Status 200: take the body.
    Accept,
    /// Status 403 with no requests left: wait for the reset, then send the request again.
    WaitAndRetry,
    /// Status 403 with requests left.
    UnexpectedForbidden,
    /// Any other status.
    UnexpectedResponse,
}

/// How to answer a response with HTTP status `status`, given the rate-limit state that
/// came with it.
pub fn response_action(status: u16, limits: RateLimitValues) -> (r: ResponseAction)
    ensures
        r == (if status == 200 {
            ResponseAction::Accept
        } else if status == 403 {
            if limits.remaining == 0 {
                ResponseAction::WaitAndRetry
            } else {
                ResponseAction::UnexpectedForbidden
            }
        } else {
            ResponseAction::UnexpectedResponse
        }),
{
    if status == 200 {
        ResponseAction::Accept
    } else if status == 403 {
        if limits.remaining == 0 {
            ResponseAction::WaitAndRetry
        } else {
            ResponseAction::UnexpectedForbidden
        }
    } else {
        ResponseAction::UnexpectedResponse
    }
}

/// Why an integer could not be read, as `core::num::IntErrorKind` names it.
#[derive(Debug, Clone, Copy, PartialEq, Eq, Structural)]
pub enum IntErrorKind {
    Empty,
    InvalidDigit,
    PosOverflow,
}

/// Why a rate-limit header could not be read.
#[derive(Debug, Clone, Copy, PartialEq, Eq, Structural)]
pub enum HeaderError {
    /// The header value holds a byte that is not visible ASCII.
    NotVisibleAscii,
    /// The header value is not a decimal `u64`.
    BadInteger(IntErrorKind),
}

pub open spec fn is_digit(c: char) -> bool {
    '0' <= c <= '9'
}

pub open spec fn digit_value(c: char) -> nat {
    (c as u32 - 48) as nat
}

/// Reads the digits `s` after the value `acc` read so far, as `u64::from_str` does: the
/// first character that is not a digit is an error, and so is a value above `u64::MAX`,
/// whichever comes first.
pub open spec fn digits_value(s: Seq<char>, acc: nat) -> Result<nat, IntErrorKind>
    decreases s.len(),
{
    if s.len() == 0 {
        Ok(acc)
    } else if !is_digit(s[0]) {
        Err(IntErrorKind::InvalidDigit)
    } else if acc * 10 + digit_value(s[0]) > u64::MAX {
        Err(IntErrorKind::PosOverflow)
    } else {
        digits_value(s.drop_first(), acc * 10 + digit_value(s[0]))
    }
}

/// `u64::from_str`: an optional `+`, then one or more decimal digits.
pub open spec fn parse_u64_spec(s: Seq<char>) -> Result<nat, IntErrorKind> {
    if s.len() == 0 {
        Err(IntErrorKind::Empty)
    } else if (s[0] == '+' || s[0] == '-') && s.len() == 1 {
        Err(IntErrorKind::InvalidDigit)
    } else if s[0] == '+' {
        digits_value(s.drop_first(), 0)
    } else {
        digits_value(s, 0)
    }
}

/// Reads a decimal `u64` from `s`, as `str::parse::<u64>` does.
pub fn parse_u64(s: &[char]) -> (r: Result<u64, IntErrorKind>)
    ensures
        match r {
            Ok(v) => parse_u64_spec(s@) == Ok::<nat, IntErrorKind>(v as nat),
            Err(e) => parse_u64_spec(s@) == Err::<nat, IntErrorKind>(e),
        },
{
    let n = s.len();
    if n == 0 {
        return Err(IntErrorKind::Empty);
    }
    if (s[0] == '+' || s[0] == '-') && n == 1 {
        return Err(IntErrorKind::InvalidDigit);
    }
    let start: usize = if s[0] == '+' {
        1
    } else {
        0
    };
    let ghost d = s@.skip(start as int);
    assert(s[0] == '+' ==> d =~= s@.drop_first());
    assert(s[0] != '+' ==> d =~= s@);
    assert(parse_u64_spec(s@) == digits_value(d, 0));
    assert(s@.skip(start as int) =~= d);
    let mut acc: u64 = 0;
    let mut i: usize = start;
    while i < n
        invariant
            n == s@.len(),
            start <= i <= n,
            d == s@.skip(start as int),
            parse_u64_spec(s@) == digits_value(d, 0),
            digits_value(d, 0) == digits_value(s@.skip(i as int), acc as nat),
        decreases n - i,
    {
        let c = s[i];
        assert(s@.skip(i as int)[0] == c);
        assert(s@.skip(i as int).drop_first() =~= s@.skip(i + 1));
        if !('0' <= c && c <= '9') {
            return Err(IntErrorKind::InvalidDigit);
        }
        let dv: u64 = (c as u32 - 48) as u64;
        if acc > 1844674407370955161 || (acc == 1844674407370955161 && dv > 5) {
            assert(acc * 10 + dv > u64::MAX);
            return Err(IntErrorKind::PosOverflow);
        }
        acc = acc * 10 + dv;
        i = i + 1;
    }
    assert(s@.skip(n as int).len() == 0);
    Ok(acc)
}

/// Reads a rate-limit header value: visible ASCII, then a decimal `u64`.
pub open spec fn header_u64(bytes: Seq<u8>) -> Result<nat, HeaderError> {
    match header_text(bytes) {
        None => Err(HeaderError::NotVisibleAscii),
        Some(t) => match parse_u64_spec(t) {
            Ok(v) => Ok(v),
            Err(k) => Err(HeaderError::BadInteger(k)),
        },
    }
}

fn read_header_u64(bytes: &[u8]) -> (r: Result<u64, HeaderError>)
    ensures
        match r {
            Ok(v) => header_u64(bytes@) == Ok::<nat, HeaderError>(v as nat),
            Err(e) => header_u64(bytes@) == Err::<nat, HeaderError>(e),
        },
{
    match header_value_text(bytes) {
        None => Err(HeaderError::NotVisibleAscii),
        Some(t) => match parse_u64(&t) {
            Ok(v) => Ok(v),
            Err(k) => Err(HeaderError::BadInteger(k)),
        },
    }
}

/// The rate-limit state read from the values of the `X-RateLimit-Limit`,
/// `X-RateLimit-Remaining` and `X-RateLimit-Reset` headers, in that order; the first value
/// that cannot be read gives the error.
pub open spec fn rate_limit_spec(limit: Seq<u8>, remaining: Seq<u8>, reset: Seq<u8>) -> Result<(nat, nat, nat), HeaderError> {
    match header_u64(limit) {
        Err(e) => Err(e),
        Ok(l) => match header_u64(remaining) {
            Err(e) => Err(e),
            Ok(m) => match header_u64(reset) {
                Err(e) => Err(e),
                Ok(t) => Ok((l, m, t)),
            },
        },
    }
}

fn read_rate_limit_values(limit: &[u8], remaining: &[u8], reset: &[u8]) -> (r: Result<RateLimitValues, HeaderError>)
    ensures
        match r {
            Ok(v) => rate_limit_spec(limit@, remaining@, reset@) == Ok::<(nat, nat, nat), HeaderError>((v.limit as nat, v.remaining as nat, v.reset as nat)),
            Err(e) => rate_limit_spec(limit@, remaining@, reset@) == Err::<(nat, nat, nat), HeaderError>(e),
        },
{
    let l = match read_header_u64(limit) {
        Ok(v) => v,
        Err(e) => return Err(e),
    };
    let m = match read_header_u64(remaining) {
        Ok(v) => v,
        Err(e) => return Err(e),
    };
    let t = match read_header_u64(reset) {
        Ok(v) => v,
        Err(e) => return Err(e),
    };
    Ok(RateLimitValues { limit: l, remaining: m, reset: t })
}

/// The instant of a reset: its value taken as seconds since the Unix epoch, with the
/// wrapping cast `reset as i64`.
pub open spec fn reset_secs(reset: nat) -> int {
    ((reset as u64) as i64) as int
}

/// An instant `secs` seconds after the Unix epoch that `DateTime<Utc>` can hold, as
/// `Utc.timestamp(secs, 0)` requires: the day it falls on is in chrono's range.
pub open spec fn representable_secs(secs: int) -> bool {
    in_date_range(secs / 86400 + UNIX_EPOCH_DAY)
}

/// Where the rate-limit headers read well, whether their reset instant can be held.
pub open spec fn reset_representable(limit: Seq<u8>, remaining: Seq<u8>, reset: Seq<u8>) -> bool {
    rate_limit_spec(limit, remaining, reset) matches Ok((l, m, t)) ==> representable_secs(reset_secs(t))
}

/// Whether the instant `secs` seconds after the Unix epoch can be held by `DateTime<Utc>`.
pub fn is_representable_secs(secs: i64) -> (r: bool)
    ensures
        r == representable_secs(secs as int),
{
    let first: i64 = (FIRST_DAY as i64 - UNIX_EPOCH_DAY) * 86400;
    let end: i64 = (LAST_DAY as i64 - UNIX_EPOCH_DAY + 1) * 86400;
    proof {
        let q = (secs as int) / 86400;
        let m = (secs as int) % 86400;
        assert(secs == q * 86400 + m && 0 <= m < 86400) by {
            vstd::arithmetic::div_mod::lemma_fundamental_div_mod(secs as int, 86400);
        }
        assert(q >= FIRST_DAY - UNIX_EPOCH_DAY <==> secs >= first) by (nonlinear_arith)
            requires
                secs == q * 86400 + m,
                0 <= m < 86400,
                first == (FIRST_DAY - UNIX_EPOCH_DAY) * 86400,
        ;
        assert(q <= LAST_DAY - UNIX_EPOCH_DAY <==> secs < end) by (nonlinear_arith)
            requires
                secs == q * 86400 + m,
                0 <= m < 86400,
                end == (LAST_DAY - UNIX_EPOCH_DAY + 1) * 86400,
        ;
    }
    first <= secs && secs < end
}

/// Reads the rate-limit state from the raw values of its three headers. The reset must be
/// an instant that `DateTime<Utc>` can hold.
pub fn get_rate_limit_values(limit: &[u8], remaining: &[u8], reset: &[u8]) -> (r: Result<RateLimitValues, HeaderError>)
    requires
        reset_representable(limit@, remaining@, reset@),
    ensures
        match r {
            Ok(v) => rate_limit_spec(limit@, remaining@, reset@) == Ok::<(nat, nat, nat), HeaderError>((v.limit as nat, v.remaining as nat, v.reset as nat)),
            Err(e) => rate_limit_spec(limit@, remaining@, reset@) == Err::<(nat, nat, nat), HeaderError>(e),
        },
{
    read_rate_limit_values(limit, remaining, reset)
}

/// Reads the rate-limit state from the raw values of its three headers, as
/// `get_rate_limit_values`; `None` where they read well but the reset is an instant that
/// `DateTime<Utc>` cannot hold.
pub fn checked_rate_limit_values(limit: &[u8], remaining: &[u8], reset: &[u8]) -> (r: Option<Result<RateLimitValues, HeaderError>>)
    ensures
        r is None <==> !reset_representable(limit@, remaining@, reset@),
        match r {
            Some(Ok(v)) => rate_limit_spec(limit@, remaining@, reset@) == Ok::<(nat, nat, nat), HeaderError>((v.limit as nat, v.remaining as nat, v.reset as nat)),
            Some(Err(e)) => rate_limit_spec(limit@, remaining@, reset@) == Err::<(nat, nat, nat), HeaderError>(e),
            None => true,
        },
{
    match read_rate_limit_values(limit, remaining, reset) {
        Err(e) => Some(Err(e)),
        Ok(v) => {
            if is_representable_secs(v.reset as i64) {
                Some(Ok(v))
            } else {
                None
            }
        },
    }
}

/// The reset instant of a rate-limit state.
pub fn reset_instant(limits: RateLimitValues) -> (r: Timestamp)
    ensures
        r.secs == reset_secs(limits.reset as nat),
        r.nanos == 0,
{
    Timestamp { secs: limits.reset as i64, nanos: 0 }
}

proof fn lemma_digits_value_push(s: Seq<char>, c: char, acc: nat)
    ensures
        digits_value(s.push(c), acc) == (match digits_value(s, acc) {
            Ok(v) => if !is_digit(c) {
                Err(IntErrorKind::InvalidDigit)
            } else if v * 10 + digit_value(c) > u64::MAX {
                Err(IntErrorKind::PosOverflow)
            } else {
                Ok(v * 10 + digit_value(c))
            },
            Err(e) => Err(e),
        }),
    decreases s.len(),
{
    if s.len() == 0 {
        assert(s.push(c).drop_first() =~= Seq::<char>::empty());
        assert(s.push(c)[0] == c);
        assert(digits_value(Seq::<char>::empty(), acc * 10 + digit_value(c)) == Ok::<nat, IntErrorKind>(acc * 10 + digit_value(c)));
    } else {
        assert(s.push(c)[0] == s[0]);
        assert(s.push(c).drop_first() =~= s.drop_first().push(c));
        if is_digit(s[0]) && acc * 10 + digit_value(s[0]) <= u64::MAX {
            lemma_digits_value_push(s.drop_first(), c, acc * 10 + digit_value(s[0]));
        }
    }
}

proof fn lemma_decimal_digits(n: nat)
    requires
        n <= u64::MAX,
    ensures
        digits_value(decimal(n), 0) == Ok::<nat, IntErrorKind>(n),
        decimal(n).len() >= 1,
        is_digit(decimal(n)[0]),
    decreases n,
{
    if n < 10 {
        assert(((48 + n) as char) as u32 == 48 + n);
        assert(digit_value((48 + n) as char) == n);
        assert(decimal(n) == seq![((48 + n) as char)]);
        assert(seq![((48 + n) as char)].drop_first() =~= Seq::<char>::empty());
        assert(digits_value(Seq::<char>::empty(), n) == Ok::<nat, IntErrorKind>(n));
    } else {
        let q = n / 10;
        let r = n % 10;
        assert(q * 10 + r == n) by (nonlinear_arith)
            requires
                q == n / 10,
                r == n % 10,
        ;
        lemma_decimal_digits(q);
        assert(((48 + r) as char) as u32 == 48 + r);
        assert(digit_value(crate::text::digit_char(r)) == r);
        assert(is_digit(crate::text::digit_char(r)));
        lemma_digits_value_push(decimal(q), crate::text::digit_char(r), 0);
        assert(decimal(n)[0] == decimal(q)[0]);
    }
}

/// Reading back the decimal text of a number gives the number: what `parse_u64` reads
/// from what `push_decimal` writes.
pub proof fn law_decimal_parse_roundtrip(n: u64)
    ensures
        parse_u64_spec(decimal(n as nat)) == Ok::<nat, IntErrorKind>(n as nat),
{
    lemma_decimal_digits(n as nat);
}

/// The listing of the closed pull requests of `repo` (`owner/name`), most recently updated
/// first.
pub open spec fn merged_pulls_listing(repo: Seq<char>) -> Seq<char> {
    "https://api.github.com/repos/"@ + repo + "/pulls?state=closed&sort=updated&direction=desc"@
}

/// The listing of the issues of `repo` in state `state`, most recently updated first,
/// updated at or after `since`.
pub open spec fn issues_listing(repo: Seq<char>, state: Seq<char>, since: Seq<char>) -> Seq<char> {
    "https://api.github.com/repos/"@ + repo + "/issues?state="@ + state + "&sort=updated&direction=desc&since="@ + since
}

/// The URL of the first page of closed pull requests of `repo`.
pub fn merged_pulls_url(repo: &str) -> (r: String)
    ensures
        r@ == merged_pulls_listing(repo@),
{
    let mut out: Vec<char> = Vec::new();
    push_str(&mut out, "https://api.github.com/repos/");
    push_str(&mut out, repo);
    push_str(&mut out, "/pulls?state=closed&sort=updated&direction=desc");
    assert(out@ =~= merged_pulls_listing(repo@));
    string_of(&out)
}

/// The URL of the first page of issues of `repo` in state `state`, updated at or after the
/// instant written `since`.
pub fn issues_listing_url(repo: &str, state: &str, since: &str) -> (r: String)
    ensures
        r@ == issues_listing(repo@, state@, since@),
{
    let mut out: Vec<char> = Vec::new();
    push_str(&mut out, "https://api.github.com/repos/");
    push_str(&mut out, repo);
    push_str(&mut out, "/issues?state=");
    push_str(&mut out, state);
    push_str(&mut out, "&sort=updated&direction=desc&since=");
    push_str(&mut out, since);
    assert(out@ =~= issues_listing(repo@, state@, since@));
    string_of(&out)
}

/// The URL of the first page of closed issues of `repo` updated since midnight UTC at the
/// start of the day numbered `begin`, written as RFC 3339 with milliseconds; `None` where
/// chrono cannot represent that day.
pub fn closed_issues_url(repo: &str, begin: i32) -> (r: Option<String>)
    ensures
        r is Some <==> in_date_range(begin as int),
        r matches Some(u) ==> u@ == issues_listing(repo@, "closed"@, rfc3339_midnight(begin as int)),
{
    match format_midnight_rfc3339(begin) {
        Some(since) => Some(issues_listing_url(repo, "closed", since.as_str())),
        None => None,
    }
}

/// The URL of the first page of open issues of `repo` updated since midnight UTC at the
/// start of the day numbered `begin`, written as RFC 3339 with milliseconds; `None` where
/// chrono cannot represent that day.
pub fn open_issues_url(repo: &str, begin: i32) -> (r: Option<String>)
    ensures
        r is Some <==> in_date_range(begin as int),
        r matches Some(u) ==> u@ == issues_listing(repo@, "open"@, rfc3339_midnight(begin as int)),
{
    match format_midnight_rfc3339(begin) {
        Some(since) => Some(issues_listing_url(repo, "open", since.as_str())),
        None => None,
    }
}

/// The listings asked for: closed pull requests, and closed or open issues updated since
/// a given instant, each most recently updated first.
pub proof fn law_listing_urls(repo: Seq<char>, since: Seq<char>)
    ensures
        merged_pulls_listing(repo) == "https://api.github.com/repos/"@ + repo
            + "/pulls?state=closed&sort=updated&direction=desc"@,
        issues_listing(repo, "closed"@, since) == "https://api.github.com/repos/"@ + repo
            + "/issues?state=closed&sort=updated&direction=desc&since="@ + since,
        issues_listing(repo, "open"@, since) == "https://api.github.com/repos/"@ + repo
            + "/issues?state=open&sort=updated&direction=desc&since="@ + since,
{
    reveal_strlit("/issues?state=");
    reveal_strlit("closed");
    reveal_strlit("open");
    reveal_strlit("&sort=updated&direction=desc&since=");
    reveal_strlit("/issues?state=closed&sort=updated&direction=desc&since=");
    reveal_strlit("/issues?state=open&sort=updated&direction=desc&since=");
    let pre = "https://api.github.com/repos/"@ + repo;
    assert("/issues?state="@ + "closed"@ + "&sort=updated&direction=desc&since="@
        =~= "/issues?state=closed&sort=updated&direction=desc&since="@);
    assert("/issues?state="@ + "open"@ + "&sort=updated&direction=desc&since="@
        =~= "/issues?state=open&sort=updated&direction=desc&since="@);
    assert(issues_listing(repo, "closed"@, since) =~= pre + ("/issues?state="@ + "closed"@
        + "&sort=updated&direction=desc&since="@) + since);
    assert(issues_listing(repo, "open"@, since) =~= pre + ("/issues?state="@ + "open"@
        + "&sort=updated&direction=desc&since="@) + since);
}

/// Before the tenth page, a listing whose filter asks to go on follows the next link the
/// response names.
pub proof fn law_paging_follows_next_link(page: u64, url: Seq<char>)
    requires
        page < 10,
    ensures
        page_step_spec(page, true, Ok(Some(url))) == Ok::<StepView, LinkError>(StepView::Fetch(url)),
{
}

/// A listing stops for its page limit only from the tenth page on, and only where the
/// filter asks to go on and the response names a next page.
pub proof fn law_paging_limit(page: u64, keep_going: bool, next: Result<Option<Seq<char>>, LinkError>)
    ensures
        page_step_spec(page, keep_going, next) matches Ok(StepView::MaxPagesReached) ==> (page >= 10
            && keep_going && (next matches Ok(Some(_)))),
        (page >= 10 && keep_going && (next matches Ok(Some(_)))) ==> (page_step_spec(page, keep_going, next)
            matches Ok(StepView::MaxPagesReached)),
{
}

/// A listing whose filter says no later item can be in the window stops, whatever the
/// response's `Link` header holds, even a malformed one.
pub proof fn law_paging_stops_when_filter_says_so(page: u64, next: Result<Option<Seq<char>>, LinkError>)
    ensures
        page_step_spec(page, false, next) matches Ok(StepView::Stop),
{
}

/// A listing whose response names no next page stops.
pub proof fn law_paging_stops_without_next_link(page: u64, keep_going: bool)
    ensures
        page_step_spec(page, keep_going, Ok(None)) matches Ok(StepView::Stop),
{
}

proof fn lemma_digits_value_only_digits(t: Seq<char>, acc: nat)
    ensures
        digits_value(t, acc) is Ok ==> forall|i: int| 0 <= i < t.len() ==> '0' <= #[trigger] t[i] <= '9',
    decreases t.len(),
{
    if t.len() > 0 && is_digit(t[0]) && acc * 10 + digit_value(t[0]) <= u64::MAX {
        lemma_digits_value_only_digits(t.drop_first(), acc * 10 + digit_value(t[0]));
        if digits_value(t, acc) is Ok {
            assert forall|i: int| 0 <= i < t.len() implies '0' <= #[trigger] t[i] <= '9' by {
                if i > 0 {
                    assert(t[i] == t.drop_first()[i - 1]);
                }
            }
        }
    }
}

/// A value that reads as a number is one or more decimal digits, after at most one `+`:
/// a sign `-`, a space, a letter, or nothing at all make it an error.
pub proof fn law_parse_u64_accepts_only_digits(s: Seq<char>)
    ensures
        parse_u64_spec(s) is Ok ==> {
            let start = if s[0] == '+' {
                1int
            } else {
                0int
            };
            &&& start < s.len()
            &&& forall|i: int| start <= i < s.len() ==> '0' <= #[trigger] s[i] <= '9'
        },
        s.len() == 0 ==> parse_u64_spec(s) == Err::<nat, IntErrorKind>(IntErrorKind::Empty),
{
    if s.len() > 0 {
        if s[0] == '+' {
            lemma_digits_value_only_digits(s.drop_first(), 0);
            if parse_u64_spec(s) is Ok {
                assert forall|i: int| 1 <= i < s.len() implies '0' <= #[trigger] s[i] <= '9' by {
                    assert(s[i] == s.drop_first()[i - 1]);
                }
            }
        } else {
            lemma_digits_value_only_digits(s, 0);
        }
    }
}

} // verus!
