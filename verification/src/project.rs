//! Projects of the configuration, the GitHub URLs of their repositories, and the names
//! that the report derives from them.

use vstd::prelude::*;
use crate::text::{chars_of, push_str, same_chars, string_of};

verus! {

/// A project of the configuration: a name, a home page, and the repositories
/// (`owner/name`) that make it up.
#[derive(Debug)]
pub struct Project {
    pub name: String,
    pub url: String,
    pub repos: Vec<String>,
}

/// The configuration: the projects to report on.
#[derive(Debug)]
pub struct Config {
    pub projects: Vec<Project>,
}

/// The web address that repository URLs start with.
pub open spec fn github_prefix() -> Seq<char> {
    seq!['h', 't', 't', 'p', 's', ':', '/', '/', 'g', 'i', 't', 'h', 'u', 'b', '.', 'c', 'o', 'm', '/']
}

/// The web URL of the repository `repo` (`owner/name`).
pub open spec fn repo_url(repo: Seq<char>) -> Seq<char> {
    github_prefix() + repo
}

fn github_prefix_chars() -> (v: Vec<char>)
    ensures
        v@ == github_prefix(),
{
    let v = vec!['h', 't', 't', 'p', 's', ':', '/', '/', 'g', 'i', 't', 'h', 'u', 'b', '.', 'c', 'o', 'm', '/'];
    assert(v@ =~= github_prefix());
    v
}

/// The characters of the web URL of `repo`.
pub fn repo_url_chars(repo: &str) -> (v: Vec<char>)
    ensures
        v@ == repo_url(repo@),
{
    let mut v = github_prefix_chars();
    push_str(&mut v, repo);
    v
}

/// The web URL of the repository `repo` (`owner/name`).
pub fn repo_name_to_url(repo: &str) -> (r: String)
    ensures
        r@ == repo_url(repo@),
{
    let v = repo_url_chars(repo);
    string_of(&v)
}

/// How many times `c` occurs in `s`.
pub open spec fn count_char(s: Seq<char>, c: char) -> nat
    decreases s.len(),
{
    if s.len() == 0 {
        0
    } else {
        count_char(s.drop_last(), c) + if s.last() == c {
            1nat
        } else {
            0nat
        }
    }
}

/// `s` without its last `n` parts separated by `/`, the separators included: the text
/// before the `n`-th `/` from the end.
pub open spec fn drop_parts(s: Seq<char>, n: nat) -> Seq<char>
    decreases s.len(),
{
    if s.len() == 0 {
        s
    } else if s.last() == '/' {
        if n <= 1 {
            s.drop_last()
        } else {
            drop_parts(s.drop_last(), (n - 1) as nat)
        }
    } else {
        drop_parts(s.drop_last(), n)
    }
}

/// The web URL of the repository of an issue, from the issue's web URL: the URL without its
/// last two `/`-separated parts (`.../owner/name/issues/7` gives `.../owner/name`), as
/// splitting on `/`, dropping two parts and joining again gives it. The URL must have more
/// than two parts.
pub fn repo_from_issue(issue: &str) -> (r: String)
    requires
        count_char(issue@, '/') >= 2,
    ensures
        r@ == drop_parts(issue@, 2),
{
    let cs = chars_of(issue);
    let n = cs.len();
    let mut seen: usize = 0;
    let mut i: usize = n;
    assert(cs@.take(n as int) =~= cs@);
    loop
        invariant_except_break
            seen < 2,
            count_char(cs@.take(i as int), '/') + seen == count_char(cs@, '/'),
            drop_parts(cs@, 2) == drop_parts(cs@.take(i as int), (2 - seen) as nat),
        invariant
            cs@ == issue@,
            n == cs@.len(),
            i <= n,
            count_char(cs@, '/') >= 2,
        ensures
            i <= n,
            drop_parts(cs@, 2) == cs@.take(i as int),
        decreases i,
    {
        if i == 0 {
            assert(cs@.take(0).len() == 0);
            assert(false);
        }
        assert(cs@.take(i as int).drop_last() =~= cs@.take(i - 1));
        assert(cs@.take(i as int).last() == cs@[i - 1]);
        i = i - 1;
        if cs[i] == '/' {
            if seen == 1 {
                assert(cs@.take(i + 1).drop_last() =~= cs@.take(i as int));
                break;
            }
            seen = seen + 1;
        }
    }
    let mut out: Vec<char> = Vec::new();
    let mut j: usize = 0;
    while j < i
        invariant
            j <= i <= n,
            n == cs@.len(),
            out@ == cs@.take(j as int),
        decreases i - j,
    {
        out.push(cs[j]);
        assert(cs@.take(j + 1) =~= cs@.take(j as int).push(cs@[j as int]));
        j = j + 1;
    }
    string_of(&out)
}

/// The character that the stub name has in place of `c`: ASCII letters in lower case,
/// `_` for a space.
pub open spec fn stub_char(c: char) -> char {
    if 'A' <= c <= 'Z' {
        ((c as u32) + 32) as char
    } else if c == ' ' {
        '_'
    } else {
        c
    }
}

/// The stub name of a project name: in ASCII lower case, with `_` for each space
/// (`to_ascii_lowercase`, then `replace(" ", "_")`).
pub open spec fn stubname(name: Seq<char>) -> Seq<char> {
    name.map_values(|c: char| stub_char(c))
}

/// The stub name of a project, which names the report's link references.
pub fn make_stubname(project: &Project) -> (r: String)
    ensures
        r@ == stubname(project.name@),
{
    let cs = chars_of(project.name.as_str());
    let mut out: Vec<char> = Vec::new();
    let mut i: usize = 0;
    while i < cs.len()
        invariant
            i <= cs@.len(),
            out@ == cs@.take(i as int).map_values(|c: char| stub_char(c)),
        decreases cs@.len() - i,
    {
        let c = cs[i];
        let d = if 'A' <= c && c <= 'Z' {
            ((c as u32) + 32) as u8 as char
        } else if c == ' ' {
            '_'
        } else {
            c
        };
        assert(d == stub_char(c));
        out.push(d);
        assert(cs@.take(i + 1).map_values(|c: char| stub_char(c)) =~= cs@.take(i as int).map_values(
            |c: char| stub_char(c),
        ).push(stub_char(c)));
        i = i + 1;
    }
    assert(cs@.take(cs@.len() as int) =~= cs@);
    string_of(&out)
}

/// Whether a project named `name` is reported on, where only the project named `only`
/// (if any) is to be.
pub open spec fn is_selected(name: Seq<char>, only: Option<Seq<char>>) -> bool {
    match only {
        None => true,
        Some(o) => name == o,
    }
}

/// The view of an optional name.
pub open spec fn opt_view(only: Option<&str>) -> Option<Seq<char>> {
    match only {
        Some(o) => Some(o@),
        None => None,
    }
}

fn str_eq(a: &str, b: &str) -> (r: bool)
    ensures
        r == (a@ == b@),
{
    let x = chars_of(a);
    let y = chars_of(b);
    same_chars(x.as_slice(), y.as_slice())
}

/// The positions, in order, of the projects to report on: all of them, or those named
/// `only_project`.
pub fn selected_projects(config: &Config, only_project: Option<&str>) -> (r: Vec<usize>)
    ensures
        forall|j: int, k: int| 0 <= j < k < r@.len() ==> r@[j] < r@[k],
        forall|j: int| 0 <= j < r@.len() ==> (#[trigger] r@[j]) < config.projects@.len(),
        forall|j: int| 0 <= j < r@.len() ==> is_selected(config.projects@[#[trigger] r@[j] as int].name@, opt_view(only_project)),
        forall|i: int| 0 <= i < config.projects@.len() && is_selected(config.projects@[i].name@, opt_view(only_project)) ==> r@.contains(i as usize),
        only_project is None ==> r@.len() == config.projects@.len(),
        only_project matches Some(o) ==> forall|j: int| 0 <= j < r@.len() ==> config.projects@[#[trigger] r@[j] as int].name@ == o@,
        only_project matches Some(o) ==> forall|i: int| 0 <= i < config.projects@.len() && config.projects@[i].name@ == o@ ==> r@.contains(i as usize),
{
    let mut r: Vec<usize> = Vec::new();
    let mut i: usize = 0;
    while i < config.projects.len()
        invariant
            i <= config.projects@.len(),
            forall|j: int, k: int| 0 <= j < k < r@.len() ==> r@[j] < r@[k],
            forall|j: int| 0 <= j < r@.len() ==> (#[trigger] r@[j]) < i,
            forall|j: int| 0 <= j < r@.len() ==> is_selected(config.projects@[#[trigger] r@[j] as int].name@, opt_view(only_project)),
            forall|m: int| 0 <= m < i && is_selected(config.projects@[m].name@, opt_view(only_project)) ==> r@.contains(m as usize),
            only_project is None ==> r@.len() == i,
        decreases config.projects@.len() - i,
    {
        let chosen = match only_project {
            None => true,
            Some(o) => str_eq(config.projects[i].name.as_str(), o),
        };
        if chosen {
            let ghost before = r@;
            r.push(i);
            assert forall|m: int| 0 <= m < i + 1 && is_selected(config.projects@[m].name@, opt_view(only_project)) implies r@.contains(m as usize) by {
                if m < i {
                    let w = choose|w: int| 0 <= w < before.len() && before[w] == m as usize;
                    assert(r@[w] == m as usize);
                } else {
                    assert(r@[before.len() as int] == i);
                }
            }
        }
        i = i + 1;
    }
    r
}

proof fn lemma_drop_parts_no_slash(a: Seq<char>, t: Seq<char>, n: nat)
    requires
        forall|i: int| 0 <= i < t.len() ==> #[trigger] t[i] != '/',
    ensures
        drop_parts(a + t, n) == drop_parts(a, n),
    decreases t.len(),
{
    if t.len() > 0 {
        assert((a + t).drop_last() =~= a + t.drop_last());
        assert((a + t).last() == t[t.len() - 1]);
        assert forall|i: int| 0 <= i < t.drop_last().len() implies #[trigger] t.drop_last()[i] != '/' by {
            assert(t.drop_last()[i] == t[i]);
        }
        lemma_drop_parts_no_slash(a, t.drop_last(), n);
    } else {
        assert(a + t =~= a);
    }
}

/// The repository of an issue is read back from the issue's web URL: for the URL
/// `<repo url>/<part>/<number>` with no `/` in the last two parts, it is `<repo url>`.
pub proof fn law_repo_from_issue_url(repo: Seq<char>, part: Seq<char>, number: Seq<char>)
    requires
        forall|i: int| 0 <= i < part.len() ==> #[trigger] part[i] != '/',
        forall|i: int| 0 <= i < number.len() ==> #[trigger] number[i] != '/',
    ensures
        drop_parts(repo_url(repo) + seq!['/'] + part + seq!['/'] + number, 2) == repo_url(repo),
{
    let u = repo_url(repo);
    let a = u + seq!['/'] + part + seq!['/'];
    assert(u + seq!['/'] + part + seq!['/'] + number =~= a + number);
    lemma_drop_parts_no_slash(a, number, 2);
    let b = u + seq!['/'] + part;
    assert(a =~= b.push('/'));
    assert(a.drop_last() =~= b);
    lemma_drop_parts_no_slash(u + seq!['/'], part, 1);
    assert(b =~= (u + seq!['/']) + part);
    assert((u + seq!['/']).drop_last() =~= u);
    assert((u + seq!['/']).last() == '/');
}

/// A stub name holds no space and no upper-case ASCII letter, and has as many characters
/// as the project name.
pub proof fn law_stubname_shape(name: Seq<char>)
    ensures
        stubname(name).len() == name.len(),
        forall|i: int| 0 <= i < name.len() ==> {
            &&& #[trigger] stubname(name)[i] != ' '
            &&& !('A' <= stubname(name)[i] <= 'Z')
        },
{
    assert forall|i: int| 0 <= i < name.len() implies {
        &&& #[trigger] stubname(name)[i] != ' '
        &&& !('A' <= stubname(name)[i] <= 'Z')
    } by {
        let c = name[i];
        if 'A' <= c <= 'Z' {
            assert(((c as u32) + 32) as char as u32 == (c as u32) + 32);
        }
    }
}

/// Each character of a stub name comes from the character of the project name at the same
/// place: a space becomes `_`, an ASCII capital its small letter, and every other
/// character stays.
pub proof fn law_stubname_chars(name: Seq<char>)
    ensures
        stubname(name).len() == name.len(),
        forall|i: int| 0 <= i < name.len() ==> {
            &&& name[i] == ' ' ==> #[trigger] stubname(name)[i] == '_'
            &&& 'A' <= name[i] <= 'Z' ==> stubname(name)[i] as u32 == name[i] as u32 + 32
            &&& !('A' <= name[i] <= 'Z') && name[i] != ' ' ==> stubname(name)[i] == name[i]
        },
{
    assert forall|i: int| 0 <= i < name.len() implies {
        &&& name[i] == ' ' ==> #[trigger] stubname(name)[i] == '_'
        &&& 'A' <= name[i] <= 'Z' ==> stubname(name)[i] as u32 == name[i] as u32 + 32
        &&& !('A' <= name[i] <= 'Z') && name[i] != ' ' ==> stubname(name)[i] == name[i]
    } by {
        let c = name[i];
        if 'A' <= c <= 'Z' {
            assert(((c as u32) + 32) as char as u32 == (c as u32) + 32);
        }
    }
}

/// A repository's web URL is `https://github.com/` followed by its `owner/name`.
pub proof fn law_repo_url_text(repo: Seq<char>)
    ensures
        repo_url(repo) == "https://github.com/"@ + repo,
{
    reveal_strlit("https://github.com/");
    assert(github_prefix() =~= "https://github.com/"@);
}

} // verus!
