//! The markdown summary of a project: counts with links to GitHub searches, then the
//! list of merged pull requests.

use vstd::prelude::*;
use crate::activity::PullWithComments;
use crate::dates::{day_before, format_day, in_date_range, iso_date};
use crate::project::{make_stubname, stubname, Project};
use crate::stats::{stats_view, total, PullStat, PullStats};
use crate::text::{decimal, push_decimal, push_str, string_of};

verus! {

/// `[n][<stub><kind>n]`: a numbered reference to a link definition.
pub open spec fn ref_item(stub: Seq<char>, kind: Seq<char>, n: nat) -> Seq<char> {
    "["@ + decimal(n) + "]["@ + stub + kind + decimal(n) + "]"@
}

/// The references numbered 1 to `n`, separated by `, `.
pub open spec fn ref_list(stub: Seq<char>, kind: Seq<char>, n: nat) -> Seq<char>
    decreases n,
{
    if n == 0 {
        Seq::empty()
    } else if n == 1 {
        ref_item(stub, kind, 1)
    } else {
        ref_list(stub, kind, (n - 1) as nat) + ", "@ + ref_item(stub, kind, n)
    }
}

/// The link definitions, one line per repository of `stats`:
/// `[<stub><kind>n]: <repo><query><begin>..<end>`.
pub open spec fn link_defs(
    stub: Seq<char>,
    kind: Seq<char>,
    stats: Seq<(Seq<char>, nat)>,
    query: Seq<char>,
    begin: Seq<char>,
    end: Seq<char>,
) -> Seq<char>
    decreases stats.len(),
{
    if stats.len() == 0 {
        Seq::empty()
    } else {
        link_defs(stub, kind, stats.drop_last(), query, begin, end) + "["@ + stub + kind + decimal(
            stats.len(),
        ) + "]: "@ + stats.last().0 + query + begin + ".."@ + end + "\n"@
    }
}

/// The line of one merged pull request, with a comment line where it has review comments.
pub open spec fn pull_line(p: PullWithComments) -> Seq<char> {
    "- PR: ["@ + p.pull.title@ + "]("@ + p.pull.html_url@ + ") by [@"@ + p.pull.login@
        + "](https://github.com/"@ + p.pull.login@ + ")\n"@ + if p.comments > 0 {
        "  <!-- ^ comments: "@ + decimal(p.comments as nat) + " -->\n"@
    } else {
        Seq::empty()
    }
}

/// The lines of the merged pull requests, in order.
pub open spec fn pull_lines(pulls: Seq<PullWithComments>) -> Seq<char>
    decreases pulls.len(),
{
    if pulls.len() == 0 {
        Seq::empty()
    } else {
        pull_lines(pulls.drop_last()) + pull_line(pulls.last())
    }
}

pub open spec fn merged_kind() -> Seq<char> {
    "-merged-prs-"@
}

pub open spec fn closed_kind() -> Seq<char> {
    "-closed_issues-"@
}

pub open spec fn open_kind() -> Seq<char> {
    "-open_issues-"@
}

pub open spec fn merged_query() -> Seq<char> {
    "/pulls?q=is%3Apr+is%3Aclosed+merged%3A"@
}

pub open spec fn closed_query() -> Seq<char> {
    "/issues?q=is%3Aissue+is%3Aclosed+closed%3A"@
}

pub open spec fn open_query() -> Seq<char> {
    "/issues?q=is%3Aissue+is%3Aopen+created%3A"@
}

/// The summary of a project: a heading, the three totals each with references to one
/// search per repository, the definitions of those references (searches from `begin` to
/// `end`, both included), and the merged pull requests.
pub open spec fn report(
    name: Seq<char>,
    url: Seq<char>,
    pulls: Seq<PullWithComments>,
    merged: Seq<(Seq<char>, nat)>,
    closed: Seq<(Seq<char>, nat)>,
    open: Seq<(Seq<char>, nat)>,
    begin: Seq<char>,
    end: Seq<char>,
) -> Seq<char> {
    let stub = stubname(name);
    "#### [**"@ + name + "**]("@ + url + ")\n"@ + "\n"@ + decimal(total(merged)) + " merged PRs ("@
        + ref_list(stub, merged_kind(), merged.len()) + "), "@ + decimal(total(closed))
        + " closed issues ("@ + ref_list(stub, closed_kind(), closed.len()) + "), \n"@
        + decimal(total(open)) + " open issues ("@ + ref_list(stub, open_kind(), open.len())
        + ")\n"@ + "\n"@ + link_defs(stub, merged_kind(), merged, merged_query(), begin, end)
        + link_defs(stub, closed_kind(), closed, closed_query(), begin, end) + link_defs(
        stub,
        open_kind(),
        open,
        open_query(),
        begin,
        end,
    ) + "\n"@ + pull_lines(pulls) + "\n"@
}

fn push_ref_list(out: &mut Vec<char>, stub: &str, kind: &str, n: usize)
    ensures
        final(out)@ == old(out)@ + ref_list(stub@, kind@, n as nat),
{
    let ghost start = out@;
    let mut i: usize = 0;
    assert(start =~= start + ref_list(stub@, kind@, 0));
    while i < n
        invariant
            i <= n,
            out@ == start + ref_list(stub@, kind@, i as nat),
        decreases n - i,
    {
        let ghost before = out@;
        if i > 0 {
            push_str(out, ", ");
        }
        push_str(out, "[");
        push_decimal(out, (i + 1) as u64);
        push_str(out, "][");
        push_str(out, stub);
        push_str(out, kind);
        push_decimal(out, (i + 1) as u64);
        push_str(out, "]");
        proof {
            let item = ref_item(stub@, kind@, (i + 1) as nat);
            if i > 0 {
                assert(out@ =~= before + ", "@ + item);
                assert(ref_list(stub@, kind@, (i + 1) as nat) == ref_list(stub@, kind@, i as nat) + ", "@ + item);
                assert(out@ =~= start + ref_list(stub@, kind@, (i + 1) as nat));
            } else {
                assert(out@ =~= before + item);
                assert(out@ =~= start + ref_list(stub@, kind@, (i + 1) as nat));
            }
        }
        i = i + 1;
    }
}

fn push_link_defs(
    out: &mut Vec<char>,
    stub: &str,
    kind: &str,
    stats: &Vec<PullStat>,
    query: &str,
    begin: &str,
    end: &str,
)
    ensures
        final(out)@ == old(out)@ + link_defs(stub@, kind@, stats_view(stats@), query@, begin@, end@),
{
    let ghost start = out@;
    let ghost sv = stats_view(stats@);
    let mut i: usize = 0;
    assert(sv.take(0) =~= Seq::<(Seq<char>, nat)>::empty());
    assert(start =~= start + link_defs(stub@, kind@, sv.take(0), query@, begin@, end@));
    while i < stats.len()
        invariant
            i <= stats@.len(),
            sv == stats_view(stats@),
            out@ == start + link_defs(stub@, kind@, sv.take(i as int), query@, begin@, end@),
        decreases stats@.len() - i,
    {
        let ghost before = out@;
        push_str(out, "[");
        push_str(out, stub);
        push_str(out, kind);
        push_decimal(out, (i + 1) as u64);
        push_str(out, "]: ");
        push_str(out, stats[i].repo.as_str());
        push_str(out, query);
        push_str(out, begin);
        push_str(out, "..");
        push_str(out, end);
        push_str(out, "\n");
        proof {
            let t = sv.take(i + 1);
            assert(t.drop_last() =~= sv.take(i as int));
            assert(t.last() == (stats@[i as int].repo@, stats@[i as int].count as nat));
            assert(t.len() == i + 1);
            assert(out@ =~= start + link_defs(stub@, kind@, t, query@, begin@, end@));
        }
        i = i + 1;
    }
    assert(sv.take(stats@.len() as int) =~= sv);
}

fn push_pull_lines(out: &mut Vec<char>, pulls: &Vec<PullWithComments>)
    ensures
        final(out)@ == old(out)@ + pull_lines(pulls@),
{
    let ghost start = out@;
    let mut i: usize = 0;
    assert(pulls@.take(0) =~= Seq::<PullWithComments>::empty());
    assert(start =~= start + pull_lines(pulls@.take(0)));
    while i < pulls.len()
        invariant
            i <= pulls@.len(),
            out@ == start + pull_lines(pulls@.take(i as int)),
        decreases pulls@.len() - i,
    {
        let ghost before = out@;
        let p = &pulls[i];
        push_str(out, "- PR: [");
        push_str(out, p.pull.title.as_str());
        push_str(out, "](");
        push_str(out, p.pull.html_url.as_str());
        push_str(out, ") by [@");
        push_str(out, p.pull.login.as_str());
        push_str(out, "](https://github.com/");
        push_str(out, p.pull.login.as_str());
        push_str(out, ")\n");
        let ghost mid = out@;
        if p.comments > 0 {
            push_str(out, "  <!-- ^ comments: ");
            push_decimal(out, p.comments as u64);
            push_str(out, " -->\n");
        }
        proof {
            let t = pulls@.take(i + 1);
            assert(t.drop_last() =~= pulls@.take(i as int));
            assert(t.last() == pulls@[i as int]);
            if p.comments > 0 {
                assert(out@ =~= before + pull_line(pulls@[i as int]));
            } else {
                assert(out@ =~= before + pull_line(pulls@[i as int]));
            }
            assert(out@ =~= start + pull_lines(t));
        }
        i = i + 1;
    }
    assert(pulls@.take(pulls@.len() as int) =~= pulls@);
}

fn stats_total(stats: &Vec<PullStat>) -> (r: usize)
    requires
        total(stats_view(stats@)) <= usize::MAX,
    ensures
        r == total(stats_view(stats@)),
{
    let ghost sv = stats_view(stats@);
    let mut sum: usize = 0;
    let mut i: usize = 0;
    assert(sv.take(0) =~= Seq::<(Seq<char>, nat)>::empty());
    while i < stats.len()
        invariant
            i <= stats@.len(),
            sv == stats_view(stats@),
            total(sv) <= usize::MAX,
            sum == total(sv.take(i as int)),
        decreases stats@.len() - i,
    {
        assert(sv.take(i + 1).drop_last() =~= sv.take(i as int));
        proof {
            lemma_total_prefix(sv, i + 1);
        }
        sum = sum + stats[i].count;
        i = i + 1;
    }
    assert(sv.take(stats@.len() as int) =~= sv);
    sum
}

proof fn lemma_total_prefix(s: Seq<(Seq<char>, nat)>, k: int)
    requires
        0 <= k <= s.len(),
    ensures
        total(s.take(k)) <= total(s),
    decreases s.len(),
{
    if k < s.len() {
        assert(s.drop_last().take(k) =~= s.take(k));
        lemma_total_prefix(s.drop_last(), k);
    } else {
        assert(s.take(k) =~= s);
    }
}

/// The summary of a project, for the reporting window labelled from `begin` to `end`
/// (both days included). Each total must fit in a `usize`.
pub fn render_project(
    project: &Project,
    pulls: &Vec<PullWithComments>,
    pull_stats: &PullStats,
    issue_stats: &PullStats,
    open_issue_stats: &PullStats,
    begin: &str,
    end: &str,
) -> (r: String)
    requires
        total(stats_view(pull_stats.stats@)) <= usize::MAX,
        total(stats_view(issue_stats.stats@)) <= usize::MAX,
        total(stats_view(open_issue_stats.stats@)) <= usize::MAX,
    ensures
        r@ == report(
            project.name@,
            project.url@,
            pulls@,
            stats_view(pull_stats.stats@),
            stats_view(issue_stats.stats@),
            stats_view(open_issue_stats.stats@),
            begin@,
            end@,
        ),
{
    let stub = make_stubname(project);
    let total_merged = stats_total(&pull_stats.stats);
    let total_closed = stats_total(&issue_stats.stats);
    let total_open = stats_total(&open_issue_stats.stats);
    let mut out: Vec<char> = Vec::new();
    push_str(&mut out, "#### [**");
    push_str(&mut out, project.name.as_str());
    push_str(&mut out, "**](");
    push_str(&mut out, project.url.as_str());
    push_str(&mut out, ")\n");
    push_str(&mut out, "\n");
    push_decimal(&mut out, total_merged as u64);
    push_str(&mut out, " merged PRs (");
    push_ref_list(&mut out, stub.as_str(), "-merged-prs-", pull_stats.stats.len());
    push_str(&mut out, "), ");
    push_decimal(&mut out, total_closed as u64);
    push_str(&mut out, " closed issues (");
    push_ref_list(&mut out, stub.as_str(), "-closed_issues-", issue_stats.stats.len());
    push_str(&mut out, "), \n");
    push_decimal(&mut out, total_open as u64);
    push_str(&mut out, " open issues (");
    push_ref_list(&mut out, stub.as_str(), "-open_issues-", open_issue_stats.stats.len());
    push_str(&mut out, ")\n");
    push_str(&mut out, "\n");
    let ghost part1 = out@;
    push_link_defs(
        &mut out,
        stub.as_str(),
        "-merged-prs-",
        &pull_stats.stats,
        "/pulls?q=is%3Apr+is%3Aclosed+merged%3A",
        begin,
        end,
    );
    push_link_defs(
        &mut out,
        stub.as_str(),
        "-closed_issues-",
        &issue_stats.stats,
        "/issues?q=is%3Aissue+is%3Aclosed+closed%3A",
        begin,
        end,
    );
    push_link_defs(
        &mut out,
        stub.as_str(),
        "-open_issues-",
        &open_issue_stats.stats,
        "/issues?q=is%3Aissue+is%3Aopen+created%3A",
        begin,
        end,
    );
    push_str(&mut out, "\n");
    push_pull_lines(&mut out, pulls);
    push_str(&mut out, "\n");
    let r = string_of(&out);
    assert(r@ =~= report(
        project.name@,
        project.url@,
        pulls@,
        stats_view(pull_stats.stats@),
        stats_view(issue_stats.stats@),
        stats_view(open_issue_stats.stats@),
        begin@,
        end@,
    ));
    r
}

/// The summary of a project for the reporting window from day `begin` included to day
/// `end` excluded (day numbers as chrono's `num_days_from_ce` counts them): the window is
/// labelled with the first and the last day it includes, as chrono formats them with
/// `%Y-%m-%d`. `None` exactly where chrono cannot represent one of those days.
pub fn print_project(
    project: &Project,
    pulls: &Vec<PullWithComments>,
    pull_stats: &PullStats,
    issue_stats: &PullStats,
    open_issue_stats: &PullStats,
    begin: i32,
    end: i32,
) -> (r: Option<String>)
    requires
        total(stats_view(pull_stats.stats@)) <= usize::MAX,
        total(stats_view(issue_stats.stats@)) <= usize::MAX,
        total(stats_view(open_issue_stats.stats@)) <= usize::MAX,
    ensures
        r is Some <==> in_date_range(begin as int) && in_date_range(end as int) && in_date_range(
            end - 1,
        ),
        r matches Some(s) ==> s@ == report(
            project.name@,
            project.url@,
            pulls@,
            stats_view(pull_stats.stats@),
            stats_view(issue_stats.stats@),
            stats_view(open_issue_stats.stats@),
            iso_date(begin as int),
            iso_date(end - 1),
        ),
{
    let begin_label = match format_day(begin) {
        Some(s) => s,
        None => return None,
    };
    let last = match day_before(end) {
        Some(d) => d,
        None => return None,
    };
    let end_label = match format_day(last) {
        Some(s) => s,
        None => return None,
    };
    Some(
        render_project(
            project,
            pulls,
            pull_stats,
            issue_stats,
            open_issue_stats,
            begin_label.as_str(),
            end_label.as_str(),
        ),
    )
}

/// `t` occurs in `s`.
pub open spec fn contains_text(s: Seq<char>, t: Seq<char>) -> bool {
    exists|i: int| 0 <= i && i + t.len() <= s.len() && #[trigger] s.subrange(i, i + t.len()) == t
}

proof fn lemma_link_defs_prefix(
    stub: Seq<char>,
    kind: Seq<char>,
    stats: Seq<(Seq<char>, nat)>,
    query: Seq<char>,
    begin: Seq<char>,
    end: Seq<char>,
    m: int,
)
    requires
        0 <= m <= stats.len(),
    ensures
        link_defs(stub, kind, stats.take(m), query, begin, end).len() <= link_defs(stub, kind, stats, query, begin, end).len(),
        link_defs(stub, kind, stats, query, begin, end).subrange(
            0,
            link_defs(stub, kind, stats.take(m), query, begin, end).len() as int,
        ) == link_defs(stub, kind, stats.take(m), query, begin, end),
    decreases stats.len(),
{
    let whole = link_defs(stub, kind, stats, query, begin, end);
    if m == stats.len() {
        assert(stats.take(m) =~= stats);
        assert(whole.subrange(0, whole.len() as int) =~= whole);
    } else {
        lemma_link_defs_prefix(stub, kind, stats.drop_last(), query, begin, end, m);
        assert(stats.drop_last().take(m) =~= stats.take(m));
        let part = link_defs(stub, kind, stats.drop_last(), query, begin, end);
        let pre = link_defs(stub, kind, stats.take(m), query, begin, end);
        assert(whole.subrange(0, part.len() as int) =~= part);
        assert(whole.subrange(0, pre.len() as int) =~= part.subrange(0, pre.len() as int));
    }
}

/// Where line `k` of the link definitions stands.
proof fn lemma_link_defs_line(
    stub: Seq<char>,
    kind: Seq<char>,
    stats: Seq<(Seq<char>, nat)>,
    query: Seq<char>,
    begin: Seq<char>,
    end: Seq<char>,
    k: int,
) -> (i: int)
    requires
        0 <= k < stats.len(),
    ensures
        0 <= i,
        i + ("["@ + stub + kind + decimal((k + 1) as nat) + "]: "@ + stats[k].0 + query + begin + ".."@ + end + "\n"@).len()
            <= link_defs(stub, kind, stats, query, begin, end).len(),
        link_defs(stub, kind, stats, query, begin, end).subrange(
            i,
            i + ("["@ + stub + kind + decimal((k + 1) as nat) + "]: "@ + stats[k].0 + query + begin + ".."@ + end + "\n"@).len(),
        ) == "["@ + stub + kind + decimal((k + 1) as nat) + "]: "@ + stats[k].0 + query + begin + ".."@ + end + "\n"@,
{
    let line = "["@ + stub + kind + decimal((k + 1) as nat) + "]: "@ + stats[k].0 + query + begin + ".."@ + end + "\n"@;
    let t = stats.take(k + 1);
    lemma_link_defs_prefix(stub, kind, stats, query, begin, end, k + 1);
    assert(t.drop_last() =~= stats.take(k));
    assert(t.last() == stats[k]);
    let before = link_defs(stub, kind, stats.take(k), query, begin, end);
    let upto = link_defs(stub, kind, t, query, begin, end);
    assert(upto =~= before + line);
    let whole = link_defs(stub, kind, stats, query, begin, end);
    let i = before.len() as int;
    assert(whole.subrange(i, i + line.len()) =~= upto.subrange(i, i + line.len()));
    assert(upto.subrange(i, i + line.len()) =~= line);
    i
}

proof fn lemma_pull_lines_prefix(pulls: Seq<PullWithComments>, m: int)
    requires
        0 <= m <= pulls.len(),
    ensures
        pull_lines(pulls.take(m)).len() <= pull_lines(pulls).len(),
        pull_lines(pulls).subrange(0, pull_lines(pulls.take(m)).len() as int) == pull_lines(pulls.take(m)),
    decreases pulls.len(),
{
    let whole = pull_lines(pulls);
    if m == pulls.len() {
        assert(pulls.take(m) =~= pulls);
        assert(whole.subrange(0, whole.len() as int) =~= whole);
    } else {
        lemma_pull_lines_prefix(pulls.drop_last(), m);
        assert(pulls.drop_last().take(m) =~= pulls.take(m));
        let part = pull_lines(pulls.drop_last());
        let pre = pull_lines(pulls.take(m));
        assert(whole.subrange(0, part.len() as int) =~= part);
        assert(whole.subrange(0, pre.len() as int) =~= part.subrange(0, pre.len() as int));
    }
}

proof fn lemma_in_middle(a: Seq<char>, d: Seq<char>, c: Seq<char>, i: int, t: Seq<char>)
    requires
        0 <= i,
        i + t.len() <= d.len(),
        d.subrange(i, i + t.len()) == t,
    ensures
        contains_text(a + d + c, t),
{
    let s = a + d + c;
    let j = a.len() + i;
    assert(s.subrange(j, j + t.len()) =~= t);
}

/// The part of the summary before the link definitions.
spec fn report_head(
    name: Seq<char>,
    url: Seq<char>,
    merged: Seq<(Seq<char>, nat)>,
    closed: Seq<(Seq<char>, nat)>,
    open: Seq<(Seq<char>, nat)>,
) -> Seq<char> {
    let stub = stubname(name);
    "#### [**"@ + name + "**]("@ + url + ")\n"@ + "\n"@ + decimal(total(merged)) + " merged PRs ("@
        + ref_list(stub, merged_kind(), merged.len()) + "), "@ + decimal(total(closed))
        + " closed issues ("@ + ref_list(stub, closed_kind(), closed.len()) + "), \n"@
        + decimal(total(open)) + " open issues ("@ + ref_list(stub, open_kind(), open.len())
        + ")\n"@ + "\n"@
}

/// For each repository with merged pull requests, the summary defines its numbered
/// reference as the search for pull requests merged from `begin` to `end`.
pub proof fn law_report_merged_links(
    name: Seq<char>,
    url: Seq<char>,
    pulls: Seq<PullWithComments>,
    merged: Seq<(Seq<char>, nat)>,
    closed: Seq<(Seq<char>, nat)>,
    open: Seq<(Seq<char>, nat)>,
    begin: Seq<char>,
    end: Seq<char>,
    k: int,
)
    requires
        0 <= k < merged.len(),
    ensures
        contains_text(
            report(name, url, pulls, merged, closed, open, begin, end),
            "["@ + stubname(name) + "-merged-prs-"@ + decimal((k + 1) as nat) + "]: "@ + merged[k].0
                + "/pulls?q=is%3Apr+is%3Aclosed+merged%3A"@ + begin + ".."@ + end + "\n"@,
        ),
{
    let stub = stubname(name);
    let d = link_defs(stub, merged_kind(), merged, merged_query(), begin, end);
    let i = lemma_link_defs_line(stub, merged_kind(), merged, merged_query(), begin, end, k);
    let c = link_defs(stub, closed_kind(), closed, closed_query(), begin, end)
        + link_defs(stub, open_kind(), open, open_query(), begin, end) + "\n"@ + pull_lines(pulls) + "\n"@;
    assert(report(name, url, pulls, merged, closed, open, begin, end) =~= report_head(name, url, merged, closed, open) + d + c);
    lemma_in_middle(report_head(name, url, merged, closed, open), d, c, i,
        "["@ + stub + merged_kind() + decimal((k + 1) as nat) + "]: "@ + merged[k].0 + merged_query() + begin + ".."@ + end + "\n"@);
}

/// For each repository with closed issues, the summary defines its numbered reference as
/// the search for issues closed from `begin` to `end`.
pub proof fn law_report_closed_links(
    name: Seq<char>,
    url: Seq<char>,
    pulls: Seq<PullWithComments>,
    merged: Seq<(Seq<char>, nat)>,
    closed: Seq<(Seq<char>, nat)>,
    open: Seq<(Seq<char>, nat)>,
    begin: Seq<char>,
    end: Seq<char>,
    k: int,
)
    requires
        0 <= k < closed.len(),
    ensures
        contains_text(
            report(name, url, pulls, merged, closed, open, begin, end),
            "["@ + stubname(name) + "-closed_issues-"@ + decimal((k + 1) as nat) + "]: "@ + closed[k].0
                + "/issues?q=is%3Aissue+is%3Aclosed+closed%3A"@ + begin + ".."@ + end + "\n"@,
        ),
{
    let stub = stubname(name);
    let a = report_head(name, url, merged, closed, open) + link_defs(stub, merged_kind(), merged, merged_query(), begin, end);
    let d = link_defs(stub, closed_kind(), closed, closed_query(), begin, end);
    let i = lemma_link_defs_line(stub, closed_kind(), closed, closed_query(), begin, end, k);
    let c = link_defs(stub, open_kind(), open, open_query(), begin, end) + "\n"@ + pull_lines(pulls) + "\n"@;
    assert(report(name, url, pulls, merged, closed, open, begin, end) =~= a + d + c);
    lemma_in_middle(a, d, c, i,
        "["@ + stub + closed_kind() + decimal((k + 1) as nat) + "]: "@ + closed[k].0 + closed_query() + begin + ".."@ + end + "\n"@);
}

/// For each repository with open issues, the summary defines its numbered reference as
/// the search for open issues created from `begin` to `end`.
pub proof fn law_report_open_links(
    name: Seq<char>,
    url: Seq<char>,
    pulls: Seq<PullWithComments>,
    merged: Seq<(Seq<char>, nat)>,
    closed: Seq<(Seq<char>, nat)>,
    open: Seq<(Seq<char>, nat)>,
    begin: Seq<char>,
    end: Seq<char>,
    k: int,
)
    requires
        0 <= k < open.len(),
    ensures
        contains_text(
            report(name, url, pulls, merged, closed, open, begin, end),
            "["@ + stubname(name) + "-open_issues-"@ + decimal((k + 1) as nat) + "]: "@ + open[k].0
                + "/issues?q=is%3Aissue+is%3Aopen+created%3A"@ + begin + ".."@ + end + "\n"@,
        ),
{
    let stub = stubname(name);
    let a = report_head(name, url, merged, closed, open) + link_defs(stub, merged_kind(), merged, merged_query(), begin, end)
        + link_defs(stub, closed_kind(), closed, closed_query(), begin, end);
    let d = link_defs(stub, open_kind(), open, open_query(), begin, end);
    let i = lemma_link_defs_line(stub, open_kind(), open, open_query(), begin, end, k);
    let c = "\n"@ + pull_lines(pulls) + "\n"@;
    assert(report(name, url, pulls, merged, closed, open, begin, end) =~= a + d + c);
    lemma_in_middle(a, d, c, i,
        "["@ + stub + open_kind() + decimal((k + 1) as nat) + "]: "@ + open[k].0 + open_query() + begin + ".."@ + end + "\n"@);
}

/// Each merged pull request has its line in the summary: its title linked to it, and its
/// author linked to the author's profile.
pub proof fn law_report_lists_pulls(
    name: Seq<char>,
    url: Seq<char>,
    pulls: Seq<PullWithComments>,
    merged: Seq<(Seq<char>, nat)>,
    closed: Seq<(Seq<char>, nat)>,
    open: Seq<(Seq<char>, nat)>,
    begin: Seq<char>,
    end: Seq<char>,
    k: int,
)
    requires
        0 <= k < pulls.len(),
    ensures
        contains_text(
            report(name, url, pulls, merged, closed, open, begin, end),
            "- PR: ["@ + pulls[k].pull.title@ + "]("@ + pulls[k].pull.html_url@ + ") by [@"@
                + pulls[k].pull.login@ + "](https://github.com/"@ + pulls[k].pull.login@ + ")\n"@,
        ),
{
    let stub = stubname(name);
    let p = pulls[k];
    let line = "- PR: ["@ + p.pull.title@ + "]("@ + p.pull.html_url@ + ") by [@"@ + p.pull.login@
        + "](https://github.com/"@ + p.pull.login@ + ")\n"@;
    let t = pulls.take(k + 1);
    lemma_pull_lines_prefix(pulls, k + 1);
    assert(t.drop_last() =~= pulls.take(k));
    assert(t.last() == p);
    let pre = pull_lines(pulls.take(k));
    let upto = pull_lines(t);
    let rest = if p.comments > 0 {
        "  <!-- ^ comments: "@ + decimal(p.comments as nat) + " -->\n"@
    } else {
        Seq::empty()
    };
    assert(upto =~= pre + line + rest);
    let whole = pull_lines(pulls);
    let i = pre.len() as int;
    assert(whole.subrange(i, i + line.len()) =~= upto.subrange(i, i + line.len()));
    assert(upto.subrange(i, i + line.len()) =~= line);
    let a = report_head(name, url, merged, closed, open) + link_defs(stub, merged_kind(), merged, merged_query(), begin, end)
        + link_defs(stub, closed_kind(), closed, closed_query(), begin, end)
        + link_defs(stub, open_kind(), open, open_query(), begin, end) + "\n"@;
    assert(report(name, url, pulls, merged, closed, open, begin, end) =~= a + whole + "\n"@);
    lemma_in_middle(a, whole, "\n"@, i, line);
}

/// The summary opens with the project's name linked to its home page, a blank line, and
/// the number of merged pull requests, which is the sum of the per-repository counts.
pub proof fn law_report_heading(
    name: Seq<char>,
    url: Seq<char>,
    pulls: Seq<PullWithComments>,
    merged: Seq<(Seq<char>, nat)>,
    closed: Seq<(Seq<char>, nat)>,
    open: Seq<(Seq<char>, nat)>,
    begin: Seq<char>,
    end: Seq<char>,
)
    ensures
        ("#### [**"@ + name + "**]("@ + url + ")\n\n"@ + decimal(total(merged)) + " merged PRs ("@).len()
            <= report(name, url, pulls, merged, closed, open, begin, end).len(),
        report(name, url, pulls, merged, closed, open, begin, end).subrange(
            0,
            ("#### [**"@ + name + "**]("@ + url + ")\n\n"@ + decimal(total(merged)) + " merged PRs ("@).len() as int,
        ) == "#### [**"@ + name + "**]("@ + url + ")\n\n"@ + decimal(total(merged)) + " merged PRs ("@,
{
    reveal_strlit(")\n\n");
    reveal_strlit(")\n");
    reveal_strlit("\n");
    let head = "#### [**"@ + name + "**]("@ + url + ")\n"@ + "\n"@ + decimal(total(merged)) + " merged PRs ("@;
    assert(")\n"@ + "\n"@ =~= ")\n\n"@);
    assert(head =~= "#### [**"@ + name + "**]("@ + url + ")\n\n"@ + decimal(total(merged)) + " merged PRs ("@);
    let r = report(name, url, pulls, merged, closed, open, begin, end);
    let stub = stubname(name);
    let tail = ref_list(stub, merged_kind(), merged.len()) + "), "@ + decimal(total(closed))
        + " closed issues ("@ + ref_list(stub, closed_kind(), closed.len()) + "), \n"@
        + decimal(total(open)) + " open issues ("@ + ref_list(stub, open_kind(), open.len())
        + ")\n"@ + "\n"@ + link_defs(stub, merged_kind(), merged, merged_query(), begin, end)
        + link_defs(stub, closed_kind(), closed, closed_query(), begin, end)
        + link_defs(stub, open_kind(), open, open_query(), begin, end) + "\n"@ + pull_lines(pulls) + "\n"@;
    assert(r =~= head + tail);
    assert(r.subrange(0, head.len() as int) =~= head);
}

proof fn lemma_contains_in_prefix(x: Seq<char>, y: Seq<char>, t: Seq<char>)
    requires
        contains_text(x, t),
    ensures
        contains_text(x + y, t),
{
    let i = choose|i: int| 0 <= i && i + t.len() <= x.len() && #[trigger] x.subrange(i, i + t.len()) == t;
    assert((x + y).subrange(i, i + t.len()) =~= x.subrange(i, i + t.len()));
}

proof fn lemma_ref_list_item(stub: Seq<char>, kind: Seq<char>, n: nat, k: nat) -> (i: int)
    requires
        1 <= k <= n,
    ensures
        0 <= i,
        i + ref_item(stub, kind, k).len() <= ref_list(stub, kind, n).len(),
        ref_list(stub, kind, n).subrange(i, i + ref_item(stub, kind, k).len()) == ref_item(stub, kind, k),
        k == n ==> i + ref_item(stub, kind, k).len() == ref_list(stub, kind, n).len(),
        k < n ==> i + ref_item(stub, kind, k).len() + 2 <= ref_list(stub, kind, n).len()
            && ref_list(stub, kind, n).subrange(i, i + ref_item(stub, kind, k).len() + 2)
            == ref_item(stub, kind, k) + ", "@,
    decreases n,
{
    reveal_strlit(", ");
    let item = ref_item(stub, kind, k);
    let whole = ref_list(stub, kind, n);
    if n == 1 {
        assert(whole.subrange(0, item.len() as int) =~= item);
        0
    } else {
        let prev = ref_list(stub, kind, (n - 1) as nat);
        assert(whole == prev + ", "@ + ref_item(stub, kind, n));
        if k == n {
            let i: int = prev.len() as int + 2;
            assert(whole.subrange(i, i + item.len()) =~= item);
            i
        } else {
            let i0 = lemma_ref_list_item(stub, kind, (n - 1) as nat, k);
            assert(whole.subrange(i0, i0 + item.len()) =~= prev.subrange(i0, i0 + item.len()));
            if k == n - 1 {
                assert(whole.subrange(i0, i0 + item.len() + 2) =~= item + ", "@);
            } else {
                assert(whole.subrange(i0, i0 + item.len() + 2) =~= prev.subrange(i0, i0 + item.len() + 2));
            }
            i0
        }
    }
}

/// The totals line names each repository's merged pull requests by a numbered reference
/// `[n][<stub>-merged-prs-n]`, the references separated by `, `.
#[verifier::rlimit(40)]
pub proof fn law_report_merged_refs(
    name: Seq<char>,
    url: Seq<char>,
    pulls: Seq<PullWithComments>,
    merged: Seq<(Seq<char>, nat)>,
    closed: Seq<(Seq<char>, nat)>,
    open: Seq<(Seq<char>, nat)>,
    begin: Seq<char>,
    end: Seq<char>,
    k: int,
)
    requires
        0 <= k < merged.len(),
    ensures
        contains_text(
            report(name, url, pulls, merged, closed, open, begin, end),
            "["@ + decimal((k + 1) as nat) + "]["@ + stubname(name) + "-merged-prs-"@ + decimal((k + 1) as nat) + "]"@,
        ),
        k + 1 < merged.len() ==> contains_text(
            report(name, url, pulls, merged, closed, open, begin, end),
            "["@ + decimal((k + 1) as nat) + "]["@ + stubname(name) + "-merged-prs-"@ + decimal((k + 1) as nat) + "], "@,
        ),
{
    let stub = stubname(name);
    let n = merged.len();
    let item = ref_item(stub, merged_kind(), (k + 1) as nat);
    let i = lemma_ref_list_item(stub, merged_kind(), n, (k + 1) as nat);
    let a = "#### [**"@ + name + "**]("@ + url + ")\n"@ + "\n"@ + decimal(total(merged)) + " merged PRs ("@;
    let d = ref_list(stub, merged_kind(), n);
    let c = "), "@ + decimal(total(closed)) + " closed issues ("@ + ref_list(stub, closed_kind(), closed.len())
        + "), \n"@ + decimal(total(open)) + " open issues ("@ + ref_list(stub, open_kind(), open.len()) + ")\n"@
        + "\n"@;
    let h = report_head(name, url, merged, closed, open);
    let rest = link_defs(stub, merged_kind(), merged, merged_query(), begin, end)
        + link_defs(stub, closed_kind(), closed, closed_query(), begin, end)
        + link_defs(stub, open_kind(), open, open_query(), begin, end) + "\n"@ + pull_lines(pulls) + "\n"@;
    assert(h =~= a + d + c);
    assert(report(name, url, pulls, merged, closed, open, begin, end) =~= h + rest);
    lemma_in_middle(a, d, c, i, item);
    lemma_contains_in_prefix(h, rest, item);
    if k + 1 < n {
        assert(item + ", "@ =~= "["@ + decimal((k + 1) as nat) + "]["@ + stub + "-merged-prs-"@ + decimal((k + 1) as nat) + "], "@) by {
            reveal_strlit("]");
            reveal_strlit(", ");
            reveal_strlit("], ");
        }
        lemma_in_middle(a, d, c, i, item + ", "@);
        lemma_contains_in_prefix(h, rest, item + ", "@);
    }
}

/// The totals line names each repository's closed issues by a numbered reference
/// `[n][<stub>-closed_issues-n]`, the references separated by `, `.
#[verifier::rlimit(40)]
pub proof fn law_report_closed_refs(
    name: Seq<char>,
    url: Seq<char>,
    pulls: Seq<PullWithComments>,
    merged: Seq<(Seq<char>, nat)>,
    closed: Seq<(Seq<char>, nat)>,
    open: Seq<(Seq<char>, nat)>,
    begin: Seq<char>,
    end: Seq<char>,
    k: int,
)
    requires
        0 <= k < closed.len(),
    ensures
        contains_text(
            report(name, url, pulls, merged, closed, open, begin, end),
            "["@ + decimal((k + 1) as nat) + "]["@ + stubname(name) + "-closed_issues-"@ + decimal((k + 1) as nat) + "]"@,
        ),
        k + 1 < closed.len() ==> contains_text(
            report(name, url, pulls, merged, closed, open, begin, end),
            "["@ + decimal((k + 1) as nat) + "]["@ + stubname(name) + "-closed_issues-"@ + decimal((k + 1) as nat) + "], "@,
        ),
{
    let stub = stubname(name);
    let n = closed.len();
    let item = ref_item(stub, closed_kind(), (k + 1) as nat);
    let i = lemma_ref_list_item(stub, closed_kind(), n, (k + 1) as nat);
    let a = "#### [**"@ + name + "**]("@ + url + ")\n"@ + "\n"@ + decimal(total(merged)) + " merged PRs ("@
        + ref_list(stub, merged_kind(), merged.len()) + "), "@ + decimal(total(closed)) + " closed issues ("@;
    let d = ref_list(stub, closed_kind(), n);
    let c = "), \n"@ + decimal(total(open)) + " open issues ("@ + ref_list(stub, open_kind(), open.len()) + ")\n"@
        + "\n"@;
    let h = report_head(name, url, merged, closed, open);
    let rest = link_defs(stub, merged_kind(), merged, merged_query(), begin, end)
        + link_defs(stub, closed_kind(), closed, closed_query(), begin, end)
        + link_defs(stub, open_kind(), open, open_query(), begin, end) + "\n"@ + pull_lines(pulls) + "\n"@;
    assert(h =~= a + d + c);
    assert(report(name, url, pulls, merged, closed, open, begin, end) =~= h + rest);
    lemma_in_middle(a, d, c, i, item);
    lemma_contains_in_prefix(h, rest, item);
    if k + 1 < n {
        assert(item + ", "@ =~= "["@ + decimal((k + 1) as nat) + "]["@ + stub + "-closed_issues-"@ + decimal((k + 1) as nat) + "], "@) by {
            reveal_strlit("]");
            reveal_strlit(", ");
            reveal_strlit("], ");
        }
        lemma_in_middle(a, d, c, i, item + ", "@);
        lemma_contains_in_prefix(h, rest, item + ", "@);
    }
}

/// The totals line names each repository's open issues by a numbered reference
/// `[n][<stub>-open_issues-n]`, the references separated by `, `.
#[verifier::rlimit(40)]
pub proof fn law_report_open_refs(
    name: Seq<char>,
    url: Seq<char>,
    pulls: Seq<PullWithComments>,
    merged: Seq<(Seq<char>, nat)>,
    closed: Seq<(Seq<char>, nat)>,
    open: Seq<(Seq<char>, nat)>,
    begin: Seq<char>,
    end: Seq<char>,
    k: int,
)
    requires
        0 <= k < open.len(),
    ensures
        contains_text(
            report(name, url, pulls, merged, closed, open, begin, end),
            "["@ + decimal((k + 1) as nat) + "]["@ + stubname(name) + "-open_issues-"@ + decimal((k + 1) as nat) + "]"@,
        ),
        k + 1 < open.len() ==> contains_text(
            report(name, url, pulls, merged, closed, open, begin, end),
            "["@ + decimal((k + 1) as nat) + "]["@ + stubname(name) + "-open_issues-"@ + decimal((k + 1) as nat) + "], "@,
        ),
{
    let stub = stubname(name);
    let n = open.len();
    let item = ref_item(stub, open_kind(), (k + 1) as nat);
    let i = lemma_ref_list_item(stub, open_kind(), n, (k + 1) as nat);
    let a = "#### [**"@ + name + "**]("@ + url + ")\n"@ + "\n"@ + decimal(total(merged)) + " merged PRs ("@
        + ref_list(stub, merged_kind(), merged.len()) + "), "@ + decimal(total(closed)) + " closed issues ("@
        + ref_list(stub, closed_kind(), closed.len()) + "), \n"@ + decimal(total(open)) + " open issues ("@;
    let d = ref_list(stub, open_kind(), n);
    let c = ")\n"@ + "\n"@ + link_defs(stub, merged_kind(), merged, merged_query(), begin, end)
        + link_defs(stub, closed_kind(), closed, closed_query(), begin, end)
        + link_defs(stub, open_kind(), open, open_query(), begin, end) + "\n"@ + pull_lines(pulls) + "\n"@;
    assert(report(name, url, pulls, merged, closed, open, begin, end) =~= a + d + c);
    lemma_in_middle(a, d, c, i, item);
    if k + 1 < n {
        assert(item + ", "@ =~= "["@ + decimal((k + 1) as nat) + "]["@ + stub + "-open_issues-"@ + decimal((k + 1) as nat) + "], "@) by {
            reveal_strlit("]");
            reveal_strlit(", ");
            reveal_strlit("], ");
        }
        lemma_in_middle(a, d, c, i, item + ", "@);
    }
}

/// The totals line goes on with the number of closed issues, and a new line with the
/// number of open issues, each the sum of the per-repository counts.
#[verifier::rlimit(40)]
pub proof fn law_report_issue_totals(
    name: Seq<char>,
    url: Seq<char>,
    pulls: Seq<PullWithComments>,
    merged: Seq<(Seq<char>, nat)>,
    closed: Seq<(Seq<char>, nat)>,
    open: Seq<(Seq<char>, nat)>,
    begin: Seq<char>,
    end: Seq<char>,
)
    ensures
        contains_text(
            report(name, url, pulls, merged, closed, open, begin, end),
            "), "@ + decimal(total(closed)) + " closed issues ("@,
        ),
        contains_text(
            report(name, url, pulls, merged, closed, open, begin, end),
            "), \n"@ + decimal(total(open)) + " open issues ("@,
        ),
{
    let stub = stubname(name);
    let a1 = "#### [**"@ + name + "**]("@ + url + ")\n"@ + "\n"@ + decimal(total(merged)) + " merged PRs ("@
        + ref_list(stub, merged_kind(), merged.len());
    let t1 = "), "@ + decimal(total(closed)) + " closed issues ("@;
    let a2 = a1 + t1 + ref_list(stub, closed_kind(), closed.len());
    let t2 = "), \n"@ + decimal(total(open)) + " open issues ("@;
    let c2 = ref_list(stub, open_kind(), open.len()) + ")\n"@ + "\n"@
        + link_defs(stub, merged_kind(), merged, merged_query(), begin, end)
        + link_defs(stub, closed_kind(), closed, closed_query(), begin, end)
        + link_defs(stub, open_kind(), open, open_query(), begin, end) + "\n"@ + pull_lines(pulls) + "\n"@;
    let r = report(name, url, pulls, merged, closed, open, begin, end);
    assert(r =~= a2 + t2 + c2);
    assert(t2.subrange(0, t2.len() as int) =~= t2);
    lemma_in_middle(a2, t2, c2, 0, t2);
    let c1 = ref_list(stub, closed_kind(), closed.len()) + t2 + c2;
    assert(r =~= a1 + t1 + c1);
    assert(t1.subrange(0, t1.len() as int) =~= t1);
    lemma_in_middle(a1, t1, c1, 0, t1);
}

/// A merged pull request with review comments has, right after its line, a comment line
/// that gives their number.
pub proof fn law_report_pull_comments(
    name: Seq<char>,
    url: Seq<char>,
    pulls: Seq<PullWithComments>,
    merged: Seq<(Seq<char>, nat)>,
    closed: Seq<(Seq<char>, nat)>,
    open: Seq<(Seq<char>, nat)>,
    begin: Seq<char>,
    end: Seq<char>,
    k: int,
)
    requires
        0 <= k < pulls.len(),
        pulls[k].comments > 0,
    ensures
        contains_text(
            report(name, url, pulls, merged, closed, open, begin, end),
            "- PR: ["@ + pulls[k].pull.title@ + "]("@ + pulls[k].pull.html_url@ + ") by [@"@
                + pulls[k].pull.login@ + "](https://github.com/"@ + pulls[k].pull.login@ + ")\n"@
                + "  <!-- ^ comments: "@ + decimal(pulls[k].comments as nat) + " -->\n"@,
        ),
{
    let stub = stubname(name);
    let p = pulls[k];
    let both = "- PR: ["@ + p.pull.title@ + "]("@ + p.pull.html_url@ + ") by [@"@ + p.pull.login@
        + "](https://github.com/"@ + p.pull.login@ + ")\n"@ + "  <!-- ^ comments: "@ + decimal(p.comments as nat)
        + " -->\n"@;
    let t = pulls.take(k + 1);
    lemma_pull_lines_prefix(pulls, k + 1);
    assert(t.drop_last() =~= pulls.take(k));
    assert(t.last() == p);
    let pre = pull_lines(pulls.take(k));
    let upto = pull_lines(t);
    assert(upto =~= pre + both);
    let whole = pull_lines(pulls);
    let i = pre.len() as int;
    assert(whole.subrange(i, i + both.len()) =~= upto.subrange(i, i + both.len()));
    assert(upto.subrange(i, i + both.len()) =~= both);
    let a = report_head(name, url, merged, closed, open) + link_defs(stub, merged_kind(), merged, merged_query(), begin, end)
        + link_defs(stub, closed_kind(), closed, closed_query(), begin, end)
        + link_defs(stub, open_kind(), open, open_query(), begin, end) + "\n"@;
    assert(report(name, url, pulls, merged, closed, open, begin, end) =~= a + whole + "\n"@);
    lemma_in_middle(a, whole, "\n"@, i, both);
}

} // verus!
