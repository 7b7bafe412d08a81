//! Which pull requests and issues of a listing page fall in the reporting window, and
//! whether the listing, sorted by last update, needs another page.

use vstd::prelude::*;
use crate::dates::{before, is_before, Timestamp};

verus! {

/// What the library reads of a pull request.
#[derive(Debug)]
pub struct PullInfo {
    pub html_url: String,
    pub title: String,
    /// The login of the author.
    pub login: String,
    pub updated_at: Timestamp,
    pub merged_at: Option<Timestamp>,
    pub review_comments_url: String,
    /// The web URL of the repository that the pull request was made against.
    pub base_repo_url: String,
}

/// A pull request with the number of its review comments.
#[derive(Debug)]
pub struct PullWithComments {
    pub pull: PullInfo,
    pub comments: usize,
}

/// What the library reads of an issue.
#[derive(Debug)]
pub struct IssueInfo {
    pub html_url: String,
    pub title: String,
    /// The login of the author.
    pub login: String,
    pub updated_at: Timestamp,
    pub closed_at: Option<Timestamp>,
    pub created_at: Option<Timestamp>,
    /// The issue is a pull request (GitHub lists pull requests among issues).
    pub is_pull: bool,
}

/// The reporting window: from `begin` included to `end` excluded.
#[derive(Debug, Clone, Copy, PartialEq, Eq, Structural)]
pub struct Window {
    pub begin: Timestamp,
    pub end: Timestamp,
    /// Keep what dependabot created too.
    pub include_dependabot: bool,
}

/// Why an item is kept or left out.
#[derive(Debug, Clone, Copy, PartialEq, Eq, Structural)]
pub enum Verdict {
    Keep,
    /// Its date falls before the window.
    TooOld,
    /// Its date falls at or after the end of the window.
    TooNew,
    /// An issue that is a pull request.
    IsPull,
    /// A pull request that was not merged.
    Unmerged,
    /// An issue without the date the listing goes by.
    Unclosed,
    /// Created by dependabot, and the window leaves dependabot out.
    Dependabot,
}

/// The login of Dependabot.
pub open spec fn dependabot_login() -> Seq<char> {
    seq!['d', 'e', 'p', 'e', 'n', 'd', 'a', 'b', 'o', 't', '[', 'b', 'o', 't', ']']
}

/// The login of Dependabot Preview, the app that came before it.
pub open spec fn dependabot_preview_login() -> Seq<char> {
    seq![
        'd', 'e', 'p', 'e', 'n', 'd', 'a', 'b', 'o', 't', '-', 'p', 'r', 'e', 'v', 'i', 'e', 'w',
        '[', 'b', 'o', 't', ']',
    ]
}

/// Whether `login` is one of the logins of dependabot.
pub open spec fn is_dependabot_login(login: Seq<char>) -> bool {
    login == dependabot_login() || login == dependabot_preview_login()
}

/// The logins under which dependabot creates pull requests and issues.
pub open spec fn dependabot_logins() -> Set<Seq<char>> {
    Set::new(|login: Seq<char>| is_dependabot_login(login))
}

/// Whether `login` is one of dependabot's.
pub fn is_dependabot(login: &str) -> (r: bool)
    ensures
        r == dependabot_logins().contains(login@),
{
    let cs = crate::text::chars_of(login);
    let d = vec!['d', 'e', 'p', 'e', 'n', 'd', 'a', 'b', 'o', 't', '[', 'b', 'o', 't', ']'];
    let p = vec![
        'd', 'e', 'p', 'e', 'n', 'd', 'a', 'b', 'o', 't', '-', 'p', 'r', 'e', 'v', 'i', 'e', 'w',
        '[', 'b', 'o', 't', ']',
    ];
    assert(d@ =~= dependabot_login());
    assert(p@ =~= dependabot_preview_login());
    crate::text::same_chars(cs.as_slice(), d.as_slice()) || crate::text::same_chars(
        cs.as_slice(),
        p.as_slice(),
    )
}

/// The verdict on an item dated `date` (if at all) in window `w`; `missing` is the verdict
/// for an item without the date, `is_pull` whether the item is an issue that is a pull
/// request.
pub open spec fn dated_verdict(date: Option<Timestamp>, missing: Verdict, is_pull: bool, login: Seq<char>, w: Window) -> Verdict {
    match date {
        None => missing,
        Some(d) => if before(d, w.begin) {
            Verdict::TooOld
        } else if !before(d, w.end) {
            Verdict::TooNew
        } else if is_pull {
            Verdict::IsPull
        } else if !w.include_dependabot && dependabot_logins().contains(login) {
            Verdict::Dependabot
        } else {
            Verdict::Keep
        },
    }
}

fn judge(date: Option<Timestamp>, missing: Verdict, is_pull: bool, login: &str, w: &Window) -> (r: Verdict)
    ensures
        r == dated_verdict(date, missing, is_pull, login@, *w),
{
    match date {
        None => missing,
        Some(d) => if is_before(d, w.begin) {
            Verdict::TooOld
        } else if !is_before(d, w.end) {
            Verdict::TooNew
        } else if is_pull {
            Verdict::IsPull
        } else if !w.include_dependabot && is_dependabot(login) {
            Verdict::Dependabot
        } else {
            Verdict::Keep
        },
    }
}

/// A pull request is kept when it was merged within the window.
pub open spec fn pull_verdict(p: PullInfo, w: Window) -> Verdict {
    dated_verdict(p.merged_at, Verdict::Unmerged, false, p.login@, w)
}

/// A closed issue is kept when it was closed within the window and is no pull request.
pub open spec fn closed_issue_verdict(i: IssueInfo, w: Window) -> Verdict {
    dated_verdict(i.closed_at, Verdict::Unclosed, i.is_pull, i.login@, w)
}

/// An open issue is kept when it was created within the window and is no pull request.
pub open spec fn open_issue_verdict(i: IssueInfo, w: Window) -> Verdict {
    dated_verdict(i.created_at, Verdict::Unclosed, i.is_pull, i.login@, w)
}

/// What a page of a listing gives.
#[derive(Debug)]
pub struct Page<T> {
    /// The items kept, in the order of the page.
    pub kept: Vec<T>,
    /// The verdict on each item of the page.
    pub verdicts: Vec<Verdict>,
    /// The first item updated before the window began: the listing, newest update
    /// first, has no more to give after this page.
    pub first_outdated: Option<usize>,
}

impl<T> Page<T> {
    /// Whether the listing may hold more items of the window after this page.
    pub fn keep_going(&self) -> (r: bool)
        ensures
            r == (self.first_outdated is None),
    {
        self.first_outdated.is_none()
    }
}

/// The items of `s` that `pull_verdict` keeps.
pub open spec fn kept_pulls(s: Seq<PullInfo>, w: Window) -> Seq<PullInfo> {
    s.filter(|x: PullInfo| pull_verdict(x, w) == Verdict::Keep)
}

/// The index of the first item of `s` updated before `begin`.
pub open spec fn first_outdated_pull(s: Seq<PullInfo>, begin: Timestamp, r: Option<usize>) -> bool {
    match r {
        Some(i) => i < s.len() && before(s[i as int].updated_at, begin) && forall|j: int|
            0 <= j < i ==> !before(#[trigger] s[j].updated_at, begin),
        None => forall|j: int| 0 <= j < s.len() ==> !before(#[trigger] s[j].updated_at, begin),
    }
}

/// Sorts a page of closed pull requests: those merged within the window are kept.
pub fn filter_merged_pulls(items: Vec<PullInfo>, w: &Window) -> (r: Page<PullInfo>)
    ensures
        r.verdicts@.len() == items@.len(),
        forall|j: int| 0 <= j < items@.len() ==> r.verdicts@[j] == pull_verdict(#[trigger] items@[j], *w),
        forall|j: int| 0 <= j < items@.len() ==> (r.verdicts@[j] == Verdict::Keep) == in_window_pull(#[trigger] items@[j], *w),
        r.kept@ == kept_pulls(items@, *w),
        !w.include_dependabot ==> forall|j: int| 0 <= j < r.kept@.len() ==> !dependabot_logins().contains(
            #[trigger] r.kept@[j].login@,
        ),
        first_outdated_pull(items@, w.begin, r.first_outdated),
{
    let ghost orig = items@;
    let mut rest = items;
    let total: usize = rest.len();
    let mut kept: Vec<PullInfo> = Vec::new();
    let mut verdicts: Vec<Verdict> = Vec::new();
    let mut first: Option<usize> = None;
    let mut i: usize = 0;
    assert(orig.skip(0) =~= orig);
    proof {
        reveal(Seq::filter);
    }
    assert(orig.take(0) =~= Seq::<PullInfo>::empty());
    while rest.len() > 0
        invariant
            i <= orig.len(),
            orig.len() == total,
            rest@ == orig.skip(i as int),
            verdicts@.len() == i,
            forall|j: int| 0 <= j < i ==> verdicts@[j] == pull_verdict(#[trigger] orig[j], *w),
            kept@ == kept_pulls(orig.take(i as int), *w),
            first_outdated_pull(orig.take(i as int), w.begin, first),
        decreases rest@.len(),
    {
        proof {
            reveal(Seq::filter);
        }
        let x = rest.remove(0);
        assert(x == orig[i as int]);
        assert(rest@ =~= orig.skip(i + 1));
        assert(orig.take(i + 1) =~= orig.take(i as int).push(x));
        assert(orig.take(i + 1).drop_last() =~= orig.take(i as int));
        let v = judge(x.merged_at, Verdict::Unmerged, false, x.login.as_str(), w);
        if first.is_none() && is_before(x.updated_at, w.begin) {
            first = Some(i);
        }
        verdicts.push(v);
        if v == Verdict::Keep {
            kept.push(x);
        }
        proof {
            let t = orig.take(i + 1);
            assert(t.last() == x);
            match first {
                Some(k) => {
                    assert(t[k as int] == orig.take(i as int).push(x)[k as int]);
                    assert forall|j: int| 0 <= j < k implies !before(#[trigger] t[j].updated_at, w.begin) by {
                        assert(t[j] == orig.take(i as int)[j]);
                    }
                },
                None => {
                    assert forall|j: int| 0 <= j < t.len() implies !before(#[trigger] t[j].updated_at, w.begin) by {
                        if j < i {
                            assert(t[j] == orig.take(i as int)[j]);
                        }
                    }
                },
            }
        }
        i = i + 1;
    }
    assert(orig.take(i as int) =~= orig);
    proof {
        law_kept_pulls_merged_in_window(orig, *w);
    }
    Page { kept, verdicts, first_outdated: first }
}

/// The items of `s` that `closed_issue_verdict` keeps.
pub open spec fn kept_closed_issues(s: Seq<IssueInfo>, w: Window) -> Seq<IssueInfo> {
    s.filter(|x: IssueInfo| closed_issue_verdict(x, w) == Verdict::Keep)
}

/// The index of the first item of `s` updated before `begin`.
pub open spec fn first_outdated_issue(s: Seq<IssueInfo>, begin: Timestamp, r: Option<usize>) -> bool {
    match r {
        Some(i) => i < s.len() && before(s[i as int].updated_at, begin) && forall|j: int|
            0 <= j < i ==> !before(#[trigger] s[j].updated_at, begin),
        None => forall|j: int| 0 <= j < s.len() ==> !before(#[trigger] s[j].updated_at, begin),
    }
}

/// Sorts a page of closed issues: those closed within the window that are no pull requests are kept.
pub fn filter_closed_issues(items: Vec<IssueInfo>, w: &Window) -> (r: Page<IssueInfo>)
    ensures
        r.verdicts@.len() == items@.len(),
        forall|j: int| 0 <= j < items@.len() ==> r.verdicts@[j] == closed_issue_verdict(#[trigger] items@[j], *w),
        forall|j: int| 0 <= j < items@.len() ==> (r.verdicts@[j] == Verdict::Keep) == in_window_closed(#[trigger] items@[j], *w),
        r.kept@ == kept_closed_issues(items@, *w),
        !w.include_dependabot ==> forall|j: int| 0 <= j < r.kept@.len() ==> !dependabot_logins().contains(
            #[trigger] r.kept@[j].login@,
        ),
        first_outdated_issue(items@, w.begin, r.first_outdated),
{
    let ghost orig = items@;
    let mut rest = items;
    let total: usize = rest.len();
    let mut kept: Vec<IssueInfo> = Vec::new();
    let mut verdicts: Vec<Verdict> = Vec::new();
    let mut first: Option<usize> = None;
    let mut i: usize = 0;
    assert(orig.skip(0) =~= orig);
    proof {
        reveal(Seq::filter);
    }
    assert(orig.take(0) =~= Seq::<IssueInfo>::empty());
    while rest.len() > 0
        invariant
            i <= orig.len(),
            orig.len() == total,
            rest@ == orig.skip(i as int),
            verdicts@.len() == i,
            forall|j: int| 0 <= j < i ==> verdicts@[j] == closed_issue_verdict(#[trigger] orig[j], *w),
            kept@ == kept_closed_issues(orig.take(i as int), *w),
            first_outdated_issue(orig.take(i as int), w.begin, first),
        decreases rest@.len(),
    {
        proof {
            reveal(Seq::filter);
        }
        let x = rest.remove(0);
        assert(x == orig[i as int]);
        assert(rest@ =~= orig.skip(i + 1));
        assert(orig.take(i + 1) =~= orig.take(i as int).push(x));
        assert(orig.take(i + 1).drop_last() =~= orig.take(i as int));
        let v = judge(x.closed_at, Verdict::Unclosed, x.is_pull, x.login.as_str(), w);
        if first.is_none() && is_before(x.updated_at, w.begin) {
            first = Some(i);
        }
        verdicts.push(v);
        if v == Verdict::Keep {
            kept.push(x);
        }
        proof {
            let t = orig.take(i + 1);
            assert(t.last() == x);
            match first {
                Some(k) => {
                    assert(t[k as int] == orig.take(i as int).push(x)[k as int]);
                    assert forall|j: int| 0 <= j < k implies !before(#[trigger] t[j].updated_at, w.begin) by {
                        assert(t[j] == orig.take(i as int)[j]);
                    }
                },
                None => {
                    assert forall|j: int| 0 <= j < t.len() implies !before(#[trigger] t[j].updated_at, w.begin) by {
                        if j < i {
                            assert(t[j] == orig.take(i as int)[j]);
                        }
                    }
                },
            }
        }
        i = i + 1;
    }
    assert(orig.take(i as int) =~= orig);
    proof {
        law_kept_issues_in_window(orig, *w);
    }
    Page { kept, verdicts, first_outdated: first }
}

/// The items of `s` that `open_issue_verdict` keeps.
pub open spec fn kept_open_issues(s: Seq<IssueInfo>, w: Window) -> Seq<IssueInfo> {
    s.filter(|x: IssueInfo| open_issue_verdict(x, w) == Verdict::Keep)
}

/// Sorts a page of open issues: those created within the window that are no pull requests are kept.
pub fn filter_open_issues(items: Vec<IssueInfo>, w: &Window) -> (r: Page<IssueInfo>)
    ensures
        r.verdicts@.len() == items@.len(),
        forall|j: int| 0 <= j < items@.len() ==> r.verdicts@[j] == open_issue_verdict(#[trigger] items@[j], *w),
        forall|j: int| 0 <= j < items@.len() ==> (r.verdicts@[j] == Verdict::Keep) == in_window_open(#[trigger] items@[j], *w),
        r.kept@ == kept_open_issues(items@, *w),
        !w.include_dependabot ==> forall|j: int| 0 <= j < r.kept@.len() ==> !dependabot_logins().contains(
            #[trigger] r.kept@[j].login@,
        ),
        first_outdated_issue(items@, w.begin, r.first_outdated),
{
    let ghost orig = items@;
    let mut rest = items;
    let total: usize = rest.len();
    let mut kept: Vec<IssueInfo> = Vec::new();
    let mut verdicts: Vec<Verdict> = Vec::new();
    let mut first: Option<usize> = None;
    let mut i: usize = 0;
    assert(orig.skip(0) =~= orig);
    proof {
        reveal(Seq::filter);
    }
    assert(orig.take(0) =~= Seq::<IssueInfo>::empty());
    while rest.len() > 0
        invariant
            i <= orig.len(),
            orig.len() == total,
            rest@ == orig.skip(i as int),
            verdicts@.len() == i,
            forall|j: int| 0 <= j < i ==> verdicts@[j] == open_issue_verdict(#[trigger] orig[j], *w),
            kept@ == kept_open_issues(orig.take(i as int), *w),
            first_outdated_issue(orig.take(i as int), w.begin, first),
        decreases rest@.len(),
    {
        proof {
            reveal(Seq::filter);
        }
        let x = rest.remove(0);
        assert(x == orig[i as int]);
        assert(rest@ =~= orig.skip(i + 1));
        assert(orig.take(i + 1) =~= orig.take(i as int).push(x));
        assert(orig.take(i + 1).drop_last() =~= orig.take(i as int));
        let v = judge(x.created_at, Verdict::Unclosed, x.is_pull, x.login.as_str(), w);
        if first.is_none() && is_before(x.updated_at, w.begin) {
            first = Some(i);
        }
        verdicts.push(v);
        if v == Verdict::Keep {
            kept.push(x);
        }
        proof {
            let t = orig.take(i + 1);
            assert(t.last() == x);
            match first {
                Some(k) => {
                    assert(t[k as int] == orig.take(i as int).push(x)[k as int]);
                    assert forall|j: int| 0 <= j < k implies !before(#[trigger] t[j].updated_at, w.begin) by {
                        assert(t[j] == orig.take(i as int)[j]);
                    }
                },
                None => {
                    assert forall|j: int| 0 <= j < t.len() implies !before(#[trigger] t[j].updated_at, w.begin) by {
                        if j < i {
                            assert(t[j] == orig.take(i as int)[j]);
                        }
                    }
                },
            }
        }
        i = i + 1;
    }
    assert(orig.take(i as int) =~= orig);
    proof {
        law_kept_issues_in_window(orig, *w);
    }
    Page { kept, verdicts, first_outdated: first }
}

/// Every pull request kept was merged within the window, and, unless the window takes
/// dependabot in, was not created by dependabot.
pub proof fn law_kept_pulls_merged_in_window(pulls: Seq<PullInfo>, w: Window)
    ensures
        forall|i: int| 0 <= i < kept_pulls(pulls, w).len() ==> {
            let p = #[trigger] kept_pulls(pulls, w)[i];
            &&& p.merged_at matches Some(m) && !before(m, w.begin) && before(m, w.end)
            &&& (!w.include_dependabot ==> !dependabot_logins().contains(p.login@))
        },
{
    let pred = |x: PullInfo| pull_verdict(x, w) == Verdict::Keep;
    assert forall|i: int| 0 <= i < kept_pulls(pulls, w).len() implies {
        let p = #[trigger] kept_pulls(pulls, w)[i];
        &&& p.merged_at matches Some(m) && !before(m, w.begin) && before(m, w.end)
        &&& (!w.include_dependabot ==> !dependabot_logins().contains(p.login@))
    } by {
        pulls.lemma_filter_pred(pred, i);
    }
}

/// Every issue kept is no pull request and was closed (for the closed listing) or created
/// (for the open listing) within the window, and, unless the window takes dependabot in,
/// was not created by dependabot.
pub proof fn law_kept_issues_in_window(issues: Seq<IssueInfo>, w: Window)
    ensures
        forall|i: int| 0 <= i < kept_closed_issues(issues, w).len() ==> {
            let x = #[trigger] kept_closed_issues(issues, w)[i];
            &&& x.closed_at matches Some(c) && !before(c, w.begin) && before(c, w.end)
            &&& !x.is_pull
            &&& (!w.include_dependabot ==> !dependabot_logins().contains(x.login@))
        },
        forall|i: int| 0 <= i < kept_open_issues(issues, w).len() ==> {
            let x = #[trigger] kept_open_issues(issues, w)[i];
            &&& x.created_at matches Some(c) && !before(c, w.begin) && before(c, w.end)
            &&& !x.is_pull
            &&& (!w.include_dependabot ==> !dependabot_logins().contains(x.login@))
        },
{
    let closed = |x: IssueInfo| closed_issue_verdict(x, w) == Verdict::Keep;
    let open = |x: IssueInfo| open_issue_verdict(x, w) == Verdict::Keep;
    assert forall|i: int| 0 <= i < kept_closed_issues(issues, w).len() implies {
        let x = #[trigger] kept_closed_issues(issues, w)[i];
        &&& x.closed_at matches Some(c) && !before(c, w.begin) && before(c, w.end)
        &&& !x.is_pull
        &&& (!w.include_dependabot ==> !dependabot_logins().contains(x.login@))
    } by {
        issues.lemma_filter_pred(closed, i);
    }
    assert forall|i: int| 0 <= i < kept_open_issues(issues, w).len() implies {
        let x = #[trigger] kept_open_issues(issues, w)[i];
        &&& x.created_at matches Some(c) && !before(c, w.begin) && before(c, w.end)
        &&& !x.is_pull
        &&& (!w.include_dependabot ==> !dependabot_logins().contains(x.login@))
    } by {
        issues.lemma_filter_pred(open, i);
    }
}

/// The date `d`, if any, falls within the window.
pub open spec fn dated_in_window(d: Option<Timestamp>, w: Window) -> bool {
    d matches Some(t) && !before(t, w.begin) && before(t, w.end)
}

/// The author is not left out as dependabot.
pub open spec fn author_allowed(login: Seq<char>, w: Window) -> bool {
    w.include_dependabot || !dependabot_logins().contains(login)
}

/// The pull request was merged within the window by an author that is not left out.
pub open spec fn in_window_pull(p: PullInfo, w: Window) -> bool {
    dated_in_window(p.merged_at, w) && author_allowed(p.login@, w)
}

/// The issue is no pull request, was closed within the window, and its author is not
/// left out.
pub open spec fn in_window_closed(i: IssueInfo, w: Window) -> bool {
    dated_in_window(i.closed_at, w) && !i.is_pull && author_allowed(i.login@, w)
}

/// The issue is no pull request, was created within the window, and its author is not
/// left out.
pub open spec fn in_window_open(i: IssueInfo, w: Window) -> bool {
    dated_in_window(i.created_at, w) && !i.is_pull && author_allowed(i.login@, w)
}

/// A pull request is kept exactly when it was merged within the window and its author is
/// not left out as dependabot; when it was last updated plays no part.
pub proof fn law_pull_kept_iff_merged_in_window(p: PullInfo, w: Window)
    ensures
        (pull_verdict(p, w) == Verdict::Keep) == in_window_pull(p, w),
        (pull_verdict(p, w) == Verdict::Keep) == (p.merged_at matches Some(m) && !before(m, w.begin)
            && before(m, w.end) && (w.include_dependabot || !dependabot_logins().contains(p.login@))),
{
}

/// A closed issue is kept exactly when it is no pull request, was closed within the
/// window, and its author is not left out as dependabot; when it was created or last
/// updated plays no part.
pub proof fn law_closed_issue_kept_iff_closed_in_window(i: IssueInfo, w: Window)
    ensures
        (closed_issue_verdict(i, w) == Verdict::Keep) == in_window_closed(i, w),
        (closed_issue_verdict(i, w) == Verdict::Keep) == (i.closed_at matches Some(c) && !before(c, w.begin)
            && before(c, w.end) && !i.is_pull && (w.include_dependabot || !dependabot_logins().contains(
            i.login@,
        ))),
{
}

/// An open issue is kept exactly when it is no pull request, was created within the
/// window, and its author is not left out as dependabot; when it was closed or last
/// updated plays no part.
pub proof fn law_open_issue_kept_iff_created_in_window(i: IssueInfo, w: Window)
    ensures
        (open_issue_verdict(i, w) == Verdict::Keep) == in_window_open(i, w),
        (open_issue_verdict(i, w) == Verdict::Keep) == (i.created_at matches Some(c) && !before(c, w.begin)
            && before(c, w.end) && !i.is_pull && (w.include_dependabot || !dependabot_logins().contains(
            i.login@,
        ))),
{
}

/// Where two pull requests differ only in when they were last updated, both are kept or
/// neither is, and for the same reason.
pub proof fn law_pull_verdict_ignores_update(p: PullInfo, q: PullInfo, w: Window)
    requires
        p.merged_at == q.merged_at,
        p.login@ == q.login@,
    ensures
        pull_verdict(p, w) == pull_verdict(q, w),
{
}

/// Where two issues differ only in when they were created or last updated, the closed
/// listing judges them alike.
pub proof fn law_closed_issue_verdict_ignores_other_dates(i: IssueInfo, j: IssueInfo, w: Window)
    requires
        i.closed_at == j.closed_at,
        i.is_pull == j.is_pull,
        i.login@ == j.login@,
    ensures
        closed_issue_verdict(i, w) == closed_issue_verdict(j, w),
{
}

/// Where two issues differ only in when they were closed or last updated, the open
/// listing judges them alike.
pub proof fn law_open_issue_verdict_ignores_other_dates(i: IssueInfo, j: IssueInfo, w: Window)
    requires
        i.created_at == j.created_at,
        i.is_pull == j.is_pull,
        i.login@ == j.login@,
    ensures
        open_issue_verdict(i, w) == open_issue_verdict(j, w),
{
}

} // verus!
