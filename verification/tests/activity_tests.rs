use ribbot::activity::{
    filter_closed_issues, filter_merged_pulls, filter_open_issues, is_dependabot, IssueInfo, PullInfo, Verdict, Window,
};
use ribbot::dates::Timestamp;

fn t(secs: i64) -> Timestamp {
    Timestamp { secs, nanos: 0 }
}

fn window(include_dependabot: bool) -> Window {
    Window { begin: t(1000), end: t(2000), include_dependabot }
}

fn pull(n: u32, login: &str, updated: i64, merged: Option<i64>) -> PullInfo {
    PullInfo {
        html_url: format!("https://github.com/o/r/pull/{}", n),
        title: format!("PR {}", n),
        login: login.to_string(),
        updated_at: t(updated),
        merged_at: merged.map(t),
        review_comments_url: format!("https://api.github.com/repos/o/r/pulls/{}/comments", n),
        base_repo_url: "https://github.com/o/r".to_string(),
    }
}

fn issue(n: u32, updated: i64, closed: Option<i64>, created: Option<i64>, is_pull: bool) -> IssueInfo {
    IssueInfo {
        html_url: format!("https://github.com/o/r/issues/{}", n),
        title: format!("Issue {}", n),
        login: "alice".to_string(),
        updated_at: t(updated),
        closed_at: closed.map(t),
        created_at: created.map(t),
        is_pull,
    }
}

#[test]
fn merged_pulls_in_window() {
    let pulls = vec![
        pull(1, "alice", 2500, Some(2100)),
        pull(2, "bob", 1900, Some(1500)),
        pull(3, "carol", 1800, None),
        pull(4, "dependabot[bot]", 1700, Some(1600)),
        pull(5, "dave", 1000, Some(1000)),
        pull(6, "erin", 999, Some(999)),
        pull(7, "frank", 998, Some(1999)),
    ];
    let page = filter_merged_pulls(pulls, &window(false));
    assert_eq!(
        page.verdicts,
        vec![
            Verdict::TooNew,
            Verdict::Keep,
            Verdict::Unmerged,
            Verdict::Dependabot,
            Verdict::Keep,
            Verdict::TooOld,
            Verdict::Keep,
        ]
    );
    let kept: Vec<&str> = page.kept.iter().map(|p| p.title.as_str()).collect();
    assert_eq!(kept, vec!["PR 2", "PR 5", "PR 7"]);
    assert_eq!(page.first_outdated, Some(5));
    assert!(!page.keep_going());
}

#[test]
fn dependabot_preview_left_out_by_default() {
    let p = pull(8, "dependabot-preview[bot]", 1700, Some(1600));
    let page = filter_merged_pulls(vec![p], &window(false));
    assert_eq!(page.verdicts, vec![Verdict::Dependabot]);
    assert!(page.kept.is_empty());
    let mut i = issue(9, 1500, Some(1500), Some(1500), false);
    i.login = "dependabot-preview[bot]".to_string();
    let page = filter_closed_issues(vec![i], &window(false));
    assert_eq!(page.verdicts, vec![Verdict::Dependabot]);
    let mut i = issue(10, 1500, None, Some(1500), false);
    i.login = "dependabot[bot]".to_string();
    let page = filter_open_issues(vec![i], &window(false));
    assert_eq!(page.verdicts, vec![Verdict::Dependabot]);
}

#[test]
fn dependabot_kept_when_included() {
    let page = filter_merged_pulls(vec![pull(4, "dependabot[bot]", 1700, Some(1600))], &window(true));
    assert_eq!(page.verdicts, vec![Verdict::Keep]);
    assert_eq!(page.kept.len(), 1);
    assert_eq!(page.first_outdated, None);
    assert!(page.keep_going());
}

#[test]
fn dependabot_login() {
    assert!(is_dependabot("dependabot[bot]"));
    assert!(is_dependabot("dependabot-preview[bot]"));
    assert!(!is_dependabot("dependabot-preview"));
    assert!(!is_dependabot("dependabot"));
    assert!(!is_dependabot("alice"));
}

#[test]
fn sub_second_order() {
    let w = Window { begin: Timestamp { secs: 1000, nanos: 5 }, end: t(2000), include_dependabot: false };
    let p = PullInfo { merged_at: Some(Timestamp { secs: 1000, nanos: 4 }), ..pull(1, "a", 1500, None) };
    let page = filter_merged_pulls(vec![p], &w);
    assert_eq!(page.verdicts, vec![Verdict::TooOld]);
}

#[test]
fn closed_issues_in_window() {
    let issues = vec![
        issue(1, 1500, Some(1500), Some(10), false),
        issue(2, 1500, Some(1500), Some(10), true),
        issue(3, 1500, None, Some(1500), false),
        issue(4, 2500, Some(2000), Some(10), false),
        issue(5, 500, Some(900), Some(10), false),
    ];
    let page = filter_closed_issues(issues, &window(false));
    assert_eq!(
        page.verdicts,
        vec![Verdict::Keep, Verdict::IsPull, Verdict::Unclosed, Verdict::TooNew, Verdict::TooOld]
    );
    assert_eq!(page.kept.len(), 1);
    assert_eq!(page.kept[0].html_url, "https://github.com/o/r/issues/1");
    assert_eq!(page.first_outdated, Some(4));
}

#[test]
fn open_issues_in_window() {
    let issues = vec![
        issue(1, 1500, None, Some(1200), false),
        issue(2, 1500, None, Some(800), false),
        issue(3, 1500, None, None, false),
        issue(4, 1500, Some(1), Some(1999), true),
    ];
    let page = filter_open_issues(issues, &window(false));
    assert_eq!(
        page.verdicts,
        vec![Verdict::Keep, Verdict::TooOld, Verdict::Unclosed, Verdict::IsPull]
    );
    assert_eq!(page.kept.len(), 1);
    assert_eq!(page.first_outdated, None);
}

#[test]
fn empty_page() {
    let page = filter_open_issues(vec![], &window(false));
    assert!(page.kept.is_empty() && page.verdicts.is_empty() && page.keep_going());
}
