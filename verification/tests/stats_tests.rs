use ribbot::activity::{IssueInfo, PullInfo, PullWithComments};
use ribbot::dates::Timestamp;
use ribbot::project::Project;
use ribbot::stats::{make_issue_stats, make_pull_stats, PullStats};

fn project(repos: &[&str]) -> Project {
    Project {
        name: "Proj".to_string(),
        url: "https://proj.example".to_string(),
        repos: repos.iter().map(|r| r.to_string()).collect(),
    }
}

fn issue(url: &str) -> IssueInfo {
    IssueInfo {
        html_url: url.to_string(),
        title: "t".to_string(),
        login: "a".to_string(),
        updated_at: Timestamp { secs: 0, nanos: 0 },
        closed_at: None,
        created_at: None,
        is_pull: false,
    }
}

fn pull(repo_url: &str, comments: usize) -> PullWithComments {
    PullWithComments {
        pull: PullInfo {
            html_url: format!("{}/pull/1", repo_url),
            title: "t".to_string(),
            login: "a".to_string(),
            updated_at: Timestamp { secs: 0, nanos: 0 },
            merged_at: None,
            review_comments_url: String::new(),
            base_repo_url: repo_url.to_string(),
        },
        comments,
    }
}

fn pairs(stats: &PullStats) -> Vec<(String, usize)> {
    stats.stats.iter().map(|s| (s.repo.clone(), s.count)).collect()
}

#[test]
fn issue_stats_in_project_order() {
    let p = project(&["o/a", "o/b", "o/c"]);
    let issues = vec![
        issue("https://github.com/o/b/issues/1"),
        issue("https://github.com/o/a/issues/2"),
        issue("https://github.com/o/b/issues/3"),
    ];
    let stats = make_issue_stats(&p, &issues).unwrap();
    assert_eq!(
        pairs(&stats),
        vec![("https://github.com/o/a".to_string(), 1), ("https://github.com/o/b".to_string(), 2)]
    );
    let total: usize = stats.stats.iter().map(|s| s.count).sum();
    assert_eq!(total, issues.len());
}

#[test]
fn duplicate_repo_counted_once() {
    let p = project(&["o/a", "o/a"]);
    let issues = vec![issue("https://github.com/o/a/issues/1"), issue("https://github.com/o/a/issues/2")];
    let stats = make_issue_stats(&p, &issues).unwrap();
    assert_eq!(pairs(&stats), vec![("https://github.com/o/a".to_string(), 2)]);
}

#[test]
fn issue_stats_mismatch() {
    let p = project(&["o/a"]);
    let issues = vec![
        issue("https://github.com/x/y/issues/1"),
        issue("https://github.com/o/a/issues/2"),
        issue("https://github.com/x/y/issues/3"),
        issue("https://github.com/z/w/pull/4"),
    ];
    let err = make_issue_stats(&p, &issues).unwrap_err();
    assert_eq!(err.unmatched, vec!["https://github.com/x/y".to_string(), "https://github.com/z/w".to_string()]);
}

#[test]
fn pull_stats_by_base_repo() {
    let p = project(&["o/a", "o/b"]);
    let pulls = vec![pull("https://github.com/o/b", 3), pull("https://github.com/o/b", 0)];
    let stats = make_pull_stats(&p, &pulls).unwrap();
    assert_eq!(pairs(&stats), vec![("https://github.com/o/b".to_string(), 2)]);
    let err = make_pull_stats(&p, &vec![pull("https://github.com/o/c", 0)]).unwrap_err();
    assert_eq!(err.unmatched, vec!["https://github.com/o/c".to_string()]);
}

#[test]
fn empty_stats() {
    let p = project(&["o/a"]);
    assert!(make_issue_stats(&p, &vec![]).unwrap().stats.is_empty());
    assert!(make_pull_stats(&project(&[]), &vec![]).unwrap().stats.is_empty());
}

#[test]
fn issue_stats_ignore_order() {
    let p = project(&["o/a", "o/b"]);
    let urls = [
        "https://github.com/o/b/issues/1",
        "https://github.com/o/a/issues/2",
        "https://github.com/o/b/issues/3",
    ];
    let forward: Vec<IssueInfo> = urls.iter().map(|u| issue(u)).collect();
    let backward: Vec<IssueInfo> = urls.iter().rev().map(|u| issue(u)).collect();
    assert_eq!(pairs(&make_issue_stats(&p, &forward).unwrap()), pairs(&make_issue_stats(&p, &backward).unwrap()));
    let q = project(&["o/a"]);
    assert!(make_issue_stats(&q, &forward).is_err() && make_issue_stats(&q, &backward).is_err());
}
