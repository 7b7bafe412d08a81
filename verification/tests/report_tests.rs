use ribbot::activity::{PullInfo, PullWithComments};
use ribbot::dates::{Timestamp, FIRST_DAY, LAST_DAY};
use ribbot::project::Project;
use ribbot::report::{print_project, render_project};
use ribbot::stats::{PullStat, PullStats};

fn stats(v: &[(&str, usize)]) -> PullStats {
    PullStats { stats: v.iter().map(|(r, c)| PullStat { repo: r.to_string(), count: *c }).collect() }
}

fn pull(n: u32, title: &str, login: &str, comments: usize) -> PullWithComments {
    PullWithComments {
        pull: PullInfo {
            html_url: format!("https://github.com/AleoHQ/aleo/pull/{}", n),
            title: title.to_string(),
            login: login.to_string(),
            updated_at: Timestamp { secs: 0, nanos: 0 },
            merged_at: None,
            review_comments_url: String::new(),
            base_repo_url: "https://github.com/AleoHQ/aleo".to_string(),
        },
        comments,
    }
}

fn aleo() -> Project {
    Project {
        name: "Aleo".to_string(),
        url: "https://aleo.org".to_string(),
        repos: vec!["AleoHQ/aleo".to_string(), "AleoHQ/snarkVM".to_string()],
    }
}

const EXPECTED: &str = "#### [**Aleo**](https://aleo.org)\n\
\n\
3 merged PRs ([1][aleo-merged-prs-1], [2][aleo-merged-prs-2]), 1 closed issues ([1][aleo-closed_issues-1]), \n\
0 open issues ()\n\
\n\
[aleo-merged-prs-1]: https://github.com/AleoHQ/aleo/pulls?q=is%3Apr+is%3Aclosed+merged%3A2022-09-01..2022-09-30\n\
[aleo-merged-prs-2]: https://github.com/AleoHQ/snarkVM/pulls?q=is%3Apr+is%3Aclosed+merged%3A2022-09-01..2022-09-30\n\
[aleo-closed_issues-1]: https://github.com/AleoHQ/aleo/issues?q=is%3Aissue+is%3Aclosed+closed%3A2022-09-01..2022-09-30\n\
\n\
- PR: [Fix bug](https://github.com/AleoHQ/aleo/pull/5) by [@bob](https://github.com/bob)\n  <!-- ^ comments: 4 -->\n\
- PR: [Add docs](https://github.com/AleoHQ/aleo/pull/6) by [@carol](https://github.com/carol)\n\
\n";

#[test]
fn rendered_summary() {
    let pulls = vec![pull(5, "Fix bug", "bob", 4), pull(6, "Add docs", "carol", 0)];
    let text = render_project(
        &aleo(),
        &pulls,
        &stats(&[("https://github.com/AleoHQ/aleo", 2), ("https://github.com/AleoHQ/snarkVM", 1)]),
        &stats(&[("https://github.com/AleoHQ/aleo", 1)]),
        &stats(&[]),
        "2022-09-01",
        "2022-09-30",
    );
    assert_eq!(text, EXPECTED);
}

#[test]
fn printed_summary_labels_the_window() {
    // 2022-09-01 and 2022-10-01 are days 738399 and 738429 counted from January 1 of year 1;
    // the end is excluded, so the window is labelled with 2022-09-30.
    let pulls = vec![pull(5, "Fix bug", "bob", 4), pull(6, "Add docs", "carol", 0)];
    let text = print_project(
        &aleo(),
        &pulls,
        &stats(&[("https://github.com/AleoHQ/aleo", 2), ("https://github.com/AleoHQ/snarkVM", 1)]),
        &stats(&[("https://github.com/AleoHQ/aleo", 1)]),
        &stats(&[]),
        738399,
        738429,
    );
    assert_eq!(text.as_deref(), Some(EXPECTED));
}

#[test]
fn empty_summary() {
    let p = Project { name: "My Proj".to_string(), url: "u".to_string(), repos: vec![] };
    let text = render_project(&p, &vec![], &stats(&[]), &stats(&[]), &stats(&[]), "b", "e");
    assert_eq!(
        text,
        "#### [**My Proj**](u)\n\n0 merged PRs (), 0 closed issues (), \n0 open issues ()\n\n\n\n"
    );
}

#[test]
fn many_references_numbered() {
    let p = Project { name: "X".to_string(), url: "u".to_string(), repos: vec![] };
    let many: Vec<(String, usize)> = (0..11).map(|i| (format!("r{}", i), 1)).collect();
    let st = PullStats { stats: many.iter().map(|(r, c)| PullStat { repo: r.clone(), count: *c }).collect() };
    let text = render_project(&p, &vec![], &st, &stats(&[]), &stats(&[]), "b", "e");
    assert!(text.contains("11 merged PRs ([1][x-merged-prs-1], "));
    assert!(text.contains("[11][x-merged-prs-11])"));
    assert!(text.contains("[x-merged-prs-11]: r10/pulls?q="));
}

#[test]
fn printed_summary_out_of_chrono_range() {
    let p = Project { name: "X".to_string(), url: "u".to_string(), repos: vec![] };
    let none = |b: i32, e: i32| print_project(&p, &vec![], &stats(&[]), &stats(&[]), &stats(&[]), b, e);
    assert!(none(FIRST_DAY, FIRST_DAY + 1).is_some());
    assert!(none(LAST_DAY, LAST_DAY).is_some());
    assert_eq!(none(FIRST_DAY, FIRST_DAY), None);
    assert_eq!(none(FIRST_DAY - 1, 738429), None);
    assert_eq!(none(738399, LAST_DAY + 1), None);
}
