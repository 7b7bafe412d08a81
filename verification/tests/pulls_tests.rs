use ribbot::activity::{PullInfo, PullWithComments};
use ribbot::dates::Timestamp;
use ribbot::pulls::{get_sorted_merged_pulls, sort_by_comments, with_comment_counts, without_comments};

fn info(title: &str) -> PullInfo {
    PullInfo {
        html_url: format!("https://github.com/o/r/pull/{}", title),
        title: title.to_string(),
        login: "a".to_string(),
        updated_at: Timestamp { secs: 0, nanos: 0 },
        merged_at: Some(Timestamp { secs: 0, nanos: 0 }),
        review_comments_url: String::new(),
        base_repo_url: "https://github.com/o/r".to_string(),
    }
}

fn titles(pulls: &[PullWithComments]) -> Vec<(String, usize)> {
    pulls.iter().map(|p| (p.pull.title.clone(), p.comments)).collect()
}

#[test]
fn sorted_most_comments_first_and_stable() {
    let pulls = with_comment_counts(
        vec![info("a"), info("b"), info("c"), info("d"), info("e")],
        vec![1, 3, 1, 0, 3],
    );
    let sorted = sort_by_comments(pulls);
    assert_eq!(
        titles(&sorted),
        vec![
            ("b".to_string(), 3),
            ("e".to_string(), 3),
            ("a".to_string(), 1),
            ("c".to_string(), 1),
            ("d".to_string(), 0),
        ]
    );
}

#[test]
fn without_comments_keeps_listing_order() {
    let pulls = without_comments(vec![info("x"), info("y"), info("z")]);
    let sorted = get_sorted_merged_pulls(pulls);
    assert_eq!(
        titles(&sorted),
        vec![("x".to_string(), 0), ("y".to_string(), 0), ("z".to_string(), 0)]
    );
}

#[test]
fn sort_of_nothing() {
    assert!(sort_by_comments(vec![]).is_empty());
}
