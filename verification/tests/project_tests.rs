use ribbot::project::{make_stubname, repo_from_issue, repo_name_to_url, selected_projects, Config, Project};

fn project(name: &str, repos: &[&str]) -> Project {
    Project {
        name: name.to_string(),
        url: format!("https://{}.example", name),
        repos: repos.iter().map(|r| r.to_string()).collect(),
    }
}

#[test]
fn repo_url_of_name() {
    assert_eq!(repo_name_to_url("AleoHQ/aleo"), "https://github.com/AleoHQ/aleo");
    assert_eq!(repo_name_to_url(""), "https://github.com/");
}

#[test]
fn repo_of_issue_url() {
    assert_eq!(repo_from_issue("https://github.com/AleoHQ/aleo/issues/372"), "https://github.com/AleoHQ/aleo");
    assert_eq!(repo_from_issue("https://github.com/o/r/pull/1"), "https://github.com/o/r");
    assert_eq!(repo_from_issue("a/b/c"), "a");
    assert_eq!(repo_from_issue("//"), "");
    assert_eq!(repo_from_issue("a/b/c/"), "a/b");
}

#[test]
fn stubname_of_project() {
    assert_eq!(make_stubname(&project("Hyperledger Fabric", &[])), "hyperledger_fabric");
    assert_eq!(make_stubname(&project("Aleo", &[])), "aleo");
    assert_eq!(make_stubname(&project("Zcash  Ünï", &[])), "zcash__Ünï");
}

#[test]
fn selection_of_projects() {
    let config = Config { projects: vec![project("A", &[]), project("B", &[]), project("A", &[])] };
    assert_eq!(selected_projects(&config, None), vec![0, 1, 2]);
    assert_eq!(selected_projects(&config, Some("A")), vec![0, 2]);
    assert_eq!(selected_projects(&config, Some("B")), vec![1]);
    assert_eq!(selected_projects(&config, Some("C")), Vec::<usize>::new());
}
