use issues_watcher::client::GitHub;
use issues_watcher::error::Error;
use issues_watcher::refs::{parse_project_ref, parse_repo_ref, Project, Repo};

#[test]
fn parse_repo_ref_two_segments() {
    let repo = parse_repo_ref("pingcap/parser").unwrap();
    assert_eq!(repo.owner, "pingcap");
    assert_eq!(repo.repo, "parser");
}

#[test]
fn parse_repo_ref_without_slash_fails() {
    let err = parse_repo_ref("pingcap").unwrap_err();
    assert!(matches!(err, Error::MalformedReference));
}

#[test]
fn parse_repo_ref_rejects_extra_or_empty_segments() {
    assert!(parse_repo_ref("a/b/c").is_err());
    assert!(parse_repo_ref("/b").is_err());
    assert!(parse_repo_ref("a/").is_err());
    assert!(parse_repo_ref("").is_err());
}

#[test]
fn parse_project_ref_board_url() {
    let p = parse_project_ref("https://github.com/pingcap/tidb/projects/40");
    assert_eq!(p.owner, "pingcap");
    assert_eq!(p.repo, "tidb");
    assert_eq!(p.number, 40);
    assert_eq!(p.id, None);
}

#[test]
fn parse_project_ref_unmatched_is_sentinel() {
    let p = parse_project_ref("https://example.com/pingcap/tidb/projects/40");
    assert_eq!(p.owner, "");
    assert_eq!(p.repo, "");
    assert_eq!(p.number, 0);
    assert_eq!(p.id, None);
}

#[test]
fn parse_project_ref_finds_pattern_after_garbage() {
    let p = parse_project_ref("see https://github.com/a-b/c_d/projects/7 please");
    assert_eq!(p.owner, "a-b");
    assert_eq!(p.repo, "c_d");
    assert_eq!(p.number, 7);
}

#[test]
fn create_client() {
    let repos = vec![
        "pingcap/parser".to_owned(),
        "you06/issues-watcher".to_owned(),
    ];
    let projects = vec![
        "https://github.com/pingcap/parser/projects/1".to_owned(),
        "https://github.com/pingcap/tidb/projects/40".to_owned(),
    ];
    let client = GitHub::new("".to_owned(), repos, projects);
    assert_eq!(
        client.repos,
        vec![
            Repo {
                owner: "pingcap".to_owned(),
                repo: "parser".to_owned()
            },
            Repo {
                owner: "you06".to_owned(),
                repo: "issues-watcher".to_owned()
            },
        ]
    );
    assert_eq!(
        client.projects,
        vec![Project {
            owner: "pingcap".to_owned(),
            repo: "tidb".to_owned(),
            number: 40,
            id: None,
        },]
    );
}

#[test]
fn client_filters_projects_sharing_a_repo() {
    let client = GitHub::new(
        "t".to_owned(),
        vec!["pingcap/parser".to_owned()],
        vec![
            "https://github.com/pingcap/parser/projects/1".to_owned(),
            "https://github.com/pingcap/tidb/projects/40".to_owned(),
        ],
    );
    assert_eq!(client.projects.len(), 1);
    assert_eq!(client.projects[0].owner, "pingcap");
    assert_eq!(client.projects[0].repo, "tidb");
    assert_eq!(client.projects[0].number, 40);
}

#[test]
fn client_token_header() {
    let client = GitHub::new("secret".to_owned(), vec![], vec![]);
    assert_eq!(client.token, "token secret");
}
