use issues_watcher::boards::{BoardData, Card, Column};
use issues_watcher::client::{GitHub, Upstream};
use issues_watcher::error::Error;
use issues_watcher::issues::{
    count_member_comments, filter_candidate, filter_issues, if_member, Comment, Issue,
    STALE_WINDOW_SECONDS,
};
use issues_watcher::paging::PageSource;

fn issue(number: i32, created_at: i64) -> Issue {
    Issue {
        number,
        title: format!("issue {}", number),
        assignee: None,
        owner: "".to_owned(),
        repo: "".to_owned(),
        pull_request: None,
        created_at,
        author_association: "NONE".to_owned(),
        labels: vec![],
    }
}

fn cards(n: usize) -> Vec<Card> {
    let mut v = Vec::new();
    for _ in 0..n {
        v.push(Card {});
    }
    v
}

fn upstream_for(client: &GitHub) -> Upstream {
    let issues = client
        .repos
        .iter()
        .enumerate()
        .map(|(i, _)| PageSource::new(vec![vec![issue(i as i32 + 1, 100)]]))
        .collect();
    let boards = client
        .projects
        .iter()
        .map(|_| BoardData {
            columns: vec![
                Column {
                    id: 10,
                    name: "To Do".to_owned(),
                    cards: vec![],
                },
                Column {
                    id: 11,
                    name: "Done".to_owned(),
                    cards: vec![],
                },
            ],
            cards: vec![
                PageSource::new(vec![cards(2)]),
                PageSource::new(vec![cards(1)]),
            ],
        })
        .collect();
    Upstream { issues, boards }
}

fn resolved_client() -> GitHub {
    let mut client = GitHub::new(
        "t".to_owned(),
        vec!["pingcap/parser".to_owned()],
        vec!["https://github.com/pingcap/tidb/projects/40".to_owned()],
    );
    client.projects[0].id = Some(123);
    client
}

#[test]
fn empty_configuration_yields_empty_snapshot() {
    let client = GitHub::new("t".to_owned(), vec![], vec![]);
    let snapshot = client
        .get_snapshot(Upstream {
            issues: vec![],
            boards: vec![],
        })
        .unwrap();
    assert!(snapshot.repo_issues.is_empty());
    assert!(snapshot.project_issues.is_empty());
    assert_eq!(snapshot.time, client.time);
}

#[test]
fn snapshot_backfills_owner_and_repo() {
    let client = resolved_client();
    let snapshot = client.get_snapshot(upstream_for(&client)).unwrap();
    assert_eq!(snapshot.repo_issues.len(), 1);
    let ri = &snapshot.repo_issues[0];
    assert_eq!(ri.repo.owner, "pingcap");
    assert_eq!(ri.repo.repo, "parser");
    assert_eq!(ri.issues.len(), 1);
    assert_eq!(ri.issues[0].owner, "pingcap");
    assert_eq!(ri.issues[0].repo, "parser");
    assert_eq!(ri.issues[0].number, 1);
}

#[test]
fn snapshot_attaches_cards_to_columns() {
    let client = resolved_client();
    let snapshot = client.get_snapshot(upstream_for(&client)).unwrap();
    assert_eq!(snapshot.project_issues.len(), 1);
    let pi = &snapshot.project_issues[0];
    assert_eq!(pi.project.number, 40);
    assert_eq!(pi.columns.len(), 2);
    assert_eq!(pi.columns[0].name, "To Do");
    assert_eq!(pi.columns[0].cards.len(), 2);
    assert_eq!(pi.columns[1].name, "Done");
    assert_eq!(pi.columns[1].cards.len(), 1);
}

#[test]
fn snapshot_fails_without_resolved_project_id() {
    let client = GitHub::new(
        "t".to_owned(),
        vec![],
        vec!["https://github.com/pingcap/tidb/projects/40".to_owned()],
    );
    let err = client.get_snapshot(upstream_for(&client)).unwrap_err();
    assert!(matches!(err, Error::MissingProjectId));
}

#[test]
fn get_columns_requires_project_id() {
    let client = resolved_client();
    let mut project = client.projects[0].clone();
    project.id = None;
    let board = BoardData {
        columns: vec![],
        cards: vec![],
    };
    let err = client.get_columns(&project, board).unwrap_err();
    assert!(matches!(err, Error::MissingProjectId));
}

#[test]
fn snapshot_twice_equal_except_time() {
    let client1 = resolved_client();
    let client2 = resolved_client();
    let snap1 = client1.get_snapshot(upstream_for(&client1)).unwrap();
    let snap2 = client2.get_snapshot(upstream_for(&client2)).unwrap();
    assert_eq!(snap1.repo_issues, snap2.repo_issues);
    assert_eq!(snap1.project_issues, snap2.project_issues);
    assert_eq!(snap1.time, client1.time);
    assert_eq!(snap2.time, client2.time);
}

#[test]
fn member_associations() {
    assert!(if_member(&"OWNER".to_owned()));
    assert!(if_member(&"COLLABORATOR".to_owned()));
    assert!(if_member(&"MEMBER".to_owned()));
    assert!(if_member(&"CONTRIBUTOR".to_owned()));
    assert!(!if_member(&"NONE".to_owned()));
    assert!(!if_member(&"owner".to_owned()));
}

#[test]
fn member_comment_count() {
    let comments = vec![
        Comment {
            html_url: "u1".to_owned(),
            author_association: "OWNER".to_owned(),
        },
        Comment {
            html_url: "u2".to_owned(),
            author_association: "NONE".to_owned(),
        },
        Comment {
            html_url: "u3".to_owned(),
            author_association: "MEMBER".to_owned(),
        },
    ];
    assert_eq!(count_member_comments(&comments), 2);
}

#[test]
fn filter_keeps_only_stale_unassigned_non_pulls() {
    let now = 10 * STALE_WINDOW_SECONDS;
    let stale = issue(1, now - STALE_WINDOW_SECONDS);
    let fresh = issue(2, now - STALE_WINDOW_SECONDS + 1);
    let mut assigned = issue(3, 0);
    assigned.assignee = Some(issues_watcher::issues::Assignee {
        id: 9,
        login: "someone".to_owned(),
    });
    let mut pull = issue(4, 0);
    pull.pull_request = Some(issues_watcher::issues::Pull {
        html_url: "p".to_owned(),
    });
    assert!(filter_candidate(&stale, now));
    assert!(!filter_candidate(&fresh, now));
    let kept = filter_issues(vec![stale, fresh, assigned, pull], now);
    assert_eq!(kept.len(), 1);
    assert_eq!(kept[0].number, 1);
}

#[test]
fn issue_url_rendering() {
    let mut i = issue(123, 0);
    i.owner = "pingcap".to_owned();
    i.repo = "parser".to_owned();
    assert_eq!(i.url(), "https://github.com/pingcap/parser/issues/123");
}

#[test]
fn decimal_rendering() {
    assert_eq!(issues_watcher::issues::i32_decimal(0), "0");
    assert_eq!(issues_watcher::issues::i32_decimal(40), "40");
    assert_eq!(issues_watcher::issues::i32_decimal(2147483647), "2147483647");
    assert_eq!(issues_watcher::issues::i32_decimal(-5), "-5");
    assert_eq!(issues_watcher::issues::i32_decimal(-2147483648), "-2147483648");
}

#[test]
fn issue_url_with_negative_number() {
    let mut i = issue(-7, 0);
    i.owner = "o".to_owned();
    i.repo = "r".to_owned();
    assert_eq!(i.url(), "https://github.com/o/r/issues/-7");
}

#[test]
fn issue_fetch_short_first_page_is_one_request() {
    let client = resolved_client();
    let repo = client.repos[0].clone();
    let mut src = PageSource::new(vec![vec![issue(1, 100)]]);
    let ri = client.get_opened_issues_by_repo(&repo, &mut src);
    assert_eq!(ri.issues.len(), 1);
    assert_eq!(src.requests(), 1);
}

#[test]
fn error_messages() {
    assert_eq!(Error::MalformedReference.message(), "malformed reference");
    assert_eq!(Error::ProjectNotFound.message(), "project not found");
    assert_eq!(Error::MissingProjectId.message(), "project id is none");
    assert_eq!(Error::NetworkFailure("boom".to_owned()).message(), "boom");
    assert_eq!(Error::DecodeFailure("bad json".to_owned()).message(), "bad json");
}

#[test]
fn default_github_data_path() {
    assert_eq!(issues_watcher::config::default_github_data(), "~/.issues-watcher");
}
