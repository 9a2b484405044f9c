use issues_watcher::boards::{resolve_board_id, Board};
use issues_watcher::client::GitHub;
use issues_watcher::error::Error;
use issues_watcher::paging::{PageSource, PER_PAGE};

fn board_page(numbers: &[(i64, i32)]) -> Vec<Board> {
    numbers.iter().map(|&(id, number)| Board { id, number }).collect()
}

fn full_page_without(target: i32) -> Vec<Board> {
    let mut v = Vec::new();
    for k in 0..PER_PAGE {
        v.push(Board {
            id: 1000 + k as i64,
            number: target + 1 + k as i32,
        });
    }
    v
}

#[test]
fn resolve_finds_board_on_first_page() {
    let mut src = PageSource::new(vec![board_page(&[(7, 1), (8, 40), (9, 2)])]);
    assert_eq!(resolve_board_id(40, &mut src, PER_PAGE).unwrap(), 8);
    assert_eq!(src.requests(), 1);
}

#[test]
fn resolve_stops_at_the_matching_page() {
    let mut src = PageSource::new(vec![
        board_page(&[(8, 40)]),
        full_page_without(40),
        full_page_without(40),
    ]);
    assert_eq!(resolve_board_id(40, &mut src, PER_PAGE).unwrap(), 8);
    assert_eq!(src.requests(), 1);
}

#[test]
fn resolve_finds_board_on_later_page() {
    let mut src = PageSource::new(vec![full_page_without(40), board_page(&[(8, 40)])]);
    assert_eq!(resolve_board_id(40, &mut src, PER_PAGE).unwrap(), 8);
    assert_eq!(src.requests(), 2);
}

#[test]
fn resolve_not_found_after_exhausting_pagination() {
    let mut src = PageSource::new(vec![full_page_without(40), board_page(&[(9, 2)])]);
    let err = resolve_board_id(40, &mut src, PER_PAGE).unwrap_err();
    assert!(matches!(err, Error::ProjectNotFound));
    assert_eq!(src.requests(), 2);
}

#[test]
fn resolve_not_found_on_empty_list() {
    let mut src: PageSource<Board> = PageSource::new(vec![]);
    let err = resolve_board_id(40, &mut src, PER_PAGE).unwrap_err();
    assert!(matches!(err, Error::ProjectNotFound));
    assert_eq!(src.requests(), 1);
}

#[test]
fn get_projects_id_assigns_identifiers() {
    let mut client = GitHub::new(
        "t".to_owned(),
        vec![],
        vec!["https://github.com/pingcap/tidb/projects/40".to_owned()],
    );
    let mut sources = vec![PageSource::new(vec![board_page(&[(123, 40)])])];
    client.get_projects_id(&mut sources).unwrap();
    assert_eq!(client.projects[0].id, Some(123));
    assert_eq!(sources[0].requests(), 1);
}

#[test]
fn get_projects_id_not_found_fails_whole_batch() {
    let mut client = GitHub::new(
        "t".to_owned(),
        vec![],
        vec!["https://github.com/pingcap/tidb/projects/40".to_owned()],
    );
    let mut sources = vec![PageSource::new(vec![board_page(&[(9, 41)])])];
    let err = client.get_projects_id(&mut sources).unwrap_err();
    assert!(matches!(err, Error::ProjectNotFound));
    assert_eq!(client.projects[0].id, None);
}

#[test]
fn get_projects_id_reuses_cached_number() {
    let mut client = GitHub::new(
        "t".to_owned(),
        vec![],
        vec![
            "https://github.com/pingcap/tidb/projects/40".to_owned(),
            "https://github.com/you06/issues-watcher/projects/40".to_owned(),
        ],
    );
    // The second source would fail a scan; the cached number means it is
    // never scanned.
    let mut sources = vec![
        PageSource::new(vec![board_page(&[(123, 40)])]),
        PageSource::new(vec![]),
    ];
    client.get_projects_id(&mut sources).unwrap();
    assert_eq!(client.projects[0].id, Some(123));
    assert_eq!(client.projects[1].id, Some(123));
    assert_eq!(sources[0].requests(), 1);
    assert_eq!(sources[1].requests(), 0);
}

#[test]
fn get_projects_id_skips_already_resolved() {
    let mut client = GitHub::new(
        "t".to_owned(),
        vec![],
        vec!["https://github.com/pingcap/tidb/projects/40".to_owned()],
    );
    client.projects[0].id = Some(55);
    let mut sources = vec![PageSource::new(vec![])];
    client.get_projects_id(&mut sources).unwrap();
    assert_eq!(client.projects[0].id, Some(55));
    assert_eq!(sources[0].requests(), 0);
}
