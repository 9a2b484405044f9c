use issues_watcher::boards::Card;
use issues_watcher::paging::{fetch_all_pages, PageSource, Pager, PER_PAGE};

fn page_of(n: usize) -> Vec<Card> {
    let mut v = Vec::new();
    for _ in 0..n {
        v.push(Card {});
    }
    v
}

#[test]
fn fetch_stops_after_first_short_page() {
    let mut src = PageSource::new(vec![page_of(100), page_of(100), page_of(37)]);
    let items = fetch_all_pages(&mut src, PER_PAGE);
    assert_eq!(items.len(), 237);
    assert_eq!(src.requests(), 3);
}

#[test]
fn fetch_with_short_first_page_issues_one_request() {
    let mut src = PageSource::new(vec![page_of(42)]);
    let items = fetch_all_pages(&mut src, PER_PAGE);
    assert_eq!(items.len(), 42);
    assert_eq!(src.requests(), 1);
}

#[test]
fn fetch_with_empty_first_page_issues_one_request() {
    let mut src: PageSource<Card> = PageSource::new(vec![]);
    let items = fetch_all_pages(&mut src, PER_PAGE);
    assert_eq!(items.len(), 0);
    assert_eq!(src.requests(), 1);
}

#[test]
fn fetch_after_full_final_page_costs_one_empty_request() {
    let mut src = PageSource::new(vec![page_of(100)]);
    let items = fetch_all_pages(&mut src, PER_PAGE);
    assert_eq!(items.len(), 100);
    assert_eq!(src.requests(), 2);
}

#[test]
fn fetch_keeps_item_order() {
    let mut src = PageSource::new(vec![vec![1u8, 2, 3], vec![4u8]]);
    let items = fetch_all_pages(&mut src, 3);
    assert_eq!(items, vec![1, 2, 3, 4]);
    assert_eq!(src.requests(), 2);
}

#[test]
fn pager_counts_pages_and_stops_on_short_page() {
    let mut pager = Pager::new(100);
    assert_eq!(pager.current_page(), Some(1));
    pager.record(100);
    assert_eq!(pager.current_page(), Some(2));
    pager.record(100);
    assert_eq!(pager.current_page(), Some(3));
    pager.record(37);
    assert_eq!(pager.current_page(), None);
}

#[test]
fn pager_stops_immediately_on_short_first_page() {
    let mut pager = Pager::new(100);
    assert_eq!(pager.current_page(), Some(1));
    pager.record(0);
    assert_eq!(pager.current_page(), None);
}
