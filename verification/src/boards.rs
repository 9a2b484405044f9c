//! Boards, columns and cards.
//!
//! A board is listed by its repository with a human-visible `number` and a
//! platform-internal `id`; resolution scans the repository's board list,
//! page by page, for the target number.  A resolved board drills down into
//! columns, and each column into a paginated list of cards.

use vstd::prelude::*;

use crate::error::Error;
use crate::paging::{pages_views, PageSource};

verus! {

/// One entry of a repository's board list.
#[derive(Debug, PartialEq, Eq, Structural, Clone, Copy)]
pub struct Board {
    pub id: i64,
    pub number: i32,
}

impl View for Board {
    type V = Board;

    open spec fn view(&self) -> Board {
        *self
    }
}

impl DeepView for Board {
    type V = Board;

    open spec fn deep_view(&self) -> Board {
        *self
    }
}

/// A card placed in a column.  Its content representation is a known gap
/// upstream: nothing of a card is retrieved beyond its existence.
#[derive(Debug, PartialEq, Eq, Structural, Clone, Copy)]
pub struct Card {}

impl View for Card {
    type V = Card;

    open spec fn view(&self) -> Card {
        *self
    }
}

impl DeepView for Card {
    type V = Card;

    open spec fn deep_view(&self) -> Card {
        *self
    }
}

pub ghost struct ColumnView {
    pub id: int,
    pub name: Seq<char>,
    pub cards: Seq<Card>,
}

/// A named lane within a board.  The column list arrives without cards;
/// the drill-down attaches them in a second phase.
#[derive(Debug, PartialEq, Eq)]
pub struct Column {
    pub id: i64,
    pub name: String,
    pub cards: Vec<Card>,
}

impl View for Column {
    type V = ColumnView;

    open spec fn view(&self) -> ColumnView {
        ColumnView { id: self.id as int, name: self.name@, cards: self.cards@ }
    }
}

impl DeepView for Column {
    type V = ColumnView;

    open spec fn deep_view(&self) -> ColumnView {
        self@
    }
}

pub ghost struct BoardDataView {
    pub columns: Seq<ColumnView>,
    pub card_pages: Seq<Seq<Seq<Card>>>,
}

/// What one board's drill-down reads from the platform: its column list,
/// and for each column the paginated card list, aligned by index.
pub struct BoardData {
    pub columns: Vec<Column>,
    pub cards: Vec<PageSource<Card>>,
}

impl View for BoardData {
    type V = BoardDataView;

    open spec fn view(&self) -> BoardDataView {
        BoardDataView {
            columns: self.columns.deep_view(),
            card_pages: self.cards@.map(|i: int, s: PageSource<Card>| pages_views(s.spec_pages())),
        }
    }
}

impl BoardData {
    /// One fresh card source per column.
    pub open spec fn wf(&self) -> bool {
        &&& self.cards@.len() == self.columns@.len()
        &&& forall|i: int|
            0 <= i < self.cards@.len() ==> (#[trigger] self.cards@[i]).is_fresh()
                && self.cards@[i].spec_pages().len() < usize::MAX
    }
}

/// The id of the first board with the target number, scanning the list
/// front to back.
pub open spec fn find_board(bs: Seq<Board>, target: int) -> Option<int>
    decreases bs.len(),
{
    if bs.len() == 0 {
        None
    } else if bs[0].number as int == target {
        Some(bs[0].id as int)
    } else {
        find_board(bs.skip(1), target)
    }
}

/// The result of scanning a paginated board list for a number: pages are
/// requested in order; a page containing the number ends the scan with its
/// id, and a page shorter than `size` without a match ends it with `None`.
pub open spec fn scan_pages(pages: Seq<Seq<Board>>, target: int, size: int) -> Option<int>
    decreases pages.len(),
{
    if pages.len() == 0 {
        None
    } else {
        match find_board(pages[0], target) {
            Some(id) => Some(id),
            None => if pages[0].len() < size {
                None
            } else {
                scan_pages(pages.skip(1), target, size)
            },
        }
    }
}

/// How many page requests the same scan issues: one per page up to and
/// including the page that carries the match or falls short of `size`.  A
/// match on a page means no later page is requested.
pub open spec fn scan_consumed(pages: Seq<Seq<Board>>, target: int, size: int) -> int
    decreases pages.len(),
{
    if pages.len() == 0 {
        1
    } else {
        match find_board(pages[0], target) {
            Some(_) => 1,
            None => if pages[0].len() < size {
                1
            } else {
                1 + scan_consumed(pages.skip(1), target, size)
            },
        }
    }
}

/// The first board of the page with the target number, if any.
pub fn find_board_in_page(batch: &Vec<Board>, target: i32) -> (r: Option<i64>)
    ensures
        r matches Some(id) ==> find_board(batch@, target as int) == Some(id as int),
        r is None ==> find_board(batch@, target as int) is None,
{
    proof {
        assert(batch@.skip(0) =~= batch@);
    }
    let mut k: usize = 0;
    while k < batch.len()
        invariant
            k <= batch@.len(),
            find_board(batch@, target as int) == find_board(batch@.skip(k as int), target as int),
        decreases batch@.len() - k,
    {
        proof {
            assert(batch@.skip(k as int)[0] == batch@[k as int]);
            assert(batch@.skip(k as int).skip(1) =~= batch@.skip(k as int + 1));
        }
        if batch[k].number == target {
            return Some(batch[k].id);
        }
        k = k + 1;
    }
    None
}

/// Scan a repository's paginated board list for the board with the target
/// number: pages are requested in order and the scan stops at the first
/// page with a match.  A scan that exhausts pagination without a match is
/// a terminal `ProjectNotFound`.  Exactly [`scan_consumed`] requests are
/// issued, so a match on a page means no later page is requested.
pub fn resolve_board_id(target: i32, src: &mut PageSource<Board>, page_size: usize) -> (r: Result<
    i64,
    Error,
>)
    requires
        page_size >= 1,
        old(src).spec_served() + old(src).spec_pages().len() < usize::MAX,
    ensures
        r matches Ok(id) ==> scan_pages(
            pages_views(old(src).spec_pages()),
            target as int,
            page_size as int,
        ) == Some(id as int),
        r matches Err(e) ==> e matches Error::ProjectNotFound && scan_pages(
            pages_views(old(src).spec_pages()),
            target as int,
            page_size as int,
        ) is None,
        final(src).spec_served() == old(src).spec_served() + scan_consumed(
            pages_views(old(src).spec_pages()),
            target as int,
            page_size as int,
        ),
{
    let ghost orig = *src;
    loop
        invariant
            orig == *old(src),
            page_size >= 1,
            src.spec_served() + src.spec_pages().len() < usize::MAX,
            scan_pages(pages_views(orig.spec_pages()), target as int, page_size as int)
                == scan_pages(pages_views(src.spec_pages()), target as int, page_size as int),
            orig.spec_served() + scan_consumed(
                pages_views(orig.spec_pages()),
                target as int,
                page_size as int,
            ) == src.spec_served() + scan_consumed(
                pages_views(src.spec_pages()),
                target as int,
                page_size as int,
            ),
        decreases src.spec_pages().len(),
    {
        let ghost before = *src;
        let ghost bviews = pages_views(before.spec_pages());
        let batch = src.fetch();
        proof {
            if before.spec_pages().len() > 0 {
                assert(bviews[0] == batch@);
                assert(bviews.skip(1) =~= pages_views(src.spec_pages()));
            }
        }
        let found = find_board_in_page(&batch, target);
        if let Some(id) = found {
            proof {
                assert(bviews.len() > 0);
                assert(scan_pages(bviews, target as int, page_size as int) == Some(id as int));
                assert(scan_consumed(bviews, target as int, page_size as int) == 1);
            }
            return Ok(id);
        }
        if batch.len() < page_size {
            proof {
                assert(scan_pages(bviews, target as int, page_size as int) is None);
                assert(scan_consumed(bviews, target as int, page_size as int) == 1);
            }
            return Err(Error::ProjectNotFound);
        }
        proof {
            assert(bviews.len() > 0);
            assert(scan_pages(bviews, target as int, page_size as int) == scan_pages(
                pages_views(src.spec_pages()),
                target as int,
                page_size as int,
            ));
            assert(scan_consumed(bviews, target as int, page_size as int) == 1 + scan_consumed(
                pages_views(src.spec_pages()),
                target as int,
                page_size as int,
            ));
        }
    }
}

/// No page of the board list carries the target number, so the scan comes
/// up empty whatever the page shapes: resolution then reports the project
/// as not found after exhausting pagination.
pub proof fn lemma_scan_unmatched(pages: Seq<Seq<Board>>, target: int, size: int)
    requires
        forall|i: int, j: int|
            0 <= i < pages.len() && 0 <= j < pages[i].len() ==> (#[trigger] pages[i][j]).number
                as int != target,
    ensures
        scan_pages(pages, target, size) is None,
    decreases pages.len(),
{
    if pages.len() > 0 {
        lemma_find_unmatched(pages[0], target);
        if pages[0].len() >= size {
            assert forall|i: int, j: int|
                0 <= i < pages.skip(1).len() && 0 <= j < pages.skip(1)[i].len() implies (
            #[trigger] pages.skip(1)[i][j]).number as int != target by {
                assert(pages.skip(1)[i] == pages[i + 1]);
            }
            lemma_scan_unmatched(pages.skip(1), target, size);
        }
    }
}

proof fn lemma_find_unmatched(bs: Seq<Board>, target: int)
    requires
        forall|j: int| 0 <= j < bs.len() ==> (#[trigger] bs[j]).number as int != target,
    ensures
        find_board(bs, target) is None,
    decreases bs.len(),
{
    if bs.len() > 0 {
        assert(forall|j: int| 0 <= j < bs.skip(1).len() ==> bs.skip(1)[j] == bs[j + 1]);
        lemma_find_unmatched(bs.skip(1), target);
    }
}

} // verus!
