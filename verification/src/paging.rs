//! Cursor-driven pagination.
//!
//! A resource collection is retrieved one page at a time, with `page`
//! incrementing from 1 and a fixed page size.  The termination rule is the
//! platform's: a page whose decoded length is strictly less than the page
//! size is the last one.  [`fetch_all_pages`] runs the whole loop over an
//! in-memory [`PageSource`]; [`Pager`] exposes the same decisions one step
//! at a time for callers that interleave them with network transport.

use vstd::prelude::*;

verus! {

/// The number of items requested per page everywhere in this crate.
pub const PER_PAGE: usize = 100;

/// An in-memory sequence of pages, served in order.  Once the stored pages
/// are exhausted every further request is answered with an empty page, the
/// way an upstream collection answers a request past its end.  The number
/// of requests served so far is kept, so that callers can observe exactly
/// how many round-trips a fetch would have cost.
pub struct PageSource<T> {
    pages: Vec<Vec<T>>,
    served: usize,
}

/// The items of the pages as plain sequences.
pub open spec fn pages_views<T>(pages: Seq<Vec<T>>) -> Seq<Seq<T>> {
    pages.map(|i: int, p: Vec<T>| p@)
}

/// The items of the pages under each element's deep view.
pub open spec fn pages_deep<T: DeepView>(pages: Seq<Vec<T>>) -> Seq<Seq<T::V>> {
    pages.map(|i: int, p: Vec<T>| p.deep_view())
}

/// The items a paginated fetch returns: pages are concatenated in order
/// until (and including) the first page shorter than `size`.  A source
/// with no pages left answers one empty page.
pub open spec fn fetched_items<T>(pages: Seq<Seq<T>>, size: int) -> Seq<T>
    decreases pages.len(),
{
    if pages.len() == 0 {
        Seq::empty()
    } else if pages[0].len() < size {
        pages[0]
    } else {
        pages[0] + fetched_items(pages.skip(1), size)
    }
}

/// How many page requests the same fetch issues: one per concatenated
/// page, plus the final empty request when every stored page was full.
pub open spec fn pages_consumed<T>(pages: Seq<Seq<T>>, size: int) -> int
    decreases pages.len(),
{
    if pages.len() == 0 {
        1
    } else if pages[0].len() < size {
        1
    } else {
        1 + pages_consumed(pages.skip(1), size)
    }
}

impl<T> PageSource<T> {
    /// The pages not yet served.
    pub closed spec fn spec_pages(&self) -> Seq<Vec<T>> {
        self.pages@
    }

    /// How many page requests this source has answered.
    pub closed spec fn spec_served(&self) -> int {
        self.served as int
    }

    /// A source that has answered nothing yet.
    pub open spec fn is_fresh(&self) -> bool {
        self.spec_served() == 0
    }

    pub fn new(pages: Vec<Vec<T>>) -> (r: Self)
        ensures
            r.spec_pages() == pages@,
            r.is_fresh(),
    {
        PageSource { pages, served: 0 }
    }

    /// How many page requests this source has answered.
    pub fn requests(&self) -> (r: usize)
        ensures
            r as int == self.spec_served(),
    {
        self.served
    }

    /// Answer one page request: the next stored page, or an empty page
    /// once the stored ones are exhausted.
    pub fn fetch(&mut self) -> (batch: Vec<T>)
        requires
            old(self).spec_served() < usize::MAX,
        ensures
            final(self).spec_served() == old(self).spec_served() + 1,
            old(self).spec_pages().len() > 0 ==> {
                &&& batch == old(self).spec_pages()[0]
                &&& final(self).spec_pages() == old(self).spec_pages().skip(1)
            },
            old(self).spec_pages().len() == 0 ==> {
                &&& batch@ == Seq::<T>::empty()
                &&& final(self).spec_pages() == old(self).spec_pages()
            },
    {
        self.served = self.served + 1;
        if self.pages.len() > 0 {
            let page = self.pages.remove(0);
            proof {
                assert(old(self).spec_pages().remove(0) =~= old(self).spec_pages().skip(1));
            }
            page
        } else {
            Vec::new()
        }
    }
}

/// Retrieve a whole collection from `src`: pages are requested in order
/// and accumulated until a page shorter than `page_size` arrives.  Returns
/// exactly the items [`fetched_items`] describes, and leaves behind
/// exactly the request count [`pages_consumed`] describes.
pub fn fetch_all_pages<T>(src: &mut PageSource<T>, page_size: usize) -> (items: Vec<T>)
    requires
        page_size >= 1,
        old(src).spec_served() + old(src).spec_pages().len() < usize::MAX,
    ensures
        items@ == fetched_items(pages_views(old(src).spec_pages()), page_size as int),
        final(src).spec_served() == old(src).spec_served() + pages_consumed(
            pages_views(old(src).spec_pages()),
            page_size as int,
        ),
{
    let mut items: Vec<T> = Vec::new();
    let ghost orig = *src;
    loop
        invariant
            orig == *old(src),
            page_size >= 1,
            src.spec_served() + src.spec_pages().len() < usize::MAX,
            fetched_items(pages_views(orig.spec_pages()), page_size as int) == items@
                + fetched_items(pages_views(src.spec_pages()), page_size as int),
            orig.spec_served() + pages_consumed(pages_views(orig.spec_pages()), page_size as int)
                == src.spec_served() + pages_consumed(
                pages_views(src.spec_pages()),
                page_size as int,
            ),
        decreases src.spec_pages().len(),
    {
        let ghost before = *src;
        let ghost items_before = items@;
        let ghost bviews = pages_views(before.spec_pages());
        let mut batch = src.fetch();
        let ghost batch_view = batch@;
        let batch_len = batch.len();
        proof {
            if before.spec_pages().len() > 0 {
                assert(bviews[0] == batch_view);
                assert(bviews.skip(1) =~= pages_views(src.spec_pages()));
            }
        }
        items.append(&mut batch);
        if batch_len < page_size {
            proof {
                if before.spec_pages().len() == 0 {
                    assert(fetched_items(bviews, page_size as int) == Seq::<T>::empty());
                } else {
                    assert(bviews[0].len() < page_size as int);
                    assert(fetched_items(bviews, page_size as int) == bviews[0]);
                }
                assert(pages_consumed(bviews, page_size as int) == 1);
                assert(items_before + fetched_items(bviews, page_size as int) =~= items@);
            }
            return items;
        }
        proof {
            assert(before.spec_pages().len() > 0);
            assert(fetched_items(bviews, page_size as int) == bviews[0] + fetched_items(
                bviews.skip(1),
                page_size as int,
            ));
            assert(pages_consumed(bviews, page_size as int) == 1 + pages_consumed(
                bviews.skip(1),
                page_size as int,
            ));
            assert(items_before + fetched_items(bviews, page_size as int) =~= items@
                + fetched_items(pages_views(src.spec_pages()), page_size as int));
        }
    }
}

/// The items of a fetch under each element's deep view are the deep views
/// of the items of the same fetch: pagination decides by page lengths,
/// which the view preserves.
pub proof fn lemma_fetched_deep<T: DeepView>(pages: Seq<Vec<T>>, size: int)
    ensures
        fetched_items(pages_deep(pages), size).len() == fetched_items(
            pages_views(pages),
            size,
        ).len(),
        forall|k: int|
            0 <= k < fetched_items(pages_views(pages), size).len() ==> fetched_items(
                pages_deep(pages),
                size,
            )[k] == (#[trigger] fetched_items(pages_views(pages), size)[k]).deep_view(),
    decreases pages.len(),
{
    if pages.len() > 0 {
        let pv = pages_views(pages);
        let pd = pages_deep(pages);
        assert(pv[0] == pages[0]@);
        assert(pd[0] == pages[0].deep_view());
        assert(pd[0].len() == pv[0].len());
        assert(forall|k: int| 0 <= k < pv[0].len() ==> pd[0][k] == (#[trigger] pv[0][k]).deep_view());
        if !(pages[0]@.len() < size) {
            assert(pv.skip(1) =~= pages_views(pages.skip(1)));
            assert(pd.skip(1) =~= pages_deep(pages.skip(1)));
            lemma_fetched_deep(pages.skip(1), size);
        }
    }
}

/// The pagination decisions alone, one step at a time, for a caller that
/// performs the page requests itself: ask [`Pager::current_page`] which
/// page to request, perform the request, and [`Pager::record`] the decoded
/// length.  The collection ends with the first page shorter than the page
/// size.
pub struct Pager {
    page_size: usize,
    next_page: usize,
    done: bool,
}

impl Pager {
    pub closed spec fn spec_page_size(&self) -> int {
        self.page_size as int
    }

    pub closed spec fn spec_next_page(&self) -> int {
        self.next_page as int
    }

    pub closed spec fn spec_done(&self) -> bool {
        self.done
    }

    pub fn new(page_size: usize) -> (r: Self)
        requires
            page_size >= 1,
        ensures
            r.spec_page_size() == page_size,
            r.spec_next_page() == 1,
            !r.spec_done(),
    {
        Pager { page_size, next_page: 1, done: false }
    }

    /// The 1-based number of the page to request next, or `None` once a
    /// short page has ended the collection.
    pub fn current_page(&self) -> (r: Option<usize>)
        ensures
            r matches Some(p) ==> !self.spec_done() && p as int == self.spec_next_page(),
            r is None <==> self.spec_done(),
    {
        if self.done {
            None
        } else {
            Some(self.next_page)
        }
    }

    /// Record the decoded length of the page just requested.
    pub fn record(&mut self, batch_len: usize)
        requires
            !old(self).spec_done(),
            old(self).spec_next_page() < usize::MAX,
        ensures
            final(self).spec_page_size() == old(self).spec_page_size(),
            final(self).spec_next_page() == old(self).spec_next_page() + 1,
            final(self).spec_done() <==> (batch_len as int) < old(self).spec_page_size(),
    {
        self.next_page = self.next_page + 1;
        if batch_len < self.page_size {
            self.done = true;
        }
    }
}

} // verus!
