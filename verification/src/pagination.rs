//! Stable pagination: a pure skip/take window over an ordered listing, with
//! `has_next` computed by peeking one element past the requested window.

use vstd::prelude::*;

verus! {

/// One page of a listing.
pub struct Page<T> {
    pub data: Vec<T>,
    pub has_next: bool,
}

/// A request for one page of a filtered, sorted listing.
pub struct PageRequest<F, S> {
    pub page_index: usize,
    pub page_size: usize,
    pub filter: F,
    pub sort: S,
}

/// The slice of `s` a page shows: elements `[index * size, index * size + size)`,
/// clipped to the listing.
pub open spec fn page_window<T>(s: Seq<T>, page_index: int, page_size: int) -> Seq<T> {
    let start = if page_index * page_size <= s.len() {
        page_index * page_size
    } else {
        s.len() as int
    };
    let stop = if page_index * page_size + page_size <= s.len() {
        page_index * page_size + page_size
    } else {
        s.len() as int
    };
    s.subrange(start, stop)
}

/// Whether an element exists past the requested window.
pub open spec fn spec_has_next(len: int, page_index: int, page_size: int) -> bool {
    page_index * page_size + page_size < len
}

/// How many pages a listing of `len` elements yields: `ceil(len / size)`.
pub open spec fn num_pages(len: int, page_size: int) -> int {
    (len + page_size - 1) / page_size
}

/// A type whose contents can be listed page by page.
pub trait Pageable {
    type Item;

    /// The full listing the pages are drawn from, in listing order.
    spec fn listing(&self) -> Seq<Self::Item>;

    /// What must hold of the container for paging to be meaningful.
    spec fn pageable_wf(&self) -> bool;

    /// One page of the listing, and whether more follow.
    fn get_page<F, S>(&self, req: &PageRequest<F, S>) -> (r: Page<Self::Item>)
        requires
            self.pageable_wf(),
        ensures
            r.data@ == page_window(self.listing(), req.page_index as int, req.page_size as int),
            r.has_next == spec_has_next(
                self.listing().len() as int,
                req.page_index as int,
                req.page_size as int,
            ),
    ;
}

/// Pages a vector of copyable elements (used for id listings).
pub fn page_of_copied<T: Copy>(items: &Vec<T>, page_index: usize, page_size: usize) -> (r: Page<T>)
    ensures
        r.data@ == page_window(items@, page_index as int, page_size as int),
        r.has_next == spec_has_next(items@.len() as int, page_index as int, page_size as int),
{
    let n = items.len();
    let start_opt = page_index.checked_mul(page_size);
    let mut data: Vec<T> = Vec::new();
    match start_opt {
        None => {
            proof {
                assert(page_index * page_size > usize::MAX);
                assert(page_window(items@, page_index as int, page_size as int) =~= data@);
            }
            Page { data, has_next: false }
        },
        Some(start) => {
            let stop = if start > n {
                start
            } else if page_size > n - start {
                n
            } else {
                start + page_size
            };
            let mut i: usize = if start > n {
                n
            } else {
                start
            };
            let ghost lo: int = i as int;
            while i < stop && i < n
                invariant
                    0 <= lo <= i <= n,
                    i <= stop,
                    n == items@.len(),
                    data@ == items@.subrange(lo, i as int),
                decreases n - i,
            {
                data.push(items[i]);
                proof {
                    assert(items@.subrange(lo, i as int + 1) =~= items@.subrange(
                        lo,
                        i as int,
                    ).push(items@[i as int]));
                }
                i = i + 1;
            }
            let has_next = stop < n;
            proof {
                assert(data@ =~= page_window(items@, page_index as int, page_size as int));
            }
            Page { data, has_next }
        },
    }
}

/// The concatenation of the first `count` pages of `s`.
pub open spec fn pages_concat<T>(s: Seq<T>, page_size: int, count: int) -> Seq<T>
    decreases count,
{
    if count <= 0 {
        Seq::empty()
    } else {
        pages_concat(s, page_size, count - 1) + page_window(s, count - 1, page_size)
    }
}

proof fn lemma_pages_concat_take<T>(s: Seq<T>, page_size: int, count: int)
    requires
        page_size > 0,
        count >= 0,
    ensures
        pages_concat(s, page_size, count) == if count * page_size <= s.len() {
            s.take(count * page_size)
        } else {
            s
        },
    decreases count,
{
    if count == 0 {
        assert(count * page_size == 0) by (nonlinear_arith)
            requires
                count == 0,
        ;
        assert(s.take(0) =~= pages_concat(s, page_size, 0));
    } else {
        lemma_pages_concat_take(s, page_size, count - 1);
        assert((count - 1) * page_size == count * page_size - page_size) by (nonlinear_arith);
        assert(count * page_size >= count) by (nonlinear_arith)
            requires
                page_size > 0,
                count > 0,
        ;
        if count * page_size <= s.len() {
            assert(pages_concat(s, page_size, count) =~= s.take(count * page_size));
        } else if (count - 1) * page_size <= s.len() {
            assert(pages_concat(s, page_size, count) =~= s);
        } else {
            assert(page_window(s, count - 1, page_size) =~= Seq::<T>::empty());
            assert(pages_concat(s, page_size, count) =~= s);
        }
    }
}

/// Pagination tiles the listing exactly: over `n` elements with page size
/// `p`, there are `ceil(n / p)` non-empty pages; every page before the last
/// is full and reports `has_next`; the last page reports no next page; pages
/// past the end are empty; and the concatenation of all pages, in index
/// order, reproduces the listing.
pub proof fn lemma_pagination<T>(s: Seq<T>, page_size: int)
    requires
        page_size > 0,
    ensures
        pages_concat(s, page_size, num_pages(s.len() as int, page_size)) == s,
        forall|k: int|
            0 <= k < num_pages(s.len() as int, page_size) - 1 ==> #[trigger] page_window(
                s,
                k,
                page_size,
            ).len() == page_size && spec_has_next(s.len() as int, k, page_size),
        s.len() > 0 ==> page_window(s, num_pages(s.len() as int, page_size) - 1, page_size).len()
            > 0,
        forall|k: int|
            k >= num_pages(s.len() as int, page_size) ==> #[trigger] page_window(
                s,
                k,
                page_size,
            ).len() == 0 && !spec_has_next(s.len() as int, k, page_size),
        forall|k: int|
            k >= num_pages(s.len() as int, page_size) - 1 ==> !spec_has_next(
                s.len() as int,
                k,
                page_size,
            ),
{
    let n = s.len() as int;
    let m = num_pages(n, page_size);
    assert(m * page_size >= n && (m - 1) * page_size <= n - 1) by (nonlinear_arith)
        requires
            page_size > 0,
            n >= 0,
            m == (n + page_size - 1) / page_size,
    ;
    lemma_pages_concat_take(s, page_size, m);
    if m * page_size <= n {
        assert(s.take(m * page_size) =~= s);
    }
    assert forall|k: int| 0 <= k < m - 1 implies #[trigger] page_window(s, k, page_size).len()
        == page_size && spec_has_next(n, k, page_size) by {
        assert(k * page_size + page_size <= (m - 1) * page_size) by (nonlinear_arith)
            requires
                page_size > 0,
                k + 1 <= m - 1,
        ;
    }
    assert forall|k: int| k >= m implies #[trigger] page_window(s, k, page_size).len() == 0
        && !spec_has_next(n, k, page_size) by {
        assert(k * page_size >= m * page_size) by (nonlinear_arith)
            requires
                page_size > 0,
                k >= m,
        ;
    }
    assert forall|k: int| k >= m - 1 implies !spec_has_next(n, k, page_size) by {
        assert(k * page_size + page_size >= m * page_size) by (nonlinear_arith)
            requires
                page_size > 0,
                k >= m - 1,
        ;
    }
    if n > 0 {
        assert((m - 1) * page_size < n) by (nonlinear_arith)
            requires
                page_size > 0,
                n > 0,
                m == (n + page_size - 1) / page_size,
        ;
    }
}

} // verus!
