use vstd::prelude::*;

use crate::{DEFAULT_PAGE, DEFAULT_PER_PAGE, MAX_PER_PAGE};
use vstd::arithmetic::div_mod::{
    lemma_div_nonincreasing, lemma_div_plus_one, lemma_div_pos_is_pos,
};

verus! {

/// Policy for out-of-range requests: values are clamped, never rejected.
/// A page below 1 is coerced to 1.
pub open spec fn clamped_page(page: int) -> int {
    if page < 1 {
        1
    } else {
        page
    }
}

/// Policy for out-of-range requests: values are clamped, never rejected.
/// A page size below 1 is coerced to 1; one above `MAX_PER_PAGE` is capped.
pub open spec fn clamped_per_page(per_page: int) -> int {
    if per_page < 1 {
        1
    } else if per_page > MAX_PER_PAGE {
        MAX_PER_PAGE as int
    } else {
        per_page
    }
}

/// Rows skipped before the requested page begins: `(page - 1) * per_page`,
/// saturated at `i64::MAX` so that it is representable.
pub open spec fn offset_for(page: int, per_page: int) -> int {
    if (page - 1) * per_page > i64::MAX {
        i64::MAX as int
    } else {
        (page - 1) * per_page
    }
}

fn clamp_page(page: i64) -> (r: i64)
    ensures
        r == clamped_page(page as int),
{
    if page < 1 {
        1
    } else {
        page
    }
}

fn clamp_per_page(per_page: i64) -> (r: i64)
    ensures
        r == clamped_per_page(per_page as int),
{
    if per_page < 1 {
        1
    } else if per_page > MAX_PER_PAGE {
        MAX_PER_PAGE
    } else {
        per_page
    }
}

fn compute_offset(page: i64, per_page: i64) -> (r: i64)
    requires
        1 <= page,
        1 <= per_page <= MAX_PER_PAGE,
    ensures
        r == offset_for(page as int, per_page as int),
{
    proof {
        assert((page - 1) * per_page <= (i64::MAX - 1) * MAX_PER_PAGE) by (nonlinear_arith)
            requires
                1 <= page <= i64::MAX,
                1 <= per_page <= MAX_PER_PAGE,
        ;
        assert((page - 1) * per_page >= 0) by (nonlinear_arith)
            requires
                1 <= page,
                1 <= per_page,
        ;
    }
    let wide: i128 = (page as i128 - 1) * (per_page as i128);
    if wide > i64::MAX as i128 {
        i64::MAX
    } else {
        wide as i64
    }
}

/// Number of pages that `total_items` rows fill at `per_page` rows a page:
/// the integer ceiling `(total_items + per_page - 1) / per_page`.
pub open spec fn total_pages_of(total_items: int, per_page: int) -> int
    recommends
        0 <= total_items,
        1 <= per_page,
{
    (total_items + per_page - 1) / per_page
}

fn compute_total_pages(total_items: i64, per_page: i64) -> (r: i64)
    requires
        0 <= total_items,
        1 <= per_page,
    ensures
        r == total_pages_of(total_items as int, per_page as int),
        0 <= r <= total_items,
{
    if total_items == 0 {
        proof {
            lemma_div_pos_is_pos(per_page - 1, per_page as int);
            vstd::arithmetic::div_mod::lemma_basic_div(per_page - 1, per_page as int);
        }
        0
    } else {
        proof {
            lemma_div_plus_one(total_items - 1, per_page as int);
            lemma_div_nonincreasing(total_items - 1, per_page as int);
            lemma_div_pos_is_pos(total_items - 1, per_page as int);
        }
        (total_items - 1) / per_page + 1
    }
}

/// The slice of `rows` that lies on the requested page: at most `per_page`
/// rows, beginning `offset_for(page, per_page)` rows in, in the order of `rows`.
pub open spec fn page_slice<U>(rows: Seq<U>, page: int, per_page: int) -> Seq<U>
    recommends
        1 <= page,
        1 <= per_page,
{
    let off = offset_for(page, per_page);
    let lo = if off > rows.len() {
        rows.len() as int
    } else {
        off
    };
    let hi = if off + per_page > rows.len() {
        rows.len() as int
    } else {
        off + per_page
    };
    rows.subrange(lo, hi)
}

/// A base query together with the bounds of the requested page.
/// Out-of-range requests are clamped on construction, never rejected.
pub struct Paginated<T> {
    pub query: T,
    pub page: i64,
    pub per_page: i64,
    pub offset: i64,
}

/// One page of rows, with the count of all rows of the unbounded query,
/// the page count that follows from it, and the request echoed back.
pub struct PaginationResult<T> {
    pub items: Vec<T>,
    pub total_items: i64,
    pub total_pages: i64,
    pub page: i64,
    pub per_page: i64,
}

/// A pagination request: `page` is 1-based.
pub struct Pagination {
    pub page: i64,
    pub per_page: i64,
}

impl Pagination {
    /// Fills in the defaults for request parameters that were not given.
    pub fn from_request(page: Option<i64>, per_page: Option<i64>) -> (r: Self)
        ensures
            r.page == (match page {
                Option::Some(p) => p,
                Option::None => DEFAULT_PAGE,
            }),
            r.per_page == (match per_page {
                Option::Some(p) => p,
                Option::None => DEFAULT_PER_PAGE,
            }),
    {
        let p = match page {
            Option::Some(p) => p,
            Option::None => DEFAULT_PAGE,
        };
        let pp = match per_page {
            Option::Some(p) => p,
            Option::None => DEFAULT_PER_PAGE,
        };
        Pagination { page: p, per_page: pp }
    }
}

/// Wraps any base query with page bounds, starting from the default page size.
pub trait Paginate: Sized {
    fn paginate(self, page: i64) -> (r: Paginated<Self>)
        ensures
            r.query == self,
            r.page == clamped_page(page as int),
            r.per_page == DEFAULT_PER_PAGE,
            r.wf(),
    ;
}

impl<T> Paginate for T {
    fn paginate(self, page: i64) -> (r: Paginated<T>) {
        let p = clamp_page(page);
        let offset = compute_offset(p, DEFAULT_PER_PAGE);
        Paginated { query: self, page: p, per_page: DEFAULT_PER_PAGE, offset }
    }
}

impl<T> Paginated<T> {
    /// The page bounds are consistent: both are in range and the offset is
    /// the one the page and the page size give.
    pub open spec fn wf(self) -> bool {
        &&& 1 <= self.page
        &&& 1 <= self.per_page <= MAX_PER_PAGE
        &&& self.offset == offset_for(self.page as int, self.per_page as int)
    }

    /// Replaces the page size, clamping it into `1..=MAX_PER_PAGE`, and
    /// recomputes the offset.
    #[must_use]
    pub fn per_page(self, per_page: i64) -> (r: Self)
        requires
            self.wf(),
        ensures
            r.query == self.query,
            r.page == self.page,
            r.per_page == clamped_per_page(per_page as int),
            r.wf(),
    {
        let pp = clamp_per_page(per_page);
        let offset = compute_offset(self.page, pp);
        Paginated { query: self.query, page: self.page, per_page: pp, offset }
    }
}

impl<U> Paginated<Vec<U>> {
    /// Produces the requested page of the held rows together with the count
    /// of all of them. The count is taken of the whole base query before the
    /// page bounds apply, so it is right even when the requested page is
    /// past the end and the slice is empty.
    pub fn load_and_count_pages(self) -> (r: PaginationResult<U>)
        requires
            self.wf(),
            self.query@.len() <= i64::MAX,
        ensures
            r.page == self.page,
            r.per_page == self.per_page,
            r.total_items == self.query@.len(),
            r.total_pages == total_pages_of(self.query@.len() as int, self.per_page as int),
            r.items@ == page_slice(self.query@, self.page as int, self.per_page as int),
    {
        let ghost rows = self.query@;
        let page = self.page;
        let per_page = self.per_page;
        let offset = self.offset;
        let mut v = self.query;
        let total_items: i64 = v.len() as i64;
        let total_pages = compute_total_pages(total_items, per_page);
        let mut dropped: i64 = 0;
        while dropped < offset && v.len() > 0
            invariant
                0 <= dropped <= offset,
                dropped <= rows.len(),
                v@ == rows.subrange(dropped as int, rows.len() as int),
            decreases offset - dropped,
        {
            v.remove(0);
            dropped = dropped + 1;
            proof {
                assert(v@ =~= rows.subrange(dropped as int, rows.len() as int));
            }
        }
        proof {
            let lo = if offset > rows.len() {
                rows.len() as int
            } else {
                offset as int
            };
            assert(v@ =~= rows.subrange(lo, rows.len() as int));
        }
        let keep: usize = per_page as usize;
        v.truncate(keep);
        proof {
            assert(v@ =~= page_slice(rows, page as int, per_page as int));
        }
        PaginationResult { items: v, total_items, total_pages, page, per_page }
    }
}

impl<U> PaginationResult<U> {
    /// Assembles a page from rows a window-counted query returned, where each
    /// row carries the total row count of the unbounded query beside it. The
    /// total is read off the first row and is 0 when no rows came back; a
    /// non-positive reported total gives 0 pages.
    pub fn from_window_rows(rows: Vec<(U, i64)>, page: i64, per_page: i64) -> (r: Self)
        requires
            1 <= per_page,
        ensures
            r.page == page,
            r.per_page == per_page,
            r.total_items == (if rows@.len() == 0 {
                0int
            } else {
                rows@[0].1 as int
            }),
            r.items@ == rows@.map_values(|p: (U, i64)| p.0),
            r.total_pages == (if r.total_items <= 0 {
                0int
            } else {
                total_pages_of(r.total_items as int, per_page as int)
            }),
    {
        let ghost orig = rows@;
        let total_items: i64 = if rows.len() == 0 {
            0
        } else {
            rows[0].1
        };
        let total_pages: i64 = if total_items <= 0 {
            0
        } else {
            compute_total_pages(total_items, per_page)
        };
        let mut rows = rows;
        let mut items: Vec<U> = Vec::new();
        while rows.len() > 0
            invariant
                items@.len() + rows@.len() == orig.len(),
                rows@ == orig.subrange(items@.len() as int, orig.len() as int),
                items@ == orig.subrange(0, items@.len() as int).map_values(|p: (U, i64)| p.0),
            decreases rows@.len(),
        {
            let p = rows.remove(0);
            items.push(p.0);
            proof {
                assert(rows@ =~= orig.subrange(items@.len() as int, orig.len() as int));
                assert(items@ =~= orig.subrange(0, items@.len() as int).map_values(
                    |p: (U, i64)| p.0,
                ));
            }
        }
        proof {
            assert(orig.subrange(0, orig.len() as int) =~= orig);
            assert(items@ =~= orig.map_values(|p: (U, i64)| p.0));
        }
        PaginationResult { items, total_items, total_pages, page, per_page }
    }
}

/// The page count is the integer ceiling of `total_items / per_page`:
/// `per_page * total_pages` covers all rows, one page fewer does not,
/// and the count is 0 exactly when there are no rows.
pub proof fn lemma_total_pages_is_ceiling(total_items: int, per_page: int)
    requires
        0 <= total_items,
        1 <= per_page,
    ensures
        0 <= total_pages_of(total_items, per_page),
        total_pages_of(total_items, per_page) == 0 <==> total_items == 0,
        per_page * total_pages_of(total_items, per_page) >= total_items,
        per_page * (total_pages_of(total_items, per_page) - 1) < total_items,
{
    let q = total_pages_of(total_items, per_page);
    let x = total_items + per_page - 1;
    vstd::arithmetic::div_mod::lemma_fundamental_div_mod(x, per_page);
    vstd::arithmetic::div_mod::lemma_mod_division_less_than_divisor(x, per_page);
    lemma_div_pos_is_pos(x, per_page);
    assert(x == per_page * q + x % per_page);
    vstd::arithmetic::mul::lemma_mul_is_distributive_sub(per_page, q, 1);
    assert(per_page * (q - 1) == per_page * q - per_page * 1);
    assert(per_page * 1 == per_page) by (nonlinear_arith);
    if total_items == 0 {
        vstd::arithmetic::div_mod::lemma_basic_div(per_page - 1, per_page);
    }
}

/// For a page within `[1, total_pages]`, the slice holds exactly
/// `min(per_page, total_items - (page - 1) * per_page)` rows.
pub proof fn lemma_page_slice_len<U>(rows: Seq<U>, page: int, per_page: int)
    requires
        1 <= per_page,
        rows.len() <= i64::MAX,
        1 <= page <= total_pages_of(rows.len() as int, per_page),
    ensures
        page_slice(rows, page, per_page).len() == vstd::math::min(
            per_page,
            rows.len() - (page - 1) * per_page,
        ),
{
    let total = rows.len() as int;
    let q = total_pages_of(total, per_page);
    lemma_total_pages_is_ceiling(total, per_page);
    vstd::arithmetic::mul::lemma_mul_inequality(page - 1, q - 1, per_page);
    vstd::arithmetic::mul::lemma_mul_is_commutative(page - 1, per_page);
    vstd::arithmetic::mul::lemma_mul_is_commutative(q - 1, per_page);
    assert((page - 1) * per_page <= (q - 1) * per_page < total);
    vstd::arithmetic::mul::lemma_mul_nonnegative(page - 1, per_page);
    assert(offset_for(page, per_page) == (page - 1) * per_page);
}

/// A page past the last yields an empty slice; the total row count a
/// result reports does not depend on the requested page at all.
pub proof fn lemma_page_past_end<U>(rows: Seq<U>, page: int, per_page: int)
    requires
        1 <= per_page,
        rows.len() <= i64::MAX,
        page > total_pages_of(rows.len() as int, per_page),
        1 <= page,
    ensures
        page_slice(rows, page, per_page).len() == 0,
{
    let total = rows.len() as int;
    let q = total_pages_of(total, per_page);
    lemma_total_pages_is_ceiling(total, per_page);
    vstd::arithmetic::mul::lemma_mul_inequality(q, page - 1, per_page);
    vstd::arithmetic::mul::lemma_mul_is_commutative(q, per_page);
    vstd::arithmetic::mul::lemma_mul_is_commutative(page - 1, per_page);
    assert(total <= per_page * q);
    assert((page - 1) * per_page >= q * per_page);
    assert(offset_for(page, per_page) >= total);
}

} // verus!
