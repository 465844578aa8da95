//! Splitting a list into pages of a fixed size.
use vstd::prelude::*;
use paginate::Pages;

verus! {

/// Which page of a list to return, counting pages from one, and how many
/// items a page holds.
pub struct Pagination {
    pub page: usize,
    pub size: usize,
}

/// One page of a list, with the numbers that describe the whole list.
pub struct PaginationResult<T: Clone> {
    pub page: usize,
    pub size: usize,
    pub total_items: usize,
    pub total_pages: usize,
    pub items: Vec<T>,
}

/// How many pages of `limit` items `length` items fill: the last one may be
/// partly filled.
pub open spec fn spec_page_count(length: nat, limit: nat) -> nat {
    ((length + limit - 1) as nat) / limit
}

/// The page at `offset` (counting from zero) of `length` items, `limit` to a
/// page: its first index, its last index and its length, or all zero for a
/// page with nothing on it.
pub open spec fn spec_page(length: nat, limit: nat, offset: nat) -> (nat, nat, nat) {
    let start = if offset * limit <= length { offset * limit } else { length };
    let end = if start + limit <= length { start + limit } else { length };
    if end == start {
        (0, 0, 0)
    } else {
        (start, (end - 1) as nat, (end - start) as nat)
    }
}

/// The number of pages that `paginate::Pages::new(length, limit)` counts
/// (`page_count`): the quotient of `length + limit - 1` by `limit`. The call
/// divides by `limit`, so `limit` must not be zero, and the sum must fit.
#[verifier::external_body]
fn page_count(length: usize, limit: usize) -> (res: usize)
    requires
        limit >= 1,
        length + limit - 1 <= usize::MAX,
    ensures
        res == spec_page_count(length as nat, limit as nat),
{
    Pages::new(length, limit).page_count()
}

/// The page that `paginate::Pages::new(length, limit).with_offset(offset)`
/// describes, as its `start`, `end` (the last index, inclusive) and `length`
/// fields. The crate computes `offset * limit` and adds `limit` to the start,
/// so both must fit.
#[verifier::external_body]
fn page_at(length: usize, limit: usize, offset: usize) -> (res: (usize, usize, usize))
    requires
        offset * limit <= usize::MAX,
        (if offset * limit <= length { offset * limit } else { length as int }) + limit <= usize::MAX,
    ensures
        res.0 == spec_page(length as nat, limit as nat, offset as nat).0,
        res.1 == spec_page(length as nat, limit as nat, offset as nat).1,
        res.2 == spec_page(length as nat, limit as nat, offset as nat).2,
{
    let page = Pages::new(length, limit).with_offset(offset);
    (page.start, page.end, page.length)
}

/// The items of page `page` (from one) of `data`, `size` to a page; nothing
/// past the last page.
pub open spec fn page_items<T>(data: Seq<T>, page: nat, size: nat) -> Seq<T> {
    if page > spec_page_count(data.len(), size) {
        seq![]
    } else {
        let start = ((page - 1) as nat) * size;
        let end: int = if start + size <= data.len() { (start + size) as int } else { data.len() as int };
        data.subrange(start as int, end)
    }
}

proof fn lemma_page_inside(len: nat, size: nat, page: nat)
    by (nonlinear_arith)
    requires
        size >= 1,
        page >= 1,
        page <= ((len + size - 1) as nat) / size,
    ensures
        ((page - 1) as nat) * size < len,
{
}

impl Pagination {
    /// Whether `paginate` can run on `total_items` items without the page
    /// arithmetic overflowing: pages are counted from one and hold at least
    /// one item.
    pub open spec fn fits(&self, total_items: nat) -> bool {
        let offset = (self.page - 1) as nat;
        &&& self.page >= 1
        &&& self.size >= 1
        &&& offset * self.size <= usize::MAX
        &&& (if offset * self.size <= total_items { offset * self.size } else { total_items as int }) + self.size <= usize::MAX
        &&& total_items + self.size - 1 <= usize::MAX
    }

    /// The requested page of `data`, with the page number and size asked for,
    /// the number of items and the number of pages.
    pub fn paginate<T: Clone>(&self, data: Vec<T>) -> (res: PaginationResult<T>)
        requires
            self.fits(data@.len()),
        ensures
            res.page == self.page,
            res.size == self.size,
            res.total_items == data@.len(),
            res.total_pages == spec_page_count(data@.len(), self.size as nat),
            res.items@ == page_items(data@, self.page as nat, self.size as nat),
    {
        let total_items = data.len();
        let total_pages = page_count(total_items, self.size);
        let (start, end, _length) = page_at(total_items, self.size, self.page - 1);
        let items = if self.page > total_pages {
            Vec::new()
        } else {
            proof {
                lemma_page_inside(total_items as nat, self.size as nat, self.page as nat);
            }
            let mut rest = data;
            let mut tail = rest.split_off(start);
            tail.truncate(end + 1 - start);
            tail
        };
        PaginationResult { page: self.page, size: self.size, total_items, total_pages, items }
    }
}

impl<T: Clone> From<Vec<T>> for PaginationResult<T> {
    /// The whole list as its only page.
    fn from(data: Vec<T>) -> (res: Self) {
        let n = data.len();
        PaginationResult { page: 1, size: n, total_items: n, total_pages: 1, items: data }
    }
}

impl<T: Clone> vstd::std_specs::convert::FromSpecImpl<Vec<T>> for PaginationResult<T> {
    open spec fn obeys_from_spec() -> bool {
        true
    }

    open spec fn from_spec(data: Vec<T>) -> Self {
        PaginationResult {
            page: 1,
            size: data@.len() as usize,
            total_items: data@.len() as usize,
            total_pages: 1,
            items: data,
        }
    }
}

} // verus!
