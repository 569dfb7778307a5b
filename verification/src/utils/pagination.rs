//! Pages of a listing.

use vstd::prelude::*;

verus! {

/// One page of a listing of `total` items, `limit` per page; pages count
/// from 1.
#[derive(Debug, Clone, Copy, PartialEq, Eq)]
pub struct Pagination {
    pub page: usize,
    pub limit: usize,
    pub total: usize,
    pub has_prev: bool,
    pub has_next: bool,
}

/// Items before page `page`: `(page - 1) * limit`, page 0 counting as 1.
pub open spec fn offset_of(page: int, limit: int) -> int {
    (if page >= 1 {
        page - 1
    } else {
        0
    }) * limit
}

impl Pagination {
    /// The page `page`; there is a previous page after page 1, and a next
    /// one while `page * limit` items do not reach `total`.
    pub fn new(page: usize, limit: usize, total: usize) -> (p: Self)
        requires
            page * limit <= usize::MAX,
        ensures
            p.page == page,
            p.limit == limit,
            p.total == total,
            p.has_prev == (page > 1),
            p.has_next == (page * limit < total),
    {
        let has_prev = page > 1;
        let has_next = page * limit < total;
        Pagination { page, limit, total, has_prev, has_next }
    }

    /// Index of the first item of the page.
    pub fn offset(&self) -> (o: usize)
        requires
            offset_of(self.page as int, self.limit as int) <= usize::MAX,
        ensures
            o == offset_of(self.page as int, self.limit as int),
    {
        let p = if self.page >= 1 {
            self.page - 1
        } else {
            0
        };
        proof {
            assert(p * self.limit == offset_of(self.page as int, self.limit as int));
        }
        p * self.limit
    }

    /// The items of the page as indices `start..end` of the listing; `start`
    /// is the offset and `end` stops at the total.
    pub fn item_range(&self) -> (r: (usize, usize))
        requires
            offset_of(self.page as int, self.limit as int) + self.limit <= usize::MAX,
        ensures
            r.0 == offset_of(self.page as int, self.limit as int),
            r.1 == (if r.0 + self.limit < self.total {
                r.0 + self.limit
            } else {
                self.total as int
            }),
    {
        let start = self.offset();
        let end = if start + self.limit < self.total {
            start + self.limit
        } else {
            self.total
        };
        (start, end)
    }
}

/// Page and page size as a request gives them.
#[derive(Debug, Clone, Copy, PartialEq, Eq)]
pub struct PaginationQuery {
    pub page: Option<usize>,
    pub limit: Option<usize>,
}

/// The page a query asks for: page 1 when absent or 0.
pub open spec fn query_page(q: PaginationQuery) -> usize {
    match q.page {
        Some(p) => if p >= 1 {
            p
        } else {
            1
        },
        None => 1,
    }
}

/// The page size a query asks for: 10 when absent, at least 1.
pub open spec fn query_limit(q: PaginationQuery) -> usize {
    match q.limit {
        Some(l) => if l >= 1 {
            l
        } else {
            1
        },
        None => 10,
    }
}

impl PaginationQuery {
    /// The page that the query asks for, over `total` items.
    pub fn into_pagination(self, total: usize) -> (p: Pagination)
        requires
            query_page(self) * query_limit(self) <= usize::MAX,
        ensures
            p.page == query_page(self),
            p.limit == query_limit(self),
            p.total == total,
            p.has_prev == (query_page(self) > 1),
            p.has_next == (query_page(self) * query_limit(self) < total),
    {
        let page = match self.page {
            Some(p) => if p >= 1 {
                p
            } else {
                1
            },
            None => 1,
        };
        let limit = match self.limit {
            Some(l) => if l >= 1 {
                l
            } else {
                1
            },
            None => 10,
        };
        Pagination::new(page, limit, total)
    }
}

} // verus!
