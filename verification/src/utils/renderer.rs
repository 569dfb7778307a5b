//! Cutting one page out of a listing.

use vstd::prelude::*;
use crate::utils::pagination::{offset_of, Pagination};

verus! {

/// The items `start..start + limit` of `s`, cut at its end.
pub open spec fn page_of<T>(s: Seq<T>, start: int, limit: int) -> Seq<T> {
    let lo = if start < s.len() {
        start
    } else {
        s.len() as int
    };
    let hi = if start + limit < s.len() {
        start + limit
    } else {
        s.len() as int
    };
    s.subrange(lo, hi)
}

/// Pages `1..=n` of `s`, `limit` per page, one after the other.
pub open spec fn pages_upto<T>(s: Seq<T>, limit: int, n: nat) -> Seq<T>
    decreases n,
{
    if n == 0 {
        seq![]
    } else {
        pages_upto(s, limit, (n - 1) as nat) + page_of(s, offset_of(n as int, limit), limit)
    }
}

/// Reading the pages of a listing from the first on gives its items in
/// order, each once: pages `1..=n` are the first `n * limit` items (all of
/// them once `n * limit` reaches the length, which is when the page `n`
/// has no next page).
pub proof fn law_pages_cover<T>(s: Seq<T>, limit: int, n: nat)
    requires
        limit >= 1,
    ensures
        pages_upto(s, limit, n) == s.take(
            if n * limit < s.len() {
                n * limit
            } else {
                s.len() as int
            },
        ),
    decreases n,
{
    if n == 0 {
        assert(n * limit == 0) by (nonlinear_arith)
            requires
                n == 0,
        ;
        assert(s.take(0) =~= Seq::<T>::empty());
    } else {
        let m = (n - 1) as nat;
        law_pages_cover(s, limit, m);
        assert(offset_of(n as int, limit) == m * limit);
        assert(m * limit + limit == n * limit) by (nonlinear_arith)
            requires
                m == n - 1,
        ;
        assert(m * limit <= n * limit) by (nonlinear_arith)
            requires
                m == n - 1,
                limit >= 1,
        ;
        let lo = if m * limit < s.len() {
            m * limit
        } else {
            s.len() as int
        };
        let hi = if n * limit < s.len() {
            n * limit
        } else {
            s.len() as int
        };
        assert(page_of(s, offset_of(n as int, limit), limit) == s.subrange(lo, hi));
        assert(pages_upto(s, limit, n) == pages_upto(s, limit, m) + page_of(
            s,
            offset_of(n as int, limit),
            limit,
        ));
        assert(s.take(lo) + s.subrange(lo, hi) =~= s.take(hi));
    }
}

/// The page `page` of `all_jobs`, `limit` per page, and its pagination.
pub fn paginate_jobs(all_jobs: Vec<String>, page: usize, limit: usize) -> (r: (Vec<String>, Pagination))
    requires
        page * limit <= usize::MAX,
    ensures
        r.0@ == page_of(all_jobs@, offset_of(page as int, limit as int), limit as int),
        r.1.page == page,
        r.1.limit == limit,
        r.1.total == all_jobs.len(),
        r.1.has_prev == (page > 1),
        r.1.has_next == (page * limit < all_jobs.len()),
{
    let total = all_jobs.len();
    let pagination = Pagination::new(page, limit, total);
    proof {
        assert(offset_of(page as int, limit as int) <= page * limit) by (nonlinear_arith)
            requires
                page * limit <= usize::MAX,
                limit >= 0,
        ;
    }
    let start = pagination.offset();
    let mut paginated: Vec<String> = Vec::new();
    let begin = if start < total {
        start
    } else {
        total
    };
    let mut i = begin;
    while i < total && i - begin < limit
        invariant
            begin <= i <= total == all_jobs@.len(),
            i - begin <= limit,
            paginated@ == all_jobs@.subrange(begin as int, i as int),
        decreases total - i,
    {
        paginated.push(all_jobs[i].clone());
        i = i + 1;
    }
    assert(paginated@ =~= page_of(all_jobs@, start as int, limit as int));
    (paginated, pagination)
}

} // verus!
