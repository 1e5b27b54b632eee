//! Paging of listings: an offset and a page size taken from the query string.
use vstd::prelude::*;

verus! {

/// An offset into a listing and the number of entries on a page, at most `MAX_LIMIT`.
pub struct Pagination<const DEFAULT_LIMIT: usize, const MAX_LIMIT: usize> {
    pub offset: usize,
    pub limit: usize,
}

impl<const DEFAULT_LIMIT: usize, const MAX_LIMIT: usize> Pagination<DEFAULT_LIMIT, MAX_LIMIT> {
    /// The number of the page that the offset falls on; 0 for a page size of 0.
    pub fn page(&self) -> (r: usize)
        ensures
            self.limit == 0 ==> r == 0,
            self.limit > 0 ==> r == self.offset / self.limit,
    {
        if self.limit == 0 {
            0
        } else {
            self.offset / self.limit
        }
    }

    /// The paging that a query asks for: offset 0 when none is given, and the page size
    /// given (`DEFAULT_LIMIT` when none is) but never above `MAX_LIMIT`.
    pub fn from_query(offset: Option<usize>, limit: Option<usize>) -> (p: Self)
        ensures
            p.offset == (match offset {
                Some(o) => o,
                None => 0,
            }),
            p.limit == (match limit {
                Some(l) => if l < MAX_LIMIT { l } else { MAX_LIMIT },
                None => if DEFAULT_LIMIT < MAX_LIMIT { DEFAULT_LIMIT } else { MAX_LIMIT },
            }),
            p.limit <= MAX_LIMIT,
    {
        let o = match offset {
            Some(o) => o,
            None => 0,
        };
        let asked = match limit {
            Some(l) => l,
            None => DEFAULT_LIMIT,
        };
        let l = if asked < MAX_LIMIT { asked } else { MAX_LIMIT };
        Pagination { offset: o, limit: l }
    }
}

} // verus!
