//! Offset pagination (`page`, `page_size`) and cursor-page assembly.
use vstd::prelude::*;
use vstd::string::*;

use crate::text::{decimal, decimal_string};

verus! {

/// Page size when none is requested.
pub const DEFAULT_PAGE_SIZE: u32 = 50;

/// Largest page size served.
pub const MAX_PAGE_SIZE: u32 = 250;

/// Raw pagination parameters of a request.
#[derive(Debug, Clone, Copy, PartialEq, Eq, Structural)]
pub struct PageQuery {
    pub page: Option<u32>,
    pub page_size: Option<u32>,
}

/// Resolved pagination parameters ready for SQL queries.
#[derive(Debug, Clone, Copy, PartialEq, Eq, Structural)]
pub struct Page {
    pub page: u32,
    pub page_size: u32,
    pub offset: u64,
}

/// The page a query resolves to: page defaults to 1 and is at least 1;
/// page size defaults to [`DEFAULT_PAGE_SIZE`] and is clamped to
/// `1..=MAX_PAGE_SIZE`; the offset is `(page - 1) * page_size`.
pub open spec fn normalized(q: PageQuery) -> Page {
    let page: u32 = match q.page {
        Some(p) => if p >= 1 { p } else { 1 },
        None => 1,
    };
    let size: u32 = match q.page_size {
        Some(s) => if s < 1 { 1 } else if s > MAX_PAGE_SIZE { MAX_PAGE_SIZE } else { s },
        None => DEFAULT_PAGE_SIZE,
    };
    Page { page, page_size: size, offset: ((page - 1) * size) as u64 }
}

/// The query that asks for exactly the page and page size of `p`.
pub open spec fn query_for(p: Page) -> PageQuery {
    PageQuery { page: Some(p.page), page_size: Some(p.page_size) }
}

/// Normalizing is idempotent: asking again for the page and page size that a
/// query resolved to resolves to the same page.
pub proof fn lemma_normalize_idempotent(q: PageQuery)
    ensures
        normalized(query_for(normalized(q))) == normalized(q),
{
}

impl PageQuery {
    /// Normalize raw query parameters into a resolved [`Page`].
    pub fn normalize(&self) -> (res: Page)
        ensures
            res == normalized(*self),
            res.offset == (res.page - 1) * res.page_size,
            1 <= res.page,
            1 <= res.page_size <= MAX_PAGE_SIZE,
    {
        let page: u32 = match self.page {
            Some(p) => if p >= 1 { p } else { 1 },
            None => 1,
        };
        let size: u32 = match self.page_size {
            Some(s) => if s < 1 { 1 } else if s > MAX_PAGE_SIZE { MAX_PAGE_SIZE } else { s },
            None => DEFAULT_PAGE_SIZE,
        };
        assert((page - 1) * size <= 0xffff_ffff * 250) by (nonlinear_arith)
            requires
                1 <= page <= 0xffff_ffff,
                1 <= size <= 250,
        ;
        let offset: u64 = (page - 1) as u64 * size as u64;
        Page { page, page_size: size, offset }
    }

    /// Short description of the raw parameters, for logs.
    pub fn describe(&self) -> (res: String)
        ensures
            res@ == match (self.page, self.page_size) {
                (None, None) => "PageQuery(defaults)"@,
                (Some(p), None) => "PageQuery(page="@ + decimal(p as nat) + ")"@,
                (None, Some(s)) => "PageQuery(size="@ + decimal(s as nat) + ")"@,
                (Some(p), Some(s)) => "PageQuery(page="@ + decimal(p as nat) + ", size="@
                    + decimal(s as nat) + ")"@,
            },
    {
        match (self.page, self.page_size) {
            (None, None) => String::from_str("PageQuery(defaults)"),
            (Some(p), None) => {
                let d = decimal_string(p as u64);
                String::from_str("PageQuery(page=").concat(d.as_str()).concat(")")
            },
            (None, Some(s)) => {
                let d = decimal_string(s as u64);
                String::from_str("PageQuery(size=").concat(d.as_str()).concat(")")
            },
            (Some(p), Some(s)) => {
                let dp = decimal_string(p as u64);
                let ds = decimal_string(s as u64);
                String::from_str("PageQuery(page=").concat(dp.as_str()).concat(", size=").concat(
                    ds.as_str(),
                ).concat(")")
            },
        }
    }
}

impl Page {
    /// Limit for SQL (`BIGINT`).
    pub fn limit_i64(&self) -> (res: i64)
        ensures
            res == self.page_size,
    {
        self.page_size as i64
    }

    /// Offset for SQL (`BIGINT`), converted with `as`.
    pub fn offset_i64(&self) -> (res: i64)
        ensures
            res == self.offset as i64,
            self.offset <= i64::MAX ==> res == self.offset,
    {
        self.offset as i64
    }

    /// Compact form `page/page_size`.
    pub fn describe(&self) -> (res: String)
        ensures
            res@ == decimal(self.page as nat) + "/"@ + decimal(self.page_size as nat),
    {
        let p = decimal_string(self.page as u64);
        let s = decimal_string(self.page_size as u64);
        p.concat("/").concat(s.as_str())
    }

    /// Long form `page P/S (offset O)`.
    pub fn summary(&self) -> (res: String)
        ensures
            res@ == "page "@ + decimal(self.page as nat) + "/"@ + decimal(self.page_size as nat)
                + " (offset "@ + decimal(self.offset as nat) + ")"@,
    {
        let p = decimal_string(self.page as u64);
        let s = decimal_string(self.page_size as u64);
        let o = decimal_string(self.offset);
        String::from_str("page ").concat(p.as_str()).concat("/").concat(s.as_str()).concat(
            " (offset ",
        ).concat(o.as_str()).concat(")")
    }
}

/// Paginated response envelope.
pub struct Paginated<T> {
    pub items: Vec<T>,
    pub total: i64,
    pub page: u32,
    pub page_size: u32,
}

impl<T> Paginated<T> {
    /// Build a paginated response from items, the total count and the resolved page.
    pub fn new(items: Vec<T>, total: i64, page: &Page) -> (res: Paginated<T>)
        ensures
            res.items@ == items@,
            res.total == total,
            res.page == page.page,
            res.page_size == page.page_size,
    {
        Paginated { items, total, page: page.page, page_size: page.page_size }
    }
}

/// A page of a cursor-paginated listing.
pub struct CursorPage<T> {
    pub items: Vec<T>,
    pub has_next_page: bool,
    pub has_previous_page: bool,
    pub total_count: i64,
}

/// The number of rows a cursor listing returns: `first` clamped to `1..=100`.
pub fn cursor_limit(first: i32) -> (res: i64)
    ensures
        res == if first < 1 { 1 } else if first > 100 { 100 } else { first as int },
{
    if first < 1 {
        1
    } else if first > 100 {
        100
    } else {
        first as i64
    }
}

/// Assemble a cursor page from the rows fetched with `LIMIT limit + 1`:
/// there is a next page when more than `limit` rows came back, only the first
/// `limit` rows are kept, and there is a previous page when a cursor was given.
pub fn finish_cursor_page<T>(rows: Vec<T>, limit: i64, has_cursor: bool, total_count: i64) -> (res:
    CursorPage<T>)
    requires
        limit >= 0,
    ensures
        res.has_next_page == (rows@.len() > limit),
        res.items@ == if rows@.len() > limit { rows@.take(limit as int) } else { rows@ },
        res.has_previous_page == has_cursor,
        res.total_count == total_count,
{
    let mut rows = rows;
    let n = rows.len();
    let has_next = n as u64 > limit as u64;
    if has_next {
        rows.truncate(limit as usize);
    }
    CursorPage { items: rows, has_next_page: has_next, has_previous_page: has_cursor, total_count }
}

} // verus!
