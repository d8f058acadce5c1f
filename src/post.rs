use vstd::prelude::*;

verus! {

/// Page served when a query names none.
pub const DEFAULT_PAGE: u64 = 1;

/// Page size used when a query names none.
pub const DEFAULT_PAGE_SIZE: u64 = 10;

/// A post to publish.
#[derive(Clone, Debug)]
pub struct PostNew {
    pub title: String,
    pub content: String,
}

/// Changes to the post with id `id`; a field left `None` is kept.
#[derive(Clone, Debug)]
pub struct PostUpdate {
    pub id: i32,
    pub title: Option<String>,
    pub content: Option<String>,
}

/// A search of posts by title and content, one page at a time.
#[derive(Clone, Debug)]
pub struct PostQuery {
    pub title: Option<String>,
    pub content: Option<String>,
    /// Page number, counted from 1.
    pub page: Option<u64>,
    pub size: Option<u64>,
}

/// Ids of posts to delete, separated by commas.
#[derive(Clone, Debug)]
pub struct PostDelete {
    pub ids: String,
}

impl PostQuery {
    /// The page to fetch counted from 0, and the page size. Page 0 is read as
    /// the first page.
    pub fn paging(&self) -> (r: (u64, u64))
        ensures
            r.0 == (match self.page {
                Some(p) => if p > 0 {
                    (p - 1) as u64
                } else {
                    0
                },
                None => (DEFAULT_PAGE - 1) as u64,
            }),
            r.1 == (match self.size {
                Some(s) => s,
                None => DEFAULT_PAGE_SIZE,
            }),
    {
        let page = match self.page {
            Some(p) => p,
            None => DEFAULT_PAGE,
        };
        let size = match self.size {
            Some(s) => s,
            None => DEFAULT_PAGE_SIZE,
        };
        let index = if page > 0 {
            page - 1
        } else {
            0
        };
        (index, size)
    }
}

} // verus!
