//! The document model: pages, sections, and the order in which pages are
//! listed.

use vstd::prelude::*;
use crate::order::Ranked;
use crate::text::{lemma_text_le_total, lemma_text_le_trans, text_at_or_before, text_le};

verus! {

/// A single content document.
#[derive(Debug)]
pub struct Page {
    /// Where the source file lies: the page's identity.
    pub file_path: String,
    /// The directory that holds the source file.
    pub parent_path: String,
    pub title: String,
    /// The day or instant of publication, as a count from a fixed epoch.
    pub date: Option<u64>,
    pub category: Option<String>,
    pub tags: Option<Vec<String>>,
    /// The slug path under which the page is written, segments parted by `/`.
    pub url: String,
    /// Files that lie beside the source file and go out with the page.
    pub assets: Vec<String>,
    /// The rendered body.
    pub content: String,
}

/// A directory of content with an index file of its own.
#[derive(Debug)]
pub struct Section {
    /// Where the index file lies.
    pub file_path: String,
    /// The directory that the section stands for: its key.
    pub parent_path: String,
    /// The path segments from the site root to the section.
    pub components: Vec<String>,
    /// Positions, in the site's page collection, of the pages under it.
    pub pages: Vec<usize>,
    /// Positions, in the site's section collection, of its direct subsections.
    pub subsections: Vec<usize>,
}

/// Page `p` is listed at or before page `q`: later dates first, undated pages
/// after all dated ones, and by title where that leaves a tie.
pub open spec fn page_le(p: &Page, q: &Page) -> bool {
    match (p.date, q.date) {
        (Some(a), Some(b)) => a > b || (a == b && text_le(p.title@, q.title@)),
        (Some(_), None) => true,
        (None, Some(_)) => false,
        (None, None) => text_le(p.title@, q.title@),
    }
}

/// Page `p` is listed strictly before page `q`.
pub open spec fn page_before(p: &Page, q: &Page) -> bool {
    page_le(p, q) && !page_le(q, p)
}

impl Ranked for Page {
    open spec fn rank_le(&self, other: &Self) -> bool {
        page_le(self, other)
    }

    fn at_or_before(&self, other: &Self) -> (r: bool) {
        match (self.date, other.date) {
            (Some(a), Some(b)) => a > b || (a == b && text_at_or_before(
                self.title.as_str(),
                other.title.as_str(),
            )),
            (Some(_), None) => true,
            (None, Some(_)) => false,
            (None, None) => text_at_or_before(self.title.as_str(), other.title.as_str()),
        }
    }

    proof fn rank_total(a: &Self, b: &Self) {
        lemma_text_le_total(a.title@, b.title@, 0);
    }

    proof fn rank_trans(a: &Self, b: &Self, c: &Self) {
        if text_le(a.title@, b.title@) && text_le(b.title@, c.title@) {
            lemma_text_le_trans(a.title@, b.title@, c.title@, 0);
        }
    }
}

/// Sections are walked in the dictionary order of their keys.
impl Ranked for Section {
    open spec fn rank_le(&self, other: &Self) -> bool {
        text_le(self.parent_path@, other.parent_path@)
    }

    fn at_or_before(&self, other: &Self) -> (r: bool) {
        text_at_or_before(self.parent_path.as_str(), other.parent_path.as_str())
    }

    proof fn rank_total(a: &Self, b: &Self) {
        lemma_text_le_total(a.parent_path@, b.parent_path@, 0);
    }

    proof fn rank_trans(a: &Self, b: &Self, c: &Self) {
        lemma_text_le_trans(a.parent_path@, b.parent_path@, c.parent_path@, 0);
    }
}

/// Between two dated pages with different dates, the later one is listed
/// first, whatever the titles.
pub proof fn lemma_dated_pages_by_date(p: &Page, q: &Page)
    requires
        p.date is Some,
        q.date is Some,
        p.date != q.date,
    ensures
        page_before(p, q) <==> p.date->0 > q.date->0,
{
}

/// Between two dated pages, a later date puts a page first, and a page that
/// is listed first has no earlier date.
pub proof fn lemma_dated_pages_descend(p: &Page, q: &Page)
    requires
        p.date is Some,
        q.date is Some,
    ensures
        p.date->0 > q.date->0 ==> page_before(p, q),
        page_before(p, q) ==> p.date->0 >= q.date->0,
{
}

/// An undated page is listed after every dated page, whatever the titles.
pub proof fn lemma_undated_pages_last(p: &Page, q: &Page)
    requires
        p.date is Some,
        q.date is None,
    ensures
        page_before(p, q),
{
}

/// No page is listed strictly before itself, and listing strictly before is
/// transitive.
pub proof fn lemma_page_before_consistent(p: &Page, q: &Page, r: &Page)
    ensures
        !page_before(p, p),
        page_before(p, q) && page_before(q, r) ==> page_before(p, r),
{
    if page_before(p, q) && page_before(q, r) {
        Page::rank_trans(p, q, r);
        if page_le(r, p) {
            Page::rank_trans(r, p, q);
        }
    }
}

} // verus!
