//! The overview and the detail pages of the tags and of the categories.

use vstd::prelude::*;
use crate::index::{index_wf, IndexEntry, RenderList};
use crate::order::{
    is_full_order, lemma_full_order_distinct, positions_of, positions_upto, sort_positions,
    sorted_positions,
};
use crate::page::Page;
use crate::paths::{join_path, path_join};

verus! {

/// The ASCII slug that `slug::slugify` makes of a text.
pub uninterp spec fn slug_of(name: Seq<char>) -> Seq<char>;

/// Calls `slug::slugify`, which maps a text to a lower-case ASCII slug. The
/// slug depends on the text alone; the contract gives it the name `slug_of`
/// and claims nothing else of it.
#[verifier::external_body]
pub(crate) fn slug_name(name: &str) -> (r: String)
    ensures
        r@ == slug_of(name@),
{
    slug::slugify(name)
}

/// A tag or category in an overview.
#[derive(Debug)]
pub struct ListItem {
    pub name: String,
    pub slug: String,
    pub count: usize,
}

impl ListItem {
    /// The overview's line for the label `name` with `count` pages.
    pub fn new(name: &str, count: usize) -> (r: ListItem)
        ensures
            r.name@ == name@,
            r.slug@ == slug_of(name@),
            r.count == count,
    {
        ListItem { name: String::from_str(name), slug: slug_name(name), count }
    }
}

/// The page of one tag or category.
#[derive(Debug)]
pub struct ListingDetail {
    pub name: String,
    pub slug: String,
    /// Positions of the member pages, in listing order.
    pub pages: Vec<usize>,
    pub directory: String,
    pub file: String,
}

/// Everything that is written for the tags, or for the categories.
#[derive(Debug)]
pub struct Listing {
    pub list_template: String,
    pub single_template: String,
    /// Under this name the overview's template gets the items.
    pub name: String,
    /// Under this name a detail page's template gets the label.
    pub var_name: String,
    pub directory: String,
    pub file: String,
    /// Positions of the index entries in overview order.
    pub ranking: Vec<usize>,
    /// The overview: item `k` stands for the index entry at `ranking[k]`.
    pub items: Vec<ListItem>,
    /// The detail pages, in the order of the index.
    pub details: Vec<ListingDetail>,
}

/// The template of the overview.
pub open spec fn list_template_of(kind: RenderList) -> Seq<char> {
    match kind {
        RenderList::Categories => "categories.html"@,
        RenderList::Tags => "tags.html"@,
    }
}

/// The template of a detail page.
pub open spec fn single_template_of(kind: RenderList) -> Seq<char> {
    match kind {
        RenderList::Categories => "category.html"@,
        RenderList::Tags => "tag.html"@,
    }
}

/// The name of the listing: its directory, and the name under which the
/// overview's template gets the items.
pub open spec fn listing_name_of(kind: RenderList) -> Seq<char> {
    match kind {
        RenderList::Categories => "categories"@,
        RenderList::Tags => "tags"@,
    }
}

/// The name under which a detail page's template gets the label.
pub open spec fn var_name_of(kind: RenderList) -> Seq<char> {
    match kind {
        RenderList::Categories => "category"@,
        RenderList::Tags => "tag"@,
    }
}

/// `item` is the overview's line for `entry`.
pub open spec fn item_of(entry: &IndexEntry, item: &ListItem) -> bool {
    &&& item.name@ == entry.name@
    &&& item.slug@ == slug_of(entry.name@)
    &&& item.count == entry.pages@.len()
}

/// `detail` is the page of `entry` below the listing's directory `dir`: the
/// entry's pages in listing order, in a directory named by the entry's slug.
pub open spec fn detail_of(
    pages: Seq<Page>,
    entry: &IndexEntry,
    dir: Seq<char>,
    detail: &ListingDetail,
) -> bool {
    &&& detail.name@ == entry.name@
    &&& detail.slug@ == slug_of(entry.name@)
    &&& detail.pages@.to_multiset() == entry.pages@.to_multiset()
    &&& positions_of(pages, detail.pages@)
    &&& sorted_positions(pages, detail.pages@)
    &&& detail.directory@ == path_join(dir, detail.slug@)
    &&& detail.file@ == path_join(detail.directory@, "index.html"@)
}

/// `listing` is what is written for `index`, the index of the given kind,
/// below the output directory `out`.
pub open spec fn listing_of(
    pages: Seq<Page>,
    index: Seq<IndexEntry>,
    kind: RenderList,
    out: Seq<char>,
    listing: &Listing,
) -> bool {
    &&& listing.list_template@ == list_template_of(kind)
    &&& listing.single_template@ == single_template_of(kind)
    &&& listing.name@ == listing_name_of(kind)
    &&& listing.var_name@ == var_name_of(kind)
    &&& listing.directory@ == path_join(out, listing_name_of(kind))
    &&& listing.file@ == path_join(listing.directory@, "index.html"@)
    &&& is_full_order(index, listing.ranking@)
    &&& listing.items@.len() == index.len()
    &&& forall|k: int|
        0 <= k < index.len() ==> item_of(&index[listing.ranking@[k] as int], #[trigger] &listing.items@[k])
    &&& listing.details@.len() == index.len()
    &&& forall|a: int|
        0 <= a < index.len() ==> detail_of(pages, &index[a], listing.directory@, #[trigger] &listing.details@[a])
}

/// Plans the overview and the detail pages of `index`.
pub fn plan_listing(pages: &Vec<Page>, index: &Vec<IndexEntry>, kind: RenderList, out: &str) -> (r:
    Option<Listing>)
    requires
        index_wf(index@, pages@.len() - 1),
    ensures
        r is None <==> index@.len() == 0,
        match r {
            Some(listing) => listing_of(pages@, index@, kind, out@, &listing),
            None => true,
        },
{
    if index.len() == 0 {
        return None;
    }
    let (list_tpl, single_tpl, name, var_name) = match kind {
        RenderList::Categories => ("categories.html", "category.html", "categories", "category"),
        RenderList::Tags => ("tags.html", "tag.html", "tags", "tag"),
    };
    let directory = join_path(out, name);
    let file = join_path(directory.as_str(), "index.html");
    let all = positions_upto(index.len());
    let ranking = sort_positions(index, &all);
    let mut items: Vec<ListItem> = Vec::new();
    let mut k: usize = 0;
    while k < ranking.len()
        invariant
            k <= ranking@.len(),
            ranking@.len() == index@.len(),
            positions_of(index@, ranking@),
            items@.len() == k,
            forall|i: int| 0 <= i < k ==> item_of(&index@[ranking@[i] as int], #[trigger] &items@[i]),
        decreases ranking@.len() - k,
    {
        let entry = &index[ranking[k]];
        items.push(ListItem::new(entry.name.as_str(), entry.pages.len()));
        k += 1;
    }
    let mut details: Vec<ListingDetail> = Vec::new();
    let mut a: usize = 0;
    while a < index.len()
        invariant
            a <= index@.len(),
            index_wf(index@, pages@.len() - 1),
            details@.len() == a,
            forall|i: int| 0 <= i < a ==> detail_of(pages@, &index@[i], directory@, #[trigger] &details@[i]),
        decreases index@.len() - a,
    {
        let entry = &index[a];
        let slug = slug_name(entry.name.as_str());
        let sorted = sort_positions(pages, &entry.pages);
        let dir = join_path(directory.as_str(), slug.as_str());
        let detail_file = join_path(dir.as_str(), "index.html");
        details.push(
            ListingDetail {
                name: entry.name.clone(),
                slug,
                pages: sorted,
                directory: dir,
                file: detail_file,
            },
        );
        a += 1;
    }
    Some(
        Listing {
            list_template: String::from_str(list_tpl),
            single_template: String::from_str(single_tpl),
            name: String::from_str(name),
            var_name: String::from_str(var_name),
            directory,
            file,
            ranking,
            items,
            details,
        },
    )
}

/// In an overview no item has fewer pages than a later one, and of two items
/// with equally many pages the one whose label the index holds first comes
/// first.
pub proof fn lemma_overview_order(
    pages: Seq<Page>,
    index: Seq<IndexEntry>,
    kind: RenderList,
    out: Seq<char>,
    listing: &Listing,
    i: int,
    j: int,
)
    requires
        listing_of(pages, index, kind, out, listing),
        index.len() <= usize::MAX,
        0 <= i < j < listing.items@.len(),
    ensures
        listing.items@[i].count >= listing.items@[j].count,
        listing.items@[i].count == listing.items@[j].count ==> listing.ranking@[i] < listing.ranking@[j],
{
    lemma_full_order_distinct(index, listing.ranking@);
    let a = listing.ranking@[i];
    let b = listing.ranking@[j];
    assert(crate::order::pos_le(index, a as int, b as int));
    assert(item_of(&index[a as int], &listing.items@[i]));
    assert(item_of(&index[b as int], &listing.items@[j]));
}

} // verus!
