//! The site: its settings and everything that was loaded.

use vstd::prelude::*;
use crate::index::{is_index_of, IndexEntry, RenderList};
use crate::order::{positions_of, sorted_positions};
use crate::page::{Page, Section};
use crate::paths::{join_with_slash, slash_join};

verus! {

/// The settings that the pipeline reads.
#[derive(Debug)]
pub struct Config {
    pub base_url: String,
    pub generate_categories_pages: bool,
    pub generate_tags_pages: bool,
    pub generate_rss: bool,
}

impl Config {
    /// The absolute link to `path`: the base URL and `path`, joined by
    /// exactly one `/`.
    pub fn make_permalink(&self, path: &str) -> (r: String)
        ensures
            r@ == slash_join(self.base_url@, path@),
    {
        join_with_slash(self.base_url.as_str(), path)
    }
}

/// How far a site has come.
#[derive(Debug, Clone, Copy, PartialEq, Eq, Structural)]
pub enum SiteState {
    /// Settings only: no content was loaded yet.
    Unloaded,
    /// The content is loaded.
    Loaded,
    /// The content is loaded and a build was planned from it.
    Built,
}

/// A site with its documents and indices.
#[derive(Debug)]
pub struct Site {
    pub state: SiteState,
    pub base_path: String,
    pub config: Config,
    /// Every page, in the order in which the pages were loaded.
    pub pages: Vec<Page>,
    /// Every section, each key once.
    pub sections: Vec<Section>,
    pub live_reload: bool,
    pub output_path: String,
    pub tags: Vec<IndexEntry>,
    pub categories: Vec<IndexEntry>,
}

/// The text before the last `/` among the first `n` characters of `path`;
/// the empty text where there is no `/`.
pub open spec fn parent_upto(path: Seq<char>, n: int) -> Seq<char>
    decreases n,
{
    if n <= 0 {
        Seq::empty()
    } else if path[n - 1] == '/' {
        path.subrange(0, n - 1)
    } else {
        parent_upto(path, n - 1)
    }
}

/// The directory that holds `path`.
pub open spec fn parent_dir(path: Seq<char>) -> Seq<char> {
    parent_upto(path, path.len() as int)
}

/// The directory that holds `path`.
pub fn parent_of(path: &str) -> (r: String)
    ensures
        r@ == parent_dir(path@),
{
    let n: usize = path.unicode_len();
    let mut i: usize = n;
    while i > 0
        invariant
            i <= n,
            n == path@.len(),
            parent_dir(path@) == parent_upto(path@, i as int),
        decreases i,
    {
        if path.get_char(i - 1) == '/' {
            return String::from_str(path.substring_char(0, i - 1));
        }
        i -= 1;
    }
    String::new()
}

/// No two pages lie at the same source path.
pub open spec fn distinct_paths(pages: Seq<Page>) -> bool {
    forall|a: int, b: int|
        0 <= a < b < pages.len() ==> (#[trigger] pages[a]).file_path@ != (#[trigger] pages[b]).file_path@
}

/// The sections are well linked: no key twice; each section lists, in listing
/// order and once each, pages of the collection that lie in its directory;
/// and its subsections are exactly the sections whose directory lies directly
/// in its own, ascending.
pub open spec fn sections_linked(pages: Seq<Page>, sections: Seq<Section>) -> bool {
    &&& forall|a: int, b: int|
        0 <= a < b < sections.len() ==> (#[trigger] sections[a]).parent_path@ != (
        #[trigger] sections[b]).parent_path@
    &&& forall|k: int|
        0 <= k < sections.len() ==> {
            &&& positions_of(pages, (#[trigger] sections[k]).pages@)
            &&& sorted_positions(pages, sections[k].pages@)
            &&& sections[k].pages@.no_duplicates()
            &&& is_subsections(sections, k, sections[k].subsections@)
        }
    &&& forall|k: int, x: int|
        0 <= k < sections.len() && 0 <= x < sections[k].pages@.len() ==> pages[(
        #[trigger] sections[k].pages@[x]) as int].parent_path@ == sections[k].parent_path@
}

/// `subs` lists, ascending, the positions of the sections whose directory
/// lies directly in that of section `k`.
pub open spec fn is_subsections(sections: Seq<Section>, k: int, subs: Seq<usize>) -> bool {
    &&& forall|x: int, y: int| 0 <= x < y < subs.len() ==> (#[trigger] subs[x]) < (#[trigger] subs[y])
    &&& forall|t: usize|
        #![trigger subs.contains(t)]
        subs.contains(t) <==> t < sections.len() && parent_dir(sections[t as int].parent_path@)
            == sections[k].parent_path@
}

impl Site {
    /// The index of the given kind.
    pub open spec fn index_of(&self, kind: RenderList) -> Seq<IndexEntry> {
        match kind {
            RenderList::Tags => self.tags@,
            RenderList::Categories => self.categories@,
        }
    }

    /// The indices are those of the pages.
    pub open spec fn indexed(&self) -> bool {
        &&& is_index_of(self.tags@, self.pages@, RenderList::Tags)
        &&& is_index_of(self.categories@, self.pages@, RenderList::Categories)
    }

    /// The content is loaded: the site has left its first state, no two
    /// pages share a source path, the sections are linked and the indices
    /// are those of the pages.
    pub open spec fn loaded(&self) -> bool {
        &&& self.state != SiteState::Unloaded
        &&& distinct_paths(self.pages@)
        &&& sections_linked(self.pages@, self.sections@)
        &&& self.indexed()
    }

    /// A site for the directory `path`, with nothing loaded yet, live reload
    /// off, and `public` as the output directory.
    pub fn new(path: &str, config: Config) -> (site: Site)
        ensures
            site.state == SiteState::Unloaded,
            site.base_path@ == path@,
            site.config == config,
            site.pages@.len() == 0,
            site.sections@.len() == 0,
            site.tags@.len() == 0,
            site.categories@.len() == 0,
            !site.live_reload,
            site.output_path@ == "public"@,
    {
        Site {
            state: SiteState::Unloaded,
            base_path: String::from_str(path),
            config,
            pages: Vec::new(),
            sections: Vec::new(),
            live_reload: false,
            output_path: String::from_str("public"),
            tags: Vec::new(),
            categories: Vec::new(),
        }
    }

    /// Turns live reload on.
    pub fn enable_live_reload(&mut self)
        ensures
            final(self).live_reload,
            final(self).state == old(self).state,
            final(self).base_path == old(self).base_path,
            final(self).config == old(self).config,
            final(self).pages == old(self).pages,
            final(self).sections == old(self).sections,
            final(self).output_path == old(self).output_path,
            final(self).tags == old(self).tags,
            final(self).categories == old(self).categories,
    {
        self.live_reload = true;
    }

    /// Sets the directory that a build writes to.
    pub fn set_output_path(&mut self, path: &str)
        ensures
            final(self).output_path@ == path@,
            final(self).state == old(self).state,
            final(self).live_reload == old(self).live_reload,
            final(self).base_path == old(self).base_path,
            final(self).config == old(self).config,
            final(self).pages == old(self).pages,
            final(self).sections == old(self).sections,
            final(self).tags == old(self).tags,
            final(self).categories == old(self).categories,
    {
        self.output_path = String::from_str(path);
    }
}

} // verus!
