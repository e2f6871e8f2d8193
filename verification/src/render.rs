//! The plans of a build: what is written where, and in which order.

use vstd::prelude::*;
use crate::feed::{feed_of, plan_feed, Feed};
use crate::index::{IndexEntry, RenderList};
use crate::listing::{listing_name_of, listing_of, plan_listing, slug_name, slug_of, Listing};
use crate::order::{all_positions, is_full_order, positions_upto, sort_positions};
use crate::page::{Page, Section};
use crate::paths::{
    deepest_dir, file_name, join_path, last_segment, nest, nested_dirs, path_join, segments,
    slash_join, split_segments, texts,
};
use crate::loader::{loaded_from, pages_upto, Entry, LoadError};
use crate::site::{distinct_paths, Config, Site, SiteState};

verus! {

/// The text that a call of `str::replace` returns.
pub uninterp spec fn replaced(text: Seq<char>, from: Seq<char>, to: Seq<char>) -> Seq<char>;

/// Calls `str::replace`, which puts `to` in the place of every match of
/// `from` in `text`. The result depends on the three texts alone; the
/// contract gives it the name `replaced` and claims nothing else of it.
#[verifier::external_body]
fn replace_all(text: &str, from: &str, to: &str) -> (r: String)
    ensures
        r@ == replaced(text@, from@, to@),
{
    text.replace(from, to)
}

/// The marker before which the live-reload script goes.
pub open spec fn body_end() -> Seq<char> {
    "</body>"@
}

/// The live-reload script, followed by the marker.
pub open spec fn reload_snippet() -> Seq<char> {
    "<script src=\"/livereload.js?port=1112&mindelay=10\"></script></body>"@
}

/// One file that goes out beside a page.
#[derive(Debug)]
pub struct AssetCopy {
    pub from: String,
    pub to: String,
}

/// Where one page is written.
#[derive(Debug)]
pub struct PageOutput {
    /// The page's position in the page collection.
    pub page: usize,
    /// The directories to create, the outermost first.
    pub directories: Vec<String>,
    pub file: String,
    pub assets: Vec<AssetCopy>,
}

/// Where one section is written.
#[derive(Debug)]
pub struct SectionOutput {
    /// The section's position in the section collection.
    pub section: usize,
    /// The directories to create, the outermost first.
    pub directories: Vec<String>,
    pub file: String,
}

/// What goes into the sitemap.
#[derive(Debug)]
pub struct Sitemap {
    /// Positions of all pages, in the order of the page collection.
    pub pages: Vec<usize>,
    /// Positions of the sections, in the dictionary order of their keys.
    pub sections: Vec<usize>,
    pub categories: Vec<String>,
    pub tags: Vec<String>,
    pub file: String,
}

/// The page outputs, the listings and the site index.
#[derive(Debug)]
pub struct PagesBuild {
    /// The output directory, which is created first.
    pub root: String,
    pub pages: Vec<PageOutput>,
    pub categories: Option<Listing>,
    pub tags: Option<Listing>,
    /// Positions of all pages, in listing order, for the site index.
    pub index_pages: Vec<usize>,
    pub index_file: String,
}

/// A whole build, in the order in which it is carried out: the output
/// directory is emptied, then the pages, listings and site index are written,
/// then the sitemap, the feed if there is one, and the sections, and last
/// the static files are copied.
#[derive(Debug)]
pub struct Build {
    pub clean: String,
    pub pages: PagesBuild,
    pub sitemap: Sitemap,
    pub feed: Option<Feed>,
    pub sections: Vec<SectionOutput>,
    pub copy_static_to: String,
}

/// What to do with one entry of the static directory.
#[derive(Debug, PartialEq, Eq)]
pub enum StaticAction {
    /// The directory is there already.
    Nothing,
    CreateDirectory { target: String },
    /// Copy the file, after removing the file that is in its place.
    CopyFile { target: String, replace: bool },
}

/// `o` says where the page at position `pos` is written below `out`: in the
/// directory that its URL's segments lead to, with its assets beside it.
pub open spec fn page_output_of(page: &Page, pos: int, out: Seq<char>, o: &PageOutput) -> bool {
    let segs = segments(page.url@);
    let dir = deepest_dir(out, segs, segs.len() as int);
    &&& o.page == pos
    &&& texts(o.directories@) == nested_dirs(out, segs, segs.len() as int)
    &&& o.file@ == path_join(dir, "index.html"@)
    &&& o.assets@.len() == page.assets@.len()
    &&& forall|j: int|
        0 <= j < page.assets@.len() ==> (#[trigger] o.assets@[j]).from@ == page.assets@[j]@
            && o.assets@[j].to@ == path_join(dir, file_name(page.assets@[j]@))
}

/// `outputs` says where each page is written, in the order of the pages.
pub open spec fn page_outputs_of(pages: Seq<Page>, out: Seq<char>, outputs: Seq<PageOutput>) -> bool {
    &&& outputs.len() == pages.len()
    &&& forall|p: int| 0 <= p < pages.len() ==> page_output_of(&pages[p], p, out, #[trigger] &outputs[p])
}

/// `o` says where the section at position `pos` is written below `out`.
pub open spec fn section_output_of(section: &Section, pos: usize, out: Seq<char>, o: &SectionOutput) -> bool {
    let segs = texts(section.components@);
    &&& o.section == pos
    &&& texts(o.directories@) == nested_dirs(out, segs, segs.len() as int)
    &&& o.file@ == path_join(deepest_dir(out, segs, segs.len() as int), "index.html"@)
}

/// `outputs` says where each section is written, the sections taken in the
/// dictionary order of their keys.
pub open spec fn section_outputs_of(sections: Seq<Section>, out: Seq<char>, outputs: Seq<SectionOutput>) -> bool {
    &&& outputs.len() == sections.len()
    &&& is_full_order(sections, Seq::new(outputs.len(), |k: int| outputs[k].section))
    &&& forall|k: int|
        0 <= k < outputs.len() ==> section_output_of(
            &sections[(#[trigger] outputs[k]).section as int],
            outputs[k].section,
            out,
            &outputs[k],
        )
}

/// The links of a listing: none where it is switched off or empty, else the
/// link of the overview and then that of each detail page, in the order of
/// the index.
pub open spec fn listing_links(base: Seq<char>, kind: RenderList, index: Seq<IndexEntry>, enabled: bool) -> Seq<
    Seq<char>,
> {
    if !enabled || index.len() == 0 {
        Seq::empty()
    } else {
        Seq::new(
            index.len() + 1,
            |a: int|
                if a == 0 {
                    slash_join(base, listing_name_of(kind))
                } else {
                    slash_join(
                        base,
                        listing_name_of(kind) + seq!['/'] + slug_of(index[a - 1].name@),
                    )
                },
        )
    }
}

/// Plans where one page is written.
pub fn plan_page(page: &Page, pos: usize, out: &str) -> (o: PageOutput)
    ensures
        page_output_of(page, pos as int, out@, &o),
{
    let segs = split_segments(page.url.as_str());
    let (directories, dir) = nest(out, &segs);
    let file = join_path(dir.as_str(), "index.html");
    let mut assets: Vec<AssetCopy> = Vec::new();
    let mut j: usize = 0;
    while j < page.assets.len()
        invariant
            j <= page.assets@.len(),
            assets@.len() == j,
            forall|i: int|
                0 <= i < j ==> (#[trigger] assets@[i]).from@ == page.assets@[i]@ && assets@[i].to@
                    == path_join(dir@, file_name(page.assets@[i]@)),
        decreases page.assets@.len() - j,
    {
        let name = last_segment(page.assets[j].as_str());
        assets.push(
            AssetCopy { from: page.assets[j].clone(), to: join_path(dir.as_str(), name.as_str()) },
        );
        j += 1;
    }
    PageOutput { page: pos, directories, file, assets }
}

/// Plans the links of one listing for the sitemap.
pub fn plan_links(config: &Config, kind: RenderList, index: &Vec<IndexEntry>, enabled: bool) -> (out:
    Vec<String>)
    ensures
        texts(out@) == listing_links(config.base_url@, kind, index@, enabled),
{
    let mut out: Vec<String> = Vec::new();
    if !enabled || index.len() == 0 {
        assert(texts(out@) =~= listing_links(config.base_url@, kind, index@, enabled));
        return out;
    }
    let name = match kind {
        RenderList::Categories => "categories",
        RenderList::Tags => "tags",
    };
    out.push(config.make_permalink(name));
    let mut a: usize = 0;
    while a < index.len()
        invariant
            a <= index@.len(),
            name@ == listing_name_of(kind),
            out@.len() == a + 1,
            forall|i: int|
                0 <= i < out@.len() ==> (#[trigger] out@[i])@ == listing_links(
                    config.base_url@,
                    kind,
                    index@,
                    true,
                )[i],
            index@.len() > 0,
        decreases index@.len() - a,
    {
        let slug = slug_name(index[a].name.as_str());
        let mut path = String::from_str(name);
        proof {
            reveal_strlit("/");
        }
        assert("/"@ =~= seq!['/']);
        path.append("/");
        path.append(slug.as_str());
        out.push(config.make_permalink(path.as_str()));
        a += 1;
    }
    assert(texts(out@) =~= listing_links(config.base_url@, kind, index@, enabled));
    out
}

/// `b` is the plan of the pages, the listings and the site index of `site`.
pub open spec fn pages_build_of(site: &Site, b: &PagesBuild) -> bool {
    let out = site.output_path@;
    &&& b.root@ == out
    &&& page_outputs_of(site.pages@, out, b.pages@)
    &&& b.categories is Some <==> site.config.generate_categories_pages && site.categories@.len() > 0
    &&& b.categories is Some ==> listing_of(
        site.pages@,
        site.categories@,
        RenderList::Categories,
        out,
        &b.categories->0,
    )
    &&& b.tags is Some <==> site.config.generate_tags_pages && site.tags@.len() > 0
    &&& b.tags is Some ==> listing_of(site.pages@, site.tags@, RenderList::Tags, out, &b.tags->0)
    &&& is_full_order(site.pages@, b.index_pages@)
    &&& b.index_file@ == path_join(out, "index.html"@)
}

/// `s` is the sitemap of `site`.
pub open spec fn sitemap_of(site: &Site, s: &Sitemap) -> bool {
    &&& s.pages@ == all_positions(site.pages@.len())
    &&& is_full_order(site.sections@, s.sections@)
    &&& texts(s.categories@) == listing_links(
        site.config.base_url@,
        RenderList::Categories,
        site.categories@,
        site.config.generate_categories_pages,
    )
    &&& texts(s.tags@) == listing_links(
        site.config.base_url@,
        RenderList::Tags,
        site.tags@,
        site.config.generate_tags_pages,
    )
    &&& s.file@ == path_join(site.output_path@, "sitemap.xml"@)
}

/// `f` is the feed of `site`: none where no page has a date.
pub open spec fn site_feed_of(site: &Site, f: &Option<Feed>) -> bool {
    &&& f is None <==> forall|p: int| 0 <= p < site.pages@.len() ==> (#[trigger] site.pages@[p]).date is None
    &&& f is Some ==> feed_of(site.pages@, site.config.base_url@, site.output_path@, &f->0)
}

/// `b` is the build of `site`.
pub open spec fn build_of(site: &Site, b: &Build) -> bool {
    &&& b.clean@ == site.output_path@
    &&& pages_build_of(site, &b.pages)
    &&& sitemap_of(site, &b.sitemap)
    &&& if site.config.generate_rss {
        site_feed_of(site, &b.feed)
    } else {
        b.feed is None
    }
    &&& section_outputs_of(site.sections@, site.output_path@, b.sections@)
    &&& b.copy_static_to@ == site.output_path@
}

impl Site {
    /// Puts the live-reload script before each end of a body, if live reload
    /// is on; else leaves the text as it is.
    pub fn inject_livereload(&self, html: String) -> (r: String)
        ensures
            r@ == if self.live_reload {
                replaced(html@, body_end(), reload_snippet())
            } else {
                html@
            },
    {
        if self.live_reload {
            return replace_all(
                html.as_str(),
                "</body>",
                "<script src=\"/livereload.js?port=1112&mindelay=10\"></script></body>",
            );
        }
        html
    }

    /// Plans where each page is written.
    pub fn page_outputs(&self) -> (outputs: Vec<PageOutput>)
        ensures
            page_outputs_of(self.pages@, self.output_path@, outputs@),
    {
        let mut outputs: Vec<PageOutput> = Vec::new();
        let mut p: usize = 0;
        while p < self.pages.len()
            invariant
                p <= self.pages@.len(),
                outputs@.len() == p,
                forall|i: int|
                    0 <= i < p ==> page_output_of(
                        &self.pages@[i],
                        i,
                        self.output_path@,
                        #[trigger] &outputs@[i],
                    ),
            decreases self.pages@.len() - p,
        {
            outputs.push(plan_page(&self.pages[p], p, self.output_path.as_str()));
            p += 1;
        }
        outputs
    }

    /// Plans the overview and the detail pages of the tags or of the
    /// categories. Where the index is empty there is nothing to write.
    pub fn render_categories_and_tags(&self, kind: RenderList) -> (r: Option<Listing>)
        requires
            self.indexed(),
        ensures
            r is None <==> self.index_of(kind).len() == 0,
            r is Some ==> listing_of(self.pages@, self.index_of(kind), kind, self.output_path@, &r->0),
    {
        match kind {
            RenderList::Tags => plan_listing(&self.pages, &self.tags, kind, self.output_path.as_str()),
            RenderList::Categories => plan_listing(
                &self.pages,
                &self.categories,
                kind,
                self.output_path.as_str(),
            ),
        }
    }

    /// Plans the sitemap.
    pub fn render_sitemap(&self) -> (s: Sitemap)
        ensures
            sitemap_of(self, &s),
    {
        let all = positions_upto(self.sections.len());
        Sitemap {
            pages: positions_upto(self.pages.len()),
            sections: sort_positions(&self.sections, &all),
            categories: plan_links(
                &self.config,
                RenderList::Categories,
                &self.categories,
                self.config.generate_categories_pages,
            ),
            tags: plan_links(
                &self.config,
                RenderList::Tags,
                &self.tags,
                self.config.generate_tags_pages,
            ),
            file: join_path(self.output_path.as_str(), "sitemap.xml"),
        }
    }

    /// Plans the feed: none where no page has a date.
    pub fn render_rss_feed(&self) -> (f: Option<Feed>)
        ensures
            site_feed_of(self, &f),
    {
        plan_feed(&self.pages, self.config.base_url.as_str(), self.output_path.as_str())
    }

    /// Plans where each section is written.
    pub fn render_sections(&self) -> (outputs: Vec<SectionOutput>)
        ensures
            section_outputs_of(self.sections@, self.output_path@, outputs@),
    {
        let all = positions_upto(self.sections.len());
        let order = sort_positions(&self.sections, &all);
        let mut outputs: Vec<SectionOutput> = Vec::new();
        let mut k: usize = 0;
        while k < order.len()
            invariant
                k <= order@.len(),
                is_full_order(self.sections@, order@),
                outputs@.len() == k,
                forall|i: int| 0 <= i < k ==> (#[trigger] outputs@[i]).section == order@[i],
                forall|i: int|
                    0 <= i < k ==> section_output_of(
                        &self.sections@[(#[trigger] outputs@[i]).section as int],
                        outputs@[i].section,
                        self.output_path@,
                        &outputs@[i],
                    ),
            decreases order@.len() - k,
        {
            let pos: usize = order[k];
            let section = &self.sections[pos];
            let (directories, dir) = nest(self.output_path.as_str(), &section.components);
            outputs.push(
                SectionOutput {
                    section: pos,
                    directories,
                    file: join_path(dir.as_str(), "index.html"),
                },
            );
            k += 1;
        }
        assert(Seq::new(outputs@.len(), |k: int| outputs@[k].section) =~= order@);
        outputs
    }

    /// Plans the pages, the listings that are switched on, and the site index.
    pub fn build_pages(&self) -> (b: PagesBuild)
        requires
            self.indexed(),
        ensures
            pages_build_of(self, &b),
    {
        let categories = if self.config.generate_categories_pages {
            self.render_categories_and_tags(RenderList::Categories)
        } else {
            None
        };
        let tags = if self.config.generate_tags_pages {
            self.render_categories_and_tags(RenderList::Tags)
        } else {
            None
        };
        let all = positions_upto(self.pages.len());
        PagesBuild {
            root: self.output_path.clone(),
            pages: self.page_outputs(),
            categories,
            tags,
            index_pages: sort_positions(&self.pages, &all),
            index_file: join_path(self.output_path.as_str(), "index.html"),
        }
    }

    /// Plans a whole build of the loaded content. The site is `Built`
    /// afterwards and otherwise as it was.
    pub fn build(&mut self) -> (b: Build)
        requires
            old(self).loaded(),
        ensures
            build_of(old(self), &b),
            final(self).state == SiteState::Built,
            final(self).loaded(),
            final(self).pages == old(self).pages,
            final(self).sections == old(self).sections,
            final(self).tags == old(self).tags,
            final(self).categories == old(self).categories,
            final(self).config == old(self).config,
            final(self).base_path == old(self).base_path,
            final(self).output_path == old(self).output_path,
            final(self).live_reload == old(self).live_reload,
    {
        self.state = SiteState::Built;
        let feed = if self.config.generate_rss {
            self.render_rss_feed()
        } else {
            None
        };
        Build {
            clean: self.output_path.clone(),
            pages: self.build_pages(),
            sitemap: self.render_sitemap(),
            feed,
            sections: self.render_sections(),
            copy_static_to: self.output_path.clone(),
        }
    }

    /// Which directory to delete before a build: the output directory, if it
    /// is present.
    pub fn clean(&self, present: bool) -> (r: Option<String>)
        ensures
            r is Some <==> present,
            r is Some ==> (r->0)@ == self.output_path@,
    {
        if present {
            Some(self.output_path.clone())
        } else {
            None
        }
    }

    /// What to do with one entry of the static directory, which lies at
    /// `relative` below it: a missing directory is created, a file is copied
    /// over whatever is in its place, and nothing is ever deleted otherwise.
    pub fn copy_static_directory(&self, relative: &str, is_dir: bool, target_present: bool) -> (r:
        StaticAction)
        ensures
            match r {
                StaticAction::Nothing => is_dir && target_present,
                StaticAction::CreateDirectory { target } => is_dir && !target_present && target@
                    == path_join(self.output_path@, relative@),
                StaticAction::CopyFile { target, replace } => !is_dir && replace == target_present
                    && target@ == path_join(self.output_path@, relative@),
            },
    {
        if is_dir {
            if target_present {
                StaticAction::Nothing
            } else {
                StaticAction::CreateDirectory { target: join_path(self.output_path.as_str(), relative) }
            }
        } else {
            StaticAction::CopyFile {
                target: join_path(self.output_path.as_str(), relative),
                replace: target_present,
            }
        }
    }

    /// Loads the content anew and plans a whole build; fails as loading does.
    pub fn rebuild_after_content_change(&mut self, entries: Vec<Entry>) -> (r: Result<Build, LoadError>)
        ensures
            r is Err <==> !distinct_paths(pages_upto(entries@, entries@.len() as int)),
            match r {
                Ok(b) => {
                    &&& loaded_from(final(self).pages@, final(self).sections@, entries@)
                    &&& final(self).loaded()
                    &&& final(self).config == old(self).config
                    &&& final(self).base_path == old(self).base_path
                    &&& final(self).output_path == old(self).output_path
                    &&& final(self).live_reload == old(self).live_reload
                    &&& final(self).state == SiteState::Built
                    &&& build_of(final(self), &b)
                },
                Err(_) => *final(self) == *old(self),
            },
    {
        match self.parse(entries) {
            Ok(_) => Ok(self.build()),
            Err(e) => Err(e),
        }
    }

    /// After the templates changed only the pages are written again.
    pub fn rebuild_after_template_change(&self) -> (outputs: Vec<PageOutput>)
        ensures
            page_outputs_of(self.pages@, self.output_path@, outputs@),
    {
        self.page_outputs()
    }
}

} // verus!
