//! The content loader: from the parsed content files, in the order in which
//! they were found, to the pages, the linked sections and the indices.

use vstd::prelude::*;
use crate::index::{build_index, lemma_index_unique, IndexEntry, RenderList};
use crate::order::{
    lemma_ascending_unique, lemma_sorted_unique, positions_of, sort_positions, sorted_positions,
};
use crate::page::{Page, Section};
use crate::site::{
    distinct_paths, is_subsections, parent_dir, parent_of, sections_linked, Site, SiteState,
};

verus! {

/// A parsed content file.
#[derive(Debug)]
pub enum Entry {
    /// The index file of a directory.
    Section(Section),
    /// Any other content file.
    Page(Page),
}

/// Why the content could not be loaded.
#[derive(Debug, PartialEq, Eq)]
pub enum LoadError {
    /// Two pages lie at this source path.
    DuplicatePath { file_path: String },
}

/// The pages among the first `n` entries, in their order.
pub open spec fn pages_upto(entries: Seq<Entry>, n: int) -> Seq<Page>
    decreases n,
{
    if n <= 0 {
        Seq::empty()
    } else {
        match entries[n - 1] {
            Entry::Page(p) => pages_upto(entries, n - 1).push(p),
            Entry::Section(_) => pages_upto(entries, n - 1),
        }
    }
}

/// One of the sections, each with the page positions linked to it, has the
/// key `key`.
pub open spec fn has_key(linked: Seq<(Section, Seq<usize>)>, key: Seq<char>) -> bool {
    exists|k: int| 0 <= k < linked.len() && (#[trigger] linked[k]).0.parent_path@ == key
}

/// Where the section with the key `key` stands.
pub open spec fn key_pos(linked: Seq<(Section, Seq<usize>)>, key: Seq<char>) -> int {
    choose|k: int| 0 <= k < linked.len() && (#[trigger] linked[k]).0.parent_path@ == key
}

/// What one more entry does to the sections, where `npages` pages came before
/// it. A section takes the place of an earlier one with its key, or else
/// comes last; it starts without pages. A page is linked to the section of
/// its directory, if that section has come already.
pub open spec fn link_step(prev: Seq<(Section, Seq<usize>)>, npages: int, e: Entry) -> Seq<
    (Section, Seq<usize>),
> {
    match e {
        Entry::Section(s) => if has_key(prev, s.parent_path@) {
            prev.update(key_pos(prev, s.parent_path@), (s, Seq::empty()))
        } else {
            prev.push((s, Seq::empty()))
        },
        Entry::Page(p) => if has_key(prev, p.parent_path@) {
            let k = key_pos(prev, p.parent_path@);
            prev.update(k, (prev[k].0, prev[k].1.push(npages as usize)))
        } else {
            prev
        },
    }
}

/// The sections after the first `n` entries, each with the positions of the
/// pages linked to it, in the order of linking.
pub open spec fn linked_upto(entries: Seq<Entry>, n: int) -> Seq<(Section, Seq<usize>)>
    decreases n,
{
    if n <= 0 {
        Seq::empty()
    } else {
        link_step(linked_upto(entries, n - 1), pages_upto(entries, n - 1).len() as int, entries[n - 1])
    }
}

/// `a` is the section that the entry `b` described.
pub open spec fn same_section(a: Section, b: Section) -> bool {
    a.file_path == b.file_path && a.parent_path == b.parent_path && a.components == b.components
}

/// The sections are those of `linked`, with the pages in the order of linking.
pub open spec fn linked_as(sections: Seq<Section>, linked: Seq<(Section, Seq<usize>)>) -> bool {
    &&& sections.len() == linked.len()
    &&& forall|k: int|
        0 <= k < sections.len() ==> same_section(#[trigger] sections[k], linked[k].0)
            && sections[k].pages@ == linked[k].1
}

/// What holds of the sections while the entries are walked: no key twice,
/// and each section's pages ascending positions of pages in its directory.
pub open spec fn sections_collected(pages: Seq<Page>, sections: Seq<Section>) -> bool {
    &&& forall|a: int, b: int|
        0 <= a < b < sections.len() ==> (#[trigger] sections[a]).parent_path@ != (
        #[trigger] sections[b]).parent_path@
    &&& forall|k: int, x: int|
        0 <= k < sections.len() && 0 <= x < sections[k].pages@.len() ==> (
        #[trigger] sections[k].pages@[x]) < pages.len() && pages[sections[k].pages@[x] as int].parent_path@
            == sections[k].parent_path@
    &&& forall|k: int, x: int, y: int|
        0 <= k < sections.len() && 0 <= x < y < sections[k].pages@.len() ==> (
        #[trigger] sections[k].pages@[x]) < (#[trigger] sections[k].pages@[y])
}

/// `pages` and `sections` are what loading `entries` gives: the pages in the
/// order of the entries, and the sections linked among themselves and to the
/// pages that came after them, these in listing order.
pub open spec fn loaded_from(pages: Seq<Page>, sections: Seq<Section>, entries: Seq<Entry>) -> bool {
    let linked = linked_upto(entries, entries.len() as int);
    &&& pages == pages_upto(entries, entries.len() as int)
    &&& sections.len() == linked.len()
    &&& forall|k: int|
        0 <= k < sections.len() ==> same_section(#[trigger] sections[k], linked[k].0)
            && sections[k].pages@.to_multiset() == linked[k].1.to_multiset()
    &&& sections_linked(pages, sections)
}

fn find_section(sections: &Vec<Section>, key: &String) -> (r: Option<usize>)
    ensures
        match r {
            Some(a) => a < sections@.len() && sections@[a as int].parent_path@ == key@,
            None => forall|b: int|
                0 <= b < sections@.len() ==> (#[trigger] sections@[b]).parent_path@ != key@,
        },
{
    let mut a: usize = 0;
    while a < sections.len()
        invariant
            a <= sections@.len(),
            forall|b: int| 0 <= b < a ==> (#[trigger] sections@[b]).parent_path@ != key@,
        decreases sections@.len() - a,
    {
        if sections[a].parent_path == *key {
            return Some(a);
        }
        a += 1;
    }
    None
}

/// Walks the entries in their order, collects the pages and the sections,
/// and links each page to the section of its directory that came before it.
pub fn link_entries(entries: Vec<Entry>) -> (r: (Vec<Page>, Vec<Section>))
    ensures
        r.0@ == pages_upto(entries@, entries@.len() as int),
        linked_as(r.1@, linked_upto(entries@, entries@.len() as int)),
        sections_collected(r.0@, r.1@),
{
    let ghost all = entries@;
    let n: usize = entries.len();
    let mut rest = entries;
    let mut stack: Vec<Entry> = Vec::new();
    while rest.len() > 0
        invariant
            n == all.len(),
            rest@.len() + stack@.len() == n,
            forall|j: int| 0 <= j < rest@.len() ==> rest@[j] == all[j],
            forall|j: int| 0 <= j < stack@.len() ==> stack@[j] == all[n - 1 - j],
        decreases rest@.len(),
    {
        match rest.pop() {
            Some(e) => {
                stack.push(e);
            },
            None => {},
        }
    }
    let mut pages: Vec<Page> = Vec::new();
    let mut sections: Vec<Section> = Vec::new();
    while stack.len() > 0
        invariant
            n == all.len(),
            stack@.len() <= n,
            forall|j: int| 0 <= j < stack@.len() ==> stack@[j] == all[n - 1 - j],
            pages@ == pages_upto(all, n - stack@.len()),
            linked_as(sections@, linked_upto(all, n - stack@.len())),
            sections_collected(pages@, sections@),
        decreases stack@.len(),
    {
        let ghost i: int = n - stack@.len();
        let ghost prev = linked_upto(all, i);
        let ghost before = sections@;
        assert(linked_upto(all, i + 1) == link_step(prev, pages_upto(all, i).len() as int, all[i]));
        match stack.pop() {
            Some(Entry::Section(s)) => {
                let ghost given = s;
                let fresh = Section {
                    file_path: s.file_path,
                    parent_path: s.parent_path,
                    components: s.components,
                    pages: Vec::new(),
                    subsections: Vec::new(),
                };
                match find_section(&sections, &fresh.parent_path) {
                    Some(a) => {
                        proof {
                            assert(prev[a as int].0.parent_path@ == given.parent_path@);
                            let k = key_pos(prev, given.parent_path@);
                            assert(before[k].parent_path@ == before[a as int].parent_path@);
                            assert(k == a);
                        }
                        sections.set(a, fresh);
                    },
                    None => {
                        proof {
                            if has_key(prev, given.parent_path@) {
                                let k = key_pos(prev, given.parent_path@);
                                assert(before[k].parent_path@ == given.parent_path@);
                            }
                        }
                        sections.push(fresh);
                    },
                }
            },
            Some(Entry::Page(p)) => {
                match find_section(&sections, &p.parent_path) {
                    Some(a) => {
                        proof {
                            assert(prev[a as int].0.parent_path@ == p.parent_path@);
                            let k = key_pos(prev, p.parent_path@);
                            assert(before[k].parent_path@ == before[a as int].parent_path@);
                            assert(k == a);
                        }
                        let pos: usize = pages.len();
                        sections[a].pages.push(pos);
                        proof {
                            assert(sections@.len() == before.len());
                            assert(sections@[a as int].pages@ == before[a as int].pages@.push(pos));
                            assert(same_section(sections@[a as int], before[a as int]));
                            assert(forall|b: int|
                                0 <= b < before.len() && b != a ==> sections@[b] == before[b]);
                        }
                    },
                    None => {
                        proof {
                            if has_key(prev, p.parent_path@) {
                                let k = key_pos(prev, p.parent_path@);
                                assert(before[k].parent_path@ == p.parent_path@);
                            }
                        }
                    },
                }
                pages.push(p);
            },
            None => {},
        }
    }
    (pages, sections)
}

/// Puts each section's pages into listing order and links each section to
/// its direct subsections.
pub fn finish_sections(pages: &Vec<Page>, sections: &mut Vec<Section>)
    requires
        sections_collected(pages@, old(sections)@),
    ensures
        final(sections)@.len() == old(sections)@.len(),
        forall|k: int|
            0 <= k < old(sections)@.len() ==> same_section(
                #[trigger] final(sections)@[k],
                old(sections)@[k],
            ) && final(sections)@[k].pages@.to_multiset() == old(sections)@[k].pages@.to_multiset(),
        sections_linked(pages@, final(sections)@),
{
    let ghost orig = sections@;
    let n: usize = sections.len();
    let mut parents: Vec<String> = Vec::new();
    let mut t: usize = 0;
    while t < n
        invariant
            t <= n,
            n == sections@.len(),
            sections@ == orig,
            parents@.len() == t,
            forall|j: int| 0 <= j < t ==> (#[trigger] parents@[j])@ == parent_dir(orig[j].parent_path@),
        decreases n - t,
    {
        parents.push(parent_of(sections[t].parent_path.as_str()));
        t += 1;
    }
    let mut k: usize = 0;
    while k < n
        invariant
            k <= n,
            n == sections@.len(),
            n == orig.len(),
            parents@.len() == n,
            sections_collected(pages@, orig),
            forall|j: int| 0 <= j < n ==> (#[trigger] parents@[j])@ == parent_dir(orig[j].parent_path@),
            forall|j: int| 0 <= j < n ==> same_section(#[trigger] sections@[j], orig[j]),
            forall|j: int| k <= j < n ==> (#[trigger] sections@[j]).pages@ == orig[j].pages@,
            forall|j: int|
                0 <= j < k ==> {
                    &&& (#[trigger] sections@[j]).pages@.to_multiset() == orig[j].pages@.to_multiset()
                    &&& positions_of(pages@, sections@[j].pages@)
                    &&& sorted_positions(pages@, sections@[j].pages@)
                    &&& sections@[j].pages@.no_duplicates()
                    &&& forall|x: usize|
                        sections@[j].pages@.contains(x) <==> orig[j].pages@.contains(x)
                    &&& is_subsections(orig, j, sections@[j].subsections@)
                },
        decreases n - k,
    {
        let ghost before = sections@;
        let sorted = sort_positions(pages, &sections[k].pages);
        let mut subs: Vec<usize> = Vec::new();
        let mut t: usize = 0;
        while t < n
            invariant
                t <= n,
                k < n,
                n == sections@.len(),
                n == orig.len(),
                parents@.len() == n,
                sections@ == before,
                same_section(sections@[k as int], orig[k as int]),
                forall|j: int|
                    0 <= j < n ==> (#[trigger] parents@[j])@ == parent_dir(orig[j].parent_path@),
                forall|x: int| 0 <= x < subs@.len() ==> (#[trigger] subs@[x]) < t,
                forall|x: int, y: int|
                    0 <= x < y < subs@.len() ==> (#[trigger] subs@[x]) < (#[trigger] subs@[y]),
                forall|u: usize|
                    #![trigger subs@.contains(u)]
                    subs@.contains(u) <==> u < t && parent_dir(orig[u as int].parent_path@)
                        == orig[k as int].parent_path@,
            decreases n - t,
        {
            if parents[t] == sections[k].parent_path {
                let ghost was = subs@;
                subs.push(t);
                proof {
                    assert(subs@[was.len() as int] == t);
                    assert forall|u: usize|
                        #![trigger subs@.contains(u)]
                        subs@.contains(u) <==> u < t + 1 && parent_dir(orig[u as int].parent_path@)
                            == orig[k as int].parent_path@ by {
                        if subs@.contains(u) {
                            let x = choose|x: int| 0 <= x < subs@.len() && subs@[x] == u;
                            if x < was.len() {
                                assert(was[x] == u);
                                assert(was.contains(u));
                            }
                        }
                        if u < t && was.contains(u) {
                            let x = choose|x: int| 0 <= x < was.len() && was[x] == u;
                            assert(subs@[x] == u);
                        }
                    }
                }
            }
            t += 1;
        }
        proof {
            assert(sections@[k as int].pages@ == orig[k as int].pages@);
            assert forall|x: int, y: int|
                0 <= x < orig[k as int].pages@.len() && 0 <= y < orig[k as int].pages@.len() && x
                    != y implies orig[k as int].pages@[x] != orig[k as int].pages@[y] by {
                if x < y {
                    assert(orig[k as int].pages@[x] < orig[k as int].pages@[y]);
                } else {
                    assert(orig[k as int].pages@[y] < orig[k as int].pages@[x]);
                }
            }
            assert(orig[k as int].pages@.no_duplicates());
        }
        sections[k].pages = sorted;
        sections[k].subsections = subs;
        proof {
            assert(forall|j: int| 0 <= j < n && j != k ==> sections@[j] == before[j]);
            assert(same_section(sections@[k as int], before[k as int]));
        }
        k += 1;
    }
    proof {
        assert forall|j: int| 0 <= j < n implies is_subsections(
            sections@,
            j,
            (#[trigger] sections@[j]).subsections@,
        ) by {
            let subs = sections@[j].subsections@;
            assert(is_subsections(orig, j, subs));
            assert forall|u: usize|
                #![trigger subs.contains(u)]
                subs.contains(u) <==> u < sections@.len() && parent_dir(
                    sections@[u as int].parent_path@,
                ) == sections@[j].parent_path@ by {
                if u < n {
                    assert(same_section(sections@[u as int], orig[u as int]));
                }
            }
        }
        assert forall|j: int, x: int|
            0 <= j < sections@.len() && 0 <= x < sections@[j].pages@.len() implies pages@[(
            #[trigger] sections@[j].pages@[x]) as int].parent_path@ == sections@[j].parent_path@ by {
            let v = sections@[j].pages@[x];
            assert(sections@[j].pages@.contains(v));
            assert(orig[j].pages@.contains(v));
            let y = choose|y: int| 0 <= y < orig[j].pages@.len() && orig[j].pages@[y] == v;
            assert(pages@[orig[j].pages@[y] as int].parent_path@ == orig[j].parent_path@);
        }
        assert forall|a: int, b: int| 0 <= a < b < sections@.len() implies (
        #[trigger] sections@[a]).parent_path@ != (#[trigger] sections@[b]).parent_path@ by {
            assert(same_section(sections@[a], orig[a]));
            assert(same_section(sections@[b], orig[b]));
        }
    }
}

/// Looks for a page that lies at the source path of an earlier page.
pub fn find_duplicate(pages: &Vec<Page>) -> (r: Option<usize>)
    ensures
        r is None <==> distinct_paths(pages@),
        match r {
            Some(b) => b < pages@.len() && exists|a: int|
                0 <= a < b && (#[trigger] pages@[a]).file_path@ == pages@[b as int].file_path@,
            None => true,
        },
{
    let mut b: usize = 0;
    while b < pages.len()
        invariant
            b <= pages@.len(),
            forall|x: int, y: int|
                0 <= x < y < b ==> (#[trigger] pages@[x]).file_path@ != (#[trigger] pages@[y]).file_path@,
        decreases pages@.len() - b,
    {
        let mut a: usize = 0;
        while a < b
            invariant
                a <= b,
                b < pages@.len(),
                forall|x: int| 0 <= x < a ==> (#[trigger] pages@[x]).file_path@ != pages@[b as int].file_path@,
            decreases b - a,
        {
            if pages[a].file_path == pages[b].file_path {
                return Some(b);
            }
            a += 1;
        }
        b += 1;
    }
    None
}

impl Site {
    /// Rebuilds both indices from the pages.
    pub fn parse_tags_and_categories(&mut self)
        ensures
            final(self).indexed(),
            final(self).state == old(self).state,
            final(self).pages == old(self).pages,
            final(self).sections == old(self).sections,
            final(self).config == old(self).config,
            final(self).base_path == old(self).base_path,
            final(self).output_path == old(self).output_path,
            final(self).live_reload == old(self).live_reload,
    {
        self.tags = build_index(&self.pages, RenderList::Tags);
        self.categories = build_index(&self.pages, RenderList::Categories);
    }

    /// Loads the content from the parsed content files, given in the order
    /// in which they were found. Whatever was loaded before is replaced.
    /// Where two pages lie at one source path nothing is loaded and the site
    /// stays as it was.
    pub fn parse(&mut self, entries: Vec<Entry>) -> (r: Result<(), LoadError>)
        ensures
            r is Err <==> !distinct_paths(pages_upto(entries@, entries@.len() as int)),
            match r {
                Ok(_) => {
                    &&& loaded_from(final(self).pages@, final(self).sections@, entries@)
                    &&& final(self).indexed()
                    &&& final(self).loaded()
                    &&& final(self).state == SiteState::Loaded
                    &&& final(self).config == old(self).config
                    &&& final(self).base_path == old(self).base_path
                    &&& final(self).output_path == old(self).output_path
                    &&& final(self).live_reload == old(self).live_reload
                },
                Err(LoadError::DuplicatePath { file_path }) => {
                    &&& *final(self) == *old(self)
                    &&& exists|a: int, b: int|
                        0 <= a < b < pages_upto(entries@, entries@.len() as int).len() && (
                        #[trigger] pages_upto(entries@, entries@.len() as int)[a]).file_path@
                            == file_path@ && (#[trigger] pages_upto(
                            entries@,
                            entries@.len() as int,
                        )[b]).file_path@ == file_path@
                },
            },
    {
        let (pages, mut sections) = link_entries(entries);
        match find_duplicate(&pages) {
            Some(b) => {
                return Err(LoadError::DuplicatePath { file_path: pages[b].file_path.clone() });
            },
            None => {},
        }
        finish_sections(&pages, &mut sections);
        self.pages = pages;
        self.sections = sections;
        self.state = SiteState::Loaded;
        self.parse_tags_and_categories();
        Ok(())
    }
}

/// Two indices hold the same labels with the same pages, in the same order.
pub open spec fn same_index(x: Seq<IndexEntry>, y: Seq<IndexEntry>) -> bool {
    &&& x.len() == y.len()
    &&& forall|k: int|
        0 <= k < x.len() ==> (#[trigger] x[k]).name@ == y[k].name@ && x[k].pages@ == y[k].pages@
}

/// Loading is a function of the entries: two sites loaded from the same
/// entries hold the same pages, the same sections with the same pages and
/// subsections, and the same indices. So loading again, with nothing
/// changed, changes nothing.
pub proof fn lemma_load_determined(a: &Site, b: &Site, entries: Seq<Entry>)
    requires
        loaded_from(a.pages@, a.sections@, entries),
        loaded_from(b.pages@, b.sections@, entries),
        a.indexed(),
        b.indexed(),
    ensures
        a.pages@ == b.pages@,
        a.sections@.len() == b.sections@.len(),
        forall|k: int|
            0 <= k < a.sections@.len() ==> same_section(#[trigger] a.sections@[k], b.sections@[k])
                && a.sections@[k].pages@ == b.sections@[k].pages@ && a.sections@[k].subsections@
                == b.sections@[k].subsections@,
        same_index(a.tags@, b.tags@),
        same_index(a.categories@, b.categories@),
{
    lemma_index_unique(a.tags@, b.tags@, a.pages@, RenderList::Tags, a.pages@.len() - 1);
    lemma_index_unique(
        a.categories@,
        b.categories@,
        a.pages@,
        RenderList::Categories,
        a.pages@.len() - 1,
    );
    let linked = linked_upto(entries, entries.len() as int);
    assert forall|k: int| 0 <= k < a.sections@.len() implies same_section(
        #[trigger] a.sections@[k],
        b.sections@[k],
    ) && a.sections@[k].pages@ == b.sections@[k].pages@ && a.sections@[k].subsections@
        == b.sections@[k].subsections@ by {
        let s = a.sections@[k].pages@;
        let t = b.sections@[k].pages@;
        assert(same_section(a.sections@[k], linked[k].0));
        assert(same_section(b.sections@[k], linked[k].0));
        s.to_multiset_ensures();
        t.to_multiset_ensures();
        assert forall|x: usize| s.contains(x) <==> t.contains(x) by {
            assert(s.to_multiset().count(x) == t.to_multiset().count(x));
        }
        lemma_sorted_unique(a.pages@, s, t);
        let u = a.sections@[k].subsections@;
        let v = b.sections@[k].subsections@;
        assert(is_subsections(a.sections@, k, u));
        assert(is_subsections(b.sections@, k, v));
        assert forall|x: usize| u.contains(x) <==> v.contains(x) by {
            if x < a.sections@.len() {
                assert(same_section(a.sections@[x as int], linked[x as int].0));
                assert(same_section(b.sections@[x as int], linked[x as int].0));
            }
        }
        lemma_ascending_unique(u, v);
    }
}

} // verus!
