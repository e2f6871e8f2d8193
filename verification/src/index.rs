//! The tag and category indices: which pages carry which label.

use vstd::prelude::*;
use crate::order::{lemma_ascending_unique, Ranked};
use crate::page::Page;

verus! {

/// The two kinds of label by which pages are listed.
#[derive(Debug, Clone, Copy, PartialEq, Eq, Structural)]
pub enum RenderList {
    Tags,
    Categories,
}

/// One label of an index with the pages that carry it.
#[derive(Debug)]
pub struct IndexEntry {
    pub name: String,
    /// Positions of the carrying pages in the page collection, ascending.
    pub pages: Vec<usize>,
}

/// Labels with more pages come first.
impl Ranked for IndexEntry {
    open spec fn rank_le(&self, other: &Self) -> bool {
        self.pages@.len() >= other.pages@.len()
    }

    fn at_or_before(&self, other: &Self) -> (r: bool) {
        self.pages.len() >= other.pages.len()
    }

    proof fn rank_total(a: &Self, b: &Self) {
    }

    proof fn rank_trans(a: &Self, b: &Self, c: &Self) {
    }
}

/// The labels of the given kind that a page declares, in the order in which
/// it declares them.
pub open spec fn labels(page: &Page, kind: RenderList) -> Seq<Seq<char>> {
    match kind {
        RenderList::Tags => match page.tags {
            Some(tags) => Seq::new(tags@.len(), |j: int| tags@[j]@),
            None => Seq::empty(),
        },
        RenderList::Categories => match page.category {
            Some(category) => seq![category@],
            None => Seq::empty(),
        },
    }
}

/// The index lists page position `p` under the label `name`.
pub open spec fn related(index: Seq<IndexEntry>, name: Seq<char>, p: usize) -> bool {
    exists|a: int|
        #![trigger index[a]]
        0 <= a < index.len() && index[a].name@ == name && index[a].pages@.contains(p)
}

/// The shape of an index whose pages lie at positions up to `bound`: no label
/// twice, no label without a page, each label's pages ascending, and the
/// labels in the order in which a page first carried them.
pub open spec fn index_wf(index: Seq<IndexEntry>, bound: int) -> bool {
    &&& forall|a: int, b: int|
        0 <= a < b < index.len() ==> (#[trigger] index[a]).name@ != (#[trigger] index[b]).name@
    &&& forall|a: int| 0 <= a < index.len() ==> (#[trigger] index[a]).pages@.len() > 0
    &&& forall|a: int, x: int|
        0 <= a < index.len() && 0 <= x < index[a].pages@.len() ==> (#[trigger] index[a].pages@[x])
            <= bound
    &&& forall|a: int, x: int, y: int|
        0 <= a < index.len() && 0 <= x < y < index[a].pages@.len() ==> (
        #[trigger] index[a].pages@[x]) < (#[trigger] index[a].pages@[y])
    &&& forall|a: int, b: int|
        0 <= a < b < index.len() ==> (#[trigger] index[a]).pages@[0] <= (
        #[trigger] index[b]).pages@[0]
}

/// Among the labels `l`, in the order in which a page declares them, `x`
/// comes before any `y`.
pub open spec fn declared_before(l: Seq<Seq<char>>, x: Seq<char>, y: Seq<char>) -> bool {
    exists|i: int| 0 <= i < l.len() && #[trigger] l[i] == x && forall|j: int| 0 <= j <= i ==> l[j] != y
}

/// Labels that the same page carried first stand in the order in which that
/// page declares them.
pub open spec fn ties_in_declared_order(
    index: Seq<IndexEntry>,
    pages: Seq<Page>,
    kind: RenderList,
) -> bool {
    forall|a: int, b: int|
        0 <= a < b < index.len() && (#[trigger] index[a]).pages@[0] == (#[trigger] index[b]).pages@[0]
            ==> declared_before(
            labels(&pages[index[a].pages@[0] as int], kind),
            index[a].name@,
            index[b].name@,
        )
}

/// `index` is the index of `pages` for labels of the given kind: it is well
/// shaped, it lists a page under a label exactly if the page declares that
/// label, and its labels stand in the order in which the pages, taken in
/// their order, first declare them.
pub open spec fn is_index_of(index: Seq<IndexEntry>, pages: Seq<Page>, kind: RenderList) -> bool {
    &&& index_wf(index, pages.len() - 1)
    &&& ties_in_declared_order(index, pages, kind)
    &&& forall|name: Seq<char>, p: usize| #[trigger]
        related(index, name, p) <==> p < pages.len() && labels(&pages[p as int], kind).contains(
            name,
        )
}

fn find_label(index: &Vec<IndexEntry>, name: &String) -> (r: Option<usize>)
    ensures
        match r {
            Some(a) => a < index@.len() && index@[a as int].name@ == name@,
            None => forall|b: int| 0 <= b < index@.len() ==> (#[trigger] index@[b]).name@ != name@,
        },
{
    let mut a: usize = 0;
    while a < index.len()
        invariant
            a <= index@.len(),
            forall|b: int| 0 <= b < a ==> (#[trigger] index@[b]).name@ != name@,
        decreases index@.len() - a,
    {
        if index[a].name == *name {
            return Some(a);
        }
        a += 1;
    }
    None
}

/// Lists page position `p` under `name`, once, keeping the index's shape.
fn add_label(index: &mut Vec<IndexEntry>, name: &String, p: usize)
    requires
        index_wf(old(index)@, p as int),
    ensures
        index_wf(final(index)@, p as int),
        forall|n: Seq<char>, q: usize| #[trigger]
            related(final(index)@, n, q) <==> related(old(index)@, n, q) || (n == name@ && q == p),
        old(index)@.len() <= final(index)@.len() <= old(index)@.len() + 1,
        forall|a: int|
            0 <= a < old(index)@.len() ==> (#[trigger] final(index)@[a]).name@ == old(index)@[a].name@
                && final(index)@[a].pages@[0] == old(index)@[a].pages@[0],
        final(index)@.len() > old(index)@.len() ==> final(index)@.last().name@ == name@
            && final(index)@.last().pages@[0] == p && forall|a: int|
            0 <= a < old(index)@.len() ==> (#[trigger] old(index)@[a]).name@ != name@,
{
    let ghost before = index@;
    match find_label(index, name) {
        Some(a) => {
            let n: usize = index[a].pages.len();
            if index[a].pages[n - 1] != p {
                index[a].pages.push(p);
                proof {
                    let after = index@;
                    assert(after.len() == before.len());
                    assert(after[a as int].name == before[a as int].name);
                    assert(after[a as int].pages@ == before[a as int].pages@.push(p));
                    assert(forall|b: int| 0 <= b < before.len() && b != a ==> after[b] == before[b]);
                    assert(after[a as int].pages@[n as int] == p);
                    assert forall|m: Seq<char>, q: usize| #[trigger]
                        related(after, m, q) <==> related(before, m, q) || (m == name@ && q == p) by {
                        if related(after, m, q) {
                            let b = choose|b: int|
                                #![trigger after[b]]
                                0 <= b < after.len() && after[b].name@ == m && after[b].pages@.contains(q);
                            if b == a {
                                let x = choose|x: int|
                                    0 <= x < after[b].pages@.len() && after[b].pages@[x] == q;
                                if x < n {
                                    assert(before[b].pages@[x] == q);
                                }
                            } else {
                                assert(before[b].pages@.contains(q));
                            }
                        }
                        if related(before, m, q) {
                            let b = choose|b: int|
                                #![trigger before[b]]
                                0 <= b < before.len() && before[b].name@ == m && before[b].pages@.contains(q);
                            let x = choose|x: int|
                                0 <= x < before[b].pages@.len() && before[b].pages@[x] == q;
                            assert(after[b].pages@[x] == q);
                            assert(after[b].name@ == m);
                        }
                        if m == name@ && q == p {
                            assert(after[a as int].pages@.contains(q));
                        }
                    }
                }
            } else {
                proof {
                    assert(before[a as int].pages@[n - 1] == p);
                    assert(before[a as int].pages@.contains(p));
                }
            }
        },
        None => {
            let mut pages: Vec<usize> = Vec::new();
            pages.push(p);
            index.push(IndexEntry { name: name.clone(), pages });
            proof {
                let after = index@;
                let last = before.len() as int;
                assert(after[last].pages@[0] == p);
                assert(after[last].pages@.contains(p));
                assert(forall|b: int| 0 <= b < before.len() ==> after[b] == before[b]);
                assert forall|m: Seq<char>, q: usize| #[trigger]
                    related(after, m, q) <==> related(before, m, q) || (m == name@ && q == p) by {
                    if related(after, m, q) {
                        let b = choose|b: int|
                            #![trigger after[b]]
                            0 <= b < after.len() && after[b].name@ == m && after[b].pages@.contains(q);
                        if b < last {
                            assert(before[b].pages@.contains(q));
                        } else {
                            let x = choose|x: int|
                                0 <= x < after[b].pages@.len() && after[b].pages@[x] == q;
                        }
                    }
                    if related(before, m, q) {
                        let b = choose|b: int|
                            #![trigger before[b]]
                            0 <= b < before.len() && before[b].name@ == m && before[b].pages@.contains(q);
                        assert(after[b].pages@.contains(q));
                    }
                }
            }
        },
    }
}

/// Adding the label at place `j` of page `i` keeps the labels in declared
/// order, where the index so far lists page `i` under exactly the labels at
/// its places before `j`.
proof fn lemma_ties_kept(
    was: Seq<IndexEntry>,
    now: Seq<IndexEntry>,
    pages: Seq<Page>,
    kind: RenderList,
    i: usize,
    j: int,
)
    requires
        i < pages.len(),
        0 <= j < labels(&pages[i as int], kind).len(),
        index_wf(was, i as int),
        index_wf(now, i as int),
        ties_in_declared_order(was, pages, kind),
        forall|name: Seq<char>| #[trigger]
            related(was, name, i) <==> labels(&pages[i as int], kind).take(j).contains(name),
        was.len() <= now.len() <= was.len() + 1,
        forall|a: int|
            0 <= a < was.len() ==> (#[trigger] now[a]).name@ == was[a].name@ && now[a].pages@[0]
                == was[a].pages@[0],
        now.len() > was.len() ==> now.last().name@ == labels(&pages[i as int], kind)[j] && forall|
            a: int,
        | 0 <= a < was.len() ==> (#[trigger] was[a]).name@ != now.last().name@,
        now.len() > was.len() ==> now.last().pages@[0] == i,
    ensures
        ties_in_declared_order(now, pages, kind),
{
    let l = labels(&pages[i as int], kind);
    assert forall|a: int, b: int|
        0 <= a < b < now.len() && (#[trigger] now[a]).pages@[0] == (#[trigger] now[b]).pages@[0] implies declared_before(
        labels(&pages[now[a].pages@[0] as int], kind),
        now[a].name@,
        now[b].name@,
    ) by {
        if b < was.len() {
            assert(was[a].pages@[0] == was[b].pages@[0]);
        } else {
            let x = was[a].name@;
            let y = now[b].name@;
            assert(was[a].pages@.contains(was[a].pages@[0]));
            assert(related(was, x, i));
            assert(l.take(j).contains(x));
            let at = choose|at: int| 0 <= at < l.take(j).len() && l.take(j)[at] == x;
            assert(l[at] == x);
            assert forall|k: int| 0 <= k <= at implies l[k] != y by {
                if l[k] == y {
                    assert(l.take(j)[k] == y);
                    assert(l.take(j).contains(y));
                    assert(related(was, y, i));
                }
            }
        }
    }
}

/// Builds the index of `pages` for labels of the given kind.
pub fn build_index(pages: &Vec<Page>, kind: RenderList) -> (index: Vec<IndexEntry>)
    ensures
        is_index_of(index@, pages@, kind),
{
    let mut index: Vec<IndexEntry> = Vec::new();
    let mut i: usize = 0;
    while i < pages.len()
        invariant
            i <= pages@.len(),
            index_wf(index@, i - 1),
            ties_in_declared_order(index@, pages@, kind),
            forall|name: Seq<char>, p: usize| #[trigger]
                related(index@, name, p) <==> p < i && labels(&pages@[p as int], kind).contains(name),
        decreases pages@.len() - i,
    {
        let page = &pages[i];
        match kind {
            RenderList::Tags => {
                if let Some(tags) = &page.tags {
                    let mut j: usize = 0;
                    while j < tags.len()
                        invariant
                            j <= tags@.len(),
                            i < pages@.len(),
                            page == &pages@[i as int],
                            page.tags == Some(*tags),
                            kind == RenderList::Tags,
                            index_wf(index@, i as int),
                            ties_in_declared_order(index@, pages@, kind),
                            forall|name: Seq<char>, p: usize| #[trigger]
                                related(index@, name, p) <==> (p < i && labels(
                                    &pages@[p as int],
                                    kind,
                                ).contains(name)) || (p == i && labels(page, kind).take(
                                    j as int,
                                ).contains(name)),
                        decreases tags@.len() - j,
                    {
                        let ghost seen = labels(page, kind).take(j as int);
                        let ghost next = labels(page, kind).take(j + 1);
                        let ghost was = index@;
                        add_label(&mut index, &tags[j], i);
                        proof {
                            lemma_ties_kept(was, index@, pages@, kind, i, j as int);
                            assert(next =~= seen.push(tags@[j as int]@));
                            assert forall|name: Seq<char>|
                                next.contains(name) <==> seen.contains(name) || name
                                    == tags@[j as int]@ by {
                                if seen.contains(name) {
                                    let x = choose|x: int| 0 <= x < seen.len() && seen[x] == name;
                                    assert(next[x] == name);
                                }
                                if name == tags@[j as int]@ {
                                    assert(next[j as int] == name);
                                }
                            }
                        }
                        j += 1;
                    }
                    proof {
                        assert(labels(page, kind).take(j as int) =~= labels(page, kind));
                    }
                }
            },
            RenderList::Categories => {
                if let Some(category) = &page.category {
                    let ghost was = index@;
                    add_label(&mut index, category, i);
                    proof {
                        assert(labels(page, kind).take(0) =~= Seq::<Seq<char>>::empty());
                        lemma_ties_kept(was, index@, pages@, kind, i, 0);
                        assert(labels(page, kind)[0] == category@);
                        assert forall|name: Seq<char>|
                            labels(page, kind).contains(name) <==> name == category@ by {
                            if labels(page, kind).contains(name) {
                                let x = choose|x: int|
                                    0 <= x < labels(page, kind).len() && labels(page, kind)[x]
                                        == name;
                            }
                        }
                    }
                }
            },
        }
        i += 1;
    }
    index
}

/// In a well-shaped index the entry of a label holds exactly the pages that
/// the index lists under that label.
proof fn lemma_entry_pages(index: Seq<IndexEntry>, bound: int, a: int, p: usize)
    requires
        index_wf(index, bound),
        0 <= a < index.len(),
    ensures
        index[a].pages@.contains(p) <==> related(index, index[a].name@, p),
{
    if related(index, index[a].name@, p) {
        let c = choose|c: int|
            #![trigger index[c]]
            0 <= c < index.len() && index[c].name@ == index[a].name@ && index[c].pages@.contains(p);
        assert(c == a);
    }
}

/// Entries of two well-shaped indices that list the same pages under the
/// same labels hold the same pages where they have the same label.
proof fn lemma_same_pages(x: Seq<IndexEntry>, y: Seq<IndexEntry>, bound: int, a: int, b: int)
    requires
        index_wf(x, bound),
        index_wf(y, bound),
        forall|name: Seq<char>, p: usize| #[trigger] related(x, name, p) <==> related(y, name, p),
        0 <= a < x.len(),
        0 <= b < y.len(),
        x[a].name@ == y[b].name@,
    ensures
        x[a].pages@ == y[b].pages@,
{
    assert forall|p: usize| x[a].pages@.contains(p) <==> y[b].pages@.contains(p) by {
        lemma_entry_pages(x, bound, a, p);
        lemma_entry_pages(y, bound, b, p);
    }
    lemma_ascending_unique(x[a].pages@, y[b].pages@);
}

/// Dropping the first entry keeps an index well shaped and its labels in
/// declared order, and takes away exactly what stood under the first label.
proof fn lemma_index_tail(index: Seq<IndexEntry>, pages: Seq<Page>, kind: RenderList, bound: int)
    requires
        index_wf(index, bound),
        ties_in_declared_order(index, pages, kind),
        index.len() > 0,
    ensures
        index_wf(index.drop_first(), bound),
        ties_in_declared_order(index.drop_first(), pages, kind),
        forall|name: Seq<char>, p: usize| #[trigger]
            related(index.drop_first(), name, p) <==> related(index, name, p) && name != index[0].name@,
{
    let tail = index.drop_first();
    assert forall|a: int| 0 <= a < tail.len() implies #[trigger] tail[a] == index[a + 1] by {}
    assert forall|a: int, b: int|
        0 <= a < b < tail.len() && (#[trigger] tail[a]).pages@[0] == (#[trigger] tail[b]).pages@[0] implies declared_before(
        labels(&pages[tail[a].pages@[0] as int], kind),
        tail[a].name@,
        tail[b].name@,
    ) by {
        assert(tail[a] == index[a + 1] && tail[b] == index[b + 1]);
    }
    assert forall|name: Seq<char>, p: usize| #[trigger]
        related(tail, name, p) <==> related(index, name, p) && name != index[0].name@ by {
        if related(tail, name, p) {
            let c = choose|c: int|
                #![trigger tail[c]]
                0 <= c < tail.len() && tail[c].name@ == name && tail[c].pages@.contains(p);
            assert(index[c + 1].name@ == name && index[c + 1].pages@.contains(p));
            assert(index[0].name@ != index[c + 1].name@);
        }
        if related(index, name, p) && name != index[0].name@ {
            let c = choose|c: int|
                #![trigger index[c]]
                0 <= c < index.len() && index[c].name@ == name && index[c].pages@.contains(p);
            assert(tail[c - 1].name@ == name && tail[c - 1].pages@.contains(p));
        }
    }
    assert(index_wf(tail, bound)) by {
        assert forall|a: int, b: int| 0 <= a < b < tail.len() implies (#[trigger] tail[a]).name@ != (
        #[trigger] tail[b]).name@ by {
            assert(tail[a] == index[a + 1] && tail[b] == index[b + 1]);
        }
        assert forall|a: int, b: int| 0 <= a < b < tail.len() implies (#[trigger] tail[a]).pages@[0] <= (
        #[trigger] tail[b]).pages@[0] by {
            assert(tail[a] == index[a + 1] && tail[b] == index[b + 1]);
        }
    }
}

/// There is one index only of given pages: two well-shaped indices with
/// their labels in declared order that list the same pages under the same
/// labels have the same labels with the same pages, in the same order.
pub proof fn lemma_index_unique(
    x: Seq<IndexEntry>,
    y: Seq<IndexEntry>,
    pages: Seq<Page>,
    kind: RenderList,
    bound: int,
)
    requires
        index_wf(x, bound),
        index_wf(y, bound),
        ties_in_declared_order(x, pages, kind),
        ties_in_declared_order(y, pages, kind),
        forall|name: Seq<char>, p: usize| #[trigger] related(x, name, p) <==> related(y, name, p),
    ensures
        x.len() == y.len(),
        forall|k: int|
            0 <= k < x.len() ==> (#[trigger] x[k]).name@ == y[k].name@ && x[k].pages@ == y[k].pages@,
    decreases x.len() + y.len(),
{
    if x.len() == 0 {
        if y.len() > 0 {
            assert(y[0].pages@.contains(y[0].pages@[0]));
            assert(related(y, y[0].name@, y[0].pages@[0]));
            assert(related(x, y[0].name@, y[0].pages@[0]));
        }
    } else if y.len() == 0 {
        assert(x[0].pages@.contains(x[0].pages@[0]));
        assert(related(x, x[0].name@, x[0].pages@[0]));
        assert(related(y, x[0].name@, x[0].pages@[0]));
    } else {
        let n = x[0].name@;
        let m = y[0].name@;
        assert(x[0].pages@.contains(x[0].pages@[0]));
        assert(related(x, n, x[0].pages@[0]));
        assert(related(y, n, x[0].pages@[0]));
        let j = choose|j: int|
            #![trigger y[j]]
            0 <= j < y.len() && y[j].name@ == n && y[j].pages@.contains(x[0].pages@[0]);
        assert(y[0].pages@.contains(y[0].pages@[0]));
        assert(related(y, m, y[0].pages@[0]));
        assert(related(x, m, y[0].pages@[0]));
        let i = choose|i: int|
            #![trigger x[i]]
            0 <= i < x.len() && x[i].name@ == m && x[i].pages@.contains(y[0].pages@[0]);
        lemma_same_pages(x, y, bound, 0, j);
        lemma_same_pages(x, y, bound, i, 0);
        if i > 0 && j > 0 {
            assert(x[0].pages@[0] <= x[i].pages@[0]);
            assert(y[0].pages@[0] <= y[j].pages@[0]);
            let l = labels(&pages[x[0].pages@[0] as int], kind);
            assert(declared_before(l, n, m));
            assert(declared_before(l, m, n));
            let i1 = choose|i1: int|
                0 <= i1 < l.len() && #[trigger] l[i1] == n && forall|k: int| 0 <= k <= i1 ==> l[k] != m;
            let i2 = choose|i2: int|
                0 <= i2 < l.len() && #[trigger] l[i2] == m && forall|k: int| 0 <= k <= i2 ==> l[k] != n;
            if i1 <= i2 {
                assert(l[i1] != n);
            } else {
                assert(l[i2] != m);
            }
        }
        assert(n == m);
        assert(j == 0) by {
            if j > 0 {
                assert(y[0].name@ != y[j].name@);
            }
        }
        lemma_index_tail(x, pages, kind, bound);
        lemma_index_tail(y, pages, kind, bound);
        let x1 = x.drop_first();
        let y1 = y.drop_first();
        lemma_index_unique(x1, y1, pages, kind, bound);
        assert forall|k: int| 0 <= k < x.len() implies (#[trigger] x[k]).name@ == y[k].name@
            && x[k].pages@ == y[k].pages@ by {
            if k > 0 {
                assert(x1[k - 1] == x[k] && y1[k - 1] == y[k]);
            }
        }
    }
}

/// A page stands in the tag index under each of its tags, and under no other
/// label.
pub proof fn lemma_tag_membership(
    index: Seq<IndexEntry>,
    pages: Seq<Page>,
    p: usize,
    tags: Vec<String>,
    name: Seq<char>,
)
    requires
        is_index_of(index, pages, RenderList::Tags),
        p < pages.len(),
        pages[p as int].tags == Some(tags),
    ensures
        related(index, name, p) <==> exists|j: int| 0 <= j < tags@.len() && (#[trigger] tags@[j])@ == name,
{
    let l = labels(&pages[p as int], RenderList::Tags);
    if l.contains(name) {
        let j = choose|j: int| 0 <= j < l.len() && l[j] == name;
        assert(tags@[j]@ == name);
    }
    if exists|j: int| 0 <= j < tags@.len() && (#[trigger] tags@[j])@ == name {
        let j = choose|j: int| 0 <= j < tags@.len() && (#[trigger] tags@[j])@ == name;
        assert(l[j] == name);
    }
}

/// A page stands in the category index under its category, if it has one,
/// and under no other label; a page without a category stands nowhere in it.
pub proof fn lemma_category_membership(
    index: Seq<IndexEntry>,
    pages: Seq<Page>,
    p: usize,
    name: Seq<char>,
)
    requires
        is_index_of(index, pages, RenderList::Categories),
        p < pages.len(),
    ensures
        related(index, name, p) <==> match pages[p as int].category {
            Some(category) => category@ == name,
            None => false,
        },
{
    let l = labels(&pages[p as int], RenderList::Categories);
    if l.contains(name) {
        let j = choose|j: int| 0 <= j < l.len() && l[j] == name;
    }
    if pages[p as int].category is Some && pages[p as int].category->0@ == name {
        assert(l[0] == name);
    }
}

/// A page without tags stands nowhere in the tag index.
pub proof fn lemma_untagged_not_listed(index: Seq<IndexEntry>, pages: Seq<Page>, p: usize, name: Seq<char>)
    requires
        is_index_of(index, pages, RenderList::Tags),
        p < pages.len(),
        pages[p as int].tags is None,
    ensures
        !related(index, name, p),
{
    let l = labels(&pages[p as int], RenderList::Tags);
    if l.contains(name) {
        let j = choose|j: int| 0 <= j < l.len() && l[j] == name;
    }
}

} // verus!
