//! The feed: the most recent dated pages.

use vstd::prelude::*;
use crate::order::{pos_le, positions_of, sort_positions, sorted_positions};
use crate::page::Page;
use crate::paths::{join_path, join_with_slash, path_join, slash_join};

verus! {

/// The positions, ascending, of the dated pages among the first `n`.
pub open spec fn dated_upto(pages: Seq<Page>, n: int) -> Seq<usize>
    decreases n,
{
    if n <= 0 {
        Seq::empty()
    } else if pages[n - 1].date is Some {
        dated_upto(pages, n - 1).push((n - 1) as usize)
    } else {
        dated_upto(pages, n - 1)
    }
}

/// The positions of all dated pages.
pub open spec fn dated_positions(pages: Seq<Page>) -> Seq<usize> {
    dated_upto(pages, pages.len() as int)
}

/// `dated_upto` holds exactly the positions of the dated pages, each once.
pub proof fn lemma_dated_upto(pages: Seq<Page>, n: int)
    requires
        0 <= n <= pages.len(),
        pages.len() <= usize::MAX,
    ensures
        dated_upto(pages, n).no_duplicates(),
        dated_upto(pages, n).len() <= n,
        forall|q: usize|
            #![trigger dated_upto(pages, n).contains(q)]
            #![trigger pages[q as int]]
            dated_upto(pages, n).contains(q) <==> q < n && pages[q as int].date is Some,
    decreases n,
{
    if n > 0 {
        lemma_dated_upto(pages, n - 1);
        let prev = dated_upto(pages, n - 1);
        let cur = dated_upto(pages, n);
        if pages[n - 1].date is Some {
            let x = (n - 1) as usize;
            assert(cur[prev.len() as int] == x);
            assert forall|q: usize|
                #![trigger cur.contains(q)]
                #![trigger pages[q as int]]
                cur.contains(q) <==> q < n && pages[q as int].date is Some by {
                if cur.contains(q) {
                    let k = choose|k: int| 0 <= k < cur.len() && cur[k] == q;
                    if k < prev.len() {
                        assert(prev[k] == q);
                        assert(prev.contains(q));
                    }
                }
                if q < n && pages[q as int].date is Some {
                    if q < n - 1 {
                        assert(prev.contains(q));
                        let k = choose|k: int| 0 <= k < prev.len() && prev[k] == q;
                        assert(cur[k] == q);
                    }
                }
            }
            assert forall|i: int, j: int| 0 <= i < cur.len() && 0 <= j < cur.len() && i != j implies cur[i]
                != cur[j] by {
                if i < prev.len() {
                    assert(prev.contains(prev[i]));
                }
                if j < prev.len() {
                    assert(prev.contains(prev[j]));
                }
            }
        }
    }
}

/// The most pages that a feed lists.
pub const FEED_LIMIT: usize = 15;

/// What is written as the feed.
#[derive(Debug)]
pub struct Feed {
    /// Positions of the listed pages, the most recent first.
    pub pages: Vec<usize>,
    pub last_build_date: u64,
    pub feed_url: String,
    pub file: String,
}

/// `feed` is the feed of `pages`: the dated pages in listing order, cut off
/// after the limit, so that every dated page left out comes after all that
/// are listed.
pub open spec fn feed_of(pages: Seq<Page>, base_url: Seq<char>, out: Seq<char>, feed: &Feed) -> bool {
    &&& feed.pages@.len() == if dated_positions(pages).len() < FEED_LIMIT {
        dated_positions(pages).len()
    } else {
        FEED_LIMIT as nat
    }
    &&& feed.pages@.len() > 0
    &&& positions_of(pages, feed.pages@)
    &&& feed.pages@.no_duplicates()
    &&& sorted_positions(pages, feed.pages@)
    &&& forall|k: int| 0 <= k < feed.pages@.len() ==> pages[#[trigger] feed.pages@[k] as int].date is Some
    &&& forall|q: usize, k: int|
        q < pages.len() && (#[trigger] pages[q as int]).date is Some && !feed.pages@.contains(q) && 0
            <= k < feed.pages@.len() ==> pos_le(pages, #[trigger] feed.pages@[k] as int, q as int)
    &&& Some(feed.last_build_date) == pages[feed.pages@[0] as int].date
    &&& feed.feed_url@ == slash_join(base_url, "feed.xml"@)
    &&& feed.file@ == path_join(out, "rss.xml"@)
}

/// Plans the feed, if any page has a date.
pub fn plan_feed(pages: &Vec<Page>, base_url: &str, out: &str) -> (r: Option<Feed>)
    ensures
        r is None <==> forall|p: int| 0 <= p < pages@.len() ==> (#[trigger] pages@[p]).date is None,
        match r {
            Some(feed) => feed_of(pages@, base_url@, out@, &feed),
            None => true,
        },
{
    let mut dated: Vec<usize> = Vec::new();
    let mut i: usize = 0;
    while i < pages.len()
        invariant
            i <= pages@.len(),
            dated@ == dated_upto(pages@, i as int),
        decreases pages@.len() - i,
    {
        if pages[i].date.is_some() {
            dated.push(i);
        }
        i += 1;
    }
    proof {
        lemma_dated_upto(pages@, pages@.len() as int);
    }
    if dated.len() == 0 {
        proof {
            assert forall|p: int| 0 <= p < pages@.len() implies (#[trigger] pages@[p]).date is None by {
                if pages@[p].date is Some {
                    assert(dated@.contains(p as usize));
                }
            }
        }
        return None;
    }
    assert(dated@.contains(dated@[0]));
    assert(positions_of(pages@, dated@)) by {
        assert forall|k: int| 0 <= k < dated@.len() implies (#[trigger] dated@[k]) < pages@.len() by {
            assert(dated@.contains(dated@[k]));
        }
    }
    let mut listed = sort_positions(pages, &dated);
    let ghost sorted = listed@;
    if listed.len() > FEED_LIMIT {
        listed.truncate(FEED_LIMIT);
    }
    proof {
        assert(listed@ =~= sorted.take(listed@.len() as int));
        assert forall|k: int| 0 <= k < listed@.len() implies pages@[#[trigger] listed@[k] as int].date is Some by {
            assert(sorted.contains(sorted[k]));
        }
        assert forall|q: usize, k: int|
            q < pages@.len() && (#[trigger] pages@[q as int]).date is Some && !listed@.contains(q) && 0
                <= k < listed@.len() implies pos_le(pages@, #[trigger] listed@[k] as int, q as int) by {
            assert(dated@.contains(q));
            assert(sorted.contains(q));
            let j = choose|j: int| 0 <= j < sorted.len() && sorted[j] == q;
            if j < listed@.len() {
                assert(listed@[j] == q);
            }
            assert(sorted[k] == listed@[k]);
        }
        assert(sorted.contains(sorted[0]));
    }
    let first: usize = listed[0];
    let last_build_date: u64 = match pages[first].date {
        Some(d) => d,
        None => 0,
    };
    Some(
        Feed {
            pages: listed,
            last_build_date,
            feed_url: join_with_slash(base_url, "feed.xml"),
            file: join_path(out, "rss.xml"),
        },
    )
}

/// No dated page that a feed leaves out is more recent than one that it
/// lists, and a feed is full as soon as there are enough dated pages.
pub proof fn lemma_feed_most_recent(
    pages: Seq<Page>,
    base_url: Seq<char>,
    out: Seq<char>,
    feed: &Feed,
    q: usize,
    k: int,
)
    requires
        feed_of(pages, base_url, out, feed),
        pages.len() <= usize::MAX,
        q < pages.len(),
        pages[q as int].date is Some,
        !feed.pages@.contains(q),
        0 <= k < feed.pages@.len(),
    ensures
        feed.pages@.len() == FEED_LIMIT,
        pages[feed.pages@[k] as int].date->0 >= pages[q as int].date->0,
{
    assert(pos_le(pages, feed.pages@[k] as int, q as int));
    lemma_dated_upto(pages, pages.len() as int);
    let dated = dated_positions(pages);
    if dated.len() < FEED_LIMIT {
        // Every listed page is dated, so the list, which is as long as
        // `dated` and holds nothing twice, holds every dated page.
        assert forall|x: usize| feed.pages@.contains(x) implies dated.contains(x) by {
            let m = choose|m: int| 0 <= m < feed.pages@.len() && feed.pages@[m] == x;
            assert(pages[feed.pages@[m] as int].date is Some);
        }
        feed.pages@.unique_seq_to_set();
        dated.unique_seq_to_set();
        vstd::seq_lib::seq_to_set_is_finite(feed.pages@);
        vstd::seq_lib::seq_to_set_is_finite(dated);
        assert(feed.pages@.to_set().subset_of(dated.to_set()));
        vstd::set_lib::lemma_subset_equality(feed.pages@.to_set(), dated.to_set());
        assert(dated.to_set().contains(q));
        assert(feed.pages@.to_set().contains(q));
    }
}

} // verus!
