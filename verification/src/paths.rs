//! Output locations and links as text: `/` parts the segments.

use vstd::prelude::*;

verus! {

/// The texts that a list of strings holds.
pub open spec fn texts(v: Seq<String>) -> Seq<Seq<char>> {
    Seq::new(v.len(), |k: int| v[k]@)
}

/// The text ends with a `/`.
pub open spec fn ends_with_slash(s: Seq<char>) -> bool {
    s.len() > 0 && s.last() == '/'
}

/// `base` and `rest` joined by exactly one `/`, which is added only where
/// `base` does not already end with one.
pub open spec fn slash_join(base: Seq<char>, rest: Seq<char>) -> Seq<char> {
    if ends_with_slash(base) {
        base + rest
    } else {
        base + seq!['/'] + rest
    }
}

/// The location `rest` below the directory `dir`; below the empty directory
/// it is `rest` itself.
pub open spec fn path_join(dir: Seq<char>, rest: Seq<char>) -> Seq<char> {
    if dir.len() == 0 {
        rest
    } else {
        slash_join(dir, rest)
    }
}

/// The segments of `s[start..]` between the `/`s, where scanning stands at
/// `i` and the segment that began at `start` is still open.
pub open spec fn split_from(s: Seq<char>, start: int, i: int) -> Seq<Seq<char>>
    decreases s.len() - i,
{
    if i < start || start < 0 || i >= s.len() {
        seq![s.subrange(start, s.len() as int)]
    } else if s[i] == '/' {
        seq![s.subrange(start, i)] + split_from(s, i + 1, i + 1)
    } else {
        split_from(s, start, i + 1)
    }
}

/// The segments of `s` between its `/`s; a text without `/` is one segment.
pub open spec fn segments(s: Seq<char>) -> Seq<Seq<char>> {
    split_from(s, 0, 0)
}

/// The directories from `root` down along the first `n` of `segs`, the
/// outermost first.
pub open spec fn nested_dirs(root: Seq<char>, segs: Seq<Seq<char>>, n: int) -> Seq<Seq<char>>
    decreases n,
{
    if n <= 0 {
        Seq::empty()
    } else {
        nested_dirs(root, segs, n - 1).push(path_join(deepest_dir(root, segs, n - 1), segs[n - 1]))
    }
}

/// The directory reached from `root` along the first `n` of `segs`.
pub open spec fn deepest_dir(root: Seq<char>, segs: Seq<Seq<char>>, n: int) -> Seq<char>
    decreases n,
{
    if n <= 0 {
        root
    } else {
        path_join(deepest_dir(root, segs, n - 1), segs[n - 1])
    }
}

/// The last segment of a location.
pub open spec fn file_name(path: Seq<char>) -> Seq<char> {
    segments(path).last()
}

/// Whether the text ends with a `/`.
pub fn has_trailing_slash(s: &str) -> (r: bool)
    ensures
        r == ends_with_slash(s@),
{
    let n: usize = s.unicode_len();
    n > 0 && s.get_char(n - 1) == '/'
}

/// Joins `base` and `rest` by exactly one `/`.
pub fn join_with_slash(base: &str, rest: &str) -> (r: String)
    ensures
        r@ == slash_join(base@, rest@),
{
    let mut r = String::from_str(base);
    if !has_trailing_slash(base) {
        proof {
            reveal_strlit("/");
        }
        assert("/"@ =~= seq!['/']);
        r.append("/");
    }
    r.append(rest);
    r
}

/// The location `rest` below the directory `dir`.
pub fn join_path(dir: &str, rest: &str) -> (r: String)
    ensures
        r@ == path_join(dir@, rest@),
{
    if dir.unicode_len() == 0 {
        String::from_str(rest)
    } else {
        join_with_slash(dir, rest)
    }
}

/// Splits `s` at each `/`.
pub fn split_segments(s: &str) -> (out: Vec<String>)
    ensures
        texts(out@) == segments(s@),
{
    let n: usize = s.unicode_len();
    let mut out: Vec<String> = Vec::new();
    let mut start: usize = 0;
    let mut i: usize = 0;
    while i < n
        invariant
            n == s@.len(),
            start <= i <= n,
            segments(s@).len() == out@.len() + split_from(s@, start as int, i as int).len(),
            forall|k: int| 0 <= k < out@.len() ==> (#[trigger] out@[k])@ == segments(s@)[k],
            forall|k: int|
                0 <= k < split_from(s@, start as int, i as int).len() ==> segments(s@)[out@.len()
                    + k] == #[trigger] split_from(s@, start as int, i as int)[k],
        decreases n - i,
    {
        if s.get_char(i) == '/' {
            let ghost rest = split_from(s@, i + 1, i + 1);
            let ghost cur = split_from(s@, start as int, i as int);
            out.push(String::from_str(s.substring_char(start, i)));
            proof {
                assert(cur[0] == s@.subrange(start as int, i as int));
                assert forall|k: int| 0 <= k < rest.len() implies segments(s@)[out@.len() + k]
                    == #[trigger] rest[k] by {
                    assert(cur[k + 1] == rest[k]);
                }
            }
            start = i + 1;
        }
        i += 1;
    }
    let ghost cur = split_from(s@, start as int, i as int);
    out.push(String::from_str(s.substring_char(start, n)));
    proof {
        assert(cur[0] == s@.subrange(start as int, n as int));
        assert(texts(out@) =~= segments(s@));
    }
    out
}

/// The directories from `root` down along `segs`, and the deepest of them.
pub fn nest(root: &str, segs: &Vec<String>) -> (r: (Vec<String>, String))
    ensures
        texts(r.0@) == nested_dirs(root@, texts(segs@), segs@.len() as int),
        r.1@ == deepest_dir(root@, texts(segs@), segs@.len() as int),
{
    let mut dirs: Vec<String> = Vec::new();
    let mut cur = String::from_str(root);
    let mut k: usize = 0;
    while k < segs.len()
        invariant
            k <= segs@.len(),
            texts(dirs@) == nested_dirs(root@, texts(segs@), k as int),
            cur@ == deepest_dir(root@, texts(segs@), k as int),
        decreases segs@.len() - k,
    {
        let next = join_path(cur.as_str(), segs[k].as_str());
        dirs.push(next.clone());
        cur = next;
        proof {
            assert(texts(segs@)[k as int] == segs@[k as int]@);
            assert(texts(dirs@) =~= nested_dirs(root@, texts(segs@), k + 1));
        }
        k += 1;
    }
    (dirs, cur)
}

/// The last segment of a location.
pub fn last_segment(path: &str) -> (r: String)
    ensures
        r@ == file_name(path@),
{
    let segs = split_segments(path);
    proof {
        lemma_segments_nonempty(path@, 0, 0);
    }
    let n: usize = segs.len();
    assert(texts(segs@)[n - 1] == segs@[n - 1]@);
    segs[n - 1].clone()
}

/// A text has at least one segment.
pub proof fn lemma_segments_nonempty(s: Seq<char>, start: int, i: int)
    ensures
        split_from(s, start, i).len() > 0,
    decreases s.len() - i,
{
    if !(i < start || start < 0 || i >= s.len()) {
        if s[i] == '/' {
        } else {
            lemma_segments_nonempty(s, start, i + 1);
        }
    }
}

} // verus!
