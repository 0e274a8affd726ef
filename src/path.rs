//! Repository paths and their slash-separated segments.
use vstd::prelude::*;

use crate::order::views;

verus! {

/// The segment being read, as a list of zero or one segments.
pub open spec fn finish_segment(cur: Seq<char>) -> Seq<Seq<char>> {
    if cur.len() == 0 {
        seq![]
    } else {
        seq![cur]
    }
}

/// The segments of `s`, given that `cur` was read before it since the last slash.
pub open spec fn segments_from(s: Seq<char>, cur: Seq<char>) -> Seq<Seq<char>>
    decreases s.len(),
{
    if s.len() == 0 {
        finish_segment(cur)
    } else if s[0] == '/' {
        finish_segment(cur) + segments_from(s.drop_first(), seq![])
    } else {
        segments_from(s.drop_first(), cur.push(s[0]))
    }
}

/// The pieces of `s` between slashes, with the empty pieces left out.
pub open spec fn segments(s: Seq<char>) -> Seq<Seq<char>> {
    segments_from(s, seq![])
}

/// `p` is a (possibly empty or whole) leading part of `q`.
pub open spec fn is_prefix(p: Seq<Seq<char>>, q: Seq<Seq<char>>) -> bool {
    p.len() <= q.len() && q.take(p.len() as int) == p
}

/// Every leading part of `q`, the empty one and `q` itself included.
pub open spec fn prefixes(q: Seq<Seq<char>>) -> Set<Seq<Seq<char>>> {
    Set::new(|p: Seq<Seq<char>>| is_prefix(p, q))
}

/// Splits a path on `/`, dropping empty pieces.
pub fn split_segments(path: &str) -> (r: Vec<String>)
    ensures
        views(r@) == segments(path@),
{
    let n = path.unicode_len();
    let mut out: Vec<String> = Vec::new();
    let mut start: usize = 0;
    let mut i: usize = 0;
    assert(path@.subrange(0, n as int) =~= path@);
    assert(path@.subrange(0, 0) =~= Seq::<char>::empty());
    assert(views(out@) =~= Seq::<Seq<char>>::empty());
    while i < n
        invariant
            n == path@.len(),
            start <= i <= n,
            views(out@) + segments_from(
                path@.subrange(i as int, n as int),
                path@.subrange(start as int, i as int),
            ) == segments(path@),
        decreases n - i,
    {
        let c = path.get_char(i);
        let ghost rest = path@.subrange(i as int, n as int);
        let ghost cur = path@.subrange(start as int, i as int);
        assert(rest.drop_first() =~= path@.subrange(i + 1, n as int));
        if c == '/' {
            let ghost before = out@;
            if start < i {
                let piece = path.substring_char(start, i);
                out.push(String::from_str(piece));
            }
            assert(views(out@) =~= views(before) + finish_segment(cur));
            assert(path@.subrange(i + 1, i + 1) =~= Seq::<char>::empty());
            assert(views(out@) + segments_from(rest.drop_first(), seq![]) =~= views(before)
                + segments_from(rest, cur));
            start = i + 1;
        } else {
            assert(cur.push(c) =~= path@.subrange(start as int, i + 1));
        }
        i = i + 1;
    }
    let ghost before = out@;
    if start < n {
        let piece = path.substring_char(start, n);
        out.push(String::from_str(piece));
    }
    assert(views(out@) =~= views(before) + finish_segment(path@.subrange(start as int, n as int)));
    out
}

} // verus!
