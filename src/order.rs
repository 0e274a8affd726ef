//! Lexicographic order on strings, as `String`'s own `Ord` orders them,
//! and sorting of string vectors by it.
use vstd::prelude::*;
use vstd::seq_lib::{to_multiset_build, to_multiset_insert};

verus! {

/// `a` comes strictly before `b`: the first differing character is smaller,
/// or `a` is a proper prefix of `b`.
pub open spec fn lex_lt(a: Seq<char>, b: Seq<char>) -> bool
    decreases a.len(),
{
    if a.len() == 0 {
        b.len() > 0
    } else if b.len() == 0 {
        false
    } else if a[0] != b[0] {
        (a[0] as int) < (b[0] as int)
    } else {
        lex_lt(a.drop_first(), b.drop_first())
    }
}

/// Every element is at most each later one.
pub open spec fn sorted_asc(s: Seq<Seq<char>>) -> bool {
    forall|i: int, j: int| 0 <= i < j < s.len() ==> !lex_lt(#[trigger] s[j], #[trigger] s[i])
}

/// Every element is strictly before each later one.
pub open spec fn strictly_sorted(s: Seq<Seq<char>>) -> bool {
    forall|i: int, j: int| 0 <= i < j < s.len() ==> lex_lt(#[trigger] s[i], #[trigger] s[j])
}

/// Every element is at least each later one.
pub open spec fn sorted_desc(s: Seq<Seq<char>>) -> bool {
    forall|i: int, j: int| 0 <= i < j < s.len() ==> !lex_lt(#[trigger] s[i], #[trigger] s[j])
}

/// The character sequences of a vector of strings.
pub open spec fn views(v: Seq<String>) -> Seq<Seq<char>> {
    v.map_values(|s: String| s@)
}

pub proof fn lemma_lex_irreflexive(a: Seq<char>)
    ensures
        !lex_lt(a, a),
    decreases a.len(),
{
    if a.len() > 0 {
        lemma_lex_irreflexive(a.drop_first());
    }
}

pub proof fn lemma_lex_asymmetric(a: Seq<char>, b: Seq<char>)
    ensures
        !(lex_lt(a, b) && lex_lt(b, a)),
    decreases a.len(),
{
    if a.len() > 0 && b.len() > 0 && a[0] == b[0] {
        lemma_lex_asymmetric(a.drop_first(), b.drop_first());
    }
}

pub proof fn lemma_lex_transitive(a: Seq<char>, b: Seq<char>, c: Seq<char>)
    requires
        lex_lt(a, b),
        lex_lt(b, c),
    ensures
        lex_lt(a, c),
    decreases a.len(),
{
    if a.len() > 0 && b.len() > 0 && c.len() > 0 && a[0] == b[0] && b[0] == c[0] {
        lemma_lex_transitive(a.drop_first(), b.drop_first(), c.drop_first());
    }
}

pub proof fn lemma_lex_total(a: Seq<char>, b: Seq<char>)
    ensures
        a == b || lex_lt(a, b) || lex_lt(b, a),
    decreases a.len(),
{
    if a.len() > 0 && b.len() > 0 && a[0] == b[0] {
        lemma_lex_total(a.drop_first(), b.drop_first());
        if a.drop_first() == b.drop_first() {
            assert(a =~= seq![a[0]] + a.drop_first());
            assert(b =~= seq![b[0]] + b.drop_first());
        }
    } else if a.len() == 0 && b.len() == 0 {
        assert(a =~= b);
    } else if a.len() > 0 && b.len() > 0 {
        assert((a[0] as int) != (b[0] as int));
    }
}

/// Whether `a` sorts strictly before `b`.
pub fn str_lt(a: &str, b: &str) -> (r: bool)
    ensures
        r == lex_lt(a@, b@),
{
    let la = a.unicode_len();
    let lb = b.unicode_len();
    let mut i: usize = 0;
    assert(a@.subrange(0, la as int) =~= a@);
    assert(b@.subrange(0, lb as int) =~= b@);
    while i < la && i < lb
        invariant
            la == a@.len(),
            lb == b@.len(),
            i <= la,
            i <= lb,
            lex_lt(a@, b@) == lex_lt(a@.subrange(i as int, la as int), b@.subrange(i as int, lb as int)),
        decreases la - i,
    {
        let ca = a.get_char(i);
        let cb = b.get_char(i);
        if ca != cb {
            return (ca as u32) < (cb as u32);
        }
        proof {
            let sa = a@.subrange(i as int, la as int);
            let sb = b@.subrange(i as int, lb as int);
            assert(sa.drop_first() =~= a@.subrange(i + 1, la as int));
            assert(sb.drop_first() =~= b@.subrange(i + 1, lb as int));
        }
        i = i + 1;
    }
    i < lb
}

/// Whether `a` and `b` hold the same characters.
pub fn str_eq(a: &str, b: &str) -> (r: bool)
    ensures
        r == (a@ == b@),
{
    proof {
        lemma_lex_total(a@, b@);
        lemma_lex_irreflexive(a@);
    }
    !str_lt(a, b) && !str_lt(b, a)
}

/// Sorts strings in ascending lexicographic order (a stable insertion sort).
pub fn sort_ascending(v: Vec<String>) -> (r: Vec<String>)
    ensures
        sorted_asc(views(r@)),
        views(r@).to_multiset() == views(v@).to_multiset(),
{
    let mut r: Vec<String> = Vec::new();
    let n = v.len();
    let mut i: usize = 0;
    assert(views(r@) =~= views(v@.take(0)));
    while i < n
        invariant
            n == v.len(),
            i <= n,
            sorted_asc(views(r@)),
            views(r@).to_multiset() == views(v@.take(i as int)).to_multiset(),
        decreases n - i,
    {
        let x = v[i].clone();
        let mut j: usize = 0;
        let mut found = false;
        while j < r.len() && !found
            invariant
                j <= r.len(),
                forall|k: int| 0 <= k < j ==> !lex_lt(x@, #[trigger] r@[k]@),
                found ==> j < r.len() && lex_lt(x@, r@[j as int]@),
            decreases r.len() - j + (if found { 0int } else { 1int }),
        {
            if str_lt(x.as_str(), r[j].as_str()) {
                found = true;
            } else {
                j = j + 1;
            }
        }
        proof {
            let s = views(r@);
            let t = s.insert(j as int, x@);
            assert forall|a: int, b: int| 0 <= a < b < t.len() implies !lex_lt(
                #[trigger] t[b],
                #[trigger] t[a],
            ) by {
                if b < j {
                } else if a < j && b == j {
                } else if a == j as int {
                    let y = t[b];
                    if lex_lt(y, x@) {
                        if b - 1 == j as int {
                            lemma_lex_asymmetric(x@, y);
                        } else {
                            lemma_lex_transitive(y, x@, s[j as int]);
                        }
                    }
                } else if a < j && b > j {
                }
            }
            to_multiset_insert(s, j as int, x@);
            to_multiset_build(views(v@.take(i as int)), v@[i as int]@);
            assert(views(v@.take(i + 1)) =~= views(v@.take(i as int)).push(v@[i as int]@));
        }
        let ghost before = r@;
        r.insert(j, x);
        assert(views(r@) =~= views(before).insert(j as int, x@));
        i = i + 1;
    }
    assert(v@.take(n as int) =~= v@);
    r
}

/// Sorts strings in descending lexicographic order.
pub fn sort_descending(v: Vec<String>) -> (r: Vec<String>)
    ensures
        sorted_desc(views(r@)),
        views(r@).to_multiset() == views(v@).to_multiset(),
{
    let mut asc = sort_ascending(v);
    let mut r: Vec<String> = Vec::new();
    let ghost a = views(asc@);
    while asc.len() > 0
        invariant
            a.len() == r@.len() + asc@.len(),
            views(asc@) == a.take(asc@.len() as int),
            views(r@) == a.skip(asc@.len() as int).reverse(),
        decreases asc.len(),
    {
        let ghost before = r@;
        let ghost old_asc = asc@;
        let x = asc.pop().unwrap();
        assert(x@ == views(old_asc)[asc@.len() as int]);
        assert(x@ == a[asc@.len() as int]);
        r.push(x);
        assert(views(r@) =~= views(before).push(x@));
        assert(views(asc@) =~= a.take(asc@.len() as int));
        assert(a.skip(asc@.len() as int).reverse() =~= a.skip(asc@.len() as int + 1).reverse().push(x@));
    }
    assert(a.skip(0) =~= a);
    proof {
        a.lemma_reverse_to_multiset();
        assert forall|i: int, j: int| 0 <= i < j < views(r@).len() implies !lex_lt(
            #[trigger] views(r@)[i],
            #[trigger] views(r@)[j],
        ) by {
            assert(views(r@)[i] == a[a.len() - 1 - i]);
            assert(views(r@)[j] == a[a.len() - 1 - j]);
        }
    }
    r
}

} // verus!
