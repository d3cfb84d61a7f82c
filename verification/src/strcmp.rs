//! Verified string comparison by character code, and the lexicographic sort
//! applied to each category of the catalog.

use vstd::prelude::*;
use crate::text::{entry_views, distinct_entries};
use vstd::seq_lib::to_multiset_build;
use vstd::seq_lib::to_multiset_insert;

verus! {

/// Whether two texts are the same.
pub fn str_eq(a: &str, b: &str) -> (r: bool)
    ensures
        r == (a@ == b@),
{
    let n = a.unicode_len();
    if n != b.unicode_len() {
        return false;
    }
    let mut i: usize = 0;
    while i < n
        invariant
            n == a@.len(),
            n == b@.len(),
            i <= n,
            forall|j: int| 0 <= j < i ==> a@[j] == b@[j],
        decreases n - i,
    {
        if a.get_char(i) != b.get_char(i) {
            return false;
        }
        i += 1;
    }
    proof {
        assert(a@ =~= b@);
    }
    true
}

/// Lexicographic order on texts by character code.
pub open spec fn lex_leq(a: Seq<char>, b: Seq<char>) -> bool
    decreases a.len(),
{
    if a.len() == 0 {
        true
    } else if b.len() == 0 {
        false
    } else if (a.first() as u32) != (b.first() as u32) {
        (a.first() as u32) < (b.first() as u32)
    } else {
        lex_leq(a.drop_first(), b.drop_first())
    }
}

pub proof fn lemma_lex_total(a: Seq<char>, b: Seq<char>)
    ensures
        lex_leq(a, b) || lex_leq(b, a),
    decreases a.len(),
{
    if a.len() > 0 && b.len() > 0 && (a.first() as u32) == (b.first() as u32) {
        lemma_lex_total(a.drop_first(), b.drop_first());
    }
}

pub proof fn lemma_lex_trans(a: Seq<char>, b: Seq<char>, c: Seq<char>)
    requires
        lex_leq(a, b),
        lex_leq(b, c),
    ensures
        lex_leq(a, c),
    decreases a.len(),
{
    if a.len() > 0 && b.len() > 0 && c.len() > 0 {
        if (a.first() as u32) == (b.first() as u32) && (b.first() as u32) == (c.first() as u32) {
            lemma_lex_trans(a.drop_first(), b.drop_first(), c.drop_first());
        }
    }
}

proof fn lemma_lex_skip(a: Seq<char>, b: Seq<char>, i: int)
    requires
        0 <= i <= a.len(),
        i <= b.len(),
        forall|j: int| 0 <= j < i ==> (a[j] as u32) == (b[j] as u32),
    ensures
        lex_leq(a, b) == lex_leq(a.skip(i), b.skip(i)),
    decreases i,
{
    if i > 0 {
        assert(a.len() > 0 && b.len() > 0);
        assert((a.first() as u32) == (b.first() as u32));
        assert(lex_leq(a, b) == lex_leq(a.drop_first(), b.drop_first()));
        lemma_lex_skip(a.drop_first(), b.drop_first(), i - 1);
        assert(a.drop_first().skip(i - 1) =~= a.skip(i));
        assert(b.drop_first().skip(i - 1) =~= b.skip(i));
    } else {
        assert(a.skip(0) =~= a);
        assert(b.skip(0) =~= b);
    }
}

/// Whether one text precedes or equals another in the catalog order.
pub fn str_leq(a: &str, b: &str) -> (r: bool)
    ensures
        r == lex_leq(a@, b@),
{
    let na = a.unicode_len();
    let nb = b.unicode_len();
    let mut i: usize = 0;
    while i < na && i < nb
        invariant
            na == a@.len(),
            nb == b@.len(),
            i <= na,
            i <= nb,
            forall|j: int| 0 <= j < i ==> (a@[j] as u32) == (b@[j] as u32),
        decreases na - i,
    {
        let ca = a.get_char(i);
        let cb = b.get_char(i);
        if (ca as u32) != (cb as u32) {
            proof {
                lemma_lex_skip(a@, b@, i as int);
            }
            return (ca as u32) < (cb as u32);
        }
        i += 1;
    }
    proof {
        lemma_lex_skip(a@, b@, i as int);
    }
    na <= nb
}

/// The entries are in ascending catalog order.
pub open spec fn sorted_entries(es: Seq<Seq<char>>) -> bool {
    forall|i: int, j: int| 0 <= i <= j < es.len() ==> lex_leq(es[i], es[j])
}

/// Sorts entries into the catalog order; the result holds exactly the given
/// entries, as often as they were given.
pub fn sort_entries(v: Vec<String>) -> (r: Vec<String>)
    ensures
        sorted_entries(entry_views(r@)),
        entry_views(r@).to_multiset() == entry_views(v@).to_multiset(),
{
    let mut out: Vec<String> = Vec::new();
    proof {
        assert(entry_views(out@) =~= Seq::<Seq<char>>::empty());
        assert(entry_views(v@.subrange(0, 0)) =~= Seq::<Seq<char>>::empty());
    }
    let mut k: usize = 0;
    while k < v.len()
        invariant
            k <= v@.len(),
            sorted_entries(entry_views(out@)),
            entry_views(out@).to_multiset() == entry_views(v@.subrange(0, k as int)).to_multiset(),
        decreases v@.len() - k,
    {
        let x = v[k].clone();
        let mut pos: usize = 0;
        while pos < out.len() && !str_leq(x.as_str(), out[pos].as_str())
            invariant
                k < v@.len(),
                pos <= out@.len(),
                x == v@[k as int],
                forall|j: int| 0 <= j < pos ==> lex_leq(entry_views(out@)[j], x@),
            decreases out@.len() - pos,
        {
            proof {
                lemma_lex_total(x@, out@[pos as int]@);
            }
            pos += 1;
        }
        proof {
            let es = entry_views(out@);
            let es2 = entry_views(out@.insert(pos as int, x));
            assert(es2 =~= es.insert(pos as int, x@));
            to_multiset_insert(es, pos as int, x@);
            assert(entry_views(v@.subrange(0, k + 1)) =~= entry_views(v@.subrange(0, k as int)).push(
                v@[k as int]@));
            to_multiset_build(entry_views(v@.subrange(0, k as int)), v@[k as int]@);
            assert forall|i: int, j: int| 0 <= i <= j < es2.len() implies lex_leq(es2[i], es2[j]) by {
                let p = pos as int;
                if i < p && j == p {
                    assert(lex_leq(es[i], x@));
                } else if i == p && j == p {
                    lemma_lex_total(x@, x@);
                } else if i == p && j > p {
                    if p < es.len() {
                        assert(lex_leq(x@, es[p]));
                        assert(lex_leq(es[p], es[j - 1]));
                        lemma_lex_trans(x@, es[p], es[j - 1]);
                    }
                } else if i < p && j > p {
                    assert(lex_leq(es[i], es[j - 1]));
                } else if i > p && j > p {
                    assert(lex_leq(es[i - 1], es[j - 1]));
                }
            }
        }
        out.insert(pos, x);
        k += 1;
    }
    proof {
        assert(v@.subrange(0, v@.len() as int) =~= v@);
    }
    out
}

/// Keeps the first copy of each entry, in order: the result holds the same
/// texts with none repeated.
pub fn dedup_entries(v: Vec<String>) -> (r: Vec<String>)
    ensures
        distinct_entries(entry_views(r@)),
        entry_views(r@).to_set() == entry_views(v@).to_set(),
{
    let mut out: Vec<String> = Vec::new();
    proof {
        assert(entry_views(out@) =~= Seq::<Seq<char>>::empty());
        assert(entry_views(v@.subrange(0, 0)) =~= Seq::<Seq<char>>::empty());
        assert(entry_views(out@).to_set() =~= entry_views(v@.subrange(0, 0)).to_set());
    }
    let mut k: usize = 0;
    while k < v.len()
        invariant
            k <= v@.len(),
            distinct_entries(entry_views(out@)),
            entry_views(out@).to_set() == entry_views(v@.subrange(0, k as int)).to_set(),
        decreases v@.len() - k,
    {
        let x = v[k].clone();
        let dup = contains_entry(&out, x.as_str());
        proof {
            let pre = entry_views(v@.subrange(0, k as int));
            let pre2 = entry_views(v@.subrange(0, k + 1));
            assert(pre2 =~= pre.push(x@));
            pre.lemma_push_to_set_commute(x@);
            if dup {
                assert(entry_views(out@).to_set().insert(x@) =~= entry_views(out@).to_set());
            } else {
                entry_views(out@).lemma_push_to_set_commute(x@);
                assert(entry_views(out@.push(x)) =~= entry_views(out@).push(x@));
            }
        }
        if !dup {
            out.push(x);
        }
        k += 1;
    }
    proof {
        assert(v@.subrange(0, v@.len() as int) =~= v@);
    }
    out
}

/// The entries other than the given one, in order.
pub open spec fn without_entry(es: Seq<Seq<char>>, x: Seq<char>) -> Seq<Seq<char>>
    decreases es.len(),
{
    if es.len() == 0 {
        Seq::empty()
    } else if es.last() == x {
        without_entry(es.drop_last(), x)
    } else {
        without_entry(es.drop_last(), x).push(es.last())
    }
}

pub proof fn lemma_without_entry_set(es: Seq<Seq<char>>, x: Seq<char>)
    ensures
        without_entry(es, x).to_set() == es.to_set().remove(x),
        forall|e: Seq<char>| #[trigger] without_entry(es, x).contains(e) ==> es.contains(e),
        distinct_entries(es) ==> distinct_entries(without_entry(es, x)),
    decreases es.len(),
{
    if es.len() == 0 {
        assert(without_entry(es, x).to_set() =~= es.to_set().remove(x));
    } else {
        let pre = es.drop_last();
        lemma_without_entry_set(pre, x);
        assert(es =~= pre.push(es.last()));
        pre.lemma_push_to_set_commute(es.last());
        if es.last() == x {
            assert(without_entry(es, x).to_set() =~= es.to_set().remove(x));
        } else {
            without_entry(pre, x).lemma_push_to_set_commute(es.last());
            assert(without_entry(es, x).to_set() =~= es.to_set().remove(x));
            assert(forall|e: Seq<char>| #[trigger] without_entry(es, x).contains(e) ==> es.contains(
                e)) by {
                assert forall|e: Seq<char>| #[trigger] without_entry(es, x).contains(e) implies es.contains(
                    e) by {
                    let w = without_entry(es, x);
                    let i = choose|i: int| 0 <= i < w.len() && w[i] == e;
                    if i < w.len() - 1 {
                        assert(without_entry(pre, x).contains(e));
                    }
                }
            }
            if distinct_entries(es) {
                let w0 = without_entry(pre, x);
                assert(forall|j: int|
                    0 <= j < pre.len() ==> #[trigger] pre[j] == es[j] && es[j] != es.last());
                assert(!pre.contains(es.last()));
                assert(!w0.contains(es.last()));
                assert forall|i: int, j: int|
                    0 <= i < j < without_entry(es, x).len() implies without_entry(es, x)[i]
                    != without_entry(es, x)[j] by {
                    if j < without_entry(es, x).len() - 1 {
                        assert(w0[i] != w0[j]);
                    } else {
                        assert(w0.contains(w0[i]));
                    }
                }
            }
        }
    }
}

/// Copies the list, leaving out every string that holds the given text.
pub fn remove_entry(v: Vec<String>, x: &str) -> (r: Vec<String>)
    ensures
        entry_views(r@) == without_entry(entry_views(v@), x@),
{
    let mut out: Vec<String> = Vec::new();
    proof {
        assert(entry_views(out@) =~= without_entry(entry_views(v@.subrange(0, 0)), x@));
    }
    let mut i: usize = 0;
    while i < v.len()
        invariant
            i <= v@.len(),
            entry_views(out@) == without_entry(entry_views(v@.subrange(0, i as int)), x@),
        decreases v@.len() - i,
    {
        proof {
            let pre = entry_views(v@.subrange(0, i as int));
            let pre2 = entry_views(v@.subrange(0, i + 1));
            assert(pre2 =~= pre.push(v@[i as int]@));
            assert(pre2.drop_last() =~= pre);
            if v@[i as int]@ != x@ {
                assert(entry_views(out@.push(v@[i as int])) =~= entry_views(out@).push(
                    v@[i as int]@));
            }
        }
        if !str_eq(v[i].as_str(), x) {
            let e = v[i].clone();
            out.push(e);
        }
        i += 1;
    }
    proof {
        assert(v@.subrange(0, v@.len() as int) =~= v@);
    }
    out
}

/// Whether some string of the list holds the given text.
pub fn contains_entry(v: &Vec<String>, x: &str) -> (r: bool)
    ensures
        r == entry_views(v@).contains(x@),
{
    let mut i: usize = 0;
    while i < v.len()
        invariant
            i <= v@.len(),
            forall|j: int| 0 <= j < i ==> entry_views(v@)[j] != x@,
        decreases v@.len() - i,
    {
        if str_eq(v[i].as_str(), x) {
            assert(entry_views(v@)[i as int] == x@);
            return true;
        }
        i += 1;
    }
    assert(forall|j: int| 0 <= j < v@.len() ==> entry_views(v@)[j] != x@);
    false
}

} // verus!
