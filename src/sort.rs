use vstd::prelude::*;
use vstd::string::*;
use vstd::utf8::encode_utf8;

use core::cmp::Ordering;
use rayon::slice::ParallelSliceMut;

use crate::label::LABEL_LENGTH;

verus! {

/// Lexicographic comparison of byte strings; a proper prefix comes first.
pub open spec fn lex_cmp(a: Seq<u8>, b: Seq<u8>) -> Ordering
    decreases a.len(),
{
    if a.len() == 0 && b.len() == 0 {
        Ordering::Equal
    } else if a.len() == 0 {
        Ordering::Less
    } else if b.len() == 0 {
        Ordering::Greater
    } else if a[0] < b[0] {
        Ordering::Less
    } else if a[0] > b[0] {
        Ordering::Greater
    } else {
        lex_cmp(a.drop_first(), b.drop_first())
    }
}

/// The bytes a result is ordered by: without the tag and its separator at the end
/// named by `label_pos`, when the result is long enough to carry one.
pub open spec fn key_window(b: Seq<u8>, label_pos: i8) -> Seq<u8> {
    if label_pos == 0 || b.len() < LABEL_LENGTH + 1 {
        b
    } else if label_pos > 0 {
        b.subrange(0, b.len() - (LABEL_LENGTH + 1))
    } else {
        b.subrange(LABEL_LENGTH + 1, b.len() as int)
    }
}

/// The sort key of a result: the window of its UTF-8 bytes.
pub open spec fn sort_key(s: Seq<char>, label_pos: i8) -> Seq<u8> {
    key_window(encode_utf8(s), label_pos)
}

/// How two results are ordered: by their keys, ascending or descending.
pub open spec fn result_cmp(a: Seq<char>, b: Seq<char>, label_pos: i8, asc: bool) -> Ordering {
    let c = lex_cmp(sort_key(a, label_pos), sort_key(b, label_pos));
    if asc {
        c
    } else {
        match c {
            Ordering::Less => Ordering::Greater,
            Ordering::Greater => Ordering::Less,
            Ordering::Equal => Ordering::Equal,
        }
    }
}

/// Whether no result comes after one that it should precede.
pub open spec fn sorted_by_key(v: Seq<String>, label_pos: i8, asc: bool) -> bool {
    forall|i: int, j: int|
        0 <= i < j < v.len() ==> result_cmp(#[trigger] v[i]@, #[trigger] v[j]@, label_pos, asc)
            != Ordering::Greater
}

/// Compares two results by their keys.
pub fn compare_results(a: &String, b: &String, label_pos: i8, asc: bool) -> (r: Ordering)
    ensures
        r == result_cmp(a@, b@, label_pos, asc),
{
    let ab: &[u8] = a.as_str().as_bytes();
    let bb: &[u8] = b.as_str().as_bytes();
    let (sa, ea) = window_bounds(ab.len(), label_pos);
    let (sb, eb) = window_bounds(bb.len(), label_pos);
    let ghost ka = ab@.subrange(sa as int, ea as int);
    let ghost kb = bb@.subrange(sb as int, eb as int);
    assert(ka =~= key_window(ab@, label_pos));
    assert(kb =~= key_window(bb@, label_pos));
    assert(ka.subrange(0, ka.len() as int) =~= ka);
    assert(kb.subrange(0, kb.len() as int) =~= kb);
    let mut i: usize = 0;
    let mut c = Ordering::Equal;
    let mut done = false;
    while !done
        invariant
            sa <= ea <= ab@.len(),
            sb <= eb <= bb@.len(),
            ka == ab@.subrange(sa as int, ea as int),
            kb == bb@.subrange(sb as int, eb as int),
            i <= ea - sa,
            i <= eb - sb,
            !done ==> lex_cmp(ka, kb) == lex_cmp(ka.subrange(i as int, ka.len() as int), kb.subrange(i as int, kb.len() as int)),
            done ==> c == lex_cmp(ka, kb),
        decreases (if done { 0int } else { 1 + (ea - sa) - i }),
    {
        let ghost ra = ka.subrange(i as int, ka.len() as int);
        let ghost rb = kb.subrange(i as int, kb.len() as int);
        let at_end_a = i == ea - sa;
        let at_end_b = i == eb - sb;
        if at_end_a && at_end_b {
            c = Ordering::Equal;
            done = true;
        } else if at_end_a {
            c = Ordering::Less;
            done = true;
        } else if at_end_b {
            c = Ordering::Greater;
            done = true;
        } else {
            let x = ab[sa + i];
            let y = bb[sb + i];
            assert(ra[0] == x && rb[0] == y);
            if x < y {
                c = Ordering::Less;
                done = true;
            } else if x > y {
                c = Ordering::Greater;
                done = true;
            } else {
                assert(ra.drop_first() =~= ka.subrange(i + 1, ka.len() as int));
                assert(rb.drop_first() =~= kb.subrange(i + 1, kb.len() as int));
                i = i + 1;
            }
        }
    }
    if asc {
        c
    } else {
        match c {
            Ordering::Less => Ordering::Greater,
            Ordering::Greater => Ordering::Less,
            Ordering::Equal => Ordering::Equal,
        }
    }
}

/// Start and end of the key window of a result of `n` bytes.
fn window_bounds(n: usize, label_pos: i8) -> (r: (usize, usize))
    ensures
        r.0 <= r.1 <= n,
        label_pos == 0 || n < LABEL_LENGTH + 1 ==> r == (0usize, n),
        label_pos > 0 && n >= LABEL_LENGTH + 1 ==> r == (0usize, (n - (LABEL_LENGTH + 1)) as usize),
        label_pos < 0 && n >= LABEL_LENGTH + 1 ==> r == ((LABEL_LENGTH + 1) as usize, n),
{
    if label_pos == 0 || n < LABEL_LENGTH + 1 {
        (0, n)
    } else if label_pos > 0 {
        (0, n - (LABEL_LENGTH + 1))
    } else {
        (LABEL_LENGTH + 1, n)
    }
}

/// Relies on `rayon::slice::ParallelSliceMut::par_sort_by`: with a comparator
/// that is a total order, the slice ends up a permutation of itself in which no
/// element is ordered after one that follows it.
#[verifier::external_body]
fn par_sort_by_key(v: &mut Vec<String>, label_pos: i8, asc: bool)
    ensures
        final(v)@.to_multiset() == old(v)@.to_multiset(),
        sorted_by_key(final(v)@, label_pos, asc),
{
    v.par_sort_by(|a: &String, b: &String| compare_results(a, b, label_pos, asc))
}

/// Sorts results by their paths, tags left out of the comparison, ascending or
/// descending; equal keys may come in any order.
pub fn sort_results(results: &mut Vec<String>, label_pos: i8, asc: bool)
    ensures
        final(results)@.to_multiset() == old(results)@.to_multiset(),
        sorted_by_key(final(results)@, label_pos, asc),
{
    par_sort_by_key(results, label_pos, asc);
}

/// The keys of a list of results, in order.
pub open spec fn key_seq(v: Seq<String>, label_pos: i8) -> Seq<Seq<u8>> {
    v.map_values(|s: String| sort_key(s@, label_pos))
}

proof fn lemma_lex_equal(a: Seq<u8>, b: Seq<u8>)
    ensures
        (lex_cmp(a, b) == Ordering::Equal) == (a == b),
    decreases a.len(),
{
    if a.len() == 0 && b.len() == 0 {
        assert(a =~= b);
    }
    if a.len() > 0 && b.len() > 0 && a[0] == b[0] {
        lemma_lex_equal(a.drop_first(), b.drop_first());
        if a.drop_first() == b.drop_first() {
            assert(a =~= seq![a[0]] + a.drop_first());
            assert(b =~= seq![b[0]] + b.drop_first());
        }
        if a == b {
            assert(a.drop_first() =~= b.drop_first());
        }
    }
}

proof fn lemma_lex_antisym(a: Seq<u8>, b: Seq<u8>)
    ensures
        (lex_cmp(a, b) == Ordering::Less) == (lex_cmp(b, a) == Ordering::Greater),
        (lex_cmp(a, b) == Ordering::Greater) == (lex_cmp(b, a) == Ordering::Less),
    decreases a.len(),
{
    if a.len() > 0 && b.len() > 0 && a[0] == b[0] {
        lemma_lex_antisym(a.drop_first(), b.drop_first());
    }
}

proof fn lemma_lex_trans(a: Seq<u8>, b: Seq<u8>, c: Seq<u8>)
    requires
        lex_cmp(a, b) != Ordering::Greater,
        lex_cmp(b, c) != Ordering::Greater,
    ensures
        lex_cmp(a, c) != Ordering::Greater,
    decreases a.len(),
{
    if a.len() > 0 && b.len() > 0 && c.len() > 0 && a[0] == b[0] && b[0] == c[0] {
        lemma_lex_trans(a.drop_first(), b.drop_first(), c.drop_first());
    }
}

/// Results that precede each other both ways have equal keys.
proof fn lemma_cmp_both_ways(p: Seq<char>, q: Seq<char>, label_pos: i8, asc: bool)
    requires
        result_cmp(p, q, label_pos, asc) != Ordering::Greater,
        result_cmp(q, p, label_pos, asc) != Ordering::Greater,
    ensures
        sort_key(p, label_pos) == sort_key(q, label_pos),
{
    let kp = sort_key(p, label_pos);
    let kq = sort_key(q, label_pos);
    lemma_lex_antisym(kp, kq);
    lemma_lex_equal(kp, kq);
}

/// The order on results is transitive.
proof fn lemma_cmp_trans(p: Seq<char>, q: Seq<char>, r: Seq<char>, label_pos: i8, asc: bool)
    requires
        result_cmp(p, q, label_pos, asc) != Ordering::Greater,
        result_cmp(q, r, label_pos, asc) != Ordering::Greater,
    ensures
        result_cmp(p, r, label_pos, asc) != Ordering::Greater,
{
    let kp = sort_key(p, label_pos);
    let kq = sort_key(q, label_pos);
    let kr = sort_key(r, label_pos);
    if asc {
        lemma_lex_trans(kp, kq, kr);
    } else {
        lemma_lex_antisym(kp, kq);
        lemma_lex_antisym(kq, kr);
        lemma_lex_antisym(kp, kr);
        lemma_lex_trans(kr, kq, kp);
    }
}

/// Sorting is idempotent on keys: any two sorted orderings of the same results
/// carry the same keys in the same order, so sorting an already sorted list
/// again leaves its sequence of keys as it was.
pub proof fn lemma_sorted_keys_unique(a: Seq<String>, b: Seq<String>, label_pos: i8, asc: bool)
    requires
        a.to_multiset() == b.to_multiset(),
        sorted_by_key(a, label_pos, asc),
        sorted_by_key(b, label_pos, asc),
    ensures
        key_seq(a, label_pos) == key_seq(b, label_pos),
    decreases a.len(),
{
    broadcast use vstd::seq_lib::group_to_multiset_ensures;
    broadcast use vstd::multiset::group_multiset_axioms;

    a.to_multiset_ensures();
    b.to_multiset_ensures();
    if a.len() == 0 {
        assert(b.len() == 0);
        assert(key_seq(a, label_pos) =~= key_seq(b, label_pos));
    } else {
        let x = a[0];
        assert(a.to_multiset().count(x) > 0);
        assert(b.contains(x));
        let j = choose|j: int| 0 <= j < b.len() && b[j] == x;
        assert(b.to_multiset().count(b[0]) > 0);
        assert(a.contains(b[0]));
        let i = choose|i: int| 0 <= i < a.len() && a[i] == b[0];
        lemma_lex_equal(sort_key(x@, label_pos), sort_key(x@, label_pos));
        lemma_lex_equal(sort_key(b[0]@, label_pos), sort_key(b[0]@, label_pos));
        if i > 0 {
            assert(result_cmp(a[0]@, a[i]@, label_pos, asc) != Ordering::Greater);
        }
        if j > 0 {
            assert(result_cmp(b[0]@, b[j]@, label_pos, asc) != Ordering::Greater);
        }
        lemma_cmp_both_ways(x@, b[0]@, label_pos, asc);
        let k = sort_key(x@, label_pos);
        assert forall|t: int| 0 <= t <= j implies sort_key(b[t]@, label_pos) == k by {
            if 0 < t && t < j {
                assert(result_cmp(b[0]@, b[t]@, label_pos, asc) != Ordering::Greater);
                assert(result_cmp(b[t]@, b[j]@, label_pos, asc) != Ordering::Greater);
                lemma_cmp_trans(b[0]@, b[t]@, b[j]@, label_pos, asc);
                lemma_cmp_trans(b[t]@, b[j]@, b[0]@, label_pos, asc);
                lemma_cmp_both_ways(b[t]@, b[0]@, label_pos, asc);
            }
        }
        let a2 = a.drop_first();
        let b2 = b.remove(j);
        assert(a2 =~= a.remove(0));
        assert(a2.to_multiset() =~= a.to_multiset().remove(x));
        assert(b2.to_multiset() =~= b.to_multiset().remove(x));
        assert(sorted_by_key(a2, label_pos, asc)) by {
            assert forall|p: int, q: int| 0 <= p < q < a2.len() implies result_cmp(
                #[trigger] a2[p]@,
                #[trigger] a2[q]@,
                label_pos,
                asc,
            ) != Ordering::Greater by {
                assert(a2[p] == a[p + 1] && a2[q] == a[q + 1]);
            }
        }
        assert(sorted_by_key(b2, label_pos, asc)) by {
            assert forall|p: int, q: int| 0 <= p < q < b2.len() implies result_cmp(
                #[trigger] b2[p]@,
                #[trigger] b2[q]@,
                label_pos,
                asc,
            ) != Ordering::Greater by {
                let pp = if p < j { p } else { p + 1 };
                let qq = if q < j { q } else { q + 1 };
                assert(b2[p] == b[pp] && b2[q] == b[qq]);
            }
        }
        lemma_sorted_keys_unique(a2, b2, label_pos, asc);
        let ka = key_seq(a, label_pos);
        let kb = key_seq(b, label_pos);
        assert forall|t: int| 0 <= t < a.len() implies ka[t] == kb[t] by {
            if t == 0 {
                assert(kb[0] == sort_key(b[0]@, label_pos));
            } else {
                assert(ka[t] == key_seq(a2, label_pos)[t - 1]);
                if t <= j {
                    assert(kb[t] == sort_key(b[t]@, label_pos));
                    assert(key_seq(b2, label_pos)[t - 1] == sort_key(b2[t - 1]@, label_pos));
                    assert(b2[t - 1] == b[t - 1]);
                } else {
                    assert(key_seq(b2, label_pos)[t - 1] == sort_key(b2[t - 1]@, label_pos));
                    assert(b2[t - 1] == b[t]);
                }
            }
        }
        assert(ka =~= kb);
    }
}

} // verus!
