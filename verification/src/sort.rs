//! A stable merge sort over any type with a total preorder.
use vstd::prelude::*;

verus! {

broadcast use {
    vstd::seq_lib::lemma_multiset_commutative,
    vstd::seq_lib::to_multiset_len,
    vstd::multiset::group_multiset_axioms,
    vstd::multiset::lemma_multiset_empty_len,
};

/// A total preorder, decided by `le`.
pub trait SortKey: Sized {
    spec fn key_le(self, other: Self) -> bool;

    proof fn lemma_key_le_total(a: Self, b: Self)
        ensures
            a.key_le(b) || b.key_le(a);

    proof fn lemma_key_le_transitive(a: Self, b: Self, c: Self)
        requires
            a.key_le(b),
            b.key_le(c),
        ensures
            a.key_le(c);

    fn le(&self, other: &Self) -> (r: bool)
        ensures
            r == self.key_le(*other);
}

/// Every element is ordered before every later one.
pub open spec fn sorted<T: SortKey>(s: Seq<T>) -> bool {
    forall|i: int, j: int| 0 <= i < j < s.len() ==> #[trigger] s[i].key_le(#[trigger] s[j])
}

spec fn sorted_down<T: SortKey>(s: Seq<T>) -> bool {
    forall|i: int, j: int| 0 <= i < j < s.len() ==> #[trigger] s[j].key_le(#[trigger] s[i])
}

pub(crate) fn reversed<T>(v: Vec<T>) -> (r: Vec<T>)
    ensures
        r@ == v@.reverse(),
{
    let mut v = v;
    let mut r: Vec<T> = Vec::new();
    let ghost orig = v@;
    while v.len() > 0
        invariant
            v@ == orig.take(v@.len() as int),
            r@ == orig.reverse().take(orig.len() - v@.len()),
            v@.len() <= orig.len(),
        decreases v@.len(),
    {
        let ghost n = v@.len();
        let x = v.pop().unwrap();
        r.push(x);
        assert(v@ =~= orig.take(v@.len() as int));
        assert(r@ =~= orig.reverse().take(orig.len() - v@.len()));
    }
    assert(r@ =~= orig.reverse());
    r
}

proof fn lemma_reverse_sorted<T: SortKey>(s: Seq<T>)
    requires
        sorted(s),
    ensures
        sorted_down(s.reverse()),
{
    assert forall|i: int, j: int| 0 <= i < j < s.reverse().len() implies #[trigger] s.reverse()[j].key_le(
        #[trigger] s.reverse()[i],
    ) by {
        assert(s.reverse()[j] == s[s.len() - 1 - j]);
        assert(s.reverse()[i] == s[s.len() - 1 - i]);
    }
}

proof fn lemma_reverse_multiset<T>(s: Seq<T>)
    ensures
        s.reverse().to_multiset() == s.to_multiset(),
{
    s.lemma_reverse_to_multiset();
}

proof fn lemma_pop_multiset<T>(s: Seq<T>)
    requires
        s.len() > 0,
    ensures
        s.to_multiset() == s.drop_last().to_multiset().insert(s.last()),
{
    assert(s == s.drop_last().push(s.last()));
    vstd::seq_lib::to_multiset_build(s.drop_last(), s.last());
}

/// Whether two elements have the same key (each ordered before the other).
pub open spec fn same_key<T: SortKey>(a: T, b: T) -> bool {
    a.key_le(b) && b.key_le(a)
}

/// The elements of `s` with the same key as `x`, in their order in `s`. A
/// sort that keeps every such run as it was is stable.
pub open spec fn key_run<T: SortKey>(s: Seq<T>, x: T) -> Seq<T>
    decreases s.len(),
{
    if s.len() == 0 {
        Seq::empty()
    } else {
        let r = key_run(s.drop_last(), x);
        if same_key(s.last(), x) { r.push(s.last()) } else { r }
    }
}

proof fn lemma_key_run_add<T: SortKey>(a: Seq<T>, b: Seq<T>, x: T)
    ensures
        key_run(a + b, x) == key_run(a, x) + key_run(b, x),
    decreases b.len(),
{
    if b.len() == 0 {
        assert(a + b =~= a);
        assert(key_run(a, x) + key_run(b, x) =~= key_run(a, x));
    } else {
        lemma_key_run_add(a, b.drop_last(), x);
        assert((a + b).drop_last() =~= a + b.drop_last());
        assert((a + b).last() == b.last());
        if same_key(b.last(), x) {
            assert(key_run(a, x) + key_run(b.drop_last(), x).push(b.last()) =~= (key_run(a, x) + key_run(b.drop_last(), x)).push(b.last()));
        }
    }
}

proof fn lemma_key_run_single<T: SortKey>(e: T, x: T)
    ensures
        key_run(seq![e], x) == (if same_key(e, x) { seq![e] } else { Seq::<T>::empty() }),
{
    let d = seq![e].drop_last();
    assert(d.len() == 0);
    assert(key_run(d, x) =~= Seq::<T>::empty());
    assert(seq![e].last() == e);
    assert(Seq::<T>::empty().push(e) =~= seq![e]);
}

proof fn lemma_key_run_none<T: SortKey>(s: Seq<T>, x: T)
    requires
        forall|k: int| 0 <= k < s.len() ==> !same_key(#[trigger] s[k], x),
    ensures
        key_run(s, x) == Seq::<T>::empty(),
    decreases s.len(),
{
    if s.len() > 0 {
        assert forall|k: int| 0 <= k < s.drop_last().len() implies !same_key(#[trigger] s.drop_last()[k], x) by {
            assert(s.drop_last()[k] == s[k]);
        }
        lemma_key_run_none(s.drop_last(), x);
        assert(!same_key(s[s.len() - 1], x));
    }
}

proof fn lemma_reverse_push<T>(s: Seq<T>, t: T)
    ensures
        s.push(t).reverse() == seq![t] + s.reverse(),
{
    assert(s.push(t).reverse() =~= seq![t] + s.reverse());
}

/// Merges two sorted vectors into one sorted vector holding both.
fn merge<T: SortKey>(a: Vec<T>, b: Vec<T>) -> (out: Vec<T>)
    requires
        sorted(a@),
        sorted(b@),
    ensures
        sorted(out@),
        out@.to_multiset() == a@.to_multiset().add(b@.to_multiset()),
        forall|x: T| #[trigger] key_run(out@, x) == key_run(a@, x) + key_run(b@, x),
{
    let ghost a0 = a@;
    let ghost b0 = b@;
    proof {
        lemma_reverse_sorted(a@);
        lemma_reverse_sorted(b@);
        lemma_reverse_multiset(a@);
        lemma_reverse_multiset(b@);
    }
    let mut ra = reversed(a);
    let mut rb = reversed(b);
    let mut out: Vec<T> = Vec::new();
    let ghost total = ra@.to_multiset().add(rb@.to_multiset());
    assert(out@.to_multiset().len() == 0);
    assert(out@.to_multiset().add(ra@.to_multiset()) =~= ra@.to_multiset());
    assert(ra@.reverse() =~= a0);
    assert(rb@.reverse() =~= b0);
    assert forall|x: T| #[trigger] key_run(out@, x) + key_run(ra@.reverse(), x) + key_run(rb@.reverse(), x)
        == key_run(a0, x) + key_run(b0, x) by {
        assert(key_run(out@, x) =~= Seq::<T>::empty());
        assert(Seq::<T>::empty() + key_run(a0, x) =~= key_run(a0, x));
    }
    while ra.len() > 0 || rb.len() > 0
        invariant
            sorted(out@),
            sorted_down(ra@),
            sorted_down(rb@),
            forall|i: int, k: int| 0 <= i < out@.len() && 0 <= k < ra@.len() ==> #[trigger] out@[i].key_le(#[trigger] ra@[k]),
            forall|i: int, k: int| 0 <= i < out@.len() && 0 <= k < rb@.len() ==> #[trigger] out@[i].key_le(#[trigger] rb@[k]),
            out@.to_multiset().add(ra@.to_multiset()).add(rb@.to_multiset()) == total,
            forall|x: T| #[trigger] key_run(out@, x) + key_run(ra@.reverse(), x) + key_run(rb@.reverse(), x)
                == key_run(a0, x) + key_run(b0, x),
        decreases ra@.len() + rb@.len(),
    {
        let take_a = if ra.len() == 0 {
            false
        } else if rb.len() == 0 {
            true
        } else {
            ra[ra.len() - 1].le(&rb[rb.len() - 1])
        };
        let ghost old_out = out@;
        let ghost old_ra = ra@;
        let ghost old_rb = rb@;
        if take_a {
            let x = ra.pop().unwrap();
            proof {
                lemma_pop_multiset(old_ra);
                assert forall|k: int| 0 <= k < ra@.len() implies #[trigger] x.key_le(ra@[k]) by {
                    assert(old_ra[k] == ra@[k]);
                }
                assert forall|k: int| 0 <= k < rb@.len() implies #[trigger] x.key_le(rb@[k]) by {
                    let top = rb@[rb@.len() - 1];
                    if k < rb@.len() - 1 {
                        T::lemma_key_le_transitive(x, top, rb@[k]);
                    }
                }
            }
            out.push(x);
        } else {
            let x = rb.pop().unwrap();
            proof {
                lemma_pop_multiset(old_rb);
                assert forall|k: int| 0 <= k < rb@.len() implies #[trigger] x.key_le(rb@[k]) by {
                    assert(old_rb[k] == rb@[k]);
                }
                assert forall|k: int| 0 <= k < ra@.len() implies #[trigger] x.key_le(ra@[k]) by {
                    let top = ra@[ra@.len() - 1];
                    T::lemma_key_le_total(top, x);
                    if k < ra@.len() - 1 {
                        T::lemma_key_le_transitive(x, top, ra@[k]);
                    }
                }
            }
            out.push(x);
        }
        proof {
            let x = out@.last();
            assert(out@ == old_out.push(x));
            vstd::seq_lib::to_multiset_build(old_out, x);
            assert forall|i: int, j: int| 0 <= i < j < out@.len() implies #[trigger] out@[i].key_le(#[trigger] out@[j]) by {
                if j == out@.len() - 1 {
                    if take_a {
                        assert(old_out[i].key_le(old_ra[old_ra.len() - 1]));
                    } else {
                        assert(old_out[i].key_le(old_rb[old_rb.len() - 1]));
                    }
                } else {
                    assert(old_out[i].key_le(old_out[j]));
                }
            }
            assert forall|i: int, k: int| 0 <= i < out@.len() && 0 <= k < ra@.len() implies #[trigger] out@[i].key_le(#[trigger] ra@[k]) by {
                if i < out@.len() - 1 {
                    if take_a {
                        assert(old_out[i].key_le(old_ra[k]));
                    } else {
                        assert(old_out[i].key_le(old_ra[k]));
                    }
                }
            }
            assert forall|i: int, k: int| 0 <= i < out@.len() && 0 <= k < rb@.len() implies #[trigger] out@[i].key_le(#[trigger] rb@[k]) by {
                if i < out@.len() - 1 {
                    if take_a {
                        assert(old_out[i].key_le(old_rb[k]));
                    } else {
                        assert(old_out[i].key_le(old_rb[k]));
                    }
                }
            }
            assert(out@.to_multiset().add(ra@.to_multiset()).add(rb@.to_multiset()) =~= total);
            assert forall|y: T| #[trigger] key_run(out@, y) + key_run(ra@.reverse(), y) + key_run(rb@.reverse(), y)
                == key_run(a0, y) + key_run(b0, y) by {
                let old_sum = key_run(old_out, y) + key_run(old_ra.reverse(), y) + key_run(old_rb.reverse(), y);
                assert(old_sum == key_run(a0, y) + key_run(b0, y));
                assert(out@.drop_last() == old_out);
                lemma_key_run_single(x, y);
                if take_a {
                    assert(old_ra == ra@.push(x));
                    lemma_reverse_push(ra@, x);
                    lemma_key_run_add(seq![x], ra@.reverse(), y);
                    assert(rb@ == old_rb);
                    assert(key_run(out@, y) + key_run(ra@.reverse(), y) =~= key_run(old_out, y) + key_run(old_ra.reverse(), y));
                } else {
                    assert(old_rb == rb@.push(x));
                    lemma_reverse_push(rb@, x);
                    lemma_key_run_add(seq![x], rb@.reverse(), y);
                    assert(ra@ == old_ra);
                    if same_key(x, y) && ra@.len() > 0 {
                        let top = ra@[ra@.len() - 1];
                        assert(!top.key_le(x));
                        assert forall|k: int| 0 <= k < ra@.reverse().len() implies !same_key(#[trigger] ra@.reverse()[k], y) by {
                            let z = ra@.reverse()[k];
                            let j = ra@.len() - 1 - k;
                            assert(z == ra@[j]);
                            if same_key(z, y) {
                                T::lemma_key_le_transitive(z, y, x);
                                if j < ra@.len() - 1 {
                                    assert(top.key_le(ra@[j]));
                                    T::lemma_key_le_transitive(top, z, x);
                                }
                            }
                        }
                        lemma_key_run_none(ra@.reverse(), y);
                    } else if ra@.len() == 0 {
                        assert(ra@.reverse().len() == 0);
                        assert(key_run(ra@.reverse(), y) =~= Seq::<T>::empty());
                    }
                    if same_key(x, y) {
                        assert(key_run(ra@.reverse(), y) =~= Seq::<T>::empty());
                        assert(key_run(out@, y) + key_run(ra@.reverse(), y) + key_run(rb@.reverse(), y)
                            =~= key_run(old_out, y) + key_run(old_ra.reverse(), y) + key_run(old_rb.reverse(), y));
                    } else {
                        assert(key_run(out@, y) + key_run(ra@.reverse(), y) + key_run(rb@.reverse(), y)
                            =~= key_run(old_out, y) + key_run(old_ra.reverse(), y) + key_run(old_rb.reverse(), y));
                    }
                }
            }
        }
    }
    proof {
        assert(ra@.to_multiset().len() == 0);
        assert(rb@.to_multiset().len() == 0);
        assert(out@.to_multiset().add(ra@.to_multiset()).add(rb@.to_multiset()) =~= out@.to_multiset());
        assert forall|x: T| #[trigger] key_run(out@, x) == key_run(a0, x) + key_run(b0, x) by {
            assert(ra@.reverse().len() == 0);
            assert(rb@.reverse().len() == 0);
            assert(key_run(ra@.reverse(), x) =~= Seq::<T>::empty());
            assert(key_run(rb@.reverse(), x) =~= Seq::<T>::empty());
            assert(key_run(out@, x) + key_run(ra@.reverse(), x) + key_run(rb@.reverse(), x) =~= key_run(out@, x));
        }
    }
    out
}

/// `v` in sorted order: a permutation of `v` that is sorted, and stable:
/// elements with the same key keep their order.
pub fn merge_sort<T: SortKey>(v: Vec<T>) -> (r: Vec<T>)
    ensures
        sorted(r@),
        r@.to_multiset() == v@.to_multiset(),
        forall|x: T| #[trigger] key_run(r@, x) == key_run(v@, x),
    decreases v@.len(),
{
    let mut v = v;
    let n = v.len();
    if n <= 1 {
        return v;
    }
    let ghost orig = v@;
    let right = v.split_off(n / 2);
    proof {
        assert(orig == v@ + right@);
    }
    let ghost left = v@;
    let ghost rest = right@;
    let l = merge_sort(v);
    let r = merge_sort(right);
    let out = merge(l, r);
    proof {
        assert forall|x: T| #[trigger] key_run(out@, x) == key_run(orig, x) by {
            lemma_key_run_add(left, rest, x);
        }
    }
    out
}

} // verus!
