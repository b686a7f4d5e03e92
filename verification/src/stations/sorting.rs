//! Sorting by an order of one's own.

use vstd::multiset::Multiset;
use vstd::prelude::*;

verus! {

/// Values with a total order of their own.
pub trait Ranked: Sized {
    /// `a` may stand before `b`.
    spec fn may_precede(a: Self, b: Self) -> bool;

    proof fn is_total(a: Self, b: Self)
        ensures
            Self::may_precede(a, b) || Self::may_precede(b, a),
    ;

    proof fn is_transitive(a: Self, b: Self, c: Self)
        requires
            Self::may_precede(a, b),
            Self::may_precede(b, c),
        ensures
            Self::may_precede(a, c),
    ;

    fn precedes(&self, other: &Self) -> (r: bool)
        ensures
            r == Self::may_precede(*self, *other),
    ;
}

/// Each may stand before all that follow.
pub open spec fn is_sorted<T: Ranked>(s: Seq<T>) -> bool {
    forall|i: int, j: int|
        0 <= i < j < s.len() ==> T::may_precede(#[trigger] s[i], #[trigger] s[j])
}

/// Puts `x` where it belongs in the sorted `out`, after those it is equal to.
fn insert_sorted<T: Ranked>(out: &mut Vec<T>, x: T)
    requires
        is_sorted(old(out)@),
    ensures
        is_sorted(final(out)@),
        final(out)@.to_multiset() == old(out)@.to_multiset().insert(x),
        final(out)@.len() == old(out)@.len() + 1,
{
    let ghost before = out@;
    let mut i: usize = out.len();
    while i > 0 && !out[i - 1].precedes(&x)
        invariant
            i <= out@.len(),
            out@ == before,
            forall|k: int| i <= k < before.len() ==> !T::may_precede(#[trigger] before[k], x),
        decreases i,
    {
        i = i - 1;
    }
    out.insert(i, x);
    proof {
        let after = out@;
        assert(after =~= before.insert(i as int, x));
        broadcast use vstd::seq_lib::to_multiset_insert;

        assert forall|a: int, b: int| 0 <= a < b < after.len() implies T::may_precede(
            #[trigger] after[a],
            #[trigger] after[b],
        ) by {
            if a < i {
                if b == i {
                    if a < i - 1 {
                        assert(T::may_precede(before[a], before[i - 1]));
                        T::is_transitive(before[a], before[i - 1], x);
                    }
                } else if b < i {
                    assert(after[a] == before[a] && after[b] == before[b]);
                } else {
                    assert(after[a] == before[a] && after[b] == before[b - 1]);
                }
            } else if a == i {
                assert(after[b] == before[b - 1]);
                assert(!T::may_precede(before[b - 1], x));
                T::is_total(before[b - 1], x);
            } else {
                assert(after[a] == before[a - 1] && after[b] == before[b - 1]);
            }
        }
    }
}

proof fn nothing_in_nothing<T>(s: Seq<T>)
    requires
        s.len() == 0,
    ensures
        s.to_multiset() == Multiset::<T>::empty(),
{
    s.to_multiset_ensures();
    vstd::multiset::lemma_multiset_empty_len(s.to_multiset());
}

/// The values of `v`, in order.
pub fn sort<T: Ranked>(v: Vec<T>) -> (out: Vec<T>)
    ensures
        is_sorted(out@),
        out@.to_multiset() == v@.to_multiset(),
        out@.len() == v@.len(),
{
    let ghost all = v@.to_multiset();
    let ghost n = v@.len();
    let mut v = v;
    let mut out: Vec<T> = Vec::new();
    proof {
        nothing_in_nothing::<T>(out@);
        assert(out@.to_multiset().add(v@.to_multiset()) =~= all);
    }
    while v.len() > 0
        invariant
            is_sorted(out@),
            out@.to_multiset().add(v@.to_multiset()) == all,
            out@.len() + v@.len() == n,
        decreases v@.len(),
    {
        let ghost rest = v@;
        match v.pop() {
            Some(x) => {
                let ghost done = out@;
                insert_sorted(&mut out, x);
                proof {
                    broadcast use vstd::seq_lib::to_multiset_build;

                    assert(rest =~= v@.push(x));
                    assert(out@.to_multiset().add(v@.to_multiset()) =~= done.to_multiset().add(
                        rest.to_multiset(),
                    ));
                }
            },
            None => {},
        }
    }
    proof {
        nothing_in_nothing::<T>(v@);
        assert(out@.to_multiset().add(v@.to_multiset()) =~= out@.to_multiset());
    }
    out
}

} // verus!
