//! Fixed-width rows.
//!
//! Row tuples and column-name tuples are ordered sequences whose length must equal a declared
//! column count. This module provides the checks and the reordering used when a caller lists
//! columns in an order different from a table's canonical order.

use vstd::prelude::*;

verus! {

/// Whether `targets` maps the positions `0..targets.len()` one-to-one onto themselves.
pub open spec fn is_permutation(targets: Seq<usize>) -> bool {
    &&& forall|i: int| 0 <= i < targets.len() ==> (#[trigger] targets[i]) < targets.len()
    &&& forall|i: int, j: int|
        0 <= i < j < targets.len() ==> (#[trigger] targets[i]) != (#[trigger] targets[j])
}

/// Whether `out` holds the elements of `values`, each moved to its target position.
pub open spec fn is_permuted<T>(values: Seq<T>, targets: Seq<usize>, out: Seq<T>) -> bool {
    &&& out.len() == values.len()
    &&& forall|i: int| 0 <= i < values.len() ==> out[(#[trigger] targets[i]) as int] == values[i]
}

/// Check whether `targets` is a permutation of `0..targets.len()`.
pub fn check_permutation(targets: &Vec<usize>) -> (ok: bool)
    ensures
        ok == is_permutation(targets@),
{
    let n = targets.len();
    let mut seen: Vec<bool> = Vec::new();
    let mut k: usize = 0;
    while k < n
        invariant
            k <= n,
            seen.len() == k,
            forall|j: int| 0 <= j < k ==> !seen[j],
        decreases n - k,
    {
        seen.push(false);
        k += 1;
    }
    let mut i: usize = 0;
    while i < n
        invariant
            n == targets.len(),
            seen.len() == n,
            i <= n,
            forall|a: int| 0 <= a < i ==> (#[trigger] targets[a]) < n,
            forall|a: int, b: int| 0 <= a < b < i ==> (#[trigger] targets[a]) != (#[trigger] targets[b]),
            forall|t: int| 0 <= t < n ==> (#[trigger] seen[t] <==> exists|a: int| 0 <= a < i && targets[a] == t),
        decreases n - i,
    {
        let t = targets[i];
        if t >= n {
            return false;
        }
        if seen[t] {
            proof {
                let a = choose|a: int| 0 <= a < i && targets[a] == t;
                assert(targets[a] == targets[i as int]);
            }
            return false;
        }
        let ghost before = seen@;
        seen.set(t, true);
        proof {
            assert forall|u: int| 0 <= u < n implies (#[trigger] seen[u] <==> exists|a: int|
                0 <= a < i + 1 && targets[a] == u) by {
                if u == t {
                    assert(targets[i as int] == u);
                } else {
                    if before[u] {
                        let a = choose|a: int| 0 <= a < i && targets[a] == u;
                        assert(0 <= a < i + 1 && targets[a] == u);
                    }
                }
            }
        }
        i += 1;
    }
    true
}

/// Reorder `values` in place so that the element at position `i` moves to position
/// `targets[i]`.
pub fn permute<T>(values: &mut Vec<T>, targets: &Vec<usize>)
    requires
        old(values).len() == targets.len(),
        is_permutation(targets@),
    ensures
        is_permuted(old(values)@, targets@, final(values)@),
{
    let n = values.len();
    let ghost initial = values@;
    // Move every element into the slot of its target position.
    let mut slots: Vec<Option<T>> = Vec::new();
    let mut k: usize = 0;
    while k < n
        invariant
            k <= n,
            slots.len() == k,
            forall|j: int| 0 <= j < k ==> slots[j] is None,
        decreases n - k,
    {
        slots.push(None);
        k += 1;
    }
    let mut i: usize = n;
    while i > 0
        invariant
            i <= n,
            n == targets.len(),
            values@ == initial.take(i as int),
            initial.len() == n,
            slots.len() == n,
            is_permutation(targets@),
            forall|a: int| i <= a < n ==> slots[(#[trigger] targets[a]) as int] == Some(initial[a]),
            forall|t: int|
                0 <= t < n ==> ((#[trigger] slots[t]) is None <==> forall|a: int|
                    i <= a < n ==> targets[a] != t),
        decreases i,
    {
        i -= 1;
        let v = values.pop().unwrap();
        let t = targets[i];
        let ghost before = slots@;
        slots.set(t, Some(v));
        proof {
            assert(values@ =~= initial.take(i as int));
            assert forall|a: int| i <= a < n implies slots[(#[trigger] targets[a]) as int] == Some(
                initial[a],
            ) by {
                if a != i {
                    assert(targets[a] != targets[i as int]);
                }
            }
            assert forall|u: int| 0 <= u < n implies ((#[trigger] slots[u]) is None <==> forall|
                a: int,
            |
                i <= a < n ==> targets[a] != u) by {
                if u == t {
                    assert(targets[i as int] == u);
                } else {
                    assert(slots[u] == before[u]);
                }
            }
        }
    }
    proof {
        assert forall|t: int| 0 <= t < n implies (#[trigger] slots[t]) is Some by {
            lemma_permutation_onto(targets@, t);
        }
    }
    // Unwrap the slots, last to first, then restore the order.
    let ghost filled = slots@;
    let mut reversed: Vec<T> = Vec::new();
    let mut j: usize = n;
    while j > 0
        invariant
            j <= n,
            filled.len() == n,
            slots@ == filled.take(j as int),
            reversed.len() == n - j,
            forall|t: int| 0 <= t < n ==> (#[trigger] filled[t]) is Some,
            forall|b: int| 0 <= b < n - j ==> Some(#[trigger] reversed[b]) == filled[n - 1 - b],
        decreases j,
    {
        j -= 1;
        let slot = slots.pop().unwrap();
        proof {
            assert(slots@ =~= filled.take(j as int));
            assert(slot == filled[j as int]);
        }
        reversed.push(slot.unwrap());
    }
    let ghost rev = reversed@;
    let mut m: usize = n;
    while m > 0
        invariant
            m <= n,
            rev.len() == n,
            reversed@ == rev.take(m as int),
            values.len() == n - m,
            forall|b: int| 0 <= b < n - m ==> (#[trigger] values[b]) == rev[n - 1 - b],
        decreases m,
    {
        m -= 1;
        let v = reversed.pop().unwrap();
        proof {
            assert(reversed@ =~= rev.take(m as int));
        }
        values.push(v);
    }
    proof {
        assert forall|a: int| 0 <= a < n implies values[(#[trigger] targets[a]) as int]
            == initial[a] by {
            let t = targets[a] as int;
            assert(values[t] == rev[n - 1 - t]);
            assert(Some(rev[n - 1 - t]) == filled[n - 1 - (n - 1 - t)]);
        }
    }
}

/// Every position is the target of some element of a permutation.
pub proof fn lemma_permutation_onto(targets: Seq<usize>, t: int)
    requires
        is_permutation(targets),
        0 <= t < targets.len(),
    ensures
        exists|a: int| 0 <= a < targets.len() && targets[a] == t,
{
    let positions = targets.map_values(|x: usize| x as int);
    assert forall|a: int, b: int| 0 <= a < b < positions.len() implies (#[trigger] positions[a]) != (
    #[trigger] positions[b]) by {
        assert(targets[a] != targets[b]);
    }
    lemma_injective_onto(positions, t);
    let a = choose|a: int| 0 <= a < positions.len() && positions[a] == t;
    assert(targets[a] == t);
}

/// A one-to-one map of the positions `0..targets.len()` into themselves reaches every position.
pub proof fn lemma_injective_onto(targets: Seq<int>, t: int)
    requires
        forall|i: int| 0 <= i < targets.len() ==> 0 <= (#[trigger] targets[i]) < targets.len(),
        forall|i: int, j: int|
            0 <= i < j < targets.len() ==> (#[trigger] targets[i]) != (#[trigger] targets[j]),
        0 <= t < targets.len(),
    ensures
        exists|a: int| 0 <= a < targets.len() && targets[a] == t,
{
    let n = targets.len();
    let image = Set::new(|u: int| exists|a: int| 0 <= a < n && targets[a] == u);
    let domain = Set::new(|a: int| 0 <= a < n);
    assert(domain =~= vstd::set_lib::set_int_range(0, n as int));
    vstd::set_lib::lemma_int_range(0, n as int);
    if !image.contains(t) {
        let smaller = domain.remove(t);
        assert forall|a: int| domain.contains(a) implies smaller.contains(targets[a]) by {
            assert(image.contains(targets[a]));
        }
        assert forall|a: int, b: int|
            domain.contains(a) && domain.contains(b) && targets[a] == targets[b] implies a == b by {
            if a < b {
                assert(targets[a] != targets[b]);
            } else if b < a {
                assert(targets[b] != targets[a]);
            }
        }
        lemma_injective_into_smaller(targets, domain, smaller);
    }
}

/// An injective map between finite sets cannot shrink its domain.
proof fn lemma_injective_into_smaller(targets: Seq<int>, domain: Set<int>, codomain: Set<int>)
    requires
        domain.finite(),
        codomain.finite(),
        forall|a: int| domain.contains(a) ==> 0 <= a < targets.len(),
        forall|a: int| domain.contains(a) ==> codomain.contains(targets[a]),
        forall|a: int, b: int|
            domain.contains(a) && domain.contains(b) && targets[a] == targets[b] ==> a == b,
    ensures
        domain.len() <= codomain.len(),
    decreases domain.len(),
{
    if domain.len() == 0 {
    } else {
        let a = domain.choose();
        let t = targets[a];
        lemma_injective_into_smaller(targets, domain.remove(a), codomain.remove(t));
    }
}

} // verus!
