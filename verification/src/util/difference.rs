//! The difference of two lists.

use vstd::prelude::*;
use vstd::std_specs::cmp::PartialEqSpec;

verus! {

/// An element of `list` equals `x`.
pub open spec fn occurs_in<T: PartialEq>(list: Seq<T>, x: T) -> bool {
    exists|j: int| 0 <= j < list.len() && (#[trigger] list[j]).eq_spec(&x)
}

/// The elements of `a`, in their order, that no element of `b` equals.
pub open spec fn absent_from<T: PartialEq>(a: Seq<T>, b: Seq<T>) -> Seq<T> {
    a.filter(|x: T| !occurs_in(b, x))
}

/// What the references of a list point to.
pub open spec fn pointees<T>(list: Seq<&T>) -> Seq<T> {
    list.map_values(|r: &T| *r)
}

/// Whether an element of `list` equals `x`.
fn occurs<T: PartialEq>(list: &[T], x: &T) -> (found: bool)
    ensures
        T::obeys_eq_spec() ==> found == occurs_in(list@, *x),
{
    let mut j: usize = 0;
    while j < list.len()
        invariant
            j <= list.len(),
            T::obeys_eq_spec() ==> forall|k: int| 0 <= k < j ==> !(#[trigger] list@[k]).eq_spec(x),
        decreases list.len() - j,
    {
        if list[j] == *x {
            return true;
        }
        j += 1;
    }
    false
}

/// The elements of `a`, in their order, that no element of `b` equals.
fn absent<'a, T: PartialEq>(a: &'a [T], b: &[T]) -> (kept: Vec<&'a T>)
    ensures
        T::obeys_eq_spec() ==> pointees(kept@) == absent_from(a@, b@),
{
    let mut kept: Vec<&'a T> = Vec::new();
    let mut i: usize = 0;
    let ghost mut n: int = 0;
    proof {
        reveal(Seq::filter);
        assert(a@.take(0) =~= Seq::<T>::empty());
        assert(pointees(kept@) =~= Seq::<T>::empty());
    }
    while i < a.len()
        invariant
            i <= a.len(),
            n == i,
            T::obeys_eq_spec() ==> pointees(kept@) == absent_from(a@.take(n), b@),
        decreases a.len() - i,
    {
        let ghost earlier = pointees(kept@);
        proof {
            reveal(Seq::filter);
            assert(a@.take(n + 1).drop_last() =~= a@.take(n));
            assert(a@.take(n + 1).last() == a@[n]);
        }
        if !occurs(b, &a[i]) {
            kept.push(&a[i]);
            assert(pointees(kept@) =~= earlier.push(a@[n]));
        }
        i += 1;
        proof {
            n = n + 1;
        }
    }
    assert(a@.take(n) =~= a@);
    kept
}

/// The difference of two lists: the elements of `a` that are not in `b`,
/// and the elements of `b` that are not in `a`, each in the order of its
/// list. An element is in a list where an element of the list equals it.
pub fn list_difference<'a, 'b, T: PartialEq>(a: &'a [T], b: &'b [T]) -> (difference: (
    Vec<&'a T>,
    Vec<&'b T>,
))
    ensures
        T::obeys_eq_spec() ==> pointees(difference.0@) == absent_from(a@, b@),
        T::obeys_eq_spec() ==> pointees(difference.1@) == absent_from(b@, a@),
{
    let missing = absent(a, b);
    let new = absent(b, a);
    (missing, new)
}

} // verus!
