use vstd::prelude::*;

verus! {

/// Two independent mutable views into one vector, at distinct indices.
/// This is the primitive combat needs to mutate attacker and defender in
/// one operation; it refuses equal indices.
///
/// Relies on slice::split_at_mut: the two halves of the split are disjoint,
/// so one element borrowed from each side gives two disjoint borrows.
#[verifier::external_body]
pub fn mut_two<'a, T>(first: usize, second: usize, items: &'a mut Vec<T>) -> (r: (
    &'a mut T,
    &'a mut T,
))
    requires
        first != second,
        first < old(items)@.len(),
        second < old(items)@.len(),
    ensures
        *r.0 == old(items)@[first as int],
        *r.1 == old(items)@[second as int],
        final(items)@ == old(items)@.update(first as int, *final(r.0)).update(
            second as int,
            *final(r.1),
        ),
{
    if first < second {
        let (a, b) = items.split_at_mut(second);
        (&mut a[first], &mut b[0])
    } else {
        let (a, b) = items.split_at_mut(first);
        (&mut b[0], &mut a[second])
    }
}

} // verus!
