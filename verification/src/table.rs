//! The reactor's waker table is a `slab::Slab`: a map from small integer keys
//! (tokens) to values, which recycles freed keys. Verified code sees the slab
//! through two names — `slab_entries`, the map of occupied keys to values, and
//! `slab_next`, the key that the next insertion will use — and through the
//! wrappers below, whose contracts state what the slab's own source shows of
//! `new`, `insert`, `try_remove`, `get` and `is_empty`.

use vstd::prelude::*;

verus! {

#[verifier::external_type_specification]
#[verifier::external_body]
#[verifier::reject_recursive_types(T)]
pub struct ExSlab<T>(slab::Slab<T>);

/// The occupied entries of the slab, as a map from key to stored value.
pub uninterp spec fn slab_entries(s: slab::Slab<usize>) -> Map<usize, usize>;

/// The key that the next insertion will occupy (the slab's vacant key).
pub uninterp spec fn slab_next(s: slab::Slab<usize>) -> usize;

/// The empty waker table.
pub open spec fn empty_table() -> Map<usize, usize> {
    Map::empty()
}

/// Relies on `Slab::new`: a freshly created slab is empty and its first
/// insertion uses key 0.
#[verifier::external_body]
pub(crate) fn slab_new() -> (s: slab::Slab<usize>)
    ensures
        slab_entries(s) == empty_table(),
        slab_next(s) == 0,
{
    slab::Slab::new()
}

/// Relies on `Slab::insert`: stores the value at the vacant key and returns
/// that key, which was not occupied before the call.
#[verifier::external_body]
pub(crate) fn slab_insert(s: &mut slab::Slab<usize>, v: usize) -> (k: usize)
    ensures
        k == slab_next(*old(s)),
        !slab_entries(*old(s)).dom().contains(k),
        slab_entries(*final(s)) == slab_entries(*old(s)).insert(k, v),
{
    s.insert(v)
}

/// Relies on `Slab::try_remove`: removes and returns the value at the key if
/// it is occupied, making the key the next vacant one; does nothing and
/// returns `None` if the key is absent.
#[verifier::external_body]
pub(crate) fn slab_try_remove(s: &mut slab::Slab<usize>, k: usize) -> (r: Option<usize>)
    ensures
        slab_entries(*old(s)).dom().contains(k) ==> r == Some(slab_entries(*old(s))[k])
            && slab_entries(*final(s)) == slab_entries(*old(s)).remove(k) && slab_next(
            *final(s),
        ) == k,
        !slab_entries(*old(s)).dom().contains(k) ==> r == None::<usize> && *final(s) == *old(s),
{
    s.try_remove(k)
}

/// Relies on `Slab::get`: returns the value stored at the key, or `None` if
/// the key is not occupied.
#[verifier::external_body]
pub(crate) fn slab_get(s: &slab::Slab<usize>, k: usize) -> (r: Option<usize>)
    ensures
        slab_entries(*s).dom().contains(k) ==> r == Some(slab_entries(*s)[k]),
        !slab_entries(*s).dom().contains(k) ==> r == None::<usize>,
{
    s.get(k).copied()
}

/// Relies on `Slab::is_empty`: true exactly when no key is occupied.
#[verifier::external_body]
pub(crate) fn slab_is_empty(s: &slab::Slab<usize>) -> (r: bool)
    ensures
        r == (slab_entries(*s).dom() =~= Set::<usize>::empty()),
{
    s.is_empty()
}

} // verus!
