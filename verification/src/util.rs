//! Assorted helpers shared across the crate.

use vstd::prelude::*;

verus! {

/// Relies on `core::mem::replace`: moves `src` into `dest` and returns the
/// value `dest` held before.
pub assume_specification<T>[ core::mem::replace ](dest: &mut T, src: T) -> (r: T)
    ensures
        r == *old(dest),
        *final(dest) == src,
;

#[verifier::external_type_specification]
#[verifier::external_body]
#[verifier::reject_recursive_types(T)]
pub struct ExRefCell<T: ?Sized>(core::cell::RefCell<T>);

/// Relies on `Clone for Rc`: a clone of the handle refers to the same
/// value.
#[verifier::external_body]
fn rc_clone<T>(v: &std::rc::Rc<T>) -> (r: std::rc::Rc<T>)
    ensures
        r == *v,
{
    v.clone()
}

/// Wraps a shared, run-time borrow-checked cell, so that several holders
/// can observe one value and mutation stays checked at run time.
#[derive(Debug)]
#[verifier::reject_recursive_types(T)]
pub struct Wrapped<T>(pub std::rc::Rc<core::cell::RefCell<T>>);

impl<T> Wrapped<T> {
    /// Takes shared ownership of the cell.
    pub fn wrap(state: std::rc::Rc<core::cell::RefCell<T>>) -> (r: Wrapped<T>)
        ensures
            r.0 == state,
    {
        Wrapped(state)
    }

    /// Extracts the shared reference to the data.
    pub fn unwrap(self) -> (r: std::rc::Rc<core::cell::RefCell<T>>)
        ensures
            r == self.0,
    {
        self.0
    }

    /// Creates a new shared reference to the same data.
    pub fn clone_ref(&self) -> (r: std::rc::Rc<core::cell::RefCell<T>>)
        ensures
            r == self.0,
    {
        rc_clone(&self.0)
    }
}

impl<T> Clone for Wrapped<T> {
    fn clone(&self) -> (r: Wrapped<T>) {
        Wrapped(self.clone_ref())
    }
}

/// A copy of the value a shared holder refers to.
pub trait CloneOwned {
    type Owned;

    fn clone_owned(&self) -> Self::Owned;
}

impl<T: Clone> CloneOwned for Wrapped<T> {
    type Owned = T;

    fn clone_owned(&self) -> T {
        cell_clone_value(&self.0)
    }
}

/// Relies on `RefCell::borrow` and `Clone::clone`: a copy of the value
/// the cell currently holds.  The embedder keeps the single-writer rule:
/// a call while a writer holds the cell is a fail-fast fault there.
#[verifier::external_body]
fn cell_clone_value<T: Clone>(cell: &core::cell::RefCell<T>) -> T {
    cell.borrow().clone()
}

/// Rebuilds a hash map, sending every entry through `f`.  Entries whose
/// images collide on the new key overwrite one another in traversal
/// order.
#[verifier::loop_isolation(false)]
pub fn hash_map_map<K: Clone, V: Clone, F, K1: core::cmp::Eq + core::hash::Hash, V1>(
    map: std::collections::HashMap<K, V>,
    f: F,
) -> std::collections::HashMap<K1, V1> where F: Fn(K, V) -> (K1, V1)
    requires
        vstd::std_specs::hash::obeys_key_model::<K>(),
        vstd::std_specs::hash::builds_valid_hashers::<std::collections::hash_map::RandomState>(),
        forall|k: K, v: V| #[trigger] f.requires((k, v)),
{
    let mut out: std::collections::HashMap<K1, V1> = std::collections::HashMap::new();
    for kv in it: map.iter() {
        let (k1, v1) = f(kv.0.clone(), kv.1.clone());
        out.insert(k1, v1);
    }
    out
}

} // verus!
