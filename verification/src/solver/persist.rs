//! Trusted bindings to the persistent collections of the `im` crate.
//!
//! Solutions are immutable snapshots: cloning is cheap through structural
//! sharing, and a prune builds a new snapshot that shares all unchanged
//! entries with its parent. The `im` crate supplies the persistent hash
//! set, ordered set and hash map that make this possible. Verus does not
//! read `im`, so this module declares the collection types and gives each
//! operation the solver calls a contract over an abstract model of the
//! collection's contents. Everything else in the crate is verified
//! against these contracts.

use vstd::prelude::*;

use crate::solver::solution::Domain;
use crate::solver::value::StandardValue;

verus! {

#[verifier::external_type_specification]
#[verifier::external_body]
#[verifier::reject_recursive_types(A)]
#[verifier::reject_recursive_types(S)]
pub struct ExImHashSet<A, S>(im::HashSet<A, S>);

#[verifier::external_type_specification]
#[verifier::external_body]
#[verifier::reject_recursive_types(K)]
#[verifier::reject_recursive_types(V)]
#[verifier::reject_recursive_types(S)]
pub struct ExImHashMap<K, V, S>(im::HashMap<K, V, S>);

#[verifier::external_type_specification]
#[verifier::external_body]
#[verifier::reject_recursive_types(A)]
pub struct ExImOrdSet<A>(im::OrdSet<A>);

/// The set of values a persistent hash set holds.
pub uninterp spec fn hash_set_model(s: im::HashSet<StandardValue>) -> Set<StandardValue>;

/// The set of values a persistent ordered set holds.
pub uninterp spec fn ord_set_model(s: im::OrdSet<StandardValue>) -> Set<StandardValue>;

/// The map from variable to domain a persistent hash map holds.
pub uninterp spec fn domain_map_model(m: im::HashMap<u32, Domain>) -> Map<u32, Domain>;

/// The map from variable to metadata tag a persistent hash map holds.
pub uninterp spec fn meta_map_model(m: im::HashMap<u32, u32>) -> Map<u32, u32>;

/// Relies on im::HashSet::new: the empty set.
#[verifier::external_body]
pub(crate) fn hs_new() -> (r: im::HashSet<StandardValue>)
    ensures
        hash_set_model(r) == Set::<StandardValue>::empty(),
{
    im::HashSet::new()
}

/// Relies on im::HashSet::insert: the set gains the given value; an
/// already-present equal value is replaced.
#[verifier::external_body]
pub(crate) fn hs_insert(s: &mut im::HashSet<StandardValue>, v: StandardValue)
    ensures
        hash_set_model(*final(s)) == hash_set_model(*old(s)).insert(v),
{
    s.insert(v);
}

/// Relies on im::HashSet::contains: membership by equality.
#[verifier::external_body]
pub(crate) fn hs_contains(s: &im::HashSet<StandardValue>, v: &StandardValue) -> (r: bool)
    ensures
        r == hash_set_model(*s).contains(*v),
{
    s.contains(v)
}

/// Relies on im::HashSet::len: the number of values held.
#[verifier::external_body]
pub(crate) fn hs_len(s: &im::HashSet<StandardValue>) -> (r: usize)
    ensures
        r == hash_set_model(*s).len(),
{
    s.len()
}

/// Relies on im::HashSet::iter: every value exactly once, in an
/// unspecified order.
#[verifier::external_body]
pub(crate) fn hs_to_vec(s: &im::HashSet<StandardValue>) -> (r: Vec<StandardValue>)
    ensures
        r@.no_duplicates(),
        r@.to_set() == hash_set_model(*s),
{
    s.iter().cloned().collect()
}

/// Relies on im::HashSet::clone: a structurally shared copy with the
/// same contents.
#[verifier::external_body]
pub(crate) fn hs_clone(s: &im::HashSet<StandardValue>) -> (r: im::HashSet<StandardValue>)
    ensures
        hash_set_model(r) == hash_set_model(*s),
{
    s.clone()
}

/// Relies on im::OrdSet::new: the empty set.
#[verifier::external_body]
pub(crate) fn os_new() -> (r: im::OrdSet<StandardValue>)
    ensures
        ord_set_model(r) == Set::<StandardValue>::empty(),
{
    im::OrdSet::new()
}

/// Relies on im::OrdSet::insert: the set gains the given value; an
/// already-present equal value is replaced.
#[verifier::external_body]
pub(crate) fn os_insert(s: &mut im::OrdSet<StandardValue>, v: StandardValue)
    ensures
        ord_set_model(*final(s)) == ord_set_model(*old(s)).insert(v),
{
    s.insert(v);
}

/// Relies on im::OrdSet::contains: membership by equality.
#[verifier::external_body]
pub(crate) fn os_contains(s: &im::OrdSet<StandardValue>, v: &StandardValue) -> (r: bool)
    ensures
        r == ord_set_model(*s).contains(*v),
{
    s.contains(v)
}

/// Relies on im::OrdSet::len: the number of values held.
#[verifier::external_body]
pub(crate) fn os_len(s: &im::OrdSet<StandardValue>) -> (r: usize)
    ensures
        r == ord_set_model(*s).len(),
{
    s.len()
}

/// Relies on im::OrdSet::iter: every value exactly once. The order the
/// iterator follows is not relied upon.
#[verifier::external_body]
pub(crate) fn os_to_vec(s: &im::OrdSet<StandardValue>) -> (r: Vec<StandardValue>)
    ensures
        r@.no_duplicates(),
        r@.to_set() == ord_set_model(*s),
{
    s.iter().cloned().collect()
}

/// Relies on im::OrdSet::clone: a structurally shared copy with the
/// same contents.
#[verifier::external_body]
pub(crate) fn os_clone(s: &im::OrdSet<StandardValue>) -> (r: im::OrdSet<StandardValue>)
    ensures
        ord_set_model(r) == ord_set_model(*s),
{
    s.clone()
}

/// Relies on im::HashMap::insert: the map now takes the key to the
/// given value and is otherwise unchanged.
#[verifier::external_body]
pub(crate) fn dm_insert(m: &mut im::HashMap<u32, Domain>, k: u32, v: Domain)
    ensures
        domain_map_model(*final(m)) == domain_map_model(*old(m)).insert(k, v),
{
    m.insert(k, v);
}

/// Relies on im::HashMap::get: the value stored under the key, if any.
#[verifier::external_body]
pub(crate) fn dm_get<'a>(m: &'a im::HashMap<u32, Domain>, k: u32) -> (r: Option<&'a Domain>)
    ensures
        match r {
            Some(d) => domain_map_model(*m).dom().contains(k) && *d == domain_map_model(*m)[k],
            None => !domain_map_model(*m).dom().contains(k),
        },
{
    m.get(&k)
}

/// Relies on im::HashMap::keys: every key exactly once, in an
/// unspecified order.
#[verifier::external_body]
pub(crate) fn dm_keys(m: &im::HashMap<u32, Domain>) -> (r: Vec<u32>)
    ensures
        r@.no_duplicates(),
        r@.to_set() == domain_map_model(*m).dom(),
{
    m.keys().cloned().collect()
}

/// Relies on im::HashMap::clone: a structurally shared copy with the
/// same contents.
#[verifier::external_body]
pub(crate) fn dm_clone(m: &im::HashMap<u32, Domain>) -> (r: im::HashMap<u32, Domain>)
    ensures
        domain_map_model(r) == domain_map_model(*m),
{
    m.clone()
}

/// Relies on im::HashMap::get: the value stored under the key, if any.
#[verifier::external_body]
pub(crate) fn mm_get(m: &im::HashMap<u32, u32>, k: u32) -> (r: Option<u32>)
    ensures
        match r {
            Some(t) => meta_map_model(*m).dom().contains(k) && t == meta_map_model(*m)[k],
            None => !meta_map_model(*m).dom().contains(k),
        },
{
    m.get(&k).cloned()
}

/// Relies on im::HashMap::clone: a structurally shared copy with the
/// same contents.
#[verifier::external_body]
pub(crate) fn mm_clone(m: &im::HashMap<u32, u32>) -> (r: im::HashMap<u32, u32>)
    ensures
        meta_map_model(r) == meta_map_model(*m),
{
    m.clone()
}

} // verus!
