//! Compile-time environments: persistent maps from identifiers to slot
//! descriptors, held in `im`'s hash map so that extending one in a branch
//! leaves its siblings untouched.
use vstd::prelude::*;

verus! {

#[verifier::external_type_specification]
#[verifier::external_body]
#[verifier::reject_recursive_types(K)]
#[verifier::reject_recursive_types(V)]
#[verifier::reject_recursive_types(S)]
pub struct ExImHashMap<K, V, S>(im::HashMap<K, V, S>);

/// The bindings an environment holds, by the characters of their names.
pub uninterp spec fn env_map(m: im::HashMap<String, i32>) -> Map<Seq<char>, i32>;

/// Relies on `im::HashMap::new`: a map with no bindings.
#[verifier::external_body]
pub(crate) fn env_new() -> (r: im::HashMap<String, i32>)
    ensures
        env_map(r).dom().is_empty(),
{
    im::HashMap::new()
}

/// Relies on `im::HashMap::update`: a copy of the map with `k` bound to
/// `v`, the original left as it was.
#[verifier::external_body]
pub(crate) fn env_update(m: &im::HashMap<String, i32>, k: String, v: i32) -> (r: im::HashMap<String, i32>)
    ensures
        env_map(r) == env_map(*m).insert(k@, v),
{
    m.update(k, v)
}

/// Relies on `im::HashMap::get`: the value bound to `k`, if any.
#[verifier::external_body]
pub(crate) fn env_get(m: &im::HashMap<String, i32>, k: &String) -> (r: Option<i32>)
    ensures
        r == (if env_map(*m).contains_key(k@) {
            Some(env_map(*m)[k@])
        } else {
            None::<i32>
        }),
{
    m.get(k).copied()
}

/// Relies on `im::HashMap::clone`: a map with the same bindings.
#[verifier::external_body]
pub(crate) fn env_clone(m: &im::HashMap<String, i32>) -> (r: im::HashMap<String, i32>)
    ensures
        env_map(r) == env_map(*m),
{
    m.clone()
}

} // verus!
