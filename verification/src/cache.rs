//! What the caches of moka promise, stated once for all the caches that the
//! library keeps. A cache hands out clones of what it holds, never the
//! entries themselves.

use vstd::prelude::*;

verus! {

#[verifier::external_type_specification]
#[verifier::external_body]
#[verifier::reject_recursive_types(K)]
#[verifier::reject_recursive_types(V)]
#[verifier::reject_recursive_types(S)]
pub struct ExCache<K, V, S>(moka::sync::Cache<K, V, S>);

/// `found` is what a lookup of `key` gives in a cache that holds
/// `entries`: a clone of the entry under `key`, or nothing where there is
/// no such entry.
pub open spec fn got<K, V: Clone>(entries: Map<K, V>, key: K, found: Option<V>) -> bool {
    match found {
        Some(value) => entries.contains_key(key) && cloned(entries[key], value),
        None => !entries.contains_key(key),
    }
}

/// A cache that held `before` holds `after` once `value` was put under
/// `key`: a clone of `value` is the entry under `key` now, in place of an
/// earlier one if there was one, and no other entry changed.
pub open spec fn put<K, V: Clone>(before: Map<K, V>, after: Map<K, V>, key: K, value: V) -> bool {
    &&& after.contains_key(key)
    &&& after == before.insert(key, after[key])
    &&& cloned(value, after[key])
}

/// A cache that held `before` holds `after` once `key` was looked up
/// with `fresh` to fall back on, and the lookup gave `found`. Where there
/// was an entry under `key`, nothing changed and `found` is a clone of
/// it. Where there was none, a clone of `fresh` is the entry now, no
/// other entry changed, and `found` is `fresh` itself.
pub open spec fn got_or_made<K, V: Clone>(
    before: Map<K, V>,
    after: Map<K, V>,
    key: K,
    fresh: V,
    found: V,
) -> bool {
    if before.contains_key(key) {
        after == before && cloned(before[key], found)
    } else {
        &&& found == fresh
        &&& after.contains_key(key)
        &&& after == before.insert(key, after[key])
        &&& cloned(fresh, after[key])
    }
}

} // verus!
