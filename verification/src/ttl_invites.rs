//! The invites of a room, held in a `ttl_cache::TtlCache` that forgets each
//! entry once its time to live has passed.

use std::hash::{BuildHasher, Hash};
use ttl_cache::TtlCache;
use vstd::prelude::*;
use crate::room::{MAX_UNIX_TIMESTAMP, MIN_UNIX_TIMESTAMP};
use crate::types::Invite;

verus! {

/// An invite cache: invites keyed by their password.
pub type InviteCache = TtlCache<String, Invite>;

#[verifier::external_type_specification]
#[verifier::external_body]
#[verifier::reject_recursive_types(K)]
#[verifier::reject_recursive_types(V)]
#[verifier::reject_recursive_types(S)]
pub struct ExTtlCache<K: Eq + Hash, V, S: BuildHasher>(TtlCache<K, V, S>);

/// The entries that an invite cache stores, keyed by password, expired ones
/// included until the cache drops them.
pub uninterp spec fn invite_entries(c: InviteCache) -> Map<Seq<char>, Invite>;

/// The capacity an invite cache was made with.
pub uninterp spec fn invite_capacity(c: InviteCache) -> nat;

/// The entries of an empty cache.
pub open spec fn no_invites() -> Map<Seq<char>, Invite> {
    Map::empty()
}

/// `TtlCache::new(capacity)`: an empty cache.
#[verifier::external_body]
pub(crate) fn invite_cache_new(capacity: usize) -> (r: InviteCache)
    ensures
        invite_entries(r) == no_invites(),
        invite_capacity(r) == capacity,
{
    TtlCache::new(capacity)
}

/// `TtlCache::insert(k, v, Duration::from_secs(ttl_secs))`. The entry is stored,
/// replacing any entry under the same key; the cache evicts its oldest entry only
/// when it then holds more than its capacity, which cannot happen at capacity
/// `usize::MAX`. The old value comes back when it had not expired. The entry's
/// expiry is the current monotonic instant plus the time to live, an addition
/// that panics on overflow; the time to live is bounded by the span of
/// representable dates, far below that.
#[verifier::external_body]
pub(crate) fn invite_cache_insert(
    c: &mut InviteCache,
    k: String,
    v: Invite,
    ttl_secs: u64,
) -> (r: Option<Invite>)
    requires
        ttl_secs <= MAX_UNIX_TIMESTAMP - MIN_UNIX_TIMESTAMP,
    ensures
        invite_capacity(*final(c)) == invite_capacity(*old(c)),
        invite_capacity(*old(c)) == usize::MAX ==> invite_entries(*final(c)) == invite_entries(
            *old(c),
        ).insert(k@, v),
        r matches Some(x) ==> invite_entries(*old(c)).contains_key(k@) && invite_entries(
            *old(c),
        )[k@] == x,
{
    c.insert(k, v, std::time::Duration::from_secs(ttl_secs))
}

/// `TtlCache::remove`: the entry under `k` is gone afterwards; its value comes
/// back when it had not expired.
#[verifier::external_body]
pub(crate) fn invite_cache_remove(c: &mut InviteCache, k: &str) -> (r: Option<Invite>)
    ensures
        invite_capacity(*final(c)) == invite_capacity(*old(c)),
        invite_entries(*final(c)) == invite_entries(*old(c)).remove(k@),
        r matches Some(x) ==> invite_entries(*old(c)).contains_key(k@) && invite_entries(
            *old(c),
        )[k@] == x,
        !invite_entries(*old(c)).contains_key(k@) ==> r is None,
{
    c.remove(k)
}

/// `TtlCache::contains_key`: true only for a stored entry that has not expired.
#[verifier::external_body]
pub(crate) fn invite_cache_contains_key(c: &InviteCache, k: &str) -> (r: bool)
    ensures
        r ==> invite_entries(*c).contains_key(k@),
{
    c.contains_key(k)
}

/// `TtlCache::iter`, keeping the keys. The cache first drops expired entries from
/// its front; the keys that come back are those of entries it still holds,
/// without repetition.
#[verifier::external_body]
pub(crate) fn invite_cache_live_keys(c: &mut InviteCache) -> (r: Vec<String>)
    ensures
        invite_capacity(*final(c)) == invite_capacity(*old(c)),
        invite_entries(*final(c)).submap_of(invite_entries(*old(c))),
        forall|i: int| 0 <= i < r@.len() ==> invite_entries(*final(c)).contains_key(#[trigger] r@[i]@),
        forall|i: int, j: int| 0 <= i < j < r@.len() ==> #[trigger] r@[i]@ != #[trigger] r@[j]@,
{
    c.iter().map(|(k, _)| k.clone()).collect()
}

} // verus!
