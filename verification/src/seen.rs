//! The bounded memory of identities already met, kept in an `lru::LruCache`.
//!
//! The cache is modelled by the sequence of the identities it holds, from the
//! least recently used to the most recently used, and by its capacity.

use vstd::prelude::*;
use crate::error::PollError;

verus! {

/// `lru::LruCache`, carried as an opaque value.
#[verifier::external_type_specification]
#[verifier::external_body]
#[verifier::reject_recursive_types(K)]
#[verifier::reject_recursive_types(V)]
#[verifier::reject_recursive_types(S)]
pub struct ExLruCache<K, V, S>(lru::LruCache<K, V, S>);

/// `lru::DefaultHasher`, the hasher that a cache made by `LruCache::new`
/// carries in its type.
#[verifier::external_type_specification]
#[verifier::external_body]
pub struct ExDefaultHasher(lru::DefaultHasher);

/// The keys that the cache holds, least recently used first.
pub uninterp spec fn seen_order(cache: lru::LruCache<String, ()>) -> Seq<Seq<char>>;

/// The number of keys that the cache was made to hold at most.
pub uninterp spec fn seen_limit(cache: lru::LruCache<String, ()>) -> nat;

/// The largest capacity for which the table behind a cache can be laid out.
pub open spec fn max_capacity() -> nat {
    (usize::MAX / 128) as nat
}

/// What a memory holding `order` under the capacity `limit` holds after `id`
/// was offered to it: a known identity moves to the most recent place, a new
/// one takes that place, and where the memory was full the least recently
/// used identity leaves first.
pub open spec fn admitted(order: Seq<Seq<char>>, limit: nat, id: Seq<char>) -> Seq<Seq<char>> {
    if order.contains(id) {
        order.remove(order.index_of(id)).push(id)
    } else if order.len() >= limit {
        order.drop_first().push(id)
    } else {
        order.push(id)
    }
}

/// A memory within its bounds: room for at least one identity, never more
/// identities than the capacity, none of them twice.
pub open spec fn bounded(order: Seq<Seq<char>>, limit: nat) -> bool {
    &&& limit > 0
    &&& order.len() <= limit
    &&& order.no_duplicates()
}

/// Calls `lru::LruCache::new` with `cap` as a `NonZeroUsize`. The new cache
/// holds nothing and is limited to `cap` keys. A zero capacity, and one whose
/// table could not be laid out in memory, are left out.
#[verifier::external_body]
fn cache_new(cap: usize) -> (cache: lru::LruCache<String, ()>)
    requires
        0 < cap <= max_capacity(),
    ensures
        seen_order(cache) == Seq::<Seq<char>>::empty(),
        seen_limit(cache) == cap,
{
    lru::LruCache::new(std::num::NonZeroUsize::new(cap).unwrap())
}

/// Calls `lru::LruCache::put` with the unit value. A key that the cache held
/// is moved to the most recent place and `true` is returned. Another key is
/// added at the most recent place, after the least recently used key was
/// dropped where the cache was full, and `false` is returned.
#[verifier::external_body]
fn cache_put(cache: &mut lru::LruCache<String, ()>, key: String) -> (known: bool)
    ensures
        known == seen_order(*old(cache)).contains(key@),
        seen_order(*final(cache)) == admitted(
            seen_order(*old(cache)),
            seen_limit(*old(cache)),
            key@,
        ),
        seen_limit(*final(cache)) == seen_limit(*old(cache)),
{
    cache.put(key, ()).is_some()
}

/// Calls `lru::LruCache::contains`, which tells whether the key is held and
/// leaves the order of use as it is.
#[verifier::external_body]
fn cache_contains(cache: &lru::LruCache<String, ()>, key: &str) -> (held: bool)
    ensures
        held == seen_order(*cache).contains(key@),
{
    cache.contains(key)
}

/// Calls `lru::LruCache::len`, the number of keys held.
#[verifier::external_body]
fn cache_len(cache: &lru::LruCache<String, ()>) -> (n: usize)
    ensures
        n == seen_order(*cache).len(),
{
    cache.len()
}

/// Calls `lru::LruCache::cap`, the capacity that the cache was made with.
#[verifier::external_body]
fn cache_cap(cache: &lru::LruCache<String, ()>) -> (n: usize)
    ensures
        n == seen_limit(*cache),
{
    cache.cap().get()
}

/// Offering an identity to a memory within its bounds leaves it within its
/// bounds, with the identity in the most recent place.
pub proof fn lemma_admitted_bounded(order: Seq<Seq<char>>, limit: nat, id: Seq<char>)
    requires
        bounded(order, limit),
    ensures
        bounded(admitted(order, limit, id), limit),
        admitted(order, limit, id).len() > 0,
        admitted(order, limit, id).last() == id,
        admitted(order, limit, id).len() <= order.len() + 1,
        order.contains(id) ==> admitted(order, limit, id).len() == order.len(),
{
    let next = admitted(order, limit, id);
    if order.contains(id) {
        let k = order.index_of(id);
        let rest = order.remove(k);
        assert forall|i: int, j: int| 0 <= i < rest.len() && 0 <= j < rest.len() && i != j
            implies rest[i] != rest[j] by {
            let oi = if i < k { i } else { i + 1 };
            let oj = if j < k { j } else { j + 1 };
            assert(rest[i] == order[oi]);
            assert(rest[j] == order[oj]);
        }
        assert forall|i: int| 0 <= i < rest.len() implies rest[i] != id by {
            let oi = if i < k { i } else { i + 1 };
            assert(rest[i] == order[oi]);
            assert(order[k] == id);
        }
        assert(next =~= rest.push(id));
        assert(next.no_duplicates());
    } else if order.len() >= limit {
        let rest = order.drop_first();
        assert forall|i: int| 0 <= i < rest.len() implies rest[i] != id by {
            assert(rest[i] == order[i + 1]);
        }
        assert forall|i: int, j: int| 0 <= i < rest.len() && 0 <= j < rest.len() && i != j
            implies rest[i] != rest[j] by {
            assert(rest[i] == order[i + 1]);
            assert(rest[j] == order[j + 1]);
        }
        assert(next.no_duplicates());
    } else {
        assert(next.no_duplicates());
    }
}

/// An identity that the memory holds is still held after any identity was
/// offered, unless the memory was full and the held one was the least
/// recently used and another, unknown one came in.
pub proof fn lemma_admitted_keeps(order: Seq<Seq<char>>, limit: nat, id: Seq<char>, x: Seq<char>)
    requires
        bounded(order, limit),
        order.contains(x),
        order.contains(id) || order.len() < limit || order[0] != x,
    ensures
        admitted(order, limit, id).contains(x),
{
    let next = admitted(order, limit, id);
    let kx = order.index_of(x);
    if order.contains(id) {
        let k = order.index_of(id);
        if x == id {
            assert(next.last() == x);
        } else {
            let nx = if kx < k { kx } else { kx - 1 };
            assert(next[nx] == x);
        }
    } else if order.len() >= limit {
        assert(kx != 0);
        assert(next[kx - 1] == x);
    } else {
        assert(next[kx] == x);
    }
}

/// Offering an identity that is held changes the order of use and nothing
/// else: the same identities are held afterwards.
pub proof fn lemma_known_offer_keeps_identities(order: Seq<Seq<char>>, limit: nat, id: Seq<char>)
    requires
        bounded(order, limit),
        order.contains(id),
    ensures
        admitted(order, limit, id).len() == order.len(),
        forall|y: Seq<char>| #[trigger] admitted(order, limit, id).contains(y) <==> order.contains(y),
{
    let next = admitted(order, limit, id);
    let at = order.index_of(id);
    assert forall|y: Seq<char>| #[trigger] next.contains(y) <==> order.contains(y) by {
        if order.contains(y) {
            lemma_admitted_keeps(order, limit, id, y);
        }
        if next.contains(y) {
            let k = choose|k: int| 0 <= k < next.len() && next[k] == y;
            if k < next.len() - 1 {
                let from = if k < at {
                    k
                } else {
                    k + 1
                };
                assert(order[from] == y);
            } else {
                assert(order[at] == y);
            }
        }
    }
}

/// The identities already met, at most `capacity` of them, the least
/// recently used leaving first.
pub struct SeenSet {
    cache: lru::LruCache<String, ()>,
}

impl SeenSet {
    /// The identities held, least recently used first.
    pub closed spec fn order(&self) -> Seq<Seq<char>> {
        seen_order(self.cache)
    }

    /// The number of identities that may be held at once.
    pub closed spec fn capacity(&self) -> nat {
        seen_limit(self.cache)
    }

    /// The memory is within its bounds.
    pub open spec fn wf(&self) -> bool {
        bounded(self.order(), self.capacity())
    }

    /// An empty memory for `capacity` identities; `InvalidCapacity` where
    /// that is none.
    pub fn new(capacity: usize) -> (r: Result<SeenSet, PollError>)
        requires
            capacity <= max_capacity(),
        ensures
            r is Ok <==> capacity > 0,
            r matches Ok(s) ==> s.wf() && s.capacity() == capacity && s.order()
                == Seq::<Seq<char>>::empty(),
            r matches Err(e) ==> e is InvalidCapacity,
    {
        if capacity == 0 {
            Err(PollError::InvalidCapacity)
        } else {
            Ok(SeenSet { cache: cache_new(capacity) })
        }
    }

    /// Tells whether `identity` is new and remembers it as the most recently
    /// used either way.
    pub fn test_and_admit(&mut self, identity: String) -> (fresh: bool)
        requires
            old(self).wf(),
        ensures
            fresh == !old(self).order().contains(identity@),
            final(self).order() == admitted(old(self).order(), old(self).capacity(), identity@),
            final(self).capacity() == old(self).capacity(),
            final(self).wf(),
            final(self).order().len() <= final(self).capacity(),
            final(self).order().contains(identity@),
    {
        proof {
            lemma_admitted_bounded(self.order(), self.capacity(), identity@);
        }
        let known = cache_put(&mut self.cache, identity);
        !known
    }

    /// Whether `identity` is held; the order of use stays as it is.
    pub fn contains(&self, identity: &str) -> (held: bool)
        ensures
            held == self.order().contains(identity@),
    {
        cache_contains(&self.cache, identity)
    }

    /// The number of identities held.
    pub fn len(&self) -> (n: usize)
        ensures
            n == self.order().len(),
    {
        cache_len(&self.cache)
    }

    /// The number of identities that may be held at once.
    pub fn cap(&self) -> (n: usize)
        ensures
            n == self.capacity(),
    {
        cache_cap(&self.cache)
    }
}

} // verus!
