//! The response cache: payloads keyed by query content, each stamped with the
//! second at which it was stored, and the sweep that drops stale ones.

use vstd::prelude::*;

verus! {

/// One cached response.
#[derive(Debug)]
pub struct Entry {
    /// The query without its transaction ID.
    pub key: Vec<u8>,
    /// The second, on the caller's clock, at which the payload was stored.
    pub inserted_at: u64,
    /// The response without the resolver's transaction ID.
    pub payload: Vec<u8>,
}

/// What the cache holds under a key: the second of insertion and the payload.
pub type Stored = (u64, Seq<u8>);

/// What an entry stores under its key.
pub open spec fn stored(e: Entry) -> Stored {
    (e.inserted_at, e.payload@)
}

/// Seconds that have passed at `now` since `inserted_at`; zero if the clock
/// reads earlier than the stamp.
pub open spec fn age(inserted_at: u64, now: u64) -> int {
    if now >= inserted_at {
        now - inserted_at
    } else {
        0
    }
}

/// Whether an entry stamped `inserted_at` is still within `ttl` seconds at `now`.
pub open spec fn is_fresh(inserted_at: u64, now: u64, ttl: u64) -> bool {
    age(inserted_at, now) < ttl
}

/// The contents that a sweep at `now` leaves: exactly the fresh entries, unchanged.
pub open spec fn swept(m: Map<Seq<u8>, Stored>, now: u64, ttl: u64) -> Map<Seq<u8>, Stored> {
    Map::new(|k: Seq<u8>| m.contains_key(k) && is_fresh(m[k].0, now, ttl), |k: Seq<u8>| m[k])
}

/// The contents after `invalidate_cache`: swept when `force` is set, else untouched.
pub open spec fn invalidated(m: Map<Seq<u8>, Stored>, now: u64, ttl: u64, force: bool) -> Map<
    Seq<u8>,
    Stored,
> {
    if force {
        swept(m, now, ttl)
    } else {
        m
    }
}

spec fn keys_distinct(es: Seq<Entry>) -> bool {
    forall|i: int, j: int| 0 <= i < j < es.len() ==> es[i].key@ != es[j].key@
}

spec fn holds(es: Seq<Entry>, k: Seq<u8>) -> bool {
    exists|i: int| 0 <= i < es.len() && (#[trigger] es[i]).key@ == k
}

spec fn slot(es: Seq<Entry>, k: Seq<u8>) -> int {
    choose|i: int| 0 <= i < es.len() && (#[trigger] es[i]).key@ == k
}

spec fn contents(es: Seq<Entry>) -> Map<Seq<u8>, Stored> {
    Map::new(|k: Seq<u8>| holds(es, k), |k: Seq<u8>| stored(es[slot(es, k)]))
}

proof fn lemma_slot(es: Seq<Entry>, i: int)
    requires
        keys_distinct(es),
        0 <= i < es.len(),
    ensures
        holds(es, es[i].key@),
        slot(es, es[i].key@) == i,
        contents(es).contains_key(es[i].key@),
        contents(es)[es[i].key@] == stored(es[i]),
{
    let k = es[i].key@;
    assert(es[i].key@ == k);
    let j = slot(es, k);
    assert(0 <= j < es.len() && es[j].key@ == k);
    if j != i {
        if j < i {
            assert(es[j].key@ != es[i].key@);
        } else {
            assert(es[i].key@ != es[j].key@);
        }
    }
}

/// Whether two byte slices hold the same bytes.
pub fn same_bytes(a: &[u8], b: &[u8]) -> (same: bool)
    ensures
        same == (a@ == b@),
{
    if a.len() != b.len() {
        return false;
    }
    let mut i: usize = 0;
    while i < a.len()
        invariant
            i <= a@.len(),
            a@.len() == b@.len(),
            forall|j: int| 0 <= j < i ==> a@[j] == b@[j],
        decreases a@.len() - i,
    {
        if a[i] != b[i] {
            return false;
        }
        i += 1;
    }
    assert(a@ =~= b@);
    true
}

fn find(entries: &Vec<Entry>, key: &[u8]) -> (at: Option<usize>)
    ensures
        match at {
            Some(i) => i < entries@.len() && entries@[i as int].key@ == key@,
            None => !holds(entries@, key@),
        },
{
    let mut i: usize = 0;
    while i < entries.len()
        invariant
            i <= entries@.len(),
            forall|j: int| 0 <= j < i ==> (#[trigger] entries@[j]).key@ != key@,
        decreases entries@.len() - i,
    {
        if same_bytes(entries[i].key.as_slice(), key) {
            return Some(i);
        }
        i += 1;
    }
    None
}

/// The response cache. No key occurs twice in it.
pub struct Cache {
    entries: Vec<Entry>,
}

impl View for Cache {
    type V = Map<Seq<u8>, Stored>;

    closed spec fn view(&self) -> Map<Seq<u8>, Stored> {
        contents(self.entries@)
    }
}

impl Cache {
    #[verifier::type_invariant]
    spec fn inv(self) -> bool {
        keys_distinct(self.entries@)
    }

    /// An empty cache.
    pub fn new() -> (cache: Cache)
        ensures
            cache@ == Map::<Seq<u8>, Stored>::empty(),
    {
        let cache = Cache { entries: Vec::new() };
        assert(cache@ =~= Map::<Seq<u8>, Stored>::empty());
        cache
    }

    /// Whether the cache holds a payload under `key`.
    pub fn contains_key(&self, key: &[u8]) -> (found: bool)
        ensures
            found == self@.contains_key(key@),
    {
        proof {
            use_type_invariant(self);
        }
        match find(&self.entries, key) {
            Some(i) => {
                proof {
                    lemma_slot(self.entries@, i as int);
                }
                true
            },
            None => false,
        }
    }

    /// The entry stored under `key`, if there is one. Nothing changes.
    pub fn get(&self, key: &[u8]) -> (found: Option<&Entry>)
        ensures
            match found {
                Some(e) => self@.contains_key(key@) && e.key@ == key@ && self@[key@] == stored(*e),
                None => !self@.contains_key(key@),
            },
    {
        proof {
            use_type_invariant(self);
        }
        match find(&self.entries, key) {
            Some(i) => {
                proof {
                    lemma_slot(self.entries@, i as int);
                }
                Some(&self.entries[i])
            },
            None => None,
        }
    }

    /// Stores `payload` under `key` with the stamp `now`, replacing what was
    /// stored under that key before.
    pub fn insert(&mut self, key: Vec<u8>, now: u64, payload: Vec<u8>)
        ensures
            final(self)@ == old(self)@.insert(key@, (now, payload@)),
    {
        proof {
            use_type_invariant(&*self);
        }
        let mut entries: Vec<Entry> = Vec::new();
        std::mem::swap(&mut entries, &mut self.entries);
        let ghost before = entries@;
        let ghost k = key@;
        let ghost v: Stored = (now, payload@);
        let at = find(&entries, key.as_slice());
        let entry = Entry { key, inserted_at: now, payload };
        match at {
            Some(i) => {
                entries.set(i, entry);
            },
            None => {
                entries.push(entry);
            },
        }
        proof {
            let after = entries@;
            let at_i: int = match at {
                Some(i) => i as int,
                None => before.len() as int,
            };
            assert(after[at_i].key@ == k && stored(after[at_i]) == v);
            assert forall|i: int| 0 <= i < after.len() && i != at_i implies after[i] == before[i]
                && (#[trigger] after[i]).key@ != k by {
                if at.is_some() {
                    if i < at_i {
                        assert(before[i].key@ != before[at_i].key@);
                    } else {
                        assert(before[at_i].key@ != before[i].key@);
                    }
                } else {
                    assert(!holds(before, k));
                }
            }
            assert(keys_distinct(after));
            assert forall|q: Seq<u8>| #[trigger] contents(after).contains_key(q) implies contents(
                before,
            ).insert(k, v).contains_key(q) && contents(after)[q] == contents(before).insert(
                k,
                v,
            )[q] by {
                let j = slot(after, q);
                assert(0 <= j < after.len() && after[j].key@ == q);
                lemma_slot(after, j);
                if j != at_i {
                    lemma_slot(before, j);
                }
            }
            assert forall|q: Seq<u8>| #[trigger]
                contents(before).insert(k, v).contains_key(q) implies contents(
                after,
            ).contains_key(q) by {
                if q == k {
                    lemma_slot(after, at_i);
                } else {
                    let j = slot(before, q);
                    assert(0 <= j < before.len() && before[j].key@ == q);
                    assert(j != at_i);
                    lemma_slot(after, j);
                }
            }
            assert(contents(after) =~= contents(before).insert(k, v));
        }
        self.entries = entries;
    }
}

/// Whether an entry stamped `inserted_at` is within `ttl` seconds at `now`.
pub fn fresh_at(inserted_at: u64, now: u64, ttl: u64) -> (fresh: bool)
    ensures
        fresh == is_fresh(inserted_at, now, ttl),
{
    let age: u64 = if now >= inserted_at {
        now - inserted_at
    } else {
        0
    };
    age < ttl
}

// The entries of `es` at `idx`, in that order, are exactly `kept`.
spec fn picked(es: Seq<Entry>, idx: Seq<int>, kept: Seq<Entry>) -> bool {
    &&& idx.len() == kept.len()
    &&& forall|j: int| 0 <= j < idx.len() ==> 0 <= #[trigger] idx[j] < es.len() && kept[j] == es[idx[j]]
    &&& forall|a: int, b: int| 0 <= a < b < idx.len() ==> idx[a] > idx[b]
}

proof fn lemma_picked_distinct(es: Seq<Entry>, idx: Seq<int>, kept: Seq<Entry>)
    requires
        keys_distinct(es),
        picked(es, idx, kept),
    ensures
        keys_distinct(kept),
{
    assert forall|a: int, b: int| 0 <= a < b < kept.len() implies kept[a].key@ != kept[b].key@ by {
        assert(idx[a] > idx[b]);
        assert(es[idx[b]].key@ != es[idx[a]].key@);
    }
}

/// Sweeps the cache at second `now`. With `force` set, exactly the entries that
/// are within `ttl` seconds stay, each as it was; a `ttl` of zero empties the
/// cache. Without `force` nothing changes.
pub fn invalidate_cache(cache: &mut Cache, now: u64, ttl: u64, force: bool)
    ensures
        final(cache)@ == invalidated(old(cache)@, now, ttl, force),
{
    if !force {
        return ;
    }
    proof {
        use_type_invariant(&*cache);
    }
    let mut rest: Vec<Entry> = Vec::new();
    std::mem::swap(&mut rest, &mut cache.entries);
    let ghost all = rest@;
    let ghost idx: Seq<int> = Seq::empty();
    let mut kept: Vec<Entry> = Vec::new();
    loop
        invariant
            keys_distinct(all),
            rest@ == all.take(rest@.len() as int),
            rest@.len() <= all.len(),
            picked(all, idx, kept@),
            forall|j: int| 0 <= j < idx.len() ==> #[trigger] idx[j] >= rest@.len(),
            forall|j: int| 0 <= j < kept@.len() ==> is_fresh((#[trigger] kept@[j]).inserted_at, now, ttl),
            forall|i: int|
                rest@.len() <= i < all.len() && is_fresh((#[trigger] all[i]).inserted_at, now, ttl)
                    ==> holds(kept@, all[i].key@),
        ensures
            rest@.len() == 0,
        decreases rest@.len(),
    {
        let ghost n = rest@.len() as int;
        let ghost kept_before = kept@;
        match rest.pop() {
            None => {
                break ;
            },
            Some(entry) => {
                assert(entry == all[n - 1]);
                assert(rest@ =~= all.take(n - 1));
                if fresh_at(entry.inserted_at, now, ttl) {
                    kept.push(entry);
                    proof {
                        idx = idx.push(n - 1);
                        assert(kept@[kept@.len() - 1].key@ == all[n - 1].key@);
                    }
                }
                assert forall|i: int|
                    rest@.len() <= i < all.len() && is_fresh(
                        (#[trigger] all[i]).inserted_at,
                        now,
                        ttl,
                    ) implies holds(kept@, all[i].key@) by {
                    if i >= n {
                        let j = slot(kept_before, all[i].key@);
                        assert(holds(kept_before, all[i].key@));
                        assert(kept@[j].key@ == all[i].key@);
                    }
                }
            },
        }
    }
    proof {
        lemma_picked_distinct(all, idx, kept@);
        let m = contents(all);
        assert forall|q: Seq<u8>| #[trigger] contents(kept@).contains_key(q) implies swept(
            m,
            now,
            ttl,
        ).contains_key(q) && contents(kept@)[q] == swept(m, now, ttl)[q] by {
            let j = slot(kept@, q);
            assert(0 <= j < kept@.len() && kept@[j].key@ == q);
            lemma_slot(kept@, j);
            lemma_slot(all, idx[j]);
        }
        assert forall|q: Seq<u8>| #[trigger] swept(m, now, ttl).contains_key(q) implies contents(
            kept@,
        ).contains_key(q) by {
            let i = slot(all, q);
            assert(0 <= i < all.len() && all[i].key@ == q);
            lemma_slot(all, i);
        }
        assert(contents(kept@) =~= swept(m, now, ttl));
    }
    cache.entries = kept;
}

} // verus!
