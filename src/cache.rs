use vstd::prelude::*;

verus! {

/// A cached lookup result: the matching key and the index of the device it matched.
pub struct CacheEntry {
    pub key: String,
    pub device: usize,
}

/// A bounded lookup cache with least-recently-used eviction; capacity zero disables it.
/// Entries are kept from the least recently used to the most recently used.
pub struct LookupCache {
    entries: Vec<CacheEntry>,
    capacity: usize,
}

pub open spec fn entry_view(e: CacheEntry) -> (Seq<char>, usize) {
    (e.key@, e.device)
}

pub open spec fn keys_unique(s: Seq<(Seq<char>, usize)>) -> bool {
    forall|i: int, j: int| 0 <= i < j < s.len() ==> #[trigger] s[i].0 != #[trigger] s[j].0
}

pub open spec fn has_key(s: Seq<(Seq<char>, usize)>, key: Seq<char>) -> bool {
    exists|i: int| 0 <= i < s.len() && #[trigger] s[i].0 == key
}

/// The position of the entry for `key`.
pub open spec fn key_index(s: Seq<(Seq<char>, usize)>, key: Seq<char>) -> int {
    choose|i: int| 0 <= i < s.len() && #[trigger] s[i].0 == key
}

/// The entries after a lookup of `key` that found `device`: a hit moves the entry to the
/// most recently used place, a miss stores the new result.
pub open spec fn cache_after(
    s: Seq<(Seq<char>, usize)>,
    capacity: nat,
    key: Seq<char>,
    device: usize,
) -> Seq<(Seq<char>, usize)> {
    if has_key(s, key) {
        s.remove(key_index(s, key)).push(s[key_index(s, key)])
    } else {
        inserted(s, capacity, key, device)
    }
}

/// The entries after a new key is stored: when the cache is full, the least recently
/// used entry makes room.
pub open spec fn inserted(s: Seq<(Seq<char>, usize)>, capacity: nat, key: Seq<char>, device: usize) -> Seq<
    (Seq<char>, usize),
> {
    if capacity == 0 {
        s
    } else if s.len() >= capacity {
        s.drop_first().push((key, device))
    } else {
        s.push((key, device))
    }
}

impl LookupCache {
    pub closed spec fn view(&self) -> Seq<(Seq<char>, usize)> {
        self.entries@.map_values(|e: CacheEntry| entry_view(e))
    }

    pub closed spec fn spec_capacity(&self) -> nat {
        self.capacity as nat
    }

    pub open spec fn wf(&self) -> bool {
        &&& self@.len() <= self.spec_capacity()
        &&& keys_unique(self@)
    }

    /// An empty cache holding at most `capacity` entries.
    pub fn new(capacity: usize) -> (r: LookupCache)
        ensures
            r.wf(),
            r@ == Seq::<(Seq<char>, usize)>::empty(),
            r.spec_capacity() == capacity,
    {
        let r = LookupCache { entries: Vec::new(), capacity };
        assert(r@ =~= Seq::<(Seq<char>, usize)>::empty());
        r
    }

    pub fn capacity(&self) -> (r: usize)
        ensures
            r == self.spec_capacity(),
    {
        self.capacity
    }

    pub fn len(&self) -> (r: usize)
        ensures
            r == self@.len(),
    {
        self.entries.len()
    }

    /// Looks `key` up; a hit becomes the most recently used entry.
    pub fn get(&mut self, key: &str) -> (r: Option<usize>)
        requires
            old(self).wf(),
        ensures
            final(self).wf(),
            final(self).spec_capacity() == old(self).spec_capacity(),
            r is Some <==> has_key(old(self)@, key@),
            match r {
                Some(d) => {
                    &&& d == old(self)@[key_index(old(self)@, key@)].1
                    &&& final(self)@ == cache_after(old(self)@, old(self).spec_capacity(), key@, d)
                },
                None => final(self)@ == old(self)@,
            },
    {
        let n = self.entries.len();
        let mut i: usize = 0;
        while i < n
            invariant
                n == self.entries@.len(),
                i <= n,
                self.wf(),
                self@ == old(self)@,
                self.capacity == old(self).capacity,
                forall|j: int| 0 <= j < i ==> self@[j].0 != key@,
            decreases n - i,
        {
            if str_eq_key(&self.entries[i].key, key) {
                let ghost before = self@;
                let e = self.entries.remove(i);
                let d = e.device;
                self.entries.push(e);
                proof {
                    assert(self@ =~= before.remove(i as int).push(before[i as int]));
                    assert(before[i as int] == (key@, d));
                    assert(before[i as int].0 == key@);
                    let w = key_index(before, key@);
                    assert(0 <= w < before.len() && before[w].0 == key@);
                    assert(w == i);
                    assert forall|a: int, b: int| 0 <= a < b < self@.len() implies #[trigger] self@[a].0
                        != #[trigger] self@[b].0 by {
                        let a0 = if a < i { a } else { a + 1 };
                        let b0 = if b == self@.len() - 1 { i as int } else if b < i { b } else { b + 1 };
                        assert(self@[a] == before[a0]);
                        assert(self@[b] == before[b0]);
                    }
                }
                return Some(d);
            }
            i = i + 1;
        }
        None
    }

    /// Stores a key that the cache does not hold.
    pub fn insert(&mut self, key: &str, device: usize)
        requires
            old(self).wf(),
            !has_key(old(self)@, key@),
        ensures
            final(self).wf(),
            final(self).spec_capacity() == old(self).spec_capacity(),
            final(self)@ == inserted(old(self)@, old(self).spec_capacity(), key@, device),
    {
        if self.capacity == 0 {
            return;
        }
        let ghost before = self@;
        if self.entries.len() >= self.capacity {
            self.entries.remove(0);
        }
        self.entries.push(CacheEntry { key: key.to_string(), device });
        proof {
            assert(self@ =~= inserted(before, self.capacity as nat, key@, device));
            let s = self@;
            assert forall|a: int, b: int| 0 <= a < b < s.len() implies #[trigger] s[a].0
                != #[trigger] s[b].0 by {
                if b == s.len() - 1 {
                    if before.len() >= self.capacity {
                        assert(s[a] == before[a + 1]);
                    } else {
                        assert(s[a] == before[a]);
                    }
                } else if before.len() >= self.capacity {
                    assert(s[a] == before[a + 1]);
                    assert(s[b] == before[b + 1]);
                }
            }
        }
    }

    /// Drops every entry.
    pub fn clear(&mut self)
        requires
            old(self).wf(),
        ensures
            final(self).wf(),
            final(self).spec_capacity() == old(self).spec_capacity(),
            final(self)@ == Seq::<(Seq<char>, usize)>::empty(),
    {
        self.entries.clear();
        assert(self@ =~= Seq::<(Seq<char>, usize)>::empty());
    }
}

fn str_eq_key(a: &String, b: &str) -> (r: bool)
    ensures
        r == (a@ == b@),
{
    crate::database::str_eq(a.as_str(), b)
}

/// Bounded eviction: storing a new key in a full cache of capacity `capacity` removes
/// exactly the least recently used entry, keeps every other one in order, and the cache
/// never holds more than `capacity` entries.
pub proof fn lemma_lru_bound(
    s: Seq<(Seq<char>, usize)>,
    capacity: nat,
    key: Seq<char>,
    device: usize,
)
    requires
        capacity > 0,
        s.len() == capacity,
        keys_unique(s),
        !has_key(s, key),
    ensures
        inserted(s, capacity, key, device).len() == capacity,
        inserted(s, capacity, key, device).take(capacity - 1) == s.drop_first(),
        inserted(s, capacity, key, device).last() == (key, device),
        !has_key(inserted(s, capacity, key, device), s[0].0),
        keys_unique(inserted(s, capacity, key, device)),
{
    let r = inserted(s, capacity, key, device);
    assert(r.take(capacity - 1) =~= s.drop_first());
    assert forall|a: int, b: int| 0 <= a < b < r.len() implies #[trigger] r[a].0 != #[trigger] r[b].0 by {
        if b == r.len() - 1 {
            assert(r[a] == s[a + 1]);
        } else {
            assert(r[a] == s[a + 1]);
            assert(r[b] == s[b + 1]);
        }
    }
    if has_key(r, s[0].0) {
        let i = choose|i: int| 0 <= i < r.len() && #[trigger] r[i].0 == s[0].0;
        if i == r.len() - 1 {
            assert(s[0].0 == key);
        } else {
            assert(r[i] == s[i + 1]);
        }
    }
}

/// A repeated lookup hits: after a lookup of `key` that found `device`, the cache holds
/// `key` with that same device, whether the first lookup hit or missed.
pub proof fn lemma_repeat_lookup_hits(
    s: Seq<(Seq<char>, usize)>,
    capacity: nat,
    key: Seq<char>,
    device: usize,
)
    requires
        capacity > 0,
        s.len() <= capacity,
        keys_unique(s),
        has_key(s, key) ==> s[key_index(s, key)].1 == device,
    ensures
        has_key(cache_after(s, capacity, key, device), key),
        keys_unique(cache_after(s, capacity, key, device)),
        ({
            let t = cache_after(s, capacity, key, device);
            t[key_index(t, key)] == (key, device)
        }),
{
    let t = cache_after(s, capacity, key, device);
    if has_key(s, key) {
        let i = key_index(s, key);
        assert(0 <= i < s.len() && s[i].0 == key);
        assert(t[t.len() - 1] == s[i]);
        assert forall|a: int, b: int| 0 <= a < b < t.len() implies #[trigger] t[a].0 != #[trigger] t[b].0 by {
            let a0 = if a < i { a } else { a + 1 };
            let b0 = if b == t.len() - 1 { i } else if b < i { b } else { b + 1 };
            assert(t[a] == s[a0]);
            assert(t[b] == s[b0]);
        }
    } else {
        assert(t[t.len() - 1] == (key, device));
        assert forall|a: int, b: int| 0 <= a < b < t.len() implies #[trigger] t[a].0 != #[trigger] t[b].0 by {
            if s.len() >= capacity {
                if b == t.len() - 1 {
                    assert(t[a] == s[a + 1]);
                } else {
                    assert(t[a] == s[a + 1]);
                    assert(t[b] == s[b + 1]);
                }
            } else if b < t.len() - 1 {
                assert(t[a] == s[a]);
                assert(t[b] == s[b]);
            } else {
                assert(t[a] == s[a]);
            }
        }
    }
    assert(has_key(t, key)) by {
        assert(t[t.len() - 1].0 == key);
    }
    let w = key_index(t, key);
    assert(t[w].0 == key);
    assert(w == t.len() - 1);
}

/// Every entry after a lookup was there before, or is the one just stored.
pub proof fn lemma_cache_after_members(
    s: Seq<(Seq<char>, usize)>,
    capacity: nat,
    key: Seq<char>,
    device: usize,
)
    ensures
        forall|j: int|
            0 <= j < cache_after(s, capacity, key, device).len() ==> {
                let e = #[trigger] cache_after(s, capacity, key, device)[j];
                e == (key, device) || exists|m: int| 0 <= m < s.len() && s[m] == e
            },
{
    let t = cache_after(s, capacity, key, device);
    assert forall|j: int| 0 <= j < t.len() implies {
        let e = #[trigger] t[j];
        e == (key, device) || exists|m: int| 0 <= m < s.len() && s[m] == e
    } by {
        if has_key(s, key) {
            let i = key_index(s, key);
            if j == t.len() - 1 {
                assert(s[i] == t[j]);
            } else if j < i {
                assert(s[j] == t[j]);
            } else {
                assert(s[j + 1] == t[j]);
            }
        } else if capacity > 0 {
            if j < t.len() - 1 {
                if s.len() >= capacity {
                    assert(s[j + 1] == t[j]);
                } else {
                    assert(s[j] == t[j]);
                }
            }
        } else {
            assert(s[j] == t[j]);
        }
    }
}

/// The entries that pair each key with its device, in order.
pub open spec fn paired(keys: Seq<Seq<char>>, devices: Seq<usize>) -> Seq<(Seq<char>, usize)> {
    Seq::new(keys.len(), |i: int| (keys[i], devices[i]))
}

/// The entries after lookups of `keys` in order, the `i`-th finding `devices[i]`.
pub open spec fn after_lookups(
    s: Seq<(Seq<char>, usize)>,
    capacity: nat,
    keys: Seq<Seq<char>>,
    devices: Seq<usize>,
) -> Seq<(Seq<char>, usize)>
    decreases keys.len(),
{
    if keys.len() == 0 {
        s
    } else {
        cache_after(
            after_lookups(s, capacity, keys.drop_last(), devices.drop_last()),
            capacity,
            keys.last(),
            devices.last(),
        )
    }
}

/// Up to `capacity` lookups of distinct keys on an empty cache keep every result.
pub proof fn lemma_lookups_fill(capacity: nat, keys: Seq<Seq<char>>, devices: Seq<usize>)
    requires
        keys.len() <= capacity,
        devices.len() == keys.len(),
        keys.no_duplicates(),
    ensures
        after_lookups(Seq::empty(), capacity, keys, devices) == paired(keys, devices),
    decreases keys.len(),
{
    if keys.len() > 0 {
        let k0 = keys.drop_last();
        let d0 = devices.drop_last();
        assert(k0.no_duplicates());
        lemma_lookups_fill(capacity, k0, d0);
        let prev = paired(k0, d0);
        if has_key(prev, keys.last()) {
            let i = choose|i: int| 0 <= i < prev.len() && #[trigger] prev[i].0 == keys.last();
            assert(keys[i] == keys[keys.len() - 1]);
        }
        assert(inserted(prev, capacity, keys.last(), devices.last()) =~= paired(keys, devices));
    }
}

/// Bounded eviction over a run of lookups: `capacity + 1` lookups of distinct keys on an
/// empty cache of capacity `capacity` leave exactly the last `capacity` results; the first
/// key, the least recently used, is the one evicted.
pub proof fn lemma_lookups_evict_first(capacity: nat, keys: Seq<Seq<char>>, devices: Seq<usize>)
    requires
        capacity > 0,
        keys.len() == capacity + 1,
        devices.len() == keys.len(),
        keys.no_duplicates(),
    ensures
        after_lookups(Seq::empty(), capacity, keys, devices) == paired(
            keys.drop_first(),
            devices.drop_first(),
        ),
        !has_key(after_lookups(Seq::empty(), capacity, keys, devices), keys[0]),
{
    let k0 = keys.drop_last();
    let d0 = devices.drop_last();
    assert(k0.no_duplicates());
    lemma_lookups_fill(capacity, k0, d0);
    let prev = paired(k0, d0);
    if has_key(prev, keys.last()) {
        let i = choose|i: int| 0 <= i < prev.len() && #[trigger] prev[i].0 == keys.last();
        assert(keys[i] == keys[keys.len() - 1]);
    }
    let r = after_lookups(Seq::empty(), capacity, keys, devices);
    assert(r =~= paired(keys.drop_first(), devices.drop_first()));
    if has_key(r, keys[0]) {
        let i = choose|i: int| 0 <= i < r.len() && #[trigger] r[i].0 == keys[0];
        assert(keys[i + 1] == keys[0]);
    }
}

} // verus!
