//! A bounded cache that remembers the most recently stored keys.
//!
//! Keys are kept in the order in which they were last stored, the most recent
//! first. Storing a new key into a full cache evicts the key stored longest ago.

use vstd::prelude::*;

verus! {

/// Position of the first entry with key `k`, or the length when there is none.
pub open spec fn key_position<K, T>(entries: Seq<(K, T)>, k: K) -> int
    decreases entries.len(),
{
    if entries.len() == 0 {
        0
    } else if entries[0].0 == k {
        0
    } else {
        1 + key_position(entries.drop_first(), k)
    }
}

/// Some entry has key `k`.
pub open spec fn has_key<K, T>(entries: Seq<(K, T)>, k: K) -> bool {
    exists|i: int| 0 <= i < entries.len() && (#[trigger] entries[i]).0 == k
}

/// The value stored under `k`, if any.
pub open spec fn lookup<K, T>(entries: Seq<(K, T)>, k: K) -> Option<T> {
    if has_key(entries, k) {
        Some(entries[key_position(entries, k)].1)
    } else {
        None
    }
}

/// No key occurs twice.
pub open spec fn distinct_keys<K, T>(entries: Seq<(K, T)>) -> bool {
    forall|i: int, j: int|
        0 <= i < entries.len() && 0 <= j < entries.len() && i != j ==> (#[trigger] entries[i]).0
            != (#[trigger] entries[j]).0
}

/// The entries after storing `val` under `k` in a cache of capacity `cap`:
/// the pair goes to the front; an older entry with the same key leaves;
/// if the key is new and the cache is full, the last (oldest) entry leaves.
pub open spec fn spec_put<K, T>(entries: Seq<(K, T)>, cap: nat, k: K, val: T) -> Seq<(K, T)> {
    let rest = if has_key(entries, k) {
        entries.remove(key_position(entries, k))
    } else if entries.len() >= cap && entries.len() > 0 {
        entries.drop_last()
    } else {
        entries
    };
    seq![(k, val)] + rest
}

/// The key that storing `k` evicts, if any.
pub open spec fn spec_evicted<K, T>(entries: Seq<(K, T)>, cap: nat, k: K) -> Option<K> {
    if !has_key(entries, k) && entries.len() >= cap && entries.len() > 0 {
        Some(entries.last().0)
    } else {
        None
    }
}

pub proof fn lemma_key_position<K, T>(entries: Seq<(K, T)>, k: K, i: int)
    requires
        0 <= i < entries.len(),
        entries[i].0 == k,
        forall|j: int| 0 <= j < i ==> (#[trigger] entries[j]).0 != k,
    ensures
        key_position(entries, k) == i,
    decreases i,
{
    if i > 0 {
        assert(entries[0].0 != k);
        assert forall|j: int| 0 <= j < i - 1 implies (#[trigger] entries.drop_first()[j]).0 != k by {
            assert(entries.drop_first()[j] == entries[j + 1]);
        }
        lemma_key_position(entries.drop_first(), k, i - 1);
    }
}

/// With distinct keys, the entry at position `i` is found by its key.
pub proof fn lemma_lookup_at<K, T>(entries: Seq<(K, T)>, i: int)
    requires
        distinct_keys(entries),
        0 <= i < entries.len(),
    ensures
        has_key(entries, entries[i].0),
        key_position(entries, entries[i].0) == i,
        lookup(entries, entries[i].0) == Some(entries[i].1),
{
    assert forall|j: int| 0 <= j < i implies (#[trigger] entries[j]).0 != entries[i].0 by {}
    lemma_key_position(entries, entries[i].0, i);
}

/// Looking up `k` in `entries` with one entry removed.
pub proof fn lemma_lookup_remove<K, T>(entries: Seq<(K, T)>, p: int, k: K)
    requires
        distinct_keys(entries),
        0 <= p < entries.len(),
    ensures
        distinct_keys(entries.remove(p)),
        lookup(entries.remove(p), k) == if entries[p].0 == k {
            None
        } else {
            lookup(entries, k)
        },
{
    let r = entries.remove(p);
    assert forall|i: int, j: int|
        0 <= i < r.len() && 0 <= j < r.len() && i != j implies (#[trigger] r[i]).0 != (
    #[trigger] r[j]).0 by {
        let ii = if i < p { i } else { i + 1 };
        let jj = if j < p { j } else { j + 1 };
        assert(r[i] == entries[ii]);
        assert(r[j] == entries[jj]);
    }
    if has_key(r, k) {
        let i = choose|i: int| 0 <= i < r.len() && (#[trigger] r[i]).0 == k;
        let ii = if i < p { i } else { i + 1 };
        assert(r[i] == entries[ii]);
        lemma_lookup_at(r, i);
        lemma_lookup_at(entries, ii);
    } else {
        if entries[p].0 != k && has_key(entries, k) {
            let j = choose|j: int| 0 <= j < entries.len() && (#[trigger] entries[j]).0 == k;
            let jj = if j < p { j } else { j - 1 };
            assert(r[jj] == entries[j]);
        }
    }
}

/// Looking up `k` after a new pair is put in front.
proof fn lemma_lookup_front<K, T>(entries: Seq<(K, T)>, k: K, val: T, q: K)
    requires
        distinct_keys(entries),
        !has_key(entries, k),
    ensures
        distinct_keys(seq![(k, val)] + entries),
        lookup(seq![(k, val)] + entries, q) == if q == k {
            Some(val)
        } else {
            lookup(entries, q)
        },
{
    let s = seq![(k, val)] + entries;
    assert forall|i: int, j: int|
        0 <= i < s.len() && 0 <= j < s.len() && i != j implies (#[trigger] s[i]).0 != (
    #[trigger] s[j]).0 by {
        if i > 0 {
            assert(s[i] == entries[i - 1]);
        }
        if j > 0 {
            assert(s[j] == entries[j - 1]);
        }
    }
    assert(s[0] == (k, val));
    lemma_lookup_at(s, 0);
    if q != k {
        if has_key(entries, q) {
            let i = choose|i: int| 0 <= i < entries.len() && (#[trigger] entries[i]).0 == q;
            assert(s[i + 1] == entries[i]);
            lemma_lookup_at(entries, i);
            lemma_lookup_at(s, i + 1);
        } else {
            if has_key(s, q) {
                let i = choose|i: int| 0 <= i < s.len() && (#[trigger] s[i]).0 == q;
                assert(s[i] == entries[i - 1]);
            }
        }
    }
}

/// What a put does to lookups: the stored key gives the new value, the evicted
/// key (if any) gives nothing, and every other key gives what it gave before.
pub proof fn lemma_put_lookup<K, T>(
    entries: Seq<(K, T)>,
    cap: nat,
    k: K,
    val: T,
    q: K,
)
    requires
        distinct_keys(entries),
        cap > 0,
        entries.len() <= cap,
    ensures
        distinct_keys(spec_put(entries, cap, k, val)),
        spec_put(entries, cap, k, val).len() <= cap,
        lookup(spec_put(entries, cap, k, val), q) == if q == k {
            Some(val)
        } else if spec_evicted(entries, cap, k) == Some(q) {
            None
        } else {
            lookup(entries, q)
        },
{
    if has_key(entries, k) {
        let p = key_position(entries, k);
        let i = choose|i: int| 0 <= i < entries.len() && (#[trigger] entries[i]).0 == k;
        lemma_lookup_at(entries, i);
        lemma_lookup_remove(entries, p, q);
        lemma_lookup_remove(entries, p, k);
        lemma_lookup_front(entries.remove(p), k, val, q);
    } else if entries.len() >= cap {
        let p = entries.len() - 1;
        assert(entries.drop_last() =~= entries.remove(p));
        lemma_lookup_remove(entries, p, q);
        lemma_lookup_remove(entries, p, k);
        lemma_lookup_front(entries.drop_last(), k, val, q);
    } else {
        lemma_lookup_front(entries, k, val, q);
    }
}

/// The map that a list of entries with distinct keys stands for.
pub open spec fn entries_map<K, T>(entries: Seq<(K, T)>) -> Map<K, T> {
    Map::new(|k: K| has_key(entries, k), |k: K| lookup(entries, k)->0)
}

/// Two lists that agree on every lookup stand for the same map.
pub proof fn lemma_entries_map_ext<K, T>(a: Seq<(K, T)>, m: Map<K, T>)
    requires
        forall|q: K| #[trigger] lookup(a, q) == if m.contains_key(q) { Some(m[q]) } else { None::<T> },
    ensures
        entries_map(a) == m,
{
    assert forall|q: K| #[trigger] entries_map(a).contains_key(q) == m.contains_key(q) by {
        assert(lookup(a, q) == if m.contains_key(q) { Some(m[q]) } else { None::<T> });
    }
    assert forall|q: K| m.contains_key(q) implies #[trigger] entries_map(a)[q] == m[q] by {
        assert(lookup(a, q) == Some(m[q]));
    }
    assert(entries_map(a) =~= m);
}

/// Lookups in a list give what its map gives.
pub proof fn lemma_lookup_map<K, T>(a: Seq<(K, T)>, q: K)
    ensures
        lookup(a, q) == if entries_map(a).contains_key(q) { Some(entries_map(a)[q]) } else { None::<T> },
{
}

/// Replacing the value at position `p` keeps the keys and changes one lookup.
pub proof fn lemma_lookup_update<K, T>(entries: Seq<(K, T)>, p: int, v: T, q: K)
    requires
        distinct_keys(entries),
        0 <= p < entries.len(),
    ensures
        distinct_keys(entries.update(p, (entries[p].0, v))),
        lookup(entries.update(p, (entries[p].0, v)), q) == if q == entries[p].0 {
            Some(v)
        } else {
            lookup(entries, q)
        },
{
    let k = entries[p].0;
    let u = entries.update(p, (k, v));
    assert forall|i: int, j: int|
        0 <= i < u.len() && 0 <= j < u.len() && i != j implies (#[trigger] u[i]).0 != (
    #[trigger] u[j]).0 by {
        assert(u[i].0 == entries[i].0);
        assert(u[j].0 == entries[j].0);
    }
    if has_key(u, q) {
        let i = choose|i: int| 0 <= i < u.len() && (#[trigger] u[i]).0 == q;
        assert(entries[i].0 == q);
        lemma_lookup_at(u, i);
        lemma_lookup_at(entries, i);
    } else {
        if has_key(entries, q) {
            let i = choose|i: int| 0 <= i < entries.len() && (#[trigger] entries[i]).0 == q;
            assert(u[i].0 == q);
        }
    }
}

/// Appending an entry with a new key adds one lookup.
pub proof fn lemma_lookup_push<K, T>(entries: Seq<(K, T)>, k: K, v: T, q: K)
    requires
        distinct_keys(entries),
        !has_key(entries, k),
    ensures
        distinct_keys(entries.push((k, v))),
        lookup(entries.push((k, v)), q) == if q == k {
            Some(v)
        } else {
            lookup(entries, q)
        },
{
    let u = entries.push((k, v));
    assert forall|i: int, j: int|
        0 <= i < u.len() && 0 <= j < u.len() && i != j implies (#[trigger] u[i]).0 != (
    #[trigger] u[j]).0 by {
        if i < entries.len() {
            assert(u[i] == entries[i]);
        }
        if j < entries.len() {
            assert(u[j] == entries[j]);
        }
    }
    if has_key(u, q) {
        let i = choose|i: int| 0 <= i < u.len() && (#[trigger] u[i]).0 == q;
        lemma_lookup_at(u, i);
        if i < entries.len() {
            assert(u[i] == entries[i]);
            lemma_lookup_at(entries, i);
        }
    } else {
        if has_key(entries, q) {
            let i = choose|i: int| 0 <= i < entries.len() && (#[trigger] entries[i]).0 == q;
            assert(u[i] == entries[i]);
        }
        assert(u[entries.len() as int] == (k, v));
    }
}

/// The entries with every value passed through `f`.
pub open spec fn map_entries<K, T, U>(s: Seq<(K, T)>, f: spec_fn(T) -> U) -> Seq<(K, U)> {
    s.map_values(|e: (K, T)| (e.0, f(e.1)))
}

proof fn lemma_map_entries_position<K, T, U>(s: Seq<(K, T)>, f: spec_fn(T) -> U, k: K)
    ensures
        key_position(map_entries(s, f), k) == key_position(s, k),
        has_key(map_entries(s, f), k) == has_key(s, k),
    decreases s.len(),
{
    let m = map_entries(s, f);
    if s.len() > 0 {
        assert(m.drop_first() =~= map_entries(s.drop_first(), f));
        lemma_map_entries_position(s.drop_first(), f, k);
    }
    if has_key(s, k) {
        let i = choose|i: int| 0 <= i < s.len() && (#[trigger] s[i]).0 == k;
        assert(m[i].0 == k);
    }
    if has_key(m, k) {
        let i = choose|i: int| 0 <= i < m.len() && (#[trigger] m[i]).0 == k;
        assert(s[i].0 == k);
    }
}

/// Passing values through a function keeps the keys and maps lookups.
pub proof fn lemma_map_entries_lookup<K, T, U>(s: Seq<(K, T)>, f: spec_fn(T) -> U, k: K)
    ensures
        distinct_keys(map_entries(s, f)) == distinct_keys(s),
        map_entries(s, f).len() == s.len(),
        lookup(map_entries(s, f), k) == match lookup(s, k) {
            Some(x) => Some(f(x)),
            None => None::<U>,
        },
{
    let m = map_entries(s, f);
    lemma_map_entries_position(s, f, k);
    if has_key(s, k) {
        lemma_key_position_bound(s, k);
    }
    assert forall|i: int| 0 <= i < s.len() implies (#[trigger] m[i]).0 == s[i].0 by {}
    if distinct_keys(s) {
        assert forall|i: int, j: int|
            0 <= i < m.len() && 0 <= j < m.len() && i != j implies (#[trigger] m[i]).0 != (
        #[trigger] m[j]).0 by {
            assert(m[i].0 == s[i].0 && m[j].0 == s[j].0);
        }
    }
    if distinct_keys(m) {
        assert forall|i: int, j: int|
            0 <= i < s.len() && 0 <= j < s.len() && i != j implies (#[trigger] s[i]).0 != (
        #[trigger] s[j]).0 by {
            assert(m[i].0 == s[i].0 && m[j].0 == s[j].0);
        }
    }
}

/// The position of a present key holds that key.
pub proof fn lemma_key_position_bound<K, T>(s: Seq<(K, T)>, k: K)
    requires
        has_key(s, k),
    ensures
        0 <= key_position(s, k) < s.len(),
        s[key_position(s, k)].0 == k,
    decreases s.len(),
{
    if s[0].0 != k {
        let i = choose|i: int| 0 <= i < s.len() && (#[trigger] s[i]).0 == k;
        assert(s.drop_first()[i - 1].0 == k);
        lemma_key_position_bound(s.drop_first(), k);
    }
}

/// Passing values through a function commutes with storing a value.
pub proof fn lemma_map_entries_put<K, T, U>(s: Seq<(K, T)>, f: spec_fn(T) -> U, cap: nat, k: K, v: T)
    ensures
        spec_put(map_entries(s, f), cap, k, f(v)) == map_entries(spec_put(s, cap, k, v), f),
{
    let m = map_entries(s, f);
    lemma_map_entries_position(s, f, k);
    let g = |e: (K, T)| (e.0, f(e.1));
    if has_key(s, k) {
        lemma_key_position_bound(s, k);
        let p = key_position(s, k);
        assert(m.remove(p) =~= map_entries(s.remove(p), f));
        assert(spec_put(m, cap, k, f(v)) == seq![(k, f(v))] + m.remove(p));
        assert(spec_put(s, cap, k, v) == seq![(k, v)] + s.remove(p));
        assert(seq![(k, f(v))] + map_entries(s.remove(p), f) =~= map_entries(seq![(k, v)] + s.remove(p), f));
    } else if s.len() >= cap {
        if s.len() > 0 {
            assert(m.drop_last() =~= map_entries(s.drop_last(), f));
            assert(seq![(k, f(v))] + map_entries(s.drop_last(), f) =~= map_entries(seq![(k, v)] + s.drop_last(), f));
        } else {
            assert(seq![(k, f(v))] + m =~= map_entries(seq![(k, v)] + s, f));
        }
    } else {
        assert(seq![(k, f(v))] + m =~= map_entries(seq![(k, v)] + s, f));
    }
}

/// Custom implementation of a cache of bounded size.
pub struct Cache<T> {
    /// Entries, the most recently stored first.
    storage: std::collections::VecDeque<(String, T)>,
    capacity: usize,
}

impl<T> View for Cache<T> {
    type V = Seq<(Seq<char>, T)>;

    closed spec fn view(&self) -> Seq<(Seq<char>, T)> {
        self.storage@.map_values(|e: (String, T)| (e.0@, e.1))
    }
}

impl<T> Cache<T> {
    /// The most number of entries the cache holds.
    pub closed spec fn spec_capacity(&self) -> nat {
        self.capacity as nat
    }

    /// The cache is well formed: no key twice and no more entries than its capacity.
    pub open spec fn wf(&self) -> bool {
        &&& distinct_keys(self@)
        &&& self@.len() <= self.spec_capacity()
    }

    /// Whether the cache is well formed.
    pub fn check_wf(&self) -> (r: bool)
        ensures
            r == self.wf(),
    {
        let n = self.storage.len();
        if n > self.capacity {
            return false;
        }
        let mut i: usize = 0;
        while i < n
            invariant
                n == self@.len(),
                i <= n,
                forall|a: int, b: int|
                    0 <= a < i && 0 <= b < n && a != b ==> (#[trigger] self@[a]).0 != (
                    #[trigger] self@[b]).0,
            decreases n - i,
        {
            let mut j: usize = 0;
            while j < n
                invariant
                    n == self@.len(),
                    i < n,
                    j <= n,
                    forall|b: int| 0 <= b < j && b != i ==> self@[i as int].0 != (#[trigger] self@[b]).0,
                decreases n - j,
            {
                proof {
                    assert(self@[i as int].0 == self.storage@[i as int].0@);
                    assert(self@[j as int].0 == self.storage@[j as int].0@);
                }
                if j != i && self.storage[i].0 == self.storage[j].0 {
                    return false;
                }
                j = j + 1;
            }
            proof {
                assert forall|a: int, b: int|
                    0 <= a < i + 1 && 0 <= b < n && a != b implies (#[trigger] self@[a]).0 != (
                    #[trigger] self@[b]).0 by {
                    if b == i {
                        assert(self@[b].0 != self@[a].0);
                    }
                }
            }
            i = i + 1;
        }
        true
    }

    /// The most number of entries the cache holds.
    pub fn capacity(&self) -> (c: usize)
        ensures
            c == self.spec_capacity(),
    {
        self.capacity
    }

    /// An empty cache that holds at most `capacity` entries.
    pub fn new(capacity: usize) -> (c: Cache<T>)
        ensures
            c.wf(),
            c@ == Seq::<(Seq<char>, T)>::empty(),
            c.spec_capacity() == capacity,
    {
        let c = Cache { storage: std::collections::VecDeque::new(), capacity };
        assert(c@ =~= Seq::<(Seq<char>, T)>::empty());
        c
    }

    /// A cache holding `entries` (the most recently stored first); `None`
    /// where a key repeats or there are more entries than `capacity`.
    pub fn from_parts(entries: Vec<(String, T)>, capacity: usize) -> (r: Option<Cache<T>>)
        ensures
            match r {
                Some(c) => c.wf() && c@ == entries@.map_values(|e: (String, T)| (e.0@, e.1))
                    && c.spec_capacity() == capacity,
                None => !(distinct_keys(entries@.map_values(|e: (String, T)| (e.0@, e.1)))
                    && entries@.len() <= capacity),
            },
    {
        let ghost all = entries@.map_values(|e: (String, T)| (e.0@, e.1));
        let mut rest = entries;
        let mut storage: std::collections::VecDeque<(String, T)> = std::collections::VecDeque::new();
        while rest.len() > 0
            invariant
                storage@.map_values(|e: (String, T)| (e.0@, e.1)) + rest@.map_values(
                    |e: (String, T)| (e.0@, e.1),
                ) == all,
            decreases rest.len(),
        {
            let ghost before = rest@;
            let ghost st_before = storage@;
            let e = rest.remove(0);
            storage.push_back(e);
            proof {
                assert(storage@ == st_before.push(before[0]));
                assert(rest@ == before.remove(0));
                assert(storage@.map_values(|e: (String, T)| (e.0@, e.1)) + rest@.map_values(
                    |e: (String, T)| (e.0@, e.1),
                ) =~= st_before.map_values(|e: (String, T)| (e.0@, e.1)) + before.map_values(
                    |e: (String, T)| (e.0@, e.1),
                ));
            }
        }
        let c = Cache { storage, capacity };
        proof {
            assert(c@ =~= all);
        }
        if c.check_wf() {
            Some(c)
        } else {
            None
        }
    }

    /// Position of `key` in the storage, if it is there.
    fn position(&self, key: &String) -> (r: Option<usize>)
        ensures
            match r {
                Some(p) => p < self@.len() && has_key(self@, key@) && p == key_position(
                    self@,
                    key@,
                ),
                None => !has_key(self@, key@),
            },
    {
        let mut i: usize = 0;
        let n = self.storage.len();
        while i < n
            invariant
                n == self@.len(),
                i <= n,
                forall|j: int| 0 <= j < i ==> (#[trigger] self@[j]).0 != key@,
            decreases n - i,
        {
            proof {
                assert(self@[i as int] == (self.storage@[i as int].0@, self.storage@[i as int].1));
            }
            if self.storage[i].0 == *key {
                proof {
                    lemma_key_position(self@, key@, i as int);
                }
                return Some(i);
            }
            i = i + 1;
        }
        None
    }

    /// Store `val` under `key`, as the most recent entry.
    ///
    /// A key already present moves to the front with its new value. A new key
    /// that finds the cache full evicts the entry stored longest ago.
    pub fn put(&mut self, key: String, val: T)
        requires
            old(self).wf(),
            old(self).spec_capacity() > 0 || has_key(old(self)@, key@),
        ensures
            final(self).wf(),
            final(self).spec_capacity() == old(self).spec_capacity(),
            final(self)@ == spec_put(old(self)@, old(self).spec_capacity(), key@, val),
    {
        let ghost k = key@;
        let ghost old_view = self@;
        match self.position(&key) {
            Some(pos) => {
                let _ = self.storage.remove(pos);
                proof {
                    assert(self@ =~= old_view.remove(pos as int));
                }
            },
            None => {
                if self.storage.len() >= self.capacity {
                    let _ = self.storage.pop_back();
                    proof {
                        assert(self@ =~= old_view.drop_last());
                    }
                }
            },
        }
        let ghost rest = self@;
        self.storage.push_front((key, val));
        proof {
            assert(self@ =~= seq![(k, val)] + rest);
            lemma_put_lookup(old_view, self.capacity as nat, k, val, k);
        }
    }

    /// The value stored under `key`, if any.
    pub fn get(&self, key: &String) -> (r: Option<&T>)
        requires
            self.wf(),
        ensures
            r == match lookup(self@, key@) {
                Some(v) => Some(&v),
                None => None,
            },
    {
        match self.position(key) {
            Some(p) => {
                proof {
                    assert(self@[p as int].1 == self.storage@[p as int].1);
                }
                Some(&self.storage[p].1)
            },
            None => None,
        }
    }
}

impl<T: Copy> Cache<T> {
    /// The entries, the most recently stored first.
    pub fn to_parts(&self) -> (r: Vec<(String, T)>)
        ensures
            r@.map_values(|e: (String, T)| (e.0@, e.1)) == self@,
    {
        let mut out: Vec<(String, T)> = Vec::new();
        let mut i: usize = 0;
        let n = self.storage.len();
        while i < n
            invariant
                n == self@.len(),
                i <= n,
                out@.map_values(|e: (String, T)| (e.0@, e.1)) == self@.subrange(0, i as int),
            decreases n - i,
        {
            let ghost before = out@;
            let key = self.storage[i].0.clone();
            let val: T = self.storage[i].1;
            out.push((key, val));
            proof {
                assert(self@[i as int] == (self.storage@[i as int].0@, self.storage@[i as int].1));
                assert(key == self.storage@[i as int].0);
                assert(val == self.storage@[i as int].1);
                assert(out@ == before.push((key, val)));
                assert(out@.map_values(|e: (String, T)| (e.0@, e.1)) =~= before.map_values(
                    |e: (String, T)| (e.0@, e.1),
                ).push((key@, val)));
                assert(self@.subrange(0, i + 1) =~= self@.subrange(0, i as int).push(self@[i as int]));
                assert(out@.map_values(|e: (String, T)| (e.0@, e.1)) =~= self@.subrange(0, i + 1));
            }
            i = i + 1;
        }
        proof {
            assert(self@.subrange(0, n as int) =~= self@);
        }
        out
    }
}

} // verus!
