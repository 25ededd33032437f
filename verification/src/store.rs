//! The key-value storage layer: string keys, opaque text values, and a
//! time-to-live that is refreshed on every write. Reads see an entry only
//! while its expiry lies in the future.

use vstd::prelude::*;
use vstd::string::*;

verus! {

/// What storage operations can fail with: an unreachable backend, a failed
/// call, an undecodable stored value, or an absent (or expired) key.
#[derive(Debug)]
pub enum StorageErrors {
    Pool(String),
    Client(String),
    Json(String),
    NotFound(String),
}

pub ghost struct EntryV {
    pub key: Seq<u8>,
    pub value: Seq<u8>,
    pub expires_at: int,
}

struct Entry {
    key: Vec<u8>,
    value: Vec<u8>,
    expires_at: i64,
}

impl View for Entry {
    type V = EntryV;

    closed spec fn view(&self) -> EntryV {
        EntryV { key: self.key@, value: self.value@, expires_at: self.expires_at as int }
    }
}

/// The in-memory realization of the store: a list of entries with
/// pairwise-distinct keys.
pub struct Storage {
    entries: Vec<Entry>,
}

impl View for Storage {
    type V = Seq<EntryV>;

    closed spec fn view(&self) -> Seq<EntryV> {
        self.entries@.map_values(|e: Entry| e@)
    }
}

/// Index of the entry holding `k`, or -1.
pub open spec fn idx_of(s: Seq<EntryV>, k: Seq<u8>) -> int
    decreases s.len(),
{
    if s.len() == 0 {
        -1
    } else if s[0].key == k {
        0
    } else {
        let r = idx_of(s.drop_first(), k);
        if r == -1 {
            -1
        } else {
            r + 1
        }
    }
}

pub open spec fn has_key(s: Seq<EntryV>, k: Seq<u8>) -> bool {
    idx_of(s, k) >= 0
}

/// The value stored under `k`, as seen at time `now`.
pub open spec fn store_get(s: Seq<EntryV>, k: Seq<u8>, now: int) -> Option<Seq<u8>> {
    let i = idx_of(s, k);
    if i >= 0 && s[i].expires_at > now {
        Some(s[i].value)
    } else {
        None
    }
}

/// The store after writing `v` under `k` with expiry `exp`.
pub open spec fn store_set(s: Seq<EntryV>, k: Seq<u8>, v: Seq<u8>, exp: int) -> Seq<EntryV> {
    let i = idx_of(s, k);
    if i >= 0 {
        s.update(i, EntryV { key: k, value: v, expires_at: exp })
    } else {
        s.push(EntryV { key: k, value: v, expires_at: exp })
    }
}

/// The store after deleting `k`.
pub open spec fn store_del(s: Seq<EntryV>, k: Seq<u8>) -> Seq<EntryV> {
    let i = idx_of(s, k);
    if i >= 0 {
        s.remove(i)
    } else {
        s
    }
}

/// The live values whose keys begin with `prefix`, in entry order.
pub open spec fn live_values(s: Seq<EntryV>, prefix: Seq<u8>, now: int) -> Seq<Seq<u8>>
    decreases s.len(),
{
    if s.len() == 0 {
        Seq::empty()
    } else {
        let rest = live_values(s.drop_first(), prefix, now);
        if prefix.is_prefix_of(s[0].key) && s[0].expires_at > now {
            seq![s[0].value] + rest
        } else {
            rest
        }
    }
}

/// Keys are pairwise distinct.
pub open spec fn wf_store(s: Seq<EntryV>) -> bool {
    forall|i: int, j: int| 0 <= i < j < s.len() ==> s[i].key != s[j].key
}

pub proof fn lemma_idx_of(s: Seq<EntryV>, k: Seq<u8>)
    ensures
        -1 <= idx_of(s, k) < s.len(),
        idx_of(s, k) >= 0 ==> s[idx_of(s, k)].key == k,
        idx_of(s, k) == -1 ==> forall|i: int| 0 <= i < s.len() ==> s[i].key != k,
    decreases s.len(),
{
    if s.len() == 0 {
    } else if s[0].key == k {
    } else {
        lemma_idx_of(s.drop_first(), k);
        if idx_of(s, k) == -1 {
            assert forall|i: int| 0 <= i < s.len() implies s[i].key != k by {
                if i >= 1 {
                    assert(s.drop_first()[i - 1] == s[i]);
                }
            }
        } else {
            assert(s.drop_first()[idx_of(s.drop_first(), k)] == s[idx_of(s, k)]);
        }
    }
}

pub proof fn lemma_idx_of_first(s: Seq<EntryV>, k: Seq<u8>, i: int)
    requires
        0 <= i < s.len(),
        s[i].key == k,
        forall|j: int| 0 <= j < i ==> s[j].key != k,
    ensures
        idx_of(s, k) == i,
    decreases s.len(),
{
    if i == 0 {
    } else {
        assert(s.drop_first()[i - 1] == s[i]);
        assert(forall|j: int|
            0 <= j < i - 1 ==> #[trigger] s.drop_first()[j] == s[j + 1]);
        lemma_idx_of_first(s.drop_first(), k, i - 1);
    }
}

pub proof fn lemma_idx_of_none(s: Seq<EntryV>, k: Seq<u8>)
    requires
        forall|i: int| 0 <= i < s.len() ==> s[i].key != k,
    ensures
        idx_of(s, k) == -1,
    decreases s.len(),
{
    if s.len() == 0 {
    } else {
        assert(forall|j: int|
            0 <= j < s.len() - 1 ==> #[trigger] s.drop_first()[j] == s[j + 1]);
        lemma_idx_of_none(s.drop_first(), k);
    }
}

/// How one write changes what every later read sees: the written key holds
/// the new value until its expiry, every other key is untouched.
pub proof fn lemma_set_get(s: Seq<EntryV>, k: Seq<u8>, v: Seq<u8>, exp: int, k2: Seq<u8>, now: int)
    requires
        wf_store(s),
    ensures
        wf_store(store_set(s, k, v, exp)),
        store_get(store_set(s, k, v, exp), k2, now) == (if k2 == k {
            if exp > now {
                Some(v)
            } else {
                None
            }
        } else {
            store_get(s, k2, now)
        }),
        has_key(store_set(s, k, v, exp), k2) == (k2 == k || has_key(s, k2)),
{
    lemma_idx_of(s, k);
    let i = idx_of(s, k);
    let e = EntryV { key: k, value: v, expires_at: exp };
    if i >= 0 {
        let t = s.update(i, e);
        assert(forall|j: int| 0 <= j < t.len() && j != i ==> t[j] == s[j]);
        assert(wf_store(t));
        lemma_idx_of(s, k2);
        if k2 == k {
            lemma_idx_of_first(t, k, i);
        } else {
            let i2 = idx_of(s, k2);
            if i2 >= 0 {
                assert(i2 != i);
                lemma_idx_of_first(t, k2, i2);
            } else {
                lemma_idx_of_none(t, k2);
            }
        }
    } else {
        let t = s.push(e);
        assert(forall|j: int| 0 <= j < s.len() ==> t[j] == s[j]);
        assert(forall|j: int| 0 <= j < s.len() ==> s[j].key != k);
        assert(wf_store(t));
        lemma_idx_of(s, k2);
        if k2 == k {
            lemma_idx_of_first(t, k, s.len() as int);
        } else {
            let i2 = idx_of(s, k2);
            if i2 >= 0 {
                lemma_idx_of_first(t, k2, i2);
            } else {
                lemma_idx_of_none(t, k2);
            }
        }
    }
}

/// How one delete changes what every later read sees.
pub proof fn lemma_del_get(s: Seq<EntryV>, k: Seq<u8>, k2: Seq<u8>, now: int)
    requires
        wf_store(s),
    ensures
        wf_store(store_del(s, k)),
        store_get(store_del(s, k), k2, now) == (if k2 == k {
            None::<Seq<u8>>
        } else {
            store_get(s, k2, now)
        }),
{
    lemma_idx_of(s, k);
    let i = idx_of(s, k);
    if i >= 0 {
        let t = s.remove(i);
        assert(forall|j: int| 0 <= j < i ==> t[j] == s[j]);
        assert(forall|j: int| i <= j < t.len() ==> t[j] == s[j + 1]);
        assert(wf_store(t));
        lemma_idx_of(s, k2);
        if k2 == k {
            assert(forall|j: int| 0 <= j < t.len() ==> t[j].key != k);
            lemma_idx_of_none(t, k);
        } else {
            let i2 = idx_of(s, k2);
            if i2 >= 0 {
                if i2 < i {
                    lemma_idx_of_first(t, k2, i2);
                } else {
                    assert(i2 > i);
                    assert(t[i2 - 1] == s[i2]);
                    lemma_idx_of_first(t, k2, i2 - 1);
                }
            } else {
                lemma_idx_of_none(t, k2);
            }
        }
    }
}

/// The expiry written by a `set` at `now` with the given time to live,
/// saturated at the end of representable time.
pub open spec fn expiry_of(now: int, ttl_seconds: int) -> int {
    if now + ttl_seconds * 1000 > i64::MAX {
        i64::MAX as int
    } else {
        now + ttl_seconds * 1000
    }
}

/// Makes a byte-for-byte copy.
pub fn copy_bytes(v: &Vec<u8>) -> (r: Vec<u8>)
    ensures
        r@ == v@,
{
    let n = v.len();
    let mut out: Vec<u8> = Vec::new();
    let mut i: usize = 0;
    while i < n
        invariant
            n == v.len(),
            i <= n,
            out@ == v@.take(i as int),
        decreases n - i,
    {
        out.push(v[i]);
        proof {
            assert(v@.take(i + 1) =~= v@.take(i as int).push(v@[i as int]));
        }
        i = i + 1;
    }
    proof {
        assert(v@.take(n as int) =~= v@);
    }
    out
}

impl Storage {
    /// The store's invariant: pairwise-distinct keys.
    pub open spec fn inv(&self) -> bool {
        wf_store(self@)
    }

    /// An empty store.
    pub fn new() -> (r: Storage)
        ensures
            r@ == Seq::<EntryV>::empty(),
            r.inv(),
    {
        let r = Storage { entries: Vec::new() };
        proof {
            assert(r@ =~= Seq::<EntryV>::empty());
        }
        r
    }

    /// Position of the entry holding `key`.
    fn find(&self, key: &Vec<u8>) -> (r: Option<usize>)
        ensures
            r is None ==> idx_of(self@, key@) == -1,
            r matches Some(i) ==> i < self.entries.len() && idx_of(self@, key@) == i as int,
    {
        let n = self.entries.len();
        let mut i: usize = 0;
        while i < n
            invariant
                n == self.entries.len(),
                i <= n,
                forall|j: int| 0 <= j < i ==> self@[j].key != key@,
            decreases n - i,
        {
            if crate::text::eq_bytes(&self.entries[i].key, key) {
                proof {
                    lemma_idx_of_first(self@, key@, i as int);
                }
                return Some(i);
            }
            i = i + 1;
        }
        proof {
            lemma_idx_of_none(self@, key@);
        }
        None
    }

    /// Reads the value under `key` as of time `now`; an absent or expired
    /// key is `NotFound`.
    pub fn get(&self, key: &Vec<u8>, now: i64) -> (r: Result<Vec<u8>, StorageErrors>)
        ensures
            r matches Ok(v) ==> store_get(self@, key@, now as int) == Some(v@),
            r matches Err(e) ==> store_get(self@, key@, now as int) is None && e is NotFound,
    {
        match self.find(key) {
            Some(i) => {
                let entry = &self.entries[i];
                if entry.expires_at > now {
                    Ok(copy_bytes(&entry.value))
                } else {
                    Err(StorageErrors::NotFound(String::from_str("key expired")))
                }
            },
            None => Err(StorageErrors::NotFound(String::from_str("key not found"))),
        }
    }

    /// Writes `value` under `key`, resetting the entry's time to live.
    pub fn set(&mut self, key: Vec<u8>, value: Vec<u8>, ttl_seconds: u64, now: i64)
        requires
            old(self).inv(),
        ensures
            final(self).inv(),
            final(self)@ == store_set(
                old(self)@,
                key@,
                value@,
                expiry_of(now as int, ttl_seconds as int),
            ),
    {
        let expires_at = expiry_at(now, ttl_seconds);
        let ghost kv = key@;
        let ghost vv = value@;
        proof {
            lemma_set_get(self@, kv, vv, expiry_of(now as int, ttl_seconds as int), kv, 0);
        }
        let entry = Entry { key, value, expires_at };
        match self.find(&entry.key) {
            Some(i) => {
                self.entries.remove(i);
                self.entries.insert(i, entry);
                proof {
                    assert(self@ =~= store_set(
                        old(self)@,
                        kv,
                        vv,
                        expiry_of(now as int, ttl_seconds as int),
                    ));
                }
            },
            None => {
                self.entries.push(entry);
                proof {
                    assert(self@ =~= store_set(
                        old(self)@,
                        kv,
                        vv,
                        expiry_of(now as int, ttl_seconds as int),
                    ));
                }
            },
        }
    }

    /// Removes the entry under `key`, if any.
    pub fn delete(&mut self, key: &Vec<u8>)
        requires
            old(self).inv(),
        ensures
            final(self).inv(),
            final(self)@ == store_del(old(self)@, key@),
    {
        proof {
            lemma_del_get(self@, key@, key@, 0);
        }
        match self.find(key) {
            Some(i) => {
                self.entries.remove(i);
                proof {
                    assert(self@ =~= store_del(old(self)@, key@));
                }
            },
            None => {
            },
        }
    }

    /// Lists the live values whose keys begin with `prefix`, in entry order.
    pub fn get_all(&self, prefix: &Vec<u8>, now: i64) -> (r: Vec<Vec<u8>>)
        ensures
            r@.map_values(|v: Vec<u8>| v@) == live_values(self@, prefix@, now as int),
    {
        let n = self.entries.len();
        let mut out: Vec<Vec<u8>> = Vec::new();
        proof {
            assert(self@.skip(0) =~= self@);
            assert(out@.map_values(|v: Vec<u8>| v@) =~= Seq::<Seq<u8>>::empty());
        }
        let mut i: usize = 0;
        while i < n
            invariant
                n == self.entries.len(),
                i <= n,
                live_values(self@, prefix@, now as int) == out@.map_values(|v: Vec<u8>| v@)
                    + live_values(self@.skip(i as int), prefix@, now as int),
            decreases n - i,
        {
            let entry = &self.entries[i];
            proof {
                assert(self@.skip(i as int)[0] == self@[i as int]);
                assert(self@.skip(i as int).drop_first() =~= self@.skip(i + 1));
            }
            if crate::text::starts_with(&entry.key, prefix) && entry.expires_at > now {
                out.push(copy_bytes(&entry.value));
                proof {
                    assert(out@.map_values(|v: Vec<u8>| v@) =~= out@.drop_last().map_values(
                        |v: Vec<u8>| v@,
                    ).push(self@[i as int].value));
                    assert(out@.drop_last().map_values(|v: Vec<u8>| v@).push(self@[i as int].value)
                        + live_values(self@.skip(i + 1), prefix@, now as int)
                        =~= out@.drop_last().map_values(|v: Vec<u8>| v@) + (seq![self@[i as int].value]
                        + live_values(self@.skip(i + 1), prefix@, now as int)));
                }
            }
            i = i + 1;
        }
        proof {
            assert(self@.skip(n as int) =~= Seq::<EntryV>::empty());
            assert(out@.map_values(|v: Vec<u8>| v@) + live_values(
                self@.skip(n as int),
                prefix@,
                now as int,
            ) =~= out@.map_values(|v: Vec<u8>| v@));
        }
        out
    }
}

/// The expiry a `set` at `now` gives an entry, saturated against overflow.
fn expiry_at(now: i64, ttl_seconds: u64) -> (r: i64)
    ensures
        r as int == expiry_of(now as int, ttl_seconds as int),
{
    let ttl_ms: u128 = (ttl_seconds as u128) * 1000;
    let sum: i128 = now as i128 + ttl_ms as i128;
    if sum > i64::MAX as i128 {
        i64::MAX
    } else {
        sum as i64
    }
}

} // verus!
