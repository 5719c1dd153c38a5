//! The correlation store: a (sender, timestamp) fingerprint mapped to a
//! message identifier.
//!
//! Two interchangeable backends satisfy one contract.  The bounded
//! volatile backend (`LruStore`) holds at most `capacity` entries,
//! most-recently-used first, and evicts the least-recently-used entry on
//! insertion above capacity; lookups and inserts refresh recency.  The
//! durable backend (`SledStore`) keeps every entry on disk under the key
//! `"<timestamp>/<sender>"` with the identifier as eight little-endian
//! bytes; it survives restarts and — a known, deliberate limitation —
//! never evicts.
//!
//! A storage fault of the durable backend fails only the affected
//! operation, never the process.

use vstd::prelude::*;
use vstd::string::StringExecFns;
use vstd::map::*;
use crate::digits::{dec_chars_int, dec_chars, is_digit_char, fmt_i64,
    lemma_dec_chars_digits, lemma_dec_chars_int_injective};
use crate::idbytes::{bytes_of_id, id_of_bytes, encode_id, decode_id, lemma_le_bytes_len,
    lemma_id_round_trip, id_unsigned};

verus! {

broadcast use vstd::string::group_string_axioms;

/// The fingerprint under which a main-channel message is remembered:
/// the sender identity and the message timestamp, compared exactly.
#[derive(Clone, Copy, Debug, PartialEq, Eq, Structural)]
pub struct CorrelationKey {
    pub sender: i64,
    pub time: i64,
}

/// Failure of a correlation-store operation.  `Storage` is a fault of
/// the durable backend's disk layer; `MalformedValue` is a persisted
/// value cell that is not eight bytes long.  Either aborts only the
/// operation at hand.
#[derive(Clone, Copy, Debug, PartialEq, Eq, Structural)]
pub enum CacheError {
    Storage,
    MalformedValue,
}

/// The persisted key text of a fingerprint: the timestamp, a slash, the
/// sender identity, each in canonical decimal.
pub open spec fn key_chars(k: CorrelationKey) -> Seq<char> {
    dec_chars_int(k.time as int) + seq!['/'] + dec_chars_int(k.sender as int)
}

/// Canonical decimal text never contains a slash.
proof fn lemma_dec_int_no_slash(n: int)
    ensures
        forall|i: int| 0 <= i < dec_chars_int(n).len() ==> #[trigger] dec_chars_int(n)[i] != '/',
{
    lemma_dec_chars_digits(if n >= 0 { n as nat } else { (-n) as nat });
    assert forall|i: int| 0 <= i < dec_chars_int(n).len() implies #[trigger] dec_chars_int(n)[i]
        != '/' by {
        if n >= 0 {
            assert(is_digit_char(dec_chars_int(n)[i]));
        } else {
            if i == 0 {
                assert(dec_chars_int(n)[i] == '-');
            } else {
                assert(dec_chars_int(n)[i] == dec_chars((-n) as nat)[i - 1]);
                assert(is_digit_char(dec_chars_int(n)[i]));
            }
        }
    }
}

/// Distinct fingerprints have distinct persisted keys: the slash cannot
/// occur inside either decimal run, so the split is unambiguous.
pub proof fn lemma_key_chars_injective(k1: CorrelationKey, k2: CorrelationKey)
    ensures
        key_chars(k1) == key_chars(k2) ==> k1 == k2,
{
    if key_chars(k1) == key_chars(k2) {
        let a1 = dec_chars_int(k1.time as int);
        let b1 = dec_chars_int(k1.sender as int);
        let a2 = dec_chars_int(k2.time as int);
        let b2 = dec_chars_int(k2.sender as int);
        let s = key_chars(k1);
        lemma_dec_int_no_slash(k1.time as int);
        lemma_dec_int_no_slash(k1.sender as int);
        lemma_dec_int_no_slash(k2.time as int);
        lemma_dec_int_no_slash(k2.sender as int);
        assert(s[a1.len() as int] == '/');
        assert(s[a2.len() as int] == '/');
        if a1.len() < a2.len() {
            assert(s[a1.len() as int] == a2[a1.len() as int]);
            assert(false);
        } else if a2.len() < a1.len() {
            assert(s[a2.len() as int] == a1[a2.len() as int]);
            assert(false);
        }
        assert forall|i: int| 0 <= i < a1.len() implies a1[i] == a2[i] by {
            assert(a1[i] == s[i]);
            assert(a2[i] == s[i]);
        }
        assert(a1 =~= a2);
        assert(s.len() == a1.len() + 1 + b1.len());
        assert(s.len() == a2.len() + 1 + b2.len());
        assert(b1.len() == b2.len());
        assert forall|i: int| 0 <= i < b1.len() implies b1[i] == b2[i] by {
            assert(b1[i] == s[a1.len() + 1 + i]);
            assert(b2[i] == s[a2.len() + 1 + i]);
        }
        assert(b1 =~= b2);
        lemma_dec_chars_int_injective(k1.time as int, k2.time as int);
        lemma_dec_chars_int_injective(k1.sender as int, k2.sender as int);
    }
}

/// Renders the persisted key text of a fingerprint.
pub fn make_key(k: &CorrelationKey) -> (r: String)
    ensures
        r@ == key_chars(*k),
{
    let mut s = fmt_i64(k.time);
    s.append("/");
    let u = fmt_i64(k.sender);
    s.append(u.as_str());
    proof {
        reveal_strlit("/");
        assert(s@ =~= key_chars(*k));
    }
    s
}

// ------------------------------------------------------------------
// The bounded volatile backend.
// ------------------------------------------------------------------

/// The index of the first entry for `k`, or -1.
pub open spec fn find_idx(s: Seq<(CorrelationKey, i64)>, k: CorrelationKey) -> int
    decreases s.len(),
{
    if s.len() == 0 {
        -1
    } else if s[0].0 == k {
        0
    } else {
        let r = find_idx(s.drop_first(), k);
        if r < 0 {
            -1
        } else {
            r + 1
        }
    }
}

/// Whether some entry carries `k`.
pub open spec fn sc(s: Seq<(CorrelationKey, i64)>, k: CorrelationKey) -> bool {
    find_idx(s, k) >= 0
}

/// The value of the first entry for `k`.
pub open spec fn val_of(s: Seq<(CorrelationKey, i64)>, k: CorrelationKey) -> i64 {
    s[find_idx(s, k)].1
}

/// The entry list as a map from fingerprint to identifier.
pub open spec fn map_of(s: Seq<(CorrelationKey, i64)>) -> Map<CorrelationKey, i64> {
    Map::new(|k: CorrelationKey| sc(s, k), |k: CorrelationKey| val_of(s, k))
}

/// No fingerprint occurs twice.
pub open spec fn distinct_keys(s: Seq<(CorrelationKey, i64)>) -> bool {
    forall|i: int, j: int| 0 <= i < j < s.len() ==> s[i].0 != s[j].0
}

/// `find_idx` finds the first entry for `k`, and -1 means there is none.
pub proof fn lemma_find_idx(s: Seq<(CorrelationKey, i64)>, k: CorrelationKey)
    ensures
        find_idx(s, k) == -1 || 0 <= find_idx(s, k) < s.len(),
        find_idx(s, k) >= 0 ==> s[find_idx(s, k)].0 == k,
        forall|j: int| 0 <= j < s.len() && s[j].0 == k ==> find_idx(s, k) >= 0,
        find_idx(s, k) >= 0 ==> forall|j: int| 0 <= j < find_idx(s, k) ==> s[j].0 != k,
    decreases s.len(),
{
    if s.len() == 0 {
    } else if s[0].0 == k {
    } else {
        lemma_find_idx(s.drop_first(), k);
        assert(forall|j: int|
            0 <= j < s.drop_first().len() ==> s.drop_first()[j] == #[trigger] s[j + 1]);
        assert forall|j: int| 0 <= j < s.len() && s[j].0 == k implies find_idx(s, k) >= 0 by {
            assert(j != 0);
            assert(s.drop_first()[j - 1].0 == k);
        }
        if find_idx(s, k) >= 0 {
            assert forall|j: int| 0 <= j < find_idx(s, k) implies s[j].0 != k by {
                if j > 0 {
                    assert(s[j] == s.drop_first()[j - 1]);
                }
            }
        }
    }
}

/// In a distinct entry list, any entry for `k` carries `val_of`.
pub proof fn lemma_val_unique(s: Seq<(CorrelationKey, i64)>, k: CorrelationKey, i: int)
    requires
        distinct_keys(s),
        0 <= i < s.len(),
        s[i].0 == k,
    ensures
        sc(s, k),
        find_idx(s, k) == i,
        val_of(s, k) == s[i].1,
{
    lemma_find_idx(s, k);
}

/// Removes the entry for `k`, if any, keeping the order of the rest.
pub open spec fn remove_key(s: Seq<(CorrelationKey, i64)>, k: CorrelationKey) -> Seq<
    (CorrelationKey, i64),
> {
    if find_idx(s, k) < 0 {
        s
    } else {
        s.remove(find_idx(s, k))
    }
}

/// What `remove_key` does to membership and values.
pub proof fn lemma_remove_key(s: Seq<(CorrelationKey, i64)>, k: CorrelationKey)
    requires
        distinct_keys(s),
    ensures
        distinct_keys(remove_key(s, k)),
        !sc(remove_key(s, k), k),
        remove_key(s, k).len() == if sc(s, k) {
            s.len() - 1
        } else {
            s.len() as int
        },
        forall|k2: CorrelationKey| k2 != k ==> sc(remove_key(s, k), k2) == sc(s, k2),
        forall|k2: CorrelationKey|
            k2 != k && sc(s, k2) ==> val_of(remove_key(s, k), k2) == val_of(s, k2),
{
    lemma_find_idx(s, k);
    let fi = find_idx(s, k);
    if fi < 0 {
        assert forall|j: int| 0 <= j < s.len() implies s[j].0 != k by {
            lemma_find_idx(s, k);
        }
        assert(!sc(remove_key(s, k), k));
    } else {
        let r = s.remove(fi);
        assert(forall|j: int| 0 <= j < fi ==> r[j] == #[trigger] s[j]);
        assert(forall|j: int| fi <= j < r.len() ==> r[j] == #[trigger] s[j + 1]);
        assert(distinct_keys(r));
        assert forall|j: int| 0 <= j < r.len() implies r[j].0 != k by {
            if j < fi {
                assert(r[j] == s[j]);
            } else {
                assert(r[j] == s[j + 1]);
            }
        }
        lemma_find_idx(r, k);
        assert(!sc(r, k));
        assert forall|k2: CorrelationKey| k2 != k implies sc(r, k2) == sc(s, k2) by {
            lemma_find_idx(r, k2);
            lemma_find_idx(s, k2);
            if sc(s, k2) {
                let i = find_idx(s, k2);
                assert(s[i].0 == k2);
                if i < fi {
                    assert(r[i] == s[i]);
                } else {
                    assert(i != fi);
                    assert(r[i - 1] == s[i]);
                }
            }
            if sc(r, k2) {
                let i = find_idx(r, k2);
                if i < fi {
                    assert(r[i] == s[i]);
                } else {
                    assert(r[i] == s[i + 1]);
                }
            }
        }
        assert forall|k2: CorrelationKey| k2 != k && sc(s, k2) implies val_of(r, k2) == val_of(
            s,
            k2,
        ) by {
            lemma_find_idx(s, k2);
            let i = find_idx(s, k2);
            if i < fi {
                assert(r[i] == s[i]);
                lemma_val_unique(r, k2, i);
            } else {
                assert(i != fi);
                assert(r[i - 1] == s[i]);
                lemma_val_unique(r, k2, i - 1);
            }
        }
    }
}

/// One put at the recency front: remove any entry for the key, place the
/// new entry first, and if that exceeds the capacity drop the last
/// (least-recently-used) entry.
pub open spec fn lru_put_spec(
    s: Seq<(CorrelationKey, i64)>,
    cap: int,
    k: CorrelationKey,
    v: i64,
) -> Seq<(CorrelationKey, i64)> {
    let m = seq![(k, v)] + remove_key(s, k);
    if m.len() > cap {
        m.drop_last()
    } else {
        m
    }
}

/// What one put does to the map view: the key now carries the value, no
/// other key gained or changed an entry, and below capacity (or on a
/// rewrite) the view is exactly the old view plus the pair; at capacity
/// with a fresh key, exactly the least-recently-used entry leaves.
pub proof fn lemma_lru_put_map(s: Seq<(CorrelationKey, i64)>, cap: int, k: CorrelationKey, v: i64)
    requires
        distinct_keys(s),
        s.len() <= cap,
        1 <= cap,
    ensures
        distinct_keys(lru_put_spec(s, cap, k, v)),
        lru_put_spec(s, cap, k, v).len() <= cap,
        sc(lru_put_spec(s, cap, k, v), k),
        val_of(lru_put_spec(s, cap, k, v), k) == v,
        forall|k2: CorrelationKey|
            k2 != k && sc(lru_put_spec(s, cap, k, v), k2) ==> sc(s, k2) && val_of(
                lru_put_spec(s, cap, k, v),
                k2,
            ) == val_of(s, k2),
        (sc(s, k) || s.len() < cap) ==> map_of(lru_put_spec(s, cap, k, v)) == map_of(s).insert(
            k,
            v,
        ),
        !sc(s, k) && s.len() == cap ==> map_of(lru_put_spec(s, cap, k, v)) == map_of(s).insert(
            k,
            v,
        ).remove(s.last().0),
{
    lemma_remove_key(s, k);
    let r = remove_key(s, k);
    let m = seq![(k, v)] + r;
    assert(m[0] == (k, v));
    assert(forall|j: int| 0 <= j < r.len() ==> m[j + 1] == #[trigger] r[j]);
    assert(distinct_keys(m)) by {
        assert forall|i: int, j: int| 0 <= i < j < m.len() implies m[i].0 != m[j].0 by {
            if i == 0 {
                assert(m[j] == r[j - 1]);
                lemma_find_idx(r, k);
            } else {
                assert(m[i] == r[i - 1]);
                assert(m[j] == r[j - 1]);
            }
        }
    }
    lemma_membership_facts(s, r, m, cap, k, v);
}

proof fn lemma_membership_facts(
    s: Seq<(CorrelationKey, i64)>,
    r: Seq<(CorrelationKey, i64)>,
    m: Seq<(CorrelationKey, i64)>,
    cap: int,
    k: CorrelationKey,
    v: i64,
)
    requires
        distinct_keys(s),
        s.len() <= cap,
        1 <= cap,
        r == remove_key(s, k),
        m == seq![(k, v)] + r,
        distinct_keys(m),
    ensures
        distinct_keys(lru_put_spec(s, cap, k, v)),
        lru_put_spec(s, cap, k, v).len() <= cap,
        sc(lru_put_spec(s, cap, k, v), k),
        val_of(lru_put_spec(s, cap, k, v), k) == v,
        forall|k2: CorrelationKey|
            k2 != k && sc(lru_put_spec(s, cap, k, v), k2) ==> sc(s, k2) && val_of(
                lru_put_spec(s, cap, k, v),
                k2,
            ) == val_of(s, k2),
        (sc(s, k) || s.len() < cap) ==> map_of(lru_put_spec(s, cap, k, v)) == map_of(s).insert(
            k,
            v,
        ),
        !sc(s, k) && s.len() == cap ==> map_of(lru_put_spec(s, cap, k, v)) == map_of(s).insert(
            k,
            v,
        ).remove(s.last().0),
{
    lemma_remove_key(s, k);
    lemma_find_idx(s, k);
    let n = lru_put_spec(s, cap, k, v);
    let evict = m.len() > cap;
    assert(n == if evict {
        m.drop_last()
    } else {
        m
    });
    assert(forall|j: int| 0 <= j < n.len() ==> n[j] == #[trigger] m[j]);
    assert(distinct_keys(n));
    lemma_val_unique(n, k, 0);
    assert forall|k2: CorrelationKey| k2 != k && sc(n, k2) implies sc(s, k2) && val_of(n, k2)
        == val_of(s, k2) by {
        lemma_find_idx(n, k2);
        let i = find_idx(n, k2);
        assert(n[i].0 == k2);
        assert(i >= 1);
        assert(r[i - 1].0 == k2);
        lemma_val_unique(r, k2, i - 1);
        assert(sc(r, k2) && val_of(r, k2) == r[i - 1].1);
        assert(sc(s, k2));
        assert(val_of(s, k2) == val_of(r, k2));
        assert(val_of(n, k2) == n[i].1);
    }
    if sc(s, k) || s.len() < cap {
        assert(!evict);
        assert(n == m);
        assert forall|k2: CorrelationKey| #[trigger] map_of(s).insert(k, v).dom().contains(k2)
            implies map_of(n).dom().contains(k2) && map_of(n)[k2] == map_of(s).insert(k, v)[k2] by {
            if k2 == k {
            } else {
                assert(sc(s, k2));
                lemma_find_idx(s, k2);
                let i = find_idx(s, k2);
                assert(s[i].0 == k2);
                assert(sc(r, k2)) by {
                    lemma_remove_key(s, k);
                }
                lemma_find_idx(r, k2);
                let j = find_idx(r, k2);
                assert(m[j + 1].0 == k2);
                lemma_val_unique(n, k2, j + 1);
                assert(val_of(n, k2) == r[j].1);
                assert(val_of(r, k2) == r[j].1);
            }
        }
        assert(map_of(n) =~= map_of(s).insert(k, v));
    } else {
        assert(!sc(s, k) && s.len() == cap);
        assert(r == s);
        assert(evict);
        assert(n == m.drop_last());
        assert(m.last() == s.last());
        let e = s.last().0;
        assert(s[s.len() - 1].0 == e);
        lemma_val_unique(s, e, s.len() - 1);
        assert(e != k);
        assert(!sc(n, e)) by {
            lemma_find_idx(n, e);
            if sc(n, e) {
                let i = find_idx(n, e);
                assert(n[i].0 == e);
                if i >= 1 {
                    assert(n[i] == s[i - 1]);
                    assert(s[i - 1].0 == e);
                    assert(i - 1 < s.len() - 1);
                    assert(s[i - 1].0 != s[s.len() - 1].0);
                }
            }
        }
        assert forall|k2: CorrelationKey|
            #[trigger] map_of(s).insert(k, v).remove(e).dom().contains(k2) implies map_of(
            n,
        ).dom().contains(k2) && map_of(n)[k2] == map_of(s).insert(k, v).remove(e)[k2] by {
            if k2 == k {
            } else {
                assert(k2 != e);
                assert(sc(s, k2));
                lemma_find_idx(s, k2);
                let i = find_idx(s, k2);
                assert(s[i].0 == k2);
                assert(i < s.len() - 1);
                assert(m[i + 1] == s[i]);
                assert(i + 1 < n.len());
                lemma_val_unique(n, k2, i + 1);
                assert(val_of(s, k2) == s[i].1);
            }
        }
        assert forall|k2: CorrelationKey| #[trigger] map_of(n).dom().contains(k2) implies map_of(
            s,
        ).insert(k, v).remove(e).dom().contains(k2) by {
            if k2 != k {
                assert(sc(n, k2));
                assert(k2 != e);
            }
        }
        assert(map_of(n) =~= map_of(s).insert(k, v).remove(e));
    }
}

/// The bounded volatile backend: a fixed-capacity entry list ordered
/// most-recently-used first.
pub struct LruStore {
    pub entries: Vec<(CorrelationKey, i64)>,
    pub capacity: usize,
}

impl LruStore {
    /// Structural soundness: a positive capacity bound, respected, and no
    /// fingerprint listed twice.
    pub open spec fn wf(&self) -> bool {
        &&& self.capacity >= 1
        &&& self.entries@.len() <= self.capacity
        &&& distinct_keys(self.entries@)
    }

    /// The entry list, most recent first.
    pub open spec fn entries_view(&self) -> Seq<(CorrelationKey, i64)> {
        self.entries@
    }

    /// The capacity bound.
    pub open spec fn cap(&self) -> int {
        self.capacity as int
    }

    /// The live mappings.
    pub open spec fn view(&self) -> Map<CorrelationKey, i64> {
        map_of(self.entries@)
    }

    /// An empty store with the given capacity bound.
    pub fn new(capacity: usize) -> (r: LruStore)
        requires
            capacity >= 1,
        ensures
            r.wf(),
            r.entries_view() == Seq::<(CorrelationKey, i64)>::empty(),
            r.cap() == capacity,
            r.view() == Map::<CorrelationKey, i64>::empty(),
    {
        let r = LruStore { entries: Vec::new(), capacity };
        proof {
            assert forall|k: CorrelationKey| !map_of(r.entries@).dom().contains(k) by {
                lemma_find_idx(r.entries@, k);
            }
            assert(map_of(r.entries@) =~= Map::<CorrelationKey, i64>::empty());
        }
        r
    }

    /// The index of the entry for `k`, if one is live.
    fn position(&self, k: &CorrelationKey) -> (r: Option<usize>)
        requires
            self.wf(),
        ensures
            r is Some <==> sc(self.entries_view(), *k),
            r is Some ==> r->0 == find_idx(self.entries_view(), *k),
    {
        let ghost s = self.entries@;
        let mut i: usize = 0;
        while i < self.entries.len()
            invariant
                0 <= i <= s.len(),
                s == self.entries@,
                distinct_keys(s),
                forall|j: int| 0 <= j < i ==> s[j].0 != *k,
            decreases s.len() - i,
        {
            let e = self.entries[i];
            if e.0.sender == k.sender && e.0.time == k.time {
                proof {
                    lemma_val_unique(s, *k, i as int);
                }
                return Some(i);
            }
            i = i + 1;
        }
        proof {
            lemma_find_idx(s, *k);
        }
        None
    }

    /// Unconditional upsert, refreshing recency; evicts the
    /// least-recently-used entry when a fresh key lands in a full store.
    pub fn put(&mut self, k: CorrelationKey, v: i64)
        requires
            old(self).wf(),
        ensures
            final(self).wf(),
            final(self).cap() == old(self).cap(),
            final(self).entries_view() == lru_put_spec(
                old(self).entries_view(),
                old(self).cap(),
                k,
                v,
            ),
            final(self)@.contains_key(k) && final(self)@[k] == v,
            forall|k2: CorrelationKey|
                k2 != k && final(self)@.contains_key(k2) ==> old(self)@.contains_key(k2)
                    && final(self)@[k2] == old(self)@[k2],
            (old(self)@.contains_key(k) || old(self).entries_view().len() < old(self).cap())
                ==> final(self)@ == old(self)@.insert(k, v),
            put_ok_post(old(self)@, final(self)@, k, v),
    {
        let ghost s0 = self.entries@;
        let ghost cap = self.capacity as int;
        proof {
            lemma_lru_put_map(s0, cap, k, v);
            lemma_find_idx(s0, k);
        }
        match self.position(&k) {
            Some(i) => {
                self.entries.remove(i);
            },
            None => {},
        }
        proof {
            assert(self.entries@ == remove_key(s0, k));
        }
        self.entries.insert(0, (k, v));
        proof {
            assert(self.entries@ =~= seq![(k, v)] + remove_key(s0, k));
        }
        if self.entries.len() > self.capacity {
            let l = self.entries.len();
            self.entries.remove(l - 1);
            proof {
                assert(self.entries@ =~= (seq![(k, v)] + remove_key(s0, k)).drop_last());
            }
        }
        proof {
            assert(self.entries@ == lru_put_spec(s0, cap, k, v));
            assert(sc(s0, k) == map_of(s0).dom().contains(k));
        }
    }

    /// Returns the live mapping, refreshing its recency, or absent.  The
    /// live mappings are unchanged either way.
    pub fn get(&mut self, k: CorrelationKey) -> (r: Option<i64>)
        requires
            old(self).wf(),
        ensures
            final(self).wf(),
            final(self).cap() == old(self).cap(),
            r is Some <==> old(self)@.contains_key(k),
            r is Some ==> r->0 == old(self)@[k],
            final(self)@ == old(self)@,
    {
        let ghost s0 = self.entries@;
        let ghost cap = self.capacity as int;
        match self.position(&k) {
            None => {
                proof {
                    assert(!sc(s0, k));
                }
                None
            },
            Some(i) => {
                proof {
                    lemma_find_idx(s0, k);
                }
                let e = self.entries[i];
                proof {
                    assert(e == s0[find_idx(s0, k)]);
                    assert(val_of(s0, k) == e.1);
                    lemma_lru_put_map(s0, cap, k, e.1);
                    assert(sc(s0, k));
                }
                self.put(e.0, e.1);
                proof {
                    assert(e.0 == k);
                    assert(self@ == map_of(s0).insert(k, e.1));
                    assert(map_of(s0).insert(k, e.1) =~= map_of(s0));
                }
                Some(e.1)
            },
        }
    }
}

// ------------------------------------------------------------------
// Laws of the bounded backend over whole operation sequences.
// ------------------------------------------------------------------

/// The entry list after a sequence of puts, applied left to right.
pub open spec fn lru_run(
    s: Seq<(CorrelationKey, i64)>,
    cap: int,
    ops: Seq<(CorrelationKey, i64)>,
) -> Seq<(CorrelationKey, i64)>
    decreases ops.len(),
{
    if ops.len() == 0 {
        s
    } else {
        lru_put_spec(lru_run(s, cap, ops.drop_last()), cap, ops.last().0, ops.last().1)
    }
}

/// The most recent put for a key in a sequence of puts.
pub open spec fn last_put(ops: Seq<(CorrelationKey, i64)>, k: CorrelationKey) -> Option<i64>
    decreases ops.len(),
{
    if ops.len() == 0 {
        None
    } else if ops.last().0 == k {
        Some(ops.last().1)
    } else {
        last_put(ops.drop_last(), k)
    }
}

/// Last write wins, under capacity pressure: after any sequence of puts,
/// a lookup sees the value of the most recent put for that exact key or
/// nothing at all — never a stale or invented value; and a key neither
/// present at the start nor ever put is certainly absent.
pub proof fn lemma_lru_last_write_wins(
    s: Seq<(CorrelationKey, i64)>,
    cap: int,
    ops: Seq<(CorrelationKey, i64)>,
    k: CorrelationKey,
)
    requires
        distinct_keys(s),
        s.len() <= cap,
        1 <= cap,
    ensures
        distinct_keys(lru_run(s, cap, ops)),
        lru_run(s, cap, ops).len() <= cap,
        sc(lru_run(s, cap, ops), k) && last_put(ops, k) is Some ==> val_of(lru_run(s, cap, ops), k)
            == last_put(ops, k)->0,
        sc(lru_run(s, cap, ops), k) && last_put(ops, k) is None ==> sc(s, k) && val_of(
            lru_run(s, cap, ops),
            k,
        ) == val_of(s, k),
        !sc(s, k) && last_put(ops, k) is None ==> !sc(lru_run(s, cap, ops), k),
    decreases ops.len(),
{
    if ops.len() == 0 {
    } else {
        let prev = lru_run(s, cap, ops.drop_last());
        lemma_lru_last_write_wins(s, cap, ops.drop_last(), k);
        let ok = ops.last().0;
        let ov = ops.last().1;
        lemma_lru_put_map(prev, cap, ok, ov);
        if ok == k {
        } else {
            lemma_lru_last_write_wins(s, cap, ops.drop_last(), ok);
        }
    }
}

// ------------------------------------------------------------------
// Laws of an unbounded map store over whole operation sequences.
// ------------------------------------------------------------------

/// The map after a sequence of puts, applied left to right.
pub open spec fn map_run(
    m: Map<CorrelationKey, i64>,
    ops: Seq<(CorrelationKey, i64)>,
) -> Map<CorrelationKey, i64>
    decreases ops.len(),
{
    if ops.len() == 0 {
        m
    } else {
        map_run(m, ops.drop_last()).insert(ops.last().0, ops.last().1)
    }
}

// ------------------------------------------------------------------
// The durable backend, over sled.
// ------------------------------------------------------------------

#[verifier::external_type_specification]
#[verifier::external_body]
pub struct ExDb(sled::Db);

/// What the sled tree holds: each persisted key (as text) mapped to its
/// value cell.
pub uninterp spec fn db_map(db: sled::Db) -> Map<Seq<char>, Seq<u8>>;

/// Relies on sled::open: opens the tree at `path`, creating the storage
/// directory if it does not exist.  What the tree holds is whatever
/// earlier runs persisted, so nothing is assumed of the contents.
#[verifier::external_body]
fn db_open(path: &str) -> (r: Result<sled::Db, CacheError>) {
    match sled::open(path) {
        Ok(db) => Ok(db),
        Err(_) => Err(CacheError::Storage),
    }
}

/// Relies on sled::Tree::get (through Db's deref): hands back a copy of
/// the value cell stored under the key's bytes, or nothing when the key
/// is absent; a disk fault is an error and says nothing about the
/// contents.
#[verifier::external_body]
fn db_get(db: &sled::Db, key: &str) -> (r: Result<Option<Vec<u8>>, CacheError>)
    ensures
        match r {
            Ok(Some(v)) => db_map(*db).contains_key(key@) && v@ == db_map(*db)[key@],
            Ok(None) => !db_map(*db).contains_key(key@),
            Err(_) => true,
        },
{
    match db.get(key) {
        Ok(Some(iv)) => Ok(Some(iv.to_vec())),
        Ok(None) => Ok(None),
        Err(_) => Err(CacheError::Storage),
    }
}

/// Relies on sled::Tree::insert (through Db's deref): stores the value
/// cell under the key's bytes, replacing any previous cell; on a disk
/// fault nothing is assumed of the contents.
#[verifier::external_body]
fn db_insert(db: &mut sled::Db, key: &str, value: &Vec<u8>) -> (r: Result<(), CacheError>)
    ensures
        r is Ok ==> db_map(*final(db)) == db_map(*old(db)).insert(key@, value@),
{
    match db.insert(key.as_bytes(), value.as_slice()) {
        Ok(_) => Ok(()),
        Err(_) => Err(CacheError::Storage),
    }
}

/// The live mappings a sled tree holds: the keys in persisted-key form
/// whose value cell is a well-formed eight-byte identifier.
pub open spec fn sled_view_of(m: Map<Seq<char>, Seq<u8>>) -> Map<CorrelationKey, i64> {
    Map::new(
        |k: CorrelationKey| m.contains_key(key_chars(k)) && m[key_chars(k)].len() == 8,
        |k: CorrelationKey| id_of_bytes(m[key_chars(k)]),
    )
}

/// Writing one well-formed cell rewrites exactly one live mapping.
proof fn lemma_sled_insert_view(m: Map<Seq<char>, Seq<u8>>, k: CorrelationKey, v: i64)
    ensures
        sled_view_of(m.insert(key_chars(k), bytes_of_id(v))) == sled_view_of(m).insert(k, v),
{
    let m1 = m.insert(key_chars(k), bytes_of_id(v));
    lemma_le_bytes_len(id_unsigned(v), 8);
    lemma_id_round_trip(v);
    assert forall|k2: CorrelationKey| true implies #[trigger] sled_view_of(m1).dom().contains(k2)
        == sled_view_of(m).insert(k, v).dom().contains(k2) && (sled_view_of(m1).dom().contains(k2)
        ==> sled_view_of(m1)[k2] == sled_view_of(m).insert(k, v)[k2]) by {
        if k2 == k {
        } else {
            lemma_key_chars_injective(k, k2);
            assert(key_chars(k2) != key_chars(k));
        }
    }
    assert(sled_view_of(m1) =~= sled_view_of(m).insert(k, v));
}

/// The durable backend: every entry persisted on disk, never evicted.
pub struct SledStore {
    pub db: sled::Db,
}

impl SledStore {
    /// The live mappings.
    pub open spec fn view(&self) -> Map<CorrelationKey, i64> {
        sled_view_of(db_map(self.db))
    }

    /// Opens the durable store at `path`; its contents are whatever
    /// earlier runs persisted.
    pub fn new(path: &str) -> (r: Result<SledStore, CacheError>) {
        match db_open(path) {
            Ok(db) => Ok(SledStore { db }),
            Err(e) => Err(e),
        }
    }

    /// Unconditional upsert; a disk fault fails only this operation.
    pub fn put(&mut self, k: CorrelationKey, v: i64) -> (r: Result<(), CacheError>)
        ensures
            r is Ok ==> final(self)@ == old(self)@.insert(k, v),
    {
        let key = make_key(&k);
        let bytes = encode_id(v);
        match db_insert(&mut self.db, key.as_str(), &bytes) {
            Ok(u) => {
                proof {
                    lemma_sled_insert_view(db_map(old(self).db), k, v);
                }
                Ok(u)
            },
            Err(_) => Err(CacheError::Storage),
        }
    }

    /// Returns the live mapping or absent; a disk fault or a malformed
    /// value cell fails only this operation.
    pub fn get(&self, k: CorrelationKey) -> (r: Result<Option<i64>, CacheError>)
        ensures
            match r {
                Ok(Some(v)) => self@.contains_key(k) && v == self@[k],
                Ok(None) => !self@.contains_key(k) && !db_map(self.db).contains_key(key_chars(k)),
                Err(CacheError::MalformedValue) => db_map(self.db).contains_key(key_chars(k))
                    && db_map(self.db)[key_chars(k)].len() != 8,
                Err(CacheError::Storage) => true,
            },
    {
        let key = make_key(&k);
        match db_get(&self.db, key.as_str()) {
            Err(_) => Err(CacheError::Storage),
            Ok(None) => Ok(None),
            Ok(Some(bytes)) => {
                if bytes.len() == 8 {
                    Ok(Some(decode_id(&bytes)))
                } else {
                    Err(CacheError::MalformedValue)
                }
            },
        }
    }
}

// ------------------------------------------------------------------
// The correlation cache: one contract, two backends.
// ------------------------------------------------------------------

/// What a successful put promises over the live mappings, for either
/// backend: the key carries the value, and no other key gained or
/// changed a mapping (the bounded backend may have dropped its
/// least-recently-used one).
pub open spec fn put_ok_post(
    m0: Map<CorrelationKey, i64>,
    m1: Map<CorrelationKey, i64>,
    k: CorrelationKey,
    v: i64,
) -> bool {
    &&& m1.contains_key(k)
    &&& m1[k] == v
    &&& forall|k2: CorrelationKey|
        k2 != k && m1.contains_key(k2) ==> m0.contains_key(k2) && m1[k2] == m0[k2]
}

/// The correlation cache, over the backend picked at construction time.
pub enum Cache {
    Bounded(LruStore),
    Durable(SledStore),
}

impl Cache {
    /// Structural soundness of the backend.
    pub open spec fn wf(&self) -> bool {
        match self {
            Cache::Bounded(l) => l.wf(),
            Cache::Durable(_) => true,
        }
    }

    /// Whether this cache persists its entries (and then never evicts).
    pub open spec fn is_durable(&self) -> bool {
        self is Durable
    }

    /// The live mappings.
    pub open spec fn view(&self) -> Map<CorrelationKey, i64> {
        match self {
            Cache::Bounded(l) => l@,
            Cache::Durable(s) => s@,
        }
    }

    /// Opens the durable backend at `path`.
    pub fn new(path: &str) -> (r: Result<Cache, CacheError>)
        ensures
            r is Ok ==> r->Ok_0.wf() && r->Ok_0.is_durable(),
    {
        match SledStore::new(path) {
            Ok(s) => Ok(Cache::Durable(s)),
            Err(e) => Err(e),
        }
    }

    /// A bounded volatile cache holding at most `capacity` entries.
    pub fn new_bounded(capacity: usize) -> (r: Cache)
        requires
            capacity >= 1,
        ensures
            r.wf(),
            !r.is_durable(),
            r@ == Map::<CorrelationKey, i64>::empty(),
    {
        Cache::Bounded(LruStore::new(capacity))
    }

    /// Unconditional upsert: overwrites any live mapping for the key.
    /// Infallible on the bounded backend; on the durable backend the
    /// mappings become exactly the old ones plus the pair, and a disk
    /// fault fails only this operation.
    pub fn set(&mut self, key: CorrelationKey, m: i64) -> (r: Result<(), CacheError>)
        requires
            old(self).wf(),
        ensures
            final(self).wf(),
            final(self).is_durable() == old(self).is_durable(),
            !old(self).is_durable() ==> r is Ok,
            r is Ok ==> put_ok_post(old(self)@, final(self)@, key, m),
            r is Ok && old(self).is_durable() ==> final(self)@ == old(self)@.insert(key, m),
    {
        match self {
            Cache::Bounded(l) => {
                l.put(key, m);
                proof {
                    assert(put_ok_post(old(self)@, (*self)@, key, m));
                }
                Ok(())
            },
            Cache::Durable(s) => s.put(key, m),
        }
    }

    /// Returns the live mapping or absent; absence is a normal outcome.
    /// The live mappings are unchanged (the bounded backend refreshes
    /// the entry's recency).  Infallible on the bounded backend.
    pub fn get(&mut self, key: CorrelationKey) -> (r: Result<Option<i64>, CacheError>)
        requires
            old(self).wf(),
        ensures
            final(self).wf(),
            final(self).is_durable() == old(self).is_durable(),
            final(self)@ == old(self)@,
            !old(self).is_durable() ==> r is Ok,
            match r {
                Ok(Some(v)) => old(self)@.contains_key(key) && v == old(self)@[key],
                Ok(None) => !old(self)@.contains_key(key),
                Err(_) => true,
            },
    {
        match self {
            Cache::Bounded(l) => Ok(l.get(key)),
            Cache::Durable(s) => s.get(key),
        }
    }
}

/// Last write wins, without eviction: after any sequence of puts, a
/// lookup sees the value of the most recent put for that exact key; a
/// key never put keeps its prior mapping, or stays absent if it never
/// had one.
pub proof fn lemma_map_last_write_wins(
    m: Map<CorrelationKey, i64>,
    ops: Seq<(CorrelationKey, i64)>,
    k: CorrelationKey,
)
    ensures
        last_put(ops, k) is Some ==> map_run(m, ops).contains_key(k) && map_run(m, ops)[k]
            == last_put(ops, k)->0,
        last_put(ops, k) is None ==> (map_run(m, ops).contains_key(k) == m.contains_key(k)) && (
        m.contains_key(k) ==> map_run(m, ops)[k] == m[k]),
    decreases ops.len(),
{
    if ops.len() > 0 {
        lemma_map_last_write_wins(m, ops.drop_last(), k);
    }
}

} // verus!
