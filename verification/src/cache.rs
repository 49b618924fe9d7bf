//! The read-through (cache-aside) store.
//!
//! A typed query result is fetched as follows: compute a cache key from a
//! fixed per-type prefix and the query's key parts; on a cache hit,
//! deserialize the stored snapshot and return it, treating a payload that
//! does not deserialize as corruption; on a miss, look the row up in the
//! backing store, failing with `NotFound` when there is none, and otherwise
//! serialize the result into the cache with a fixed per-type expiry and
//! return it. Absence of a row is never cached.

use vstd::prelude::*;

verus! {

/// The character standing for the decimal digit `d`.
pub open spec fn digit_char(d: nat) -> char {
    if d == 0 {
        '0'
    } else if d == 1 {
        '1'
    } else if d == 2 {
        '2'
    } else if d == 3 {
        '3'
    } else if d == 4 {
        '4'
    } else if d == 5 {
        '5'
    } else if d == 6 {
        '6'
    } else if d == 7 {
        '7'
    } else if d == 8 {
        '8'
    } else {
        '9'
    }
}

/// The decimal digits of `n`, most significant first.
pub open spec fn digits(n: nat) -> Seq<char>
    decreases n,
{
    if n < 10 {
        seq![digit_char(n)]
    } else {
        digits(n / 10).push(digit_char(n % 10))
    }
}

/// The decimal rendering of `x`, with a leading minus sign when negative.
pub open spec fn decimal(x: int) -> Seq<char> {
    if x < 0 {
        seq!['-'] + digits((-x) as nat)
    } else {
        digits(x as nat)
    }
}

/// The digit character for a digit value below ten.
fn digit_to_char(d: u32) -> (c: char)
    requires
        d < 10,
    ensures
        c == digit_char(d as nat),
{
    if d == 0 {
        '0'
    } else if d == 1 {
        '1'
    } else if d == 2 {
        '2'
    } else if d == 3 {
        '3'
    } else if d == 4 {
        '4'
    } else if d == 5 {
        '5'
    } else if d == 6 {
        '6'
    } else if d == 7 {
        '7'
    } else if d == 8 {
        '8'
    } else {
        '9'
    }
}

/// Renders a number in decimal.
#[verifier::loop_isolation(false)]
fn u32_to_decimal(n: u32) -> (s: String)
    ensures
        s@ == digits(n as nat),
{
    let mut rev: Vec<char> = Vec::new();
    let mut m = n;
    while m >= 10
        invariant
            digits(n as nat) == digits(m as nat) + rev@.reverse(),
        decreases m,
    {
        let d = digit_to_char(m % 10);
        proof {
            assert(digits(m as nat) == digits((m as nat) / 10).push(digit_char((m as nat) % 10)));
            assert(rev@.push(d).reverse() =~= seq![d] + rev@.reverse());
            assert(digits((m as nat) / 10).push(d) =~= digits((m as nat) / 10) + seq![d]);
            assert((digits((m as nat) / 10) + seq![d]) + rev@.reverse() =~= digits((m as nat) / 10)
                + (seq![d] + rev@.reverse()));
        }
        rev.push(d);
        m = m / 10;
    }
    let d = digit_to_char(m);
    proof {
        assert(digits(m as nat) == seq![digit_char(m as nat)]);
    }
    rev.push(d);
    let mut s = String::new();
    let n_digits = rev.len();
    let mut i: usize = 0;
    while i < n_digits
        invariant
            i <= n_digits,
            n_digits == rev@.len(),
            s@ == rev@.reverse().take(i as int),
        decreases n_digits - i,
    {
        let c = rev[n_digits - 1 - i];
        proof {
            assert(rev@.reverse()[i as int] == rev@[n_digits - 1 - i]);
            assert(rev@.reverse().take(i as int + 1) =~= rev@.reverse().take(i as int).push(c));
        }
        s.push(c);
        i = i + 1;
    }
    proof {
        assert(rev@.reverse().take(n_digits as int) =~= rev@.reverse());
        assert(digits(n as nat) =~= seq![digit_char(m as nat)] + rev@.drop_last().reverse());
        assert(rev@.reverse() =~= seq![rev@.last()] + rev@.drop_last().reverse());
    }
    s
}

/// Renders a signed 16-bit number in decimal.
pub fn i16_to_decimal(x: i16) -> (s: String)
    ensures
        s@ == decimal(x as int),
{
    if x < 0 {
        let m: u32 = (-(x as i32)) as u32;
        let mut s = String::new();
        s.push('-');
        let body = u32_to_decimal(m);
        s.append(body.as_str());
        proof {
            assert(s@ =~= decimal(x as int));
        }
        s
    } else {
        u32_to_decimal(x as u32)
    }
}

/// The cache key of the given prefix and ordered key parts: the prefix and
/// the parts, joined by the separator.
pub open spec fn key_of(prefix: Seq<char>, parts: Seq<Seq<char>>) -> Seq<char>
    decreases parts.len(),
{
    if parts.len() == 0 {
        prefix
    } else {
        key_of(prefix, parts.drop_last()) + seq![':'] + parts.last()
    }
}

/// Builds the cache key for a fixed per-type prefix and the ordered key
/// parts of one query.
#[verifier::loop_isolation(false)]
pub fn make_key(prefix: &str, parts: &Vec<String>) -> (s: String)
    ensures
        s@ == key_of(prefix@, parts@.map_values(|p: String| p@)),
{
    let ghost pm = parts@.map_values(|p: String| p@);
    let mut s = String::new();
    s.append(prefix);
    let n = parts.len();
    let mut i: usize = 0;
    while i < n
        invariant
            i <= n,
            n == parts@.len(),
            s@ == key_of(prefix@, pm.take(i as int)),
        decreases n - i,
    {
        proof {
            let next = pm.take(i as int + 1);
            assert(next.drop_last() =~= pm.take(i as int));
            assert(next.last() == pm[i as int]);
        }
        s.push(':');
        s.append(parts[i].as_str());
        proof {
            assert(s@ =~= key_of(prefix@, pm.take(i as int + 1)));
        }
        i = i + 1;
    }
    proof {
        assert(pm.take(n as int) =~= pm);
    }
    s
}

/// One cached snapshot: a store-wide unique key, the serialized payload,
/// and the expiry the entry was written with. Expiry is enforced by the
/// cache service itself; an expired entry is simply an absent one.
pub struct CacheEntry {
    pub key: String,
    pub payload: Vec<u8>,
    pub ttl_seconds: u64,
}

/// Mathematical model of a cache entry.
pub ghost struct CacheEntryM {
    pub key: Seq<char>,
    pub payload: Seq<u8>,
    pub ttl_seconds: u64,
}

impl View for CacheEntry {
    type V = CacheEntryM;

    open spec fn view(&self) -> CacheEntryM {
        CacheEntryM { key: self.key@, payload: self.payload@, ttl_seconds: self.ttl_seconds }
    }
}

/// The payload stored under `k`: the first entry whose key is `k`.
pub open spec fn lookup(s: Seq<CacheEntryM>, k: Seq<char>) -> Option<Seq<u8>>
    decreases s.len(),
{
    if s.len() == 0 {
        None
    } else if s[0].key == k {
        Some(s[0].payload)
    } else {
        lookup(s.drop_first(), k)
    }
}

/// Keys are unique across the cache.
pub open spec fn cache_wf(s: Seq<CacheEntryM>) -> bool {
    forall|i: int, j: int| 0 <= i < j < s.len() ==> (#[trigger] s[i]).key != (#[trigger] s[j]).key
}

/// A key matched at index `m`, with no earlier match, is what `lookup`
/// finds.
pub proof fn lemma_lookup_found(s: Seq<CacheEntryM>, k: Seq<char>, m: int)
    requires
        0 <= m < s.len(),
        s[m].key == k,
        forall|j: int| 0 <= j < m ==> (#[trigger] s[j]).key != k,
    ensures
        lookup(s, k) == Some(s[m].payload),
    decreases s.len(),
{
    if m > 0 {
        let t = s.drop_first();
        assert(forall|j: int| 0 <= j < m - 1 ==> (#[trigger] t[j]).key != k);
        lemma_lookup_found(t, k, m - 1);
    }
}

/// A key matched nowhere is not found by `lookup`.
pub proof fn lemma_lookup_absent(s: Seq<CacheEntryM>, k: Seq<char>)
    requires
        forall|j: int| 0 <= j < s.len() ==> (#[trigger] s[j]).key != k,
    ensures
        lookup(s, k) is None,
    decreases s.len(),
{
    if s.len() > 0 {
        lemma_lookup_absent(s.drop_first(), k);
    }
}

/// Replacing the entry at `m` by one with the same key changes `lookup`
/// only under that key.
pub proof fn lemma_lookup_update(s: Seq<CacheEntryM>, m: int, e: CacheEntryM, k: Seq<char>)
    requires
        0 <= m < s.len(),
        e.key == s[m].key,
        cache_wf(s),
    ensures
        k == e.key ==> lookup(s.update(m, e), k) == Some(e.payload),
        k != e.key ==> lookup(s.update(m, e), k) == lookup(s, k),
    decreases s.len(),
{
    let su = s.update(m, e);
    if m == 0 {
        if k != e.key {
            assert(su.drop_first() =~= s.drop_first());
        }
    } else {
        assert(su.drop_first() =~= s.drop_first().update(m - 1, e));
        lemma_lookup_update(s.drop_first(), m - 1, e, k);
        assert(su[0] == s[0]);
        if k == e.key {
            assert(s[0].key != s[m].key);
        }
    }
}

/// Appending an entry with a fresh key changes `lookup` only under that
/// key.
pub proof fn lemma_lookup_push(s: Seq<CacheEntryM>, e: CacheEntryM, k: Seq<char>)
    requires
        forall|j: int| 0 <= j < s.len() ==> (#[trigger] s[j]).key != e.key,
    ensures
        k == e.key ==> lookup(s.push(e), k) == Some(e.payload),
        k != e.key ==> lookup(s.push(e), k) == lookup(s, k),
    decreases s.len(),
{
    let sp = s.push(e);
    if s.len() == 0 {
        assert(sp[0] == e);
        if k != e.key {
            assert(sp.drop_first() =~= Seq::empty());
        }
    } else {
        assert(sp[0] == s[0]);
        assert(sp.drop_first() =~= s.drop_first().push(e));
        assert(forall|j: int|
            0 <= j < s.drop_first().len() ==> (#[trigger] s.drop_first()[j]).key != e.key);
        lemma_lookup_push(s.drop_first(), e, k);
        if k != e.key {
            if s[0].key == k {
                assert(lookup(sp, k) == Some(sp[0].payload));
                assert(lookup(s, k) == Some(s[0].payload));
            } else {
                assert(lookup(sp, k) == lookup(sp.drop_first(), k));
                assert(lookup(s, k) == lookup(s.drop_first(), k));
            }
        }
    }
}

/// The cache: a set of keyed, immutable serialized snapshots. This models
/// the cache service as seen through `get` and `set`.
pub struct Cache {
    pub entries: Vec<CacheEntry>,
}

impl View for Cache {
    type V = Seq<CacheEntryM>;

    open spec fn view(&self) -> Seq<CacheEntryM> {
        self.entries@.map_values(|e: CacheEntry| e@)
    }
}

impl Cache {
    /// Keys are unique across the cache.
    pub open spec fn wf(&self) -> bool {
        cache_wf(self@)
    }

    /// An empty cache.
    pub fn new() -> (r: Cache)
        ensures
            r@ == Seq::<CacheEntryM>::empty(),
            r.wf(),
    {
        let r = Cache { entries: Vec::new() };
        proof {
            assert(r@ =~= Seq::<CacheEntryM>::empty());
        }
        r
    }

    /// The payload stored under `key`, if any.
    #[verifier::loop_isolation(false)]
    pub fn get(&self, key: &String) -> (r: Option<&Vec<u8>>)
        ensures
            r matches Some(p) ==> lookup(self@, key@) == Some(p@),
            r is None ==> lookup(self@, key@) is None,
    {
        let n = self.entries.len();
        let mut i: usize = 0;
        while i < n
            invariant
                i <= n,
                n == self.entries@.len(),
                forall|j: int| 0 <= j < i ==> (#[trigger] self@[j]).key != key@,
            decreases n - i,
        {
            if self.entries[i].key == *key {
                proof {
                    lemma_lookup_found(self@, key@, i as int);
                }
                return Some(&self.entries[i].payload);
            }
            i = i + 1;
        }
        proof {
            lemma_lookup_absent(self@, key@);
        }
        None
    }

    /// Stores `payload` under `key` with the given expiry, overwriting any
    /// earlier snapshot under the same key. The overwrite is idempotent:
    /// concurrent writers racing on a miss write the same bytes.
    #[verifier::loop_isolation(false)]
    pub fn set(&mut self, key: String, payload: Vec<u8>, ttl_seconds: u64)
        requires
            old(self).wf(),
        ensures
            final(self).wf(),
            lookup(final(self)@, key@) == Some(payload@),
            forall|k2: Seq<char>|
                k2 != key@ ==> #[trigger] lookup(final(self)@, k2) == lookup(old(self)@, k2),
    {
        let ghost pre = self@;
        let e = CacheEntry { key, payload, ttl_seconds };
        let n = self.entries.len();
        let mut i: usize = 0;
        while i < n
            invariant
                i <= n,
                n == self.entries@.len(),
                self@ == pre,
                forall|j: int| 0 <= j < i ==> (#[trigger] self@[j]).key != e.key@,
            decreases n - i,
        {
            if self.entries[i].key == e.key {
                proof {
                    lemma_lookup_update(pre, i as int, e@, e.key@);
                    assert forall|k2: Seq<char>| k2 != e.key@ implies lookup(
                        pre.update(i as int, e@),
                        k2,
                    ) == lookup(pre, k2) by {
                        lemma_lookup_update(pre, i as int, e@, k2);
                    }
                }
                let ghost em = e@;
                self.entries.set(i, e);
                proof {
                    assert(self@ =~= pre.update(i as int, em));
                    assert forall|a: int, b: int| 0 <= a < b < self@.len() implies (
                    #[trigger] self@[a]).key != (#[trigger] self@[b]).key by {
                        assert(pre[a].key != pre[b].key);
                    }
                }
                return ;
            }
            i = i + 1;
        }
        proof {
            lemma_lookup_push(pre, e@, e.key@);
            assert forall|k2: Seq<char>| k2 != e.key@ implies lookup(pre.push(e@), k2) == lookup(
                pre,
                k2,
            ) by {
                lemma_lookup_push(pre, e@, k2);
            }
        }
        let ghost em = e@;
        self.entries.push(e);
        proof {
            assert(self@ =~= pre.push(em));
            assert forall|a: int, b: int| 0 <= a < b < self@.len() implies (
            #[trigger] self@[a]).key != (#[trigger] self@[b]).key by {
                if b < pre.len() {
                    assert(pre[a].key != pre[b].key);
                }
            }
        }
    }
}

} // verus!
