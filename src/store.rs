//! The quote cache: a JSON object that maps the canonical path of each
//! fortune file to the last quotation served from it.
use vstd::prelude::*;
use std::collections::BTreeMap;
use crate::text::{concat, push_char_to};

verus! {

/// The map of strings to strings that `serde_json` reads from `text`, if
/// `text` is a JSON object whose values are all strings.
pub uninterp spec fn json_string_map(text: Seq<char>) -> Option<Map<Seq<char>, Seq<char>>>;

/// Whether no two entries share a key.
pub open spec fn keys_unique(v: Seq<(String, String)>) -> bool {
    forall|i: int, j: int| 0 <= i < j < v.len() ==> (#[trigger] v[i]).0@ != (#[trigger] v[j]).0@
}

/// The map that the entries `v` describe.
pub open spec fn entries_map(v: Seq<(String, String)>) -> Map<Seq<char>, Seq<char>>
    decreases v.len(),
{
    if v.len() == 0 {
        Map::empty()
    } else {
        entries_map(v.drop_last()).insert(v.last().0@, v.last().1@)
    }
}

/// The cache that a store file with content `text` holds: nothing where
/// the content is not a JSON object of strings.
pub open spec fn store_map(text: Seq<char>) -> Map<Seq<char>, Seq<char>> {
    if text.len() == 0 {
        Map::empty()
    } else {
        match json_string_map(text) {
            Some(m) => m,
            None => Map::empty(),
        }
    }
}

/// Relies on `serde_json::from_str` into a `BTreeMap<String, String>`: the
/// entries of the object that `text` holds, each key once, or `None` where
/// `text` is no such object.
#[verifier::external_body]
fn decode_entries(text: &str) -> (r: Option<Vec<(String, String)>>)
    ensures
        r is Some ==> keys_unique(r->0@) && json_string_map(text@) == Some(entries_map(r->0@)),
        r is None ==> json_string_map(text@) is None,
{
    match serde_json::from_str::<BTreeMap<String, String>>(text) {
        Ok(m) => Some(m.into_iter().collect()),
        Err(_) => None,
    }
}

/// Relies on `serde_json::to_string_pretty` of a `BTreeMap<String, String>`:
/// JSON text, never empty, that `serde_json::from_str` reads back as the
/// same map. It fails only where a `Serialize` impl fails or a map key is
/// not a string, which neither `String` nor a map keyed by `String` does.
#[verifier::external_body]
fn encode_entries(v: &Vec<(String, String)>) -> (r: Option<String>)
    requires
        keys_unique(v@),
    ensures
        r is Some,
        r is Some ==> r->0@.len() > 0 && json_string_map(r->0@) == Some(entries_map(v@)),
{
    let m: BTreeMap<String, String> = v.iter().cloned().collect();
    serde_json::to_string_pretty(&m).ok()
}

/// With unique keys, each entry is in the map, and the map holds nothing
/// else.
proof fn lemma_entries_map(v: Seq<(String, String)>)
    requires
        keys_unique(v),
    ensures
        forall|i: int|
            0 <= i < v.len() ==> #[trigger] entries_map(v).contains_key(v[i].0@) && entries_map(v)[v[i].0@]
                == v[i].1@,
        forall|k: Seq<char>|
            #[trigger] entries_map(v).contains_key(k) ==> exists|i: int| 0 <= i < v.len() && v[i].0@ == k,
    decreases v.len(),
{
    if v.len() > 0 {
        let w = v.drop_last();
        assert(keys_unique(w)) by {
            assert forall|i: int, j: int| 0 <= i < j < w.len() implies (#[trigger] w[i]).0@ != (#[trigger] w[j]).0@ by {
                assert(w[i] == v[i] && w[j] == v[j]);
            }
        }
        lemma_entries_map(w);
        assert(entries_map(v) == entries_map(w).insert(v.last().0@, v.last().1@));
        assert forall|i: int| 0 <= i < v.len() implies #[trigger] entries_map(v).contains_key(v[i].0@) && entries_map(v)[v[i].0@]
            == v[i].1@ by {
            if i < v.len() - 1 {
                assert(w[i] == v[i]);
                assert(v[i].0@ != v[v.len() - 1].0@);
                assert(entries_map(w).contains_key(w[i].0@));
            } else {
                assert(v[i] == v.last());
            }
        }
        assert forall|k: Seq<char>| #[trigger] entries_map(v).contains_key(k) implies exists|i: int| 0 <= i < v.len() && v[i].0@ == k by {
            if k != v.last().0@ {
                assert(entries_map(w).contains_key(k));
                let i = choose|i: int| 0 <= i < w.len() && w[i].0@ == k;
                assert(v[i] == w[i]);
            } else {
                assert(v[v.len() - 1].0@ == k);
            }
        }
    }
}

/// The cached quotations, keyed by canonical source path.
///
/// The entries are a vector whose keys are unique rather than a std
/// `BTreeMap<String, String>`: vstd specifies `BTreeMap` only for key types
/// that obey its ordering laws (`key_obeys_cmp_spec`), which it establishes
/// for primitive keys and not for `String`, so that with `String` keys not
/// even the length after one `insert` could be proved.
pub struct QuoteCache {
    entries: Vec<(String, String)>,
}

impl View for QuoteCache {
    type V = Map<Seq<char>, Seq<char>>;

    closed spec fn view(&self) -> Map<Seq<char>, Seq<char>> {
        entries_map(self.entries@)
    }
}

impl QuoteCache {
    /// Each key is held once.
    pub closed spec fn wf(&self) -> bool {
        keys_unique(self.entries@)
    }

    /// An empty cache.
    pub fn new() -> (r: QuoteCache)
        ensures
            r.wf(),
            r@ == Map::<Seq<char>, Seq<char>>::empty(),
    {
        QuoteCache { entries: Vec::new() }
    }

    /// The cache that a store file with content `text` holds; an empty one
    /// where the content is empty or is not a JSON object of strings.
    pub fn from_json(text: &str) -> (r: QuoteCache)
        ensures
            r.wf(),
            r@ == store_map(text@),
    {
        if text.is_empty() {
            return QuoteCache::new();
        }
        match decode_entries(text) {
            Some(entries) => QuoteCache { entries },
            None => QuoteCache::new(),
        }
    }

    /// The position of the entry for `key`, if any.
    fn find(&self, key: &String) -> (r: Option<usize>)
        requires
            self.wf(),
        ensures
            r is Some ==> r->0 < self.entries.len() && self.entries@[r->0 as int].0@ == key@,
            r is None ==> forall|i: int| 0 <= i < self.entries.len() ==> (#[trigger] self.entries@[i]).0@ != key@,
    {
        let mut i: usize = 0;
        while i < self.entries.len()
            invariant
                i <= self.entries.len(),
                forall|j: int| 0 <= j < i ==> (#[trigger] self.entries@[j]).0@ != key@,
            decreases self.entries.len() - i,
        {
            if self.entries[i].0 == *key {
                return Some(i);
            }
            i = i + 1;
        }
        None
    }

    /// The quotation cached for `key`.
    pub fn get(&self, key: &str) -> (r: Option<String>)
        requires
            self.wf(),
        ensures
            r is Some <==> self@.contains_key(key@),
            r is Some ==> r->0@ == self@[key@],
    {
        proof {
            lemma_entries_map(self.entries@);
        }
        let k = key.to_string();
        match self.find(&k) {
            Some(i) => {
                assert(entries_map(self.entries@).contains_key(self.entries@[i as int].0@));
                Some(self.entries[i].1.clone())
            },
            None => None,
        }
    }

    /// Records `quote` for `key`, replacing what was there.
    pub fn insert(&mut self, key: &str, quote: &str)
        requires
            old(self).wf(),
        ensures
            final(self).wf(),
            final(self)@ == old(self)@.insert(key@, quote@),
    {
        proof {
            lemma_entries_map(self.entries@);
        }
        let k = key.to_string();
        let q = quote.to_string();
        let ghost before = self.entries@;
        match self.find(&k) {
            Some(i) => {
                self.entries.set(i, (k, q));
                proof {
                    let after = self.entries@;
                    assert(keys_unique(after)) by {
                        assert forall|a: int, b: int| 0 <= a < b < after.len() implies (#[trigger] after[a]).0@ != (#[trigger] after[b]).0@ by {
                            if a != i as int && b != i as int {
                                assert(after[a] == before[a] && after[b] == before[b]);
                            } else if a == i as int {
                                assert(after[b] == before[b]);
                            } else {
                                assert(after[a] == before[a]);
                            }
                        }
                    }
                    lemma_entries_map(after);
                    assert forall|x: Seq<char>| #[trigger] entries_map(after).contains_key(x) <==> entries_map(before).insert(key@, quote@).contains_key(x) by {
                        if entries_map(after).contains_key(x) {
                            let j = choose|j: int| 0 <= j < after.len() && after[j].0@ == x;
                            if j != i as int {
                                assert(after[j] == before[j]);
                            }
                        }
                        if entries_map(before).contains_key(x) && x != key@ {
                            let j = choose|j: int| 0 <= j < before.len() && before[j].0@ == x;
                            assert(after[j] == before[j]);
                        }
                        if x == key@ {
                            assert(after[i as int].0@ == x);
                        }
                    }
                    assert forall|x: Seq<char>| #[trigger] entries_map(after).contains_key(x) implies entries_map(after)[x] == entries_map(before).insert(key@, quote@)[x] by {
                        let j = choose|j: int| 0 <= j < after.len() && after[j].0@ == x;
                        if j != i as int {
                            assert(after[j] == before[j]);
                        }
                    }
                    assert(entries_map(after) =~= entries_map(before).insert(key@, quote@));
                }
            },
            None => {
                self.entries.push((k, q));
                proof {
                    let after = self.entries@;
                    assert(after.drop_last() == before);
                    assert(keys_unique(after)) by {
                        assert forall|a: int, b: int| 0 <= a < b < after.len() implies (#[trigger] after[a]).0@ != (#[trigger] after[b]).0@ by {
                            assert(after[a] == before[a]);
                            if b < before.len() {
                                assert(after[b] == before[b]);
                            }
                        }
                    }
                }
            },
        }
    }

    /// The JSON text of the cache, which reads back as the same cache.
    pub fn to_json(&self) -> (r: String)
        requires
            self.wf(),
        ensures
            store_map(r@) == self@,
    {
        encode_entries(&self.entries).unwrap()
    }
}

/// Why the cache could not give a quotation.
#[derive(Debug, Clone, Copy, PartialEq, Eq)]
pub enum CacheError {
    /// No quotation is cached for the source.
    NotFound,
}

/// The quotation that a store file with content `text` holds for `key`;
/// `NotFound` where it holds none, or the content is empty or malformed.
pub fn read_quote(text: &str, key: &str) -> (r: Result<String, CacheError>)
    ensures
        r is Ok <==> store_map(text@).contains_key(key@),
        r is Ok ==> r->Ok_0@ == store_map(text@)[key@],
        r is Err ==> r->Err_0 == CacheError::NotFound,
{
    let cache = QuoteCache::from_json(text);
    match cache.get(key) {
        Some(q) => Ok(q),
        None => Err(CacheError::NotFound),
    }
}

/// The new content of a store file whose content was `existing`, once
/// `quote` is recorded for `key`: the entries of `existing` are kept, and
/// the one for `key` is replaced.
pub fn merge_quote(existing: &str, key: &str, quote: &str) -> (r: String)
    ensures
        store_map(r@) == store_map(existing@).insert(key@, quote@),
{
    let mut cache = QuoteCache::from_json(existing);
    cache.insert(key, quote);
    cache.to_json()
}

/// The decimal digit for `d`.
pub open spec fn digit(d: nat) -> char {
    if d == 0 { '0' } else if d == 1 { '1' } else if d == 2 { '2' } else if d == 3 { '3' } else if d == 4 { '4' }
    else if d == 5 { '5' } else if d == 6 { '6' } else if d == 7 { '7' } else if d == 8 { '8' } else { '9' }
}

/// The decimal digits of `n`, most significant first.
pub open spec fn decimal(n: nat) -> Seq<char>
    decreases n,
{
    if n < 10 {
        seq![digit(n)]
    } else {
        decimal(n / 10).push(digit(n % 10))
    }
}

/// The decimal digit for `d`.
fn digit_char(d: u64) -> (c: char)
    requires
        d < 10,
    ensures
        c == digit(d as nat),
{
    if d == 0 { '0' } else if d == 1 { '1' } else if d == 2 { '2' } else if d == 3 { '3' } else if d == 4 { '4' }
    else if d == 5 { '5' } else if d == 6 { '6' } else if d == 7 { '7' } else if d == 8 { '8' } else { '9' }
}

/// `n` written in decimal.
pub fn decimal_string(n: u64) -> (r: String)
    ensures
        r@ == decimal(n as nat),
    decreases n,
{
    let mut s = if n < 10 {
        String::new()
    } else {
        decimal_string(n / 10)
    };
    let c = digit_char(n % 10);
    push_char_to(&mut s, c);
    assert(n < 10 ==> Seq::<char>::empty().push(c) == seq![digit(n as nat)]);
    s
}

/// The temporary file that the store at `store_path` is written to before
/// it replaces the store: beside it, named after it, `.tmp.` and the time
/// `millis` in milliseconds.
pub fn temp_store_path(store_path: &str, millis: u64) -> (r: String)
    ensures
        r@ == store_path@ + ".tmp."@ + decimal(millis as nat),
{
    let a = concat(store_path, ".tmp.");
    let d = decimal_string(millis);
    concat(a.as_str(), d.as_str())
}

/// Whether a failed rename of the temporary file over the store is tried
/// again after the store is removed: only where renaming cannot replace a
/// file, and the store exists.
pub fn retry_rename_after_remove(replace_unsupported: bool, store_exists: bool) -> (r: bool)
    ensures
        r == (replace_unsupported && store_exists),
{
    replace_unsupported && store_exists
}

/// Once a quotation is written for a key, reading that key gives it back,
/// whatever the store held before.
pub proof fn lemma_write_then_read(existing: Seq<char>, key: Seq<char>, quote: Seq<char>, written: Seq<char>)
    requires
        store_map(written) == store_map(existing).insert(key, quote),
    ensures
        store_map(written).contains_key(key),
        store_map(written)[key] == quote,
{
}

/// Two writes in a row to different keys both persist: the second write
/// keeps what the first wrote, and every other entry of the store.
pub proof fn lemma_two_writes_persist(
    existing: Seq<char>,
    key1: Seq<char>,
    quote1: Seq<char>,
    written1: Seq<char>,
    key2: Seq<char>,
    quote2: Seq<char>,
    written2: Seq<char>,
)
    requires
        key1 != key2,
        store_map(written1) == store_map(existing).insert(key1, quote1),
        store_map(written2) == store_map(written1).insert(key2, quote2),
    ensures
        store_map(written2).contains_key(key1),
        store_map(written2)[key1] == quote1,
        store_map(written2).contains_key(key2),
        store_map(written2)[key2] == quote2,
        forall|k: Seq<char>|
            k != key1 && k != key2 && #[trigger] store_map(existing).contains_key(k) ==> store_map(
                written2,
            ).contains_key(k) && store_map(written2)[k] == store_map(existing)[k],
{
}

} // verus!
