//! Maps from short tokens to what they stand for, walked in the order of their entries.
use crate::json;
use crate::json::{Json, Tree};
use crate::pattern;
use crate::text;
use vstd::prelude::*;

verus! {

/// A map from strings to strings.
pub struct TokenMap {
    pub entries: Vec<(String, String)>,
}

/// Entries of a map, in order.
pub type Entries = Seq<(Seq<char>, Seq<char>)>;

impl View for TokenMap {
    type V = Seq<(Seq<char>, Seq<char>)>;

    open spec fn view(&self) -> Seq<(Seq<char>, Seq<char>)> {
        Seq::new(self.entries@.len(), |i: int| (self.entries@[i].0@, self.entries@[i].1@))
    }
}

/// No key stands twice.
pub open spec fn distinct_keys(m: Entries) -> bool {
    forall|i: int, j: int|
        0 <= i < j < m.len() ==> (#[trigger] m[i]).0 != (#[trigger] m[j]).0
}

/// Where the entry of `key` is.
pub open spec fn slot(m: Entries, key: Seq<char>) -> Option<int>
    decreases m.len(),
{
    if m.len() == 0 {
        None
    } else if m.last().0 == key {
        Some(m.len() - 1)
    } else {
        slot(m.drop_last(), key)
    }
}

/// What `key` stands for.
pub open spec fn lookup(m: Entries, key: Seq<char>) -> Option<Seq<char>> {
    match slot(m, key) {
        Some(i) => Some(m[i].1),
        None => None,
    }
}

/// `m` with `key` standing for `value`.
pub open spec fn inserted(m: Entries, key: Seq<char>, value: Seq<char>) -> Entries {
    match slot(m, key) {
        Some(i) => m.update(i, (key, value)),
        None => m.push((key, value)),
    }
}

pub proof fn lemma_slot(m: Entries, key: Seq<char>)
    ensures
        match slot(m, key) {
            Some(i) => 0 <= i < m.len() && m[i].0 == key,
            None => forall|i: int| 0 <= i < m.len() ==> (#[trigger] m[i]).0 != key,
        },
    decreases m.len(),
{
    if m.len() > 0 && m.last().0 != key {
        lemma_slot(m.drop_last(), key);
        if slot(m, key) is None {
            assert forall|i: int| 0 <= i < m.len() implies (#[trigger] m[i]).0 != key by {
                if i < m.len() - 1 {
                    assert(m.drop_last()[i] == m[i]);
                }
            }
        }
    }
}

proof fn lemma_slot_prefix(m: Entries, key: Seq<char>, i: int)
    requires
        0 <= i < m.len(),
        m[i].0 == key,
        forall|j: int| i < j < m.len() ==> (#[trigger] m[j]).0 != key,
    ensures
        slot(m, key) == Some(i),
    decreases m.len(),
{
    if i < m.len() - 1 {
        assert(m.drop_last()[i] == m[i]);
        lemma_slot_prefix(m.drop_last(), key, i);
    }
}

impl TokenMap {
    pub fn new() -> (m: TokenMap)
        ensures
            m@ == Seq::<(Seq<char>, Seq<char>)>::empty(),
    {
        let m = TokenMap { entries: Vec::new() };
        assert(m@ == Seq::<(Seq<char>, Seq<char>)>::empty());
        m
    }

    fn position(&self, key: &str) -> (r: Option<usize>)
        ensures
            r matches Some(i) ==> slot(self@, key@) == Some(i as int) && i < self@.len(),
            r is None ==> slot(self@, key@) is None,
    {
        let mut i: usize = self.entries.len();
        while i > 0
            invariant
                i <= self.entries@.len(),
                forall|j: int| i <= j < self@.len() ==> (#[trigger] self@[j]).0 != key@,
            decreases i,
        {
            i -= 1;
            if text::same(self.entries[i].0.as_str(), key) {
                proof {
                    lemma_slot_prefix(self@, key@, i as int);
                }
                return Some(i);
            }
        }
        proof {
            lemma_slot(self@, key@);
        }
        None
    }

    pub fn get(&self, key: &str) -> (r: Option<String>)
        ensures
            pattern::text_of(r) == lookup(self@, key@),
    {
        match self.position(key) {
            Some(i) => Some(self.entries[i].1.clone()),
            None => None,
        }
    }

    /// What `key` stands for, or nothing.
    pub fn get_or_empty(&self, key: &str) -> (r: String)
        ensures
            r@ == lookup_or_empty(self@, key@),
    {
        match self.get(key) {
            Some(s) => s,
            None => String::new(),
        }
    }

    /// Let `key` stand for `value` from now on.
    pub fn insert(&mut self, key: String, value: String)
        ensures
            final(self)@ == inserted(old(self)@, key@, value@),
    {
        let ghost before = self@;
        match self.position(key.as_str()) {
            Some(i) => {
                self.entries.set(i, (key, value));
                assert(self@ == before.update(i as int, (key@, value@)));
            },
            None => {
                self.entries.push((key, value));
                assert(self@ == before.push((key@, value@)));
            },
        }
    }
}

pub open spec fn lookup_or_empty(m: Entries, key: Seq<char>) -> Seq<char> {
    match lookup(m, key) {
        Some(s) => s,
        None => Seq::empty(),
    }
}

// ── Laws of the map ───────────────────────────────────────────────────

/// What was inserted is found, every other key keeps its meaning, and no key comes to stand
/// twice.
pub proof fn inserted_is_found(m: Entries, key: Seq<char>, value: Seq<char>, other: Seq<char>)
    requires
        distinct_keys(m),
    ensures
        distinct_keys(inserted(m, key, value)),
        lookup(inserted(m, key, value), key) == Some(value),
        other != key ==> lookup(inserted(m, key, value), other) == lookup(m, other),
{
    let n = inserted(m, key, value);
    lemma_slot(m, key);
    lemma_slot(m, other);
    lemma_slot(n, key);
    lemma_slot(n, other);
    match slot(m, key) {
        Some(i) => {
            assert(n[i] == (key, value));
            assert(forall|j: int| 0 <= j < m.len() ==> (#[trigger] n[j]).0 == m[j].0);
            if slot(n, key) != Some(i) {
                let k = slot(n, key)->0;
                assert(m[k].0 == key);
            }
            if other != key {
                if let Some(k) = slot(m, other) {
                    assert(n[k] == m[k]);
                    let k2 = slot(n, other)->0;
                    assert(m[k2].0 == other);
                } else if let Some(k) = slot(n, other) {
                    assert(m[k].0 == other);
                }
            }
        },
        None => {
            let i = m.len() as int;
            assert(n[i] == (key, value));
            assert(forall|j: int| 0 <= j < m.len() ==> #[trigger] n[j] == m[j]);
            if other != key {
                if let Some(k) = slot(m, other) {
                    assert(n[k] == m[k]);
                    let k2 = slot(n, other)->0;
                    assert(n[k2] == m[k2]);
                } else if let Some(k) = slot(n, other) {
                    assert(n[k] == m[k]);
                }
            }
        },
    }
}

// ── Reading a map from a document ─────────────────────────────────────

/// The texts among the values of an object, under their keys.
pub open spec fn text_entries(pairs: Seq<(Seq<char>, Tree)>) -> Entries
    decreases pairs.len(),
{
    if pairs.len() == 0 {
        Seq::empty()
    } else {
        let m = text_entries(pairs.drop_last());
        match pairs.last().1 {
            Tree::Text(s) => inserted(m, pairs.last().0, s),
            _ => m,
        }
    }
}

/// What `serde_json::from_str` makes of a text that should be an object of strings, in the order of
/// the keys; nothing where it fails.
pub uninterp spec fn parsed_strings(s: Seq<char>) -> Option<Entries>;

/// What a list of pairs says.
pub open spec fn pairs_of(v: Seq<(String, String)>) -> Entries {
    v.map_values(|p: (String, String)| (p.0@, p.1@))
}

pub open spec fn strings_outcome(r: Option<Vec<(String, String)>>) -> Option<Entries> {
    match r {
        Some(v) => Some(pairs_of(v@)),
        None => None,
    }
}

/// Whether a document is an object with the keys and values of a map, all of them texts.
pub open spec fn says(doc: Result<Tree, Seq<char>>, m: Entries) -> bool {
    doc matches Ok(Tree::Object(pairs)) && forall|key: Seq<char>| #[trigger]
        json::entry(pairs, key) == match lookup(m, key) {
            Some(s) => Some(Tree::Text(s)),
            None => None,
        }
}

/// `serde_json::from_str` for a `BTreeMap` of strings: a function of the text, named
/// `parsed_strings`. It holds each key once. Where it succeeds, the text is a document that is an
/// object with the same keys and values; that a key which stands twice must have a text both times
/// is left to the name.
#[verifier::external_body]
fn strings_from_text(s: &str) -> (r: Option<Vec<(String, String)>>)
    ensures
        strings_outcome(r) == parsed_strings(s@),
        strings_outcome(r) matches Some(m) ==> distinct_keys(m),
        strings_outcome(r) matches Some(m) ==> says(json::parsed(vstd::utf8::encode_utf8(s@)), m),
{
    let strings = serde_json::from_str::<std::collections::BTreeMap<String, String>>(s).ok()?;
    Some(strings.into_iter().collect())
}

/// The map that was read, or the empty one.
pub open spec fn map_in(strings: Option<Entries>) -> Entries {
    match strings {
        Some(m) => m,
        None => Seq::empty(),
    }
}

/// The map that the text of a file writes: a JSON object whose values are all texts. Anything else,
/// and no file at all, is the empty map.
pub open spec fn loaded(data: Option<Seq<char>>) -> Entries {
    match data {
        Some(s) => map_in(parsed_strings(s)),
        None => Seq::empty(),
    }
}

/// The map of the pairs that were read; the empty one where nothing could be.
pub fn read_map(strings: Option<Vec<(String, String)>>) -> (m: TokenMap)
    ensures
        m@ == map_in(strings_outcome(strings)),
{
    match strings {
        Some(entries) => {
            let m = TokenMap { entries };
            assert(m@ =~= pairs_of(entries@));
            m
        },
        None => TokenMap::new(),
    }
}

/// Read a map from the text of its file, `None` where there is no file. It holds no key twice, and
/// what it holds stands in the file.
pub fn load(data: Option<&str>) -> (m: TokenMap)
    ensures
        m@ == loaded(match data {
            Some(s) => Some(s@),
            None => None,
        }),
        distinct_keys(m@),
        m@.len() > 0 ==> (data matches Some(s) && says(
            json::parsed(vstd::utf8::encode_utf8(s@)),
            m@,
        )),
{
    match data {
        Some(s) => read_map(strings_from_text(s)),
        None => TokenMap::new(),
    }
}

/// The texts among the values of an object.
pub fn texts_in(j: &Json) -> (m: TokenMap)
    ensures
        m@ == (match j@ {
            Tree::Object(pairs) => text_entries(pairs),
            _ => Seq::empty(),
        }),
{
    let mut m = TokenMap::new();
    proof {
        json::lemma_view(*j);
    }
    match j {
        Json::Object(pairs) => {
            let ghost all = j@->Object_0;
            let mut i: usize = 0;
            while i < pairs.len()
                invariant
                    i <= pairs@.len(),
                    all.len() == pairs@.len(),
                    forall|k: int| #![trigger all[k]]
                        0 <= k < all.len() ==> all[k] == (pairs@[k].0@, pairs@[k].1@),
                    m@ == text_entries(all.take(i as int)),
                decreases pairs@.len() - i,
            {
                assert(all.take(i + 1).drop_last() == all.take(i as int));
                assert(all.take(i + 1).last() == all[i as int]);
                match pairs[i].1.as_text() {
                    Some(s) => {
                        m.insert(pairs[i].0.clone(), s.clone());
                    },
                    None => {},
                }
                i += 1;
            }
            assert(all.take(all.len() as int) == all);
        },
        _ => {},
    }
    m
}

// ── Laws of what was read ─────────────────────────────────────────────

/// Each key of a map has the meaning that stands beside it, and no other key has one.
pub proof fn meanings_are_found(m: Entries, i: int, key: Seq<char>)
    requires
        distinct_keys(m),
    ensures
        0 <= i < m.len() ==> lookup(m, m[i].0) == Some(m[i].1) && lookup_or_empty(m, m[i].0)
            == m[i].1,
        (forall|j: int| 0 <= j < m.len() ==> (#[trigger] m[j]).0 != key) ==> lookup(m, key) is None
            && lookup_or_empty(m, key).len() == 0,
{
    lemma_slot(m, key);
    if 0 <= i < m.len() {
        lemma_slot(m, m[i].0);
        let k = slot(m, m[i].0)->0;
        if k < i {
            assert(m[k].0 != m[i].0);
        } else if i < k {
            assert(m[i].0 != m[k].0);
        }
    }
}

/// The map of the texts in an object with distinct keys has exactly these texts under their keys.
pub proof fn texts_keep_their_keys(pairs: Seq<(Seq<char>, Tree)>, key: Seq<char>)
    requires
        forall|i: int, j: int|
            0 <= i < j < pairs.len() ==> (#[trigger] pairs[i]).0 != (#[trigger] pairs[j]).0,
    ensures
        distinct_keys(text_entries(pairs)),
        lookup(text_entries(pairs), key) == (match json::field(Tree::Object(pairs), key) {
            Some(Tree::Text(s)) => Some(s),
            _ => None,
        }),
    decreases pairs.len(),
{
    if pairs.len() > 0 {
        let front = pairs.drop_last();
        let last = pairs.last();
        assert(pairs =~= front.push(last));
        assert forall|i: int, j: int| 0 <= i < j < front.len() implies (#[trigger] front[i]).0 != (
        #[trigger] front[j]).0 by {
            assert(pairs[i].0 != pairs[j].0);
        }
        texts_keep_their_keys(front, key);
        json::entry_at_the_end(front, last, key);
        assert forall|j: int| 0 <= j < front.len() implies (#[trigger] front[j]).0 != last.0 by {
            assert(pairs[j].0 != pairs[pairs.len() - 1].0);
        }
        json::fields_are_found(front, 0, last.0);
        if let Tree::Text(s) = last.1 {
            inserted_is_found(text_entries(front), last.0, s, key);
        }
    }
}

/// A file that writes a map gives that map; one that cannot be read as such, and no file at all,
/// give an empty one.
pub proof fn files_give_the_map_they_write(s: Seq<char>, m: Entries)
    ensures
        parsed_strings(s) == Some(m) ==> loaded(Some(s)) == m,
        parsed_strings(s) is None ==> loaded(Some(s)).len() == 0,
        loaded(None).len() == 0,
{
}

/// A new key comes last; a key that is there keeps its place.
pub proof fn inserting_keeps_the_order(m: Entries, key: Seq<char>, value: Seq<char>, j: int)
    ensures
        (forall|i: int| 0 <= i < m.len() ==> (#[trigger] m[i]).0 != key) ==> inserted(m, key, value)
            == m.push((key, value)),
        (exists|i: int| 0 <= i < m.len() && (#[trigger] m[i]).0 == key) ==> inserted(
            m,
            key,
            value,
        ).len() == m.len() && (0 <= j < m.len() ==> inserted(m, key, value)[j].0 == m[j].0 && (
        m[j].0 != key ==> inserted(m, key, value)[j] == m[j])),
{
    lemma_slot(m, key);
}

} // verus!
