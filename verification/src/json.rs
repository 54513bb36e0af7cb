//! JSON documents: read and written by `serde_json`, looked into here.
use crate::text;
use vstd::prelude::*;

verus! {

/// `serde_json`'s parsed document. What one holds is `tree_of` it.
#[verifier::external_type_specification]
#[verifier::external_body]
pub struct ExValue(serde_json::Value);

/// `serde_json`'s number; carried along, never looked into.
#[verifier::external_type_specification]
#[verifier::external_body]
pub struct ExNumber(serde_json::Number);

/// A JSON document.
pub enum Json {
    Null,
    Bool(bool),
    Number(serde_json::Number),
    Text(String),
    Array(Vec<Json>),
    Object(Vec<(String, Json)>),
}

/// What a JSON document says.
pub enum Tree {
    Null,
    Bool(bool),
    Number(serde_json::Number),
    Text(Seq<char>),
    Array(Seq<Tree>),
    Object(Seq<(Seq<char>, Tree)>),
}

impl View for Json {
    type V = Tree;

    open spec fn view(&self) -> Tree
        decreases self,
    {
        match self {
            Json::Null => Tree::Null,
            Json::Bool(b) => Tree::Bool(*b),
            Json::Number(n) => Tree::Number(*n),
            Json::Text(s) => Tree::Text(s@),
            Json::Array(v) => Tree::Array(
                Seq::new(
                    v@.len(),
                    |i: int|
                        if 0 <= i < v@.len() {
                            v@[i].view()
                        } else {
                            Tree::Null
                        },
                ),
            ),
            Json::Object(v) => Tree::Object(
                Seq::new(
                    v@.len(),
                    |i: int|
                        (
                            v@[i].0@,
                            if 0 <= i < v@.len() {
                                v@[i].1.view()
                            } else {
                                Tree::Null
                            },
                        ),
                ),
            ),
        }
    }
}

// ── Reading and writing ───────────────────────────────────────────────

/// What a `serde_json::Value` holds: objects as their entries in the order of its map.
pub uninterp spec fn tree_of(v: serde_json::Value) -> Tree;

/// What `serde_json::from_slice` makes of bytes: the document, or the text of the error.
pub uninterp spec fn parsed(bytes: Seq<u8>) -> Result<Tree, Seq<char>>;

/// What `serde_json::from_slice` makes of bytes that should be an array of documents.
pub uninterp spec fn parsed_list(bytes: Seq<u8>) -> Result<Seq<Tree>, Seq<char>>;

/// What is left of a document in a `serde_json::Value`, whose objects hold each key once and in
/// an order of their own.
pub uninterp spec fn stored(t: Tree) -> Tree;

/// The compact text that `serde_json` displays for what a value holds.
pub uninterp spec fn displayed(t: Tree) -> Seq<char>;

/// The text that `serde_json` gives what a value holds for debugging.
pub uninterp spec fn debugged(t: Tree) -> Seq<char>;

/// The number that `serde_json` makes of an integer.
pub uninterp spec fn number_of(n: i64) -> serde_json::Number;

/// Whether a document is one that a `serde_json::Value` holds, as every document is that was read.
pub open spec fn was_read(t: Tree) -> bool {
    exists|v: serde_json::Value| #[trigger] tree_of(v) == t
}

pub open spec fn value_outcome(r: Result<serde_json::Value, String>) -> Result<Tree, Seq<char>> {
    match r {
        Ok(v) => Ok(tree_of(v)),
        Err(e) => Err(e@),
    }
}

pub open spec fn values_outcome(r: Result<Vec<serde_json::Value>, String>) -> Result<
    Seq<Tree>,
    Seq<char>,
> {
    match r {
        Ok(v) => Ok(v@.map_values(|x: serde_json::Value| tree_of(x))),
        Err(e) => Err(e@),
    }
}

/// `serde_json::from_slice` for a single value: a function of the bytes, named `parsed`. What it
/// accepts is left to the name.
#[verifier::external_body]
fn value_from_slice(bytes: &[u8]) -> (r: Result<serde_json::Value, String>)
    ensures
        value_outcome(r) == parsed(bytes@),
{
    serde_json::from_slice::<serde_json::Value>(bytes).map_err(|e| e.to_string())
}

/// `serde_json::from_slice` for a list of values: a function of the bytes, named `parsed_list`. It
/// succeeds where the bytes are a document that is an array, and then gives its elements.
#[verifier::external_body]
fn values_from_slice(bytes: &[u8]) -> (r: Result<Vec<serde_json::Value>, String>)
    ensures
        values_outcome(r) == parsed_list(bytes@),
        match parsed(bytes@) {
            Ok(Tree::Array(items)) => values_outcome(r) == Ok::<Seq<Tree>, Seq<char>>(items),
            _ => r is Err,
        },
{
    serde_json::from_slice::<Vec<serde_json::Value>>(bytes).map_err(|e| e.to_string())
}

/// Takes a `serde_json::Value` apart, variant by variant.
#[verifier::external_body]
fn json_from(v: serde_json::Value) -> (j: Json)
    ensures
        j@ == tree_of(v),
{
    match v {
        serde_json::Value::Null => Json::Null,
        serde_json::Value::Bool(b) => Json::Bool(b),
        serde_json::Value::Number(n) => Json::Number(n),
        serde_json::Value::String(s) => Json::Text(s),
        serde_json::Value::Array(a) => Json::Array(a.into_iter().map(json_from).collect()),
        serde_json::Value::Object(o) => {
            Json::Object(o.into_iter().map(|(k, v)| (k, json_from(v))).collect())
        },
    }
}

/// Puts a `serde_json::Value` together, variant by variant; its objects are `serde_json::Map`s. A
/// document that was taken out of a value goes back as it is.
#[verifier::external_body]
fn value_from(j: Json) -> (v: serde_json::Value)
    ensures
        tree_of(v) == stored(j@),
        was_read(j@) ==> tree_of(v) == j@,
{
    match j {
        Json::Null => serde_json::Value::Null,
        Json::Bool(b) => serde_json::Value::Bool(b),
        Json::Number(n) => serde_json::Value::Number(n),
        Json::Text(s) => serde_json::Value::String(s),
        Json::Array(a) => serde_json::Value::Array(a.into_iter().map(value_from).collect()),
        Json::Object(o) => {
            serde_json::Value::Object(o.into_iter().map(|(k, j)| (k, value_from(j))).collect())
        },
    }
}

/// `serde_json::Value::to_string`: a function of what the value holds, named `displayed`.
#[verifier::external_body]
fn value_text(v: &serde_json::Value) -> (s: String)
    ensures
        s@ == displayed(tree_of(*v)),
{
    v.to_string()
}

/// `serde_json::Value`'s `Debug`: a function of what the value holds, named `debugged`.
#[verifier::external_body]
fn value_debug(v: &serde_json::Value) -> (s: String)
    ensures
        s@ == debugged(tree_of(*v)),
{
    format!("{:?}", v)
}

/// `serde_json::Number::from` an integer, named `number_of`.
#[verifier::external_body]
fn number_from(n: i64) -> (r: serde_json::Number)
    ensures
        r == number_of(n),
{
    serde_json::Number::from(n)
}

/// What reading a document came to.
pub open spec fn outcome(r: Result<Json, String>) -> Result<Tree, Seq<char>> {
    match r {
        Ok(j) => Ok(j@),
        Err(e) => Err(e@),
    }
}

/// Read a document.
pub fn parse(bytes: &[u8]) -> (r: Result<Json, String>)
    ensures
        outcome(r) == parsed(bytes@),
        r matches Ok(j) ==> was_read(j@),
{
    match value_from_slice(bytes) {
        Ok(v) => Ok(json_from(v)),
        Err(e) => Err(e),
    }
}

/// What the documents of a list say.
pub open spec fn trees(v: Seq<Json>) -> Seq<Tree> {
    v.map_values(|j: Json| j@)
}

/// What reading a list of documents came to.
pub open spec fn list_outcome(r: Result<Vec<Json>, String>) -> Result<Seq<Tree>, Seq<char>> {
    match r {
        Ok(v) => Ok(trees(v@)),
        Err(e) => Err(e@),
    }
}

/// Read a list of documents: the elements of a document that is an array.
pub fn parse_list(bytes: &[u8]) -> (r: Result<Vec<Json>, String>)
    ensures
        list_outcome(r) == parsed_list(bytes@),
        match parsed(bytes@) {
            Ok(Tree::Array(items)) => list_outcome(r) == Ok::<Seq<Tree>, Seq<char>>(items),
            _ => r is Err,
        },
{
    match values_from_slice(bytes) {
        Ok(values) => {
            let ghost source = values@;
            let ghost all = source.map_values(|x: serde_json::Value| tree_of(x));
            let mut list: Vec<Json> = Vec::new();
            for v in it: values
                invariant
                    it.seq() == source,
                    all == source.map_values(|x: serde_json::Value| tree_of(x)),
                    trees(list@) == all.take(it.index() as int),
            {
                let ghost before = trees(list@);
                let j = json_from(v);
                list.push(j);
                assert(trees(list@) == before.push(j@));
                assert(j@ == all[it.index() as int]);
                assert(trees(list@) == all.take(it.index() + 1));
            }
            assert(all.take(all.len() as int) == all);
            Ok(list)
        },
        Err(e) => Err(e),
    }
}

/// Write a document in its compact form.
pub fn to_text(j: Json) -> (s: String)
    ensures
        s@ == displayed(stored(j@)),
        was_read(j@) ==> s@ == displayed(j@),
{
    value_text(&value_from(j))
}

/// Show a document to somebody who looks for a fault.
pub fn to_debug_text(j: Json) -> (s: String)
    ensures
        s@ == debugged(stored(j@)),
        was_read(j@) ==> s@ == debugged(j@),
{
    value_debug(&value_from(j))
}

/// A document that has been read already.
pub fn from_value(v: serde_json::Value) -> (j: Json)
    ensures
        j@ == tree_of(v),
        was_read(j@),
{
    json_from(v)
}

pub fn text_value(s: &str) -> (j: Json)
    ensures
        j@ == Tree::Text(s@),
{
    Json::Text(s.to_owned())
}

pub fn int_value(n: i64) -> (j: Json)
    ensures
        j@ == Tree::Number(number_of(n)),
{
    Json::Number(number_from(n))
}

// ── Looking into a document ───────────────────────────────────────────

/// The value of the first entry whose key is `key`.
pub open spec fn entry(pairs: Seq<(Seq<char>, Tree)>, key: Seq<char>) -> Option<Tree>
    decreases pairs.len(),
{
    if pairs.len() == 0 {
        None
    } else if pairs[0].0 == key {
        Some(pairs[0].1)
    } else {
        entry(pairs.drop_first(), key)
    }
}

/// What an object has under `key`; other documents have nothing.
pub open spec fn field(t: Tree, key: Seq<char>) -> Option<Tree> {
    match t {
        Tree::Object(pairs) => entry(pairs, key),
        _ => None,
    }
}

/// Step `0` of a path: the first element of an array, or what an object has under that key.
pub open spec fn first(t: Tree) -> Option<Tree> {
    match t {
        Tree::Array(items) => if items.len() > 0 {
            Some(items[0])
        } else {
            None
        },
        Tree::Object(pairs) => entry(pairs, "0"@),
        _ => None,
    }
}

/// The text in a string document.
pub open spec fn text_in(t: Option<Tree>) -> Option<Seq<char>> {
    match t {
        Some(Tree::Text(s)) => Some(s),
        _ => None,
    }
}

/// The text under `key`, if there is one.
pub open spec fn text_field(t: Tree, key: Seq<char>) -> Option<Seq<char>> {
    text_in(field(t, key))
}

/// The text under `key`, or nothing.
pub open spec fn text_field_or_empty(t: Tree, key: Seq<char>) -> Seq<char> {
    match text_field(t, key) {
        Some(s) => s,
        None => Seq::empty(),
    }
}

/// The truth value under `key`; false where there is none.
pub open spec fn flag(t: Tree, key: Seq<char>) -> bool {
    field(t, key) == Some(Tree::Bool(true))
}

/// What stands at `/a/0` in a document.
pub open spec fn first_of(t: Tree, a: Seq<char>) -> Option<Tree> {
    match field(t, a) {
        Some(list) => first(list),
        None => None,
    }
}

/// The texts among the elements of the array under `key`.
pub open spec fn texts_of(items: Seq<Tree>) -> Seq<Seq<char>>
    decreases items.len(),
{
    if items.len() == 0 {
        Seq::empty()
    } else {
        match items.last() {
            Tree::Text(s) => texts_of(items.drop_last()).push(s),
            _ => texts_of(items.drop_last()),
        }
    }
}

pub open spec fn text_list_field(t: Tree, key: Seq<char>) -> Seq<Seq<char>> {
    match field(t, key) {
        Some(Tree::Array(items)) => texts_of(items),
        _ => Seq::empty(),
    }
}

/// How the view of an object and of an array reads.
pub proof fn lemma_view(j: Json)
    ensures
        j matches Json::Object(pairs) ==> (j@ matches Tree::Object(all) && all.len()
            == pairs@.len() && forall|k: int|
            #![trigger all[k]]
            0 <= k < all.len() ==> all[k] == (pairs@[k].0@, pairs@[k].1@)),
        j matches Json::Array(items) ==> (j@ matches Tree::Array(all) && all.len() == items@.len()
            && forall|k: int| #![trigger all[k]] 0 <= k < all.len() ==> all[k] == items@[k]@),
{
    if let Json::Object(pairs) = j {
        let all = j@->Object_0;
        assert(all.len() == pairs@.len());
        assert forall|k: int| #![trigger all[k]] 0 <= k < all.len() implies all[k] == (
            pairs@[k].0@,
            pairs@[k].1@,
        ) by {
            assert(all[k].0 == pairs@[k].0@);
            assert(all[k].1 == pairs@[k].1@);
        }
    }
}

impl Json {
    pub fn get(&self, key: &str) -> (r: Option<&Json>)
        ensures
            r matches Some(j) ==> field(self@, key@) == Some(j@),
            r is None ==> field(self@, key@) is None,
    {
        proof {
            lemma_view(*self);
        }
        match self {
            Json::Object(pairs) => {
                let ghost all = self@->Object_0;
                let mut i: usize = 0;
                assert(all.skip(0) == all);
                while i < pairs.len()
                    invariant
                        i <= pairs@.len(),
                        self@ == Tree::Object(all),
                        all.len() == pairs@.len(),
                        forall|k: int| #![trigger all[k]]
                            0 <= k < all.len() ==> all[k] == (pairs@[k].0@, pairs@[k].1@),
                        entry(all, key@) == entry(all.skip(i as int), key@),
                    decreases pairs@.len() - i,
                {
                    assert(all.skip(i as int)[0] == all[i as int]);
                    if text::same(pairs[i].0.as_str(), key) {
                        assert(entry(all.skip(i as int), key@) == Some(all[i as int].1));
                        return Some(&pairs[i].1);
                    }
                    assert(all.skip(i as int).drop_first() == all.skip(i + 1));
                    i += 1;
                }
                None
            },
            _ => None,
        }
    }

    pub fn first(&self) -> (r: Option<&Json>)
        ensures
            r matches Some(j) ==> first(self@) == Some(j@),
            r is None ==> first(self@) is None,
    {
        match self {
            Json::Array(items) => {
                if items.len() > 0 {
                    Some(&items[0])
                } else {
                    None
                }
            },
            Json::Object(_) => self.get("0"),
            _ => None,
        }
    }

    pub fn as_text(&self) -> (r: Option<&String>)
        ensures
            r matches Some(s) ==> self@ == Tree::Text(s@),
            r is None ==> !(self@ is Text),
    {
        match self {
            Json::Text(s) => Some(s),
            _ => None,
        }
    }

    /// The text under `key`, if there is one.
    pub fn text_at(&self, key: &str) -> (r: Option<String>)
        ensures
            r matches Some(s) ==> text_field(self@, key@) == Some(s@),
            r is None ==> text_field(self@, key@) is None,
    {
        match self.get(key) {
            Some(j) => match j.as_text() {
                Some(s) => Some(s.clone()),
                None => None,
            },
            None => None,
        }
    }

    /// The text under `key`, or nothing.
    pub fn text_or_empty(&self, key: &str) -> (r: String)
        ensures
            r@ == text_field_or_empty(self@, key@),
    {
        match self.text_at(key) {
            Some(s) => s,
            None => String::new(),
        }
    }

    /// The truth value under `key`; false where there is none.
    pub fn flag_at(&self, key: &str) -> (r: bool)
        ensures
            r == flag(self@, key@),
    {
        match self.get(key) {
            Some(Json::Bool(b)) => *b,
            _ => false,
        }
    }

    /// What stands at `/a/0`.
    pub fn first_of(&self, a: &str) -> (r: Option<&Json>)
        ensures
            r matches Some(j) ==> first_of(self@, a@) == Some(j@),
            r is None ==> first_of(self@, a@) is None,
    {
        match self.get(a) {
            Some(list) => list.first(),
            None => None,
        }
    }

    /// The texts in the array under `key`.
    pub fn text_list_at(&self, key: &str) -> (r: Vec<String>)
        ensures
            text::views(r@) == text_list_field(self@, key@),
    {
        let mut r: Vec<String> = Vec::new();
        match self.get(key) {
            Some(list) => match list {
                Json::Array(items) => {
                    let ghost all = list@->Array_0;
                    let mut i: usize = 0;
                    while i < items.len()
                        invariant
                            i <= items@.len(),
                            all.len() == items@.len(),
                            forall|k: int| #![trigger all[k]]
                                0 <= k < all.len() ==> all[k] == items@[k]@,
                            text::views(r@) == texts_of(all.take(i as int)),
                        decreases items@.len() - i,
                    {
                        assert(all.take(i + 1).drop_last() == all.take(i as int));
                        assert(all.take(i + 1).last() == items@[i as int]@);
                        match items[i].as_text() {
                            Some(s) => {
                                r.push(s.clone());
                                assert(text::views(r@) == texts_of(all.take(i as int)).push(s@));
                            },
                            None => {},
                        }
                        i += 1;
                    }
                    assert(all.take(all.len() as int) == all);
                },
                _ => {},
            },
            None => {},
        }
        assert(field(self@, key@) matches Some(Tree::Array(_)) || text::views(r@) == Seq::<
            Seq<char>,
        >::empty());
        r
    }
}

// ── Laws ──────────────────────────────────────────────────────────────

/// An object answers each of its keys with the value beside the first of them, and no other key.
pub proof fn fields_are_found(pairs: Seq<(Seq<char>, Tree)>, i: int, key: Seq<char>)
    ensures
        0 <= i < pairs.len() && (forall|j: int|
            0 <= j < i ==> (#[trigger] pairs[j]).0 != pairs[i].0) ==> field(
            Tree::Object(pairs),
            pairs[i].0,
        ) == Some(pairs[i].1),
        (forall|j: int| 0 <= j < pairs.len() ==> (#[trigger] pairs[j]).0 != key) ==> field(
            Tree::Object(pairs),
            key,
        ) is None,
    decreases pairs.len(),
{
    if pairs.len() > 0 {
        let rest = pairs.drop_first();
        fields_are_found(rest, i - 1, key);
        if 0 < i < pairs.len() && (forall|j: int|
            0 <= j < i ==> (#[trigger] pairs[j]).0 != pairs[i].0) {
            assert forall|j: int| 0 <= j < i - 1 implies (#[trigger] rest[j]).0 != rest[i - 1].0 by {
                assert(rest[j] == pairs[j + 1]);
            }
            assert(pairs[0].0 != pairs[i].0);
            assert(rest[i - 1] == pairs[i]);
            assert(field(Tree::Object(rest), pairs[i].0) == Some(pairs[i].1));
        }
        if forall|j: int| 0 <= j < pairs.len() ==> (#[trigger] pairs[j]).0 != key {
            assert(pairs[0].0 != key);
            assert forall|j: int| 0 <= j < rest.len() implies (#[trigger] rest[j]).0 != key by {
                assert(rest[j] == pairs[j + 1]);
            }
            assert(field(Tree::Object(rest), key) is None);
        }
    }
}

/// A truth value reads as it is written; what is missing or no truth value reads as false.
pub proof fn flags_read_as_written(t: Tree, key: Seq<char>, b: bool)
    ensures
        field(t, key) == Some(Tree::Bool(b)) ==> flag(t, key) == b,
        !(field(t, key) matches Some(Tree::Bool(_))) ==> !flag(t, key),
{
}

/// The texts in an array are exactly its elements that are texts.
pub proof fn listed_texts_are_found(items: Seq<Tree>, s: Seq<char>)
    ensures
        texts_of(items).contains(s) <==> items.contains(Tree::Text(s)),
        texts_of(items).len() <= items.len(),
    decreases items.len(),
{
    if items.len() > 0 {
        let front = items.drop_last();
        listed_texts_are_found(front, s);
        assert(items.last() == items[items.len() - 1]);
        if items.contains(Tree::Text(s)) {
            let i = choose|i: int| 0 <= i < items.len() && items[i] == Tree::Text(s);
            if i < items.len() - 1 {
                assert(front[i] == Tree::Text(s));
            }
        }
        if front.contains(Tree::Text(s)) {
            let i = choose|i: int| 0 <= i < front.len() && front[i] == Tree::Text(s);
            assert(items[i] == Tree::Text(s));
        }
        if let Tree::Text(u) = items.last() {
            let r = texts_of(items);
            let before = texts_of(front);
            assert(r == before.push(u));
            assert(r[before.len() as int] == u);
            if before.contains(s) {
                let i = choose|i: int| 0 <= i < before.len() && before[i] == s;
                assert(r[i] == s);
            }
            if r.contains(s) {
                let i = choose|i: int| 0 <= i < r.len() && r[i] == s;
                if i < before.len() {
                    assert(before[i] == s);
                }
            }
        }
    }
}

/// One more entry at the end of an object answers its key, unless an earlier one does.
pub proof fn entry_at_the_end(pairs: Seq<(Seq<char>, Tree)>, last: (Seq<char>, Tree), key: Seq<char>)
    ensures
        entry(pairs.push(last), key) == (if entry(pairs, key) is Some {
            entry(pairs, key)
        } else if last.0 == key {
            Some(last.1)
        } else {
            None
        }),
    decreases pairs.len(),
{
    if pairs.len() > 0 {
        assert(pairs.push(last).drop_first() =~= pairs.drop_first().push(last));
        entry_at_the_end(pairs.drop_first(), last, key);
    } else {
        assert(pairs.push(last).drop_first() =~= pairs);
    }
}

/// A text reads as it is written; what is missing or no text reads as nothing.
pub proof fn texts_read_as_written(t: Tree, key: Seq<char>, s: Seq<char>, items: Seq<Tree>)
    ensures
        field(t, key) == Some(Tree::Text(s)) ==> text_field(t, key) == Some(s) && text_field_or_empty(
            t,
            key,
        ) == s,
        !(field(t, key) matches Some(Tree::Text(_))) ==> text_field(t, key) is None
            && text_field_or_empty(t, key).len() == 0,
        field(t, key) == Some(Tree::Array(items)) ==> (text_list_field(t, key).contains(s)
            <==> items.contains(Tree::Text(s))),
        !(field(t, key) matches Some(Tree::Array(_))) ==> text_list_field(t, key).len() == 0,
        field(t, key) == Some(Tree::Array(items)) && items.len() > 0 ==> first_of(t, key) == Some(
            items[0],
        ),
        field(t, key) == Some(Tree::Array(items)) && items.len() == 0 ==> first_of(t, key) is None,
        field(t, key) matches Some(Tree::Object(pairs)) ==> first_of(t, key) == field(
            Tree::Object(pairs),
            "0"@,
        ),
        field(t, key) is None ==> first_of(t, key) is None,
{
    listed_texts_are_found(items, s);
}

} // verus!
