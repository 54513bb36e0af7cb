//! Tokens in a message that stand for something else, usually an emoji.
use crate::pattern;
use crate::text;
use crate::tokens;
use crate::tokens::TokenMap;
use vstd::prelude::*;

verus! {

/// Load the emoji map from the text of its file: `{ "token": "replacement", ... }`. Without a
/// file, or where it says something else, the map is empty.
pub fn load_map(data: Option<&str>) -> (m: TokenMap)
    ensures
        m@ == tokens::loaded(match data {
            Some(s) => Some(s@),
            None => None,
        }),
{
    tokens::load(data)
}

/// `:token:`
pub open spec fn coloned(key: Seq<char>) -> Seq<char> {
    seq![':'] + key + seq![':']
}

/// The pattern for `token` as a word of its own.
pub open spec fn word_pattern(key: Seq<char>) -> Seq<char> {
    "\\b"@ + pattern::escaped(key) + "\\b"@
}

pub(crate) fn colon_token(key: &str) -> (r: String)
    ensures
        r@ == coloned(key@),
{
    let mut r = String::new();
    r.push(':');
    r.append(key);
    r.push(':');
    assert(r@ == coloned(key@));
    r
}

pub(crate) fn word_token(key: &str) -> (r: String)
    ensures
        r@ == word_pattern(key@),
{
    let mut r = "\\b".to_owned();
    r.append(pattern::escape(key).as_str());
    r.append("\\b");
    r
}

/// `s` after every `:token:` of the entries, in their order, has been replaced.
pub open spec fn colons_replaced(m: tokens::Entries, s: Seq<char>) -> Seq<char>
    decreases m.len(),
{
    if m.len() == 0 {
        s
    } else {
        text::replaced_all(
            colons_replaced(m.drop_last(), s),
            coloned(m.last().0),
            m.last().1,
        )
    }
}

/// `s` after every token of the entries, in their order, has been replaced where it is a word of
/// its own: its value stands there character for character.
pub open spec fn words_replaced(m: tokens::Entries, s: Seq<char>) -> Seq<char>
    decreases m.len(),
{
    if m.len() == 0 {
        s
    } else {
        let t = words_replaced(m.drop_last(), s);
        match pattern::spliced(pattern::pieces(word_pattern(m.last().0), t), m.last().1) {
            Some(r) => r,
            None => t,
        }
    }
}

/// `s` with the tokens of the map replaced: first those between colons, then those that are words.
pub open spec fn applied(m: tokens::Entries, s: Seq<char>) -> Seq<char> {
    words_replaced(m, colons_replaced(m, s))
}

/// Whether no token of the map is called in `s`.
pub open spec fn none_called(m: tokens::Entries, s: Seq<char>) -> bool {
    forall|i: int| 0 <= i < m.len() ==> !called((#[trigger] m[i]).0, s)
}

/// Replace `:token:` occurrences with their mapped value.
pub fn apply_colons(map: &TokenMap, s: &str) -> (r: String)
    ensures
        r@ == colons_replaced(map@, s@),
{
    let mut out = s.to_owned();
    let mut i: usize = 0;
    while i < map.entries.len()
        invariant
            i <= map.entries@.len(),
            out@ == colons_replaced(map@.take(i as int), s@),
        decreases map.entries@.len() - i,
    {
        assert(map@.take(i + 1).drop_last() == map@.take(i as int));
        let token = colon_token(map.entries[i].0.as_str());
        out = text::replace_all(out.as_str(), token.as_str(), map.entries[i].1.as_str());
        i += 1;
    }
    assert(map@.take(map@.len() as int) == map@);
    out
}

/// Replace `:token:` and standalone `token` occurrences with their mapped value. A text that calls
/// no token stays as it is.
pub fn apply(map: &TokenMap, s: &str) -> (r: String)
    ensures
        r@ == applied(map@, s@),
        none_called(map@, s@) ==> r@ == s@,
{
    let mut out = apply_colons(map, s);
    let ghost middle = out@;
    proof {
        if none_called(map@, s@) {
            colons_untouched(map@, s@);
        }
    }
    let mut i: usize = 0;
    while i < map.entries.len()
        invariant
            i <= map.entries@.len(),
            out@ == words_replaced(map@.take(i as int), middle),
            none_called(map@, s@) ==> out@ == s@,
        decreases map.entries@.len() - i,
    {
        assert(map@.take(i + 1).drop_last() == map@.take(i as int));
        assert(map@[i as int].0 == map.entries@[i as int].0@);
        let word = word_token(map.entries[i].0.as_str());
        match pattern::replace_all(word.as_str(), out.as_str(), map.entries[i].1.as_str()) {
            Some(r) => {
                proof {
                    if none_called(map@, s@) {
                        assert(!called(map@[i as int].0, s@));
                        assert(pattern::matched(word@, s@) == Some(false));
                        assert(pattern::text_of(Some(r)) == Some(s@));
                    }
                }
                out = r;
            },
            None => {},
        }
        i += 1;
    }
    assert(map@.take(map@.len() as int) == map@);
    out
}

/// Whether the token `key` is called in `s`, between colons or as a word of its own.
pub open spec fn called(key: Seq<char>, s: Seq<char>) -> bool {
    text::has_sub(s, coloned(key)) || pattern::matched(word_pattern(key), s) == Some(true)
}

/// Whether the token `key` is called in `s`.
pub fn is_called(key: &str, s: &str) -> (r: bool)
    ensures
        r == called(key@, s@),
{
    if text::contains(s, colon_token(key).as_str()) {
        return true;
    }
    match pattern::is_match(word_token(key).as_str(), s) {
        Some(b) => b,
        None => false,
    }
}

/// Without a token between colons, the first pass leaves a text as it is. In particular an empty
/// map changes nothing.
pub proof fn colons_untouched(m: tokens::Entries, s: Seq<char>)
    requires
        forall|i: int| 0 <= i < m.len() ==> !text::has_sub(s, coloned((#[trigger] m[i]).0)),
    ensures
        colons_replaced(m, s) == s,
        m.len() == 0 ==> applied(m, s) == s,
    decreases m.len(),
{
    if m.len() > 0 {
        assert forall|i: int| 0 <= i < m.drop_last().len() implies !text::has_sub(
            s,
            coloned((#[trigger] m.drop_last()[i]).0),
        ) by {
            assert(m.drop_last()[i] == m[i]);
        }
        colons_untouched(m.drop_last(), s);
        text::lemma_found(s, coloned(m.last().0));
        assert(m.last() == m[m.len() - 1]);
    }
}

// ── Laws of replacing ─────────────────────────────────────────────────

/// The entries of a map do their work one after the other.
pub proof fn tokens_take_their_turns(
    m: tokens::Entries,
    last: (Seq<char>, Seq<char>),
    s: Seq<char>,
)
    ensures
        colons_replaced(m.push(last), s) == colons_replaced(seq![last], colons_replaced(m, s)),
        words_replaced(m.push(last), s) == words_replaced(seq![last], words_replaced(m, s)),
{
    assert(m.push(last).drop_last() =~= m);
    assert(seq![last].drop_last() =~= Seq::empty());
    assert(colons_replaced(seq![last].drop_last(), colons_replaced(m, s)) == colons_replaced(m, s));
    assert(words_replaced(seq![last].drop_last(), words_replaced(m, s)) == words_replaced(m, s));
}

/// The first `:token:` of a text gives way to its value, what comes before it stays, and the pass
/// goes on behind it: no later one is left out.
pub proof fn calls_are_replaced_one_by_one(
    key: Seq<char>,
    value: Seq<char>,
    a: Seq<char>,
    b: Seq<char>,
)
    requires
        !text::has_sub(a + seq![':'] + key, seq![':'] + key + seq![':']),
    ensures
        colons_replaced(seq![(key, value)], a + (seq![':'] + key + seq![':']) + b) == a + value
            + colons_replaced(seq![(key, value)], b),
{
    let m = seq![(key, value)];
    let s = a + (seq![':'] + key + seq![':']) + b;
    assert(m.drop_last() =~= Seq::empty());
    assert(colons_replaced(m.drop_last(), s) == s);
    assert(colons_replaced(m.drop_last(), b) == b);
    assert(a + coloned(key).drop_last() =~= a + seq![':'] + key);
    text::every_copy_is_replaced(a, coloned(key), b, value);
}

/// Every call of a token between colons is replaced by its value, however many there are, and the
/// stretches between them stay as they are.
pub proof fn every_call_is_replaced(key: Seq<char>, value: Seq<char>, stretches: Seq<Seq<char>>)
    requires
        !key.contains(':'),
        forall|i: int| 0 <= i < stretches.len() ==> !(#[trigger] stretches[i]).contains(':'),
    ensures
        colons_replaced(
            seq![(key, value)],
            text::joined(stretches, seq![':'] + key + seq![':']),
        ) == text::joined(stretches, value),
    decreases stretches.len(),
{
    let m = seq![(key, value)];
    let call = seq![':'] + key + seq![':'];
    let all = text::joined(stretches, call);
    assert(m.drop_last() =~= Seq::empty());
    assert(colons_replaced(m.drop_last(), all) == all);
    if stretches.len() > 0 {
        let first = stretches[0];
        let rest = stretches.drop_first();
        assert(stretches =~= seq![first] + rest);
        text::joined_piece_by_piece(first, rest, call);
        text::joined_piece_by_piece(first, rest, value);
        let head = first + seq![':'] + key;
        if text::has_sub(head, call) {
            let i = choose|i: int| #[trigger] text::matches_at(head, call, i);
            let k = i + call.len() - 1;
            assert(head.subrange(i, i + call.len())[0] == ':');
            assert(head.subrange(i, i + call.len())[call.len() - 1] == ':');
            assert(head[i] == ':' && head[k] == ':' && i < k < head.len());
            if i < first.len() {
                assert(first[i] == ':');
            }
            if k > first.len() {
                assert(key[k - first.len() - 1] == ':');
            }
        }
        if rest.len() > 0 {
            every_call_is_replaced(key, value, rest);
            calls_are_replaced_one_by_one(key, value, first, text::joined(rest, call));
        } else {
            assert(!text::has_sub(first, call)) by {
                if text::has_sub(first, call) {
                    let i = choose|i: int| #[trigger] text::matches_at(first, call, i);
                    assert(first.subrange(i, i + call.len())[0] == ':');
                    assert(first[i] == ':');
                }
            }
            text::nothing_to_replace(first, call, value);
        }
    } else {
        assert(!text::has_sub(all, call));
        text::nothing_to_replace(all, call, value);
    }
}

/// A token that means something only to itself stands in its pattern as it is.
proof fn lemma_plain_pattern(key: Seq<char>)
    requires
        forall|i: int| 0 <= i < key.len() ==> !pattern::is_meta(#[trigger] key[i]),
    ensures
        pattern::escaped(key) == key,
    decreases key.len(),
{
    if key.len() > 0 {
        lemma_plain_pattern(key.drop_last());
        assert(!pattern::is_meta(key[key.len() - 1]));
        assert(key.drop_last().push(key.last()) =~= key);
    }
}

/// A token between colons or on its own is called; the second pass puts the value of a token in the
/// place of each of its words, whatever characters the value holds.
pub proof fn words_are_replaced_in_place(
    key: Seq<char>,
    value: Seq<char>,
    s: Seq<char>,
    stretches: Seq<Seq<char>>,
)
    requires
        forall|i: int| 0 <= i < key.len() ==> !pattern::is_meta(#[trigger] key[i]),
        pattern::pieces("\\b"@ + key + "\\b"@, s) == Some(stretches),
    ensures
        words_replaced(seq![(key, value)], s) == text::joined(stretches, value),
        !text::has_sub(s, seq![':'] + key + seq![':']) ==> applied(seq![(key, value)], s)
            == text::joined(stretches, value),
        called(key, s) <==> text::has_sub(s, seq![':'] + key + seq![':']) || pattern::matched(
            "\\b"@ + key + "\\b"@,
            s,
        ) == Some(true),
{
    let m = seq![(key, value)];
    lemma_plain_pattern(key);
    assert(m.drop_last() =~= Seq::empty());
    assert(words_replaced(m.drop_last(), s) == s);
    assert(colons_replaced(m.drop_last(), s) == s);
    if !text::has_sub(s, seq![':'] + key + seq![':']) {
        text::nothing_to_replace(s, seq![':'] + key + seq![':'], value);
    }
}

/// A token whose pattern does not compile changes nothing.
pub proof fn faulty_patterns_change_nothing(key: Seq<char>, value: Seq<char>, s: Seq<char>)
    requires
        forall|i: int| 0 <= i < key.len() ==> !pattern::is_meta(#[trigger] key[i]),
        pattern::pieces("\\b"@ + key + "\\b"@, s) is None,
    ensures
        words_replaced(seq![(key, value)], s) == s,
{
    let m = seq![(key, value)];
    lemma_plain_pattern(key);
    assert(m.drop_last() =~= Seq::empty());
    assert(words_replaced(m.drop_last(), s) == s);
}

} // verus!
