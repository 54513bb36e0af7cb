//! A bounded memory of rendered images.
use crate::images::RenderResult;
use crate::numbers;
use crate::text;
use std::collections::VecDeque;
use vstd::hash_map::StringHashMap;
use vstd::prelude::*;

verus! {

/// Bounded cache of rendered art, keyed by `url|colsxrows`. The oldest entries go first.
pub struct ImageCache {
    map: StringHashMap<RenderResult>,
    order: VecDeque<String>,
}

/// What the cache holds: outcomes under their keys, and the keys in the order of their arrival.
#[verifier::ext_equal]
pub struct Held {
    pub map: Map<Seq<char>, RenderResult>,
    pub order: Seq<Seq<char>>,
}

impl View for ImageCache {
    type V = Held;

    closed spec fn view(&self) -> Held {
        Held { map: self.map@, order: text::views(self.order@) }
    }
}

pub open spec fn empty() -> Held {
    Held { map: Map::empty(), order: Seq::empty() }
}

pub open spec fn find(c: Held, key: Seq<char>) -> Option<RenderResult> {
    if c.map.dom().contains(key) {
        Some(c.map[key])
    } else {
        None
    }
}

/// `c` with the oldest entries gone until at most `max` are left.
pub open spec fn evicted(c: Held, max: nat) -> Held
    decreases c.order.len(),
{
    if c.order.len() > max {
        evicted(Held { map: c.map.remove(c.order[0]), order: c.order.drop_first() }, max)
    } else {
        c
    }
}

/// `c` after `result` has been kept under `key`, with room for `max` entries.
pub open spec fn kept(c: Held, key: Seq<char>, result: RenderResult, max: nat) -> Held {
    evicted(Held { map: c.map.insert(key, result), order: c.order.push(key) }, max)
}

/// How many entries a terminal of `rows` rows keeps: four times its height, and eight at least.
pub open spec fn capacity(rows: u16) -> nat {
    if rows < 2 {
        8
    } else {
        (4 * rows) as nat
    }
}

/// The key of an image at a terminal size: `url|colsxrows`.
pub open spec fn key_of(url: Seq<char>, cols: u16, rows: u16) -> Seq<char> {
    url + "|"@ + numbers::digits(cols as nat) + "x"@ + numbers::digits(rows as nat)
}

/// The key of an image at a terminal size.
pub fn cache_key(url: &str, cols: u16, rows: u16) -> (key: String)
    ensures
        key@ == key_of(url@, cols, rows),
{
    let mut key = url.to_owned();
    key.append("|");
    key.append(numbers::decimal(cols as u64).as_str());
    key.append("x");
    key.append(numbers::decimal(rows as u64).as_str());
    key
}

impl ImageCache {
    pub fn new() -> (c: ImageCache)
        ensures
            c@ == empty(),
    {
        let c = ImageCache { map: StringHashMap::new(), order: VecDeque::new() };
        assert(text::views(c.order@) == Seq::<Seq<char>>::empty());
        c
    }

    pub fn get(&self, key: &str) -> (r: Option<RenderResult>)
        ensures
            r == find(self@, key@),
    {
        match self.map.get(key) {
            Some(hit) => Some(hit.clone()),
            None => None,
        }
    }

    /// Keep `result` under `key`, and forget the oldest entries past the capacity.
    pub fn insert(&mut self, key: String, result: RenderResult, rows: u16)
        ensures
            final(self)@ == kept(old(self)@, key@, result, capacity(rows)),
    {
        let ghost before = self@;
        self.map.insert(key.clone(), result);
        self.order.push_back(key);
        assert(self@.order == before.order.push(key@));
        let max: usize = if rows < 2 {
            8
        } else {
            4 * rows as usize
        };
        let ghost target = kept(before, key@, result, max as nat);
        while self.order.len() > max
            invariant
                evicted(self@, max as nat) == target,
            decreases self.order@.len(),
        {
            let ghost held = self@;
            let ghost keys = self.order@;
            match self.order.pop_front() {
                Some(old_key) => {
                    self.map.remove(old_key.as_str());
                    proof {
                        assert(held.order[0] == keys[0]@);
                        assert(self.order@ == keys.subrange(1, keys.len() as int));
                        assert(self@.order == held.order.drop_first());
                        assert(self@ == Held {
                            map: held.map.remove(held.order[0]),
                            order: held.order.drop_first(),
                        });
                    }
                },
                None => {},
            }
        }
    }
}

// ── Laws of the cache ─────────────────────────────────────────────────

/// Every kept outcome has its key in the order of arrival.
pub open spec fn accounted(c: Held) -> bool {
    forall|key: Seq<char>| #[trigger] c.map.dom().contains(key) ==> c.order.contains(key)
}

proof fn lemma_evicted(c: Held, max: nat)
    requires
        accounted(c),
    ensures
        accounted(evicted(c, max)),
        evicted(c, max).order.len() <= max,
        c.order.len() > max ==> evicted(c, max).order.len() == max,
        c.order.len() <= max ==> evicted(c, max) == c,
    decreases c.order.len(),
{
    if c.order.len() > max {
        let d = Held { map: c.map.remove(c.order[0]), order: c.order.drop_first() };
        assert forall|key: Seq<char>| #[trigger] d.map.dom().contains(key) implies d.order.contains(
            key,
        ) by {
            assert(c.map.dom().contains(key));
            let i = choose|i: int| 0 <= i < c.order.len() && c.order[i] == key;
            assert(i > 0);
            assert(d.order[i - 1] == key);
        }
        lemma_evicted(d, max);
    }
}

/// The memory stays bounded: it starts empty, and after every outcome that is kept there are at
/// most as many entries as the terminal allows, all of them accounted for.
pub proof fn cache_stays_bounded(c: Held, key: Seq<char>, result: RenderResult, rows: u16)
    requires
        accounted(c),
    ensures
        accounted(empty()),
        accounted(kept(c, key, result, capacity(rows))),
        kept(c, key, result, capacity(rows)).order.len() <= capacity(rows),
{
    let d = Held { map: c.map.insert(key, result), order: c.order.push(key) };
    assert forall|k: Seq<char>| #[trigger] d.map.dom().contains(k) implies d.order.contains(k) by {
        if k == key {
            assert(d.order[c.order.len() as int] == key);
        } else {
            assert(c.map.dom().contains(k));
            let i = choose|i: int| 0 <= i < c.order.len() && c.order[i] == k;
            assert(d.order[i] == k);
        }
    }
    lemma_evicted(d, capacity(rows));
}

proof fn lemma_evicted_keeps(c: Held, max: nat, key: Seq<char>, result: RenderResult)
    requires
        max > 0,
        c.order.len() > 0,
        c.order.last() == key,
        forall|i: int| 0 <= i < c.order.len() - 1 ==> #[trigger] c.order[i] != key,
        find(c, key) == Some(result),
    ensures
        find(evicted(c, max), key) == Some(result),
    decreases c.order.len(),
{
    if c.order.len() > max {
        let d = Held { map: c.map.remove(c.order[0]), order: c.order.drop_first() };
        assert(c.order[0] != key);
        assert forall|i: int| 0 <= i < d.order.len() - 1 implies #[trigger] d.order[i] != key by {
            assert(d.order[i] == c.order[i + 1]);
        }
        lemma_evicted_keeps(d, max, key, result);
    }
}

/// What was just kept is found again, whatever else had to go.
pub proof fn kept_outcome_is_found(c: Held, key: Seq<char>, result: RenderResult, rows: u16)
    requires
        !c.order.contains(key),
    ensures
        find(kept(c, key, result, capacity(rows)), key) == Some(result),
{
    let d = Held { map: c.map.insert(key, result), order: c.order.push(key) };
    assert forall|i: int| 0 <= i < d.order.len() - 1 implies #[trigger] d.order[i] != key by {
        assert(d.order[i] == c.order[i]);
    }
    lemma_evicted_keeps(d, capacity(rows), key, result);
}

/// Every key in the order of arrival stands there once and has an outcome, and nothing else has
/// one. This is so as long as each outcome is kept before the next image is asked for.
pub open spec fn settled(c: Held) -> bool {
    &&& c.order.no_duplicates()
    &&& forall|key: Seq<char>| #[trigger] c.map.dom().contains(key) <==> c.order.contains(key)
}

/// The newest `max` of several keys.
pub open spec fn newest(keys: Seq<Seq<char>>, max: nat) -> Seq<Seq<char>> {
    if keys.len() > max {
        keys.skip(keys.len() - max)
    } else {
        keys
    }
}

proof fn lemma_settled_evicted(c: Held, max: nat, key: Seq<char>)
    requires
        settled(c),
    ensures
        settled(evicted(c, max)),
        evicted(c, max).order == newest(c.order, max),
        newest(c.order, max).contains(key) ==> find(evicted(c, max), key) == find(c, key),
    decreases c.order.len(),
{
    if c.order.len() > max {
        let first = c.order[0];
        let d = Held { map: c.map.remove(first), order: c.order.drop_first() };
        assert forall|k: Seq<char>| #[trigger] d.map.dom().contains(k) <==> d.order.contains(k) by {
            if d.order.contains(k) {
                let i = choose|i: int| 0 <= i < d.order.len() && d.order[i] == k;
                assert(c.order[i + 1] == k);
            }
            if c.order.contains(k) && k != first {
                let i = choose|i: int| 0 <= i < c.order.len() && c.order[i] == k;
                assert(d.order[i - 1] == k);
            }
        }
        lemma_settled_evicted(d, max, key);
        assert(newest(d.order, max) =~= newest(c.order, max));
        if newest(c.order, max).contains(key) {
            let i = choose|i: int|
                0 <= i < newest(c.order, max).len() && newest(c.order, max)[i] == key;
            assert(c.order[c.order.len() - max + i] == key);
        }
    }
}

/// After an image that had no outcome has been rendered and kept, exactly the newest keys that the
/// terminal allows have one: the new outcome under its key, and the others as before.
pub proof fn newest_outcomes_are_kept(
    c: Held,
    key: Seq<char>,
    result: RenderResult,
    rows: u16,
    asked: Seq<char>,
)
    requires
        settled(c),
        find(c, key) is None,
    ensures
        settled(empty()),
        settled(kept(c, key, result, capacity(rows))),
        kept(c, key, result, capacity(rows)).order == newest(c.order.push(key), capacity(rows)),
        find(kept(c, key, result, capacity(rows)), asked) == if !newest(
            c.order.push(key),
            capacity(rows),
        ).contains(asked) {
            None
        } else if asked == key {
            Some(result)
        } else {
            find(c, asked)
        },
{
    let d = Held { map: c.map.insert(key, result), order: c.order.push(key) };
    assert(!c.order.contains(key));
    assert forall|k: Seq<char>| #[trigger] d.map.dom().contains(k) <==> d.order.contains(k) by {
        if d.order.contains(k) {
            let i = choose|i: int| 0 <= i < d.order.len() && d.order[i] == k;
            if i < c.order.len() {
                assert(c.order[i] == k);
            }
        }
        if k == key {
            assert(d.order[c.order.len() as int] == k);
        } else if c.order.contains(k) {
            let i = choose|i: int| 0 <= i < c.order.len() && c.order[i] == k;
            assert(d.order[i] == k);
        }
    }
    assert(d.order.no_duplicates());
    lemma_settled_evicted(d, capacity(rows), asked);
    let after = kept(c, key, result, capacity(rows));
    assert(after.map.dom().contains(asked) <==> after.order.contains(asked));
}

proof fn lemma_evicted_finds_no_more(c: Held, max: nat, key: Seq<char>)
    ensures
        find(c, key) is None ==> find(evicted(c, max), key) is None,
    decreases c.order.len(),
{
    if c.order.len() > max {
        lemma_evicted_finds_no_more(
            Held { map: c.map.remove(c.order[0]), order: c.order.drop_first() },
            max,
            key,
        );
    }
}

/// Keeping an outcome for one terminal size brings none about for another: after a resize the image
/// is rendered anew.
pub proof fn resized_image_is_rendered_anew(
    c: Held,
    url: Seq<char>,
    cols: u16,
    rows: u16,
    result: RenderResult,
    new_cols: u16,
    new_rows: u16,
)
    requires
        (cols, rows) != (new_cols, new_rows),
        find(c, key_of(url, new_cols, new_rows)) is None,
    ensures
        find(
            kept(c, key_of(url, cols, rows), result, capacity(rows)),
            key_of(url, new_cols, new_rows),
        ) is None,
{
    let key = key_of(url, cols, rows);
    let other = key_of(url, new_cols, new_rows);
    if key == other {
        keys_tell_sizes_apart(url, cols, rows, url, new_cols, new_rows);
    }
    lemma_evicted_finds_no_more(
        Held { map: c.map.insert(key, result), order: c.order.push(key) },
        capacity(rows),
        other,
    );
}

proof fn lemma_split_last(a: Seq<char>, b: Seq<char>, x: Seq<char>, y: Seq<char>, c: char)
    requires
        a + seq![c] + x == b + seq![c] + y,
        !x.contains(c),
        !y.contains(c),
    ensures
        a == b,
        x == y,
{
    let s = a + seq![c] + x;
    let t = b + seq![c] + y;
    assert(s.len() == a.len() + 1 + x.len());
    assert(t.len() == b.len() + 1 + y.len());
    assert(s[a.len() as int] == c);
    assert(t[b.len() as int] == c);
    if a.len() < b.len() {
        let k = b.len() - a.len() - 1;
        assert(0 <= k < x.len());
        assert(s[b.len() as int] == x[k]);
        assert(x.contains(c));
    } else if b.len() < a.len() {
        let k = a.len() - b.len() - 1;
        assert(0 <= k < y.len());
        assert(t[a.len() as int] == y[k]);
        assert(y.contains(c));
    }
    assert(a.len() == b.len());
    assert(x.len() == y.len());
    assert(a == s.take(a.len() as int));
    assert(b == t.take(b.len() as int));
    assert(x == s.skip(a.len() as int + 1));
    assert(y == t.skip(b.len() as int + 1));
}

proof fn lemma_no_letter(n: nat, c: char)
    requires
        !numbers::is_digit(c),
    ensures
        !numbers::digits(n).contains(c),
{
    numbers::lemma_digits(n);
    let s = numbers::digits(n);
    if s.contains(c) {
        let i = choose|i: int| 0 <= i < s.len() && s[i] == c;
        assert(numbers::is_digit(s[i]));
    }
}

/// A key tells the image and the terminal size: a resize looks up another entry.
pub proof fn keys_tell_sizes_apart(
    url1: Seq<char>,
    cols1: u16,
    rows1: u16,
    url2: Seq<char>,
    cols2: u16,
    rows2: u16,
)
    requires
        key_of(url1, cols1, rows1) == key_of(url2, cols2, rows2),
    ensures
        url1 == url2,
        cols1 == cols2,
        rows1 == rows2,
{
    reveal_strlit("|");
    reveal_strlit("x");
    assert("|"@ == seq!['|']);
    assert("x"@ == seq!['x']);
    let c1 = numbers::digits(cols1 as nat);
    let c2 = numbers::digits(cols2 as nat);
    let r1 = numbers::digits(rows1 as nat);
    let r2 = numbers::digits(rows2 as nat);
    lemma_no_letter(rows1 as nat, 'x');
    lemma_no_letter(rows2 as nat, 'x');
    let a1 = url1 + seq!['|'] + c1;
    let a2 = url2 + seq!['|'] + c2;
    assert(key_of(url1, cols1, rows1) == a1 + seq!['x'] + r1);
    assert(key_of(url2, cols2, rows2) == a2 + seq!['x'] + r2);
    lemma_split_last(a1, a2, r1, r2, 'x');
    lemma_no_letter(cols1 as nat, '|');
    lemma_no_letter(cols2 as nat, '|');
    lemma_split_last(url1, url2, c1, c2, '|');
    numbers::digits_tell_numbers_apart(cols1 as nat, cols2 as nat);
    numbers::digits_tell_numbers_apart(rows1 as nat, rows2 as nat);
}

/// The memory holds four screens of outcomes, and eight even where the screen is very small.
pub proof fn capacity_follows_the_screen(rows: u16)
    ensures
        capacity(rows) >= 8,
        capacity(rows) >= 4 * rows,
        capacity(rows) == 8 || capacity(rows) == 4 * rows,
{
}

} // verus!
