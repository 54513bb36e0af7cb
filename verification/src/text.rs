//! Operations on text, stated over sequences of characters.
use vstd::prelude::*;

verus! {

/// `String::push` appends one character.
pub assume_specification[ String::push ](s: &mut String, c: char)
    ensures
        final(s)@ == old(s)@.push(c),
;

/// `String::pop` takes the last character off and returns it; an empty string stays empty.
pub assume_specification[ String::pop ](s: &mut String) -> (c: Option<char>)
    ensures
        old(s)@.len() == 0 ==> c is None && final(s)@ == old(s)@,
        old(s)@.len() > 0 ==> c == Some(old(s)@.last()) && final(s)@ == old(s)@.drop_last(),
;

// ── Characters and strings ────────────────────────────────────────────

/// The characters of `s`, one by one.
pub fn chars_of(s: &str) -> (v: Vec<char>)
    ensures
        v@ == s@,
{
    let mut v: Vec<char> = Vec::new();
    for c in it: s.chars()
        invariant
            v@ == it.seq().take(it.index() as int),
            it.seq() == s@,
    {
        v.push(c);
    }
    v
}

/// The characters of `v` from `from` up to `to`, as a string.
pub fn string_of(v: &Vec<char>, from: usize, to: usize) -> (s: String)
    requires
        from <= to <= v@.len(),
    ensures
        s@ == v@.subrange(from as int, to as int),
{
    let mut s = String::new();
    let mut i: usize = from;
    while i < to
        invariant
            from <= i <= to <= v@.len(),
            s@ == v@.subrange(from as int, i as int),
        decreases to - i,
    {
        s.push(v[i]);
        i += 1;
    }
    s
}

/// Whether two strings hold the same characters.
pub fn same(a: &str, b: &str) -> (r: bool)
    ensures
        r == (a@ == b@),
{
    a.to_owned() == b.to_owned()
}

/// One text behind the other.
pub fn concat(a: &str, b: &str) -> (r: String)
    ensures
        r@ == a@ + b@,
{
    let mut r = a.to_owned();
    r.append(b);
    r
}

// ── White space ───────────────────────────────────────────────────────

/// The characters that Unicode gives the property White_Space.
pub open spec fn is_white(c: char) -> bool {
    ||| '\u{9}' <= c <= '\u{d}'
    ||| c == '\u{20}'
    ||| c == '\u{85}'
    ||| c == '\u{a0}'
    ||| c == '\u{1680}'
    ||| '\u{2000}' <= c <= '\u{200a}'
    ||| c == '\u{2028}'
    ||| c == '\u{2029}'
    ||| c == '\u{202f}'
    ||| c == '\u{205f}'
    ||| c == '\u{3000}'
}

pub fn white(c: char) -> (b: bool)
    ensures
        b == is_white(c),
{
    ('\u{9}' <= c && c <= '\u{d}') || c == '\u{20}' || c == '\u{85}' || c == '\u{a0}' || c
        == '\u{1680}' || ('\u{2000}' <= c && c <= '\u{200a}') || c == '\u{2028}' || c == '\u{2029}'
        || c == '\u{202f}' || c == '\u{205f}' || c == '\u{3000}'
}

/// `s` without the white space at its front.
pub open spec fn trimmed_start(s: Seq<char>) -> Seq<char>
    decreases s.len(),
{
    if s.len() > 0 && is_white(s[0]) {
        trimmed_start(s.drop_first())
    } else {
        s
    }
}

/// `s` without the white space at its back.
pub open spec fn trimmed_end(s: Seq<char>) -> Seq<char>
    decreases s.len(),
{
    if s.len() > 0 && is_white(s.last()) {
        trimmed_end(s.drop_last())
    } else {
        s
    }
}

/// `s` without the white space at either end.
pub open spec fn trimmed(s: Seq<char>) -> Seq<char> {
    trimmed_end(trimmed_start(s))
}

pub fn trim(s: &str) -> (r: String)
    ensures
        r@ == trimmed(s@),
{
    let v = chars_of(s);
    let mut from: usize = 0;
    assert(v@.subrange(0, v@.len() as int) == v@);
    while from < v.len() && white(v[from])
        invariant
            from <= v@.len(),
            trimmed_start(v@) == trimmed_start(v@.subrange(from as int, v@.len() as int)),
        decreases v@.len() - from,
    {
        proof {
            let rest = v@.subrange(from as int, v@.len() as int);
            assert(rest.drop_first() == v@.subrange(from + 1, v@.len() as int));
        }
        from += 1;
    }
    let ghost body = v@.subrange(from as int, v@.len() as int);
    let mut to: usize = v.len();
    while to > from && white(v[to - 1])
        invariant
            from <= to <= v@.len(),
            body == v@.subrange(from as int, v@.len() as int),
            trimmed_end(body) == trimmed_end(v@.subrange(from as int, to as int)),
        decreases to,
    {
        proof {
            let rest = v@.subrange(from as int, to as int);
            assert(rest.drop_last() == v@.subrange(from as int, to - 1));
        }
        to -= 1;
    }
    string_of(&v, from, to)
}

/// White space on its own trims to nothing, and nothing else does.
pub proof fn lemma_trimmed_empty(s: Seq<char>)
    ensures
        trimmed(s).len() == 0 <==> forall|i: int| 0 <= i < s.len() ==> is_white(#[trigger] s[i]),
{
    lemma_trimmed_start_suffix(s);
    lemma_trimmed_end_empty(trimmed_start(s));
    if forall|i: int| 0 <= i < s.len() ==> is_white(#[trigger] s[i]) {
        assert forall|i: int| 0 <= i < trimmed_start(s).len() implies is_white(
            #[trigger] trimmed_start(s)[i],
        ) by {}
    } else {
        let t = trimmed_start(s);
        let k = choose|k: int| 0 <= k < s.len() && !is_white(#[trigger] s[k]);
        let off = s.len() - t.len();
        assert(k >= off);
        assert(t[k - off] == s[k]);
    }
}

proof fn lemma_trimmed_start_suffix(s: Seq<char>)
    ensures
        trimmed_start(s).len() <= s.len(),
        trimmed_start(s) == s.subrange(s.len() - trimmed_start(s).len(), s.len() as int),
        forall|i: int|
            0 <= i < s.len() - trimmed_start(s).len() ==> is_white(#[trigger] s[i]),
    decreases s.len(),
{
    if s.len() > 0 && is_white(s[0]) {
        let r = s.drop_first();
        lemma_trimmed_start_suffix(r);
        assert forall|i: int| 0 <= i < s.len() - trimmed_start(s).len() implies is_white(
            #[trigger] s[i],
        ) by {
            if i > 0 {
                assert(s[i] == r[i - 1]);
            }
        }
    }
}

proof fn lemma_trimmed_end_empty(s: Seq<char>)
    ensures
        trimmed_end(s).len() == 0 <==> forall|i: int|
            0 <= i < s.len() ==> is_white(#[trigger] s[i]),
    decreases s.len(),
{
    if s.len() > 0 && is_white(s.last()) {
        lemma_trimmed_end_empty(s.drop_last());
        if trimmed_end(s).len() == 0 {
            assert forall|i: int| 0 <= i < s.len() implies is_white(#[trigger] s[i]) by {
                if i < s.len() - 1 {
                    assert(s.drop_last()[i] == s[i]);
                }
            }
        }
    }
}

// ── Case ──────────────────────────────────────────────────────────────

/// The lower case of an ASCII capital; every other character stands for itself.
pub open spec fn ascii_lower(c: char) -> char {
    if 'A' <= c <= 'Z' {
        (c as u32 + 32) as char
    } else {
        c
    }
}

pub open spec fn lowered(s: Seq<char>) -> Seq<char> {
    s.map_values(|c: char| ascii_lower(c))
}

fn lower_char(c: char) -> (r: char)
    ensures
        r == ascii_lower(c),
{
    if 'A' <= c && c <= 'Z' {
        ((c as u8) + 32) as char
    } else {
        c
    }
}

pub fn lower_ascii(s: &str) -> (r: String)
    ensures
        r@ == lowered(s@),
{
    let v = chars_of(s);
    let mut r = String::new();
    let mut i: usize = 0;
    while i < v.len()
        invariant
            i <= v@.len(),
            r@ == lowered(v@.take(i as int)),
        decreases v@.len() - i,
    {
        r.push(lower_char(v[i]));
        assert(v@.take(i + 1) == v@.take(i as int).push(v@[i as int]));
        i += 1;
    }
    assert(v@.take(v@.len() as int) == v@);
    r
}

// ── Searching and replacing ───────────────────────────────────────────

/// Whether `pat` stands in `s` at position `i`.
pub open spec fn matches_at(s: Seq<char>, pat: Seq<char>, i: int) -> bool {
    0 <= i && i + pat.len() <= s.len() && s.subrange(i, i + pat.len()) == pat
}

/// Whether `pat` stands somewhere in `s`.
pub open spec fn has_sub(s: Seq<char>, pat: Seq<char>) -> bool {
    exists|i: int| #[trigger] matches_at(s, pat, i)
}

/// The first position at or after `from` where `pat` stands in `s`.
pub open spec fn find_from(s: Seq<char>, pat: Seq<char>, from: int) -> Option<int>
    decreases s.len() + 1 - from,
{
    if from < 0 || from + pat.len() > s.len() {
        None
    } else if matches_at(s, pat, from) {
        Some(from)
    } else {
        find_from(s, pat, from + 1)
    }
}

/// The first position where `pat` stands in `s`.
pub open spec fn found(s: Seq<char>, pat: Seq<char>) -> Option<int> {
    find_from(s, pat, 0)
}

/// What `find_from` returns is a match, nothing before it is one, and it returns nothing only
/// where there is no match.
pub proof fn lemma_find_from(s: Seq<char>, pat: Seq<char>, from: int)
    requires
        0 <= from,
    ensures
        match find_from(s, pat, from) {
            Some(i) => from <= i && matches_at(s, pat, i) && forall|j: int|
                from <= j < i ==> !#[trigger] matches_at(s, pat, j),
            None => forall|j: int| from <= j ==> !#[trigger] matches_at(s, pat, j),
        },
    decreases s.len() + 1 - from,
{
    if from + pat.len() > s.len() {
    } else if matches_at(s, pat, from) {
    } else {
        lemma_find_from(s, pat, from + 1);
    }
}

pub proof fn lemma_found(s: Seq<char>, pat: Seq<char>)
    ensures
        found(s, pat) is Some <==> has_sub(s, pat),
        found(s, pat) matches Some(i) ==> matches_at(s, pat, i),
{
    lemma_find_from(s, pat, 0);
    if has_sub(s, pat) {
        let i = choose|i: int| #[trigger] matches_at(s, pat, i);
        assert(matches_at(s, pat, i));
    }
}

fn match_at(s: &Vec<char>, pat: &Vec<char>, i: usize) -> (r: bool)
    requires
        i + pat@.len() <= s@.len(),
    ensures
        r == matches_at(s@, pat@, i as int),
{
    let n: usize = s.len();
    let mut k: usize = 0;
    while k < pat.len()
        invariant
            k <= pat@.len(),
            i + pat@.len() <= s@.len(),
            n == s@.len(),
            forall|j: int| 0 <= j < k ==> s@[i + j] == #[trigger] pat@[j],
        decreases pat@.len() - k,
    {
        if s[i + k] != pat[k] {
            assert(s@.subrange(i as int, i + pat@.len())[k as int] == s@[i + k]);
            return false;
        }
        k += 1;
    }
    assert(s@.subrange(i as int, i + pat@.len()) =~= pat@);
    true
}

/// The first position at or after `from` where `pat` stands in `s`.
pub fn find_chars(s: &Vec<char>, pat: &Vec<char>, from: usize) -> (r: Option<usize>)
    requires
        from <= s@.len(),
    ensures
        r matches Some(i) ==> find_from(s@, pat@, from as int) == Some(i as int),
        r is None ==> find_from(s@, pat@, from as int) is None,
{
    if pat.len() > s.len() {
        return None;
    }
    let last: usize = s.len() - pat.len();
    let mut i: usize = from;
    while i <= last
        invariant
            from <= i <= s@.len(),
            last == s@.len() - pat@.len(),
            find_from(s@, pat@, from as int) == find_from(s@, pat@, i as int),
        decreases s@.len() - i,
    {
        if match_at(s, pat, i) {
            return Some(i);
        }
        if i == last {
            return None;
        }
        i += 1;
    }
    None
}

pub fn contains(s: &str, pat: &str) -> (r: bool)
    ensures
        r == has_sub(s@, pat@),
{
    let v = chars_of(s);
    let p = chars_of(pat);
    proof {
        lemma_found(s@, pat@);
    }
    find_chars(&v, &p, 0).is_some()
}

/// `s` with the first `pat` in it replaced by `rep`.
pub open spec fn replaced_first(s: Seq<char>, pat: Seq<char>, rep: Seq<char>) -> Seq<char> {
    match found(s, pat) {
        Some(i) => s.take(i) + rep + s.skip(i + pat.len()),
        None => s,
    }
}

pub fn replace_first(s: &str, pat: &str, rep: &str) -> (r: String)
    ensures
        r@ == replaced_first(s@, pat@, rep@),
{
    let v = chars_of(s);
    let p = chars_of(pat);
    let n: usize = v.len();
    proof {
        lemma_find_from(s@, pat@, 0);
    }
    match find_chars(&v, &p, 0) {
        Some(i) => {
            let mut r = string_of(&v, 0, i);
            r.append(rep);
            r.append(string_of(&v, i + p.len(), n).as_str());
            r
        },
        None => s.to_owned(),
    }
}

/// `s` with every `pat` in it, read from the front and without overlaps, replaced by `rep`.
pub open spec fn replaced_all(s: Seq<char>, pat: Seq<char>, rep: Seq<char>) -> Seq<char>
    decreases s.len(),
{
    match found(s, pat) {
        Some(i) => if 0 <= i && 0 < pat.len() && i + pat.len() <= s.len() {
            s.take(i) + rep + replaced_all(s.skip(i + pat.len()), pat, rep)
        } else {
            s
        },
        None => s,
    }
}

proof fn lemma_find_shift(s: Seq<char>, pat: Seq<char>, k: int, from: int)
    requires
        0 <= k <= s.len(),
        0 <= from,
    ensures
        find_from(s, pat, k + from) == (match find_from(s.skip(k), pat, from) {
            Some(i) => Some(k + i),
            None => None,
        }),
    decreases s.len() + 1 - from,
{
    if k + from + pat.len() <= s.len() {
        assert(s.skip(k).subrange(from, from + pat.len()) == s.subrange(
            k + from,
            k + from + pat.len(),
        ));
        if !matches_at(s, pat, k + from) {
            lemma_find_shift(s, pat, k, from + 1);
        }
    }
}

pub fn replace_all(s: &str, pat: &str, rep: &str) -> (r: String)
    requires
        pat@.len() > 0,
    ensures
        r@ == replaced_all(s@, pat@, rep@),
{
    let v = chars_of(s);
    let p = chars_of(pat);
    let n: usize = v.len();
    let mut r = String::new();
    let mut from: usize = 0;
    assert(s@.skip(0) == s@);
    loop
        invariant
            v@ == s@,
            n == v@.len(),
            p@ == pat@,
            pat@.len() > 0,
            from <= v@.len(),
            replaced_all(s@, pat@, rep@) == r@ + replaced_all(s@.skip(from as int), pat@, rep@),
        decreases v@.len() - from,
    {
        let ghost rest = s@.skip(from as int);
        proof {
            lemma_find_shift(s@, pat@, from as int, 0);
            lemma_find_from(rest, pat@, 0);
        }
        match find_chars(&v, &p, from) {
            Some(i) => {
                let ghost before = r@;
                r.append(string_of(&v, from, i).as_str());
                r.append(rep);
                proof {
                    let k = i - from;
                    assert(found(rest, pat@) == Some(k));
                    assert(rest.take(k) == s@.subrange(from as int, i as int));
                    assert(rest.skip(k + pat@.len()) == s@.skip(i + pat@.len()));
                    assert(r@ == before + rest.take(k) + rep@);
                    assert(r@ + replaced_all(s@.skip(i + pat@.len()), pat@, rep@) == before + (
                    rest.take(k) + rep@ + replaced_all(s@.skip(i + pat@.len()), pat@, rep@)));
                }
                from = i + p.len();
            },
            None => {
                r.append(string_of(&v, from, n).as_str());
                assert(rest == s@.subrange(from as int, s@.len() as int));
                return r;
            },
        }
    }
}

/// Whether `s` begins with `pat`.
pub open spec fn has_prefix(s: Seq<char>, pat: Seq<char>) -> bool {
    matches_at(s, pat, 0)
}

pub fn starts_with(s: &str, pat: &str) -> (r: bool)
    ensures
        r == has_prefix(s@, pat@),
{
    let v = chars_of(s);
    let p = chars_of(pat);
    if p.len() > v.len() {
        false
    } else {
        match_at(&v, &p, 0)
    }
}

/// `s` without the copies of `pat` at its front.
pub open spec fn stripped_front(s: Seq<char>, pat: Seq<char>) -> Seq<char>
    decreases s.len(),
{
    if pat.len() > 0 && has_prefix(s, pat) {
        stripped_front(s.skip(pat.len() as int), pat)
    } else {
        s
    }
}

pub fn strip_front(s: &str, pat: &str) -> (r: String)
    requires
        pat@.len() > 0,
    ensures
        r@ == stripped_front(s@, pat@),
{
    let v = chars_of(s);
    let p = chars_of(pat);
    let mut from: usize = 0;
    assert(s@.skip(0) == s@);
    while p.len() <= v.len() - from && match_at(&v, &p, from)
        invariant
            v@ == s@,
            p@ == pat@,
            pat@.len() > 0,
            from <= v@.len(),
            stripped_front(s@, pat@) == stripped_front(s@.skip(from as int), pat@),
        decreases v@.len() - from,
    {
        proof {
            let rest = s@.skip(from as int);
            assert(rest.subrange(0, pat@.len() as int) == s@.subrange(
                from as int,
                from + pat@.len(),
            ));
            assert(rest.skip(pat@.len() as int) == s@.skip(from + pat@.len()));
        }
        from += p.len();
    }
    proof {
        let rest = s@.skip(from as int);
        if has_prefix(rest, pat@) {
            assert(rest.subrange(0, pat@.len() as int) == s@.subrange(
                from as int,
                from + pat@.len(),
            ));
        }
        assert(rest == s@.subrange(from as int, s@.len() as int));
    }
    string_of(&v, from, v.len())
}

/// How often `c` occurs in `s`.
pub open spec fn count_of(s: Seq<char>, c: char) -> nat
    decreases s.len(),
{
    if s.len() == 0 {
        0
    } else {
        count_of(s.drop_last(), c) + if s.last() == c {
            1nat
        } else {
            0
        }
    }
}

pub fn count_char(s: &str, c: char) -> (n: usize)
    ensures
        n == count_of(s@, c),
{
    let v = chars_of(s);
    let mut n: usize = 0;
    let mut i: usize = 0;
    while i < v.len()
        invariant
            i <= v@.len(),
            n == count_of(v@.take(i as int), c),
            n <= i,
        decreases v@.len() - i,
    {
        assert(v@.take(i + 1).drop_last() == v@.take(i as int));
        if v[i] == c {
            n += 1;
        }
        i += 1;
    }
    assert(v@.take(v@.len() as int) == v@);
    n
}

/// What comes before the first `c` in `s`; all of `s` where there is none.
pub open spec fn before(s: Seq<char>, c: char) -> Seq<char>
    decreases s.len(),
{
    if s.len() == 0 || s[0] == c {
        Seq::empty()
    } else {
        seq![s[0]] + before(s.drop_first(), c)
    }
}

proof fn lemma_before(s: Seq<char>, c: char, k: int)
    requires
        0 <= k <= s.len(),
        forall|j: int| 0 <= j < k ==> s[j] != c,
        k < s.len() ==> s[k] == c,
    ensures
        before(s, c) == s.take(k),
    decreases s.len(),
{
    if k > 0 {
        let t = s.drop_first();
        lemma_before(t, c, k - 1);
        assert(seq![s[0]] + t.take(k - 1) == s.take(k));
    } else {
        assert(before(s, c) == s.take(0));
    }
}

pub fn cut_before(s: &str, c: char) -> (r: String)
    ensures
        r@ == before(s@, c),
{
    let v = chars_of(s);
    let mut end: usize = 0;
    while end < v.len() && v[end] != c
        invariant
            end <= v@.len(),
            forall|j: int| 0 <= j < end ==> v@[j] != c,
        decreases v@.len() - end,
    {
        end += 1;
    }
    proof {
        lemma_before(v@, c, end as int);
        assert(v@.subrange(0, end as int) == v@.take(end as int));
    }
    string_of(&v, 0, end)
}

// ── Splitting and joining ─────────────────────────────────────────────

/// The texts that a list of strings holds.
pub open spec fn views(v: Seq<String>) -> Seq<Seq<char>> {
    v.map_values(|s: String| s@)
}

/// Where the first line break of `s` is, or its length.
pub open spec fn line_len(s: Seq<char>) -> int
    decreases s.len(),
{
    if s.len() == 0 || s[0] == '\n' {
        0
    } else {
        1 + line_len(s.drop_first())
    }
}

/// A line without the carriage return that may precede its line break.
pub open spec fn without_cr(s: Seq<char>) -> Seq<char> {
    if s.len() > 0 && s.last() == '\r' {
        s.drop_last()
    } else {
        s
    }
}

/// The lines of `s`: each ends at a line feed, or at a carriage return with a line feed, or at
/// the end of the text; a line break at the very end opens no further line.
pub open spec fn lines_of(s: Seq<char>) -> Seq<Seq<char>>
    decreases s.len(),
{
    let n = line_len(s);
    if s.len() == 0 {
        Seq::empty()
    } else if 0 <= n < s.len() {
        seq![without_cr(s.take(n))] + lines_of(s.skip(n + 1))
    } else {
        seq![s]
    }
}

proof fn lemma_line_len(s: Seq<char>, k: int)
    requires
        0 <= k <= s.len(),
        forall|j: int| 0 <= j < k ==> s[j] != '\n',
        k < s.len() ==> s[k] == '\n',
    ensures
        line_len(s) == k,
    decreases s.len(),
{
    if k > 0 {
        lemma_line_len(s.drop_first(), k - 1);
    }
}

pub fn lines(s: &str) -> (r: Vec<String>)
    ensures
        views(r@) == lines_of(s@),
{
    let v = chars_of(s);
    let n: usize = v.len();
    let mut r: Vec<String> = Vec::new();
    let mut from: usize = 0;
    assert(s@.skip(0) == s@);
    assert(views(r@) + lines_of(s@) == lines_of(s@));
    while from < n
        invariant
            v@ == s@,
            n == v@.len(),
            from <= n,
            lines_of(s@) == views(r@) + lines_of(s@.skip(from as int)),
        decreases n - from,
    {
        let ghost rest = s@.skip(from as int);
        let ghost before = views(r@);
        let mut end: usize = from;
        while end < n && v[end] != '\n'
            invariant
                v@ == s@,
                n == v@.len(),
                from <= end <= n,
                forall|j: int| from <= j < end ==> v@[j] != '\n',
            decreases n - end,
        {
            end += 1;
        }
        proof {
            assert forall|j: int| 0 <= j < end - from implies rest[j] != '\n' by {
                assert(rest[j] == v@[from + j]);
            }
            lemma_line_len(rest, end - from);
            assert(rest.take(end - from) == v@.subrange(from as int, end as int));
        }
        if end < n {
            let stop: usize = if end > from && v[end - 1] == '\r' {
                end - 1
            } else {
                end
            };
            let line = string_of(&v, from, stop);
            assert(line@ == without_cr(rest.take(end - from)));
            r.push(line);
            proof {
                assert(rest.skip(end - from + 1) == s@.skip(end + 1));
                assert(views(r@) == before + seq![line@]);
                assert(views(r@) + lines_of(s@.skip(end + 1)) == before + (seq![line@] + lines_of(
                    s@.skip(end + 1),
                )));
            }
            from = end + 1;
        } else {
            let line = string_of(&v, from, n);
            r.push(line);
            proof {
                assert(rest == line@);
                assert(views(r@) == before + seq![line@]);
                assert(s@.skip(n as int).len() == 0);
                assert(lines_of(s@.skip(n as int)) == Seq::<Seq<char>>::empty());
                assert(views(r@) + lines_of(s@.skip(n as int)) == before + seq![line@]);
            }
            from = n;
        }
    }
    assert(s@.skip(n as int).len() == 0);
    assert(views(r@) + lines_of(s@.skip(n as int)) == views(r@));
    r
}

/// How many characters at the front of `s` are not white space.
pub open spec fn word_len(s: Seq<char>) -> int
    decreases s.len(),
{
    if s.len() == 0 || is_white(s[0]) {
        0
    } else {
        1 + word_len(s.drop_first())
    }
}

/// The longest runs of `s` without white space, in order.
pub open spec fn words_of(s: Seq<char>) -> Seq<Seq<char>>
    decreases s.len(),
{
    if s.len() == 0 {
        Seq::empty()
    } else if is_white(s[0]) {
        words_of(s.drop_first())
    } else {
        let n = word_len(s);
        if 0 < n <= s.len() {
            seq![s.take(n)] + words_of(s.skip(n))
        } else {
            Seq::empty()
        }
    }
}

proof fn lemma_word_len(s: Seq<char>, k: int)
    requires
        0 <= k <= s.len(),
        forall|j: int| 0 <= j < k ==> !is_white(#[trigger] s[j]),
        k < s.len() ==> is_white(s[k]),
    ensures
        word_len(s) == k,
    decreases s.len(),
{
    if k > 0 {
        lemma_word_len(s.drop_first(), k - 1);
    }
}

pub fn words(s: &str) -> (r: Vec<String>)
    ensures
        views(r@) == words_of(s@),
{
    let v = chars_of(s);
    let n: usize = v.len();
    let mut r: Vec<String> = Vec::new();
    let mut from: usize = 0;
    assert(s@.skip(0) == s@);
    assert(views(r@) + words_of(s@) == words_of(s@));
    while from < n
        invariant
            v@ == s@,
            n == v@.len(),
            from <= n,
            words_of(s@) == views(r@) + words_of(s@.skip(from as int)),
        decreases n - from,
    {
        let ghost rest = s@.skip(from as int);
        if white(v[from]) {
            assert(rest.drop_first() == s@.skip(from + 1));
            from += 1;
        } else {
            let ghost before = views(r@);
            let mut end: usize = from;
            while end < n && !white(v[end])
                invariant
                    v@ == s@,
                    n == v@.len(),
                    from <= end <= n,
                    forall|j: int| from <= j < end ==> !is_white(#[trigger] v@[j]),
                decreases n - end,
            {
                end += 1;
            }
            let word = string_of(&v, from, end);
            r.push(word);
            proof {
                assert forall|j: int| 0 <= j < end - from implies !is_white(
                    #[trigger] rest[j],
                ) by {
                    assert(rest[j] == v@[from + j]);
                }
                lemma_word_len(rest, end - from);
                assert(!is_white(rest[0]));
                assert(end > from);
                assert(rest.take(end - from) == word@);
                assert(rest.skip(end - from) == s@.skip(end as int));
                assert(views(r@) == before + seq![word@]);
                assert(views(r@) + words_of(s@.skip(end as int)) == before + (seq![word@]
                    + words_of(s@.skip(end as int))));
            }
            from = end;
        }
    }
    assert(s@.skip(n as int).len() == 0);
    assert(views(r@) + words_of(s@.skip(n as int)) == views(r@));
    r
}

/// The texts of `parts` one after the other with `sep` between them.
pub open spec fn joined(parts: Seq<Seq<char>>, sep: Seq<char>) -> Seq<char>
    decreases parts.len(),
{
    if parts.len() == 0 {
        Seq::empty()
    } else if parts.len() == 1 {
        parts[0]
    } else {
        joined(parts.drop_last(), sep) + sep + parts.last()
    }
}

pub fn join(parts: &Vec<String>, sep: &str) -> (r: String)
    ensures
        r@ == joined(views(parts@), sep@),
{
    let mut r = String::new();
    let mut i: usize = 0;
    while i < parts.len()
        invariant
            i <= parts@.len(),
            r@ == joined(views(parts@).take(i as int), sep@),
        decreases parts@.len() - i,
    {
        proof {
            let t = views(parts@).take(i + 1);
            assert(t.drop_last() == views(parts@).take(i as int));
            assert(t.last() == parts@[i as int]@);
            if i == 0 {
                assert(t[0] == parts@[0]@);
            }
        }
        if i > 0 {
            r.append(sep);
        }
        let ghost before = r@;
        r.append(parts[i].as_str());
        proof {
            if i == 0 {
                assert(r@ == parts@[0]@);
            }
        }
        i += 1;
    }
    assert(views(parts@).take(parts@.len() as int) == views(parts@));
    r
}

/// Whether one of `list` reads `s`.
pub fn list_contains(list: &Vec<String>, s: &str) -> (r: bool)
    ensures
        r == views(list@).contains(s@),
{
    let mut i: usize = 0;
    while i < list.len()
        invariant
            i <= list@.len(),
            forall|j: int| 0 <= j < i ==> list@[j]@ != s@,
        decreases list@.len() - i,
    {
        if same(list[i].as_str(), s) {
            assert(views(list@)[i as int] == s@);
            return true;
        }
        i += 1;
    }
    proof {
        if views(list@).contains(s@) {
            let j = choose|j: int| 0 <= j < views(list@).len() && views(list@)[j] == s@;
            assert(list@[j]@ == s@);
        }
    }
    false
}

// ── Laws ──────────────────────────────────────────────────────────────

/// A text stands in every text that has it somewhere in the middle.
pub proof fn middle_is_found(a: Seq<char>, b: Seq<char>, c: Seq<char>)
    ensures
        has_sub(a + b + c, b),
{
    assert((a + b + c).subrange(a.len() as int, (a.len() + b.len()) as int) =~= b);
    assert(matches_at(a + b + c, b, a.len() as int));
}

/// A text that does not begin to show before the end of `a` is found right behind it.
pub proof fn first_place_is_found(a: Seq<char>, pat: Seq<char>, b: Seq<char>)
    requires
        pat.len() > 0,
        !has_sub(a + pat.drop_last(), pat),
    ensures
        found(a + pat + b, pat) == Some(a.len() as int),
{
    let s = a + pat + b;
    let n = a.len() as int;
    assert(s.subrange(n, n + pat.len()) =~= pat);
    assert(matches_at(s, pat, n));
    lemma_find_from(s, pat, 0);
    let i = find_from(s, pat, 0)->0;
    if i < n {
        let head = a + pat.drop_last();
        assert(head.subrange(i, i + pat.len()) =~= s.subrange(i, i + pat.len()));
        assert(matches_at(head, pat, i));
    }
}

/// Replacing the first of several copies changes that one and nothing around it.
pub proof fn first_copy_is_replaced(a: Seq<char>, pat: Seq<char>, b: Seq<char>, rep: Seq<char>)
    requires
        pat.len() > 0,
        !has_sub(a + pat.drop_last(), pat),
    ensures
        replaced_first(a + pat + b, pat, rep) == a + rep + b,
{
    let s = a + pat + b;
    first_place_is_found(a, pat, b);
    assert(s.take(a.len() as int) =~= a);
    assert(s.skip((a.len() + pat.len()) as int) =~= b);
}

/// Replacing all copies changes the first one, nothing before it, and goes on behind it.
pub proof fn every_copy_is_replaced(a: Seq<char>, pat: Seq<char>, b: Seq<char>, rep: Seq<char>)
    requires
        pat.len() > 0,
        !has_sub(a + pat.drop_last(), pat),
    ensures
        replaced_all(a + pat + b, pat, rep) == a + rep + replaced_all(b, pat, rep),
{
    let s = a + pat + b;
    first_place_is_found(a, pat, b);
    assert(s.take(a.len() as int) =~= a);
    assert(s.skip((a.len() + pat.len()) as int) =~= b);
}

/// Where there is nothing to replace, nothing changes.
pub proof fn nothing_to_replace(s: Seq<char>, pat: Seq<char>, rep: Seq<char>)
    requires
        !has_sub(s, pat),
    ensures
        replaced_all(s, pat, rep) == s,
        replaced_first(s, pat, rep) == s,
{
    lemma_found(s, pat);
}

pub open spec fn all_white(s: Seq<char>) -> bool {
    forall|i: int| 0 <= i < s.len() ==> is_white(#[trigger] s[i])
}

/// Whether a text neither begins nor ends with white space.
pub open spec fn tight(s: Seq<char>) -> bool {
    s.len() > 0 ==> !is_white(s[0]) && !is_white(s.last())
}

proof fn lemma_trimmed_front(front: Seq<char>, s: Seq<char>)
    requires
        all_white(front),
    ensures
        trimmed_start(front + s) == trimmed_start(s),
    decreases front.len(),
{
    if front.len() > 0 {
        assert((front + s)[0] == front[0]);
        assert((front + s).drop_first() =~= front.drop_first() + s);
        lemma_trimmed_front(front.drop_first(), s);
    } else {
        assert(front + s =~= s);
    }
}

proof fn lemma_trimmed_back(s: Seq<char>, back: Seq<char>)
    requires
        all_white(back),
    ensures
        trimmed_end(s + back) == trimmed_end(s),
    decreases back.len(),
{
    if back.len() > 0 {
        assert((s + back).last() == back.last());
        assert((s + back).drop_last() =~= s + back.drop_last());
        lemma_trimmed_back(s, back.drop_last());
    } else {
        assert(s + back =~= s);
    }
}

/// Trimming takes the white space around a text away, and nothing else: neither more at the front
/// nor more at the back, nor anything inside.
pub proof fn trimming_frees_the_text(front: Seq<char>, s: Seq<char>, back: Seq<char>)
    requires
        all_white(front),
        all_white(back),
        tight(s),
    ensures
        trimmed(front + s + back) == s,
{
    assert(front + s + back =~= front + (s + back));
    lemma_trimmed_front(front, s + back);
    if s.len() > 0 {
        assert((s + back)[0] == s[0]);
        lemma_trimmed_back(s, back);
    } else {
        assert(s + back =~= back);
        lemma_trimmed_front(back, s);
        assert(back + s =~= back);
    }
}

/// Blanks, tabs and line breaks are white space; letters, digits and the marks around them are not.
pub proof fn white_space_is_blank(c: char)
    ensures
        c == ' ' || c == '\t' || c == '\n' || c == '\r' ==> is_white(c),
        '!' <= c <= '~' ==> !is_white(c),
{
}

/// Lower case turns each capital into its small letter and leaves everything else as it is.
pub proof fn capitals_become_small(c: char, i: int)
    ensures
        0 <= i < 26 ==> ascii_lower("ABCDEFGHIJKLMNOPQRSTUVWXYZ"@[i])
            == "abcdefghijklmnopqrstuvwxyz"@[i],
        !("ABCDEFGHIJKLMNOPQRSTUVWXYZ"@.contains(c)) ==> ascii_lower(c) == c,
        ascii_lower(ascii_lower(c)) == ascii_lower(c),
{
    reveal_strlit("ABCDEFGHIJKLMNOPQRSTUVWXYZ");
    reveal_strlit("abcdefghijklmnopqrstuvwxyz");
    if 'A' <= c <= 'Z' {
        let k = c as int - 'A' as int;
        assert("ABCDEFGHIJKLMNOPQRSTUVWXYZ"@[k] == c);
    }
}

/// What comes before a character that ends a text free of it is that text.
pub proof fn text_before_is_kept(a: Seq<char>, c: char, b: Seq<char>)
    requires
        !a.contains(c),
    ensures
        before(a + seq![c] + b, c) == a,
        before(a, c) == a,
{
    let s = a + seq![c] + b;
    assert forall|j: int| 0 <= j < a.len() implies s[j] != c && a[j] != c by {
        assert(s[j] == a[j]);
        assert(a.contains(a[j]));
    }
    lemma_before(s, c, a.len() as int);
    assert(s.take(a.len() as int) =~= a);
    lemma_before(a, c, a.len() as int);
    assert(a.take(a.len() as int) =~= a);
}

/// Copies are counted one by one, wherever they stand.
pub proof fn copies_add_up(a: Seq<char>, b: Seq<char>, c: char)
    ensures
        count_of(a + b, c) == count_of(a, c) + count_of(b, c),
        count_of(seq![c], c) == 1,
        !a.contains(c) <==> count_of(a, c) == 0,
    decreases b.len(), a.len(),
{
    assert(seq![c].drop_last() =~= Seq::<char>::empty());
    assert(count_of(seq![c].drop_last(), c) == 0);
    if b.len() > 0 {
        assert((a + b).drop_last() =~= a + b.drop_last());
        copies_add_up(a, b.drop_last(), c);
    } else {
        assert(a + b =~= a);
        if a.len() > 0 {
            copies_add_up(a.drop_last(), b, c);
            assert(a.contains(a.last())) by {
                assert(a[a.len() - 1] == a.last());
            }
            if a.contains(c) {
                let i = choose|i: int| 0 <= i < a.len() && a[i] == c;
                if i < a.len() - 1 {
                    assert(a.drop_last()[i] == c);
                }
            }
            if a.drop_last().contains(c) {
                let i = choose|i: int| 0 <= i < a.drop_last().len() && a.drop_last()[i] == c;
                assert(a[i] == c);
            }
        }
    }
}

/// A front is taken off as often as it stands there, and no more.
pub proof fn copies_at_the_front_go(pat: Seq<char>, s: Seq<char>)
    requires
        pat.len() > 0,
    ensures
        stripped_front(pat + s, pat) == stripped_front(s, pat),
        !has_prefix(s, pat) ==> stripped_front(s, pat) == s,
        !has_prefix(stripped_front(s, pat), pat),
    decreases s.len(),
{
    assert((pat + s).subrange(0, pat.len() as int) =~= pat);
    assert((pat + s).skip(pat.len() as int) =~= s);
    if has_prefix(s, pat) {
        copies_at_the_front_go(pat, s.skip(pat.len() as int));
    }
}

/// Joining goes from left to right with the separator between every two neighbours.
pub proof fn joined_piece_by_piece(first: Seq<char>, rest: Seq<Seq<char>>, sep: Seq<char>)
    ensures
        joined(seq![first], sep) == first,
        rest.len() > 0 ==> joined(seq![first] + rest, sep) == first + sep + joined(rest, sep),
    decreases rest.len(),
{
    let all = seq![first] + rest;
    if rest.len() == 1 {
        assert(all.drop_last() =~= seq![first]);
        assert(joined(all.drop_last(), sep) == first);
        assert(all.last() == rest[0]);
        assert(joined(all, sep) == first + sep + rest[0]);
    } else if rest.len() > 1 {
        assert(all.drop_last() =~= seq![first] + rest.drop_last());
        joined_piece_by_piece(first, rest.drop_last(), sep);
        assert(joined(all, sep) =~= first + sep + (joined(rest.drop_last(), sep) + sep
            + rest.last()));
    }
}

/// Words that are joined by blanks are the words of the whole, in their order.
pub proof fn joined_words_come_apart(words: Seq<Seq<char>>)
    requires
        forall|i: int|
            0 <= i < words.len() ==> (#[trigger] words[i]).len() > 0 && forall|j: int|
                0 <= j < words[i].len() ==> !is_white(#[trigger] words[i][j]),
    ensures
        words_of(joined(words, seq![' '])) == words,
    decreases words.len(),
{
    let sep = seq![' '];
    if words.len() > 0 {
        let w = words[0];
        let rest = words.drop_first();
        let s = joined(words, sep);
        assert(words =~= seq![w] + rest);
        joined_piece_by_piece(w, rest, sep);
        joined_words_come_apart(rest);
        if rest.len() > 0 {
            let t = joined(rest, sep);
            assert(s == w + sep + t);
            assert forall|j: int| 0 <= j < w.len() implies !is_white(#[trigger] s[j]) by {
                assert(s[j] == w[j]);
            }
            assert(s[w.len() as int] == ' ');
            lemma_word_len(s, w.len() as int);
            assert(s.take(w.len() as int) =~= w);
            let u = s.skip(w.len() as int);
            assert(u =~= sep + t);
            assert(u[0] == ' ');
            assert(u.drop_first() =~= t);
            assert(!is_white(s[0]));
            assert(words_of(u) == words_of(t));
        } else {
            assert(s == w);
            lemma_word_len(w, w.len() as int);
            assert(w.take(w.len() as int) =~= w);
            assert(words_of(w.skip(w.len() as int)) == Seq::<Seq<char>>::empty());
            assert(!is_white(w[0]));
            assert(words_of(w) == seq![w] + words_of(w.skip(w.len() as int)));
            assert(words_of(w) =~= words);
        }
    } else {
        assert(words_of(joined(words, sep)) =~= words);
    }
}

/// Lines that are ended by line feeds are the lines of the whole, in their order.
pub proof fn ended_lines_come_apart(first: Seq<char>, rest: Seq<char>)
    requires
        !first.contains('\n'),
        first.len() > 0 ==> first.last() != '\r',
    ensures
        lines_of(first + seq!['\n'] + rest) == seq![first] + lines_of(rest),
        lines_of(first + seq!['\r', '\n'] + rest) == seq![first] + lines_of(rest),
        first.len() > 0 ==> lines_of(first) == seq![first],
{
    let n = first.len() as int;
    let s = first + seq!['\n'] + rest;
    assert forall|j: int| 0 <= j < n implies first[j] != '\n' by {
        assert(first.contains(first[j]));
    }
    assert forall|j: int| 0 <= j < n implies s[j] != '\n' by {
        assert(s[j] == first[j]);
    }
    lemma_line_len(s, n);
    assert(s.take(n) =~= first);
    assert(s.skip(n + 1) =~= rest);
    let u = first + seq!['\r', '\n'] + rest;
    assert forall|j: int| 0 <= j < n + 1 implies u[j] != '\n' by {
        if j < n {
            assert(u[j] == first[j]);
        }
    }
    lemma_line_len(u, n + 1);
    assert(u.take(n + 1) =~= first.push('\r'));
    assert(without_cr(first.push('\r')) =~= first);
    assert(u.skip(n + 2) =~= rest);
    lemma_line_len(first, n);
}

/// A text without a line feed is a single line, as it is.
pub proof fn single_lines_stay(s: Seq<char>)
    requires
        s.len() > 0,
        !s.contains('\n'),
    ensures
        lines_of(s) == seq![s],
{
    assert forall|j: int| 0 <= j < s.len() implies s[j] != '\n' by {
        assert(s.contains(s[j]));
    }
    lemma_line_len(s, s.len() as int);
}

/// What stands in a part stands in the whole.
pub proof fn parts_of_parts_are_found(s: Seq<char>, part: Seq<char>, inner: Seq<char>)
    requires
        has_sub(s, part),
        has_sub(part, inner),
    ensures
        has_sub(s, inner),
{
    let i = choose|i: int| #[trigger] matches_at(s, part, i);
    let j = choose|j: int| #[trigger] matches_at(part, inner, j);
    assert(s.subrange(i + j, i + j + inner.len()) =~= part.subrange(j, j + inner.len()));
    assert(matches_at(s, inner, i + j));
}

/// White space of any kind parts words, and as much of it as there is.
pub proof fn white_space_parts_words(word: Seq<char>, c: char, rest: Seq<char>)
    requires
        is_white(c),
        forall|j: int| 0 <= j < word.len() ==> !is_white(#[trigger] word[j]),
    ensures
        words_of(seq![c] + rest) == words_of(rest),
        word.len() > 0 ==> words_of(word + seq![c] + rest) == seq![word] + words_of(rest),
{
    let u = seq![c] + rest;
    assert(u[0] == c);
    assert(u.drop_first() =~= rest);
    if word.len() > 0 {
        let s = word + seq![c] + rest;
        let n = word.len() as int;
        assert forall|j: int| 0 <= j < n implies !is_white(#[trigger] s[j]) by {
            assert(s[j] == word[j]);
        }
        assert(s[n] == c);
        lemma_word_len(s, n);
        assert(!is_white(s[0]));
        assert(s.take(n) =~= word);
        assert(s.skip(n) =~= u);
    }
}

} // verus!
