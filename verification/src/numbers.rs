//! Numbers written out as text, and read back.
use crate::text;
use vstd::prelude::*;

verus! {

pub open spec fn is_digit(c: char) -> bool {
    '0' <= c <= '9'
}

pub open spec fn digit_value(c: char) -> nat {
    (c as u32 - '0' as u32) as nat
}

pub open spec fn digit_char(d: nat) -> char {
    ('0' as u32 + d) as char
}

/// The decimal digits of `n`, without leading zeros.
pub open spec fn digits(n: nat) -> Seq<char>
    decreases n,
{
    if n < 10 {
        seq![digit_char(n)]
    } else {
        digits(n / 10).push(digit_char(n % 10))
    }
}

/// The number that a run of decimal digits stands for.
pub open spec fn value_of(s: Seq<char>) -> nat
    decreases s.len(),
{
    if s.len() == 0 {
        0
    } else {
        value_of(s.drop_last()) * 10 + digit_value(s.last())
    }
}

pub open spec fn all_digits(s: Seq<char>) -> bool {
    forall|i: int| 0 <= i < s.len() ==> is_digit(#[trigger] s[i])
}

/// Written digits are digits, and read back as the number.
pub proof fn lemma_digits(n: nat)
    ensures
        digits(n).len() > 0,
        all_digits(digits(n)),
        value_of(digits(n)) == n,
    decreases n,
{
    if n < 10 {
        let s = digits(n);
        assert(s.drop_last().len() == 0);
        assert(value_of(s.drop_last()) == 0);
        assert(s.last() == digit_char(n));
    } else {
        lemma_digits(n / 10);
        assert(digits(n).drop_last() == digits(n / 10));
    }
}

/// `n` in decimal.
pub fn decimal(n: u64) -> (s: String)
    ensures
        s@ == digits(n as nat),
    decreases n,
{
    let mut s = if n < 10 {
        String::new()
    } else {
        decimal(n / 10)
    };
    let d: u8 = (n % 10) as u8;
    s.push((48u8 + d) as char);
    proof {
        assert((48u8 + d) as char == digit_char((n % 10) as nat));
        if n < 10 {
            assert(s@ == digits(n as nat));
        }
    }
    s
}

/// The integer that `s` writes: an optional sign and at least one decimal digit.
pub open spec fn parsed_int(s: Seq<char>) -> Option<int> {
    let signed = s.len() > 0 && (s[0] == '-' || s[0] == '+');
    let body = if signed {
        s.drop_first()
    } else {
        s
    };
    if body.len() == 0 || !all_digits(body) {
        None
    } else if s[0] == '-' {
        Some(-(value_of(body) as int))
    } else {
        Some(value_of(body) as int)
    }
}

/// The 64-bit integer that `s` writes, if it is one and fits.
pub open spec fn parsed_i64(s: Seq<char>) -> Option<i64> {
    match parsed_int(s) {
        Some(n) => if i64::MIN <= n <= i64::MAX {
            Some(n as i64)
        } else {
            None
        },
        None => None,
    }
}

proof fn lemma_value_grows(s: Seq<char>, k: int)
    requires
        0 <= k <= s.len(),
    ensures
        value_of(s.take(k)) <= value_of(s),
    decreases s.len(),
{
    if k < s.len() {
        lemma_value_grows(s.drop_last(), k);
        assert(s.drop_last().take(k) == s.take(k));
    } else {
        assert(s.take(k) == s);
    }
}

/// Read a 64-bit integer.
pub fn parse_i64(s: &str) -> (r: Option<i64>)
    ensures
        r == parsed_i64(s@),
{
    let v = text::chars_of(s);
    let n: usize = v.len();
    if n == 0 {
        return None;
    }
    let negative = v[0] == '-';
    let from: usize = if v[0] == '-' || v[0] == '+' {
        1
    } else {
        0
    };
    let ghost body = s@.skip(from as int);
    proof {
        if from == 1 {
            assert(body == s@.drop_first());
        } else {
            assert(body == s@);
        }
    }
    if from == n {
        return None;
    }
    let mut magnitude: u128 = 0;
    let mut i: usize = from;
    assert(body.take(0).len() == 0);
    while i < n
        invariant
            v@ == s@,
            n == v@.len(),
            from <= i <= n,
            from < n,
            from == 0 || from == 1,
            body == s@.skip(from as int),
            from == 1 ==> body == s@.drop_first(),
            from == 0 ==> body == s@,
            from == (if s@[0] == '-' || s@[0] == '+' { 1int } else { 0 }),
            forall|j: int| 0 <= j < i - from ==> is_digit(#[trigger] body[j]),
            magnitude == value_of(body.take(i - from)),
            magnitude <= 0x8000_0000_0000_0000,
        decreases n - i,
    {
        let c = v[i];
        assert(body[i - from] == c);
        if !(('0' <= c) && (c <= '9')) {
            assert(!is_digit(body[i - from]));
            assert(parsed_int(s@) is None);
            return None;
        }
        proof {
            let t = body.take(i + 1 - from);
            assert(t.drop_last() == body.take(i - from));
            assert(t.last() == c);
        }
        magnitude = magnitude * 10 + ((c as u8) - 48u8) as u128;
        if magnitude > 0x8000_0000_0000_0000 {
            proof {
                lemma_value_grows(body, i + 1 - from);
            }
            return None;
        }
        i += 1;
    }
    assert(body.take(n - from) == body);
    assert(all_digits(body));
    if negative {
        if magnitude == 0x8000_0000_0000_0000 {
            Some(i64::MIN)
        } else {
            Some(-(magnitude as i64))
        }
    } else if magnitude == 0x8000_0000_0000_0000 {
        None
    } else {
        Some(magnitude as i64)
    }
}

/// Different numbers are written differently.
pub proof fn digits_tell_numbers_apart(a: nat, b: nat)
    requires
        digits(a) == digits(b),
    ensures
        a == b,
{
    lemma_digits(a);
    lemma_digits(b);
}

/// Reading back what `decimal` wrote gives the number, as long as it fits the signed range.
pub proof fn decimal_reads_back(n: u64)
    requires
        n <= i64::MAX,
    ensures
        parsed_i64(digits(n as nat)) == Some(n as i64),
{
    lemma_digits(n as nat);
    let s = digits(n as nat);
    assert(is_digit(s[0]));
    assert(all_digits(s));
}

/// A digit is the character of its value, and one more digit behind a number makes ten of each one
/// before and adds itself.
pub proof fn digits_are_decimal(n: nat, d: nat)
    requires
        d < 10,
    ensures
        digits(d) == seq!["0123456789"@[d as int]],
        n > 0 ==> digits(10 * n + d) == digits(n).push("0123456789"@[d as int]),
        digit_value("0123456789"@[d as int]) == d,
{
    reveal_strlit("0123456789");
    assert(digit_char(d) == "0123456789"@[d as int]);
    if n > 0 {
        assert((10 * n + d) / 10 == n && (10 * n + d) % 10 == d) by (nonlinear_arith)
            requires
                d < 10,
        ;
    }
}

/// A sign before a written number says which side of zero it is on.
pub proof fn signs_are_read(n: nat)
    requires
        n <= i64::MAX,
    ensures
        parsed_i64(digits(n)) == Some(n as i64),
        parsed_i64(seq!['+'] + digits(n)) == Some(n as i64),
        parsed_i64(seq!['-'] + digits(n)) == Some((-n) as i64),
{
    lemma_digits(n);
    let s = digits(n);
    assert(is_digit(s[0]));
    assert((seq!['+'] + s).drop_first() =~= s);
    assert((seq!['-'] + s).drop_first() =~= s);
}

/// A text that begins with anything but a digit or a sign is no number, and neither is a sign or
/// nothing at all.
pub proof fn other_texts_are_no_numbers(s: Seq<char>)
    ensures
        s.len() == 0 ==> parsed_i64(s) is None,
        s.len() == 1 && !is_digit(s[0]) ==> parsed_i64(s) is None,
        s.len() > 0 && !is_digit(s[0]) && s[0] != '-' && s[0] != '+' ==> parsed_i64(s) is None,
        (exists|i: int| 0 < i < s.len() && !is_digit(#[trigger] s[i])) ==> parsed_i64(s) is None,
{
    if exists|i: int| 0 < i < s.len() && !is_digit(#[trigger] s[i]) {
        let i = choose|i: int| 0 < i < s.len() && !is_digit(#[trigger] s[i]);
        assert(s.drop_first()[i - 1] == s[i]);
    }
}

/// What does not fit the signed range is no number: the first that is too large, and everything
/// beyond it; the least one fits.
pub proof fn numbers_must_fit(n: nat)
    ensures
        n > 0x7fff_ffff_ffff_ffff ==> parsed_i64(digits(n)) is None,
        n > 0x8000_0000_0000_0000 ==> parsed_i64(seq!['-'] + digits(n)) is None,
        n == 0x8000_0000_0000_0000 ==> parsed_i64(seq!['-'] + digits(n)) == Some(i64::MIN),
{
    lemma_digits(n);
    let s = digits(n);
    assert(is_digit(s[0]));
    assert((seq!['-'] + s).drop_first() =~= s);
}

/// Zeros at the front of a number do not change it.
pub proof fn leading_zeros_do_not_count(s: Seq<char>)
    requires
        s.len() > 0,
        all_digits(s),
    ensures
        parsed_i64(seq!['0'] + s) == parsed_i64(s),
{
    lemma_zero_in_front(s);
    let t = seq!['0'] + s;
    assert(is_digit(s[0]));
    assert(all_digits(t));
}

proof fn lemma_zero_in_front(s: Seq<char>)
    ensures
        value_of(seq!['0'] + s) == value_of(s),
    decreases s.len(),
{
    let t = seq!['0'] + s;
    if s.len() > 0 {
        assert(t.drop_last() =~= seq!['0'] + s.drop_last());
        lemma_zero_in_front(s.drop_last());
    } else {
        assert(t.drop_last() =~= s);
        assert(value_of(t.drop_last()) == 0);
    }
}

} // verus!
