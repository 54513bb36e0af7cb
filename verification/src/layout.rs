//! Fitting text into a fixed number of terminal cells.
use crate::text;
use vstd::prelude::*;

verus! {

/// `n` copies of `c`.
pub open spec fn repeated(c: char, n: nat) -> Seq<char> {
    Seq::new(n, |i: int| c)
}

pub fn push_repeated(s: &mut String, c: char, n: usize)
    ensures
        final(s)@ == old(s)@ + repeated(c, n as nat),
{
    let mut i: usize = 0;
    assert(s@ == old(s)@ + repeated(c, 0));
    while i < n
        invariant
            i <= n,
            s@ == old(s)@ + repeated(c, i as nat),
        decreases n - i,
    {
        s.push(c);
        assert(s@ == old(s)@ + repeated(c, (i + 1) as nat));
        i += 1;
    }
}

/// `s` in the middle of `width` cells: blanks fill both sides, the odd one on the right. Text
/// that is wider stays as it is.
pub open spec fn centered(s: Seq<char>, width: nat) -> Seq<char> {
    if s.len() >= width {
        s
    } else {
        let gap = (width - s.len()) as nat;
        repeated(' ', gap / 2) + s + repeated(' ', (gap - gap / 2) as nat)
    }
}

pub fn center(s: &str, width: usize) -> (r: String)
    ensures
        r@ == centered(s@, width as nat),
{
    let len: usize = s.unicode_len();
    if len >= width {
        return s.to_owned();
    }
    let gap: usize = width - len;
    let mut r = String::new();
    push_repeated(&mut r, ' ', gap / 2);
    r.append(s);
    push_repeated(&mut r, ' ', gap - gap / 2);
    assert(r@ == centered(s@, width as nat));
    r
}

/// `s` at the left of `width` cells, filled up with blanks. Text that is wider stays as it is.
pub open spec fn padded(s: Seq<char>, width: nat) -> Seq<char> {
    if s.len() >= width {
        s
    } else {
        s + repeated(' ', (width - s.len()) as nat)
    }
}

pub fn pad(s: &str, width: usize) -> (r: String)
    ensures
        r@ == padded(s@, width as nat),
{
    let len: usize = s.unicode_len();
    let mut r = s.to_owned();
    if len < width {
        push_repeated(&mut r, ' ', width - len);
    }
    r
}

/// The first `n` characters of `s`, or all of it.
pub open spec fn clipped(s: Seq<char>, n: nat) -> Seq<char> {
    if s.len() > n {
        s.take(n as int)
    } else {
        s
    }
}

pub fn clip(s: &str, n: usize) -> (r: String)
    ensures
        r@ == clipped(s@, n as nat),
{
    let v = text::chars_of(s);
    if v.len() > n {
        text::string_of(&v, 0, n)
    } else {
        s.to_owned()
    }
}

/// `s` cut or filled to exactly `width` cells.
pub open spec fn fitted(s: Seq<char>, width: nat) -> Seq<char> {
    padded(clipped(s, width), width)
}

pub fn fit(s: &str, width: usize) -> (r: String)
    ensures
        r@ == fitted(s@, width as nat),
{
    pad(clip(s, width).as_str(), width)
}

/// `s` if it has at most `max` characters, or else one character less than that and an ellipsis.
pub open spec fn ellipsized(s: Seq<char>, max: nat) -> Seq<char> {
    if s.len() > max {
        s.take(if max == 0 {
            0
        } else {
            max - 1
        }).push('…')
    } else {
        s
    }
}

pub fn ellipsize(s: &str, max: usize) -> (r: String)
    ensures
        r@ == ellipsized(s@, max as nat),
{
    let v = text::chars_of(s);
    if v.len() > max {
        let keep: usize = if max == 0 {
            0
        } else {
            max - 1
        };
        let mut r = text::string_of(&v, 0, keep);
        r.push('…');
        assert(v@.subrange(0, keep as int) == s@.take(keep as int));
        r
    } else {
        s.to_owned()
    }
}

/// Text that is centred in `width` cells takes exactly these, unless it is wider by itself.
pub proof fn centered_fills_the_width(s: Seq<char>, width: nat)
    ensures
        centered(s, width).len() == if s.len() >= width {
            s.len()
        } else {
            width
        },
{
}

/// A fitted text takes exactly the cells it was given.
pub proof fn fitted_takes_exactly_the_width(s: Seq<char>, width: nat)
    ensures
        fitted(s, width).len() == width,
{
}

/// Centred text stands in the middle as it is: nothing but blanks around it, as many on the left as
/// on the right or one less.
pub proof fn centered_text_is_in_the_middle(s: Seq<char>, width: nat)
    ensures
        ({
            let r = centered(s, width);
            let left = (r.len() - s.len()) / 2;
            let right = r.len() - s.len() - left;
            &&& r.subrange(left, left + s.len()) == s
            &&& left <= right <= left + 1
            &&& forall|i: int|
                0 <= i < left || left + s.len() <= i < r.len() ==> #[trigger] r[i] == ' '
        }),
{
    let r = centered(s, width);
    let left = (r.len() - s.len()) / 2;
    assert(r.subrange(left, left + s.len()) =~= s);
}

/// Padded text begins with the text and goes on with blanks, to the width at least.
pub proof fn padded_text_comes_first(s: Seq<char>, width: nat)
    ensures
        padded(s, width).len() >= width,
        padded(s, width).len() == s.len() || padded(s, width).len() == width,
        padded(s, width).take(s.len() as int) == s,
        forall|i: int|
            s.len() <= i < padded(s, width).len() ==> #[trigger] padded(s, width)[i] == ' ',
{
    assert(padded(s, width).take(s.len() as int) =~= s);
}

/// Clipped text is the front of the text, as much of it as there is room for.
pub proof fn clipped_text_is_the_front(s: Seq<char>, n: nat)
    ensures
        clipped(s, n).len() <= n,
        clipped(s, n).len() < n ==> clipped(s, n) == s,
        clipped(s, n) == s.take(clipped(s, n).len() as int),
        fitted(s, n).take(clipped(s, n).len() as int) == clipped(s, n),
        forall|i: int| clipped(s, n).len() <= i < n ==> #[trigger] fitted(s, n)[i] == ' ',
{
    assert(clipped(s, n) =~= s.take(clipped(s, n).len() as int));
    padded_text_comes_first(clipped(s, n), n);
}

/// A text that fits stays as it is; of one that does not, as much as leaves room for an ellipsis is
/// kept, and the ellipsis is its last character.
pub proof fn ellipsis_marks_what_is_cut(s: Seq<char>, max: nat)
    requires
        max > 0,
    ensures
        s.len() <= max ==> ellipsized(s, max) == s,
        s.len() > max ==> {
            let r = ellipsized(s, max);
            r.len() == max && r.last() == '…' && r.drop_last() == s.take(max - 1)
        },
{
    if s.len() > max {
        assert(ellipsized(s, max).drop_last() =~= s.take(max - 1));
    }
}

} // verus!
