//! Regular expressions, matched by the `regex` crate.
use crate::text;
use vstd::prelude::*;

verus! {

/// What finds image and gif links in a message.
pub const IMAGE_URL_PATTERN: &'static str =
    "https?://[^\\s<>]+?\\.(?:png|jpe?g|gif|webp)(?:\\?[^\\s<>]*)?";

/// The characters that mean something in a pattern.
pub open spec fn is_meta(c: char) -> bool {
    ||| c == '\\'
    ||| c == '.'
    ||| c == '+'
    ||| c == '*'
    ||| c == '?'
    ||| c == '('
    ||| c == ')'
    ||| c == '|'
    ||| c == '['
    ||| c == ']'
    ||| c == '{'
    ||| c == '}'
    ||| c == '^'
    ||| c == '$'
    ||| c == '#'
    ||| c == '&'
    ||| c == '-'
    ||| c == '~'
}

/// `s` with a backslash before each character that means something in a pattern.
pub open spec fn escaped(s: Seq<char>) -> Seq<char>
    decreases s.len(),
{
    if s.len() == 0 {
        s
    } else if is_meta(s.last()) {
        escaped(s.drop_last()).push('\\').push(s.last())
    } else {
        escaped(s.drop_last()).push(s.last())
    }
}

/// Whether a pattern matches somewhere in a text; nothing where the pattern does not compile.
pub uninterp spec fn matched(pattern: Seq<char>, s: Seq<char>) -> Option<bool>;

/// The stretches of a text before, between and behind the successive matches of a pattern; nothing
/// where the pattern does not compile.
pub uninterp spec fn pieces(pattern: Seq<char>, s: Seq<char>) -> Option<Seq<Seq<char>>>;

/// The stretches of a text with `rep` in place of each match.
pub open spec fn spliced(stretches: Option<Seq<Seq<char>>>, rep: Seq<char>) -> Option<Seq<char>> {
    match stretches {
        Some(p) => Some(text::joined(p, rep)),
        None => None,
    }
}

/// The successive matches of a pattern in a text; nothing where the pattern does not compile.
pub uninterp spec fn all_matches(pattern: Seq<char>, s: Seq<char>) -> Option<Seq<Seq<char>>>;

/// `regex::escape` puts a backslash before each of the characters that the crate treats as
/// special, and leaves the others as they are.
#[verifier::external_body]
pub(crate) fn escape(s: &str) -> (r: String)
    ensures
        r@ == escaped(s@),
{
    regex::escape(s)
}

/// `regex::Regex::new` and `is_match`: a function of pattern and text, named `matched`.
#[verifier::external_body]
pub(crate) fn is_match(pattern: &str, s: &str) -> (r: Option<bool>)
    ensures
        r == matched(pattern@, s@),
{
    regex::Regex::new(pattern).ok().map(|re| re.is_match(s))
}

pub open spec fn text_of(r: Option<String>) -> Option<Seq<char>> {
    match r {
        Some(s) => Some(s@),
        None => None,
    }
}

/// `regex::Regex::new` and `replace_all` with a `NoExpand` replacement: what stands around the
/// matches, a function of pattern and text named `pieces`, stays, and in place of each match stands
/// the replacement, character for character. A pattern that compiles gives a text, and the text as
/// it was where the pattern does not match.
#[verifier::external_body]
pub(crate) fn replace_all(pattern: &str, s: &str, rep: &str) -> (r: Option<String>)
    ensures
        text_of(r) == spliced(pieces(pattern@, s@), rep@),
        r is Some <==> matched(pattern@, s@) is Some,
        matched(pattern@, s@) == Some(false) ==> text_of(r) == Some(s@),
{
    regex::Regex::new(pattern).ok().map(|re| re.replace_all(s, regex::NoExpand(rep)).to_string())
}

pub open spec fn texts_of(r: Option<Vec<String>>) -> Option<Seq<Seq<char>>> {
    match r {
        Some(v) => Some(text::views(v@)),
        None => None,
    }
}

/// Whether every one of several texts is a stretch of `s`.
pub open spec fn all_within(found: Seq<Seq<char>>, s: Seq<char>) -> bool {
    forall|i: int| 0 <= i < found.len() ==> text::has_sub(s, #[trigger] found[i])
}

/// `regex::Regex::new` and `find_iter`: a function of pattern and text, named `all_matches`; each
/// match is a stretch of the text.
#[verifier::external_body]
pub(crate) fn find_all(pattern: &str, s: &str) -> (r: Option<Vec<String>>)
    ensures
        texts_of(r) == all_matches(pattern@, s@),
        texts_of(r) matches Some(found) ==> all_within(found, s@),
{
    let re = regex::Regex::new(pattern).ok()?;
    Some(re.find_iter(s).map(|m| m.as_str().to_string()).collect())
}

} // verus!
