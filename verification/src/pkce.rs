//! Proof keys for the code exchange of an OAuth login.
use vstd::prelude::*;

verus! {

/// The characters that a verifier may be made of.
pub const CHARS: &'static str =
    "abcdefghijklmnopqrstuvwxyzABCDEFGHIJKLMNOPQRSTUVWXYZ0123456789-._~";

/// The next state of the generator.
pub open spec fn advanced(seed: u64) -> u64 {
    seed.wrapping_mul(6364136223846793005).wrapping_add(1442695040888963407)
}

/// The character that a state stands for.
pub open spec fn drawn(seed: u64) -> char {
    CHARS@[(seed >> 33) as int % 66]
}

/// The `n` characters that follow from a seed.
pub open spec fn drawn_text(seed: u64, n: nat) -> Seq<char>
    decreases n,
{
    if n == 0 {
        Seq::empty()
    } else {
        seq![drawn(advanced(seed))] + drawn_text(advanced(seed), (n - 1) as nat)
    }
}

/// `len` characters that follow from `seed`.
pub fn random_string_from(seed: u64, len: usize) -> (out: String)
    ensures
        out@ == drawn_text(seed, len as nat),
{
    let chars = crate::text::chars_of(CHARS);
    proof {
        reveal_strlit(
            "abcdefghijklmnopqrstuvwxyzABCDEFGHIJKLMNOPQRSTUVWXYZ0123456789-._~",
        );
    }
    let mut state: u64 = seed;
    let mut out = String::new();
    let mut i: usize = 0;
    assert(out@ + drawn_text(seed, len as nat) == drawn_text(seed, len as nat));
    while i < len
        invariant
            i <= len,
            chars@ == CHARS@,
            chars@.len() == 66,
            drawn_text(seed, len as nat) == out@ + drawn_text(state, (len - i) as nat),
        decreases len - i,
    {
        let ghost before = out@;
        let ghost rest = drawn_text(state, (len - i) as nat);
        state = state.wrapping_mul(6364136223846793005).wrapping_add(1442695040888963407);
        let idx: usize = ((state >> 33) % 66) as usize;
        out.push(chars[idx]);
        proof {
            assert(rest == seq![drawn(state)] + drawn_text(state, (len - i - 1) as nat));
            assert(out@ + drawn_text(state, (len - i - 1) as nat) == before + rest);
        }
        i += 1;
    }
    assert(out@ + drawn_text(state, 0) == out@);
    out
}

/// A reading of the system clock; carried along, never looked into.
#[verifier::external_type_specification]
#[verifier::external_body]
pub struct ExSystemTime(std::time::SystemTime);

/// `SystemTime::now`. Nothing is known of the reading.
#[verifier::external_body]
fn clock() -> (now: std::time::SystemTime) {
    std::time::SystemTime::now()
}

/// `SystemTime::duration_since` the epoch; nothing where the reading lies before it. Nothing is
/// known of the span.
#[verifier::external_body]
fn since_epoch(now: std::time::SystemTime) -> (span: Option<std::time::Duration>) {
    now.duration_since(std::time::UNIX_EPOCH).ok()
}

/// `Duration::as_nanos`. Nothing is known of the number.
#[verifier::external_body]
fn nanos_of(span: std::time::Duration) -> (nanos: u128) {
    span.as_nanos()
}

/// Whether `s` can come out of the generator: `n` characters, all of them from its alphabet.
pub open spec fn is_draw(s: Seq<char>, n: nat) -> bool {
    exists|seed: u64| s == #[trigger] drawn_text(seed, n)
}

/// `len` characters that follow from the time of the call.
pub fn random_string(len: usize) -> (out: String)
    ensures
        is_draw(out@, len as nat),
{
    let seed: u64 = match since_epoch(clock()) {
        Some(span) => (nanos_of(span) % 0x1_0000_0000_0000_0000) as u64,
        None => 0,
    };
    random_string_from(seed, len)
}

/// What the SHA-256 of `sha2` makes of bytes.
pub uninterp spec fn sha256(bytes: Seq<u8>) -> Seq<u8>;

/// What the URL-safe, unpadded engine of `base64` makes of bytes.
pub uninterp spec fn base64url(bytes: Seq<u8>) -> Seq<char>;

/// The characters of URL-safe base64.
pub open spec fn is_base64url(c: char) -> bool {
    'A' <= c <= 'Z' || 'a' <= c <= 'z' || '0' <= c <= '9' || c == '-' || c == '_'
}

/// `sha2::Sha256::digest`: a function of the bytes, named `sha256`; it has 32 bytes.
#[verifier::external_body]
fn digest(bytes: &[u8]) -> (r: Vec<u8>)
    ensures
        r@ == sha256(bytes@),
        r@.len() == 32,
{
    <sha2::Sha256 as sha2::Digest>::digest(bytes).to_vec()
}

/// `base64`'s `encode` with `URL_SAFE_NO_PAD`: a function of the bytes, named `base64url`; four
/// characters for three bytes, the last ones as needed, all of them safe in a URL. The length that
/// would not fit is left out.
#[verifier::external_body]
fn encode(bytes: &Vec<u8>) -> (r: String)
    requires
        bytes@.len() <= 0x1000_0000,
    ensures
        r@ == base64url(bytes@),
        r@.len() == (4 * bytes@.len() + 2) / 3,
        forall|i: int| 0 <= i < r@.len() ==> is_base64url(#[trigger] r@[i]),
{
    base64::Engine::encode(&base64::engine::general_purpose::URL_SAFE_NO_PAD, bytes)
}

/// The challenge that goes with a verifier.
pub open spec fn challenge_for(verifier: Seq<char>) -> Seq<char> {
    base64url(sha256(vstd::utf8::encode_utf8(verifier)))
}

/// The challenge that goes with a verifier: 43 characters, all of them safe in a URL.
pub fn challenge(verifier: &str) -> (r: String)
    ensures
        r@ == challenge_for(verifier@),
        r@.len() == 43,
        forall|i: int| 0 <= i < r@.len() ==> is_base64url(#[trigger] r@[i]),
{
    encode(&digest(verifier.as_bytes()))
}

/// A verifier and its challenge.
pub fn pkce_pair() -> (r: (String, String))
    ensures
        is_draw(r.0@, 64),
        r.1@ == challenge_for(r.0@),
{
    let verifier = random_string(64);
    let code = challenge(verifier.as_str());
    (verifier, code)
}

/// Whatever the seed, a draw has the asked length and holds only letters, digits and the marks
/// `-._~`, which need no escaping in a URL.
pub proof fn draws_are_url_safe(seed: u64, n: nat)
    ensures
        drawn_text(seed, n).len() == n,
        forall|i: int| 0 <= i < n ==> CHARS@.contains(#[trigger] drawn_text(seed, n)[i]),
    decreases n,
{
    reveal_strlit("abcdefghijklmnopqrstuvwxyzABCDEFGHIJKLMNOPQRSTUVWXYZ0123456789-._~");
    if n > 0 {
        draws_are_url_safe(advanced(seed), (n - 1) as nat);
        let rest = drawn_text(advanced(seed), (n - 1) as nat);
        let s = drawn_text(seed, n);
        assert forall|i: int| 0 <= i < n implies CHARS@.contains(#[trigger] s[i]) by {
            if i > 0 {
                assert(s[i] == rest[i - 1]);
            } else {
                let k = (advanced(seed) >> 33) as int % 66;
                assert(0 <= k < 66);
                assert(s[0] == CHARS@[k]);
            }
        }
    }
}

/// A longer draw from a seed begins with the shorter one, and goes on from the state that this one
/// has left: characters that follow one another follow from one another.
pub proof fn draws_continue(seed: u64, n: nat)
    ensures
        drawn_text(seed, n + 1).take(n as int) == drawn_text(seed, n),
        drawn_text(seed, n + 1).drop_first() == drawn_text(advanced(seed), n),
        drawn_text(seed, n + 1).len() == n + 1,
    decreases n,
{
    draws_are_url_safe(seed, n);
    draws_are_url_safe(seed, n + 1);
    draws_are_url_safe(advanced(seed), n);
    assert(drawn_text(seed, n + 1).drop_first() =~= drawn_text(advanced(seed), n));
    if n > 0 {
        draws_continue(advanced(seed), (n - 1) as nat);
        let head = seq![drawn(advanced(seed))];
        let tail = drawn_text(advanced(seed), n);
        assert(drawn_text(seed, n + 1) == head + tail);
        assert((head + tail).take(n as int) =~= head + tail.take(n - 1));
    } else {
        assert(drawn_text(seed, 1).take(0) =~= drawn_text(seed, 0));
    }
}

/// A verifier is made of letters, digits and four marks, and of all of them.
pub proof fn alphabet_is_that_of_verifiers(c: char)
    ensures
        CHARS@.len() == 66,
        CHARS@.contains(c) <==> 'a' <= c <= 'z' || 'A' <= c <= 'Z' || '0' <= c <= '9' || c == '-' || c
            == '.' || c == '_' || c == '~',
{
    reveal_strlit("abcdefghijklmnopqrstuvwxyzABCDEFGHIJKLMNOPQRSTUVWXYZ0123456789-._~");
    let s = CHARS@;
    if 'a' <= c <= 'z' {
        assert(s[c as int - 'a' as int] == c);
    } else if 'A' <= c <= 'Z' {
        assert(s[26 + c as int - 'A' as int] == c);
    } else if '0' <= c <= '9' {
        assert(s[52 + c as int - '0' as int] == c);
    } else if c == '-' {
        assert(s[62] == c);
    } else if c == '.' {
        assert(s[63] == c);
    } else if c == '_' {
        assert(s[64] == c);
    } else if c == '~' {
        assert(s[65] == c);
    }
}

} // verus!
