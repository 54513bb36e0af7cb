//! Who the operator is, what they may do, and how a browser login comes back.
use crate::numbers;
use crate::text;
use vstd::prelude::*;

verus! {

/// Where the browser is sent back to.
pub const REDIRECT_URI: &'static str = "http://localhost:3000";

#[derive(Debug, Clone, Copy, PartialEq, Eq, Structural)]
pub struct Roles {
    pub is_sponsor: bool,
    pub is_moderator: bool,
    pub is_admin: bool,
    pub is_owner: bool,
}

pub open spec fn no_roles() -> Roles {
    Roles { is_sponsor: false, is_moderator: false, is_admin: false, is_owner: false }
}

impl Default for Roles {
    fn default() -> (r: Self)
        ensures
            r == no_roles(),
    {
        Roles { is_sponsor: false, is_moderator: false, is_admin: false, is_owner: false }
    }
}

impl Roles {
    pub open spec fn moderates(self) -> bool {
        self.is_moderator || self.is_admin || self.is_owner
    }

    /// The name of the highest role.
    pub open spec fn title(self) -> Seq<char> {
        if self.is_owner {
            "OWNER"@
        } else if self.is_admin {
            "ADMIN"@
        } else if self.is_moderator {
            "MOD"@
        } else if self.is_sponsor {
            "SUB"@
        } else {
            "user"@
        }
    }

    pub fn can_moderate(&self) -> (r: bool)
        ensures
            r == self.moderates(),
    {
        self.is_moderator || self.is_admin || self.is_owner
    }

    pub fn label(&self) -> (r: &'static str)
        ensures
            r@ == self.title(),
    {
        if self.is_owner {
            "OWNER"
        } else if self.is_admin {
            "ADMIN"
        } else if self.is_moderator {
            "MOD"
        } else if self.is_sponsor {
            "SUB"
        } else {
            "user"
        }
    }
}

/// Persisted login state for the operator of this chat app.
#[derive(Debug, Clone)]
pub struct LoginState {
    pub platform: String,
    pub handle: String,
    pub token: String,
    pub send_scope: bool,
    pub verified: Roles,
    pub effective: Roles,
}

impl LoginState {
    pub open spec fn sends(self) -> bool {
        self.send_scope || self.effective.moderates()
    }

    pub open spec fn moderates(self) -> bool {
        self.effective.moderates()
    }

    /// Nobody is logged in.
    pub open spec fn is_empty(self) -> bool {
        &&& self.platform@.len() == 0
        &&& self.handle@.len() == 0
        &&& self.token@.len() == 0
        &&& !self.send_scope
        &&& self.verified == no_roles()
        &&& self.effective == no_roles()
    }

    pub fn can_send(&self) -> (r: bool)
        ensures
            r == self.sends(),
    {
        self.send_scope || self.effective.can_moderate()
    }

    pub fn can_moderate(&self) -> (r: bool)
        ensures
            r == self.moderates(),
    {
        self.effective.can_moderate()
    }
}

/// The login that was kept from an earlier run, or none.
pub fn load_or_empty(kept: Option<LoginState>) -> (state: LoginState)
    ensures
        kept matches Some(s) ==> state == s,
        kept is None ==> state.is_empty(),
{
    match kept {
        Some(s) => s,
        None => LoginState {
            platform: String::new(),
            handle: String::new(),
            token: String::new(),
            send_scope: false,
            verified: Roles::default(),
            effective: Roles::default(),
        },
    }
}

/// Who may moderate may also send; and whose highest role is at least MOD may moderate.
pub proof fn moderators_may_send(state: LoginState)
    ensures
        state.moderates() ==> state.sends(),
        state.moderates() <==> state.effective.title() == "OWNER"@ || state.effective.title()
            == "ADMIN"@ || state.effective.title() == "MOD"@,
{
    reveal_strlit("OWNER");
    reveal_strlit("ADMIN");
    reveal_strlit("MOD");
    reveal_strlit("SUB");
    reveal_strlit("user");
    let t = state.effective.title();
    assert("SUB"@[0] == 'S' && "MOD"@[0] == 'M');
    assert("user"@.len() == 4 && "OWNER"@.len() == 5 && "ADMIN"@.len() == 5);
}

/// Nobody who is not logged in may send or moderate.
pub proof fn nobody_may_do_nothing(state: LoginState)
    requires
        state.is_empty(),
    ensures
        !state.sends(),
        !state.moderates(),
{
}

// ── OAuth redirect capture (localhost:3000) ───────────────────────────

/// The value of the first `?param` in a request line: up to a blank or an ampersand.
pub open spec fn query_value(request: Seq<char>, param: Seq<char>) -> Option<Seq<char>> {
    let marker = seq!['?'] + param;
    match text::found(request, marker) {
        Some(pos) => {
            let rest = request.skip(pos + marker.len());
            let val = text::before(text::before(rest, ' '), '&');
            if val.len() == 0 {
                None
            } else {
                Some(val)
            }
        },
        None => None,
    }
}

pub fn extract_value(request: &str, param: &str) -> (r: Option<String>)
    ensures
        r matches Some(s) ==> query_value(request@, param@) == Some(s@),
        r is None ==> query_value(request@, param@) is None,
{
    let mut marker = String::new();
    marker.push('?');
    marker.append(param);
    assert(marker@ == seq!['?'] + param@);
    let v = text::chars_of(request);
    let m = text::chars_of(marker.as_str());
    let n: usize = v.len();
    proof {
        text::lemma_find_from(request@, marker@, 0);
    }
    match text::find_chars(&v, &m, 0) {
        Some(pos) => {
            let rest = text::string_of(&v, pos + m.len(), n);
            assert(rest@ == request@.skip(pos + marker@.len()));
            let val = text::cut_before(text::cut_before(rest.as_str(), ' ').as_str(), '&');
            if val.as_str().is_empty() {
                None
            } else {
                Some(val)
            }
        },
        None => None,
    }
}

/// The page after a login that worked.
pub const OK_HTML: &'static str =
    "<html><body style='background:#0e0e10;color:#efeff1;font-family:system-ui,sans-serif;text-align:center;padding-top:120px;'><h1 style='color:#a970ff;'>Authentication successful!</h1><p>You can close this window and return to your terminal.</p></body></html>";

/// The page after a login that did not.
pub const ERROR_HTML: &'static str =
    "<html><body style='background:#0e0e10;color:#efeff1;font-family:system-ui,sans-serif;text-align:center;padding-top:120px;'><h1 style='color:#ff4f4f;'>Authentication failed</h1><p>Return to your terminal.</p></body></html>";

/// The page that hands a token in the fragment back as a query.
pub const LANDING_HTML: &'static str =
    "<html><script>if(window.location.hash){var h=new URLSearchParams(window.location.hash.substring(1));var t=h.get('access_token')||h.get('token');if(t){window.location.href='/callback?token='+encodeURIComponent(t);}}</script><body style='background:#0e0e10;color:#efeff1;font-family:system-ui,sans-serif;text-align:center;padding-top:120px;'><h1 style='color:#a970ff;'>Authenticating...</h1></body></html>";

/// An HTTP response with `body` as its page.
pub open spec fn page(body: Seq<char>) -> Seq<char> {
    "HTTP/1.1 200 OK\r\nContent-Type: text/html; charset=utf-8\r\nContent-Length: "@
        + numbers::digits(vstd::utf8::encode_utf8(body).len())
        + "\r\nConnection: close\r\n\r\n"@ + body
}

/// The response that carries a page.
pub fn html_response(body: &str) -> (r: String)
    ensures
        r@ == page(body@),
{
    let mut r =
        "HTTP/1.1 200 OK\r\nContent-Type: text/html; charset=utf-8\r\nContent-Length: ".to_owned();
    r.append(numbers::decimal(body.as_bytes().len() as u64).as_str());
    r.append("\r\nConnection: close\r\n\r\n");
    r.append(body);
    r
}

/// How many times a browser may come by before the wait is given up.
pub const ROUNDS: u32 = 10;

/// Waiting for the browser to come back from a login page.
#[derive(Debug, Clone, Copy, PartialEq, Eq, Structural)]
pub struct RedirectWait {
    /// Rounds that have passed.
    pub round: u32,
    /// Whether the forwarding page has been served in this round.
    pub forwarded: bool,
}

/// What a request of the browser calls for.
pub enum RedirectReply {
    /// Serve the failure page; the login failed.
    Failed,
    /// Serve the success page; this is the token or code.
    Captured(String),
    /// Serve the forwarding page, and wait for what it sends.
    Forward,
    /// Serve nothing, and wait on.
    Ignored,
    /// Serve nothing; the wait is over.
    TimedOut,
}

impl RedirectWait {
    pub open spec fn wf(self) -> bool {
        self.round < ROUNDS
    }

    /// How many requests have been answered in vain; the wait ends before twice the rounds.
    pub open spec fn answered(self) -> int {
        2 * self.round + if self.forwarded {
            1int
        } else {
            0
        }
    }

    pub fn new() -> (w: RedirectWait)
        ensures
            w.wf(),
            w.round == 0,
            !w.forwarded,
    {
        RedirectWait { round: 0, forwarded: false }
    }

    /// Answer a request. Handles both `?code=`/`?token=` query redirects and the `#access_token=`
    /// fragment (via the forwarding page) of an implicit flow. A request that follows the
    /// forwarding page can only bring a token.
    pub fn on_request(&mut self, request: &str) -> (reply: RedirectReply)
        requires
            old(self).wf(),
        ensures
            old(self).forwarded ==> match query_value(request@, "token="@) {
                Some(val) => reply matches RedirectReply::Captured(s) && s@ == val,
                None => if old(self).round + 1 < ROUNDS {
                    reply is Ignored && final(self).round == old(self).round + 1
                        && !final(self).forwarded
                } else {
                    reply is TimedOut
                },
            },
            !old(self).forwarded ==> (if text::has_sub(request@, "error="@) {
                reply is Failed
            } else {
                match (query_value(request@, "token="@), query_value(request@, "code="@)) {
                    (Some(val), _) => reply matches RedirectReply::Captured(s) && s@ == val,
                    (None, Some(val)) => reply matches RedirectReply::Captured(s) && s@ == val,
                    (None, None) => reply is Forward && final(self).forwarded && final(self).round
                        == old(self).round,
                }
            }),
            reply is Forward || reply is Ignored ==> final(self).wf() && final(self).answered()
                == old(self).answered() + 1,
            !(reply is Forward || reply is Ignored) ==> *final(self) == *old(self),
    {
        if self.forwarded {
            match extract_value(request, "token=") {
                Some(val) => RedirectReply::Captured(val),
                None => {
                    if self.round + 1 < ROUNDS {
                        self.round = self.round + 1;
                        self.forwarded = false;
                        RedirectReply::Ignored
                    } else {
                        RedirectReply::TimedOut
                    }
                },
            }
        } else {
            if text::contains(request, "error=") {
                return RedirectReply::Failed;
            }
            if let Some(val) = extract_value(request, "token=") {
                return RedirectReply::Captured(val);
            }
            if let Some(val) = extract_value(request, "code=") {
                return RedirectReply::Captured(val);
            }
            self.forwarded = true;
            RedirectReply::Forward
        }
    }
}

/// What the operator is told when the login page reported an error.
pub const REDIRECT_ERROR: &'static str = "OAuth redirect contained an error";

/// What the operator is told when the browser never came back.
pub const REDIRECT_TIMEOUT: &'static str = "timed out waiting for the OAuth redirect";

/// The wait ends: a browser that never brings anything is answered at most twenty times.
pub proof fn waiting_ends(w: RedirectWait)
    requires
        w.wf(),
    ensures
        w.answered() < 2 * ROUNDS,
{
}

/// A captured value is never empty and holds neither a blank nor an ampersand.
pub proof fn captured_value_is_clean(request: Seq<char>, param: Seq<char>)
    ensures
        query_value(request, param) matches Some(val) ==> {
            &&& val.len() > 0
            &&& !val.contains(' ')
            &&& !val.contains('&')
        },
{
    let marker = seq!['?'] + param;
    if let Some(pos) = text::found(request, marker) {
        let rest = request.skip(pos + marker.len());
        lemma_before_clean(rest, ' ');
        lemma_before_clean(text::before(rest, ' '), '&');
        let val = text::before(text::before(rest, ' '), '&');
        if val.contains(' ') {
            let i = choose|i: int| 0 <= i < val.len() && val[i] == ' ';
            lemma_before_prefix(text::before(rest, ' '), '&');
            assert(text::before(rest, ' ')[i] == ' ');
        }
    }
}

proof fn lemma_before_prefix(s: Seq<char>, c: char)
    ensures
        text::before(s, c).len() <= s.len(),
        text::before(s, c) == s.take(text::before(s, c).len() as int),
    decreases s.len(),
{
    if s.len() > 0 && s[0] != c {
        lemma_before_prefix(s.drop_first(), c);
        let b = text::before(s, c);
        assert(b =~= s.take(b.len() as int));
    }
}

proof fn lemma_before_clean(s: Seq<char>, c: char)
    ensures
        !text::before(s, c).contains(c),
    decreases s.len(),
{
    if s.len() > 0 && s[0] != c {
        lemma_before_clean(s.drop_first(), c);
        let t = text::before(s.drop_first(), c);
        let b = text::before(s, c);
        if b.contains(c) {
            let i = choose|i: int| 0 <= i < b.len() && b[i] == c;
            assert(i > 0);
            assert(t[i - 1] == c);
        }
    }
}

/// A value behind its parameter is captured whole, up to the blank or the ampersand that ends it,
/// whatever comes before and behind.
pub proof fn sent_value_is_captured(
    front: Seq<char>,
    param: Seq<char>,
    val: Seq<char>,
    end: char,
    rest: Seq<char>,
)
    requires
        val.len() > 0,
        !val.contains(' '),
        !val.contains('&'),
        end == ' ' || end == '&',
        !text::has_sub(front + (seq!['?'] + param).drop_last(), seq!['?'] + param),
    ensures
        query_value(front + (seq!['?'] + param) + (val + seq![end] + rest), param) == Some(val),
{
    let marker = seq!['?'] + param;
    let tail = val + seq![end] + rest;
    let request = front + marker + tail;
    text::first_place_is_found(front, marker, tail);
    assert(request.skip((front.len() + marker.len()) as int) =~= tail);
    if end == ' ' {
        text::text_before_is_kept(val, ' ', rest);
        text::text_before_is_kept(val, '&', rest);
    } else {
        let cut = text::before(rest, ' ');
        lemma_before_of_concat(val + seq!['&'], rest, ' ');
        assert(text::before(tail, ' ') =~= val + seq!['&'] + cut);
        text::text_before_is_kept(val, '&', cut);
    }
}

proof fn lemma_before_of_concat(a: Seq<char>, b: Seq<char>, c: char)
    requires
        !a.contains(c),
    ensures
        text::before(a + b, c) == a + text::before(b, c),
    decreases a.len(),
{
    if a.len() > 0 {
        assert(a.contains(a[0]));
        assert((a + b).drop_first() =~= a.drop_first() + b);
        if a.drop_first().contains(c) {
            let i = choose|i: int| 0 <= i < a.drop_first().len() && a.drop_first()[i] == c;
            assert(a[i + 1] == c);
        }
        lemma_before_of_concat(a.drop_first(), b, c);
        assert(seq![a[0]] + (a.drop_first() + text::before(b, c)) =~= a + text::before(b, c));
    } else {
        assert(a + b =~= b);
        assert(a + text::before(b, c) =~= text::before(b, c));
    }
}

/// A request without the parameter brings nothing.
pub proof fn other_requests_bring_nothing(request: Seq<char>, param: Seq<char>)
    requires
        !text::has_sub(request, seq!['?'] + param),
    ensures
        query_value(request, param) is None,
{
    text::lemma_found(request, seq!['?'] + param);
}

proof fn lemma_page_head() -> (start: Seq<char>)
    ensures
        "HTTP/1.1 200 OK\r\nContent-Type: text/html; charset=utf-8\r\nContent-Length: "@ == start
            + "Content-Length: "@,
{
    let head = "HTTP/1.1 200 OK\r\nContent-Type: text/html; charset=utf-8\r\nContent-Length: "@;
    reveal_strlit(
        "HTTP/1.1 200 OK\r\nContent-Type: text/html; charset=utf-8\r\nContent-Length: ",
    );
    reveal_strlit("Content-Length: ");
    let start = head.take(head.len() - 16);
    assert(head =~= start + "Content-Length: "@);
    start
}

/// A page is sent whole, at the end of a response that gives its length in bytes.
pub proof fn pages_are_sent_whole(body: Seq<char>)
    ensures
        page(body).len() >= body.len() && page(body).skip(page(body).len() - body.len()) == body,
        text::has_sub(
            page(body),
            "Content-Length: "@ + numbers::digits(vstd::utf8::encode_utf8(body).len())
                + "\r\nConnection: close\r\n\r\n"@,
        ),
{
    let n = numbers::digits(vstd::utf8::encode_utf8(body).len());
    let start = lemma_page_head();
    let close = "\r\nConnection: close\r\n\r\n"@;
    let size = "Content-Length: "@ + n + close;
    assert(page(body) == start + "Content-Length: "@ + n + close + body);
    assert(page(body) =~= start + size + body);
    text::middle_is_found(start, size, body);
    assert(page(body).skip(page(body).len() - body.len()) =~= body);
}

/// Moderating takes one of the three higher roles, sending one of these or the token's permission;
/// a sponsor as such may do neither.
pub proof fn rights_follow_from_roles(state: LoginState)
    ensures
        state.moderates() <==> state.effective.is_moderator || state.effective.is_admin
            || state.effective.is_owner,
        state.sends() <==> state.send_scope || state.effective.is_moderator
            || state.effective.is_admin || state.effective.is_owner,
{
}

/// The label is that of the highest role that is held, and tells the roles apart.
pub proof fn label_names_the_highest_role(r: Roles)
    ensures
        r.title() == "OWNER"@ <==> r.is_owner,
        r.title() == "ADMIN"@ <==> r.is_admin && !r.is_owner,
        r.title() == "MOD"@ <==> r.is_moderator && !r.is_admin && !r.is_owner,
        r.title() == "SUB"@ <==> r.is_sponsor && !r.moderates(),
        r.title() == "user"@ <==> !r.is_sponsor && !r.moderates(),
{
    reveal_strlit("OWNER");
    reveal_strlit("ADMIN");
    reveal_strlit("MOD");
    reveal_strlit("SUB");
    reveal_strlit("user");
    assert("SUB"@[0] == 'S' && "MOD"@[0] == 'M' && "OWNER"@[0] == 'O' && "ADMIN"@[0] == 'A');
    assert("user"@.len() == 4 && "OWNER"@.len() == 5 && "ADMIN"@.len() == 5 && "SUB"@.len() == 3
        && "MOD"@.len() == 3);
}

/// A browser that never brings anything is answered fewer than twenty times.
pub proof fn waiting_takes_ten_rounds(w: RedirectWait)
    requires
        w.wf(),
    ensures
        w.round < 10,
        w.answered() < 20,
{
}

/// A value at the very end of a request is captured as well; an empty one is none.
pub proof fn value_may_end_the_request(front: Seq<char>, param: Seq<char>, val: Seq<char>)
    requires
        !val.contains(' '),
        !val.contains('&'),
        !text::has_sub(front + (seq!['?'] + param).drop_last(), seq!['?'] + param),
    ensures
        val.len() > 0 ==> query_value(front + (seq!['?'] + param) + val, param) == Some(val),
        val.len() == 0 ==> query_value(front + (seq!['?'] + param) + val, param) is None,
{
    let marker = seq!['?'] + param;
    let request = front + marker + val;
    text::first_place_is_found(front, marker, val);
    assert(request.skip((front.len() + marker.len()) as int) =~= val);
    text::text_before_is_kept(val, ' ', Seq::empty());
    text::text_before_is_kept(val, '&', Seq::empty());
}

} // verus!
