//! The browser logins of the platforms, step by step: what to ask the browser and the platform
//! for, and what their answers say of the operator.
use crate::config::ChatConfig;
use crate::json;
use crate::json::{Json, Tree};
use crate::login;
use crate::login::{LoginState, Roles, REDIRECT_URI};
use crate::pkce;
use crate::text;
use crate::tokens;
use crate::tokens::TokenMap;
use vstd::prelude::*;

verus! {

/// A request to a platform.
#[derive(Debug)]
pub struct HttpRequest {
    /// Whether it is a POST with a form; else a GET.
    pub post: bool,
    pub url: String,
    pub query: Vec<(String, String)>,
    pub headers: Vec<(String, String)>,
    pub form: Vec<(String, String)>,
}

/// What a request says.
#[verifier::ext_equal]
pub struct Request {
    pub post: bool,
    pub url: Seq<char>,
    pub query: tokens::Entries,
    pub headers: tokens::Entries,
    pub form: tokens::Entries,
}

impl View for HttpRequest {
    type V = Request;

    open spec fn view(&self) -> Request {
        Request {
            post: self.post,
            url: self.url@,
            query: tokens::pairs_of(self.query@),
            headers: tokens::pairs_of(self.headers@),
            form: tokens::pairs_of(self.form@),
        }
    }
}

/// A GET.
pub open spec fn getting(
    url: Seq<char>,
    query: tokens::Entries,
    headers: tokens::Entries,
) -> Request {
    Request { post: false, url, query, headers, form: Seq::empty() }
}

/// A POST with a form.
pub open spec fn posting(url: Seq<char>, form: tokens::Entries) -> Request {
    Request { post: true, url, query: Seq::empty(), headers: Seq::empty(), form }
}

/// Why a request brought no document: it was not answered, or the answer could not be read.
#[derive(Debug)]
pub enum HttpFailure {
    Send(String),
    Parse(String),
}

/// What the operator is told of a failed request for `what`.
pub open spec fn failure_text(what: Seq<char>, f: HttpFailure) -> Seq<char> {
    match f {
        HttpFailure::Send(e) => what + " failed: "@ + e@,
        HttpFailure::Parse(e) => what + " parse failed: "@ + e@,
    }
}

fn failure(what: &str, f: HttpFailure) -> (r: String)
    ensures
        r@ == failure_text(what@, f),
{
    let mut r = what.to_owned();
    match f {
        HttpFailure::Send(e) => {
            r.append(" failed: ");
            r.append(e.as_str());
        },
        HttpFailure::Parse(e) => {
            r.append(" parse failed: ");
            r.append(e.as_str());
        },
    }
    r
}

fn push_field(v: &mut Vec<(String, String)>, key: &str, value: &str)
    ensures
        tokens::pairs_of(final(v)@) == tokens::pairs_of(old(v)@).push((key@, value@)),
{
    let ghost before = v@;
    v.push((key.to_owned(), value.to_owned()));
    assert(tokens::pairs_of(v@) == tokens::pairs_of(before).push((key@, value@)));
}

/// The headers that identify the operator to an API of Twitch.
pub open spec fn twitch_headers(token: Seq<char>, client_id: Seq<char>) -> tokens::Entries {
    seq![("Authorization"@, "Bearer "@ + token), ("Client-Id"@, client_id)]
}

fn bearer_headers(token: &str, client_id: Option<&str>) -> (v: Vec<(String, String)>)
    ensures
        client_id matches Some(id) ==> tokens::pairs_of(v@) == twitch_headers(token@, id@),
        client_id is None ==> tokens::pairs_of(v@) == seq![("Authorization"@, "Bearer "@ + token@)],
{
    let mut v: Vec<(String, String)> = Vec::new();
    push_field(&mut v, "Authorization", text::concat("Bearer ", token).as_str());
    match client_id {
        Some(id) => push_field(&mut v, "Client-Id", id),
        None => {},
    }
    v
}

// ── Twitch ────────────────────────────────────────────────────────────

/// The start of a Twitch login: browser implicit-grant OAuth. Owner if the operator's user id is
/// the monitored channel's broadcaster id; mod if the channel appears in the operator's
/// moderated-channels list; send if the token has chat:edit.
#[derive(Debug)]
pub struct TwitchLogin {
    pub client_id: String,
    pub channel: String,
}

/// What the operator is told when the adapter has no client id.
pub const TWITCH_UNSET: &'static str =
    "twitch-adapter has no client_id configured — set it via the TUI credential form";

pub fn login_twitch(creds: &TokenMap, channel: &str) -> (r: Result<TwitchLogin, String>)
    ensures
        match r {
            Ok(l) => l.client_id@ == tokens::lookup_or_empty(creds@, "client_id"@)
                && l.client_id@.len() > 0 && l.channel@ == channel@,
            Err(e) => tokens::lookup_or_empty(creds@, "client_id"@).len() == 0 && e@
                == TWITCH_UNSET@,
        },
{
    let client_id = creds.get_or_empty("client_id");
    if client_id.as_str().is_empty() {
        return Err(TWITCH_UNSET.to_owned());
    }
    Ok(TwitchLogin { client_id, channel: channel.to_owned() })
}

/// The page that asks the operator for a Twitch token.
pub open spec fn twitch_url(client_id: Seq<char>) -> Seq<char> {
    "https://id.twitch.tv/oauth2/authorize?client_id="@ + client_id + "&redirect_uri="@
        + REDIRECT_URI@ + "&response_type=token&scope="@ + "user:read+chat:read+chat:edit"@
}

impl TwitchLogin {
    pub fn auth_url(&self) -> (r: String)
        ensures
            r@ == twitch_url(self.client_id@),
    {
        let mut r = "https://id.twitch.tv/oauth2/authorize?client_id=".to_owned();
        r.append(self.client_id.as_str());
        r.append("&redirect_uri=");
        r.append(REDIRECT_URI);
        r.append("&response_type=token&scope=");
        r.append("user:read+chat:read+chat:edit");
        r
    }

    /// The browser came back with a token.
    pub fn captured(self, raw: &str) -> (t: TwitchToken)
        ensures
            t.client_id == self.client_id,
            t.channel == self.channel,
            t.token@ == text::stripped_front(raw@, "oauth:"@),
    {
        proof {
            reveal_strlit("oauth:");
        }
        let token = text::strip_front(raw, "oauth:");
        TwitchToken { client_id: self.client_id, channel: self.channel, token }
    }
}

/// A Twitch token whose owner is not known yet.
#[derive(Debug)]
pub struct TwitchToken {
    pub client_id: String,
    pub channel: String,
    pub token: String,
}

impl TwitchToken {
    /// Ask whose token it is.
    pub fn request(&self) -> (q: HttpRequest)
        ensures
            q@ == getting(
                "https://id.twitch.tv/oauth2/validate"@,
                Seq::empty(),
                seq![("Authorization"@, "OAuth "@ + self.token@)],
            ),
    {
        let mut headers: Vec<(String, String)> = Vec::new();
        push_field(&mut headers, "Authorization", text::concat("OAuth ", self.token.as_str()).as_str());
        let q = HttpRequest {
            post: false,
            url: "https://id.twitch.tv/oauth2/validate".to_owned(),
            query: Vec::new(),
            headers,
            form: Vec::new(),
        };
        assert(q@ =~= getting(
            "https://id.twitch.tv/oauth2/validate"@,
            Seq::empty(),
            seq![("Authorization"@, "OAuth "@ + self.token@)],
        ));
        q
    }

    /// The token's owner and what they let it do.
    pub fn validated(self, reply: Result<Json, HttpFailure>) -> (r: Result<TwitchUser, String>)
        ensures
            match reply {
                Err(f) => r matches Err(e) && e@ == failure_text("twitch validate"@, f),
                Ok(doc) => r matches Ok(u) && {
                    &&& u.client_id == self.client_id
                    &&& u.channel == self.channel
                    &&& u.token == self.token
                    &&& u.handle@ == json::text_field_or_empty(doc@, "login"@)
                    &&& u.user_id@ == json::text_field_or_empty(doc@, "user_id"@)
                    &&& u.send_scope == json::text_list_field(doc@, "scopes"@).contains(
                        "chat:edit"@,
                    )
                },
            },
    {
        match reply {
            Err(f) => Err(failure("twitch validate", f)),
            Ok(doc) => {
                let handle = doc.text_or_empty("login");
                let user_id = doc.text_or_empty("user_id");
                let scopes = doc.text_list_at("scopes");
                let send_scope = text::list_contains(&scopes, "chat:edit");
                Ok(
                    TwitchUser {
                        client_id: self.client_id,
                        channel: self.channel,
                        token: self.token,
                        handle,
                        user_id,
                        send_scope,
                    },
                )
            },
        }
    }
}

/// A Twitch user whose standing in the monitored channel is not known yet.
#[derive(Debug)]
pub struct TwitchUser {
    pub client_id: String,
    pub channel: String,
    pub token: String,
    pub handle: String,
    pub user_id: String,
    pub send_scope: bool,
}

impl TwitchUser {
    /// Ask whose channel is monitored, if one is.
    pub fn request(&self) -> (q: Option<HttpRequest>)
        ensures
            q is None <==> self.channel@.len() == 0,
            q matches Some(h) ==> h@ == getting(
                "https://api.twitch.tv/helix/users"@,
                seq![("login"@, self.channel@)],
                twitch_headers(self.token@, self.client_id@),
            ),
    {
        if self.channel.as_str().is_empty() {
            return None;
        }
        let mut query: Vec<(String, String)> = Vec::new();
        push_field(&mut query, "login", self.channel.as_str());
        let q = HttpRequest {
            post: false,
            url: "https://api.twitch.tv/helix/users".to_owned(),
            query,
            headers: bearer_headers(self.token.as_str(), Some(self.client_id.as_str())),
            form: Vec::new(),
        };
        assert(q@ =~= getting(
            "https://api.twitch.tv/helix/users"@,
            seq![("login"@, self.channel@)],
            twitch_headers(self.token@, self.client_id@),
        ));
        Some(q)
    }

    /// The monitored channel is resolved to its broadcaster; without a channel there is none.
    pub fn resolved(self, reply: Option<Result<Json, HttpFailure>>) -> (r: Result<
        TwitchChannel,
        String,
    >)
        ensures
            match reply {
                Some(Err(f)) => r matches Err(e) && e@ == failure_text("twitch users"@, f),
                Some(Ok(doc)) => r matches Ok(c) && c.user == self && c.broadcaster_id@
                    == first_text(doc@, "data"@, "id"@),
                None => r matches Ok(c) && c.user == self && c.broadcaster_id@.len() == 0,
            },
    {
        match reply {
            Some(Err(f)) => Err(failure("twitch users", f)),
            Some(Ok(doc)) => {
                let broadcaster_id = first_text_at(&doc, "data", "id");
                Ok(TwitchChannel { user: self, broadcaster_id })
            },
            None => Ok(TwitchChannel { user: self, broadcaster_id: String::new() }),
        }
    }
}

/// The text at `/list/0/key`, or nothing.
pub open spec fn first_text(doc: Tree, list: Seq<char>, key: Seq<char>) -> Seq<char> {
    match json::first_of(doc, list) {
        Some(t) => json::text_field_or_empty(t, key),
        None => Seq::empty(),
    }
}

fn first_text_at(doc: &Json, list: &str, key: &str) -> (r: String)
    ensures
        r@ == first_text(doc@, list@, key@),
{
    match doc.first_of(list) {
        Some(j) => j.text_or_empty(key),
        None => String::new(),
    }
}

/// A Twitch user and the channel they are measured against.
#[derive(Debug)]
pub struct TwitchChannel {
    pub user: TwitchUser,
    pub broadcaster_id: String,
}

/// Whether a list of moderated channels names a broadcaster.
pub open spec fn lists_broadcaster(doc: Tree, broadcaster_id: Seq<char>) -> bool {
    json::field(doc, "data"@) matches Some(Tree::Array(items)) && exists|i: int|
        0 <= i < items.len() && json::text_field(#[trigger] items[i], "broadcaster_id"@) == Some(
            broadcaster_id,
        )
}

fn broadcaster_listed(doc: &Json, broadcaster_id: &str) -> (r: bool)
    ensures
        r == lists_broadcaster(doc@, broadcaster_id@),
{
    match doc.get("data") {
        Some(list) => {
            proof {
                json::lemma_view(*list);
            }
            match list {
                Json::Array(items) => {
                    let ghost all = list@->Array_0;
                    let mut i: usize = 0;
                    while i < items.len()
                        invariant
                            i <= items@.len(),
                            json::field(doc@, "data"@) == Some(Tree::Array(all)),
                            all.len() == items@.len(),
                            forall|k: int| #![trigger all[k]]
                                0 <= k < all.len() ==> all[k] == items@[k]@,
                            forall|k: int|
                                0 <= k < i ==> json::text_field(
                                    #[trigger] all[k],
                                    "broadcaster_id"@,
                                ) != Some(broadcaster_id@),
                        decreases items@.len() - i,
                    {
                        match items[i].text_at("broadcaster_id") {
                            Some(s) => {
                                if text::same(s.as_str(), broadcaster_id) {
                                    assert(all[i as int] == items@[i as int]@);
                                    return true;
                                }
                            },
                            None => {},
                        }
                        assert(all[i as int] == items@[i as int]@);
                        i += 1;
                    }
                    false
                },
                _ => false,
            }
        },
        None => false,
    }
}

impl TwitchChannel {
    /// Ask which channels the operator moderates.
    pub fn request(&self) -> (q: HttpRequest)
        ensures
            q@ == getting(
                "https://api.twitch.tv/helix/moderation/channels"@,
                Seq::empty(),
                twitch_headers(self.user.token@, self.user.client_id@),
            ),
    {
        let q = HttpRequest {
            post: false,
            url: "https://api.twitch.tv/helix/moderation/channels".to_owned(),
            query: Vec::new(),
            headers: bearer_headers(self.user.token.as_str(), Some(self.user.client_id.as_str())),
            form: Vec::new(),
        };
        assert(q@ =~= getting(
            "https://api.twitch.tv/helix/moderation/channels"@,
            Seq::empty(),
            twitch_headers(self.user.token@, self.user.client_id@),
        ));
        q
    }

    /// All that Twitch says of the operator.
    pub fn finished(self, reply: Result<Json, HttpFailure>) -> (r: Result<LoginState, String>)
        ensures
            match reply {
                Err(f) => r matches Err(e) && e@ == failure_text("twitch moderated channels"@, f),
                Ok(doc) => r matches Ok(state) && {
                    &&& state.platform@ == "twitch"@
                    &&& state.handle == self.user.handle
                    &&& state.token == self.user.token
                    &&& state.send_scope == self.user.send_scope
                    &&& state.verified == twitch_roles(
                        self.user.user_id@,
                        self.broadcaster_id@,
                        doc@,
                    )
                    &&& state.effective == login::no_roles()
                },
            },
    {
        let mut verified = Roles::default();
        if !self.broadcaster_id.as_str().is_empty() && text::same(
            self.user.user_id.as_str(),
            self.broadcaster_id.as_str(),
        ) {
            verified.is_owner = true;
        }
        match reply {
            Err(f) => Err(failure("twitch moderated channels", f)),
            Ok(doc) => {
                if broadcaster_listed(&doc, self.broadcaster_id.as_str()) {
                    verified.is_moderator = true;
                }
                Ok(
                    LoginState {
                        platform: "twitch".to_owned(),
                        handle: self.user.handle,
                        token: self.user.token,
                        send_scope: self.user.send_scope,
                        verified,
                        effective: Roles::default(),
                    },
                )
            },
        }
    }
}

/// The roles of a user in the channel of a broadcaster, given the channels that they moderate.
pub open spec fn twitch_roles(
    user_id: Seq<char>,
    broadcaster_id: Seq<char>,
    moderated: Tree,
) -> Roles {
    Roles {
        is_sponsor: false,
        is_moderator: lists_broadcaster(moderated, broadcaster_id),
        is_admin: false,
        is_owner: broadcaster_id.len() > 0 && user_id == broadcaster_id,
    }
}

// ── Kick ──────────────────────────────────────────────────────────────

/// The start of a Kick login: OAuth authorization-code + PKCE. Mod-level if the token has
/// moderation:ban; send if it has chat:write. Identity falls back to the handle the operator
/// entered (Kick has no reliable self-check endpoint).
#[derive(Debug)]
pub struct KickLogin {
    pub client_id: String,
    pub client_secret: String,
    pub handle: String,
    pub verifier: String,
    pub challenge: String,
    pub state: String,
}

/// What the operator is told when the adapter lacks its credentials.
pub const KICK_UNSET: &'static str =
    "kick-adapter needs client_id + client_secret — set them via the TUI credential form";

/// Whether the credentials of the Kick adapter are complete.
pub open spec fn kick_ready(creds: tokens::Entries) -> bool {
    tokens::lookup_or_empty(creds, "client_id"@).len() > 0 && tokens::lookup_or_empty(
        creds,
        "client_secret"@,
    ).len() > 0
}

pub fn login_kick(creds: &TokenMap, fallback_handle: &str) -> (r: Result<KickLogin, String>)
    ensures
        match r {
            Ok(l) => {
                &&& kick_ready(creds@)
                &&& l.client_id@ == tokens::lookup_or_empty(creds@, "client_id"@)
                &&& l.client_secret@ == tokens::lookup_or_empty(creds@, "client_secret"@)
                &&& l.handle@ == fallback_handle@
                &&& pkce::is_draw(l.verifier@, 64)
                &&& l.challenge@ == pkce::challenge_for(l.verifier@)
                &&& pkce::is_draw(l.state@, 16)
            },
            Err(e) => !kick_ready(creds@) && e@ == KICK_UNSET@,
        },
{
    let client_id = creds.get_or_empty("client_id");
    let client_secret = creds.get_or_empty("client_secret");
    if client_id.as_str().is_empty() || client_secret.as_str().is_empty() {
        return Err(KICK_UNSET.to_owned());
    }
    let (verifier, challenge) = pkce::pkce_pair();
    let state = pkce::random_string(16);
    Ok(
        KickLogin {
            client_id,
            client_secret,
            handle: fallback_handle.to_owned(),
            verifier,
            challenge,
            state,
        },
    )
}

/// The page that asks the operator for a Kick code.
pub open spec fn kick_url(client_id: Seq<char>, challenge: Seq<char>, state: Seq<char>) -> Seq<
    char,
> {
    "https://id.kick.com/oauth/authorize?response_type=code&client_id="@ + client_id
        + "&redirect_uri="@ + REDIRECT_URI@ + "&scope="@ + "user:read+chat:write+moderation:ban"@
        + "&code_challenge="@ + challenge + "&code_challenge_method=S256&state="@ + state
}

/// What Kick is told to turn a code into a token.
pub open spec fn kick_form(
    client_id: Seq<char>,
    client_secret: Seq<char>,
    code: Seq<char>,
    verifier: Seq<char>,
) -> tokens::Entries {
    seq![
        ("grant_type"@, "authorization_code"@),
        ("client_id"@, client_id),
        ("client_secret"@, client_secret),
        ("code"@, code),
        ("redirect_uri"@, REDIRECT_URI@),
        ("code_verifier"@, verifier),
    ]
}

impl KickLogin {
    pub fn auth_url(&self) -> (r: String)
        ensures
            r@ == kick_url(self.client_id@, self.challenge@, self.state@),
    {
        let mut r = "https://id.kick.com/oauth/authorize?response_type=code&client_id=".to_owned();
        r.append(self.client_id.as_str());
        r.append("&redirect_uri=");
        r.append(REDIRECT_URI);
        r.append("&scope=");
        r.append("user:read+chat:write+moderation:ban");
        r.append("&code_challenge=");
        r.append(self.challenge.as_str());
        r.append("&code_challenge_method=S256&state=");
        r.append(self.state.as_str());
        r
    }

    /// The browser came back with a code: ask for the token.
    pub fn request(&self, code: &str) -> (q: HttpRequest)
        ensures
            q@ == posting(
                "https://id.kick.com/oauth/token"@,
                kick_form(self.client_id@, self.client_secret@, code@, self.verifier@),
            ),
    {
        let mut form: Vec<(String, String)> = Vec::new();
        push_field(&mut form, "grant_type", "authorization_code");
        push_field(&mut form, "client_id", self.client_id.as_str());
        push_field(&mut form, "client_secret", self.client_secret.as_str());
        push_field(&mut form, "code", code);
        push_field(&mut form, "redirect_uri", REDIRECT_URI);
        push_field(&mut form, "code_verifier", self.verifier.as_str());
        let q = HttpRequest {
            post: true,
            url: "https://id.kick.com/oauth/token".to_owned(),
            query: Vec::new(),
            headers: Vec::new(),
            form,
        };
        assert(q@ =~= posting(
            "https://id.kick.com/oauth/token"@,
            kick_form(self.client_id@, self.client_secret@, code@, self.verifier@),
        ));
        q
    }

    /// The token and what it is good for.
    pub fn exchanged(self, reply: Result<Json, HttpFailure>) -> (r: Result<KickToken, String>)
        ensures
            match reply {
                Err(f) => r matches Err(e) && e@ == failure_text("kick token"@, f),
                Ok(doc) => match json::text_field(doc@, "access_token"@) {
                    None => r matches Err(e) && e@ == "kick token response missing access_token: "@
                        + json::debugged(json::stored(doc@)) && (json::was_read(doc@) ==> e@
                        == "kick token response missing access_token: "@ + json::debugged(doc@)),
                    Some(access) => r matches Ok(t) && {
                        let scopes = text::words_of(json::text_field_or_empty(doc@, "scope"@));
                        &&& t.access@ == access
                        &&& t.handle == self.handle
                        &&& t.moderates == scopes.contains("moderation:ban"@)
                        &&& t.send_scope == scopes.contains("chat:write"@)
                    },
                },
            },
    {
        match reply {
            Err(f) => Err(failure("kick token", f)),
            Ok(doc) => match doc.text_at("access_token") {
                None => {
                    Err(
                        text::concat(
                            "kick token response missing access_token: ",
                            json::to_debug_text(doc).as_str(),
                        ),
                    )
                },
                Some(access) => {
                    let scopes = text::words(doc.text_or_empty("scope").as_str());
                    Ok(
                        KickToken {
                            access,
                            handle: self.handle,
                            moderates: text::list_contains(&scopes, "moderation:ban"),
                            send_scope: text::list_contains(&scopes, "chat:write"),
                        },
                    )
                },
            },
        }
    }
}

/// A Kick token.
#[derive(Debug)]
pub struct KickToken {
    pub access: String,
    /// What the operator entered.
    pub handle: String,
    pub moderates: bool,
    pub send_scope: bool,
}

impl KickToken {
    /// Ask who the operator is.
    pub fn request(&self) -> (q: HttpRequest)
        ensures
            q@ == getting(
                "https://api.kick.com/public/v1/users"@,
                Seq::empty(),
                seq![("Authorization"@, "Bearer "@ + self.access@)],
            ),
    {
        let q = HttpRequest {
            post: false,
            url: "https://api.kick.com/public/v1/users".to_owned(),
            query: Vec::new(),
            headers: bearer_headers(self.access.as_str(), None),
            form: Vec::new(),
        };
        assert(q@ =~= getting(
            "https://api.kick.com/public/v1/users"@,
            Seq::empty(),
            seq![("Authorization"@, "Bearer "@ + self.access@)],
        ));
        q
    }

    /// All that Kick says of the operator; `doc` is its answer to the request for their name, if
    /// there was one that could be read. Where it does not name them, they are who they said.
    pub fn finished(self, doc: Option<Json>) -> (state: LoginState)
        ensures
            state.platform@ == "kick"@,
            state.handle@ == kick_handle(
                match doc {
                    Some(d) => Some(d@),
                    None => None,
                },
                self.handle@,
            ),
            state.token == self.access,
            state.send_scope == self.send_scope,
            state.verified == (Roles { is_moderator: self.moderates, ..login::no_roles() }),
            state.effective == login::no_roles(),
    {
        let named = match doc {
            Some(d) => first_text_at(&d, "data", "username"),
            None => String::new(),
        };
        let handle = if named.as_str().is_empty() {
            self.handle
        } else {
            named
        };
        let mut verified = Roles::default();
        verified.is_moderator = self.moderates;
        LoginState {
            platform: "kick".to_owned(),
            handle,
            token: self.access,
            send_scope: self.send_scope,
            verified,
            effective: Roles::default(),
        }
    }
}

/// Who the operator is: whom the public API names, or else what they entered.
pub open spec fn kick_handle(doc: Option<Tree>, entered: Seq<char>) -> Seq<char> {
    match doc {
        Some(d) => if first_text(d, "data"@, "username"@).len() > 0 {
            first_text(d, "data"@, "username"@)
        } else {
            entered
        },
        None => entered,
    }
}

// ── YouTube ───────────────────────────────────────────────────────────

/// The start of a YouTube login: Google OAuth code flow. Owner if the operator's channel id
/// matches the monitored channel. Needs google_oauth_client_id/secret in chat_config.json;
/// mod/send perms fall back to the user database.
#[derive(Debug)]
pub struct YoutubeLogin {
    pub client_id: String,
    pub client_secret: String,
}

/// What the operator is told when the config lacks the credentials.
pub const YOUTUBE_UNSET: &'static str =
    "YouTube login requires google_oauth_client_id + google_oauth_client_secret in chat_config.json";

pub fn login_youtube(cfg: &ChatConfig) -> (r: Result<YoutubeLogin, String>)
    ensures
        match r {
            Ok(l) => l.client_id == cfg.google_oauth_client_id && l.client_secret
                == cfg.google_oauth_client_secret && l.client_id@.len() > 0
                && l.client_secret@.len() > 0,
            Err(e) => (cfg.google_oauth_client_id@.len() == 0
                || cfg.google_oauth_client_secret@.len() == 0) && e@ == YOUTUBE_UNSET@,
        },
{
    if cfg.google_oauth_client_id.as_str().is_empty()
        || cfg.google_oauth_client_secret.as_str().is_empty() {
        return Err(YOUTUBE_UNSET.to_owned());
    }
    Ok(
        YoutubeLogin {
            client_id: cfg.google_oauth_client_id.clone(),
            client_secret: cfg.google_oauth_client_secret.clone(),
        },
    )
}

/// The page that asks the operator for a Google code.
pub open spec fn youtube_url(client_id: Seq<char>) -> Seq<char> {
    "https://accounts.google.com/o/oauth2/v2/auth?client_id="@ + client_id + "&redirect_uri="@
        + REDIRECT_URI@ + "&response_type=code&scope="@
        + "https://www.googleapis.com/auth/youtube.force-ssl"@ + "&access_type=offline"@
}

/// What Google is told to turn a code into a token.
pub open spec fn youtube_form(
    client_id: Seq<char>,
    client_secret: Seq<char>,
    code: Seq<char>,
) -> tokens::Entries {
    seq![
        ("code"@, code),
        ("client_id"@, client_id),
        ("client_secret"@, client_secret),
        ("redirect_uri"@, REDIRECT_URI@),
        ("grant_type"@, "authorization_code"@),
    ]
}

impl YoutubeLogin {
    pub fn auth_url(&self) -> (r: String)
        ensures
            r@ == youtube_url(self.client_id@),
    {
        let mut r = "https://accounts.google.com/o/oauth2/v2/auth?client_id=".to_owned();
        r.append(self.client_id.as_str());
        r.append("&redirect_uri=");
        r.append(REDIRECT_URI);
        r.append("&response_type=code&scope=");
        r.append("https://www.googleapis.com/auth/youtube.force-ssl");
        r.append("&access_type=offline");
        r
    }

    /// The browser came back with a code: ask for the token.
    pub fn request(&self, code: &str) -> (q: HttpRequest)
        ensures
            q@ == posting(
                "https://oauth2.googleapis.com/token"@,
                youtube_form(self.client_id@, self.client_secret@, code@),
            ),
    {
        let mut form: Vec<(String, String)> = Vec::new();
        push_field(&mut form, "code", code);
        push_field(&mut form, "client_id", self.client_id.as_str());
        push_field(&mut form, "client_secret", self.client_secret.as_str());
        push_field(&mut form, "redirect_uri", REDIRECT_URI);
        push_field(&mut form, "grant_type", "authorization_code");
        let q = HttpRequest {
            post: true,
            url: "https://oauth2.googleapis.com/token".to_owned(),
            query: Vec::new(),
            headers: Vec::new(),
            form,
        };
        assert(q@ =~= posting(
            "https://oauth2.googleapis.com/token"@,
            youtube_form(self.client_id@, self.client_secret@, code@),
        ));
        q
    }

    /// The token.
    pub fn exchanged(self, reply: Result<Json, HttpFailure>) -> (r: Result<YoutubeToken, String>)
        ensures
            match reply {
                Err(f) => r matches Err(e) && e@ == failure_text("google token"@, f),
                Ok(doc) => match json::text_field(doc@, "access_token"@) {
                    None => r matches Err(e) && e@ == "google token response missing access_token"@,
                    Some(access) => r matches Ok(t) && t.access@ == access,
                },
            },
    {
        match reply {
            Err(f) => Err(failure("google token", f)),
            Ok(doc) => match doc.text_at("access_token") {
                None => Err("google token response missing access_token".to_owned()),
                Some(access) => Ok(YoutubeToken { access }),
            },
        }
    }
}

/// A Google token.
#[derive(Debug)]
pub struct YoutubeToken {
    pub access: String,
}

/// What a channel's own description calls its owner: the custom URL without the `@` signs at its
/// front, or else the title.
pub open spec fn channel_name(me: Tree) -> Seq<char> {
    match json::first_of(me, "items"@) {
        Some(item) => match json::field(item, "snippet"@) {
            Some(snippet) => match json::text_field(snippet, "customUrl"@) {
                Some(url) => text::stripped_front(url, "@"@),
                None => json::text_field_or_empty(snippet, "title"@),
            },
            None => Seq::empty(),
        },
        None => Seq::empty(),
    }
}

fn name_of_channel(me: &Json) -> (r: String)
    ensures
        r@ == channel_name(me@),
{
    proof {
        reveal_strlit("@");
    }
    match me.first_of("items") {
        Some(item) => match item.get("snippet") {
            Some(snippet) => match snippet.text_at("customUrl") {
                Some(url) => text::strip_front(url.as_str(), "@"),
                None => snippet.text_or_empty("title"),
            },
            None => String::new(),
        },
        None => String::new(),
    }
}

impl YoutubeToken {
    /// Ask which channel is the operator's.
    pub fn request(&self) -> (q: HttpRequest)
        ensures
            q@ == getting(
                "https://www.googleapis.com/youtube/v3/channels"@,
                seq![("part"@, "id,snippet"@), ("mine"@, "true"@)],
                seq![("Authorization"@, "Bearer "@ + self.access@)],
            ),
    {
        let mut query: Vec<(String, String)> = Vec::new();
        push_field(&mut query, "part", "id,snippet");
        push_field(&mut query, "mine", "true");
        let q = HttpRequest {
            post: false,
            url: "https://www.googleapis.com/youtube/v3/channels".to_owned(),
            query,
            headers: bearer_headers(self.access.as_str(), None),
            form: Vec::new(),
        };
        assert(q@ =~= getting(
            "https://www.googleapis.com/youtube/v3/channels"@,
            seq![("part"@, "id,snippet"@), ("mine"@, "true"@)],
            seq![("Authorization"@, "Bearer "@ + self.access@)],
        ));
        q
    }

    /// The operator's channel.
    pub fn identified(self, reply: Result<Json, HttpFailure>) -> (r: Result<YoutubeUser, String>)
        ensures
            match reply {
                Err(f) => r matches Err(e) && e@ == failure_text("youtube channels"@, f),
                Ok(me) => r matches Ok(u) && u.access == self.access && u.channel@ == first_text(
                    me@,
                    "items"@,
                    "id"@,
                ) && u.name@ == channel_name(me@),
            },
    {
        match reply {
            Err(f) => Err(failure("youtube channels", f)),
            Ok(me) => Ok(
                YoutubeUser {
                    access: self.access,
                    channel: first_text_at(&me, "items", "id"),
                    name: name_of_channel(&me),
                },
            ),
        }
    }
}

/// A YouTube user whose standing is not known yet.
#[derive(Debug)]
pub struct YoutubeUser {
    pub access: String,
    pub channel: String,
    pub name: String,
}

impl YoutubeUser {
    /// All that YouTube says of the operator, held against the credentials of the adapter.
    pub fn finished(self, creds: Result<TokenMap, String>) -> (r: Result<LoginState, String>)
        ensures
            match creds {
                Err(e) => r == Err::<LoginState, String>(e),
                Ok(m) => r matches Ok(state) && {
                    let monitored = tokens::lookup_or_empty(m@, "channel_id"@);
                    &&& state.platform@ == "youtube"@
                    &&& state.handle@ == if self.name@.len() > 0 {
                        self.name@
                    } else {
                        self.channel@
                    }
                    &&& state.token == self.access
                    &&& !state.send_scope
                    &&& state.verified == Roles {
                        is_owner: monitored.len() > 0 && self.channel@ == monitored,
                        ..login::no_roles()
                    }
                    &&& state.effective == login::no_roles()
                },
            },
    {
        match creds {
            Err(e) => Err(e),
            Ok(m) => {
                let monitored = m.get_or_empty("channel_id");
                let mut verified = Roles::default();
                if !monitored.as_str().is_empty() && text::same(
                    self.channel.as_str(),
                    monitored.as_str(),
                ) {
                    verified.is_owner = true;
                }
                let handle = if self.name.as_str().is_empty() {
                    self.channel
                } else {
                    self.name
                };
                Ok(
                    LoginState {
                        platform: "youtube".to_owned(),
                        handle,
                        token: self.access,
                        send_scope: false,
                        verified,
                        effective: Roles::default(),
                    },
                )
            },
        }
    }
}

// ── Any platform ──────────────────────────────────────────────────────

#[derive(Debug, Clone, Copy, PartialEq, Eq, Structural)]
pub enum Platform {
    Twitch,
    Kick,
    Youtube,
}

impl Platform {
    /// What a platform is called.
    pub open spec fn called(self) -> Seq<char> {
        match self {
            Platform::Twitch => "twitch"@,
            Platform::Kick => "kick"@,
            Platform::Youtube => "youtube"@,
        }
    }

    /// The platform of that name.
    pub fn named(platform: &str) -> (r: Result<Platform, String>)
        ensures
            match r {
                Ok(p) => platform@ == p.called(),
                Err(e) => platform@ != "twitch"@ && platform@ != "kick"@ && platform@ != "youtube"@
                    && e@ == "unknown platform '"@ + platform@ + "'"@,
            },
    {
        if text::same(platform, "twitch") {
            Ok(Platform::Twitch)
        } else if text::same(platform, "kick") {
            Ok(Platform::Kick)
        } else if text::same(platform, "youtube") {
            Ok(Platform::Youtube)
        } else {
            let mut e = "unknown platform '".to_owned();
            e.append(platform);
            e.append("'");
            Err(e)
        }
    }
}

/// What the operator is told when a login does not say who they are.
pub open spec fn nameless(platform: Seq<char>) -> Seq<char> {
    "could not determine your "@ + platform
        + " handle — log in again and enter your handle"@
}

/// A login must say who the operator is.
pub fn identified(state: LoginState, platform: &str) -> (r: Result<LoginState, String>)
    ensures
        state.handle@.len() > 0 ==> r == Ok::<LoginState, String>(state),
        state.handle@.len() == 0 ==> (r matches Err(e) && e@ == nameless(platform@)),
{
    if state.handle.as_str().is_empty() {
        let mut e = "could not determine your ".to_owned();
        e.append(platform);
        e.append(" handle — log in again and enter your handle");
        return Err(e);
    }
    Ok(state)
}

/// The end of a login: the engine's word on the operator's roles is what counts from then on.
pub fn login_and_verify(state: LoginState, effective: Result<Roles, String>) -> (r: Result<
    LoginState,
    String,
>)
    ensures
        match effective {
            Ok(roles) => r == Ok::<LoginState, String>(LoginState { effective: roles, ..state }),
            Err(e) => r == Err::<LoginState, String>(e),
        },
{
    match effective {
        Ok(roles) => Ok(
            LoginState {
                platform: state.platform,
                handle: state.handle,
                token: state.token,
                send_scope: state.send_scope,
                verified: state.verified,
                effective: roles,
            },
        ),
        Err(e) => Err(e),
    }
}

/// Until the engine has spoken nobody may moderate, and sending rests on the token alone.
pub proof fn roles_wait_for_the_engine(state: LoginState)
    requires
        state.effective == login::no_roles(),
    ensures
        !state.moderates(),
        state.sends() == state.send_scope,
{
}

/// Where no channel is monitored nobody is its owner; whoever owns a channel is its broadcaster.
pub proof fn owners_are_broadcasters(user_id: Seq<char>, broadcaster_id: Seq<char>, moderated: Tree)
    ensures
        twitch_roles(user_id, broadcaster_id, moderated).is_owner ==> user_id == broadcaster_id
            && broadcaster_id.len() > 0,
{
}

// ── Laws of what is asked and answered ────────────────────────────────

/// The text at the front of a list is that of its first element.
pub proof fn first_element_is_read(
    doc: Tree,
    list: Seq<char>,
    key: Seq<char>,
    items: Seq<Tree>,
    s: Seq<char>,
)
    requires
        json::field(doc, list) == Some(Tree::Array(items)),
    ensures
        items.len() > 0 && json::field(items[0], key) == Some(Tree::Text(s)) ==> first_text(
            doc,
            list,
            key,
        ) == s,
        items.len() == 0 ==> first_text(doc, list, key).len() == 0,
{
}

/// A Twitch user is a moderator exactly where the broadcaster is among the channels they moderate,
/// the owner exactly where they are the broadcaster, and nothing else on the word of Twitch.
pub proof fn twitch_roles_follow_the_lists(
    user_id: Seq<char>,
    broadcaster_id: Seq<char>,
    moderated: Tree,
    items: Seq<Tree>,
)
    ensures
        ({
            let r = twitch_roles(user_id, broadcaster_id, moderated);
            &&& json::field(moderated, "data"@) == Some(Tree::Array(items)) ==> (r.is_moderator
                <==> exists|i: int|
                0 <= i < items.len() && json::field(#[trigger] items[i], "broadcaster_id"@) == Some(
                    Tree::Text(broadcaster_id),
                ))
            &&& json::field(moderated, "data"@) is None ==> !r.is_moderator
            &&& r.is_owner <==> broadcaster_id.len() > 0 && user_id == broadcaster_id
            &&& !r.is_sponsor && !r.is_admin
        }),
{
    let r = twitch_roles(user_id, broadcaster_id, moderated);
    if json::field(moderated, "data"@) == Some(Tree::Array(items)) {
        if r.is_moderator {
            let i = choose|i: int|
                0 <= i < items.len() && json::text_field(#[trigger] items[i], "broadcaster_id"@)
                    == Some(broadcaster_id);
            assert(json::field(items[i], "broadcaster_id"@) == Some(Tree::Text(broadcaster_id)));
        }
        if exists|i: int|
            0 <= i < items.len() && json::field(#[trigger] items[i], "broadcaster_id"@) == Some(
                Tree::Text(broadcaster_id),
            ) {
            let i = choose|i: int|
                0 <= i < items.len() && json::field(#[trigger] items[i], "broadcaster_id"@) == Some(
                    Tree::Text(broadcaster_id),
                );
            assert(json::text_field(items[i], "broadcaster_id"@) == Some(broadcaster_id));
        }
    }
}

/// Whom the public API of Kick names is who the operator is; what they entered counts only where it
/// names nobody.
pub proof fn api_name_comes_first(
    doc: Tree,
    items: Seq<Tree>,
    name: Seq<char>,
    entered: Seq<char>,
)
    requires
        json::field(doc, "data"@) == Some(Tree::Array(items)),
        items.len() > 0,
        json::field(items[0], "username"@) == Some(Tree::Text(name)),
    ensures
        name.len() > 0 ==> kick_handle(Some(doc), entered) == name,
        name.len() == 0 ==> kick_handle(Some(doc), entered) == entered,
        kick_handle(None, entered) == entered,
{
    first_element_is_read(doc, "data"@, "username"@, items, name);
}

/// A channel is called by its custom URL without the signs at its front, and by its title where it
/// has no custom URL.
pub proof fn channels_are_called_by_their_url(
    me: Tree,
    items: Seq<Tree>,
    snippet: Tree,
    name: Seq<char>,
)
    requires
        json::field(me, "items"@) == Some(Tree::Array(items)),
        items.len() > 0,
        json::field(items[0], "snippet"@) == Some(snippet),
        name.len() > 0 ==> name[0] != '@',
    ensures
        json::field(snippet, "customUrl"@) == Some(Tree::Text(seq!['@'] + name)) ==> channel_name(me)
            == name,
        json::field(snippet, "customUrl"@) == Some(Tree::Text(name)) ==> channel_name(me) == name,
        json::field(snippet, "customUrl"@) is None && json::field(snippet, "title"@) == Some(
            Tree::Text(name),
        ) ==> channel_name(me) == name,
{
    reveal_strlit("@");
    assert("@"@ =~= seq!['@']);
    text::copies_at_the_front_go("@"@, name);
    if text::has_prefix(name, "@"@) {
        assert(name.subrange(0, 1)[0] == name[0]);
    }
}

/// What Kick is told to turn a code into a token carries each thing under its own name, and the
/// verifier that belongs to the challenge that was sent before.
pub proof fn kick_is_told_everything(
    client_id: Seq<char>,
    client_secret: Seq<char>,
    code: Seq<char>,
    verifier: Seq<char>,
)
    ensures
        ({
            let f = kick_form(client_id, client_secret, code, verifier);
            &&& tokens::lookup(f, "client_id"@) == Some(client_id)
            &&& tokens::lookup(f, "client_secret"@) == Some(client_secret)
            &&& tokens::lookup(f, "code"@) == Some(code)
            &&& tokens::lookup(f, "code_verifier"@) == Some(verifier)
            &&& tokens::lookup(f, "redirect_uri"@) == Some("http://localhost:3000"@)
            &&& tokens::lookup(f, "grant_type"@) == Some("authorization_code"@)
        }),
{
    lemma_form_names();
    let f = kick_form(client_id, client_secret, code, verifier);
    assert(tokens::distinct_keys(f));
    tokens::meanings_are_found(f, 0, "code"@);
    tokens::meanings_are_found(f, 1, "code"@);
    tokens::meanings_are_found(f, 2, "code"@);
    tokens::meanings_are_found(f, 3, "code"@);
    tokens::meanings_are_found(f, 4, "code"@);
    tokens::meanings_are_found(f, 5, "code"@);
}

/// What Google is told to turn a code into a token carries each thing under its own name.
pub proof fn google_is_told_everything(
    client_id: Seq<char>,
    client_secret: Seq<char>,
    code: Seq<char>,
)
    ensures
        ({
            let f = youtube_form(client_id, client_secret, code);
            &&& tokens::lookup(f, "client_id"@) == Some(client_id)
            &&& tokens::lookup(f, "client_secret"@) == Some(client_secret)
            &&& tokens::lookup(f, "code"@) == Some(code)
            &&& tokens::lookup(f, "redirect_uri"@) == Some("http://localhost:3000"@)
            &&& tokens::lookup(f, "grant_type"@) == Some("authorization_code"@)
        }),
{
    lemma_form_names();
    let f = youtube_form(client_id, client_secret, code);
    assert(tokens::distinct_keys(f));
    tokens::meanings_are_found(f, 0, "code"@);
    tokens::meanings_are_found(f, 1, "code"@);
    tokens::meanings_are_found(f, 2, "code"@);
    tokens::meanings_are_found(f, 3, "code"@);
    tokens::meanings_are_found(f, 4, "code"@);
}

proof fn lemma_form_names()
    ensures
        "grant_type"@.len() == 10 && "grant_type"@[0] == 'g',
        "client_id"@.len() == 9,
        "client_secret"@.len() == 13 && "client_secret"@[1] == 'l',
        "code"@.len() == 4,
        "redirect_uri"@.len() == 12,
        "code_verifier"@.len() == 13 && "code_verifier"@[1] == 'o',
{
    reveal_strlit("grant_type");
    reveal_strlit("client_id");
    reveal_strlit("client_secret");
    reveal_strlit("code");
    reveal_strlit("redirect_uri");
    reveal_strlit("code_verifier");
}

/// A text that ends in `end` is something and `end`.
spec fn ends_in(s: Seq<char>, end: Seq<char>) -> bool {
    s.len() >= end.len() && s.skip(s.len() - end.len()) == end
}

proof fn lemma_field_in_url(a: Seq<char>, head: Seq<char>, end: Seq<char>, val: Seq<char>, b: Seq<char>)
    requires
        ends_in(head, end),
    ensures
        text::has_sub(a + head + val + b, end + val),
{
    let start = a + head.take(head.len() - end.len());
    assert(head =~= head.take(head.len() - end.len()) + end);
    assert(a + head + val + b =~= start + (end + val) + b);
    text::middle_is_found(start, end + val, b);
}

proof fn lemma_twitch_url_parts()
    ensures
        ends_in("https://id.twitch.tv/oauth2/authorize?client_id="@, "?client_id="@),
        ends_in("&response_type=token&scope="@, "&scope="@),
        text::has_sub("user:read+chat:read+chat:edit"@, "chat:edit"@),
{
    reveal_strlit("https://id.twitch.tv/oauth2/authorize?client_id=");
    reveal_strlit("?client_id=");
    reveal_strlit("&response_type=token&scope=");
    reveal_strlit("&scope=");
    reveal_strlit("user:read+chat:read+chat:edit");
    reveal_strlit("chat:edit");
    let h = "https://id.twitch.tv/oauth2/authorize?client_id="@;
    let r = "&response_type=token&scope="@;
    let s = "user:read+chat:read+chat:edit"@;
    assert(h.skip(h.len() - 11) =~= "?client_id="@);
    assert(r.skip(r.len() - 7) =~= "&scope="@);
    assert(s.subrange(20, 29) =~= "chat:edit"@);
    assert(text::matches_at(s, "chat:edit"@, 20));
}

/// The login page of Twitch is asked on behalf of this client, is told where to come back to, and
/// is asked for the permission to send that is looked for in its answer.
pub proof fn twitch_page_is_asked_in_full(client_id: Seq<char>)
    ensures
        text::has_sub(twitch_url(client_id), "?client_id="@ + client_id),
        text::has_sub(twitch_url(client_id), "&redirect_uri="@ + "http://localhost:3000"@),
        text::has_sub(
            twitch_url(client_id),
            "&scope="@ + "user:read+chat:read+chat:edit"@,
        ),
        text::has_sub("user:read+chat:read+chat:edit"@, "chat:edit"@),
{
    lemma_twitch_url_parts();
    let none = Seq::<char>::empty();
    let url = twitch_url(client_id);
    let host = "https://id.twitch.tv/oauth2/authorize?client_id="@;
    let back = "&redirect_uri="@;
    let home = "http://localhost:3000"@;
    let mid = "&response_type=token&scope="@;
    let scope = "user:read+chat:read+chat:edit"@;
    assert(ends_in(back, back)) by {
        assert(back.skip(0) =~= back);
    }
    assert(url =~= none + host + client_id + (back + home + mid + scope));
    lemma_field_in_url(none, host, "?client_id="@, client_id, back + home + mid + scope);
    assert(url =~= (host + client_id) + back + home + (mid + scope));
    lemma_field_in_url(host + client_id, back, back, home, mid + scope);
    assert(url =~= (host + client_id + back + home) + mid + scope + none);
    lemma_field_in_url(host + client_id + back + home, mid, "&scope="@, scope, none);
}

proof fn lemma_kick_url_parts()
    ensures
        ends_in(
            "https://id.kick.com/oauth/authorize?response_type=code&client_id="@,
            "&client_id="@,
        ),
        ends_in("&code_challenge_method=S256&state="@, "&state="@),
        text::has_sub("user:read+chat:write+moderation:ban"@, "chat:write"@),
        text::has_sub("user:read+chat:write+moderation:ban"@, "moderation:ban"@),
{
    reveal_strlit("https://id.kick.com/oauth/authorize?response_type=code&client_id=");
    reveal_strlit("&client_id=");
    reveal_strlit("&code_challenge_method=S256&state=");
    reveal_strlit("&state=");
    reveal_strlit("user:read+chat:write+moderation:ban");
    reveal_strlit("chat:write");
    reveal_strlit("moderation:ban");
    let h = "https://id.kick.com/oauth/authorize?response_type=code&client_id="@;
    let m = "&code_challenge_method=S256&state="@;
    let s = "user:read+chat:write+moderation:ban"@;
    assert(h.skip(h.len() - 11) =~= "&client_id="@);
    assert(m.skip(m.len() - 7) =~= "&state="@);
    assert(s.subrange(10, 20) =~= "chat:write"@);
    assert(text::matches_at(s, "chat:write"@, 10));
    assert(s.subrange(21, 35) =~= "moderation:ban"@);
    assert(text::matches_at(s, "moderation:ban"@, 21));
}

/// The login page of Kick is asked on behalf of this client, is told where to come back to, the
/// challenge and the state, and is asked for the permissions that are looked for in its answer.
pub proof fn kick_page_is_asked_in_full(
    client_id: Seq<char>,
    challenge: Seq<char>,
    state: Seq<char>,
)
    ensures
        ({
            let url = kick_url(client_id, challenge, state);
            &&& text::has_sub(url, "&client_id="@ + client_id)
            &&& text::has_sub(url, "&redirect_uri="@ + "http://localhost:3000"@)
            &&& text::has_sub(url, "&scope="@ + "user:read+chat:write+moderation:ban"@)
            &&& text::has_sub(url, "&code_challenge="@ + challenge)
            &&& text::has_sub(url, "&state="@ + state)
        }),
        text::has_sub("user:read+chat:write+moderation:ban"@, "chat:write"@),
        text::has_sub("user:read+chat:write+moderation:ban"@, "moderation:ban"@),
{
    lemma_kick_url_parts();
    let none = Seq::<char>::empty();
    let url = kick_url(client_id, challenge, state);
    let host = "https://id.kick.com/oauth/authorize?response_type=code&client_id="@;
    let back = "&redirect_uri="@;
    let home = "http://localhost:3000"@;
    let asks = "&scope="@;
    let scope = "user:read+chat:write+moderation:ban"@;
    let proves = "&code_challenge="@;
    let last = "&code_challenge_method=S256&state="@;
    assert(ends_in(back, back)) by {
        assert(back.skip(0) =~= back);
    }
    assert(ends_in(asks, asks)) by {
        assert(asks.skip(0) =~= asks);
    }
    assert(ends_in(proves, proves)) by {
        assert(proves.skip(0) =~= proves);
    }
    let b4 = last + state;
    let b3 = proves + challenge + b4;
    let b2 = asks + scope + b3;
    let b1 = back + home + b2;
    let a1 = host + client_id;
    let a2 = a1 + back + home;
    let a3 = a2 + asks + scope;
    let a4 = a3 + proves + challenge;
    assert(url =~= none + host + client_id + b1);
    lemma_field_in_url(none, host, "&client_id="@, client_id, b1);
    assert(url =~= a1 + back + home + b2);
    lemma_field_in_url(a1, back, back, home, b2);
    assert(url =~= a2 + asks + scope + b3);
    lemma_field_in_url(a2, asks, asks, scope, b3);
    assert(url =~= a3 + proves + challenge + b4);
    lemma_field_in_url(a3, proves, proves, challenge, b4);
    assert(url =~= a4 + last + state + none);
    lemma_field_in_url(a4, last, "&state="@, state, none);
}

proof fn lemma_youtube_url_parts()
    ensures
        ends_in("https://accounts.google.com/o/oauth2/v2/auth?client_id="@, "?client_id="@),
        ends_in("&response_type=code&scope="@, "&scope="@),
{
    reveal_strlit("https://accounts.google.com/o/oauth2/v2/auth?client_id=");
    reveal_strlit("?client_id=");
    reveal_strlit("&response_type=code&scope=");
    reveal_strlit("&scope=");
    let h = "https://accounts.google.com/o/oauth2/v2/auth?client_id="@;
    let r = "&response_type=code&scope="@;
    assert(h.skip(h.len() - 11) =~= "?client_id="@);
    assert(r.skip(r.len() - 7) =~= "&scope="@);
}

/// The login page of Google is asked on behalf of this client and is told where to come back to.
pub proof fn google_page_is_asked_in_full(client_id: Seq<char>)
    ensures
        text::has_sub(youtube_url(client_id), "?client_id="@ + client_id),
        text::has_sub(youtube_url(client_id), "&redirect_uri="@ + "http://localhost:3000"@),
        text::has_sub(
            youtube_url(client_id),
            "&scope="@ + "https://www.googleapis.com/auth/youtube.force-ssl"@,
        ),
{
    lemma_youtube_url_parts();
    let none = Seq::<char>::empty();
    let url = youtube_url(client_id);
    let host = "https://accounts.google.com/o/oauth2/v2/auth?client_id="@;
    let back = "&redirect_uri="@;
    let home = "http://localhost:3000"@;
    let mid = "&response_type=code&scope="@;
    let scope = "https://www.googleapis.com/auth/youtube.force-ssl"@;
    let end = "&access_type=offline"@;
    assert(ends_in(back, back)) by {
        assert(back.skip(0) =~= back);
    }
    assert(url =~= none + host + client_id + (back + home + mid + scope + end));
    lemma_field_in_url(none, host, "?client_id="@, client_id, back + home + mid + scope + end);
    assert(url =~= (host + client_id) + back + home + (mid + scope + end));
    lemma_field_in_url(host + client_id, back, back, home, mid + scope + end);
    assert(url =~= (host + client_id + back + home) + mid + scope + end);
    lemma_field_in_url(host + client_id + back + home, mid, "&scope="@, scope, end);
}

/// Scopes that are granted one behind the other are each found among the words of the answer, and
/// no others are.
pub proof fn granted_scopes_are_found(scopes: Seq<Seq<char>>, scope: Seq<char>)
    requires
        forall|i: int|
            0 <= i < scopes.len() ==> (#[trigger] scopes[i]).len() > 0 && forall|j: int|
                0 <= j < scopes[i].len() ==> !text::is_white(#[trigger] scopes[i][j]),
    ensures
        text::words_of(text::joined(scopes, seq![' '])).contains(scope) <==> scopes.contains(scope),
{
    text::joined_words_come_apart(scopes);
}

/// A platform is called by its name, and no two are called alike.
pub proof fn platforms_have_their_names(p: Platform, q: Platform)
    ensures
        p.called() == "twitch"@ <==> p == Platform::Twitch,
        p.called() == "kick"@ <==> p == Platform::Kick,
        p.called() == "youtube"@ <==> p == Platform::Youtube,
        p.called() == q.called() ==> p == q,
{
    reveal_strlit("twitch");
    reveal_strlit("kick");
    reveal_strlit("youtube");
    assert("twitch"@.len() == 6 && "kick"@.len() == 4 && "youtube"@.len() == 7);
}

/// A Kick login needs both of its credentials; where either is missing or empty it does not begin.
pub proof fn kick_needs_both_credentials(creds: tokens::Entries, id: Seq<char>, secret: Seq<char>)
    ensures
        tokens::lookup(creds, "client_id"@) is None ==> !kick_ready(creds),
        tokens::lookup(creds, "client_secret"@) is None ==> !kick_ready(creds),
        tokens::lookup(creds, "client_id"@) == Some(id) && tokens::lookup(creds, "client_secret"@)
            == Some(secret) ==> (kick_ready(creds) <==> id.len() > 0 && secret.len() > 0),
{
}

/// A request to Twitch carries the token and the client, each in its own header.
pub proof fn twitch_knows_who_asks(token: Seq<char>, client_id: Seq<char>)
    ensures
        tokens::lookup(twitch_headers(token, client_id), "Authorization"@) == Some(
            "Bearer "@ + token,
        ),
        tokens::lookup(twitch_headers(token, client_id), "Client-Id"@) == Some(client_id),
{
    reveal_strlit("Authorization");
    reveal_strlit("Client-Id");
    assert("Authorization"@.len() == 13 && "Client-Id"@.len() == 9);
    let h = twitch_headers(token, client_id);
    tokens::meanings_are_found(h, 0, "Client-Id"@);
    tokens::meanings_are_found(h, 1, "Client-Id"@);
}

/// A request that only asks carries no form, and one with a form carries nothing else.
pub proof fn requests_carry_what_they_are_given(
    url: Seq<char>,
    query: tokens::Entries,
    headers: tokens::Entries,
    form: tokens::Entries,
)
    ensures
        ({
            let g = getting(url, query, headers);
            let p = posting(url, form);
            &&& !g.post && g.url == url && g.query == query && g.headers == headers && g.form.len()
                == 0
            &&& p.post && p.url == url && p.form == form && p.query.len() == 0 && p.headers.len()
                == 0
        }),
{
}

/// What went wrong is told with what was asked for and with the words of the failure; a request that
/// was not answered is told from an answer that could not be read.
pub proof fn failures_are_told(what: Seq<char>, e: String)
    ensures
        ({
            let sent = failure_text(what, HttpFailure::Send(e));
            let read = failure_text(what, HttpFailure::Parse(e));
            &&& text::has_prefix(sent, what) && text::has_sub(sent, e@)
            &&& text::has_prefix(read, what) && text::has_sub(read, e@)
            &&& sent != read
        }),
{
    let none = Seq::<char>::empty();
    let sent = failure_text(what, HttpFailure::Send(e));
    let read = failure_text(what, HttpFailure::Parse(e));
    assert(sent.subrange(0, what.len() as int) =~= what);
    assert(read.subrange(0, what.len() as int) =~= what);
    assert(sent =~= (what + " failed: "@) + e@ + none);
    text::middle_is_found(what + " failed: "@, e@, none);
    assert(read =~= (what + " parse failed: "@) + e@ + none);
    text::middle_is_found(what + " parse failed: "@, e@, none);
    reveal_strlit(" failed: ");
    reveal_strlit(" parse failed: ");
    assert(sent[what.len() as int + 1] == 'f');
    assert(read[what.len() as int + 1] == 'p');
}

/// An operator without a name is told which platform could not name them.
pub proof fn nameless_logins_say_where(platform: Seq<char>)
    ensures
        text::has_sub(nameless(platform), platform),
{
    text::middle_is_found(
        "could not determine your "@,
        platform,
        " handle — log in again and enter your handle"@,
    );
}

} // verus!
