use term_chat::config::ChatConfig;
use term_chat::json;
use term_chat::json::Json;
use term_chat::login::{
    extract_value, html_response, load_or_empty, LoginState, RedirectReply, RedirectWait, Roles,
    ERROR_HTML, LANDING_HTML, OK_HTML, REDIRECT_ERROR, REDIRECT_TIMEOUT, REDIRECT_URI,
};
use term_chat::oauth::{
    identified, login_and_verify, login_kick, login_twitch, login_youtube, HttpFailure, HttpRequest,
    KickLogin, Platform, KICK_UNSET, TWITCH_UNSET, YOUTUBE_UNSET,
};
use term_chat::pkce::{challenge, pkce_pair, random_string, random_string_from, CHARS};
use term_chat::tokens::TokenMap;

fn roles(sponsor: bool, moderator: bool, admin: bool, owner: bool) -> Roles {
    Roles { is_sponsor: sponsor, is_moderator: moderator, is_admin: admin, is_owner: owner }
}

fn creds(pairs: &[(&str, &str)]) -> TokenMap {
    let mut m = TokenMap::new();
    for (k, v) in pairs {
        m.insert(k.to_string(), v.to_string());
    }
    m
}

fn doc(s: &str) -> Json {
    json::parse(s.as_bytes()).unwrap()
}

fn list(pairs: &[(&str, &str)]) -> Vec<(String, String)> {
    pairs.iter().map(|(k, v)| (k.to_string(), v.to_string())).collect()
}

fn is_get(q: &HttpRequest, url: &str, query: &[(&str, &str)], headers: &[(&str, &str)]) {
    assert!(!q.post);
    assert_eq!(q.url, url);
    assert_eq!(q.query, list(query));
    assert_eq!(q.headers, list(headers));
    assert!(q.form.is_empty());
}

#[test]
fn roles_have_labels_and_rights() {
    assert_eq!(roles(true, true, true, true).label(), "OWNER");
    assert_eq!(roles(true, true, true, false).label(), "ADMIN");
    assert_eq!(roles(true, true, false, false).label(), "MOD");
    assert_eq!(roles(true, false, false, false).label(), "SUB");
    assert_eq!(Roles::default().label(), "user");
    assert!(!roles(true, false, false, false).can_moderate());
    assert!(roles(false, true, false, false).can_moderate());
    assert!(roles(false, false, true, false).can_moderate());
    assert!(roles(false, false, false, true).can_moderate());
}

#[test]
fn moderators_may_send_and_nobody_may_nothing() {
    let mut state = load_or_empty(None);
    assert_eq!((state.platform.as_str(), state.handle.as_str(), state.token.as_str()), ("", "", ""));
    assert!(!state.can_send() && !state.can_moderate());
    state.effective = roles(false, true, false, false);
    assert!(state.can_send() && state.can_moderate());
    state.effective = Roles::default();
    state.verified = roles(false, true, false, true);
    assert!(!state.can_moderate());
    state.send_scope = true;
    assert!(state.can_send() && !state.can_moderate());
    assert!(load_or_empty(Some(state)).can_send());
}

#[test]
fn values_are_cut_from_requests() {
    let line = "GET /callback?code=abc&state=1 HTTP/1.1";
    assert_eq!(extract_value(line, "code=").as_deref(), Some("abc"));
    assert_eq!(extract_value(line, "token="), None);
    assert_eq!(extract_value("GET /?token= HTTP/1.1", "token="), None);
    assert_eq!(extract_value("GET /?token=&code=1", "token="), None);
    assert_eq!(extract_value("GET /?token=t", "token=").as_deref(), Some("t"));
    // Only a parameter directly behind the question mark counts.
    assert_eq!(extract_value("GET /?state=1&code=abc HTTP/1.1", "code="), None);
}

#[test]
fn pages_state_their_length() {
    for body in [OK_HTML, ERROR_HTML, LANDING_HTML, "ü"] {
        let want = format!(
            "HTTP/1.1 200 OK\r\nContent-Type: text/html; charset=utf-8\r\nContent-Length: {}\r\nConnection: close\r\n\r\n{}",
            body.len(),
            body
        );
        assert_eq!(html_response(body), want);
    }
}

#[test]
fn redirects_are_waited_for() {
    let mut wait = RedirectWait::new();
    assert!(matches!(wait.on_request("GET /?error=access_denied HTTP/1.1"), RedirectReply::Failed));
    match wait.on_request("GET /?code=42 HTTP/1.1") {
        RedirectReply::Captured(s) => assert_eq!(s, "42"),
        _ => panic!("not captured"),
    }
    assert!(matches!(wait.on_request("GET / HTTP/1.1"), RedirectReply::Forward));
    // What follows the forwarding page can only bring a token.
    assert!(matches!(wait.on_request("GET /?code=42 HTTP/1.1"), RedirectReply::Ignored));
    assert!(matches!(wait.on_request("GET / HTTP/1.1"), RedirectReply::Forward));
    match wait.on_request("GET /callback?token=t%20k HTTP/1.1") {
        RedirectReply::Captured(s) => assert_eq!(s, "t%20k"),
        _ => panic!("not captured"),
    }
    assert_eq!(REDIRECT_ERROR, "OAuth redirect contained an error");
}

#[test]
fn redirect_wait_ends_after_ten_rounds() {
    let mut wait = RedirectWait::new();
    for _ in 0..9 {
        assert!(matches!(wait.on_request("GET / HTTP/1.1"), RedirectReply::Forward));
        assert!(matches!(wait.on_request("GET /favicon.ico HTTP/1.1"), RedirectReply::Ignored));
    }
    assert!(matches!(wait.on_request("GET / HTTP/1.1"), RedirectReply::Forward));
    assert!(matches!(wait.on_request("GET /favicon.ico HTTP/1.1"), RedirectReply::TimedOut));
    assert_eq!(REDIRECT_TIMEOUT, "timed out waiting for the OAuth redirect");
}

#[test]
fn challenge_of_a_known_verifier() {
    assert_eq!(
        challenge("dBjftJeZ4CVP-mB92K27uhbUJU1p1r_wW1gFWFOEjXk"),
        "E9Melhoa2OwvFrEMTJguCHaoeK1t8URWbuGJSstw-cM"
    );
}

#[test]
fn draws_follow_the_generator() {
    let mut seed = 12_345u64;
    let chars: Vec<char> = CHARS.chars().collect();
    let mut want = String::new();
    for _ in 0..40 {
        seed = seed.wrapping_mul(6364136223846793005).wrapping_add(1442695040888963407);
        want.push(chars[(seed >> 33) as usize % chars.len()]);
    }
    assert_eq!(random_string_from(12_345, 40), want);
    assert_eq!(random_string(16).len(), 16);
    assert!(random_string(200).chars().all(|c| CHARS.contains(c)));
    let (verifier, code) = pkce_pair();
    assert_eq!(verifier.len(), 64);
    assert_eq!(code, challenge(&verifier));
}

#[test]
fn twitch_login_runs_through() {
    let l = login_twitch(&creds(&[("client_id", "cid")]), "chan").unwrap();
    assert_eq!(
        l.auth_url(),
        format!(
            "https://id.twitch.tv/oauth2/authorize?client_id=cid&redirect_uri={}&response_type=token&scope=user:read+chat:read+chat:edit",
            REDIRECT_URI
        )
    );
    let t = l.captured("oauth:tok");
    assert_eq!(t.token, "tok");
    is_get(&t.request(), "https://id.twitch.tv/oauth2/validate", &[], &[("Authorization", "OAuth tok")]);
    let u = t
        .validated(Ok(doc(r#"{"login":"ann","user_id":"7","scopes":["chat:read","chat:edit"]}"#)))
        .unwrap();
    let bearer = [("Authorization", "Bearer tok"), ("Client-Id", "cid")];
    is_get(&u.request().unwrap(), "https://api.twitch.tv/helix/users", &[("login", "chan")], &bearer);
    let c = u.resolved(Some(Ok(doc(r#"{"data":[{"id":"7"}]}"#)))).unwrap();
    is_get(&c.request(), "https://api.twitch.tv/helix/moderation/channels", &[], &bearer);
    let state = c.finished(Ok(doc(r#"{"data":[{"broadcaster_id":"9"},{"broadcaster_id":"7"}]}"#))).unwrap();
    assert_eq!((state.platform.as_str(), state.handle.as_str(), state.token.as_str()), ("twitch", "ann", "tok"));
    assert!(state.send_scope);
    assert_eq!(state.verified, roles(false, true, false, true));
    assert_eq!(state.effective, Roles::default());
}

#[test]
fn twitch_login_without_a_channel_makes_nobody_owner() {
    let t = login_twitch(&creds(&[("client_id", "cid")]), "").unwrap().captured("tok");
    let u = t.validated(Ok(doc(r#"{"login":"ann","scopes":["chat:read"]}"#))).unwrap();
    assert!(u.request().is_none());
    let state = u.resolved(None).unwrap().finished(Ok(doc(r#"{"data":[]}"#))).unwrap();
    assert!(!state.send_scope);
    assert_eq!(state.verified, Roles::default());
}

#[test]
fn twitch_login_fails_with_a_word_on_why() {
    assert_eq!(login_twitch(&TokenMap::new(), "c").unwrap_err(), TWITCH_UNSET);
    let token = || login_twitch(&creds(&[("client_id", "cid")]), "chan").unwrap().captured("tok");
    let user = || token().validated(Ok(doc("{}"))).unwrap();
    let send = || HttpFailure::Send("down".to_string());
    let parse = || HttpFailure::Parse("bad".to_string());
    assert_eq!(token().validated(Err(send())).unwrap_err(), "twitch validate failed: down");
    assert_eq!(token().validated(Err(parse())).unwrap_err(), "twitch validate parse failed: bad");
    assert_eq!(user().resolved(Some(Err(send()))).unwrap_err(), "twitch users failed: down");
    assert_eq!(user().resolved(Some(Err(parse()))).unwrap_err(), "twitch users parse failed: bad");
    let channel = user().resolved(Some(Ok(doc("{}")))).unwrap();
    assert_eq!(channel.broadcaster_id, "");
    assert_eq!(channel.finished(Err(send())).unwrap_err(), "twitch moderated channels failed: down");
}

#[test]
fn kick_login_runs_through() {
    let l = login_kick(&creds(&[("client_id", "cid"), ("client_secret", "sec")]), "").unwrap();
    assert_eq!(l.challenge, challenge(&l.verifier));
    assert_eq!((l.verifier.len(), l.state.len()), (64, 16));
    assert_eq!(
        l.auth_url(),
        format!(
            "https://id.kick.com/oauth/authorize?response_type=code&client_id=cid&redirect_uri={}&scope=user:read+chat:write+moderation:ban&code_challenge={}&code_challenge_method=S256&state={}",
            REDIRECT_URI, l.challenge, l.state
        )
    );
    let q = l.request("code");
    assert!(q.post);
    assert_eq!(q.url, "https://id.kick.com/oauth/token");
    assert_eq!(
        q.form,
        list(&[
            ("grant_type", "authorization_code"),
            ("client_id", "cid"),
            ("client_secret", "sec"),
            ("code", "code"),
            ("redirect_uri", REDIRECT_URI),
            ("code_verifier", &l.verifier),
        ])
    );
    let t = l.exchanged(Ok(doc(r#"{"access_token":"at","scope":"user:read chat:write  moderation:ban"}"#))).unwrap();
    is_get(
        &t.request(),
        "https://api.kick.com/public/v1/users",
        &[],
        &[("Authorization", "Bearer at")],
    );
    let state = t.finished(Some(doc(r#"{"data":[{"username":"bob"}]}"#)));
    assert_eq!((state.platform.as_str(), state.handle.as_str(), state.token.as_str()), ("kick", "bob", "at"));
    assert!(state.send_scope);
    assert_eq!(state.verified, roles(false, true, false, false));
}

fn kick(handle: &str) -> KickLogin {
    login_kick(&creds(&[("client_id", "cid"), ("client_secret", "sec")]), handle).unwrap()
}

#[test]
fn kick_login_falls_back_to_the_entered_handle() {
    let token = |entered: &str| kick(entered).exchanged(Ok(doc(r#"{"access_token":"at"}"#))).unwrap();
    let named = Some(doc(r#"{"data":[{"username":"real"}]}"#));
    assert_eq!(token("typed").finished(named).handle, "real");
    let state = token("typed").finished(None);
    assert_eq!(state.handle, "typed");
    assert!(!state.send_scope && !state.verified.is_moderator);
    assert_eq!(token("typed").finished(Some(doc("{}"))).handle, "typed");
    assert_eq!(token("typed").finished(Some(doc(r#"{"data":[{"username":""}]}"#))).handle, "typed");
    assert_eq!(token("").finished(None).handle, "");
}

#[test]
fn kick_login_fails_with_a_word_on_why() {
    assert_eq!(login_kick(&creds(&[("client_id", "c")]), "h").unwrap_err(), KICK_UNSET);
    assert_eq!(login_kick(&creds(&[("client_secret", "c")]), "h").unwrap_err(), KICK_UNSET);
    assert_eq!(
        kick("h").exchanged(Err(HttpFailure::Send("down".to_string()))).unwrap_err(),
        "kick token failed: down"
    );
    assert_eq!(
        kick("h").exchanged(Err(HttpFailure::Parse("bad".to_string()))).unwrap_err(),
        "kick token parse failed: bad"
    );
    let answer: serde_json::Value = serde_json::from_str(r#"{"error":"no"}"#).unwrap();
    assert_eq!(
        kick("h").exchanged(Ok(json::from_value(answer.clone()))).unwrap_err(),
        format!("kick token response missing access_token: {:?}", answer)
    );
}

fn google() -> ChatConfig {
    ChatConfig {
        google_oauth_client_id: "gid".to_string(),
        google_oauth_client_secret: "gsec".to_string(),
        ..ChatConfig::default()
    }
}

#[test]
fn youtube_login_runs_through() {
    let l = login_youtube(&google()).unwrap();
    assert_eq!(
        l.auth_url(),
        format!(
            "https://accounts.google.com/o/oauth2/v2/auth?client_id=gid&redirect_uri={}&response_type=code&scope=https://www.googleapis.com/auth/youtube.force-ssl&access_type=offline",
            REDIRECT_URI
        )
    );
    let q = l.request("code");
    assert!(q.post);
    assert_eq!(q.url, "https://oauth2.googleapis.com/token");
    assert_eq!(
        q.form,
        list(&[
            ("code", "code"),
            ("client_id", "gid"),
            ("client_secret", "gsec"),
            ("redirect_uri", REDIRECT_URI),
            ("grant_type", "authorization_code"),
        ])
    );
    let t = l.exchanged(Ok(doc(r#"{"access_token":"at"}"#))).unwrap();
    is_get(
        &t.request(),
        "https://www.googleapis.com/youtube/v3/channels",
        &[("part", "id,snippet"), ("mine", "true")],
        &[("Authorization", "Bearer at")],
    );
    let u = t
        .identified(Ok(doc(r#"{"items":[{"id":"UC1","snippet":{"customUrl":"@@dee","title":"Dee"}}]}"#)))
        .unwrap();
    assert_eq!((u.channel.as_str(), u.name.as_str()), ("UC1", "dee"));
    let state = u.finished(Ok(creds(&[("channel_id", "UC1")]))).unwrap();
    assert_eq!((state.platform.as_str(), state.handle.as_str(), state.token.as_str()), ("youtube", "dee", "at"));
    assert!(!state.send_scope);
    assert_eq!(state.verified, roles(false, false, false, true));
}

#[test]
fn youtube_names_fall_back() {
    let user = |s: &str| {
        let t = login_youtube(&google()).unwrap().exchanged(Ok(doc(r#"{"access_token":"at"}"#))).unwrap();
        t.identified(Ok(doc(s))).unwrap()
    };
    let titled = user(r#"{"items":[{"id":"UC1","snippet":{"title":"Dee"}}]}"#);
    let state = titled.finished(Ok(TokenMap::new())).unwrap();
    assert_eq!(state.handle, "Dee");
    assert!(!state.verified.is_owner);
    let bare = user(r#"{"items":[{"id":"UC1"}]}"#);
    assert_eq!(bare.finished(Ok(creds(&[("channel_id", "UC2")]))).unwrap().handle, "UC1");
    assert_eq!(user("{}").finished(Ok(TokenMap::new())).unwrap().handle, "");
}

#[test]
fn youtube_login_fails_with_a_word_on_why() {
    assert_eq!(login_youtube(&ChatConfig::default()).unwrap_err(), YOUTUBE_UNSET);
    let login = || login_youtube(&google()).unwrap();
    let token = || login().exchanged(Ok(doc(r#"{"access_token":"at"}"#))).unwrap();
    let send = || HttpFailure::Send("down".to_string());
    assert_eq!(login().exchanged(Err(send())).unwrap_err(), "google token failed: down");
    assert_eq!(
        login().exchanged(Ok(doc("{}"))).unwrap_err(),
        "google token response missing access_token"
    );
    assert_eq!(token().identified(Err(send())).unwrap_err(), "youtube channels failed: down");
    let user = token().identified(Ok(doc("{}"))).unwrap();
    assert_eq!(user.finished(Err("no adapter".to_string())).unwrap_err(), "no adapter");
}

fn someone(handle: &str) -> LoginState {
    LoginState { platform: "kick".to_string(), handle: handle.to_string(), ..load_or_empty(None) }
}

#[test]
fn logins_need_a_platform_a_name_and_the_engine() {
    assert_eq!(Platform::named("twitch"), Ok(Platform::Twitch));
    assert_eq!(Platform::named("kick"), Ok(Platform::Kick));
    assert_eq!(Platform::named("youtube"), Ok(Platform::Youtube));
    assert_eq!(Platform::named("Twitch"), Err("unknown platform 'Twitch'".to_string()));
    assert_eq!(
        identified(someone(""), "kick").unwrap_err(),
        "could not determine your kick handle — log in again and enter your handle"
    );
    assert_eq!(identified(someone("h"), "kick").unwrap().handle, "h");
    let state = login_and_verify(someone("h"), Ok(roles(false, true, false, false))).unwrap();
    assert!(state.can_moderate());
    assert_eq!(state.verified, Roles::default());
    assert_eq!(login_and_verify(someone("h"), Err("no".to_string())).unwrap_err(), "no");
}
