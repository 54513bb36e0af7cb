use term_chat::audio::{audio_query, playback, AudioFetch, Playback, ATTEMPTS, AUDIO_QUERY};
use term_chat::config::{
    default_image_map_path, default_message_fade_mode, default_min_rank, default_play_audio, ChatConfig,
};
use term_chat::engine::{EngineHandle, ModTarget, Outgoing, QueryResult, QueryWait, SendLevel, CHANNEL_CLOSED, CHAT_VERIFY_QUERY};
use term_chat::login::{load_or_empty, LoginState, Roles};
use term_chat::message::{
    build_message_item, message_item, react, role_badges_of, AudioAction, MessagePostProcess,
    MessagePreProcess, Payload, RawMessage, UserData,
};
use term_chat::time::{Duration, Instant};
use term_chat::tokens::TokenMap;
use term_chat::types::AppStatus;

fn handle() -> EngineHandle {
    EngineHandle::new("auth".to_string(), "term-chat".to_string(), "inst".to_string())
}

fn answer(success: bool, error: &str, blob: &str) -> QueryResult {
    QueryResult {
        query_id: "q".to_string(),
        success,
        error: error.to_string(),
        result_blob: blob.as_bytes().to_vec(),
    }
}

#[test]
fn messages_to_the_engine_are_signed() {
    let c = handle().send_payload(handle().answer_probe());
    assert_eq!(c.version, 1);
    assert_eq!(
        (c.auth_token.as_str(), c.module_name.as_str(), c.module_instance_uuid7.as_str()),
        ("auth", "term-chat", "inst")
    );
    match c.payload {
        Outgoing::AuthVerify { cur_auth } => assert_eq!(cur_auth, "auth"),
        _ => panic!("no answer to the probe"),
    }
    match handle().send_prompt_response("p", true, "why") {
        Outgoing::PromptResponse { prompt_id_uuid7, accepted, reason } => {
            assert_eq!((prompt_id_uuid7.as_str(), accepted, reason.as_str()), ("p", true, "why"))
        }
        _ => panic!("no prompt response"),
    }
    assert!(handle().ack_message("").is_none());
    match handle().ack_message("m") {
        Some(Outgoing::MessageAck { message_uuid7 }) => assert_eq!(message_uuid7, "m"),
        _ => panic!("no ack"),
    }
}

#[test]
fn chat_messages_name_their_actor() {
    match handle().send_message("all", "hi", Some(("twitch", "ann"))) {
        Outgoing::SendToPlatforms { msg, level, module_uuid7, pid, platform, actor_platform, actor_handle, actor_uuid7 } => {
            assert_eq!(
                (msg.as_str(), platform.as_str(), actor_platform.as_str(), actor_handle.as_str()),
                ("hi", "all", "twitch", "ann")
            );
            assert_eq!(level, SendLevel::All);
            assert_eq!((module_uuid7.as_str(), pid.as_str(), actor_uuid7.as_str()), ("", "", ""));
        }
        _ => panic!("no message"),
    }
    match handle().send_message("all", "hi", None) {
        Outgoing::SendToPlatforms { actor_platform, actor_handle, .. } => {
            assert_eq!((actor_platform.as_str(), actor_handle.as_str()), ("", ""))
        }
        _ => panic!("no message"),
    }
}

#[test]
fn queries_wait_ten_seconds() {
    let start = Instant { nanos: 5 };
    let wait = QueryWait::new("q", start);
    match handle().db_query("q", "sql") {
        Outgoing::DatabaseQuery { query_id, sql, params } => {
            assert_eq!((query_id.as_str(), sql.as_str()), ("q", "sql"));
            assert!(params.is_empty());
        }
        _ => panic!("no query"),
    }
    assert_eq!(wait.remaining(start), Ok(Duration::from_secs(10)));
    assert_eq!(wait.remaining(Instant { nanos: 10_000_000_004 }), Ok(Duration { nanos: 1 }));
    let late = "timed out waiting for query response 'q'".to_string();
    assert_eq!(wait.remaining(Instant { nanos: 10_000_000_005 }), Err(late.clone()));
    assert_eq!(wait.timed_out(), late);
    assert!(wait.is_answer(&answer(true, "", "")));
    assert!(!wait.is_answer(&QueryResult { query_id: "other".to_string(), ..answer(true, "", "") }));
    assert_eq!(CHANNEL_CLOSED, "query response channel closed");
    assert_eq!(CHAT_VERIFY_QUERY, "chat_verify_identity");
}

#[test]
fn identities_are_sent_and_roles_come_back() {
    let verified = Roles { is_sponsor: true, is_moderator: false, is_admin: false, is_owner: true };
    let sent: serde_json::Value =
        serde_json::from_str(&handle().verify_identity("kick", "bob", &verified)).unwrap();
    let want: serde_json::Value = serde_json::from_str(
        r#"{"platform":"kick","handle":"bob","verified_roles":{"is_sponsor":true,"is_moderator":false,"is_admin":false,"is_owner":true}}"#,
    )
    .unwrap();
    assert_eq!(sent, want);
    let roles = EngineHandle::verified_roles(&answer(true, "", r#"{"user":{"is_admin":true,"is_owner":1}}"#)).unwrap();
    assert_eq!(roles, Roles { is_admin: true, ..Roles::default() });
    assert_eq!(EngineHandle::verified_roles(&answer(true, "", "{}")).unwrap(), Roles::default());
    assert_eq!(EngineHandle::verified_roles(&answer(false, "denied", "{}")).unwrap_err(), "denied");
    let bad = serde_json::from_str::<serde_json::Value>("{").unwrap_err();
    assert_eq!(
        EngineHandle::verified_roles(&answer(true, "", "{")).unwrap_err(),
        format!("bad verify_identity response: {}", bad)
    );
}

#[test]
fn mod_actions_name_target_and_actor() {
    let actor = LoginState { platform: "twitch".to_string(), handle: "mod".to_string(), ..load_or_empty(None) };
    let sql = |uuid7: Option<&str>, secs: Option<i64>| {
        let target = ModTarget {
            platform: "kick".to_string(),
            handle: "bob".to_string(),
            uuid7: uuid7.map(String::from),
            duration_secs: secs,
        };
        serde_json::from_str::<serde_json::Value>(&handle().mod_action(target, &actor)).unwrap()
    };
    let json = |s: &str| serde_json::from_str::<serde_json::Value>(s).unwrap();
    assert_eq!(
        sql(None, None),
        json(r#"{"platform":"kick","handle":"bob","actor":{"platform":"twitch","handle":"mod"}}"#)
    );
    assert_eq!(
        sql(Some("u"), Some(60)),
        json(r#"{"platform":"kick","handle":"bob","uuid7":"u","duration_secs":60,"actor":{"platform":"twitch","handle":"mod"}}"#)
    );
}

#[test]
fn credentials_are_read_from_the_module_list() {
    let list = EngineHandle::module_list(&answer(
        true,
        "",
        r#"[{"x":1},{"name":"kick-adapter"},{"name":"twitch-adapter","credential_values":{"client_id":"c","n":1}},{"name":"twitch-adapter","credential_values":{"client_id":"later"}}]"#,
    ))
    .unwrap();
    let m = EngineHandle::adapter_credentials(&list, "twitch-adapter").unwrap();
    assert_eq!(m.entries, vec![("client_id".to_string(), "c".to_string())]);
    assert!(EngineHandle::adapter_credentials(&list, "kick-adapter").unwrap().entries.is_empty());
    match EngineHandle::adapter_credentials(&list, "nope") {
        Err(e) => assert_eq!(e, "adapter 'nope' not found in module list"),
        Ok(_) => panic!("found"),
    }
    match EngineHandle::module_list(&answer(false, "denied", "[]")) {
        Err(e) => assert_eq!(e, "denied"),
        Ok(_) => panic!("listed"),
    }
    let bad = serde_json::from_str::<Vec<serde_json::Value>>("{}").unwrap_err();
    match EngineHandle::module_list(&answer(true, "", "{}")) {
        Err(e) => assert_eq!(e, format!("bad module_list: {}", bad)),
        Ok(_) => panic!("listed"),
    }
}

fn user(name: &str, style: &[(&str, &str)]) -> UserData {
    let mut styling = TokenMap::new();
    for (k, v) in style {
        styling.insert(k.to_string(), v.to_string());
    }
    UserData {
        username: name.to_string(),
        is_owner: true,
        is_admin: false,
        is_moderator: true,
        is_sponsor: true,
        styling: Some(styling),
    }
}

fn raw(user_data: Option<UserData>) -> RawMessage {
    RawMessage {
        platform: "twitch".to_string(),
        user_uuid7: "handle".to_string(),
        raw_message: "hello smile".to_string(),
        user_data,
    }
}

fn post(raw_message: Option<RawMessage>, processed: &str, id: &str, audio: &[u8]) -> Payload {
    Payload::MessagePostProcess(MessagePostProcess {
        message_uuid7: id.to_string(),
        raw_message,
        processed_message: processed.to_string(),
        audio: audio.to_vec(),
    })
}

fn pre(raw_message: Option<RawMessage>, id: &str) -> Payload {
    Payload::MessagePreProcess(MessagePreProcess { message_uuid7: id.to_string(), raw_message })
}

#[test]
fn badges_are_listed_highest_first() {
    assert_eq!(role_badges_of(&user("u", &[])), "OWNER MOD SUB");
    let nobody = UserData { is_owner: false, is_moderator: false, is_sponsor: false, ..user("u", &[]) };
    assert_eq!(role_badges_of(&nobody), "");
    assert_eq!(role_badges_of(&UserData { is_admin: true, ..nobody }), "ADMIN");
}

#[test]
fn payloads_become_messages() {
    let now = Instant { nanos: 9 };
    let style = [("color", "#123456"), ("rank", "gold"), ("score", "-4"), ("reprimands", "2")];
    let item = message_item(&post(Some(raw(Some(user("Ann", &style)))), "processed", "m", &[]), &TokenMap::new(), true, "id".to_string(), now).unwrap();
    assert_eq!(item.id, "id");
    assert_eq!(item.username, "Ann");
    assert_eq!(item.name_color, "#123456");
    assert_eq!(item.rank, "gold");
    assert_eq!(item.score, -4);
    assert!(item.reprimanded);
    assert_eq!(item.role_badges, "OWNER MOD SUB");
    assert_eq!(item.platform, "twitch");
    assert_eq!((item.user_handle.as_str(), item.user_uuid7.as_str()), ("handle", "handle"));
    assert_eq!(item.content, "processed");
    assert_eq!((item.image_art, item.image_status), (None, None));
    assert_eq!(item.added_at, now);
}

#[test]
fn missing_parts_of_a_message_are_filled_in() {
    let now = Instant { nanos: 9 };
    let style = [("score", "high"), ("reprimands", "0")];
    let item = build_message_item(&pre(Some(raw(Some(user("", &style)))), "m"), &TokenMap::new(), false, now).unwrap();
    assert_eq!(item.username, "handle");
    assert_eq!(item.content, "hello smile");
    assert_eq!(item.score, 0);
    assert!(!item.reprimanded);
    let item = build_message_item(&post(Some(raw(None)), "", "m", &[]), &TokenMap::new(), false, now).unwrap();
    assert_eq!((item.username.as_str(), item.content.as_str(), item.role_badges.as_str()), ("handle", "hello smile", ""));
    let item = build_message_item(&post(None, "", "m", &[]), &TokenMap::new(), false, now).unwrap();
    assert_eq!((item.username.as_str(), item.content.as_str(), item.platform.as_str()), ("", "", ""));
    assert!(build_message_item(&Payload::Prompt, &TokenMap::new(), false, now).is_none());
    assert!(build_message_item(&Payload::MessageInProcess { message_uuid7: "m".to_string() }, &TokenMap::new(), false, now).is_none());
}

#[test]
fn emoji_are_put_in_if_wanted() {
    let now = Instant { nanos: 0 };
    let mut map = TokenMap::new();
    map.insert("smile".to_string(), "😄".to_string());
    let with = |on: bool| build_message_item(&pre(Some(raw(None)), "m"), &map, on, now).unwrap().content;
    assert_eq!(with(true), "hello 😄");
    assert_eq!(with(false), "hello smile");
}

#[test]
fn ids_are_fresh_uuids() {
    let now = Instant { nanos: 0 };
    let id = || build_message_item(&pre(None, "m"), &TokenMap::new(), false, now).unwrap().id;
    let (a, b) = (id(), id());
    assert_ne!(a, b);
    assert_eq!(a.len(), 36);
    assert_eq!(a.chars().filter(|c| *c == '-').count(), 4);
    assert_eq!(a.as_bytes()[14], b'7');
    assert_eq!(uuid::Uuid::parse_str(&a).unwrap().to_string(), a);
}

#[test]
fn payloads_call_for_reactions() {
    let r = react(&Payload::AuthVerify, true);
    assert!(r.answer_probe && r.ack.is_none() && !r.forward && !r.show);
    let r = react(&Payload::DatabaseQueryResult(answer(true, "", "")), true);
    assert!(!r.answer_probe && r.ack.is_none() && r.forward && !r.show);
    let r = react(&Payload::Prompt, true);
    assert!(!r.answer_probe && r.ack.is_none() && !r.forward && !r.show);
    let r = react(&pre(None, "m"), true);
    assert!(r.show && r.ack.as_deref() == Some("m") && matches!(r.audio, AudioAction::Nothing));
    let r = react(&pre(None, ""), true);
    assert!(r.show && r.ack.is_none());
    let r = react(&Payload::MessageInProcess { message_uuid7: "i".to_string() }, true);
    assert_eq!(r.ack.as_deref(), Some("i"));
    let r = react(&Payload::Other, true);
    assert!(r.show && r.ack.is_none());
}

#[test]
fn audio_rides_along_or_is_fetched() {
    let audio = |clip: &[u8], id: &str, on: bool| react(&post(None, "", id, clip), on).audio;
    assert!(matches!(audio(&[1], "m", true), AudioAction::Play));
    match audio(&[], "m", true) {
        AudioAction::Fetch(id) => assert_eq!(id, "m"),
        _ => panic!("not fetched"),
    }
    assert!(matches!(audio(&[], "", true), AudioAction::Nothing));
    assert!(matches!(audio(&[1], "m", false), AudioAction::Nothing));
}

#[test]
fn clips_are_asked_for_three_times() {
    assert_eq!(AUDIO_QUERY, "audio_for_message");
    assert_eq!(ATTEMPTS, 3);
    assert_eq!(audio_query("m\"1"), r#"{"uuid7":"m\"1"}"#);
    let mut fetch = AudioFetch::new();
    assert_eq!(fetch.pause(), Some(Duration::zero()));
    assert_eq!(fetch.answered(Err("late".to_string())), None);
    assert_eq!(fetch.pause(), Some(Duration::from_millis(800)));
    assert_eq!(fetch.answered(Ok(answer(true, "", ""))), None);
    assert_eq!(fetch.pause(), Some(Duration::from_millis(800)));
    assert_eq!(fetch.answered(Ok(answer(false, "", "clip"))), None);
    assert_eq!(fetch.pause(), None);
    assert_eq!(AudioFetch::new().answered(Ok(answer(true, "", "clip"))), Some(b"clip".to_vec()));
}

#[test]
fn playback_ends_with_the_clip_or_its_time() {
    let at = |n: u128| Instant { nanos: n };
    assert_eq!(playback(true, at(9), at(5)), Playback::Ended);
    assert_eq!(playback(false, at(5), at(5)), Playback::Stop);
    assert_eq!(playback(false, at(4), at(5)), Playback::Wait(Duration::from_millis(50)));
}

#[test]
fn status_and_config_start_with_their_defaults() {
    let mut status = AppStatus::default();
    assert!(status.connected);
    assert_eq!(status.detail, "connected to cockatiel engine");
    status.disconnect();
    assert!(!status.connected);
    assert_eq!(status.detail, "disconnected from engine");
    let c = ChatConfig::default();
    assert_eq!((c.max_buffered, c.ascii_width, c.message_fade_secs), (200, 60, 0));
    assert_eq!((c.images_mode.as_str(), c.ascii_converter_path.as_str()), ("none", "ascii-image-converter"));
    assert_eq!((c.emoji_map_path.as_str(), c.image_map_path), ("emoji_map.json", default_image_map_path()));
    assert_eq!((c.image_min_rank, c.message_fade_mode), (default_min_rank(), default_message_fade_mode()));
    assert_eq!((default_min_rank().as_str(), default_message_fade_mode().as_str()), ("regular", "remove"));
    assert_eq!(default_image_map_path(), "image_map.json");
    assert!(c.play_audio && default_play_audio() && c.emoji_enabled && c.show_rank && !c.easing_enabled);
}
