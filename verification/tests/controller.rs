use term_chat::config::ChatConfig;
use term_chat::controller::{
    channel_adapter, do_login, fade_out, handle_event, handle_key, large_enough, let_in, moderated, monitored_channel,
    refresh, sent, Action, Event, Key, NOT_ALLOWED,
};
use term_chat::easing::EasingQueue;
use term_chat::embed::EmbedPlan;
use term_chat::engine::QueryResult;
use term_chat::login::{load_or_empty, LoginState, Roles};
use term_chat::render::Ui;
use term_chat::time::{Duration, Instant};
use term_chat::tokens::TokenMap;
use term_chat::types::{ChatMessageItem, UiMode};

fn message(n: u32) -> ChatMessageItem {
    ChatMessageItem {
        id: format!("id{}", n),
        username: format!("user{}", n),
        name_color: String::new(),
        rank: String::new(),
        score: 0,
        role_badges: String::new(),
        reprimanded: false,
        platform: "twitch".to_string(),
        user_handle: format!("handle{}", n),
        user_uuid7: "0190a0b0-c0d0-7000-8000-000000000000".to_string(),
        content: format!("text {}", n),
        image_art: None,
        image_status: None,
        added_at: Instant { nanos: 0 },
    }
}

fn messages(n: u32) -> Vec<ChatMessageItem> {
    (0..n).map(message).collect()
}

fn nobody() -> LoginState {
    load_or_empty(None)
}

fn moderator() -> LoginState {
    LoginState {
        platform: "twitch".to_string(),
        handle: "mod".to_string(),
        effective: Roles { is_moderator: true, ..Roles::default() },
        ..load_or_empty(None)
    }
}

fn press(ui: &mut Ui, key: Key, login: &LoginState, buffer: &Vec<ChatMessageItem>) -> Action {
    handle_key(key, ui, login, buffer)
}

fn type_in(ui: &mut Ui, s: &str, login: &LoginState) {
    for c in s.chars() {
        assert!(matches!(press(ui, Key::Char(c), login, &Vec::new()), Action::Nothing));
    }
}

#[test]
fn only_q_in_the_chat_quits() {
    let mut ui = Ui::new();
    assert!(matches!(press(&mut ui, Key::Char('q'), &nobody(), &Vec::new()), Action::Quit));
    for mode in [UiMode::LoginMenu, UiMode::ActionMenu, UiMode::Input, UiMode::KickHandle, UiMode::TimeoutPrompt] {
        ui.mode = mode;
        assert!(!matches!(press(&mut ui, Key::Char('q'), &moderator(), &Vec::new()), Action::Quit));
    }
}

#[test]
fn scrolling_stays_between_newest_and_oldest() {
    let mut ui = Ui::new();
    let buffer = messages(4);
    press(&mut ui, Key::Up, &nobody(), &buffer);
    press(&mut ui, Key::Char('k'), &nobody(), &buffer);
    assert_eq!(ui.scroll, 2);
    handle_event(Event::ScrollUp, &mut ui, &nobody(), &buffer);
    assert_eq!(ui.scroll, 4);
    press(&mut ui, Key::Down, &nobody(), &buffer);
    press(&mut ui, Key::Char('j'), &nobody(), &buffer);
    assert_eq!(ui.scroll, 2);
    handle_event(Event::ScrollDown, &mut ui, &nobody(), &buffer);
    assert_eq!(ui.scroll, 0);
    handle_event(Event::Other, &mut ui, &nobody(), &buffer);
    handle_event(Event::Key(Key::Up), &mut ui, &nobody(), &buffer);
    assert_eq!(ui.scroll, 1);
    ui.scroll = 9;
    press(&mut ui, Key::Up, &nobody(), &buffer);
    assert_eq!(ui.scroll, 4);
}

#[test]
fn sending_needs_permission() {
    let mut ui = Ui::new();
    press(&mut ui, Key::Char('i'), &nobody(), &Vec::new());
    assert_eq!(ui.mode, UiMode::Chat);
    assert_eq!(ui.result_note, NOT_ALLOWED);
    assert_eq!(NOT_ALLOWED, "not allowed to send — log in with mod perms");
    press(&mut ui, Key::Char('i'), &moderator(), &Vec::new());
    assert_eq!(ui.mode, UiMode::Input);
    type_in(&mut ui, " hi q! ", &moderator());
    press(&mut ui, Key::Backspace, &moderator(), &Vec::new());
    match press(&mut ui, Key::Enter, &moderator(), &Vec::new()) {
        Action::Send { platform, text } => assert_eq!((platform.as_str(), text.as_str()), ("all", "hi q!")),
        _ => panic!("not sent"),
    }
    assert_eq!((ui.mode, ui.draft.as_str()), (UiMode::Chat, ""));
    sent(&mut ui, Ok(()));
    assert_eq!(ui.result_note, "sent");
    sent(&mut ui, Err("down".to_string()));
    assert_eq!(ui.result_note, "send failed: down");
}

#[test]
fn blank_and_unpermitted_drafts_are_dropped() {
    for (draft, login) in [("  ", moderator()), ("hi", nobody())] {
        let mut ui = Ui::new();
        ui.mode = UiMode::Input;
        ui.draft = draft.to_string();
        assert!(matches!(press(&mut ui, Key::Enter, &login, &Vec::new()), Action::Nothing));
        assert_eq!((ui.mode, ui.draft.as_str()), (UiMode::Chat, ""));
    }
    let mut ui = Ui::new();
    ui.mode = UiMode::Input;
    ui.draft = "hi".to_string();
    press(&mut ui, Key::Esc, &moderator(), &Vec::new());
    assert_eq!((ui.mode, ui.draft.as_str()), (UiMode::Chat, ""));
}

#[test]
fn tab_goes_round_the_platforms() {
    let mut ui = Ui::new();
    ui.mode = UiMode::Input;
    let mut seen = Vec::new();
    for _ in 0..5 {
        press(&mut ui, Key::Tab, &moderator(), &Vec::new());
        seen.push(ui.target_platform.clone());
    }
    assert_eq!(seen, vec!["twitch", "kick", "youtube", "discord", "all"]);
}

#[test]
fn login_menu_starts_logins() {
    let mut ui = Ui::new();
    ui.login_note = "old".to_string();
    press(&mut ui, Key::Char('l'), &nobody(), &Vec::new());
    assert_eq!((ui.mode, ui.login_note.as_str()), (UiMode::LoginMenu, ""));
    for (key, want) in [('1', "twitch"), ('3', "youtube")] {
        ui.mode = UiMode::LoginMenu;
        ui.result_note = "old".to_string();
        match press(&mut ui, Key::Char(key), &nobody(), &Vec::new()) {
            Action::Login { platform, kick_handle } => assert_eq!((platform.as_str(), kick_handle.as_str()), (want, "")),
            _ => panic!("no login"),
        }
        assert_eq!((ui.mode, ui.result_note.as_str()), (UiMode::Chat, ""));
    }
    for key in [Key::Char('4'), Key::Esc] {
        ui.mode = UiMode::LoginMenu;
        press(&mut ui, key, &nobody(), &Vec::new());
        assert_eq!(ui.mode, UiMode::Chat);
    }
}

#[test]
fn kick_logins_need_a_handle() {
    let mut ui = Ui::new();
    ui.mode = UiMode::LoginMenu;
    ui.kick_handle_draft = "old".to_string();
    press(&mut ui, Key::Char('2'), &nobody(), &Vec::new());
    assert_eq!((ui.mode, ui.kick_handle_draft.as_str()), (UiMode::KickHandle, ""));
    type_in(&mut ui, "  ", &nobody());
    assert!(matches!(press(&mut ui, Key::Enter, &nobody(), &Vec::new()), Action::Nothing));
    assert_eq!((ui.mode, ui.login_note.as_str()), (UiMode::KickHandle, "enter your kick username"));
    type_in(&mut ui, "carlx ", &nobody());
    press(&mut ui, Key::Backspace, &nobody(), &Vec::new());
    press(&mut ui, Key::Backspace, &nobody(), &Vec::new());
    match press(&mut ui, Key::Enter, &nobody(), &Vec::new()) {
        Action::Login { platform, kick_handle } => assert_eq!((platform.as_str(), kick_handle.as_str()), ("kick", "carl")),
        _ => panic!("no login"),
    }
    assert_eq!((ui.mode, ui.login_note.as_str()), (UiMode::Chat, ""));
    ui.mode = UiMode::KickHandle;
    press(&mut ui, Key::Esc, &nobody(), &Vec::new());
    assert_eq!(ui.mode, UiMode::LoginMenu);
}

#[test]
fn logins_end_with_a_note() {
    let mut ui = Ui::new();
    let mut login = nobody();
    do_login(&mut ui, &mut login, Err("no".to_string()));
    assert_eq!((ui.login_note.as_str(), login.handle.as_str()), ("no", ""));
    do_login(&mut ui, &mut login, Ok(moderator()));
    assert_eq!(ui.login_note, "logged in as twitch mod — MOD");
    assert_eq!(login.handle, "mod");
    let mut m = TokenMap::new();
    m.insert("channel".to_string(), "chan".to_string());
    assert_eq!(monitored_channel(Ok(m)), "chan");
    assert_eq!(monitored_channel(Ok(TokenMap::new())), "");
    assert_eq!(monitored_channel(Err("x".to_string())), "");
    assert_eq!(channel_adapter("twitch"), Some("twitch-adapter"));
    assert_eq!(channel_adapter("kick"), None);
    assert_eq!(channel_adapter("youtube"), None);
}

#[test]
fn moderation_needs_permission_and_a_message() {
    let mut ui = Ui::new();
    press(&mut ui, Key::Enter, &nobody(), &messages(3));
    assert_eq!(ui.mode, UiMode::Chat);
    press(&mut ui, Key::Enter, &moderator(), &Vec::new());
    assert_eq!(ui.mode, UiMode::Chat);
    ui.scroll = 1;
    press(&mut ui, Key::Enter, &moderator(), &messages(3));
    assert_eq!(ui.mode, UiMode::ActionMenu);
    assert_eq!(ui.action_target.as_ref().unwrap().0, "user1");
    ui.mode = UiMode::Chat;
    ui.scroll = 7;
    press(&mut ui, Key::Enter, &moderator(), &messages(3));
    assert_eq!(ui.action_target.as_ref().unwrap().1, "handle0");
    press(&mut ui, Key::Esc, &moderator(), &messages(3));
    assert_eq!((ui.mode, ui.action_target.is_none()), (UiMode::Chat, true));
}

fn aimed(uuid7: &str) -> Ui {
    let mut ui = Ui::new();
    ui.mode = UiMode::ActionMenu;
    ui.action_target = Some(("u".to_string(), "h".to_string(), "kick".to_string(), uuid7.to_string()));
    ui
}

#[test]
fn moderation_actions_are_aimed() {
    let uuid = "0190a0b0-c0d0-7000-8000-000000000000";
    for (key, query) in [('1', "mod_ban"), ('3', "mod_commend"), ('4', "mod_reprimand")] {
        let mut ui = aimed(uuid);
        match press(&mut ui, Key::Char(key), &moderator(), &Vec::new()) {
            Action::Moderate { query_id, target } => {
                assert_eq!(query_id, query);
                assert_eq!((target.platform.as_str(), target.handle.as_str()), ("kick", "h"));
                assert_eq!((target.uuid7.as_deref(), target.duration_secs), (Some(uuid), None));
            }
            _ => panic!("no action"),
        }
        assert_eq!(ui.mode, UiMode::Chat);
    }
    // Anything but a UUID is left out.
    for id in ["h", "0190a0b0c0d0-7000-8000-0000000000000", "0190a0b0-c0d0-7000-8000-00000000000é0"] {
        match press(&mut aimed(id), Key::Char('1'), &moderator(), &Vec::new()) {
            Action::Moderate { target, .. } => assert_eq!(target.uuid7, None, "{}", id),
            _ => panic!("no action"),
        }
    }
    let mut ui = aimed(uuid);
    ui.action_target = None;
    assert!(matches!(press(&mut ui, Key::Char('1'), &moderator(), &Vec::new()), Action::Nothing));
}

#[test]
fn timeouts_default_to_five_minutes() {
    for (draft, want) in [("", 300), ("6x0", 60), ("99999999999999999999", 300)] {
        let mut ui = aimed("h");
        ui.timeout_draft = "old".to_string();
        press(&mut ui, Key::Char('2'), &moderator(), &Vec::new());
        assert_eq!((ui.mode, ui.timeout_draft.as_str()), (UiMode::TimeoutPrompt, ""));
        type_in(&mut ui, draft, &moderator());
        match press(&mut ui, Key::Enter, &moderator(), &Vec::new()) {
            Action::Moderate { query_id, target } => {
                assert_eq!(query_id, "mod_timeout");
                assert_eq!(target.duration_secs, Some(want));
            }
            _ => panic!("no action"),
        }
        assert_eq!(ui.mode, UiMode::Chat);
    }
    let mut ui = aimed("h");
    ui.mode = UiMode::TimeoutPrompt;
    ui.timeout_draft = "12".to_string();
    press(&mut ui, Key::Backspace, &moderator(), &Vec::new());
    assert_eq!(ui.timeout_draft, "1");
    press(&mut ui, Key::Esc, &moderator(), &Vec::new());
    assert_eq!(ui.mode, UiMode::ActionMenu);
}

#[test]
fn moderation_results_are_noted() {
    let answer = |success: bool| QueryResult {
        query_id: "mod_ban".to_string(),
        success,
        error: "denied".to_string(),
        result_blob: Vec::new(),
    };
    let mut ui = Ui::new();
    moderated(&mut ui, "mod_ban", Ok(answer(true)));
    assert_eq!(ui.result_note, "mod_ban applied");
    moderated(&mut ui, "mod_ban", Ok(answer(false)));
    assert_eq!(ui.result_note, "mod_ban failed: denied");
    moderated(&mut ui, "mod_ban", Err("late".to_string()));
    assert_eq!(ui.result_note, "mod_ban error: late");
}

fn ids(buffer: &[ChatMessageItem]) -> Vec<String> {
    buffer.iter().map(|m| m.id.clone()).collect()
}

#[test]
fn arriving_messages_push_out_the_oldest() {
    let mut ui = Ui::new();
    let mut buffer = messages(3);
    let now = Instant { nanos: 77 };
    assert!(!let_in(&mut buffer, &mut ui, Vec::new(), 1, now));
    assert_eq!(buffer.len(), 3);
    assert!(let_in(&mut buffer, &mut ui, vec![message(8), message(9)], 4, now));
    assert_eq!(ids(&buffer), vec!["id1", "id2", "id8", "id9"]);
    assert_eq!((buffer[1].added_at.nanos, buffer[2].added_at), (0, now));
    assert_eq!(ui.scroll, 0);
    ui.scroll = 2;
    assert!(let_in(&mut buffer, &mut ui, vec![message(10)], 4, now));
    assert_eq!(ui.scroll, 3);
}

#[test]
fn old_messages_fade_out() {
    let mut config = ChatConfig::default();
    let mut ui = Ui::new();
    ui.scroll = 5;
    let mut buffer = messages(3);
    buffer[1].added_at = Instant { nanos: 3_000_000_000 };
    let now = Instant { nanos: 5_000_000_000 };
    assert!(!fade_out(&mut buffer, &mut ui, &config, now));
    assert_eq!((buffer.len(), ui.scroll), (3, 5));
    config.message_fade_secs = 5;
    assert!(fade_out(&mut buffer, &mut ui, &config, now));
    assert_eq!(ids(&buffer), vec!["id1"]);
    assert_eq!(ui.scroll, 1);
    assert!(!fade_out(&mut buffer, &mut ui, &config, now));
    assert!(fade_out(&mut buffer, &mut ui, &config, Instant { nanos: 8_000_000_000 }));
    assert!(buffer.is_empty());
}

#[test]
fn refreshing_lets_in_and_fades_out() {
    let mut config = ChatConfig::default();
    config.images_mode = "all".to_string();
    config.max_buffered = 3;
    config.message_fade_secs = 5;
    let mut queue = EasingQueue::new(false, Duration::zero());
    let mut with_image = message(8);
    with_image.content = "http://a/a.png".to_string();
    queue.push(message(7));
    queue.push(with_image);
    let mut buffer = messages(4);
    buffer[3].added_at = Instant { nanos: 9_000_000_000 };
    let mut ui = Ui::new();
    ui.scroll = 3;
    let now = Instant { nanos: 10_000_000_000 };
    let list = refresh(&mut queue, &mut buffer, &mut ui, &config, &TokenMap::new(), now, now);
    assert_eq!(ids(&buffer), vec!["id3", "id7", "id8"]);
    assert_eq!(ui.scroll, 5);
    assert_eq!(list.len(), 2);
    assert!(matches!(list[0].plan, EmbedPlan::Nothing));
    match &list[1].plan {
        EmbedPlan::Try(urls) => assert_eq!(*urls, vec!["http://a/a.png"]),
        _ => panic!("no image"),
    }
    let later = Instant { nanos: 14_500_000_000 };
    assert!(refresh(&mut queue, &mut buffer, &mut ui, &config, &TokenMap::new(), later, later).is_empty());
    assert_eq!(ids(&buffer), vec!["id7", "id8"]);
    assert_eq!(ui.scroll, 2);
}

#[test]
fn small_terminals_are_not_drawn_in() {
    assert!(large_enough(10, 6));
    assert!(!large_enough(9, 6));
    assert!(!large_enough(10, 5));
}

#[test]
fn disabled_easing_passes_all() {
    let mut q = EasingQueue::new(false, Duration::from_secs(1));
    for m in messages(3) {
        q.push(m);
    }
    assert_eq!(ids(&q.poll(Instant { nanos: 0 })), vec!["id0", "id1", "id2"]);
    assert!(q.poll(Instant { nanos: 0 }).is_empty());
}

#[test]
fn easing_spaces_messages_out() {
    let mut q = EasingQueue::new(true, Duration::from_millis(500));
    let at = |millis: u128| Instant { nanos: 10_000_000_000 + millis * 1_000_000 };
    q.push(message(0));
    assert_eq!(ids(&q.poll(at(0))), vec!["id0"]);
    for n in 1..4 {
        q.push(message(n));
    }
    assert!(q.poll(at(499)).is_empty());
    assert_eq!(ids(&q.poll(at(500))), vec!["id1"]);
    assert_eq!(ids(&q.poll(at(2_500))), vec!["id2"]);
    assert!(q.poll(at(2_600)).is_empty());
    assert_eq!(ids(&q.poll(at(3_000))), vec!["id3"]);
    assert!(q.poll(at(3_600)).is_empty());
}

#[test]
fn easing_flushes_after_a_silence() {
    let mut q = EasingQueue::new(true, Duration::from_millis(500));
    let at = |secs: u128| Instant { nanos: secs * 1_000_000_000 };
    q.push(message(0));
    assert_eq!(ids(&q.poll(at(1))), vec!["id0"]);
    for n in 1..4 {
        q.push(message(n));
    }
    assert_eq!(ids(&q.poll(at(11))), vec!["id1", "id2", "id3"]);
    // A queue that has shown nothing yet has been silent for long.
    let mut fresh = EasingQueue::new(true, Duration::from_secs(60));
    fresh.push(message(7));
    fresh.push(message(8));
    assert_eq!(ids(&fresh.poll(at(0))), vec!["id7", "id8"]);
}

#[test]
fn slow_easing_flushes_after_two_idle_seconds() {
    let mut q = EasingQueue::new(true, Duration::from_secs(60));
    let at = |millis: u128| Instant { nanos: millis * 1_000_000 };
    q.push(message(0));
    assert_eq!(ids(&q.poll(at(0))), vec!["id0"]);
    for n in 1..4 {
        q.push(message(n));
    }
    assert!(q.poll(at(2_000)).is_empty());
    assert_eq!(ids(&q.poll(at(2_001))), vec!["id1", "id2", "id3"]);
}
