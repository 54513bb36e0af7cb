//! What keys, the mouse wheel, arriving messages and the passing of time do to the display.
use crate::config::ChatConfig;
use crate::easing::EasingQueue;
use crate::embed;
use crate::embed::EmbedPlan;
use crate::engine::{ModTarget, QueryResult, Target};
use crate::fade;
use crate::fade::{FadeAction, FadeMode};
use crate::images;
use crate::login::LoginState;
use crate::message;
use crate::numbers;
use crate::overlay;
use crate::render;
use crate::render::Ui;
use crate::text;
use crate::time::Instant;
use crate::tokens;
use crate::tokens::TokenMap;
use crate::types::{ChatMessageItem, UiMode};
use vstd::prelude::*;

verus! {

/// A key that was pressed.
#[derive(Debug, Clone, Copy, PartialEq, Eq, Structural)]
pub enum Key {
    Char(char),
    Up,
    Down,
    Enter,
    Esc,
    Backspace,
    Tab,
    Other,
}

/// What the terminal reports.
#[derive(Debug, Clone, Copy, PartialEq, Eq, Structural)]
pub enum Event {
    Key(Key),
    ScrollUp,
    ScrollDown,
    Other,
}

/// What is to be done outside the display.
#[derive(Debug)]
pub enum Action {
    Nothing,
    /// Leave the program.
    Quit,
    /// Log in with a platform; Kick wants the operator's handle.
    Login { platform: String, kick_handle: String },
    /// Ask the engine for a moderation action.
    Moderate { query_id: String, target: ModTarget },
    /// Send a chat message in the operator's name.
    Send { platform: String, text: String },
}

/// What an action says.
pub enum Deed {
    Nothing,
    Quit,
    Login { platform: Seq<char>, kick_handle: Seq<char> },
    Moderate { query_id: Seq<char>, target: Target },
    Send { platform: Seq<char>, text: Seq<char> },
}

impl View for Action {
    type V = Deed;

    open spec fn view(&self) -> Deed {
        match self {
            Action::Nothing => Deed::Nothing,
            Action::Quit => Deed::Quit,
            Action::Login { platform, kick_handle } => Deed::Login {
                platform: platform@,
                kick_handle: kick_handle@,
            },
            Action::Moderate { query_id, target } => Deed::Moderate {
                query_id: query_id@,
                target: target@,
            },
            Action::Send { platform, text } => Deed::Send { platform: platform@, text: text@ },
        }
    }
}

/// The author of a message: username, handle, platform, uuid7.
pub type Author = (Seq<char>, Seq<char>, Seq<char>, Seq<char>);

/// The state of the display.
#[verifier::ext_equal]
pub struct UiState {
    pub mode: UiMode,
    pub scroll: nat,
    pub draft: Seq<char>,
    pub target_platform: Seq<char>,
    pub kick_handle_draft: Seq<char>,
    pub timeout_draft: Seq<char>,
    pub action_target: Option<Author>,
    pub login_note: Seq<char>,
    pub result_note: Seq<char>,
}

pub open spec fn author_view(t: Option<(String, String, String, String)>) -> Option<Author> {
    match t {
        Some((a, b, c, d)) => Some((a@, b@, c@, d@)),
        None => None,
    }
}

impl View for Ui {
    type V = UiState;

    open spec fn view(&self) -> UiState {
        UiState {
            mode: self.mode,
            scroll: self.scroll as nat,
            draft: self.draft@,
            target_platform: self.target_platform@,
            kick_handle_draft: self.kick_handle_draft@,
            timeout_draft: self.timeout_draft@,
            action_target: author_view(self.action_target),
            login_note: self.login_note@,
            result_note: self.result_note@,
        }
    }
}

// ── Scrolling ─────────────────────────────────────────────────────────

/// The offset `n` messages further up, at most all the way.
pub open spec fn scrolled_up(scroll: nat, n: nat, len: nat) -> nat {
    if scroll + n < len {
        scroll + n
    } else {
        len
    }
}

/// The offset `n` messages further down, at most to the newest.
pub open spec fn scrolled_down(scroll: nat, n: nat) -> nat {
    if scroll > n {
        (scroll - n) as nat
    } else {
        0
    }
}

fn scroll_up(scroll: usize, n: usize, len: usize) -> (r: usize)
    ensures
        r == scrolled_up(scroll as nat, n as nat, len as nat),
{
    if scroll < len && n < len - scroll {
        scroll + n
    } else {
        len
    }
}

// ── Moderation ────────────────────────────────────────────────────────

/// Whether an identifier has the length and the hyphens of a UUID.
pub open spec fn looks_like_uuid(s: Seq<char>) -> bool {
    vstd::utf8::encode_utf8(s).len() == 36 && text::count_of(s, '-') == 4
}

/// What a moderation action against an author is aimed at.
pub open spec fn aimed_at(author: Author, duration_secs: Option<i64>) -> Target {
    Target {
        platform: author.2,
        handle: author.1,
        uuid7: if looks_like_uuid(author.3) {
            Some(author.3)
        } else {
            None
        },
        duration_secs,
    }
}

/// The moderation action against whoever is targeted, if anybody is.
pub open spec fn moderation(
    target: Option<Author>,
    query_id: Seq<char>,
    duration_secs: Option<i64>,
) -> Deed {
    match target {
        Some(author) => Deed::Moderate { query_id, target: aimed_at(author, duration_secs) },
        None => Deed::Nothing,
    }
}

pub fn send_mod_action(
    target: &Option<(String, String, String, String)>,
    query_id: &str,
    duration_secs: Option<i64>,
) -> (r: Action)
    ensures
        r@ == moderation(author_view(*target), query_id@, duration_secs),
{
    match target {
        Some((_, handle, platform, uuid7)) => {
            let uuid = if uuid7.as_str().as_bytes().len() == 36 && text::count_char(
                uuid7.as_str(),
                '-',
            ) == 4 {
                Some(uuid7.clone())
            } else {
                None
            };
            let aim = ModTarget {
                platform: platform.clone(),
                handle: handle.clone(),
                uuid7: uuid,
                duration_secs,
            };
            assert(aim@ =~= aimed_at(author_view(*target)->0, duration_secs));
            Action::Moderate { query_id: query_id.to_owned(), target: aim }
        },
        None => Action::Nothing,
    }
}

/// What the operator is told of a moderation action.
pub open spec fn moderation_note(query_id: Seq<char>, success: bool, error: Seq<char>) -> Seq<char> {
    if success {
        query_id + " applied"@
    } else {
        query_id + " failed: "@ + error
    }
}

/// The engine's word on a moderation action, or why there is none.
pub fn moderated(ui: &mut Ui, query_id: &str, answer: Result<QueryResult, String>)
    ensures
        final(ui)@ == (UiState {
            result_note: match answer {
                Ok(resp) => moderation_note(query_id@, resp.success, resp.error@),
                Err(e) => query_id@ + " error: "@ + e@,
            },
            ..old(ui)@
        }),
{
    let mut note = query_id.to_owned();
    match answer {
        Ok(resp) => {
            if resp.success {
                note.append(" applied");
            } else {
                note.append(" failed: ");
                note.append(resp.error.as_str());
            }
        },
        Err(e) => {
            note.append(" error: ");
            note.append(e.as_str());
        },
    }
    ui.result_note = note;
}

/// What became of a message that was to be sent.
pub fn sent(ui: &mut Ui, answer: Result<(), String>)
    ensures
        final(ui)@ == (UiState {
            result_note: match answer {
                Ok(_) => "sent"@,
                Err(e) => "send failed: "@ + e@,
            },
            ..old(ui)@
        }),
{
    ui.result_note = match answer {
        Ok(_) => "sent".to_owned(),
        Err(e) => text::concat("send failed: ", e.as_str()),
    };
}

// ── Login ─────────────────────────────────────────────────────────────

/// The adapter whose credentials name the monitored channel, which a Twitch login is verified
/// against; other logins need none.
pub fn channel_adapter(platform: &str) -> (r: Option<&'static str>)
    ensures
        match r {
            Some(adapter) => platform@ == "twitch"@ && adapter@ == "twitch-adapter"@,
            None => platform@ != "twitch"@,
        },
{
    if text::same(platform, "twitch") {
        Some("twitch-adapter")
    } else {
        None
    }
}

/// The channel that the credentials of the Twitch adapter name, against which the operator's roles
/// are verified; none where they cannot be had.
pub fn monitored_channel(creds: Result<TokenMap, String>) -> (r: String)
    ensures
        r@ == (match creds {
            Ok(m) => tokens::lookup_or_empty(m@, "channel"@),
            Err(_) => Seq::empty(),
        }),
{
    match creds {
        Ok(m) => m.get_or_empty("channel"),
        Err(_) => String::new(),
    }
}

/// What the operator is told of a login.
pub open spec fn welcome(state: LoginState) -> Seq<char> {
    "logged in as "@ + state.platform@ + " "@ + state.handle@ + " — "@ + state.effective.title()
}

/// What became of a login: a new identity, or the old one and a word on why.
pub fn do_login(ui: &mut Ui, login: &mut LoginState, outcome: Result<LoginState, String>)
    ensures
        match outcome {
            Ok(state) => *final(login) == state && final(ui)@ == (UiState {
                login_note: welcome(state),
                ..old(ui)@
            }),
            Err(e) => *final(login) == *old(login) && final(ui)@ == (UiState {
                login_note: e@,
                ..old(ui)@
            }),
        },
{
    match outcome {
        Ok(state) => {
            let mut note = "logged in as ".to_owned();
            note.append(state.platform.as_str());
            note.append(" ");
            note.append(state.handle.as_str());
            note.append(" — ");
            note.append(state.effective.label());
            *login = state;
            ui.login_note = note;
        },
        Err(e) => {
            ui.login_note = e;
        },
    }
}

// ── Keys ──────────────────────────────────────────────────────────────

/// What the operator is told when they may not send.
pub const NOT_ALLOWED: &'static str = "not allowed to send — log in with mod perms";

/// The platform that follows `platform` in the choice of where to send.
pub open spec fn next_platform(platform: Seq<char>) -> Seq<char> {
    if platform == "twitch"@ {
        "kick"@
    } else if platform == "kick"@ {
        "youtube"@
    } else if platform == "youtube"@ {
        "discord"@
    } else if platform == "discord"@ {
        "all"@
    } else {
        "twitch"@
    }
}

fn platform_after(platform: &str) -> (r: &'static str)
    ensures
        r@ == next_platform(platform@),
{
    if text::same(platform, "twitch") {
        "kick"
    } else if text::same(platform, "kick") {
        "youtube"
    } else if text::same(platform, "youtube") {
        "discord"
    } else if text::same(platform, "discord") {
        "all"
    } else {
        "twitch"
    }
}

/// A draft with a character typed behind it.
pub open spec fn typed(draft: Seq<char>, c: char) -> Seq<char> {
    draft.push(c)
}

/// A draft without its last character.
pub open spec fn erased(draft: Seq<char>) -> Seq<char> {
    if draft.len() > 0 {
        draft.drop_last()
    } else {
        draft
    }
}

/// The message that the display stands on.
pub open spec fn pointed_at(messages: Seq<ChatMessageItem>, scroll: nat) -> int {
    if scroll < messages.len() {
        messages.len() - 1 - scroll
    } else {
        0
    }
}

pub open spec fn author_of(item: ChatMessageItem) -> Author {
    (item.username@, item.user_handle@, item.platform@, item.user_uuid7@)
}

/// The state when a login begins: notes cleared, back in the chat.
pub open spec fn logging_in(ui: UiState) -> UiState {
    UiState {
        mode: UiMode::Chat,
        login_note: Seq::empty(),
        result_note: Seq::empty(),
        ..ui
    }
}

/// What a key does in the chat.
pub open spec fn chat_key(
    ui: UiState,
    key: Key,
    login: LoginState,
    messages: Seq<ChatMessageItem>,
) -> (UiState, Deed) {
    if key == Key::Char('q') {
        (ui, Deed::Quit)
    } else if key == Key::Char('l') {
        (UiState { mode: UiMode::LoginMenu, login_note: Seq::empty(), ..ui }, Deed::Nothing)
    } else if key == Key::Char('i') {
        if login.sends() {
            (UiState { mode: UiMode::Input, draft: Seq::empty(), ..ui }, Deed::Nothing)
        } else {
            (UiState { result_note: NOT_ALLOWED@, ..ui }, Deed::Nothing)
        }
    } else if key == Key::Up || key == Key::Char('k') {
        (UiState { scroll: scrolled_up(ui.scroll, 1, messages.len()), ..ui }, Deed::Nothing)
    } else if key == Key::Down || key == Key::Char('j') {
        (UiState { scroll: scrolled_down(ui.scroll, 1), ..ui }, Deed::Nothing)
    } else if key == Key::Enter && login.moderates() && messages.len() > 0 {
        (
            UiState {
                mode: UiMode::ActionMenu,
                action_target: Some(author_of(messages[pointed_at(messages, ui.scroll)])),
                result_note: Seq::empty(),
                ..ui
            },
            Deed::Nothing,
        )
    } else {
        (ui, Deed::Nothing)
    }
}

/// What a key does in the login menu.
pub open spec fn login_menu_key(ui: UiState, key: Key) -> (UiState, Deed) {
    if key == Key::Char('1') {
        (logging_in(ui), Deed::Login { platform: "twitch"@, kick_handle: Seq::empty() })
    } else if key == Key::Char('2') {
        (
            UiState {
                mode: UiMode::KickHandle,
                kick_handle_draft: Seq::empty(),
                login_note: Seq::empty(),
                ..ui
            },
            Deed::Nothing,
        )
    } else if key == Key::Char('3') {
        (logging_in(ui), Deed::Login { platform: "youtube"@, kick_handle: Seq::empty() })
    } else if key == Key::Char('4') || key == Key::Esc {
        (UiState { mode: UiMode::Chat, ..ui }, Deed::Nothing)
    } else {
        (ui, Deed::Nothing)
    }
}

/// What a key does while the operator enters their Kick handle.
pub open spec fn kick_handle_key(ui: UiState, key: Key) -> (UiState, Deed) {
    match key {
        Key::Char(c) => (
            UiState { kick_handle_draft: typed(ui.kick_handle_draft, c), ..ui },
            Deed::Nothing,
        ),
        Key::Backspace => (
            UiState { kick_handle_draft: erased(ui.kick_handle_draft), ..ui },
            Deed::Nothing,
        ),
        Key::Enter => if text::trimmed(ui.kick_handle_draft).len() == 0 {
            (UiState { login_note: "enter your kick username"@, ..ui }, Deed::Nothing)
        } else {
            (
                logging_in(ui),
                Deed::Login {
                    platform: "kick"@,
                    kick_handle: text::trimmed(ui.kick_handle_draft),
                },
            )
        },
        Key::Esc => (UiState { mode: UiMode::LoginMenu, ..ui }, Deed::Nothing),
        _ => (ui, Deed::Nothing),
    }
}

/// What a key does in the menu of moderation actions.
pub open spec fn action_menu_key(ui: UiState, key: Key) -> (UiState, Deed) {
    let chat = UiState { mode: UiMode::Chat, ..ui };
    if key == Key::Char('1') {
        (chat, moderation(ui.action_target, "mod_ban"@, None))
    } else if key == Key::Char('2') {
        (
            UiState { mode: UiMode::TimeoutPrompt, timeout_draft: Seq::empty(), ..ui },
            Deed::Nothing,
        )
    } else if key == Key::Char('3') {
        (chat, moderation(ui.action_target, "mod_commend"@, None))
    } else if key == Key::Char('4') {
        (chat, moderation(ui.action_target, "mod_reprimand"@, None))
    } else if key == Key::Esc {
        (UiState { action_target: None, ..chat }, Deed::Nothing)
    } else {
        (ui, Deed::Nothing)
    }
}

/// How long a timeout lasts: what was entered, or five minutes.
pub open spec fn timeout_secs(draft: Seq<char>) -> i64 {
    match numbers::parsed_i64(draft) {
        Some(n) => n,
        None => 300,
    }
}

/// What a key does while the operator enters the length of a timeout.
pub open spec fn timeout_key(ui: UiState, key: Key) -> (UiState, Deed) {
    match key {
        Key::Char(c) => if numbers::is_digit(c) {
            (UiState { timeout_draft: typed(ui.timeout_draft, c), ..ui }, Deed::Nothing)
        } else {
            (ui, Deed::Nothing)
        },
        Key::Backspace => (
            UiState { timeout_draft: erased(ui.timeout_draft), ..ui },
            Deed::Nothing,
        ),
        Key::Enter => (
            UiState { mode: UiMode::Chat, ..ui },
            moderation(ui.action_target, "mod_timeout"@, Some(timeout_secs(ui.timeout_draft))),
        ),
        Key::Esc => (UiState { mode: UiMode::ActionMenu, ..ui }, Deed::Nothing),
        _ => (ui, Deed::Nothing),
    }
}

/// What a key does while the operator writes a message.
pub open spec fn input_key(ui: UiState, key: Key, login: LoginState) -> (UiState, Deed) {
    let done = UiState { mode: UiMode::Chat, draft: Seq::empty(), ..ui };
    match key {
        Key::Char(c) => (UiState { draft: typed(ui.draft, c), ..ui }, Deed::Nothing),
        Key::Backspace => (UiState { draft: erased(ui.draft), ..ui }, Deed::Nothing),
        Key::Tab => (
            UiState { target_platform: next_platform(ui.target_platform), ..ui },
            Deed::Nothing,
        ),
        Key::Enter => (
            done,
            if text::trimmed(ui.draft).len() > 0 && login.sends() {
                Deed::Send { platform: ui.target_platform, text: text::trimmed(ui.draft) }
            } else {
                Deed::Nothing
            },
        ),
        Key::Esc => (done, Deed::Nothing),
        _ => (ui, Deed::Nothing),
    }
}

/// What a key does.
pub open spec fn pressed(
    ui: UiState,
    key: Key,
    login: LoginState,
    messages: Seq<ChatMessageItem>,
) -> (UiState, Deed) {
    match ui.mode {
        UiMode::Chat => chat_key(ui, key, login, messages),
        UiMode::LoginMenu => login_menu_key(ui, key),
        UiMode::KickHandle => kick_handle_key(ui, key),
        UiMode::ActionMenu => action_menu_key(ui, key),
        UiMode::TimeoutPrompt => timeout_key(ui, key),
        UiMode::Input => input_key(ui, key, login),
    }
}

fn begin_login(ui: &mut Ui, platform: &str, kick_handle: &str) -> (action: Action)
    ensures
        final(ui)@ == logging_in(old(ui)@),
        action@ == (Deed::Login { platform: platform@, kick_handle: kick_handle@ }),
{
    ui.login_note = String::new();
    ui.result_note = String::new();
    ui.mode = UiMode::Chat;
    Action::Login { platform: platform.to_owned(), kick_handle: kick_handle.to_owned() }
}

fn on_chat_key(
    ui: &mut Ui,
    key: Key,
    login: &LoginState,
    messages: &Vec<ChatMessageItem>,
) -> (action: Action)
    ensures
        (final(ui)@, action@) == chat_key(old(ui)@, key, *login, messages@),
{
    match key {
        Key::Char('q') => {
            return Action::Quit;
        },
        Key::Char('l') => {
            ui.mode = UiMode::LoginMenu;
            ui.login_note = String::new();
        },
        Key::Char('i') => {
            if login.can_send() {
                ui.mode = UiMode::Input;
                ui.draft = String::new();
            } else {
                ui.result_note = NOT_ALLOWED.to_owned();
            }
        },
        Key::Up | Key::Char('k') => {
            ui.scroll = scroll_up(ui.scroll, 1, messages.len());
        },
        Key::Down | Key::Char('j') => {
            ui.scroll = ui.scroll.saturating_sub(1);
        },
        Key::Enter => {
            let len: usize = messages.len();
            if login.can_moderate() && len > 0 {
                let idx: usize = if ui.scroll < len {
                    len - 1 - ui.scroll
                } else {
                    0
                };
                let item = &messages[idx];
                ui.action_target = Some(
                    (
                        item.username.clone(),
                        item.user_handle.clone(),
                        item.platform.clone(),
                        item.user_uuid7.clone(),
                    ),
                );
                ui.result_note = String::new();
                ui.mode = UiMode::ActionMenu;
            }
        },
        _ => {},
    }
    Action::Nothing
}

fn on_login_menu_key(ui: &mut Ui, key: Key) -> (action: Action)
    ensures
        (final(ui)@, action@) == login_menu_key(old(ui)@, key),
{
    proof {
        reveal_strlit("");
        assert(""@ =~= Seq::empty());
    }
    match key {
        Key::Char('1') => {
            return begin_login(ui, "twitch", "");
        },
        Key::Char('2') => {
            ui.mode = UiMode::KickHandle;
            ui.kick_handle_draft = String::new();
            ui.login_note = String::new();
        },
        Key::Char('3') => {
            return begin_login(ui, "youtube", "");
        },
        Key::Char('4') | Key::Esc => {
            ui.mode = UiMode::Chat;
        },
        _ => {},
    }
    Action::Nothing
}

fn on_kick_handle_key(ui: &mut Ui, key: Key) -> (action: Action)
    ensures
        (final(ui)@, action@) == kick_handle_key(old(ui)@, key),
{
    match key {
        Key::Char(c) => {
            ui.kick_handle_draft.push(c);
        },
        Key::Backspace => {
            let _ = ui.kick_handle_draft.pop();
        },
        Key::Enter => {
            let handle = text::trim(ui.kick_handle_draft.as_str());
            if handle.as_str().is_empty() {
                ui.login_note = "enter your kick username".to_owned();
            } else {
                return begin_login(ui, "kick", handle.as_str());
            }
        },
        Key::Esc => {
            ui.mode = UiMode::LoginMenu;
        },
        _ => {},
    }
    Action::Nothing
}

fn on_action_menu_key(ui: &mut Ui, key: Key) -> (action: Action)
    ensures
        (final(ui)@, action@) == action_menu_key(old(ui)@, key),
{
    match key {
        Key::Char('1') => {
            ui.mode = UiMode::Chat;
            return send_mod_action(&ui.action_target, "mod_ban", None);
        },
        Key::Char('2') => {
            ui.mode = UiMode::TimeoutPrompt;
            ui.timeout_draft = String::new();
        },
        Key::Char('3') => {
            ui.mode = UiMode::Chat;
            return send_mod_action(&ui.action_target, "mod_commend", None);
        },
        Key::Char('4') => {
            ui.mode = UiMode::Chat;
            return send_mod_action(&ui.action_target, "mod_reprimand", None);
        },
        Key::Esc => {
            ui.mode = UiMode::Chat;
            ui.action_target = None;
        },
        _ => {},
    }
    Action::Nothing
}

fn on_timeout_key(ui: &mut Ui, key: Key) -> (action: Action)
    ensures
        (final(ui)@, action@) == timeout_key(old(ui)@, key),
{
    match key {
        Key::Char(c) => {
            if '0' <= c && c <= '9' {
                ui.timeout_draft.push(c);
            }
        },
        Key::Backspace => {
            let _ = ui.timeout_draft.pop();
        },
        Key::Enter => {
            let secs: i64 = match numbers::parse_i64(ui.timeout_draft.as_str()) {
                Some(n) => n,
                None => 300,
            };
            ui.mode = UiMode::Chat;
            return send_mod_action(&ui.action_target, "mod_timeout", Some(secs));
        },
        Key::Esc => {
            ui.mode = UiMode::ActionMenu;
        },
        _ => {},
    }
    Action::Nothing
}

fn on_input_key(ui: &mut Ui, key: Key, login: &LoginState) -> (action: Action)
    ensures
        (final(ui)@, action@) == input_key(old(ui)@, key, *login),
{
    match key {
        Key::Char(c) => {
            ui.draft.push(c);
        },
        Key::Backspace => {
            let _ = ui.draft.pop();
        },
        Key::Tab => {
            ui.target_platform = platform_after(ui.target_platform.as_str()).to_owned();
        },
        Key::Enter => {
            let words = text::trim(ui.draft.as_str());
            ui.draft = String::new();
            ui.mode = UiMode::Chat;
            if !words.as_str().is_empty() && login.can_send() {
                return Action::Send { platform: ui.target_platform.clone(), text: words };
            }
        },
        Key::Esc => {
            ui.draft = String::new();
            ui.mode = UiMode::Chat;
        },
        _ => {},
    }
    Action::Nothing
}

/// Ctrl+C is deliberately NOT intercepted to quit: in a terminal it is the copy shortcut, so
/// quitting on it breaks copy/paste. Use `q` instead.
pub fn handle_key(
    key: Key,
    ui: &mut Ui,
    login: &LoginState,
    messages: &Vec<ChatMessageItem>,
) -> (action: Action)
    ensures
        (final(ui)@, action@) == pressed(old(ui)@, key, *login, messages@),
{
    match ui.mode {
        UiMode::Chat => on_chat_key(ui, key, login, messages),
        UiMode::LoginMenu => on_login_menu_key(ui, key),
        UiMode::KickHandle => on_kick_handle_key(ui, key),
        UiMode::ActionMenu => on_action_menu_key(ui, key),
        UiMode::TimeoutPrompt => on_timeout_key(ui, key),
        UiMode::Input => on_input_key(ui, key, login),
    }
}

/// What an event does: the wheel scrolls three messages at a time, in every mode.
pub open spec fn happened(
    ui: UiState,
    ev: Event,
    login: LoginState,
    messages: Seq<ChatMessageItem>,
) -> (UiState, Deed) {
    match ev {
        Event::Key(key) => pressed(ui, key, login, messages),
        Event::ScrollUp => (
            UiState { scroll: scrolled_up(ui.scroll, 3, messages.len()), ..ui },
            Deed::Nothing,
        ),
        Event::ScrollDown => (
            UiState { scroll: scrolled_down(ui.scroll, 3), ..ui },
            Deed::Nothing,
        ),
        Event::Other => (ui, Deed::Nothing),
    }
}

pub fn handle_event(
    ev: Event,
    ui: &mut Ui,
    login: &LoginState,
    messages: &Vec<ChatMessageItem>,
) -> (action: Action)
    ensures
        (final(ui)@, action@) == happened(old(ui)@, ev, *login, messages@),
{
    match ev {
        Event::Key(key) => handle_key(key, ui, login, messages),
        Event::ScrollUp => {
            ui.scroll = scroll_up(ui.scroll, 3, messages.len());
            Action::Nothing
        },
        Event::ScrollDown => {
            ui.scroll = ui.scroll.saturating_sub(3);
            Action::Nothing
        },
        Event::Other => Action::Nothing,
    }
}

// ── Arriving and leaving messages ─────────────────────────────────────

/// Messages whose fade clock starts at `now`.
pub open spec fn stamped(items: Seq<ChatMessageItem>, now: Instant) -> Seq<ChatMessageItem> {
    items.map_values(|m: ChatMessageItem| ChatMessageItem { added_at: now, ..m })
}

/// The newest `max` of several messages.
pub open spec fn newest(messages: Seq<ChatMessageItem>, max: nat) -> Seq<ChatMessageItem> {
    if messages.len() > max {
        messages.skip(messages.len() - max)
    } else {
        messages
    }
}

/// The buffer with new messages in it: they come last, and the oldest ones go where it would get
/// too long.
pub open spec fn admitted(
    messages: Seq<ChatMessageItem>,
    arrived: Seq<ChatMessageItem>,
    max: nat,
    now: Instant,
) -> Seq<ChatMessageItem> {
    if arrived.len() == 0 {
        messages
    } else {
        newest(messages + stamped(arrived, now), max)
    }
}

/// Take the oldest messages off a buffer that is too long.
fn keep_newest(messages: &mut Vec<ChatMessageItem>, max: usize)
    ensures
        final(messages)@ == newest(old(messages)@, max as nat),
{
    let ghost all = messages@;
    assert(all.skip(0) =~= all);
    while messages.len() > max
        invariant
            messages@.len() <= all.len(),
            messages@ == all.skip(all.len() - messages@.len()),
            all.len() > max ==> messages@.len() >= max,
            all.len() <= max ==> messages@ == all,
        decreases messages@.len(),
    {
        let ghost n = messages@.len();
        let _ = messages.remove(0);
        assert(messages@ =~= all.skip(all.len() - n + 1));
    }
}

/// Let messages into the buffer; their fade clock starts when they become visible. A display that
/// is scrolled up stays where it is. Returns whether anything has changed.
pub fn let_in(
    messages: &mut Vec<ChatMessageItem>,
    ui: &mut Ui,
    arrived: Vec<ChatMessageItem>,
    max_buffered: usize,
    now: Instant,
) -> (redraw: bool)
    requires
        old(ui).scroll + arrived@.len() <= usize::MAX,
    ensures
        redraw == (arrived@.len() > 0),
        final(messages)@ == admitted(old(messages)@, arrived@, max_buffered as nat, now),
        final(ui)@ == (UiState {
            scroll: if old(ui).scroll > 0 {
                old(ui).scroll as nat + arrived@.len()
            } else {
                0
            },
            ..old(ui)@
        }),
{
    let added: usize = arrived.len();
    if added == 0 {
        return false;
    }
    let ghost before = messages@;
    let ghost source = arrived@;
    assert(before + stamped(source.take(0), now) =~= before);
    for item in it: arrived
        invariant
            it.seq() == source,
            messages@ == before + stamped(source.take(it.index() as int), now),
    {
        let ghost k = it.index() as int;
        let ghost stood = messages@;
        let mut shown = item;
        shown.added_at = now;
        messages.push(shown);
        proof {
            assert(source.take(k + 1) =~= source.take(k).push(source[k]));
            assert(stamped(source.take(k + 1), now) =~= stamped(source.take(k), now).push(shown));
            assert(before + stamped(source.take(k + 1), now) =~= stood.push(shown));
        }
    }
    assert(source.take(source.len() as int) =~= source);
    keep_newest(messages, max_buffered);
    if ui.scroll > 0 {
        ui.scroll = ui.scroll + added;
    }
    true
}

/// Whether a message is still shown at `now`.
pub open spec fn survives(m: ChatMessageItem, fade_secs: u64, mode: FadeMode, now: Instant) -> bool {
    fade::fade_decision(now.since(m.added_at) as int, fade_secs, mode) != FadeAction::Remove
}

/// The messages that are still shown at `now`.
pub open spec fn survivors(
    messages: Seq<ChatMessageItem>,
    fade_secs: u64,
    mode: FadeMode,
    now: Instant,
) -> Seq<ChatMessageItem> {
    messages.filter(|m: ChatMessageItem| survives(m, fade_secs, mode, now))
}

proof fn lemma_survivors_step(
    messages: Seq<ChatMessageItem>,
    k: int,
    fade_secs: u64,
    mode: FadeMode,
    now: Instant,
)
    requires
        0 <= k < messages.len(),
    ensures
        survivors(messages.take(k + 1), fade_secs, mode, now) == if survives(
            messages[k],
            fade_secs,
            mode,
            now,
        ) {
            survivors(messages.take(k), fade_secs, mode, now).push(messages[k])
        } else {
            survivors(messages.take(k), fade_secs, mode, now)
        },
{
    reveal(Seq::filter);
    assert(messages.take(k + 1).drop_last() =~= messages.take(k));
}

/// Let old messages fade out of the buffer, even when no new ones arrive. Returns whether any has
/// gone; the offset then stays inside the buffer.
pub fn fade_out(
    messages: &mut Vec<ChatMessageItem>,
    ui: &mut Ui,
    config: &ChatConfig,
    now: Instant,
) -> (redraw: bool)
    ensures
        final(messages)@ == survivors(
            old(messages)@,
            config.message_fade_secs,
            fade::fade_mode(config.message_fade_mode@),
            now,
        ),
        redraw == (final(messages)@.len() != old(messages)@.len()),
        final(ui)@ == (UiState {
            scroll: if redraw && old(ui).scroll > final(messages)@.len() {
                final(messages)@.len()
            } else {
                old(ui).scroll as nat
            },
            ..old(ui)@
        }),
{
    let secs: u64 = config.message_fade_secs;
    let ghost source = messages@;
    let mode = FadeMode::parse(config.message_fade_mode.as_str());
    let before: usize = messages.len();
    let mut buffer: Vec<ChatMessageItem> = Vec::new();
    std::mem::swap(messages, &mut buffer);
    assert(survivors(source.take(0), secs, mode, now) =~= Seq::empty()) by {
        reveal(Seq::filter);
    }
    for item in it: buffer
        invariant
            it.seq() == source,
            messages@ == survivors(source.take(it.index() as int), secs, mode, now),
    {
        let ghost k = it.index() as int;
        proof {
            lemma_survivors_step(source, k, secs, mode, now);
        }
        let age = now.saturating_duration_since(item.added_at);
        if fade::fade_action(age, secs, mode) != FadeAction::Remove {
            messages.push(item);
        }
    }
    assert(source.take(source.len() as int) =~= source);
    let after: usize = messages.len();
    if after != before {
        if ui.scroll > after {
            ui.scroll = after;
        }
        true
    } else {
        false
    }
}

/// A message that has come on screen, and what is to be done about its images.
pub struct Arrival {
    pub item: ChatMessageItem,
    pub plan: EmbedPlan,
}

/// Whether `list` holds the messages `items` in their order, each with what is to be done about its
/// images.
pub open spec fn arrivals(
    list: Seq<Arrival>,
    items: Seq<ChatMessageItem>,
    config: ChatConfig,
    image_map: tokens::Entries,
) -> bool {
    &&& list.len() == items.len()
    &&& forall|i: int|
        #![trigger list[i]]
        0 <= i < list.len() ==> list[i].item == items[i] && embed::planned(
            list[i].plan,
            config.images_mode@,
            config.image_min_rank@,
            items[i],
            image_map,
        )
}

/// What to do about the images of messages that come on screen.
fn plan_arrivals(items: &Vec<ChatMessageItem>, config: &ChatConfig, image_map: &TokenMap) -> (list: Vec<
    Arrival,
>)
    ensures
        arrivals(list@, items@, *config, image_map@),
{
    let mut list: Vec<Arrival> = Vec::new();
    let mut i: usize = 0;
    while i < items.len()
        invariant
            i <= items@.len(),
            arrivals(list@, items@.take(i as int), *config, image_map@),
        decreases items@.len() - i,
    {
        let plan = embed::embed_plan(
            config.images_mode.as_str(),
            config.image_min_rank.as_str(),
            &items[i],
            image_map,
        );
        list.push(Arrival { item: items[i].clone(), plan });
        i += 1;
    }
    assert(items@.take(items@.len() as int) =~= items@);
    list
}

/// The buffer after the messages that are due at `now` have come in, and those that have lived
/// long enough at `fade_now` have gone.
pub open spec fn refreshed(
    messages: Seq<ChatMessageItem>,
    arrived: Seq<ChatMessageItem>,
    config: ChatConfig,
    now: Instant,
    fade_now: Instant,
) -> Seq<ChatMessageItem> {
    survivors(
        admitted(messages, arrived, config.max_buffered as nat, now),
        config.message_fade_secs,
        fade::fade_mode(config.message_fade_mode@),
        fade_now,
    )
}

/// The offset after `arrived` messages have come into a buffer and `len` are left of the `full` that
/// it then held.
pub open spec fn refreshed_scroll(scroll: nat, arrived: nat, full: nat, len: nat) -> nat {
    let moved = if scroll > 0 {
        scroll + arrived
    } else {
        0
    };
    if len != full && moved > len {
        len
    } else {
        moved
    }
}

/// What happens between two frames: the queue lets out what is due at `now`, the buffer takes it in,
/// and old messages fade out at `fade_now`. Returns what has come on screen.
pub fn refresh(
    pending: &mut EasingQueue,
    messages: &mut Vec<ChatMessageItem>,
    ui: &mut Ui,
    config: &ChatConfig,
    image_map: &TokenMap,
    now: Instant,
    fade_now: Instant,
) -> (list: Vec<Arrival>)
    requires
        old(ui).scroll + old(pending).due_at(now) <= usize::MAX,
    ensures
        final(pending).buffer@ == old(pending).buffer@.skip(old(pending).due_at(now) as int),
        final(pending).enabled == old(pending).enabled,
        final(pending).interval == old(pending).interval,
        final(pending).last_emit == if old(pending).enabled && list@.len() > 0 {
            Some(now)
        } else {
            old(pending).last_emit
        },
        arrivals(
            list@,
            old(pending).buffer@.take(old(pending).due_at(now) as int),
            *config,
            image_map@,
        ),
        final(messages)@ == refreshed(
            old(messages)@,
            old(pending).buffer@.take(old(pending).due_at(now) as int),
            *config,
            now,
            fade_now,
        ),
        final(ui)@ == (UiState {
            scroll: refreshed_scroll(
                old(ui).scroll as nat,
                list@.len(),
                admitted(
                    old(messages)@,
                    old(pending).buffer@.take(old(pending).due_at(now) as int),
                    config.max_buffered as nat,
                    now,
                ).len(),
                final(messages)@.len(),
            ),
            ..old(ui)@
        }),
{
    let arrived = pending.poll(now);
    let list = plan_arrivals(&arrived, config, image_map);
    let _ = let_in(messages, ui, arrived, config.max_buffered, now);
    let _ = fade_out(messages, ui, config, fade_now);
    list
}

/// Whether the terminal is large enough to draw in.
pub fn large_enough(cols: u16, rows: u16) -> (r: bool)
    ensures
        r == (cols >= 10 && rows >= 6),
{
    cols >= 10 && rows >= 6
}

// ── Laws ──────────────────────────────────────────────────────────────

/// Whether the operator may be where the display is: only who may moderate gets to the menu of
/// moderation actions, with somebody to aim at, and only who may send gets to the input bar.
pub open spec fn entitled(ui: UiState, login: LoginState) -> bool {
    &&& ui.mode == UiMode::ActionMenu || ui.mode == UiMode::TimeoutPrompt ==> login.moderates()
        && ui.action_target is Some
    &&& ui.mode == UiMode::Input ==> login.sends()
}

/// No event brings the operator to a place that is not theirs.
pub proof fn places_need_permission(
    ui: UiState,
    ev: Event,
    login: LoginState,
    messages: Seq<ChatMessageItem>,
)
    requires
        entitled(ui, login),
    ensures
        entitled(happened(ui, ev, login, messages).0, login),
{
}

/// Nobody sends or moderates without permission: a message goes out only for who may send, and is
/// never blank; a moderation action only for who may moderate, and is never without a target.
pub proof fn deeds_need_permission(
    ui: UiState,
    ev: Event,
    login: LoginState,
    messages: Seq<ChatMessageItem>,
)
    requires
        entitled(ui, login),
    ensures
        happened(ui, ev, login, messages).1 matches Deed::Send { platform, text } ==> login.sends()
            && text.len() > 0 && platform == ui.target_platform,
        happened(ui, ev, login, messages).1 is Moderate ==> login.moderates()
            && ui.action_target is Some,
{
}

/// A login that has begun leaves the operator where nothing can go wrong while their rights change.
pub proof fn logins_end_in_the_chat(
    ui: UiState,
    ev: Event,
    login: LoginState,
    messages: Seq<ChatMessageItem>,
    new_login: LoginState,
)
    requires
        happened(ui, ev, login, messages).1 is Login,
    ensures
        happened(ui, ev, login, messages).0.mode == UiMode::Chat,
        entitled(happened(ui, ev, login, messages).0, new_login),
{
}

/// Whoever is known by a version 7 UUID is named by it when they are moderated.
pub proof fn known_users_are_named_by_id(author: Author, duration_secs: Option<i64>)
    requires
        message::is_uuid7(author.3),
    ensures
        aimed_at(author, duration_secs).uuid7 == Some(author.3),
{
    message::ids_have_four_hyphens(author.3);
}

/// The program ends only on `q`, and only in the chat: no other key and no text that is typed ends
/// it.
pub proof fn only_q_quits(
    ui: UiState,
    ev: Event,
    login: LoginState,
    messages: Seq<ChatMessageItem>,
)
    ensures
        happened(ui, ev, login, messages).1 is Quit <==> ui.mode == UiMode::Chat && ev
            == Event::Key(Key::Char('q')),
{
}

/// Keys and the wheel never move the offset beyond the oldest message.
pub proof fn scrolling_stays_in_the_buffer(
    ui: UiState,
    ev: Event,
    login: LoginState,
    messages: Seq<ChatMessageItem>,
)
    requires
        ui.scroll <= messages.len(),
    ensures
        happened(ui, ev, login, messages).0.scroll <= messages.len(),
{
}

/// Scrolling down undoes scrolling up, unless the top was reached.
pub proof fn scrolling_down_undoes_scrolling_up(scroll: nat, n: nat, len: nat)
    requires
        scroll + n <= len,
    ensures
        scrolled_down(scrolled_up(scroll, n, len), n) == scroll,
{
}

/// Backspace undoes a typed character, in every draft.
pub proof fn erasing_undoes_typing(draft: Seq<char>, c: char)
    ensures
        erased(typed(draft, c)) == draft,
{
    assert(erased(typed(draft, c)) =~= draft);
}

/// A timeout draft only ever holds digits.
pub proof fn timeouts_are_numbers(
    ui: UiState,
    ev: Event,
    login: LoginState,
    messages: Seq<ChatMessageItem>,
)
    requires
        numbers::all_digits(ui.timeout_draft),
    ensures
        numbers::all_digits(happened(ui, ev, login, messages).0.timeout_draft),
{
}

/// Going on five times from any choice of platform that the keys can bring about leads back to it.
pub proof fn platforms_come_round(platform: Seq<char>)
    requires
        platform == "twitch"@ || platform == "kick"@ || platform == "youtube"@ || platform
            == "discord"@ || platform == "all"@,
    ensures
        next_platform(next_platform(next_platform(next_platform(next_platform(platform)))))
            == platform,
{
    reveal_strlit("twitch");
    reveal_strlit("kick");
    reveal_strlit("youtube");
    reveal_strlit("discord");
    reveal_strlit("all");
    assert("youtube"@[0] == 'y' && "discord"@[0] == 'd');
    assert("twitch"@.len() == 6 && "kick"@.len() == 4 && "youtube"@.len() == 7 && "discord"@.len()
        == 7 && "all"@.len() == 3);
}

/// The buffer never holds more messages than it may once something has arrived, and what arrived
/// last is in it.
pub proof fn buffer_stays_bounded(
    messages: Seq<ChatMessageItem>,
    arrived: Seq<ChatMessageItem>,
    max: nat,
    now: Instant,
)
    requires
        arrived.len() > 0,
    ensures
        admitted(messages, arrived, max, now).len() <= max,
        max > 0 ==> admitted(messages, arrived, max, now).last() == (ChatMessageItem {
            added_at: now,
            ..arrived.last()
        }),
{
    let all = messages + stamped(arrived, now);
    assert(all.last() == stamped(arrived, now).last());
}

/// While the display is scrolled up, arriving messages do not move it: what it shows is what it
/// showed, but for old messages that had to go.
pub proof fn scrolled_display_stays(
    messages: Seq<ChatMessageItem>,
    arrived: Seq<ChatMessageItem>,
    scroll: nat,
    max: nat,
    config: ChatConfig,
    added: Instant,
    now: Instant,
)
    requires
        arrived.len() > 0,
    ensures
        ({
            let before = render::visible_lines(messages, scroll, config, now);
            let after = render::visible_lines(
                admitted(messages, arrived, max, added),
                scroll + arrived.len(),
                config,
                now,
            );
            after.len() <= before.len() && after == before.skip(before.len() - after.len())
        }),
{
    let all = messages + stamped(arrived, added);
    let kept = newest(all, max);
    let before = render::visible_lines(messages, scroll, config, now);
    let after = render::visible_lines(kept, scroll + arrived.len(), config, now);
    let gone = all.len() - kept.len();
    assert forall|i: int| 0 <= i < after.len() implies after[i] == before[i + gone] by {
        assert(kept[i] == all[i + gone]);
        assert(all[i + gone] == messages[i + gone]);
    }
    assert(after =~= before.skip(before.len() - after.len()));
}

/// A message that has faded out never comes back: fading now and again later leaves what fading
/// later alone would leave.
pub proof fn faded_messages_stay_gone(
    messages: Seq<ChatMessageItem>,
    fade_secs: u64,
    mode: FadeMode,
    now: Instant,
    later: Instant,
)
    requires
        now.nanos <= later.nanos,
    ensures
        survivors(survivors(messages, fade_secs, mode, now), fade_secs, mode, later) == survivors(
            messages,
            fade_secs,
            mode,
            later,
        ),
    decreases messages.len(),
{
    reveal(Seq::filter);
    if messages.len() > 0 {
        let rest = messages.drop_last();
        faded_messages_stay_gone(rest, fade_secs, mode, now, later);
        let kept = survivors(messages, fade_secs, mode, now);
        if survives(messages.last(), fade_secs, mode, now) {
            assert(kept.drop_last() =~= survivors(rest, fade_secs, mode, now));
            assert(kept.last() == messages.last());
        }
    }
}

/// With a lifetime of zero no message ever fades out.
pub proof fn zero_lifetime_keeps_all(messages: Seq<ChatMessageItem>, mode: FadeMode, now: Instant)
    ensures
        survivors(messages, 0, mode, now) == messages,
    decreases messages.len(),
{
    reveal(Seq::filter);
    if messages.len() > 0 {
        zero_lifetime_keeps_all(messages.drop_last(), mode, now);
        assert(messages.drop_last().push(messages.last()) =~= messages);
    }
}

// ── Laws of moderating ────────────────────────────────────────────────

/// Enter in the chat picks the author of the last message that is visible: of the newest one where
/// the display is not scrolled, and else of the one that scrolling has brought to the bottom. Where
/// everything is scrolled away it is the oldest. Nobody else is ever picked.
pub proof fn enter_picks_the_last_visible_author(
    ui: UiState,
    login: LoginState,
    messages: Seq<ChatMessageItem>,
    config: ChatConfig,
    now: Instant,
)
    requires
        ui.mode == UiMode::Chat,
        login.effective.is_moderator || login.effective.is_admin || login.effective.is_owner,
        messages.len() > 0,
    ensures
        ({
            let after = happened(ui, Event::Key(Key::Enter), login, messages).0;
            let seen = render::visible_lines(messages, ui.scroll, config, now);
            let item = if ui.scroll == 0 {
                messages.last()
            } else if seen.len() > 0 {
                messages[seen.len() - 1]
            } else {
                messages.first()
            };
            &&& after.mode == UiMode::ActionMenu
            &&& after.action_target == Some(
                (item.username@, item.user_handle@, item.platform@, item.user_uuid7@),
            )
            &&& seen.len() > 0 ==> seen.last().username == item.username@
            &&& after.scroll == ui.scroll
        }),
{
}

/// Whoever is picked is the author of the message at the very bottom of the frame.
pub proof fn enter_picks_whom_the_frame_ends_with(
    ui: UiState,
    login: LoginState,
    messages: Seq<ChatMessageItem>,
    config: ChatConfig,
    now: Instant,
    cols: nat,
    rows: nat,
)
    requires
        ui.mode == UiMode::Chat,
        login.effective.is_moderator || login.effective.is_admin || login.effective.is_owner,
        ui.scroll < messages.len(),
        rows >= 6,
    ensures
        ({
            let after = happened(ui, Event::Key(Key::Enter), login, messages).0;
            let lines = render::frame_lines(cols, rows, messages, ui.scroll, config, now);
            &&& lines.len() > 0
            &&& after.action_target matches Some(author) && author.0 == lines.last().username
        }),
{
    let seen = render::visible_lines(messages, ui.scroll, config, now);
    render::newest_message_is_shown(seen, cols, render::budget(rows));
    enter_picks_the_last_visible_author(ui, login, messages, config, now);
}

/// Without the right to moderate, or with nobody to moderate, Enter in the chat does nothing.
pub proof fn enter_needs_a_moderator(
    ui: UiState,
    login: LoginState,
    messages: Seq<ChatMessageItem>,
)
    requires
        ui.mode == UiMode::Chat,
        messages.len() == 0 || !(login.effective.is_moderator || login.effective.is_admin
            || login.effective.is_owner),
    ensures
        happened(ui, Event::Key(Key::Enter), login, messages) == (ui, Deed::Nothing),
{
}

/// What a moderation action is aimed at is whom the operator picked: their handle on their platform,
/// and nothing of anybody else.
pub proof fn actions_hit_whom_was_picked(
    ui: UiState,
    ev: Event,
    login: LoginState,
    messages: Seq<ChatMessageItem>,
)
    ensures
        happened(ui, ev, login, messages).1 matches Deed::Moderate { query_id, target } ==> (
        ui.action_target matches Some(author) && {
            &&& target.handle == author.1
            &&& target.platform == author.2
            &&& target.uuid7 is Some ==> target.uuid7 == Some(author.3)
            &&& !author.3.contains('-') ==> target.uuid7 is None
            &&& ui.mode == UiMode::ActionMenu || ui.mode == UiMode::TimeoutPrompt
            &&& happened(ui, ev, login, messages).0.mode == UiMode::Chat
            &&& target.duration_secs is Some <==> query_id == "mod_timeout"@
        }),
{
    if let Some(author) = ui.action_target {
        text::copies_add_up(author.3, Seq::empty(), '-');
    }
    reveal_strlit("mod_timeout");
    reveal_strlit("mod_ban");
    reveal_strlit("mod_commend");
    reveal_strlit("mod_reprimand");
    assert("mod_timeout"@.len() == 11 && "mod_timeout"@[4] == 't');
    assert("mod_commend"@[4] == 'c');
    assert("mod_ban"@.len() == 7 && "mod_reprimand"@.len() == 13);
}

/// Each entry of the menu of moderation actions is chosen with the digit it begins with, and asks
/// the engine for the action it names, without a duration; the timeout asks for its length first.
pub proof fn moderation_menu_keeps_its_word(
    ui: Ui,
    login: LoginState,
    messages: Seq<ChatMessageItem>,
)
    requires
        ui.mode == UiMode::ActionMenu,
        ui.action_target is Some,
    ensures
        ({
            let menu = overlay::action_menu(ui.action_target, ui.result_note@);
            let first = happened(ui@, Event::Key(Key::Char(menu[1][1])), login, messages);
            let second = happened(ui@, Event::Key(Key::Char(menu[2][1])), login, messages);
            let third = happened(ui@, Event::Key(Key::Char(menu[3][1])), login, messages);
            let fourth = happened(ui@, Event::Key(Key::Char(menu[4][1])), login, messages);
            let asked = happened(second.0, Event::Key(Key::Enter), login, messages);
            &&& menu[1][1] == '1' && menu[2][1] == '2' && menu[3][1] == '3' && menu[4][1] == '4'
            &&& first.1 matches Deed::Moderate { query_id, target } && query_id == "mod_"@
                + menu[1].skip(4) && target.duration_secs is None
            &&& second.1 is Nothing && second.0.mode == UiMode::TimeoutPrompt
                && second.0.action_target == ui@.action_target && second.0.timeout_draft.len() == 0
            &&& asked.1 matches Deed::Moderate { query_id, target } && query_id == "mod_"@
                + menu[2].skip(4)
            &&& third.1 matches Deed::Moderate { query_id, target } && query_id == "mod_"@
                + text::before(menu[3].skip(4), ' ') && target.duration_secs is None
            &&& fourth.1 matches Deed::Moderate { query_id, target } && query_id == "mod_"@
                + text::before(menu[4].skip(4), ' ') && target.duration_secs is None
        }),
{
    let menu = overlay::action_menu(ui.action_target, ui.result_note@);
    reveal_strlit("mod_");
    reveal_strlit("mod_ban");
    reveal_strlit("mod_timeout");
    reveal_strlit("mod_commend");
    reveal_strlit("mod_reprimand");
    reveal_strlit(" 1: ban");
    reveal_strlit(" 2: timeout");
    reveal_strlit(" 3: commend (+1 score)");
    reveal_strlit(" 4: reprimand (-1 score)");
    reveal_strlit("commend");
    reveal_strlit("reprimand");
    assert(menu[1] == " 1: ban"@);
    assert(menu[2] == " 2: timeout"@);
    assert(menu[3] == " 3: commend (+1 score)"@);
    assert(menu[4] == " 4: reprimand (-1 score)"@);
    assert("mod_"@ + menu[1].skip(4) =~= "mod_ban"@);
    assert("mod_"@ + menu[2].skip(4) =~= "mod_timeout"@);
    let c = menu[3].skip(4);
    assert(c =~= "commend"@ + seq![' '] + c.skip(8));
    text::text_before_is_kept("commend"@, ' ', c.skip(8));
    assert("mod_"@ + "commend"@ =~= "mod_commend"@);
    let r = menu[4].skip(4);
    assert(r =~= "reprimand"@ + seq![' '] + r.skip(10));
    text::text_before_is_kept("reprimand"@, ' ', r.skip(10));
    assert("mod_"@ + "reprimand"@ =~= "mod_reprimand"@);
}

// ── Laws of logging in ────────────────────────────────────────────────

/// Each entry of the login menu is chosen with the digit it begins with and leads to a login with
/// the platform it names; the last one leads back to the chat.
pub proof fn login_menu_keeps_its_word(
    ui: Ui,
    login: LoginState,
    messages: Seq<ChatMessageItem>,
    who: Option<LoginState>,
)
    requires
        ui.mode == UiMode::LoginMenu,
    ensures
        ({
            let menu = overlay::login_menu(ui.login_note@, who);
            let first = happened(ui@, Event::Key(Key::Char(menu[1][1])), login, messages);
            let second = happened(ui@, Event::Key(Key::Char(menu[2][1])), login, messages);
            let third = happened(ui@, Event::Key(Key::Char(menu[3][1])), login, messages);
            let fourth = happened(ui@, Event::Key(Key::Char(menu[4][1])), login, messages);
            &&& menu[1][1] == '1' && menu[2][1] == '2' && menu[3][1] == '3' && menu[4][1] == '4'
            &&& first.1 matches Deed::Login { platform, .. } && platform == text::lowered(
                menu[1].skip(4),
            )
            &&& second.1 is Nothing && second.0.mode == UiMode::KickHandle
                && second.0.kick_handle_draft.len() == 0 && text::lowered(
                text::before(menu[2].skip(4), ' '),
            ) == "kick"@
            &&& third.1 matches Deed::Login { platform, .. } && platform == text::lowered(
                menu[3].skip(4),
            )
            &&& fourth.1 is Nothing && fourth.0.mode == UiMode::Chat
        }),
{
    let menu = overlay::login_menu(ui.login_note@, who);
    reveal_strlit(" 1: Twitch");
    reveal_strlit(" 2: Kick (enter handle after auth)");
    reveal_strlit(" 3: YouTube");
    reveal_strlit(" 4: cancel");
    reveal_strlit("twitch");
    reveal_strlit("kick");
    reveal_strlit("Kick");
    reveal_strlit("youtube");
    assert(menu[1] == " 1: Twitch"@);
    assert(menu[2] == " 2: Kick (enter handle after auth)"@);
    assert(menu[3] == " 3: YouTube"@);
    assert(menu[4] == " 4: cancel"@);
    assert(text::lowered(menu[1].skip(4)) =~= "twitch"@);
    assert(text::lowered(menu[3].skip(4)) =~= "youtube"@);
    let k = menu[2].skip(4);
    assert(k =~= "Kick"@ + seq![' '] + k.skip(5));
    text::text_before_is_kept("Kick"@, ' ', k.skip(5));
    assert(text::lowered("Kick"@) =~= "kick"@);
}

// ── Laws of typing ────────────────────────────────────────────────────

/// The display after the characters of a text have been typed one after the other.
pub open spec fn typed_out(
    ui: UiState,
    s: Seq<char>,
    login: LoginState,
    messages: Seq<ChatMessageItem>,
) -> UiState
    decreases s.len(),
{
    if s.len() == 0 {
        ui
    } else {
        happened(
            typed_out(ui, s.drop_last(), login, messages),
            Event::Key(Key::Char(s.last())),
            login,
            messages,
        ).0
    }
}

proof fn lemma_typed_out(
    ui: UiState,
    s: Seq<char>,
    login: LoginState,
    messages: Seq<ChatMessageItem>,
)
    ensures
        ui.mode == UiMode::Input ==> typed_out(ui, s, login, messages) == (UiState {
            draft: ui.draft + s,
            ..ui
        }),
        ui.mode == UiMode::KickHandle ==> typed_out(ui, s, login, messages) == (UiState {
            kick_handle_draft: ui.kick_handle_draft + s,
            ..ui
        }),
        ui.mode == UiMode::TimeoutPrompt && numbers::all_digits(s) ==> typed_out(
            ui,
            s,
            login,
            messages,
        ) == (UiState { timeout_draft: ui.timeout_draft + s, ..ui }),
    decreases s.len(),
{
    if s.len() > 0 {
        let front = s.drop_last();
        lemma_typed_out(ui, front, login, messages);
        assert(ui.draft + s =~= (ui.draft + front).push(s.last()));
        assert(ui.kick_handle_draft + s =~= (ui.kick_handle_draft + front).push(s.last()));
        assert(ui.timeout_draft + s =~= (ui.timeout_draft + front).push(s.last()));
        if numbers::all_digits(s) {
            assert(numbers::is_digit(s[s.len() - 1]));
            assert forall|i: int| 0 <= i < front.len() implies numbers::is_digit(
                #[trigger] front[i],
            ) by {
                assert(front[i] == s[i]);
            }
        }
    } else {
        assert(ui.draft + s =~= ui.draft);
        assert(ui.kick_handle_draft + s =~= ui.kick_handle_draft);
        assert(ui.timeout_draft + s =~= ui.timeout_draft);
    }
}

/// What is typed is what is sent: `i`, the characters of a text and Enter send that text, without
/// the white space around it, to the platform that is chosen, and lead back to the chat.
pub proof fn typed_message_is_sent(
    ui: UiState,
    front: Seq<char>,
    s: Seq<char>,
    back: Seq<char>,
    login: LoginState,
    messages: Seq<ChatMessageItem>,
)
    requires
        ui.mode == UiMode::Chat,
        login.send_scope || login.effective.is_moderator || login.effective.is_admin
            || login.effective.is_owner,
        text::all_white(front),
        s.len() > 0,
        text::tight(s),
        text::all_white(back),
    ensures
        ({
            let open = happened(ui, Event::Key(Key::Char('i')), login, messages).0;
            let full = typed_out(open, front + s + back, login, messages);
            let done = happened(full, Event::Key(Key::Enter), login, messages);
            &&& open.mode == UiMode::Input && open.draft.len() == 0
            &&& full.draft == front + s + back
            &&& done.1 == (Deed::Send { platform: ui.target_platform, text: s })
            &&& done.0.mode == UiMode::Chat && done.0.draft.len() == 0
        }),
{
    let open = happened(ui, Event::Key(Key::Char('i')), login, messages).0;
    lemma_typed_out(open, front + s + back, login, messages);
    assert(open.draft + (front + s + back) =~= front + s + back);
    text::trimming_frees_the_text(front, s, back);
}

/// Whoever may not send cannot begin to write, and is told so; a blank text is not sent.
pub proof fn sending_needs_permission_and_words(
    ui: UiState,
    login: LoginState,
    messages: Seq<ChatMessageItem>,
)
    ensures
        ui.mode == UiMode::Chat && !(login.send_scope || login.effective.is_moderator
            || login.effective.is_admin || login.effective.is_owner) ==> {
            let after = happened(ui, Event::Key(Key::Char('i')), login, messages);
            after.1 is Nothing && after.0.mode == UiMode::Chat && after.0.result_note.len() > 0
                && after.0.draft == ui.draft
        },
        ui.mode == UiMode::Input && text::all_white(ui.draft) ==> happened(
            ui,
            Event::Key(Key::Enter),
            login,
            messages,
        ).1 is Nothing,
{
    reveal_strlit("not allowed to send — log in with mod perms");
    text::lemma_trimmed_empty(ui.draft);
}

/// `l`, `2`, the characters of a handle and Enter log the operator in with Kick under that handle.
pub proof fn typed_handle_logs_in_with_kick(
    ui: UiState,
    front: Seq<char>,
    s: Seq<char>,
    back: Seq<char>,
    login: LoginState,
    messages: Seq<ChatMessageItem>,
)
    requires
        ui.mode == UiMode::Chat,
        text::all_white(front),
        text::tight(s),
        text::all_white(back),
    ensures
        ({
            let menu = happened(ui, Event::Key(Key::Char('l')), login, messages).0;
            let asked = happened(menu, Event::Key(Key::Char('2')), login, messages).0;
            let full = typed_out(asked, front + s + back, login, messages);
            let done = happened(full, Event::Key(Key::Enter), login, messages);
            &&& menu.mode == UiMode::LoginMenu
            &&& s.len() > 0 ==> done.1 == (Deed::Login { platform: "kick"@, kick_handle: s })
                && done.0.mode == UiMode::Chat
            &&& s.len() == 0 ==> done.1 is Nothing && done.0.mode == UiMode::KickHandle
                && done.0.login_note.len() > 0
        }),
{
    let menu = happened(ui, Event::Key(Key::Char('l')), login, messages).0;
    let asked = happened(menu, Event::Key(Key::Char('2')), login, messages).0;
    lemma_typed_out(asked, front + s + back, login, messages);
    assert(asked.kick_handle_draft + (front + s + back) =~= front + s + back);
    text::trimming_frees_the_text(front, s, back);
    reveal_strlit("enter your kick username");
}

/// A number that is typed as the length of a timeout is its length in seconds; where nothing is
/// typed it is the five minutes that the prompt speaks of. Characters that are no digits do not
/// count.
pub proof fn typed_number_is_the_timeout(
    ui: UiState,
    n: nat,
    c: char,
    login: LoginState,
    messages: Seq<ChatMessageItem>,
)
    requires
        ui.mode == UiMode::ActionMenu,
        ui.action_target is Some,
        n <= i64::MAX,
    ensures
        ({
            let asked = happened(ui, Event::Key(Key::Char('2')), login, messages).0;
            let full = typed_out(asked, numbers::digits(n), login, messages);
            let done = happened(full, Event::Key(Key::Enter), login, messages);
            let at_once = happened(asked, Event::Key(Key::Enter), login, messages);
            &&& done.1 matches Deed::Moderate { query_id, target } && query_id == "mod_timeout"@
                && target.duration_secs == Some(n as i64)
            &&& at_once.1 matches Deed::Moderate { query_id, target } && target.duration_secs
                == Some(300i64)
            &&& !('0' <= c <= '9') ==> happened(full, Event::Key(Key::Char(c)), login, messages)
                == (full, Deed::Nothing)
        }),
        text::has_sub(" Timeout duration in seconds (default 300):"@, numbers::digits(300)),
{
    let asked = happened(ui, Event::Key(Key::Char('2')), login, messages).0;
    let s = numbers::digits(n);
    numbers::lemma_digits(n);
    lemma_typed_out(asked, s, login, messages);
    assert(asked.timeout_draft + s =~= s);
    numbers::signs_are_read(n);
    numbers::other_texts_are_no_numbers(asked.timeout_draft);
    numbers::digits_are_decimal(30, 0);
    numbers::digits_are_decimal(3, 0);
    numbers::digits_are_decimal(0, 3);
    reveal_strlit("0123456789");
    reveal_strlit(" Timeout duration in seconds (default 300):");
    let t = " Timeout duration in seconds (default 300):"@;
    assert(numbers::digits(300) =~= seq!['3', '0', '0']);
    assert(t.subrange(38, 41) =~= seq!['3', '0', '0']);
    assert(text::matches_at(t, numbers::digits(300), 38));
}

/// Backspace takes the last character that was typed away again, in every place where one types.
pub proof fn backspace_undoes_a_character(
    ui: UiState,
    c: char,
    login: LoginState,
    messages: Seq<ChatMessageItem>,
)
    requires
        ui.mode == UiMode::Input || ui.mode == UiMode::KickHandle || (ui.mode
            == UiMode::TimeoutPrompt && '0' <= c <= '9'),
    ensures
        ({
            let one = happened(ui, Event::Key(Key::Char(c)), login, messages);
            let none = happened(one.0, Event::Key(Key::Backspace), login, messages);
            one.0 != ui && one.1 is Nothing && none == (ui, Deed::Nothing)
        }),
{
    let one = happened(ui, Event::Key(Key::Char(c)), login, messages).0;
    assert(ui.draft.push(c).drop_last() =~= ui.draft);
    assert(ui.kick_handle_draft.push(c).drop_last() =~= ui.kick_handle_draft);
    assert(ui.timeout_draft.push(c).drop_last() =~= ui.timeout_draft);
    assert(ui.draft.push(c).len() == ui.draft.len() + 1);
    assert(ui.kick_handle_draft.push(c).len() == ui.kick_handle_draft.len() + 1);
    assert(ui.timeout_draft.push(c).len() == ui.timeout_draft.len() + 1);
}

/// Tab goes through the platforms in the order of the login menu, then to Discord, to all of them
/// and round again; none is left out.
pub proof fn tab_goes_through_the_platforms(
    ui: UiState,
    login: LoginState,
    messages: Seq<ChatMessageItem>,
)
    requires
        ui.mode == UiMode::Input,
        ui.target_platform == "all"@,
    ensures
        ({
            let tab = Event::Key(Key::Tab);
            let a = happened(ui, tab, login, messages).0;
            let b = happened(a, tab, login, messages).0;
            let c = happened(b, tab, login, messages).0;
            let d = happened(c, tab, login, messages).0;
            let e = happened(d, tab, login, messages).0;
            let menu = overlay::login_menu(Seq::empty(), None);
            &&& a.target_platform == text::lowered(menu[1].skip(4))
            &&& b.target_platform == text::lowered(text::before(menu[2].skip(4), ' '))
            &&& c.target_platform == text::lowered(menu[3].skip(4))
            &&& d.target_platform == "discord"@
            &&& e == ui
        }),
{
    let menu = overlay::login_menu(Seq::empty(), None);
    reveal_strlit(" 1: Twitch");
    reveal_strlit(" 2: Kick (enter handle after auth)");
    reveal_strlit(" 3: YouTube");
    reveal_strlit("twitch");
    reveal_strlit("kick");
    reveal_strlit("Kick");
    reveal_strlit("youtube");
    reveal_strlit("discord");
    reveal_strlit("all");
    assert(menu[1] == " 1: Twitch"@);
    assert(menu[2] == " 2: Kick (enter handle after auth)"@);
    assert(menu[3] == " 3: YouTube"@);
    assert(text::lowered(menu[1].skip(4)) =~= "twitch"@);
    assert(text::lowered(menu[3].skip(4)) =~= "youtube"@);
    let k = menu[2].skip(4);
    assert(k =~= "Kick"@ + seq![' '] + k.skip(5));
    text::text_before_is_kept("Kick"@, ' ', k.skip(5));
    assert(text::lowered("Kick"@) =~= "kick"@);
    assert("youtube"@[0] == 'y' && "discord"@[0] == 'd');
    assert("twitch"@.len() == 6 && "kick"@.len() == 4 && "youtube"@.len() == 7 && "discord"@.len()
        == 7 && "all"@.len() == 3);
}

/// Escape never does anything but lead one step back: from a prompt to its menu, and from a menu or
/// from writing to the chat. What was picked or written is given up on the way to the chat.
pub proof fn escape_leads_back(
    ui: UiState,
    login: LoginState,
    messages: Seq<ChatMessageItem>,
)
    ensures
        ({
            let after = happened(ui, Event::Key(Key::Esc), login, messages);
            &&& after.1 is Nothing
            &&& after.0.scroll == ui.scroll
            &&& ui.mode == UiMode::Chat ==> after.0 == ui
            &&& ui.mode == UiMode::LoginMenu ==> after.0.mode == UiMode::Chat
            &&& ui.mode == UiMode::KickHandle ==> after.0.mode == UiMode::LoginMenu
            &&& ui.mode == UiMode::ActionMenu ==> after.0.mode == UiMode::Chat
                && after.0.action_target is None
            &&& ui.mode == UiMode::TimeoutPrompt ==> after.0.mode == UiMode::ActionMenu
                && after.0.action_target == ui.action_target
            &&& ui.mode == UiMode::Input ==> after.0.mode == UiMode::Chat && after.0.draft.len()
                == 0
        }),
{
}

// ── Laws of scrolling ─────────────────────────────────────────────────

/// Each step up hides one more of the newest messages and each step down brings one back, with the
/// arrow as with the letter; the ends stop it.
pub proof fn steps_move_the_view_by_one(
    ui: UiState,
    login: LoginState,
    messages: Seq<ChatMessageItem>,
    config: ChatConfig,
    now: Instant,
)
    requires
        ui.mode == UiMode::Chat,
        ui.scroll <= messages.len(),
    ensures
        ({
            let up = happened(ui, Event::Key(Key::Up), login, messages).0;
            let down = happened(ui, Event::Key(Key::Down), login, messages).0;
            let here = render::visible_lines(messages, ui.scroll, config, now);
            let above = render::visible_lines(messages, up.scroll, config, now);
            let below = render::visible_lines(messages, down.scroll, config, now);
            &&& happened(ui, Event::Key(Key::Char('k')), login, messages).0 == up
            &&& happened(ui, Event::Key(Key::Char('j')), login, messages).0 == down
            &&& here.len() > 0 ==> above == here.drop_last()
            &&& here.len() == 0 ==> above == here
            &&& ui.scroll > 0 ==> below.len() == here.len() + 1 && below.drop_last() == here
            &&& ui.scroll == 0 ==> below == here && here.len() == messages.len()
            &&& up == UiState { scroll: up.scroll, ..ui }
            &&& down == UiState { scroll: down.scroll, ..ui }
        }),
{
    let up = happened(ui, Event::Key(Key::Up), login, messages).0;
    let down = happened(ui, Event::Key(Key::Down), login, messages).0;
    let here = render::visible_lines(messages, ui.scroll, config, now);
    let above = render::visible_lines(messages, up.scroll, config, now);
    let below = render::visible_lines(messages, down.scroll, config, now);
    if here.len() > 0 {
        assert(above =~= here.drop_last());
    } else {
        assert(above =~= here);
    }
    if ui.scroll > 0 {
        assert(below.drop_last() =~= here);
    }
}

/// A notch of the wheel is worth three steps, in every mode, and changes nothing else.
pub proof fn wheel_takes_three_steps(
    ui: UiState,
    login: LoginState,
    messages: Seq<ChatMessageItem>,
)
    requires
        ui.scroll <= messages.len(),
    ensures
        ({
            let chat = UiState { mode: UiMode::Chat, ..ui };
            let up = Event::Key(Key::Up);
            let down = Event::Key(Key::Down);
            let up1 = happened(chat, up, login, messages).0;
            let up2 = happened(up1, up, login, messages).0;
            let up3 = happened(up2, up, login, messages).0;
            let down1 = happened(chat, down, login, messages).0;
            let down2 = happened(down1, down, login, messages).0;
            let down3 = happened(down2, down, login, messages).0;
            &&& happened(ui, Event::ScrollUp, login, messages) == (
                UiState { mode: ui.mode, ..up3 },
                Deed::Nothing,
            )
            &&& happened(ui, Event::ScrollDown, login, messages) == (
                UiState { mode: ui.mode, ..down3 },
                Deed::Nothing,
            )
        }),
{
}

// ── Laws of the buffer ────────────────────────────────────────────────

/// Arriving messages come behind those that are there, in the order of their arrival and stamped
/// with the time of it; where they are too many together, exactly the oldest ones go.
pub proof fn buffer_holds_the_newest_in_order(
    messages: Seq<ChatMessageItem>,
    arrived: Seq<ChatMessageItem>,
    max: nat,
    now: Instant,
    k: int,
)
    requires
        arrived.len() > 0,
    ensures
        ({
            let after = admitted(messages, arrived, max, now);
            let total = messages.len() + arrived.len();
            &&& after.len() == if total < max {
                total
            } else {
                max
            }
            &&& 0 <= k < after.len() && k < arrived.len() ==> after[after.len() - 1 - k] == (
            ChatMessageItem { added_at: now, ..arrived[arrived.len() - 1 - k] })
            &&& arrived.len() <= k < after.len() ==> after[after.len() - 1 - k]
                == messages[messages.len() + arrived.len() - 1 - k]
        }),
        admitted(messages, Seq::empty(), max, now) == messages,
{
    let all = messages + stamped(arrived, now);
    let after = admitted(messages, arrived, max, now);
    if 0 <= k < after.len() {
        assert(after[after.len() - 1 - k] == all[all.len() - 1 - k]);
    }
}

/// The offset follows the newest message as long as the display is not scrolled; a scrolled display
/// moves up by as many messages as arrive, and never beyond what is left.
pub proof fn offset_follows_the_messages(scroll: nat, arrived: nat, full: nat, len: nat)
    requires
        len <= full,
    ensures
        refreshed_scroll(0, arrived, full, len) == 0,
        scroll > 0 ==> refreshed_scroll(scroll, arrived, full, full) == scroll + arrived,
        len < full ==> refreshed_scroll(scroll, arrived, full, len) <= len,
        scroll > 0 && scroll + arrived <= len ==> refreshed_scroll(scroll, arrived, full, len)
            == scroll + arrived,
{
}

/// A message stays exactly as long as its lifetime has not passed since it came on screen, and
/// those that stay keep their order.
pub proof fn messages_live_their_lifetime(
    messages: Seq<ChatMessageItem>,
    fade_secs: u64,
    mode: FadeMode,
    now: Instant,
    m: ChatMessageItem,
)
    ensures
        survivors(messages, fade_secs, mode, now).contains(m) <==> messages.contains(m) && (fade_secs
            == 0 || now.nanos < m.added_at.nanos + fade_secs * 1_000_000_000),
        survivors(messages, fade_secs, mode, now).len() <= messages.len(),
    decreases messages.len(),
{
    reveal(Seq::filter);
    if messages.len() > 0 {
        let front = messages.drop_last();
        let last = messages.last();
        messages_live_their_lifetime(front, fade_secs, mode, now, m);
        let kept = survivors(messages, fade_secs, mode, now);
        let before = survivors(front, fade_secs, mode, now);
        assert(messages[messages.len() - 1] == last);
        if messages.contains(m) {
            let i = choose|i: int| 0 <= i < messages.len() && messages[i] == m;
            if i < messages.len() - 1 {
                assert(front[i] == m);
            }
        }
        if front.contains(m) {
            let i = choose|i: int| 0 <= i < front.len() && front[i] == m;
            assert(messages[i] == m);
        }
        if survives(last, fade_secs, mode, now) {
            assert(kept == before.push(last));
            assert(kept[before.len() as int] == last);
            if before.contains(m) {
                let i = choose|i: int| 0 <= i < before.len() && before[i] == m;
                assert(kept[i] == m);
            }
            if kept.contains(m) {
                let i = choose|i: int| 0 <= i < kept.len() && kept[i] == m;
                if i < before.len() {
                    assert(before[i] == m);
                }
            }
        }
    }
}

/// Fading takes single messages out and moves none: what is left of two stretches is what is left of
/// the first followed by what is left of the second.
pub proof fn fading_keeps_the_order(
    a: Seq<ChatMessageItem>,
    b: Seq<ChatMessageItem>,
    fade_secs: u64,
    mode: FadeMode,
    now: Instant,
)
    ensures
        survivors(a + b, fade_secs, mode, now) == survivors(a, fade_secs, mode, now) + survivors(
            b,
            fade_secs,
            mode,
            now,
        ),
    decreases b.len(),
{
    reveal(Seq::filter);
    let left = survivors(a, fade_secs, mode, now);
    if b.len() > 0 {
        let front = b.drop_last();
        fading_keeps_the_order(a, front, fade_secs, mode, now);
        assert((a + b).drop_last() =~= a + front);
        let right = survivors(front, fade_secs, mode, now);
        assert(left + right.push(b.last()) =~= (left + right).push(b.last()));
    } else {
        assert(a + b =~= a);
        assert(left + survivors(b, fade_secs, mode, now) =~= left);
    }
}

// ── Laws of what the operator is told ─────────────────────────────────

/// The note on a moderation action names the action; it gives the error exactly where there is one.
pub proof fn notes_tell_what_became_of_it(query_id: Seq<char>, error: Seq<char>)
    ensures
        text::has_prefix(moderation_note(query_id, true, error), query_id),
        text::has_prefix(moderation_note(query_id, false, error), query_id),
        moderation_note(query_id, true, error) == moderation_note(query_id, true, Seq::empty()),
        text::has_sub(moderation_note(query_id, false, error), error),
        moderation_note(query_id, true, error) != moderation_note(query_id, false, error),
{
    let good = moderation_note(query_id, true, error);
    let bad = moderation_note(query_id, false, error);
    assert(good.subrange(0, query_id.len() as int) =~= query_id);
    assert(bad.subrange(0, query_id.len() as int) =~= query_id);
    assert(bad =~= (query_id + " failed: "@) + error + Seq::<char>::empty());
    text::middle_is_found(query_id + " failed: "@, error, Seq::empty());
    reveal_strlit(" applied");
    reveal_strlit(" failed: ");
    assert(good[query_id.len() as int + 1] == 'a');
    assert(bad[query_id.len() as int + 1] == 'f');
}

/// A new login is welcomed with its platform, its handle and the highest role that it has.
pub proof fn welcome_names_the_operator(state: LoginState)
    ensures
        text::has_sub(welcome(state), state.platform@ + " "@ + state.handle@),
        text::has_sub(welcome(state), state.effective.title()),
{
    let name = state.platform@ + " "@ + state.handle@;
    let rest = " — "@ + state.effective.title();
    let none = Seq::<char>::empty();
    assert(welcome(state) =~= "logged in as "@ + name + rest);
    text::middle_is_found("logged in as "@, name, rest);
    assert(welcome(state) =~= ("logged in as "@ + name + " — "@) + state.effective.title() + none);
    text::middle_is_found("logged in as "@ + name + " — "@, state.effective.title(), none);
}

/// What is no id is never taken for one: neither a text of another length nor one without the
/// hyphens. What is taken for one is handed on as it is.
pub proof fn handles_are_no_ids(author: Author, duration_secs: Option<i64>)
    requires
        forall|i: int| 0 <= i < author.3.len() ==> '\0' <= #[trigger] author.3[i] <= '\u{7f}',
    ensures
        author.3.len() != 36 ==> aimed_at(author, duration_secs).uuid7 is None,
        !author.3.contains('-') ==> aimed_at(author, duration_secs).uuid7 is None,
        aimed_at(author, duration_secs).uuid7 matches Some(u) ==> u == author.3,
        aimed_at(author, duration_secs).duration_secs == duration_secs,
{
    vstd::utf8::is_ascii_chars_encode_utf8(author.3);
    text::copies_add_up(author.3, Seq::empty(), '-');
}

/// A login begins afresh: what was noted of earlier ones and of other actions is gone, and so it is
/// when the menu is opened; nothing of what was written or picked is.
pub proof fn logins_begin_afresh(
    ui: UiState,
    ev: Event,
    login: LoginState,
    messages: Seq<ChatMessageItem>,
)
    ensures
        happened(ui, ev, login, messages).1 is Login ==> {
            let after = happened(ui, ev, login, messages).0;
            after.login_note.len() == 0 && after.result_note.len() == 0 && after.draft == ui.draft
                && after.action_target == ui.action_target && after.scroll == ui.scroll
        },
        ui.mode == UiMode::Chat && ev == Event::Key(Key::Char('l')) ==> {
            let after = happened(ui, ev, login, messages).0;
            after.mode == UiMode::LoginMenu && after.login_note.len() == 0
        },
        happened(ui, ev, login, messages).1 matches Deed::Login { platform, kick_handle } ==> (
        platform == "kick"@ || kick_handle.len() == 0),
{
}

// ── Laws of what keys leave alone ─────────────────────────────────────

/// Each part of the display changes only where it is meant to: by the keys that are for it, in the
/// mode that is for it.
pub proof fn keys_change_only_what_is_theirs(
    ui: UiState,
    ev: Event,
    login: LoginState,
    messages: Seq<ChatMessageItem>,
)
    ensures
        ({
            let (after, deed) = happened(ui, ev, login, messages);
            let chat = ui.mode == UiMode::Chat;
            &&& after.target_platform != ui.target_platform ==> ui.mode == UiMode::Input && ev
                == Event::Key(Key::Tab)
            &&& after.draft != ui.draft ==> ui.mode == UiMode::Input || chat && ev == Event::Key(
                Key::Char('i'),
            )
            &&& after.kick_handle_draft != ui.kick_handle_draft ==> ui.mode == UiMode::KickHandle
                || ui.mode == UiMode::LoginMenu && ev == Event::Key(Key::Char('2'))
            &&& after.timeout_draft != ui.timeout_draft ==> ui.mode == UiMode::TimeoutPrompt
                || ui.mode == UiMode::ActionMenu && ev == Event::Key(Key::Char('2'))
            &&& after.action_target != ui.action_target ==> chat && ev == Event::Key(Key::Enter)
                || ui.mode == UiMode::ActionMenu && ev == Event::Key(Key::Esc)
            &&& after.result_note != ui.result_note ==> chat && (ev == Event::Key(Key::Char('i'))
                || ev == Event::Key(Key::Enter)) || deed is Login
            &&& after.login_note != ui.login_note ==> chat && ev == Event::Key(Key::Char('l'))
                || ui.mode == UiMode::LoginMenu || ui.mode == UiMode::KickHandle && ev
                == Event::Key(Key::Enter)
            &&& after.scroll != ui.scroll ==> ev == Event::ScrollUp || ev == Event::ScrollDown
                || chat && (ev == Event::Key(Key::Up) || ev == Event::Key(Key::Down) || ev
                == Event::Key(Key::Char('k')) || ev == Event::Key(Key::Char('j')))
        }),
{
}

/// Something is done outside the display only on the keys that call for it; every other key in a
/// menu or in the chat does nothing at all.
pub proof fn other_keys_do_nothing(
    ui: UiState,
    ev: Event,
    login: LoginState,
    messages: Seq<ChatMessageItem>,
)
    ensures
        ({
            let (after, deed) = happened(ui, ev, login, messages);
            &&& deed is Moderate ==> ui.mode == UiMode::ActionMenu && (ev == Event::Key(
                Key::Char('1'),
            ) || ev == Event::Key(Key::Char('3')) || ev == Event::Key(Key::Char('4'))) || ui.mode
                == UiMode::TimeoutPrompt && ev == Event::Key(Key::Enter)
            &&& deed is Login ==> ui.mode == UiMode::LoginMenu && (ev == Event::Key(Key::Char('1'))
                || ev == Event::Key(Key::Char('3'))) || ui.mode == UiMode::KickHandle && ev
                == Event::Key(Key::Enter)
            &&& deed is Send ==> ui.mode == UiMode::Input && ev == Event::Key(Key::Enter)
            &&& ev == Event::Other || ev == Event::Key(Key::Other) ==> after == ui && deed is Nothing
            &&& ui.mode == UiMode::ActionMenu && (ev matches Event::Key(Key::Char(c)) && !('1' <= c
                <= '4')) ==> after == ui
            &&& ui.mode == UiMode::LoginMenu && (ev matches Event::Key(Key::Char(c)) && !('1' <= c
                <= '4')) ==> after == ui
            &&& (ui.mode == UiMode::ActionMenu || ui.mode == UiMode::LoginMenu) && (ev
                == Event::Key(Key::Enter) || ev == Event::Key(Key::Up) || ev == Event::Key(
                Key::Down,
            ) || ev == Event::Key(Key::Tab) || ev == Event::Key(Key::Backspace)) ==> after == ui
            &&& ui.mode == UiMode::Chat && (ev matches Event::Key(Key::Char(c)) && c != 'l' && c
                != 'i' && c != 'k' && c != 'j') ==> after == ui
        }),
{
}

/// What comes on screen is planned as the configuration says: images are tried where they are
/// switched on and the author reaches the configured threshold.
pub proof fn arrivals_follow_the_configuration(
    list: Seq<Arrival>,
    items: Seq<ChatMessageItem>,
    config: ChatConfig,
    image_map: tokens::Entries,
    i: int,
)
    requires
        arrivals(list, items, config, image_map),
        0 <= i < items.len(),
    ensures
        list.len() == items.len(),
        list[i].item == items[i],
        list[i].plan is Try <==> config.images_mode@ == "all"@ && images::image_urls(
            items[i].content@,
            image_map,
        ).len() > 0 && embed::allowed(items[i].score, items[i].rank@, config.image_min_rank@),
        list[i].plan is Refused <==> config.images_mode@ == "all"@ && images::image_urls(
            items[i].content@,
            image_map,
        ).len() > 0 && !embed::allowed(items[i].score, items[i].rank@, config.image_min_rank@),
{
    embed::plans_follow_the_switch(
        list[i].plan,
        config.images_mode@,
        config.image_min_rank@,
        items[i],
        image_map,
        Seq::empty(),
    );
}

/// Between two frames the buffer takes in what has arrived, keeps no more than the configured number
/// of messages, and none that has outlived the configured time.
pub proof fn buffer_follows_the_configuration(
    messages: Seq<ChatMessageItem>,
    arrived: Seq<ChatMessageItem>,
    config: ChatConfig,
    now: Instant,
    fade_now: Instant,
    m: ChatMessageItem,
)
    requires
        arrived.len() > 0,
    ensures
        ({
            let after = refreshed(messages, arrived, config, now, fade_now);
            &&& after.len() <= config.max_buffered
            &&& after.contains(m) && config.message_fade_secs > 0 ==> fade_now.nanos
                < m.added_at.nanos + config.message_fade_secs * 1_000_000_000
            &&& config.message_fade_secs == 0 && messages.len() + arrived.len()
                <= config.max_buffered ==> after.len() == messages.len() + arrived.len()
                && after.take(messages.len() as int) == messages
            &&& config.message_fade_secs == 0 && config.max_buffered > 0 ==> after.len() > 0
                && after.last() == (ChatMessageItem { added_at: now, ..arrived.last() })
        }),
{
    let full = admitted(messages, arrived, config.max_buffered as nat, now);
    let mode = fade::fade_mode(config.message_fade_mode@);
    messages_live_their_lifetime(full, config.message_fade_secs, mode, fade_now, m);
    buffer_holds_the_newest_in_order(messages, arrived, config.max_buffered as nat, now, 0);
    if config.message_fade_secs == 0 {
        zero_lifetime_keeps_all(full, mode, fade_now);
        if messages.len() + arrived.len() <= config.max_buffered {
            assert(full.take(messages.len() as int) =~= messages);
        }
    }
}

} // verus!
