use term_chat::config::ChatConfig;
use term_chat::login::{load_or_empty, LoginState, Roles};
use term_chat::render::{
    bracket_content, can_draw, ceil_div, draw, rows_needed, select, visible_range, RenderedLine, Ui, HEADER,
};
use term_chat::screen::Op;
use term_chat::time::Instant;
use term_chat::types::{AppStatus, ChatMessageItem, UiMode};

const SECOND: u128 = 1_000_000_000;

fn message(username: &str, content: &str) -> ChatMessageItem {
    ChatMessageItem {
        id: "id".to_string(),
        username: username.to_string(),
        name_color: "#1e90ff".to_string(),
        rank: "gold".to_string(),
        score: 0,
        role_badges: "MOD SUB".to_string(),
        reprimanded: false,
        platform: "twitch".to_string(),
        user_handle: "handle".to_string(),
        user_uuid7: "handle".to_string(),
        content: content.to_string(),
        image_art: None,
        image_status: None,
        added_at: Instant { nanos: 100 * SECOND },
    }
}

fn line(bracket: &str, content: &str, art: Option<&str>, status: Option<&str>) -> RenderedLine {
    RenderedLine {
        username: "u".to_string(),
        name_color: String::new(),
        bracket_content: bracket.to_string(),
        content: content.to_string(),
        image_art: art.map(String::from),
        image_status: status.map(String::from),
        dimmed: false,
    }
}

#[test]
fn ui_starts_in_the_chat() {
    let ui = Ui::new();
    assert_eq!((ui.mode, ui.scroll, ui.target_platform.as_str()), (UiMode::Chat, 0, "all"));
    assert!(ui.draft.is_empty() && ui.kick_handle_draft.is_empty() && ui.timeout_draft.is_empty());
    assert!(ui.login_note.is_empty() && ui.result_note.is_empty() && ui.action_target.is_none());
}

#[test]
fn brackets_honor_the_toggles() {
    let msg = message("ann", "hi");
    let mut config = ChatConfig::default();
    assert_eq!(bracket_content(&msg, &config), "ann (gold) MOD SUB | tw");
    config.show_rank = false;
    assert_eq!(bracket_content(&msg, &config), "ann MOD SUB | tw");
    config.show_role_badges = false;
    assert_eq!(bracket_content(&msg, &config), "ann | tw");
    config.show_platform = false;
    assert_eq!(bracket_content(&msg, &config), "ann");
    config.show_username = false;
    assert_eq!(bracket_content(&msg, &config), "");
    // Without a name there is no rank, but there are badges.
    config.show_rank = true;
    config.show_role_badges = true;
    assert_eq!(bracket_content(&msg, &config), "MOD SUB");
    let mut plain = message("bob", "hi");
    plain.rank = "regular".to_string();
    plain.platform = "x".to_string();
    assert_eq!(bracket_content(&plain, &ChatConfig::default()), "bob MOD SUB | x");
}

#[test]
fn rows_are_counted_with_wrapping() {
    assert_eq!((ceil_div(0, 10), ceil_div(1, 10), ceil_div(10, 10), ceil_div(11, 10)), (1, 1, 1, 2));
    assert_eq!(ceil_div(usize::MAX, 1), usize::MAX);
    assert_eq!(ceil_div(usize::MAX, usize::MAX), 1);
    assert_eq!(rows_needed(&line("b", "c", None, None), 10), 3);
    assert_eq!(rows_needed(&line("b", "twelve chars", None, Some("why")), 10), 5);
    assert_eq!(rows_needed(&line("b", "c", Some("@@\n\n@@@@@@@@@@@@\n"), Some("why")), 10), 7);
}

#[test]
fn scrolling_hides_the_newest() {
    assert_eq!(visible_range(5, 0), (0, 5));
    assert_eq!(visible_range(5, 2), (0, 3));
    assert_eq!(visible_range(5, 9), (0, 0));
}

#[test]
fn selection_keeps_what_fits() {
    let config = ChatConfig::default();
    let now = Instant { nanos: 100 * SECOND };
    let buffer: Vec<ChatMessageItem> = (0..5).map(|i| message("u", &format!("m{}", i))).collect();
    let shown = |scroll: usize, room: usize| {
        select(&buffer, scroll, &config, now, 40, room)
            .iter()
            .map(|l| l.content.clone())
            .collect::<Vec<String>>()
    };
    assert_eq!(shown(0, 9), vec!["m2", "m3", "m4"]);
    assert_eq!(shown(2, 8), vec!["m1", "m2"]);
    // Not even one fits: it is cut, and marked as such.
    assert_eq!(shown(0, 2), vec!["m4…"]);
    assert!(shown(0, 1).is_empty());
    assert!(shown(5, 9).is_empty());
    let long = vec![message("u", &"x".repeat(500))];
    let cut = select(&long, 0, &config, now, 10, 4);
    assert_eq!(cut[0].content, format!("{}…", "x".repeat(29)));
}

/// The frame as one text, written with the formatting macros.
struct Sheet {
    out: String,
}

impl Sheet {
    fn go(&mut self, x: usize, y: usize) {
        self.out.push_str(&format!("<{},{}>", x as u16, y as u16));
    }

    fn boxed(&mut self, cols: usize, rows: usize, lines: &[String]) {
        let width = lines.iter().map(|l| l.chars().count()).max().unwrap_or(10) + 4;
        let width = width.min(cols.saturating_sub(2).max(10));
        let left = cols.saturating_sub(width) / 2;
        let top = rows.saturating_sub(lines.len() + 2) / 2;
        for (i, l) in lines.iter().enumerate() {
            self.go(left, top + i);
            let pad = width.saturating_sub(4);
            let mut chars: Vec<char> = l.chars().collect();
            if chars.len() > pad {
                chars.truncate(pad.saturating_sub(1));
                chars.push('…');
            }
            let content: String = chars.into_iter().collect();
            self.out.push_str(&format!("\x1b[100m\x1b[37m│ {:<pad$} │\x1b[0m", content, pad = pad));
        }
    }

    fn message(&mut self, l: &RenderedLine) {
        let prefix = if l.dimmed {
            "\x1b[90m".to_string()
        } else if l.name_color.len() >= 7 {
            let part = |a: usize| u8::from_str_radix(&l.name_color[a..a + 2], 16).unwrap_or(255);
            format!("\x1b[38;2;{};{};{}m", part(1), part(3), part(5))
        } else {
            "\x1b[35m".to_string()
        };
        let bracket = if l.username.is_empty() {
            l.bracket_content.clone()
        } else {
            l.bracket_content.replacen(&l.username, &format!("{}{}\x1b[0m", prefix, l.username), 1)
        };
        let color = if l.dimmed { "\x1b[90m" } else { "\x1b[35m" };
        self.out.push_str(&format!("{}[{}]:\x1b[0m\r\n", if bracket.is_empty() { "" } else { color }, bracket));
        if let Some(art) = &l.image_art {
            for a in art.lines() {
                if l.dimmed {
                    self.out.push_str(&format!("\x1b[90m{}\x1b[0m\r\n", a));
                } else {
                    self.out.push_str(&format!("{}\r\n", a));
                }
            }
        } else if l.image_status.is_some() {
            self.out.push_str(if l.dimmed { "\x1b[90m\x1b[2m<image>\x1b[0m\r\n" } else { "\x1b[2m<image>\x1b[0m\r\n" });
        }
        self.out.push_str(&format!("{}{}\x1b[0m\r\n\r\n", if l.dimmed { "\x1b[90m" } else { "\x1b[37m" }, l.content));
    }
}

fn expected(
    cols: usize,
    rows: usize,
    buffer: &Vec<ChatMessageItem>,
    ui: &Ui,
    status: &AppStatus,
    config: &ChatConfig,
    login: Option<&LoginState>,
    now: Instant,
) -> String {
    let mut o = Sheet { out: String::new() };
    o.go(0, 0);
    o.out.push_str("<clear>");
    o.out.push_str(&format!("\x1b[44m\x1b[37m{:^width$}\x1b[0m\r\n", HEADER, width = cols));
    for l in &select(buffer, ui.scroll, config, now, cols, rows.saturating_sub(3)) {
        o.message(l);
    }
    let login_bit = match login {
        Some(l) if !l.handle.is_empty() => format!(" | {} {} ({})", l.platform, l.handle, l.effective.label()),
        Some(l) if !l.platform.is_empty() => format!(" | logged in ({})", l.platform),
        _ => " | not logged in (l to login)".to_string(),
    };
    let scroll_bit = if ui.scroll > 0 { format!(" | ↑frozen ({} msgs)", ui.scroll) } else { String::new() };
    let rest = format!(
        " {} | {} messages buffered | {}x{}{}{} ",
        status.detail,
        buffer.len(),
        cols,
        rows,
        login_bit,
        scroll_bit
    );
    let mut chars: Vec<char> = rest.chars().collect();
    chars.resize(cols.saturating_sub(2), ' ');
    o.go(0, rows.saturating_sub(2));
    o.out.push_str(&format!(
        "\x1b[100m\x1b[37m {}●\x1b[37m{}\x1b[0m",
        if status.connected { "\x1b[32m" } else { "\x1b[31m" },
        chars.into_iter().collect::<String>()
    ));
    o.go(0, rows.saturating_sub(1));
    let footer = if ui.mode == UiMode::Input {
        " input: type + enter to send | tab: platform | esc: cancel "
    } else if login.map(|l| l.can_moderate()).unwrap_or(false) {
        " q: exit | l: login | i: send | up/down/wheel: scroll | enter: mod menu | esc: back "
    } else {
        " q: exit | l: login | up/down/wheel: scroll "
    };
    o.out.push_str(&format!("\x1b[90m{:^width$}\x1b[0m", footer, width = cols));
    let note = |s: &String| if s.is_empty() { None } else { Some(format!(" ⚠ {}", s)) };
    let mut lines: Vec<String> = Vec::new();
    match ui.mode {
        UiMode::Chat => {
            if !ui.result_note.is_empty() {
                lines.push(ui.result_note.clone());
                o.boxed(cols, rows, &lines);
            }
        }
        UiMode::LoginMenu => {
            for s in ["─ LOGIN ─", " 1: Twitch", " 2: Kick (enter handle after auth)", " 3: YouTube", " 4: cancel"] {
                lines.push(s.to_string());
            }
            lines.extend(note(&ui.login_note));
            if let Some(l) = login {
                if !l.handle.is_empty() {
                    lines.push(format!(" logged in as {} {} ({})", l.platform, l.handle, l.effective.label()));
                }
            }
            o.boxed(cols, rows, &lines);
        }
        UiMode::KickHandle => {
            lines.push(" Enter your Kick username:".to_string());
            lines.push(format!(" > {}", ui.kick_handle_draft));
            lines.extend(note(&ui.login_note));
            o.boxed(cols, rows, &lines);
        }
        UiMode::ActionMenu => {
            let target = ui
                .action_target
                .as_ref()
                .map(|(u, h, p, _)| format!("{} ({})", if u.is_empty() { h } else { u }, p))
                .unwrap_or_default();
            lines.push(format!("─ MOD ACTIONS: {} ─", target));
            for s in [" 1: ban", " 2: timeout", " 3: commend (+1 score)", " 4: reprimand (-1 score)", " esc: back"] {
                lines.push(s.to_string());
            }
            lines.extend(note(&ui.result_note));
            o.boxed(cols, rows, &lines);
        }
        UiMode::TimeoutPrompt => {
            lines.push(" Timeout duration in seconds (default 300):".to_string());
            lines.push(format!(" > {}", ui.timeout_draft));
            o.boxed(cols, rows, &lines);
        }
        UiMode::Input => {
            o.go(0, rows.saturating_sub(3));
            let prefix = format!("[{}] > ", ui.target_platform);
            let max_w = cols.saturating_sub(prefix.chars().count().max(1)).max(1);
            let mut chars: Vec<char> = ui.draft.chars().collect();
            if chars.len() > max_w {
                chars.truncate(max_w.saturating_sub(1));
                chars.push('…');
            }
            let draft: String = chars.into_iter().collect();
            o.out.push_str(&format!("\x1b[40m\x1b[37m{}{:width$}\x1b[0m", prefix, draft, width = max_w));
        }
    }
    o.out
}

fn shown(ops: Vec<Op>) -> String {
    let mut out = String::new();
    for op in ops {
        match op {
            Op::MoveTo(x, y) => out.push_str(&format!("<{},{}>", x, y)),
            Op::ClearAll => out.push_str("<clear>"),
            Op::Print(s) => out.push_str(&s),
        }
    }
    out
}

fn moderator() -> LoginState {
    LoginState {
        platform: "twitch".to_string(),
        handle: "mod".to_string(),
        effective: Roles { is_moderator: true, ..Roles::default() },
        ..load_or_empty(None)
    }
}

fn gallery() -> Vec<ChatMessageItem> {
    let mut buffer = vec![message("ann", "hello"), message("", "nameless"), message("bob", &"long ".repeat(30))];
    let mut art = message("carl", "art");
    art.image_art = Some("@@\n..\n".to_string());
    buffer.push(art);
    let mut blocked = message("dee", "blocked");
    blocked.image_status = Some("rank too low".to_string());
    blocked.name_color = "red".to_string();
    buffer.push(blocked);
    let mut odd = message("eve (gold", "odd colours");
    odd.name_color = "#+fzz-1".to_string();
    odd.added_at = Instant { nanos: 0 };
    buffer.push(odd);
    buffer
}

#[test]
fn frames_are_those_of_the_formatter() {
    let buffer = gallery();
    let status = AppStatus::default();
    let now = Instant { nanos: 109 * SECOND };
    let someone = moderator();
    let mut fading = ChatConfig::default();
    fading.message_fade_secs = 10;
    fading.message_fade_mode = "dim".to_string();
    let mut plain = ChatConfig::default();
    plain.disable_custom_colors = true;
    plain.show_username = false;
    for config in [ChatConfig::default(), fading, plain] {
        for mode in [
            UiMode::Chat, UiMode::LoginMenu, UiMode::ActionMenu, UiMode::Input, UiMode::KickHandle,
            UiMode::TimeoutPrompt,
        ] {
            for (cols, rows) in [(80usize, 40usize), (20, 12), (10, 6), (3, 2), (200, 24)] {
                for scroll in [0usize, 1, 3, 9] {
                    for (login, filled) in [(None, false), (Some(&someone), true)] {
                        let mut ui = Ui::new();
                        ui.mode = mode;
                        ui.scroll = scroll;
                        if filled {
                            ui.result_note = "mod_ban applied".to_string();
                            ui.login_note = "a note that is far too long for a narrow terminal".to_string();
                            ui.draft = "draft ".repeat(20);
                            ui.kick_handle_draft = "kick".to_string();
                            ui.timeout_draft = "60".to_string();
                            ui.action_target = Some((
                                "".to_string(),
                                "handle".to_string(),
                                "kick".to_string(),
                                "x".to_string(),
                            ));
                        }
                        assert!(can_draw(cols, rows, &buffer, scroll, &config, now));
                        assert_eq!(
                            shown(draw(cols, rows, &buffer, &ui, &status, &config, login, now)),
                            expected(cols, rows, &buffer, &ui, &status, &config, login, now)
                        );
                    }
                }
            }
        }
    }
}

#[test]
fn status_bar_tells_of_half_logins_and_lost_connections() {
    let mut status = AppStatus::default();
    status.disconnect();
    let half = LoginState { platform: "kick".to_string(), ..load_or_empty(None) };
    let ui = Ui::new();
    let config = ChatConfig::default();
    let now = Instant { nanos: 0 };
    for login in [Some(&half), Some(&load_or_empty(None)), None] {
        assert_eq!(
            shown(draw(120, 24, &Vec::new(), &ui, &status, &config, login, now)),
            expected(120, 24, &Vec::new(), &ui, &status, &config, login, now)
        );
    }
    // Nothing is visible, so even a terminal without columns will do.
    assert!(can_draw(0, 0, &Vec::new(), 0, &config, now));
    assert_eq!(
        shown(draw(0, 0, &Vec::new(), &ui, &status, &config, None, now)),
        expected(0, 0, &Vec::new(), &ui, &status, &config, None, now)
    );
}

#[test]
fn colours_that_cut_characters_cannot_be_drawn() {
    let config = ChatConfig::default();
    let now = Instant { nanos: 100 * SECOND };
    let mut odd = message("u", "hi");
    odd.name_color = "ééééé".to_string();
    assert!(!can_draw(80, 24, &vec![odd.clone()], 0, &config, now));
    // Out of sight it does no harm.
    assert!(can_draw(80, 24, &vec![odd], 1, &config, now));
    let mut fine = message("u", "hi");
    fine.name_color = "#ééé".to_string();
    assert!(can_draw(80, 24, &vec![fine], 0, &config, now));
}

#[test]
fn frozen_view_does_not_move() {
    let config = ChatConfig::default();
    let now = Instant { nanos: 100 * SECOND };
    let mut buffer: Vec<ChatMessageItem> = (0..6).map(|i| message("u", &format!("m{}", i))).collect();
    let view = |b: &Vec<ChatMessageItem>, scroll: usize| {
        select(b, scroll, &config, now, 40, 9).iter().map(|l| l.content.clone()).collect::<Vec<String>>()
    };
    let before = view(&buffer, 2);
    buffer.push(message("u", "new"));
    assert_eq!(view(&buffer, 3), before);
}
