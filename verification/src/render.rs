//! What a frame looks like: the header, the newest messages that fit, the status bar, the footer.
use crate::config::ChatConfig;
use crate::fade;
use crate::fade::{FadeAction, FadeMode};
use crate::layout;
use crate::login::LoginState;
use crate::numbers;
use crate::overlay;
use crate::screen;
use crate::screen::{Mark, Op};
use crate::text;
use crate::time::Instant;
use crate::types::{AppStatus, ChatMessageItem, UiMode};
use vstd::prelude::*;

verus! {

pub const HEADER: &'static str = " Cockatiel Term Chat ";

/// Interactive UI state that the event loop mutates and the renderer draws.
#[derive(Debug)]
pub struct Ui {
    pub mode: UiMode,
    /// Offset from the bottom of the message buffer. 0 = bottom (auto-scroll).
    pub scroll: usize,
    pub draft: String,
    pub target_platform: String,
    pub kick_handle_draft: String,
    pub timeout_draft: String,
    /// username, handle, platform, uuid7
    pub action_target: Option<(String, String, String, String)>,
    pub login_note: String,
    pub result_note: String,
}

impl Ui {
    pub fn new() -> (ui: Ui)
        ensures
            ui.mode == UiMode::Chat,
            ui.scroll == 0,
            ui.draft@.len() == 0,
            ui.target_platform@ == "all"@,
            ui.kick_handle_draft@.len() == 0,
            ui.timeout_draft@.len() == 0,
            ui.action_target is None,
            ui.login_note@.len() == 0,
            ui.result_note@.len() == 0,
    {
        Ui {
            mode: UiMode::Chat,
            scroll: 0,
            draft: String::new(),
            target_platform: "all".to_owned(),
            kick_handle_draft: String::new(),
            timeout_draft: String::new(),
            action_target: None,
            login_note: String::new(),
            result_note: String::new(),
        }
    }
}

// ── Lines ─────────────────────────────────────────────────────────────

pub struct RenderedLine {
    pub username: String,
    pub name_color: String,
    pub bracket_content: String,
    pub content: String,
    pub image_art: Option<String>,
    pub image_status: Option<String>,
    /// True when the message is inside the fade-out window (`dim` mode).
    pub dimmed: bool,
}

/// What a rendered line says.
#[verifier::ext_equal]
pub struct Line {
    pub username: Seq<char>,
    pub name_color: Seq<char>,
    pub bracket_content: Seq<char>,
    pub content: Seq<char>,
    pub image_art: Option<Seq<char>>,
    pub image_status: Option<Seq<char>>,
    pub dimmed: bool,
}

pub open spec fn opt_view(o: Option<String>) -> Option<Seq<char>> {
    match o {
        Some(s) => Some(s@),
        None => None,
    }
}

fn opt_copy(o: &Option<String>) -> (r: Option<String>)
    ensures
        opt_view(r) == opt_view(*o),
{
    match o {
        Some(s) => Some(s.clone()),
        None => None,
    }
}

impl View for RenderedLine {
    type V = Line;

    open spec fn view(&self) -> Line {
        Line {
            username: self.username@,
            name_color: self.name_color@,
            bracket_content: self.bracket_content@,
            content: self.content@,
            image_art: opt_view(self.image_art),
            image_status: opt_view(self.image_status),
            dimmed: self.dimmed,
        }
    }
}

/// What several rendered lines say.
pub open spec fn line_views(v: Seq<RenderedLine>) -> Seq<Line> {
    v.map_values(|l: RenderedLine| l@)
}

/// The part of the bracket that says who wrote the message.
pub open spec fn user_bit(msg: ChatMessageItem, config: ChatConfig) -> Seq<char> {
    let name = if config.show_username {
        msg.username@
    } else {
        Seq::empty()
    };
    let ranked = if config.show_rank && msg.rank@.len() > 0 && msg.rank@ != "regular"@ && name.len()
        > 0 {
        name + " ("@ + msg.rank@ + ")"@
    } else {
        name
    };
    if config.show_role_badges && msg.role_badges@.len() > 0 {
        (if ranked.len() > 0 {
            ranked + " "@
        } else {
            ranked
        }) + msg.role_badges@
    } else {
        ranked
    }
}

/// The parts of the bracket: the author, and the first two letters of the platform.
pub open spec fn bracket_parts(msg: ChatMessageItem, config: ChatConfig) -> Seq<Seq<char>> {
    (if user_bit(msg, config).len() > 0 {
        seq![user_bit(msg, config)]
    } else {
        Seq::empty()
    }) + (if config.show_platform && msg.platform@.len() > 0 {
        seq![layout::clipped(msg.platform@, 2)]
    } else {
        Seq::empty()
    })
}

/// What stands in the brackets before a message.
pub open spec fn bracket(msg: ChatMessageItem, config: ChatConfig) -> Seq<char> {
    text::joined(bracket_parts(msg, config), " | "@)
}

fn user_text(msg: &ChatMessageItem, config: &ChatConfig) -> (r: String)
    ensures
        r@ == user_bit(*msg, *config),
{
    let mut bit = String::new();
    if config.show_username && !msg.username.as_str().is_empty() {
        bit = msg.username.clone();
    }
    assert(bit@ == if config.show_username {
        msg.username@
    } else {
        Seq::empty()
    });
    if config.show_rank && !msg.rank.as_str().is_empty() && !text::same(
        msg.rank.as_str(),
        "regular",
    ) && !bit.as_str().is_empty() {
        bit.append(" (");
        bit.append(msg.rank.as_str());
        bit.append(")");
    }
    if config.show_role_badges && !msg.role_badges.as_str().is_empty() {
        if !bit.as_str().is_empty() {
            bit.append(" ");
        }
        bit.append(msg.role_badges.as_str());
    }
    bit
}

/// Build the bracket content (everything inside `[...]`) honoring display toggles.
pub fn bracket_content(msg: &ChatMessageItem, config: &ChatConfig) -> (r: String)
    ensures
        r@ == bracket(*msg, *config),
{
    let mut parts: Vec<String> = Vec::new();
    let user = user_text(msg, config);
    let ghost bit = user@;
    if !user.as_str().is_empty() {
        parts.push(user);
    }
    assert(text::views(parts@) == if bit.len() > 0 {
        seq![bit]
    } else {
        Seq::empty()
    });
    let ghost before = text::views(parts@);
    if config.show_platform && !msg.platform.as_str().is_empty() {
        parts.push(layout::clip(msg.platform.as_str(), 2));
    }
    assert(text::views(parts@) == before + (if config.show_platform && msg.platform@.len() > 0 {
        seq![layout::clipped(msg.platform@, 2)]
    } else {
        Seq::empty()
    }));
    text::join(&parts, " | ")
}

/// The line that a message makes at a given time.
pub open spec fn line_of(msg: ChatMessageItem, config: ChatConfig, now: Instant) -> Line {
    Line {
        username: msg.username@,
        name_color: if config.disable_custom_colors {
            Seq::empty()
        } else {
            msg.name_color@
        },
        bracket_content: bracket(msg, config),
        content: msg.content@,
        image_art: opt_view(msg.image_art),
        image_status: opt_view(msg.image_status),
        dimmed: fade::fade_decision(
            now.since(msg.added_at) as int,
            config.message_fade_secs,
            fade::fade_mode(config.message_fade_mode@),
        ) == FadeAction::Dim,
    }
}

fn render_line(msg: &ChatMessageItem, config: &ChatConfig, now: Instant) -> (r: RenderedLine)
    ensures
        r@ == line_of(*msg, *config, now),
{
    let age = now.saturating_duration_since(msg.added_at);
    let action = fade::fade_action(
        age,
        config.message_fade_secs,
        FadeMode::parse(config.message_fade_mode.as_str()),
    );
    let name_color = if config.disable_custom_colors {
        String::new()
    } else {
        msg.name_color.clone()
    };
    RenderedLine {
        username: msg.username.clone(),
        name_color,
        bracket_content: bracket_content(msg, config),
        content: msg.content.clone(),
        image_art: opt_copy(&msg.image_art),
        image_status: opt_copy(&msg.image_status),
        dimmed: action == FadeAction::Dim,
    }
}

// ── Rows ──────────────────────────────────────────────────────────────

/// How many rows of `width` cells a text of `len` characters takes; never less than one.
pub open spec fn rows_of(len: nat, width: nat) -> nat
    recommends
        width > 0,
{
    if len == 0 {
        1
    } else {
        ((len + width - 1) / width as int) as nat
    }
}

pub fn ceil_div(len: usize, width: usize) -> (r: usize)
    requires
        width > 0,
    ensures
        r == rows_of(len as nat, width as nat),
        1 <= r,
        len > 0 ==> r <= len,
{
    let n: usize = if len == 0 {
        1
    } else {
        len
    };
    proof {
        lemma_ceil(n as int, width as int);
    }
    if n % width == 0 {
        n / width
    } else {
        n / width + 1
    }
}

proof fn lemma_ceil(n: int, w: int)
    requires
        n > 0,
        w > 0,
    ensures
        (n + w - 1) / w == if n % w == 0 {
            n / w
        } else {
            n / w + 1
        },
        1 <= (n + w - 1) / w <= n,
        0 <= n / w < n || w == 1,
        n % w != 0 ==> w > 1,
{
    let q = n / w;
    let m = n % w;
    vstd::arithmetic::div_mod::lemma_fundamental_div_mod(n, w);
    if m == 0 {
        assert(n + w - 1 == q * w + (w - 1)) by (nonlinear_arith)
            requires
                n == w * q,
        ;
        vstd::arithmetic::div_mod::lemma_fundamental_div_mod_converse(n + w - 1, w, q, w - 1);
    } else {
        assert(n + w - 1 == (q + 1) * w + (m - 1)) by (nonlinear_arith)
            requires
                n == w * q + m,
        ;
        vstd::arithmetic::div_mod::lemma_fundamental_div_mod_converse(n + w - 1, w, q + 1, m - 1);
    }
    assert(q >= 0) by (nonlinear_arith)
        requires
            n == w * q + m,
            n > 0,
            0 <= m < w,
    ;
    if m == 0 {
        assert(1 <= q <= n) by (nonlinear_arith)
            requires
                n == w * q,
                n > 0,
                w > 0,
        ;
    } else {
        assert(w > 1);
        assert(q + 1 <= n) by (nonlinear_arith)
            requires
                n == w * q + m,
                0 < m,
                w > 1,
                q >= 0,
        ;
    }
    assert(w > 1 ==> q < n) by (nonlinear_arith)
        requires
            n == w * q + m,
            0 <= m,
            n > 0,
            w > 0,
            q >= 0,
    ;
}

/// How many rows several texts take.
pub open spec fn total_rows(lines: Seq<Seq<char>>, cols: nat) -> nat
    decreases lines.len(),
{
    if lines.len() == 0 {
        0
    } else {
        total_rows(lines.drop_last(), cols) + rows_of(lines.last().len(), cols)
    }
}

/// How many rows the image of a line takes: those of its art, or one for the placeholder.
pub open spec fn image_rows(line: Line, cols: nat) -> nat {
    match line.image_art {
        Some(art) => total_rows(text::lines_of(art), cols),
        None => if line.image_status is Some {
            1
        } else {
            0
        },
    }
}

/// How many rows a line takes, with an empty one behind it.
pub open spec fn line_rows(line: Line, cols: nat) -> nat {
    rows_of(line.bracket_content.len(), cols) + rows_of(line.content.len(), cols) + image_rows(
        line,
        cols,
    ) + 1
}

proof fn lemma_total_rows_concat(a: Seq<Seq<char>>, b: Seq<Seq<char>>, cols: nat)
    ensures
        total_rows(a + b, cols) == total_rows(a, cols) + total_rows(b, cols),
    decreases b.len(),
{
    if b.len() == 0 {
        assert(a + b == a);
    } else {
        assert((a + b).drop_last() == a + b.drop_last());
        assert((a + b).last() == b.last());
        lemma_total_rows_concat(a, b.drop_last(), cols);
    }
}

proof fn lemma_rows_bound(len: nat, cols: nat)
    requires
        cols > 0,
    ensures
        1 <= rows_of(len, cols),
        rows_of(len, cols) <= if len == 0 {
            1
        } else {
            len
        },
{
    if len > 0 {
        lemma_ceil(len as int, cols as int);
    }
}

proof fn lemma_line_len_bound(s: Seq<char>)
    ensures
        0 <= text::line_len(s) <= s.len(),
    decreases s.len(),
{
    if s.len() > 0 && s[0] != '\n' {
        lemma_line_len_bound(s.drop_first());
    }
}

/// The lines of a text take no more rows than it has characters.
proof fn lemma_art_rows(s: Seq<char>, cols: nat)
    requires
        cols > 0,
    ensures
        total_rows(text::lines_of(s), cols) <= s.len(),
    decreases s.len(),
{
    lemma_line_len_bound(s);
    let n = text::line_len(s);
    if s.len() == 0 {
    } else if n < s.len() {
        let first = text::without_cr(s.take(n));
        let rest = text::lines_of(s.skip(n + 1));
        lemma_art_rows(s.skip(n + 1), cols);
        lemma_total_rows_concat(seq![first], rest, cols);
        lemma_rows_bound(first.len(), cols);
        reveal_with_fuel(total_rows, 2);
    } else {
        lemma_rows_bound(s.len(), cols);
        reveal_with_fuel(total_rows, 2);
    }
}

fn art_rows(art: &str, cols: usize) -> (r: usize)
    requires
        cols > 0,
    ensures
        r == total_rows(text::lines_of(art@), cols as nat),
{
    let lines = text::lines(art);
    let size: usize = art.unicode_len();
    let ghost all = text::lines_of(art@);
    let mut r: usize = 0;
    let mut i: usize = 0;
    proof {
        lemma_art_rows(art@, cols as nat);
    }
    while i < lines.len()
        invariant
            i <= lines@.len(),
            cols > 0,
            size == art@.len(),
            all == text::views(lines@),
            total_rows(all, cols as nat) <= size,
            r == total_rows(all.take(i as int), cols as nat),
        decreases lines@.len() - i,
    {
        proof {
            assert(all.take(i + 1).drop_last() == all.take(i as int));
            assert(all.take(i + 1).last() == lines@[i as int]@);
            lemma_total_rows_concat(all.take(i + 1), all.skip(i + 1), cols as nat);
            assert(all.take(i + 1) + all.skip(i + 1) == all);
        }
        r += ceil_div(lines[i].as_str().unicode_len(), cols);
        i += 1;
    }
    assert(all.take(all.len() as int) == all);
    r
}

/// How many rows a line takes; the number is too wide for a `usize` only in theory.
fn wide_rows(line: &RenderedLine, cols: usize) -> (r: u128)
    requires
        cols > 0,
    ensures
        r == line_rows(line@, cols as nat),
{
    let bracket_rows = ceil_div(line.bracket_content.as_str().unicode_len(), cols) as u128;
    let content_rows = ceil_div(line.content.as_str().unicode_len(), cols) as u128;
    let image_rows = match &line.image_art {
        Some(art) => art_rows(art.as_str(), cols) as u128,
        None => {
            // A failed/blocked image still takes a single `<image>` row.
            if line.image_status.is_some() {
                1
            } else {
                0
            }
        },
    };
    bracket_rows + content_rows + image_rows + 1
}

pub fn rows_needed(line: &RenderedLine, cols: usize) -> (r: usize)
    requires
        cols > 0,
        line_rows(line@, cols as nat) <= usize::MAX,
    ensures
        r == line_rows(line@, cols as nat),
{
    wide_rows(line, cols) as usize
}

// ── Which messages are shown ──────────────────────────────────────────

/// How many of `len` messages are left when the newest `scroll` are skipped.
pub open spec fn visible(len: nat, scroll: nat) -> nat {
    if scroll >= len {
        0
    } else {
        (len - scroll) as nat
    }
}

/// Choose which messages to show given the scroll offset. Returns (start_index, slice_len) where
/// start is the index of the OLDEST message to consider and count is how many messages from `start`
/// up to the newest. `scroll` skips the newest `scroll` messages (they stay frozen at the bottom);
/// 0 = auto-scroll to the newest, and the renderer trims old messages by row budget.
pub fn visible_range(len: usize, scroll: usize) -> (r: (usize, usize))
    ensures
        r.0 == 0,
        r.1 == visible(len as nat, scroll as nat),
{
    (0, len.saturating_sub(scroll))
}

/// The lines of the visible messages, oldest first.
pub open spec fn visible_lines(
    messages: Seq<ChatMessageItem>,
    scroll: nat,
    config: ChatConfig,
    now: Instant,
) -> Seq<Line> {
    Seq::new(visible(messages.len(), scroll), |i: int| line_of(messages[i], config, now))
}

/// How many rows are left for messages: those between the header and the two bars at the bottom.
pub open spec fn budget(rows: nat) -> nat {
    if rows >= 3 {
        (rows - 3) as nat
    } else {
        0
    }
}

/// How many of the newest lines fit into `room` rows together.
pub open spec fn fitting(lines: Seq<Line>, cols: nat, room: int) -> nat
    decreases lines.len(),
{
    if lines.len() == 0 || line_rows(lines.last(), cols) > room {
        0
    } else {
        1 + fitting(lines.drop_last(), cols, room - line_rows(lines.last(), cols))
    }
}

/// How many characters a cut message may have, the ellipsis among them.
pub open spec fn cut_len(cols: nat, room: nat) -> nat {
    let cells = cols * (if room >= 2 {
        (room - 1) as nat
    } else {
        1
    });
    if cells > usize::MAX {
        usize::MAX as nat
    } else if cells < 1 {
        1
    } else {
        cells
    }
}

/// A line whose text is cut to what `room` rows can hold.
pub open spec fn cut(line: Line, cols: nat, room: nat) -> Line {
    Line {
        content: layout::clipped(line.content, (cut_len(cols, room) - 1) as nat).push('…'),
        ..line
    }
}

/// The lines that are drawn: the newest ones that fit into `room` rows together; where not even the
/// newest fits, that one is cut.
pub open spec fn drawn(lines: Seq<Line>, cols: nat, room: nat) -> Seq<Line> {
    let n = fitting(lines, cols, room as int);
    if n == 0 && lines.len() > 0 && room > 1 {
        seq![cut(lines.last(), cols, room)]
    } else {
        lines.skip(lines.len() - n)
    }
}

proof fn lemma_fitting(lines: Seq<Line>, cols: nat, room: int)
    ensures
        fitting(lines, cols, room) <= lines.len(),
    decreases lines.len(),
{
    if lines.len() > 0 && line_rows(lines.last(), cols) <= room {
        lemma_fitting(lines.drop_last(), cols, room - line_rows(lines.last(), cols));
    }
}

fn cut_line(line: RenderedLine, cols: usize, room: usize) -> (r: RenderedLine)
    ensures
        r@ == cut(line@, cols as nat, room as nat),
{
    let avail: usize = if room >= 2 {
        room - 1
    } else {
        1
    };
    let wide: u128 = cols as u128;
    let high: u128 = avail as u128;
    assert(0 <= wide * high <= 0xffff_ffff_ffff_ffff * 0xffff_ffff_ffff_ffff) by (nonlinear_arith)
        requires
            0 <= wide <= 0xffff_ffff_ffff_ffff,
            0 <= high <= 0xffff_ffff_ffff_ffff,
    ;
    let cells: u128 = wide * high;
    let max_chars: usize = if cells > usize::MAX as u128 {
        usize::MAX
    } else if cells < 1 {
        1
    } else {
        cells as usize
    };
    assert(wide * high == cols as nat * avail as nat);
    let mut content = layout::clip(line.content.as_str(), max_chars - 1);
    content.push('…');
    RenderedLine {
        username: line.username,
        name_color: line.name_color,
        bracket_content: line.bracket_content,
        content,
        image_art: line.image_art,
        image_status: line.image_status,
        dimmed: line.dimmed,
    }
}

/// The lines of `back`, last one first.
fn reversed(back: Vec<RenderedLine>) -> (r: Vec<RenderedLine>)
    ensures
        r@ == back@.reverse(),
{
    let mut left = back;
    let mut r: Vec<RenderedLine> = Vec::new();
    let ghost all = left@;
    while left.len() > 0
        invariant
            left@.len() + r@.len() == all.len(),
            left@ == all.take(left@.len() as int),
            forall|i: int| 0 <= i < r@.len() ==> #[trigger] r@[i] == all[all.len() - 1 - i],
        decreases left@.len(),
    {
        match left.pop() {
            Some(l) => {
                r.push(l);
            },
            None => {},
        }
    }
    assert(r@ =~= all.reverse());
    r
}

/// The lines to draw into `room` rows.
pub fn select(
    messages: &Vec<ChatMessageItem>,
    scroll: usize,
    config: &ChatConfig,
    now: Instant,
    cols: usize,
    room: usize,
) -> (r: Vec<RenderedLine>)
    requires
        cols > 0 || visible(messages@.len(), scroll as nat) == 0,
    ensures
        line_views(r@) == drawn(
            visible_lines(messages@, scroll as nat, *config, now),
            cols as nat,
            room as nat,
        ),
{
    let (_, count) = visible_range(messages.len(), scroll);
    let ghost all = visible_lines(messages@, scroll as nat, *config, now);
    let mut back: Vec<RenderedLine> = Vec::new();
    let mut used: u128 = 0;
    let mut idx: usize = count;
    assert(all.take(count as int) == all);
    assert(line_views(back@) == all.subrange(idx as int, count as int).reverse());
    assert(all.len() == 0 ==> drawn(all, cols as nat, room as nat).reverse() =~= line_views(back@));
    while idx > 0
        invariant_except_break
            idx <= count == all.len() <= messages@.len(),
            all == visible_lines(messages@, scroll as nat, *config, now),
            count > 0 ==> cols > 0,
            used <= room,
            line_views(back@) == all.subrange(idx as int, count as int).reverse(),
            idx == 0 ==> line_views(back@) == drawn(all, cols as nat, room as nat).reverse(),
            fitting(all, cols as nat, room as int) == (count - idx) + fitting(
                all.take(idx as int),
                cols as nat,
                room - used,
            ),
        ensures
            count == all.len(),
            line_views(back@) == drawn(all, cols as nat, room as nat).reverse(),
        decreases idx,
    {
        let line = render_line(&messages[idx - 1], config, now);
        let ghost newest = all.take(idx as int);
        proof {
            assert(newest.last() == line@);
            assert(newest.drop_last() == all.take(idx - 1));
        }
        let need: u128 = wide_rows(&line, cols);
        if need > room as u128 - used {
            let ghost n = count - idx;
            if back.len() == 0 && room > 1 {
                // Even the newest message doesn't fit: cut its content.
                assert(idx == count) by {
                    assert(line_views(back@).len() == n);
                }
                assert(all.take(count as int) == all);
                let short = cut_line(line, cols, room);
                back.push(short);
                proof {
                    assert(line_views(back@) =~= seq![short@]);
                    assert(seq![short@].reverse() =~= seq![short@]);
                }
            } else {
                proof {
                    assert(line_views(back@).len() == n);
                    assert(fitting(all, cols as nat, room as int) == n);
                    assert(all.skip(all.len() - n) =~= all.subrange(idx as int, count as int));
                }
            }
            break;
        }
        assert(fitting(newest, cols as nat, room - used) == 1 + fitting(
            all.take(idx - 1),
            cols as nat,
            room - used - need,
        ));
        used = used + need;
        let ghost before = line_views(back@);
        back.push(line);
        proof {
            assert(line_views(back@) =~= before.push(line@));
            assert(all.subrange(idx - 1, count as int).reverse() =~= before.push(line@));
        }
        idx -= 1;
        proof {
            if idx == 0 {
                assert(all.take(0).len() == 0);
                assert(fitting(all.take(0), cols as nat, room - used) == 0);
                assert(fitting(all, cols as nat, room as int) == count);
                assert(all.skip(0) =~= all.subrange(0, count as int));
            }
        }
    }
    let r = reversed(back);
    proof {
        let want = drawn(all, cols as nat, room as nat);
        assert(line_views(r@) =~= line_views(back@).reverse());
        assert(want.reverse().reverse() =~= want);
    }
    r
}

// ── Colours ───────────────────────────────────────────────────────────

/// The value of a hexadecimal digit.
pub open spec fn hex_value(b: u8) -> Option<nat> {
    if 48 <= b <= 57 {
        Some((b - 48) as nat)
    } else if 65 <= b <= 70 {
        Some((b - 55) as nat)
    } else if 97 <= b <= 102 {
        Some((b - 87) as nat)
    } else {
        None
    }
}

/// The number that two bytes write in hexadecimal digits, the first of which may be a plus sign;
/// 255 where they write none.
pub open spec fn channel(a: u8, b: u8) -> nat {
    match (hex_value(a), hex_value(b)) {
        (Some(x), Some(y)) => 16 * x + y,
        (None, Some(y)) => if a == 43 {
            y
        } else {
            255
        },
        _ => 255,
    }
}

fn hex_digit(b: u8) -> (r: Option<u8>)
    ensures
        r matches Some(x) ==> hex_value(b) == Some(x as nat) && x < 16,
        r is None ==> hex_value(b) is None,
{
    if 48 <= b && b <= 57 {
        Some(b - 48)
    } else if 65 <= b && b <= 70 {
        Some(b - 55)
    } else if 97 <= b && b <= 102 {
        Some(b - 87)
    } else {
        None
    }
}

fn channel_value(a: u8, b: u8) -> (r: u8)
    ensures
        r == channel(a, b),
{
    match (hex_digit(a), hex_digit(b)) {
        (Some(x), Some(y)) => 16 * x + y,
        (None, Some(y)) => {
            if a == 43 {
                y
            } else {
                255
            }
        },
        _ => 255,
    }
}

/// The colour of names without one of their own.
pub const DEFAULT_COLOR: &'static str = "\x1b[35m";

/// The colour of what is about to go.
pub const DIM_COLOR: &'static str = "\x1b[90m";

/// The escape sequence that sets a colour written as `#rrggbb`.
pub open spec fn rgb(bytes: Seq<u8>) -> Seq<char> {
    "\x1b[38;2;"@ + numbers::digits(channel(bytes[1], bytes[2])) + ";"@ + numbers::digits(
        channel(bytes[3], bytes[4]),
    ) + ";"@ + numbers::digits(channel(bytes[5], bytes[6])) + "m"@
}

/// The colour of the name in a line.
pub open spec fn name_prefix(line: Line) -> Seq<char> {
    let bytes = vstd::utf8::encode_utf8(line.name_color);
    if line.dimmed {
        DIM_COLOR@
    } else if bytes.len() >= 7 {
        rgb(bytes)
    } else {
        DEFAULT_COLOR@
    }
}

/// Whether the colour of a line can be read: one of seven bytes or more must fall into characters
/// where its digits begin and end.
pub open spec fn paintable(line: Line) -> bool {
    let bytes = vstd::utf8::encode_utf8(line.name_color);
    !line.dimmed && bytes.len() >= 7 ==> {
        &&& vstd::utf8::is_char_boundary(bytes, 1)
        &&& vstd::utf8::is_char_boundary(bytes, 3)
        &&& vstd::utf8::is_char_boundary(bytes, 5)
        &&& vstd::utf8::is_char_boundary(bytes, 7)
    }
}

fn can_paint(line: &RenderedLine) -> (r: bool)
    ensures
        r == paintable(line@),
{
    let color = line.name_color.as_str();
    line.dimmed || color.as_bytes().len() < 7 || (color.is_char_boundary(1)
        && color.is_char_boundary(3) && color.is_char_boundary(5) && color.is_char_boundary(7))
}

fn name_color_of(line: &RenderedLine) -> (r: String)
    requires
        paintable(line@),
    ensures
        r@ == name_prefix(line@),
{
    let bytes = line.name_color.as_str().as_bytes();
    if line.dimmed {
        DIM_COLOR.to_owned()
    } else if bytes.len() >= 7 {
        let mut r = "\x1b[38;2;".to_owned();
        r.append(numbers::decimal(channel_value(bytes[1], bytes[2]) as u64).as_str());
        r.append(";");
        r.append(numbers::decimal(channel_value(bytes[3], bytes[4]) as u64).as_str());
        r.append(";");
        r.append(numbers::decimal(channel_value(bytes[5], bytes[6]) as u64).as_str());
        r.append("m");
        r
    } else {
        DEFAULT_COLOR.to_owned()
    }
}

// ── How a line is written ─────────────────────────────────────────────

/// The bracket of a line, the name in it coloured.
pub open spec fn painted_bracket(line: Line) -> Seq<char> {
    if line.username.len() > 0 {
        text::replaced_first(
            line.bracket_content,
            line.username,
            name_prefix(line) + line.username + "\x1b[0m"@,
        )
    } else {
        line.bracket_content
    }
}

/// The row with the bracket.
pub open spec fn bracket_row(line: Line) -> Seq<char> {
    (if painted_bracket(line).len() == 0 {
        Seq::empty()
    } else if line.dimmed {
        DIM_COLOR@
    } else {
        DEFAULT_COLOR@
    }) + "["@ + painted_bracket(line) + "]:\x1b[0m\r\n"@
}

/// The rows of a picture.
pub open spec fn art_block(lines: Seq<Seq<char>>, dimmed: bool) -> Seq<char>
    decreases lines.len(),
{
    if lines.len() == 0 {
        Seq::empty()
    } else {
        art_block(lines.drop_last(), dimmed) + (if dimmed {
            DIM_COLOR@ + lines.last() + "\x1b[0m\r\n"@
        } else {
            lines.last() + "\r\n"@
        })
    }
}

/// The rows with the image of a line, or its placeholder.
pub open spec fn image_block(line: Line) -> Seq<char> {
    match line.image_art {
        Some(art) => art_block(text::lines_of(art), line.dimmed),
        None => if line.image_status is Some {
            (if line.dimmed {
                DIM_COLOR@
            } else {
                Seq::empty()
            }) + "\x1b[2m<image>\x1b[0m\r\n"@
        } else {
            Seq::empty()
        },
    }
}

/// The row with the text, and an empty one.
pub open spec fn content_row(line: Line) -> Seq<char> {
    (if line.dimmed {
        DIM_COLOR@
    } else {
        "\x1b[37m"@
    }) + line.content + "\x1b[0m\r\n\r\n"@
}

/// How a line is written.
pub open spec fn line_text(line: Line) -> Seq<char> {
    bracket_row(line) + image_block(line) + content_row(line)
}

fn bracket_row_of(line: &RenderedLine) -> (r: String)
    requires
        paintable(line@),
    ensures
        r@ == bracket_row(line@),
{
    let bracket = if !line.username.as_str().is_empty() {
        let mut name = name_color_of(line);
        name.append(line.username.as_str());
        name.append("\x1b[0m");
        text::replace_first(
            line.bracket_content.as_str(),
            line.username.as_str(),
            name.as_str(),
        )
    } else {
        line.bracket_content.clone()
    };
    assert(bracket@ == painted_bracket(line@));
    let mut r = String::new();
    if !bracket.as_str().is_empty() {
        if line.dimmed {
            r.append(DIM_COLOR);
        } else {
            r.append(DEFAULT_COLOR);
        }
    }
    assert(r@ =~= if painted_bracket(line@).len() == 0 {
        Seq::empty()
    } else if line.dimmed {
        DIM_COLOR@
    } else {
        DEFAULT_COLOR@
    });
    r.append("[");
    r.append(bracket.as_str());
    r.append("]:\x1b[0m\r\n");
    r
}

fn art_block_of(art: &str, dimmed: bool) -> (r: String)
    ensures
        r@ == art_block(text::lines_of(art@), dimmed),
{
    let lines = text::lines(art);
    let ghost all = text::lines_of(art@);
    let mut r = String::new();
    let mut i: usize = 0;
    while i < lines.len()
        invariant
            i <= lines@.len(),
            all == text::views(lines@),
            r@ == art_block(all.take(i as int), dimmed),
        decreases lines@.len() - i,
    {
        let ghost before = r@;
        proof {
            assert(all.take(i + 1).drop_last() == all.take(i as int));
            assert(all.take(i + 1).last() == lines@[i as int]@);
        }
        if dimmed {
            r.append(DIM_COLOR);
            r.append(lines[i].as_str());
            r.append("\x1b[0m\r\n");
            assert(r@ =~= before + (DIM_COLOR@ + lines@[i as int]@ + "\x1b[0m\r\n"@));
        } else {
            r.append(lines[i].as_str());
            r.append("\r\n");
            assert(r@ =~= before + (lines@[i as int]@ + "\r\n"@));
        }
        i += 1;
    }
    assert(all.take(all.len() as int) == all);
    r
}

fn image_block_of(line: &RenderedLine) -> (r: String)
    ensures
        r@ == image_block(line@),
{
    match &line.image_art {
        Some(art) => art_block_of(art.as_str(), line.dimmed),
        None => {
            let mut r = String::new();
            if line.image_status.is_some() {
                // Image was registered but couldn't be embedded: plain placeholder.
                if line.dimmed {
                    r.append(DIM_COLOR);
                }
                r.append("\x1b[2m<image>\x1b[0m\r\n");
            }
            assert(r@ =~= image_block(line@));
            r
        },
    }
}

fn write_line(line: &RenderedLine) -> (r: String)
    requires
        paintable(line@),
    ensures
        r@ == line_text(line@),
{
    let mut r = bracket_row_of(line);
    r.append(image_block_of(line).as_str());
    if line.dimmed {
        r.append(DIM_COLOR);
    } else {
        r.append("\x1b[37m");
    }
    r.append(line.content.as_str());
    r.append("\x1b[0m\r\n\r\n");
    assert(r@ =~= line_text(line@));
    r
}

// ── The bars ──────────────────────────────────────────────────────────

/// The row at the top.
pub open spec fn header_row(cols: nat) -> Seq<char> {
    "\x1b[44m\x1b[37m"@ + layout::centered(HEADER@, cols) + "\x1b[0m\r\n"@
}

/// What the status bar says of the login.
pub open spec fn login_bit(login: Option<LoginState>) -> Seq<char> {
    match login {
        Some(l) => if l.handle@.len() > 0 {
            " | "@ + overlay::login_name(l)
        } else if l.platform@.len() > 0 {
            " | logged in ("@ + l.platform@ + ")"@
        } else {
            " | not logged in (l to login)"@
        },
        None => " | not logged in (l to login)"@,
    }
}

/// What the status bar says of the scroll offset.
pub open spec fn scroll_bit(scroll: nat) -> Seq<char> {
    if scroll > 0 {
        " | ↑frozen ("@ + numbers::digits(scroll) + " msgs)"@
    } else {
        Seq::empty()
    }
}

/// What the status bar says, if it is wide enough.
pub open spec fn status_text(
    cols: nat,
    rows: nat,
    buffered: nat,
    scroll: nat,
    detail: Seq<char>,
    login: Option<LoginState>,
) -> Seq<char> {
    " "@ + detail + " | "@ + numbers::digits(buffered) + " messages buffered | "@
        + numbers::digits(cols) + "x"@ + numbers::digits(rows) + login_bit(login) + scroll_bit(
        scroll,
    ) + " "@
}

/// The width of the status text: all but the blank and the dot.
pub open spec fn status_width(cols: nat) -> nat {
    if cols >= 2 {
        (cols - 2) as nat
    } else {
        0
    }
}

/// The status bar: a dot in green or red, and the text cut or filled to the width of the screen.
pub open spec fn status_bar(connected: bool, cols: nat, words: Seq<char>) -> Seq<char> {
    "\x1b[100m\x1b[37m "@ + (if connected {
        "\x1b[32m"@
    } else {
        "\x1b[31m"@
    }) + "●\x1b[37m"@ + layout::fitted(words, status_width(cols)) + "\x1b[0m"@
}

/// What can be done at the moment.
pub open spec fn footer(mode: UiMode, login: Option<LoginState>) -> Seq<char> {
    if mode == UiMode::Input {
        " input: type + enter to send | tab: platform | esc: cancel "@
    } else if login matches Some(l) && l.moderates() {
        " q: exit | l: login | i: send | up/down/wheel: scroll | enter: mod menu | esc: back "@
    } else {
        " q: exit | l: login | up/down/wheel: scroll "@
    }
}

/// The row at the bottom.
pub open spec fn footer_row(mode: UiMode, login: Option<LoginState>, cols: nat) -> Seq<char> {
    "\x1b[90m"@ + layout::centered(footer(mode, login), cols) + "\x1b[0m"@
}

fn login_bit_of(login: Option<&LoginState>) -> (r: String)
    ensures
        r@ == login_bit(overlay::login_view(login)),
{
    match login {
        Some(l) => {
            if !l.handle.as_str().is_empty() {
                text::concat(" | ", overlay::name_login(l).as_str())
            } else if !l.platform.as_str().is_empty() {
                let mut r = " | logged in (".to_owned();
                r.append(l.platform.as_str());
                r.append(")");
                r
            } else {
                " | not logged in (l to login)".to_owned()
            }
        },
        None => " | not logged in (l to login)".to_owned(),
    }
}

fn status_bar_of(
    cols: usize,
    rows: usize,
    buffered: usize,
    scroll: usize,
    status: &AppStatus,
    login: Option<&LoginState>,
) -> (r: String)
    ensures
        r@ == status_bar(
            status.connected,
            cols as nat,
            status_text(
                cols as nat,
                rows as nat,
                buffered as nat,
                scroll as nat,
                status.detail@,
                overlay::login_view(login),
            ),
        ),
{
    let mut words = " ".to_owned();
    words.append(status.detail.as_str());
    words.append(" | ");
    words.append(numbers::decimal(buffered as u64).as_str());
    words.append(" messages buffered | ");
    words.append(numbers::decimal(cols as u64).as_str());
    words.append("x");
    words.append(numbers::decimal(rows as u64).as_str());
    words.append(login_bit_of(login).as_str());
    let mut frozen = String::new();
    if scroll > 0 {
        frozen.append(" | ↑frozen (");
        frozen.append(numbers::decimal(scroll as u64).as_str());
        frozen.append(" msgs)");
    }
    assert(frozen@ =~= scroll_bit(scroll as nat));
    words.append(frozen.as_str());
    words.append(" ");
    let mut r = "\x1b[100m\x1b[37m ".to_owned();
    if status.connected {
        r.append("\x1b[32m");
    } else {
        r.append("\x1b[31m");
    }
    r.append("●\x1b[37m");
    r.append(layout::fit(words.as_str(), cols.saturating_sub(2)).as_str());
    r.append("\x1b[0m");
    r
}

fn footer_row_of(mode: UiMode, login: Option<&LoginState>, cols: usize) -> (r: String)
    ensures
        r@ == footer_row(mode, overlay::login_view(login), cols as nat),
{
    let moderates = match login {
        Some(l) => l.can_moderate(),
        None => false,
    };
    let words = if mode == UiMode::Input {
        " input: type + enter to send | tab: platform | esc: cancel "
    } else if moderates {
        " q: exit | l: login | i: send | up/down/wheel: scroll | enter: mod menu | esc: back "
    } else {
        " q: exit | l: login | up/down/wheel: scroll "
    };
    let mut r = "\x1b[90m".to_owned();
    r.append(layout::center(words, cols).as_str());
    r.append("\x1b[0m");
    r
}

// ── The frame ─────────────────────────────────────────────────────────

/// The row `n` rows above the end of the screen, as a terminal counts.
pub open spec fn row_above_end(rows: nat, n: nat) -> u16 {
    (if rows >= n {
        rows - n
    } else {
        0
    }) as u16
}

/// The lines that a frame shows.
pub open spec fn frame_lines(
    cols: nat,
    rows: nat,
    messages: Seq<ChatMessageItem>,
    scroll: nat,
    config: ChatConfig,
    now: Instant,
) -> Seq<Line> {
    drawn(visible_lines(messages, scroll, config, now), cols, budget(rows))
}

/// How lines are written one below the other.
pub open spec fn written(lines: Seq<Line>) -> Seq<Mark> {
    lines.map_values(|l: Line| Mark::Print(line_text(l)))
}

/// What the terminal is told to show a frame: a cleared screen, the header, the lines, the status
/// bar, the footer, and what lies on top.
pub open spec fn frame(
    cols: nat,
    rows: nat,
    messages: Seq<ChatMessageItem>,
    ui: Ui,
    status: AppStatus,
    config: ChatConfig,
    login: Option<LoginState>,
    now: Instant,
) -> Seq<Mark> {
    seq![Mark::MoveTo(0, 0), Mark::ClearAll, Mark::Print(header_row(cols))] + written(
        frame_lines(cols, rows, messages, ui.scroll as nat, config, now),
    ) + seq![
        Mark::MoveTo(0, row_above_end(rows, 2)),
        Mark::Print(
            status_bar(
                status.connected,
                cols,
                status_text(
                    cols,
                    rows,
                    messages.len(),
                    ui.scroll as nat,
                    status.detail@,
                    login,
                ),
            ),
        ),
        Mark::MoveTo(0, row_above_end(rows, 1)),
        Mark::Print(footer_row(ui.mode, login, cols)),
    ] + overlay::overlays(cols, rows, ui, login)
}

/// Whether every line that a frame would show has a colour that can be read.
pub open spec fn drawable(
    cols: nat,
    rows: nat,
    messages: Seq<ChatMessageItem>,
    scroll: nat,
    config: ChatConfig,
    now: Instant,
) -> bool {
    let lines = frame_lines(cols, rows, messages, scroll, config, now);
    forall|i: int| 0 <= i < lines.len() ==> paintable(#[trigger] lines[i])
}

/// Whether the frame can be drawn.
pub fn can_draw(
    cols: usize,
    rows: usize,
    messages: &Vec<ChatMessageItem>,
    scroll: usize,
    config: &ChatConfig,
    now: Instant,
) -> (r: bool)
    requires
        cols > 0 || visible(messages@.len(), scroll as nat) == 0,
    ensures
        r == drawable(cols as nat, rows as nat, messages@, scroll as nat, *config, now),
{
    let lines = select(messages, scroll, config, now, cols, rows.saturating_sub(3));
    let ghost want = frame_lines(
        cols as nat,
        rows as nat,
        messages@,
        scroll as nat,
        *config,
        now,
    );
    let mut i: usize = 0;
    while i < lines.len()
        invariant
            i <= lines@.len(),
            line_views(lines@) == want,
            want == frame_lines(
                cols as nat,
                rows as nat,
                messages@,
                scroll as nat,
                *config,
                now,
            ),
            forall|j: int| 0 <= j < i ==> paintable(#[trigger] want[j]),
        decreases lines@.len() - i,
    {
        assert(want[i as int] == lines@[i as int]@);
        if !can_paint(&lines[i]) {
            return false;
        }
        i += 1;
    }
    true
}

/// Draw the full frame. A message whose colour cannot be cut into its digits cannot be drawn.
pub fn draw(
    cols: usize,
    rows: usize,
    messages: &Vec<ChatMessageItem>,
    ui: &Ui,
    status: &AppStatus,
    config: &ChatConfig,
    login: Option<&LoginState>,
    now: Instant,
) -> (ops: Vec<Op>)
    requires
        cols > 0 || visible(messages@.len(), ui.scroll as nat) == 0,
        drawable(cols as nat, rows as nat, messages@, ui.scroll as nat, *config, now),
    ensures
        screen::marks(ops@) == frame(
            cols as nat,
            rows as nat,
            messages@,
            *ui,
            *status,
            *config,
            overlay::login_view(login),
            now,
        ),
{
    let mut ops: Vec<Op> = Vec::new();

    // 1. Header
    screen::push_op(&mut ops, Op::MoveTo(0, 0));
    screen::push_op(&mut ops, Op::ClearAll);
    let mut header = "\x1b[44m\x1b[37m".to_owned();
    header.append(layout::center(HEADER, cols).as_str());
    header.append("\x1b[0m\r\n");
    screen::push_op(&mut ops, Op::Print(header));
    let ghost head = seq![
        Mark::MoveTo(0, 0),
        Mark::ClearAll,
        Mark::Print(header_row(cols as nat)),
    ];
    assert(screen::marks(ops@) =~= head);

    // 2. Message area
    let lines = select(messages, ui.scroll, config, now, cols, rows.saturating_sub(3));
    let ghost want = frame_lines(
        cols as nat,
        rows as nat,
        messages@,
        ui.scroll as nat,
        *config,
        now,
    );
    let mut i: usize = 0;
    assert(head + written(want.take(0)) =~= head);
    while i < lines.len()
        invariant
            i <= lines@.len(),
            line_views(lines@) == want,
            forall|j: int| 0 <= j < want.len() ==> paintable(#[trigger] want[j]),
            screen::marks(ops@) == head + written(want.take(i as int)),
        decreases lines@.len() - i,
    {
        assert(want[i as int] == lines@[i as int]@);
        let ghost before = written(want.take(i as int));
        screen::push_op(&mut ops, Op::Print(write_line(&lines[i])));
        proof {
            assert(want.take(i + 1) =~= want.take(i as int).push(want[i as int]));
            assert(written(want.take(i + 1)) =~= before.push(
                Mark::Print(line_text(want[i as int])),
            ));
            assert(head + written(want.take(i + 1)) =~= (head + before).push(
                Mark::Print(line_text(want[i as int])),
            ));
        }
        i += 1;
    }
    assert(want.take(want.len() as int) =~= want);
    let ghost body = screen::marks(ops@);

    // 3. Status bar
    screen::push_op(&mut ops, Op::MoveTo(0, rows.saturating_sub(2) as u16));
    screen::push_op(
        &mut ops,
        Op::Print(status_bar_of(cols, rows, messages.len(), ui.scroll, status, login)),
    );

    // 4. Footer
    screen::push_op(&mut ops, Op::MoveTo(0, rows.saturating_sub(1) as u16));
    screen::push_op(&mut ops, Op::Print(footer_row_of(ui.mode, login, cols)));
    assert(screen::marks(ops@) =~= body + seq![
        Mark::MoveTo(0, row_above_end(rows as nat, 2)),
        Mark::Print(
            status_bar(
                status.connected,
                cols as nat,
                status_text(
                    cols as nat,
                    rows as nat,
                    messages@.len(),
                    ui.scroll as nat,
                    status.detail@,
                    overlay::login_view(login),
                ),
            ),
        ),
        Mark::MoveTo(0, row_above_end(rows as nat, 1)),
        Mark::Print(footer_row(ui.mode, overlay::login_view(login), cols as nat)),
    ]);

    // 5. Overlays
    overlay::draw_overlays(&mut ops, cols, rows, ui, login);
    ops
}

// ── Laws ──────────────────────────────────────────────────────────────

/// How many rows several lines take.
pub open spec fn lines_rows(lines: Seq<Line>, cols: nat) -> nat
    decreases lines.len(),
{
    if lines.len() == 0 {
        0
    } else {
        lines_rows(lines.drop_last(), cols) + line_rows(lines.last(), cols)
    }
}

proof fn lemma_fitting_rows(lines: Seq<Line>, cols: nat, room: int)
    requires
        room >= 0,
    ensures
        fitting(lines, cols, room) <= lines.len(),
        lines_rows(lines.skip(lines.len() - fitting(lines, cols, room)), cols) <= room,
    decreases lines.len(),
{
    let n = fitting(lines, cols, room);
    if lines.len() > 0 && line_rows(lines.last(), cols) <= room {
        lemma_fitting_rows(lines.drop_last(), cols, room - line_rows(lines.last(), cols));
        let shown = lines.skip(lines.len() - n);
        let rest = lines.drop_last();
        assert(shown.drop_last() =~= rest.skip(rest.len() - (n - 1)));
        assert(shown.last() == lines.last());
    } else {
        assert(lines.skip(lines.len() as int).len() == 0);
    }
}

/// The messages of a frame never reach into its bars, but for a single one that is too long even
/// by itself; they are the newest visible ones in their order.
pub proof fn messages_stay_between_the_bars(lines: Seq<Line>, cols: nat, room: nat)
    ensures
        fitting(lines, cols, room as int) > 0 || room <= 1 ==> {
            &&& lines_rows(drawn(lines, cols, room), cols) <= room
            &&& drawn(lines, cols, room) == lines.skip(
                lines.len() - fitting(lines, cols, room as int),
            )
        },
        drawn(lines, cols, room).len() <= lines.len(),
{
    lemma_fitting_rows(lines, cols, room as int);
}

/// Wherever there is a message to show and room for more than one row, the newest is shown, as it is
/// or cut.
pub proof fn newest_message_is_shown(lines: Seq<Line>, cols: nat, room: nat)
    requires
        lines.len() > 0,
        room > 1,
    ensures
        drawn(lines, cols, room).len() > 0,
        drawn(lines, cols, room).last() == lines.last() || drawn(lines, cols, room).last() == cut(
            lines.last(),
            cols,
            room,
        ),
{
    lemma_fitting(lines, cols, room as int);
}

/// A message that comes in while the display is scrolled up changes nothing of what is visible, as
/// long as the offset grows with it: the view is frozen.
pub proof fn scrolled_view_is_frozen(
    messages: Seq<ChatMessageItem>,
    added: Seq<ChatMessageItem>,
    scroll: nat,
    config: ChatConfig,
    now: Instant,
)
    ensures
        visible_lines(messages + added, scroll + added.len(), config, now) == visible_lines(
            messages,
            scroll,
            config,
            now,
        ),
{
    assert(visible_lines(messages + added, scroll + added.len(), config, now) =~= visible_lines(
        messages,
        scroll,
        config,
        now,
    ));
}

/// A colour of ASCII characters, such as `#1e90ff`, can always be read, whatever it says.
pub proof fn ascii_colours_are_paintable(line: Line)
    requires
        vstd::utf8::is_ascii_chars(line.name_color),
    ensures
        paintable(line),
{
    let bytes = vstd::utf8::encode_utf8(line.name_color);
    if bytes.len() >= 7 {
        lemma_ascii_boundary(line.name_color, 1);
        lemma_ascii_boundary(line.name_color, 3);
        lemma_ascii_boundary(line.name_color, 5);
        lemma_ascii_boundary(line.name_color, 7);
    }
}

proof fn lemma_ascii_boundary(s: Seq<char>, i: int)
    requires
        vstd::utf8::is_ascii_chars(s),
        0 <= i <= vstd::utf8::encode_utf8(s).len(),
    ensures
        vstd::utf8::is_char_boundary(vstd::utf8::encode_utf8(s), i),
    decreases i,
{
    let bytes = vstd::utf8::encode_utf8(s);
    vstd::utf8::encode_utf8_valid_utf8(s);
    vstd::utf8::is_ascii_chars_encode_utf8(s);
    if i > 0 {
        let rest = s.drop_first();
        assert(vstd::utf8::is_ascii_chars(rest)) by {
            assert forall|k: int| 0 <= k < rest.len() implies '\0' <= #[trigger] rest[k]
                <= '\u{7f}' by {
                assert(rest[k] == s[k + 1]);
            }
        }
        vstd::utf8::is_ascii_chars_encode_utf8(rest);
        assert(s[0] as u8 == bytes[0]);
        assert(vstd::utf8::pop_first_scalar(bytes) =~= vstd::utf8::encode_utf8(rest));
        lemma_ascii_boundary(rest, i - 1);
    }
}

/// The status text takes exactly the cells beside the blank and the dot, whatever it says.
pub proof fn status_bar_is_as_wide_as_the_screen(words: Seq<char>, cols: nat)
    requires
        cols >= 2,
    ensures
        2 + layout::fitted(words, status_width(cols)).len() == cols,
{
    layout::fitted_takes_exactly_the_width(words, status_width(cols));
}

// ── Laws of colours ───────────────────────────────────────────────────

/// Whether a character is the hexadecimal digit of `n`, in either case.
pub open spec fn writes_digit(c: char, n: int) -> bool {
    0 <= n < 16 && (c == "0123456789abcdef"@[n] || c == "0123456789ABCDEF"@[n])
}

/// Hexadecimal digits read the same in both cases, each as its own value, and nothing else is one.
pub proof fn hex_digits_read_alike(c: char, n: int)
    ensures
        writes_digit(c, n) ==> hex_value(c as u8) == Some(n as nat) && '0' <= c <= 'f',
        forall|b: u8| #[trigger]
            hex_value(b) is Some ==> writes_digit(b as char, hex_value(b)->0 as int),
{
    reveal_strlit("0123456789abcdef");
    reveal_strlit("0123456789ABCDEF");
}

/// Whether two characters write a byte in hexadecimal.
pub open spec fn writes_byte(a: char, b: char, n: u8) -> bool {
    writes_digit(a, n as int / 16) && writes_digit(b, n as int % 16)
}

/// A colour that is written as `#rrggbb`, in whatever case, is painted as just that red, green and
/// blue.
pub proof fn colours_are_painted_as_written(line: Line, red: u8, green: u8, blue: u8)
    requires
        !line.dimmed,
        line.name_color.len() >= 7,
        forall|i: int| 0 <= i < line.name_color.len() ==> '\0' <= #[trigger] line.name_color[i]
            <= '\u{7f}',
        writes_byte(line.name_color[1], line.name_color[2], red),
        writes_byte(line.name_color[3], line.name_color[4], green),
        writes_byte(line.name_color[5], line.name_color[6], blue),
    ensures
        name_prefix(line) == "\x1b[38;2;"@ + numbers::digits(red as nat) + ";"@ + numbers::digits(
            green as nat,
        ) + ";"@ + numbers::digits(blue as nat) + "m"@,
{
    let c = line.name_color;
    vstd::utf8::is_ascii_chars_encode_utf8(c);
    hex_digits_read_alike(c[1], red as int / 16);
    hex_digits_read_alike(c[2], red as int % 16);
    hex_digits_read_alike(c[3], green as int / 16);
    hex_digits_read_alike(c[4], green as int % 16);
    hex_digits_read_alike(c[5], blue as int / 16);
    hex_digits_read_alike(c[6], blue as int % 16);
    let bytes = vstd::utf8::encode_utf8(c);
    assert(forall|i: int| 0 <= i < c.len() ==> bytes[i] == #[trigger] c[i] as u8);
}

/// Names without a full colour of their own have the common one, and a line that is about to go has
/// the same colour whoever wrote it.
pub proof fn other_names_share_a_colour(line: Line, other: Line)
    ensures
        line.dimmed && other.dimmed ==> name_prefix(line) == name_prefix(other),
        line.dimmed ==> name_prefix(line) == "\x1b[90m"@,
        !line.dimmed && line.name_color.len() == 0 ==> name_prefix(line) == "\x1b[35m"@,
        !line.dimmed && line.name_color.len() < 7 && (forall|i: int|
            0 <= i < line.name_color.len() ==> '\0' <= #[trigger] line.name_color[i] <= '\u{7f}')
            ==> name_prefix(line) == "\x1b[35m"@,
{
    if line.name_color.len() == 0 || (forall|i: int|
        0 <= i < line.name_color.len() ==> '\0' <= #[trigger] line.name_color[i] <= '\u{7f}') {
        vstd::utf8::is_ascii_chars_encode_utf8(line.name_color);
    }
}

/// The name at the front of a bracket is painted where it stands, in its colour and in nothing
/// else, and what follows it stays.
pub proof fn names_are_painted_in_place(line: Line, rest: Seq<char>)
    requires
        line.username.len() > 0,
        line.bracket_content == line.username + rest,
    ensures
        painted_bracket(line) == name_prefix(line) + line.username + "\x1b[0m"@ + rest,
{
    let u = line.username;
    let none = Seq::<char>::empty();
    assert(none + u.drop_last() =~= u.drop_last());
    assert(none + u + rest =~= line.bracket_content);
    text::first_copy_is_replaced(none, u, rest, name_prefix(line) + u + "\x1b[0m"@);
    assert(none + (name_prefix(line) + u + "\x1b[0m"@) + rest =~= name_prefix(line) + u
        + "\x1b[0m"@ + rest);
}

// ── Laws of what a line says ──────────────────────────────────────────

/// A text takes as many rows as hold it, and not one more; an empty one takes a row all the same.
pub proof fn rows_hold_the_text(len: nat, width: nat)
    requires
        width > 0,
    ensures
        rows_of(len, width) >= 1,
        len <= rows_of(len, width) * width,
        len > 0 ==> (rows_of(len, width) - 1) * width < len,
        len <= width ==> rows_of(len, width) == 1,
{
    let n = len + width - 1;
    let r = rows_of(len, width);
    if len > 0 {
        vstd::arithmetic::div_mod::lemma_fundamental_div_mod(n as int, width as int);
        let q = n as int / width as int;
        let m = n as int % width as int;
        assert(n == q * width + m) by (nonlinear_arith)
            requires
                n == width as int * q + m,
        ;
        assert(q >= 1) by (nonlinear_arith)
            requires
                n == q * width + m,
                0 <= m < width,
                n >= width,
        ;
        assert((q - 1) * width == q * width - width) by (nonlinear_arith);
        if len <= width {
            assert(q < 2) by (nonlinear_arith)
                requires
                    n == q * width + m,
                    0 <= m,
                    n < 2 * width,
                    width > 0,
            ;
        }
    }
}

/// With everything switched on, the bracket gives name, rank, badges and the first two letters of
/// the platform, in this order.
pub proof fn full_bracket_tells_all(msg: ChatMessageItem, config: ChatConfig)
    requires
        config.show_username && config.show_rank && config.show_role_badges && config.show_platform,
        msg.username@.len() > 0,
        msg.rank@.len() > 0,
        msg.rank@ != "regular"@,
        msg.role_badges@.len() > 0,
        msg.platform@.len() >= 2,
    ensures
        bracket(msg, config) == msg.username@ + " ("@ + msg.rank@ + ") "@ + msg.role_badges@
            + " | "@ + msg.platform@.take(2),
{
    let user = user_bit(msg, config);
    let code = layout::clipped(msg.platform@, 2);
    reveal_strlit(")");
    reveal_strlit(" ");
    reveal_strlit(") ");
    assert(")"@ + " "@ =~= ") "@);
    assert(user =~= msg.username@ + " ("@ + msg.rank@ + (")"@ + " "@) + msg.role_badges@);
    assert(code =~= msg.platform@.take(2));
    assert(bracket_parts(msg, config) =~= seq![user] + seq![code]);
    text::joined_piece_by_piece(user, seq![code], " | "@);
    text::joined_piece_by_piece(code, Seq::empty(), " | "@);
}

/// What is switched off does not show: messages that agree in what is switched on have the same
/// bracket. A regular rank shows no more than none, and without a name no rank shows.
pub proof fn hidden_parts_do_not_show(msg: ChatMessageItem, other: ChatMessageItem, config: ChatConfig)
    requires
        config.show_username ==> msg.username@ == other.username@,
        config.show_role_badges ==> msg.role_badges@ == other.role_badges@,
        config.show_platform ==> msg.platform@ == other.platform@,
        config.show_rank && config.show_username && msg.username@.len() > 0 ==> msg.rank@
            == other.rank@ || (msg.rank@.len() == 0 || msg.rank@ == "regular"@) && (other.rank@.len()
            == 0 || other.rank@ == "regular"@),
    ensures
        bracket(msg, config) == bracket(other, config),
{
    assert(user_bit(msg, config) == user_bit(other, config));
    assert(bracket_parts(msg, config) =~= bracket_parts(other, config));
}

/// A bracket with a name begins with it, and one with a platform ends with the letters for it.
pub proof fn brackets_begin_with_the_name(msg: ChatMessageItem, config: ChatConfig)
    ensures
        config.show_username ==> bracket(msg, config).len() >= msg.username@.len() && bracket(
            msg,
            config,
        ).take(msg.username@.len() as int) == msg.username@,
        config.show_platform && msg.platform@.len() > 0 ==> {
            let code = if msg.platform@.len() > 2 {
                msg.platform@.take(2)
            } else {
                msg.platform@
            };
            let b = bracket(msg, config);
            b.len() >= code.len() && b.skip(b.len() - code.len()) == code
        },
        !config.show_platform && !config.show_username && !config.show_role_badges ==> bracket(
            msg,
            config,
        ).len() == 0,
{
    let user = user_bit(msg, config);
    let code = layout::clipped(msg.platform@, 2);
    let b = bracket(msg, config);
    let sep = " | "@;
    if config.show_username {
        assert(user.take(msg.username@.len() as int) =~= msg.username@);
    }
    text::joined_piece_by_piece(user, seq![code], sep);
    text::joined_piece_by_piece(code, Seq::empty(), sep);
    if user.len() > 0 && config.show_platform && msg.platform@.len() > 0 {
        assert(bracket_parts(msg, config) =~= seq![user] + seq![code]);
        assert(b == user + sep + code);
        assert(b.skip(b.len() - code.len()) =~= code);
        if config.show_username {
            assert(b.take(msg.username@.len() as int) =~= msg.username@);
        }
    } else if user.len() > 0 {
        assert(bracket_parts(msg, config) =~= seq![user]);
    } else if config.show_platform && msg.platform@.len() > 0 {
        assert(bracket_parts(msg, config) =~= seq![code]);
        assert(b.skip(b.len() - code.len()) =~= code);
        assert(b.take(0) =~= Seq::<char>::empty());
    } else {
        assert(bracket_parts(msg, config) =~= Seq::empty());
        assert(b.take(0) =~= Seq::<char>::empty());
    }
}

/// A line says what its message says. Its colour is that of the author unless custom colours are
/// switched off, and it is dimmed exactly in the last fifth of its lifetime, or the last two
/// seconds, where that is asked for.
pub proof fn lines_say_what_the_message_says(msg: ChatMessageItem, config: ChatConfig, now: Instant)
    ensures
        ({
            let line = line_of(msg, config, now);
            let left = msg.added_at.nanos + config.message_fade_secs * 1_000_000_000 - now.nanos;
            &&& line.username == msg.username@
            &&& line.content == msg.content@
            &&& config.disable_custom_colors ==> line.name_color.len() == 0
            &&& !config.disable_custom_colors ==> line.name_color == msg.name_color@
            &&& msg.image_art is Some <==> line.image_art is Some
            &&& msg.image_art matches Some(art) ==> line.image_art == Some(art@)
            &&& msg.image_status is Some <==> line.image_status is Some
            &&& config.message_fade_secs > 0 && now.nanos >= msg.added_at.nanos ==> (line.dimmed
                <==> fade::fade_mode(config.message_fade_mode@) == FadeMode::Dim && left > 0 && 5
                * left <= config.message_fade_secs * 1_000_000_000 && left <= 2_000_000_000)
            &&& config.message_fade_secs == 0 ==> !line.dimmed
        }),
{
    if config.message_fade_secs > 0 {
        fade::messages_fade_on_time(
            now.since(msg.added_at) as int,
            config.message_fade_secs,
            fade::fade_mode(config.message_fade_mode@),
        );
    }
}

/// The text of a message stands in what is written of its line, behind the bracket and the image,
/// in the same order for all lines.
pub proof fn content_is_written(line: Line)
    ensures
        text::has_sub(line_text(line), line.content),
        text::has_sub(line_text(line), "["@ + painted_bracket(line) + "]:"@),
        line_text(line).len() >= line.content.len(),
{
    let front = bracket_row(line) + image_block(line) + (if line.dimmed {
        DIM_COLOR@
    } else {
        "\x1b[37m"@
    });
    let back = "\x1b[0m\r\n\r\n"@;
    assert(line_text(line) =~= front + line.content + back);
    text::middle_is_found(front, line.content, back);
    reveal_strlit("]:\x1b[0m\r\n");
    reveal_strlit("]:");
    let end = "]:\x1b[0m\r\n"@;
    assert(end =~= "]:"@ + end.skip(2));
    let colour = if painted_bracket(line).len() == 0 {
        Seq::empty()
    } else if line.dimmed {
        DIM_COLOR@
    } else {
        DEFAULT_COLOR@
    };
    let shown = "["@ + painted_bracket(line) + "]:"@;
    let rest = end.skip(2) + image_block(line) + content_row(line);
    assert(line_text(line) =~= colour + shown + rest);
    text::middle_is_found(colour, shown, rest);
}

/// Art is shown line by line and then nothing else of an image; without art there is a placeholder
/// where an image was to be shown, the same whatever the reason, and else nothing.
pub proof fn placeholder_stands_for_missing_art(line: Line, other: Line)
    requires
        line.dimmed == other.dimmed,
    ensures
        line.image_art is Some && line.image_art == other.image_art ==> image_block(line)
            == image_block(other),
        line.image_art is None && other.image_art is None && line.image_status is Some
            && other.image_status is Some ==> image_block(line) == image_block(other),
        line.image_art is None && line.image_status is Some ==> text::has_sub(
            image_block(line),
            "<image>"@,
        ),
        line.image_art is None && line.image_status is None ==> image_block(line).len() == 0,
{
    if line.image_art is None && line.image_status is Some {
        reveal_strlit("\x1b[2m<image>\x1b[0m\r\n");
        reveal_strlit("<image>");
        let p = "\x1b[2m<image>\x1b[0m\r\n"@;
        let front = (if line.dimmed {
            DIM_COLOR@
        } else {
            Seq::empty()
        }) + p.take(4);
        let back = p.skip(11);
        assert(p =~= p.take(4) + "<image>"@ + back);
        assert(image_block(line) =~= front + "<image>"@ + back);
        text::middle_is_found(front, "<image>"@, back);
    }
}

// ── Laws of rows ──────────────────────────────────────────────────────

proof fn lemma_no_breaks(n: nat)
    ensures
        text::count_of(numbers::digits(n), '\n') == 0,
{
    numbers::lemma_digits(n);
    let d = numbers::digits(n);
    if d.contains('\n') {
        let i = choose|i: int| 0 <= i < d.len() && d[i] == '\n';
        assert(numbers::is_digit(d[i]));
    }
    text::copies_add_up(d, Seq::empty(), '\n');
}

proof fn lemma_prefix_has_no_break(line: Line)
    ensures
        text::count_of(name_prefix(line), '\n') == 0,
{
    reveal_strlit("\x1b[38;2;");
    reveal_strlit(";");
    reveal_strlit("m");
    reveal_strlit("\x1b[90m");
    reveal_strlit("\x1b[35m");
    let bytes = vstd::utf8::encode_utf8(line.name_color);
    let a = "\x1b[38;2;"@;
    let r = numbers::digits(channel(bytes[1], bytes[2]));
    let g = numbers::digits(channel(bytes[3], bytes[4]));
    let b = numbers::digits(channel(bytes[5], bytes[6]));
    lemma_no_breaks(channel(bytes[1], bytes[2]));
    lemma_no_breaks(channel(bytes[3], bytes[4]));
    lemma_no_breaks(channel(bytes[5], bytes[6]));
    text::copies_add_up(a, r, '\n');
    text::copies_add_up(a + r, ";"@, '\n');
    text::copies_add_up(a + r + ";"@, g, '\n');
    text::copies_add_up(a + r + ";"@ + g, ";"@, '\n');
    text::copies_add_up(a + r + ";"@ + g + ";"@, b, '\n');
    text::copies_add_up(a + r + ";"@ + g + ";"@ + b, "m"@, '\n');
    text::copies_add_up(";"@, Seq::empty(), '\n');
    text::copies_add_up("m"@, Seq::empty(), '\n');
    text::copies_add_up("\x1b[90m"@, Seq::empty(), '\n');
    text::copies_add_up("\x1b[35m"@, Seq::empty(), '\n');
}

proof fn lemma_painted_has_no_break(line: Line)
    requires
        !line.bracket_content.contains('\n'),
        !line.username.contains('\n'),
    ensures
        text::count_of(painted_bracket(line), '\n') == 0,
{
    let s = line.bracket_content;
    let u = line.username;
    text::copies_add_up(s, Seq::empty(), '\n');
    text::copies_add_up(u, Seq::empty(), '\n');
    if u.len() > 0 {
        text::lemma_found(s, u);
        if let Some(i) = text::found(s, u) {
            let a = s.take(i);
            let b = s.skip(i + u.len());
            assert(!a.contains('\n')) by {
                if a.contains('\n') {
                    let k = choose|k: int| 0 <= k < a.len() && a[k] == '\n';
                    assert(s[k] == '\n');
                }
            }
            assert(!b.contains('\n')) by {
                if b.contains('\n') {
                    let k = choose|k: int| 0 <= k < b.len() && b[k] == '\n';
                    assert(s[k + i + u.len()] == '\n');
                }
            }
            lemma_prefix_has_no_break(line);
            reveal_strlit("\x1b[0m");
            let p = name_prefix(line);
            let rep = p + u + "\x1b[0m"@;
            text::copies_add_up(a, rep, '\n');
            text::copies_add_up(b, Seq::empty(), '\n');
            text::copies_add_up(p, u, '\n');
            text::copies_add_up(p + u, "\x1b[0m"@, '\n');
            text::copies_add_up("\x1b[0m"@, Seq::empty(), '\n');
            text::copies_add_up(a + rep, b, '\n');
        }
    }
}

proof fn lemma_art_breaks(lines: Seq<Seq<char>>, dimmed: bool, cols: nat)
    requires
        cols > 0,
        forall|i: int|
            0 <= i < lines.len() ==> (#[trigger] lines[i]).len() <= cols && !lines[i].contains('\n'),
    ensures
        text::count_of(art_block(lines, dimmed), '\n') == lines.len(),
        total_rows(lines, cols) == lines.len(),
    decreases lines.len(),
{
    if lines.len() > 0 {
        let front = lines.drop_last();
        let last = lines.last();
        assert(last == lines[lines.len() - 1]);
        assert forall|i: int| 0 <= i < front.len() implies (#[trigger] front[i]).len() <= cols
            && !front[i].contains('\n') by {
            assert(front[i] == lines[i]);
        }
        lemma_art_breaks(front, dimmed, cols);
        rows_hold_the_text(last.len(), cols);
        reveal_strlit("\x1b[90m");
        reveal_strlit("\x1b[0m\r\n");
        reveal_strlit("\r\n");
        let dim = "\x1b[90m"@;
        let done = "\x1b[0m\r\n"@;
        let end = "\r\n"@;
        assert(done =~= done.take(5) + seq!['\n']);
        assert(end =~= end.take(1) + seq!['\n']);
        text::copies_add_up(done.take(5), seq!['\n'], '\n');
        text::copies_add_up(end.take(1), seq!['\n'], '\n');
        text::copies_add_up(last, end, '\n');
        text::copies_add_up(dim, last, '\n');
        text::copies_add_up(dim + last, done, '\n');
        let so_far = art_block(front, dimmed);
        text::copies_add_up(so_far, dim + last + done, '\n');
        text::copies_add_up(so_far, last + end, '\n');
    }
}

proof fn lemma_lines_have_no_break(s: Seq<char>, i: int)
    requires
        0 <= i < text::lines_of(s).len(),
    ensures
        !text::lines_of(s)[i].contains('\n'),
    decreases s.len(),
{
    lemma_line_len_bound(s);
    let n = text::line_len(s);
    lemma_front_has_no_break(s, n);
    if n < s.len() {
        let first = text::without_cr(s.take(n));
        if i == 0 {
            if first.contains('\n') {
                let k = choose|k: int| 0 <= k < first.len() && first[k] == '\n';
                assert(s[k] == '\n');
            }
            assert(text::lines_of(s)[0] == first);
        } else {
            lemma_lines_have_no_break(s.skip(n + 1), i - 1);
            assert(text::lines_of(s)[i] == text::lines_of(s.skip(n + 1))[i - 1]);
        }
    } else {
        assert(text::lines_of(s)[i] == s);
        if s.contains('\n') {
            let k = choose|k: int| 0 <= k < s.len() && s[k] == '\n';
            assert(s[k] != '\n');
        }
    }
}

proof fn lemma_front_has_no_break(s: Seq<char>, n: int)
    requires
        n == text::line_len(s),
    ensures
        forall|k: int| 0 <= k < n && k < s.len() ==> s[k] != '\n',
    decreases s.len(),
{
    if s.len() > 0 && s[0] != '\n' {
        let t = s.drop_first();
        lemma_front_has_no_break(t, n - 1);
        assert forall|k: int| 0 <= k < n && k < s.len() implies s[k] != '\n' by {
            if k > 0 {
                assert(s[k] == t[k - 1]);
            }
        }
    }
}

/// The rows that a line is reckoned with are the rows that are written of it, where no part of it
/// has to be wrapped: one for the bracket, one for each line of the picture or for the placeholder,
/// one for the text, and an empty one.
pub proof fn reckoned_rows_are_written(line: Line, cols: nat)
    requires
        cols > 0,
        line.bracket_content.len() <= cols,
        line.content.len() <= cols,
        !line.bracket_content.contains('\n'),
        !line.username.contains('\n'),
        !line.content.contains('\n'),
        line.image_art matches Some(art) ==> forall|i: int|
            0 <= i < text::lines_of(art).len() ==> (#[trigger] text::lines_of(art)[i]).len() <= cols,
    ensures
        text::count_of(line_text(line), '\n') == line_rows(line, cols),
{
    rows_hold_the_text(line.bracket_content.len(), cols);
    rows_hold_the_text(line.content.len(), cols);
    lemma_painted_has_no_break(line);
    reveal_strlit("\x1b[90m");
    reveal_strlit("\x1b[35m");
    reveal_strlit("\x1b[37m");
    reveal_strlit("[");
    reveal_strlit("]:\x1b[0m\r\n");
    reveal_strlit("\x1b[0m\r\n\r\n");
    reveal_strlit("\x1b[2m<image>\x1b[0m\r\n");
    let none = Seq::<char>::empty();
    let colour = if painted_bracket(line).len() == 0 {
        none
    } else if line.dimmed {
        "\x1b[90m"@
    } else {
        "\x1b[35m"@
    };
    let p = painted_bracket(line);
    let close = "]:\x1b[0m\r\n"@;
    assert(close =~= close.take(7) + seq!['\n']);
    text::copies_add_up(close.take(7), seq!['\n'], '\n');
    text::copies_add_up(colour, "["@, '\n');
    text::copies_add_up("["@, none, '\n');
    text::copies_add_up(colour + "["@, p, '\n');
    text::copies_add_up(colour + "["@ + p, close, '\n');
    assert(text::count_of(bracket_row(line), '\n') == 1);
    match line.image_art {
        Some(art) => {
            let lines = text::lines_of(art);
            assert forall|i: int| 0 <= i < lines.len() implies (#[trigger] lines[i]).len() <= cols
                && !lines[i].contains('\n') by {
                lemma_lines_have_no_break(art, i);
            }
            lemma_art_breaks(lines, line.dimmed, cols);
        },
        None => {
            let mark = "\x1b[2m<image>\x1b[0m\r\n"@;
            let dim = if line.dimmed {
                "\x1b[90m"@
            } else {
                none
            };
            assert(mark =~= mark.take(16) + seq!['\n']);
            text::copies_add_up(mark.take(16), seq!['\n'], '\n');
            text::copies_add_up(dim, mark, '\n');
        },
    }
    assert(text::count_of(image_block(line), '\n') == image_rows(line, cols));
    let tint = if line.dimmed {
        "\x1b[90m"@
    } else {
        "\x1b[37m"@
    };
    let end = "\x1b[0m\r\n\r\n"@;
    assert(end =~= end.take(5) + seq!['\n'] + end.subrange(6, 7) + seq!['\n']);
    text::copies_add_up(end.take(5), seq!['\n'], '\n');
    text::copies_add_up(end.take(5) + seq!['\n'], end.subrange(6, 7), '\n');
    text::copies_add_up(end.subrange(6, 7), none, '\n');
    text::copies_add_up(end.take(5) + seq!['\n'] + end.subrange(6, 7), seq!['\n'], '\n');
    text::copies_add_up(tint, line.content, '\n');
    text::copies_add_up(line.content, none, '\n');
    text::copies_add_up(tint + line.content, end, '\n');
    assert(text::count_of(content_row(line), '\n') == 2);
    text::copies_add_up(bracket_row(line), image_block(line), '\n');
    text::copies_add_up(bracket_row(line) + image_block(line), content_row(line), '\n');
}

/// As many of the newest lines are drawn as the room has rows for: one more would not fit.
pub proof fn room_is_used_up(lines: Seq<Line>, cols: nat, room: nat)
    ensures
        ({
            let d = drawn(lines, cols, room);
            &&& lines.len() > 0 && line_rows(lines.last(), cols) <= room ==> {
                &&& 0 < d.len() <= lines.len()
                &&& d == lines.skip(lines.len() - d.len())
                &&& lines_rows(d, cols) <= room
                &&& d.len() < lines.len() ==> lines_rows(
                    lines.skip(lines.len() - d.len() - 1),
                    cols,
                ) > room
            }
            &&& lines.len() > 0 && line_rows(lines.last(), cols) > room ==> d.len() == if room > 1 {
                1nat
            } else {
                0
            }
            &&& lines.len() == 0 ==> d.len() == 0
        }),
{
    lemma_fitting_rows(lines, cols, room as int);
    lemma_next_does_not_fit(lines, cols, room as int);
}

proof fn lemma_next_does_not_fit(lines: Seq<Line>, cols: nat, room: int)
    requires
        room >= 0,
    ensures
        fitting(lines, cols, room) <= lines.len(),
        fitting(lines, cols, room) < lines.len() ==> lines_rows(
            lines.skip(lines.len() - fitting(lines, cols, room) - 1),
            cols,
        ) > room,
    decreases lines.len(),
{
    let n = fitting(lines, cols, room);
    if lines.len() > 0 {
        let rest = lines.drop_last();
        let need = line_rows(lines.last(), cols);
        if need <= room {
            lemma_next_does_not_fit(rest, cols, room - need);
            if n < lines.len() {
                let more = lines.skip(lines.len() - n - 1);
                assert(more.drop_last() =~= rest.skip(rest.len() - (n - 1) - 1));
                assert(more.last() == lines.last());
            }
        } else {
            let one = lines.skip(lines.len() - 1);
            assert(one.last() == lines.last());
            assert(one.drop_last().len() == 0);
        }
    }
}

/// A line that is too long even by itself is cut to the front of its text and an ellipsis, and its
/// text then fits into the rows below the bracket; nothing else of it changes.
pub proof fn cut_line_fits(line: Line, cols: nat, room: nat)
    requires
        cols > 0,
        room > 1,
        cols * (room - 1) <= usize::MAX,
    ensures
        ({
            let short = cut(line, cols, room);
            &&& 0 < short.content.len() <= cols * (room - 1)
            &&& short.content.last() == '…'
            &&& short.content.drop_last() == line.content.take(short.content.len() - 1)
            &&& line.content.len() >= cols * (room - 1) ==> short.content.len() == cols * (room - 1)
            &&& short == Line { content: short.content, ..line }
        }),
{
    let cells = cols * ((room - 1) as nat);
    assert(cells >= 1) by (nonlinear_arith)
        requires
            cells == cols * ((room - 1) as nat),
            cols >= 1,
            room - 1 >= 1,
    ;
    let short = cut(line, cols, room);
    let kept = layout::clipped(line.content, (cells - 1) as nat);
    layout::clipped_text_is_the_front(line.content, (cells - 1) as nat);
    assert(short.content == kept.push('…'));
    assert(short.content.drop_last() =~= kept);
}

// ── Laws of the bars ──────────────────────────────────────────────────

/// Header, messages, status bar and footer share the rows of the screen without a gap: the room
/// for messages ends where the status bar begins, and the footer is the last row.
pub proof fn bars_share_the_screen(rows: nat)
    requires
        3 <= rows <= 0xffff,
    ensures
        1 + budget(rows) == row_above_end(rows, 2),
        row_above_end(rows, 2) + 1 == row_above_end(rows, 1),
        row_above_end(rows, 1) + 1 == rows,
{
}

/// The status bar tells how many messages are buffered, the size of the terminal as columns by
/// rows, who is logged in, and how far the display is scrolled; its dot is green as long as the
/// engine is there and red when it is gone.
pub proof fn status_bar_tells_the_state(
    cols: nat,
    rows: nat,
    buffered: nat,
    scroll: nat,
    detail: Seq<char>,
    login: Option<LoginState>,
    connected: bool,
)
    ensures
        ({
            let words = status_text(cols, rows, buffered, scroll, detail, login);
            let bar = status_bar(connected, cols, words);
            &&& text::has_sub(words, detail)
            &&& text::has_sub(words, numbers::digits(buffered) + " messages buffered"@)
            &&& text::has_sub(words, numbers::digits(cols) + "x"@ + numbers::digits(rows))
            &&& scroll > 0 ==> text::has_sub(words, numbers::digits(scroll) + " msgs"@)
            &&& scroll == 0 ==> scroll_bit(scroll).len() == 0
            &&& login matches Some(l) ==> (l.handle@.len() > 0 ==> text::has_sub(
                words,
                l.platform@ + " "@ + l.handle@ + " ("@ + l.effective.title() + ")"@,
            ))
            &&& login is None ==> text::has_sub(words, "not logged in"@)
            &&& connected ==> text::has_sub(bar, "\x1b[32m●"@)
            &&& !connected ==> text::has_sub(bar, "\x1b[31m●"@)
            &&& cols >= 2 + words.len() ==> text::has_sub(bar, words)
        }),
{
    lemma_status_counts(cols, rows, buffered, scroll, detail, login);
    lemma_status_size(cols, rows, buffered, scroll, detail, login);
    lemma_status_scroll(cols, rows, buffered, scroll, detail, login);
    lemma_status_login(cols, rows, buffered, scroll, detail, login);
    lemma_dot(connected, cols, status_text(cols, rows, buffered, scroll, detail, login));
}

/// What the status text says before the size of the terminal.
spec fn status_front(buffered: nat, detail: Seq<char>) -> Seq<char> {
    " "@ + detail + " | "@ + numbers::digits(buffered) + " messages buffered | "@
}

proof fn lemma_status_counts(
    cols: nat,
    rows: nat,
    buffered: nat,
    scroll: nat,
    detail: Seq<char>,
    login: Option<LoginState>,
)
    ensures
        text::has_sub(status_text(cols, rows, buffered, scroll, detail, login), detail),
        text::has_sub(
            status_text(cols, rows, buffered, scroll, detail, login),
            numbers::digits(buffered) + " messages buffered"@,
        ),
{
    let words = status_text(cols, rows, buffered, scroll, detail, login);
    let b = numbers::digits(buffered);
    let said = " messages buffered | "@;
    let tail = numbers::digits(cols) + "x"@ + numbers::digits(rows) + login_bit(login) + scroll_bit(
        scroll,
    ) + " "@;
    assert(words =~= " "@ + detail + (" | "@ + b + said + tail));
    text::middle_is_found(" "@, detail, " | "@ + b + said + tail);
    assert(said =~= " messages buffered"@ + said.skip(18)) by {
        reveal_strlit(" messages buffered | ");
        reveal_strlit(" messages buffered");
    }
    let front = " "@ + detail + " | "@;
    let rest = said.skip(18) + tail;
    assert(words =~= front + (b + " messages buffered"@) + rest);
    text::middle_is_found(front, b + " messages buffered"@, rest);
}

proof fn lemma_status_size(
    cols: nat,
    rows: nat,
    buffered: nat,
    scroll: nat,
    detail: Seq<char>,
    login: Option<LoginState>,
)
    ensures
        text::has_sub(
            status_text(cols, rows, buffered, scroll, detail, login),
            numbers::digits(cols) + "x"@ + numbers::digits(rows),
        ),
{
    let words = status_text(cols, rows, buffered, scroll, detail, login);
    let size = numbers::digits(cols) + "x"@ + numbers::digits(rows);
    let front = status_front(buffered, detail);
    let rest = login_bit(login) + scroll_bit(scroll) + " "@;
    assert(words =~= front + size + rest);
    text::middle_is_found(front, size, rest);
}

proof fn lemma_status_scroll(
    cols: nat,
    rows: nat,
    buffered: nat,
    scroll: nat,
    detail: Seq<char>,
    login: Option<LoginState>,
)
    ensures
        scroll > 0 ==> text::has_sub(
            status_text(cols, rows, buffered, scroll, detail, login),
            numbers::digits(scroll) + " msgs"@,
        ),
{
    if scroll > 0 {
        let words = status_text(cols, rows, buffered, scroll, detail, login);
        let size = numbers::digits(cols) + "x"@ + numbers::digits(rows);
        let end = " msgs)"@;
        assert(end =~= " msgs"@ + end.skip(5)) by {
            reveal_strlit(" msgs)");
            reveal_strlit(" msgs");
        }
        let front = status_front(buffered, detail) + size + login_bit(login) + " | ↑frozen ("@;
        let n = numbers::digits(scroll) + " msgs"@;
        let rest = end.skip(5) + " "@;
        assert(words =~= front + n + rest);
        text::middle_is_found(front, n, rest);
    }
}

proof fn lemma_status_login(
    cols: nat,
    rows: nat,
    buffered: nat,
    scroll: nat,
    detail: Seq<char>,
    login: Option<LoginState>,
)
    ensures
        login matches Some(l) ==> (l.handle@.len() > 0 ==> text::has_sub(
            status_text(cols, rows, buffered, scroll, detail, login),
            l.platform@ + " "@ + l.handle@ + " ("@ + l.effective.title() + ")"@,
        )),
        login is None ==> text::has_sub(
            status_text(cols, rows, buffered, scroll, detail, login),
            "not logged in"@,
        ),
{
    let words = status_text(cols, rows, buffered, scroll, detail, login);
    let size = numbers::digits(cols) + "x"@ + numbers::digits(rows);
    let front = status_front(buffered, detail) + size;
    let rest = scroll_bit(scroll) + " "@;
    if let Some(l) = login {
        if l.handle@.len() > 0 {
            let name = l.platform@ + " "@ + l.handle@ + " ("@ + l.effective.title() + ")"@;
            assert(words =~= (front + " | "@) + name + rest);
            text::middle_is_found(front + " | "@, name, rest);
        }
    } else {
        let out = " | not logged in (l to login)"@;
        assert(out =~= out.take(3) + "not logged in"@ + out.skip(16)) by {
            reveal_strlit(" | not logged in (l to login)");
            reveal_strlit("not logged in");
        }
        assert(words =~= (front + out.take(3)) + "not logged in"@ + (out.skip(16) + rest));
        text::middle_is_found(front + out.take(3), "not logged in"@, out.skip(16) + rest);
    }
}

proof fn lemma_dot(connected: bool, cols: nat, words: Seq<char>)
    ensures
        connected ==> text::has_sub(status_bar(connected, cols, words), "\x1b[32m●"@),
        !connected ==> text::has_sub(status_bar(connected, cols, words), "\x1b[31m●"@),
        cols >= 2 + words.len() ==> text::has_sub(status_bar(connected, cols, words), words),
{
    let bar = status_bar(connected, cols, words);
    reveal_strlit("\x1b[32m");
    reveal_strlit("\x1b[31m");
    reveal_strlit("\x1b[32m●");
    reveal_strlit("\x1b[31m●");
    reveal_strlit("●\x1b[37m");
    let dot = "●\x1b[37m"@;
    let front = "\x1b[100m\x1b[37m "@;
    let filled = layout::fitted(words, status_width(cols));
    let rest = dot.skip(1) + filled + "\x1b[0m"@;
    let green = "\x1b[32m●"@;
    let red = "\x1b[31m●"@;
    assert(green =~= "\x1b[32m"@ + dot.take(1));
    assert(red =~= "\x1b[31m"@ + dot.take(1));
    assert(dot =~= dot.take(1) + dot.skip(1));
    if connected {
        assert(bar =~= front + green + rest);
        text::middle_is_found(front, green, rest);
    } else {
        assert(bar =~= front + red + rest);
        text::middle_is_found(front, red, rest);
    }
    if cols >= 2 + words.len() {
        layout::clipped_text_is_the_front(words, status_width(cols));
        layout::padded_text_comes_first(words, status_width(cols));
        assert(filled =~= words + filled.skip(words.len() as int));
        let before = front + (if connected {
            "\x1b[32m"@
        } else {
            "\x1b[31m"@
        }) + dot;
        let after = filled.skip(words.len() as int) + "\x1b[0m"@;
        assert(bar =~= before + words + after);
        text::middle_is_found(before, words, after);
    }
}

/// The footer offers what the operator can do: moderating only to those who may, and while they
/// write only what helps with that.
pub proof fn footer_offers_what_is_possible(
    mode: UiMode,
    login: Option<LoginState>,
    other: Option<LoginState>,
)
    ensures
        mode == UiMode::Input ==> footer(mode, login) == footer(mode, other),
        mode != UiMode::Input && (login matches Some(l) && (l.effective.is_moderator
            || l.effective.is_admin || l.effective.is_owner)) ==> text::has_sub(
            footer(mode, login),
            "enter: mod menu"@,
        ),
        mode != UiMode::Input && !(login matches Some(l) && (l.effective.is_moderator
            || l.effective.is_admin || l.effective.is_owner)) ==> footer(mode, login)
            == " q: exit | l: login | up/down/wheel: scroll "@,
{
    if mode != UiMode::Input && (login matches Some(l) && l.moderates()) {
        reveal_strlit(
            " q: exit | l: login | i: send | up/down/wheel: scroll | enter: mod menu | esc: back ",
        );
        reveal_strlit("enter: mod menu");
        let f =
            " q: exit | l: login | i: send | up/down/wheel: scroll | enter: mod menu | esc: back "@;
        assert(f.subrange(56, 71) =~= "enter: mod menu"@);
        assert(text::matches_at(f, "enter: mod menu"@, 56));
    }
}

/// A frame clears the screen, writes the header, one text for each line in their order, and then
/// the two bars, each at its own row.
pub proof fn frames_are_written_top_down(
    cols: nat,
    rows: nat,
    messages: Seq<ChatMessageItem>,
    ui: Ui,
    status: AppStatus,
    config: ChatConfig,
    login: Option<LoginState>,
    now: Instant,
    i: int,
)
    requires
        3 <= rows <= 0xffff,
    ensures
        ({
            let f = frame(cols, rows, messages, ui, status, config, login, now);
            let lines = frame_lines(cols, rows, messages, ui.scroll as nat, config, now);
            let n = 3 + lines.len() as int;
            &&& f[0] == Mark::MoveTo(0, 0) && f[1] is ClearAll
            &&& 0 <= i < lines.len() ==> (f[3 + i] matches Mark::Print(s) && text::has_sub(
                s,
                lines[i].content,
            ))
            &&& f[n] == Mark::MoveTo(0, (rows - 2) as u16)
            &&& f[n + 1] matches Mark::Print(s) && (status.connected ==> text::has_sub(
                s,
                "\x1b[32m●"@,
            )) && (!status.connected ==> text::has_sub(s, "\x1b[31m●"@))
            &&& f[n + 2] == Mark::MoveTo(0, (rows - 1) as u16)
            &&& f[n + 3] == Mark::Print(footer_row(ui.mode, login, cols))
            &&& f.skip(n + 4) == overlay::overlays(cols, rows, ui, login)
        }),
{
    let lines = frame_lines(cols, rows, messages, ui.scroll as nat, config, now);
    let f = frame(cols, rows, messages, ui, status, config, login, now);
    assert(f.skip(7 + lines.len() as int) =~= overlay::overlays(cols, rows, ui, login));
    if 0 <= i < lines.len() {
        content_is_written(lines[i]);
    }
    status_bar_tells_the_state(
        cols,
        rows,
        messages.len(),
        ui.scroll as nat,
        status.detail@,
        login,
        status.connected,
    );
}

/// The header names the program, in the middle of its row.
pub proof fn header_names_the_program(cols: nat)
    ensures
        text::has_sub(header_row(cols), " Cockatiel Term Chat "@),
{
    let title = " Cockatiel Term Chat "@;
    let c = layout::centered(title, cols);
    layout::centered_text_is_in_the_middle(title, cols);
    let left = (c.len() - title.len()) / 2;
    let front = "\x1b[44m\x1b[37m"@ + c.take(left);
    let back = c.skip(left + title.len()) + "\x1b[0m\r\n"@;
    assert(c =~= c.take(left) + c.subrange(left, left + title.len()) + c.skip(left + title.len()));
    assert(header_row(cols) =~= front + title + back);
    text::middle_is_found(front, title, back);
}

/// Every line of a picture is written, one below the other in their order.
pub proof fn art_is_written_line_by_line(lines: Seq<Seq<char>>, last: Seq<char>, dimmed: bool)
    ensures
        ({
            let before = art_block(lines, dimmed);
            let after = art_block(lines.push(last), dimmed);
            &&& after.len() >= before.len() && after.take(before.len() as int) == before
            &&& text::has_sub(after.skip(before.len() as int), last + (if dimmed {
                "\x1b[0m\r\n"@
            } else {
                "\r\n"@
            }))
        }),
{
    let before = art_block(lines, dimmed);
    let after = art_block(lines.push(last), dimmed);
    assert(lines.push(last).drop_last() =~= lines);
    let none = Seq::<char>::empty();
    assert(after.take(before.len() as int) =~= before);
    if dimmed {
        let row = last + "\x1b[0m\r\n"@;
        assert(after.skip(before.len() as int) =~= DIM_COLOR@ + row + none);
        text::middle_is_found(DIM_COLOR@, row, none);
    } else {
        let row = last + "\r\n"@;
        assert(after.skip(before.len() as int) =~= none + row + none);
        text::middle_is_found(none, row, none);
    }
}

/// A plus sign before a single digit is read over; two characters that are no number stand for the
/// full channel.
pub proof fn faulty_channels_are_full(a: char, b: char, n: int)
    requires
        '\0' <= a <= '\u{7f}',
        '\0' <= b <= '\u{7f}',
    ensures
        a == '+' && writes_digit(b, n) ==> channel(a as u8, b as u8) == n,
        (forall|m: int| !writes_digit(b, m)) ==> channel(a as u8, b as u8) == 255,
        a != '+' && (forall|m: int| !writes_digit(a, m)) ==> channel(a as u8, b as u8) == 255,
{
    reveal_strlit("0123456789abcdef");
    reveal_strlit("0123456789ABCDEF");
    hex_digits_read_alike(b, n);
    hex_digits_read_alike(a, n);
    assert((a as u8) as char == a && (b as u8) as char == b);
    if forall|m: int| !writes_digit(b, m) {
        if hex_value(b as u8) is Some {
            assert(writes_digit(b, hex_value(b as u8)->0 as int));
        }
    }
    if forall|m: int| !writes_digit(a, m) {
        if hex_value(a as u8) is Some {
            assert(writes_digit(a, hex_value(a as u8)->0 as int));
        }
    }
}

/// A picture takes the rows of its lines together, each wrapped by itself.
pub proof fn pictures_take_the_rows_of_their_lines(
    line: Line,
    art: Seq<char>,
    last: Seq<char>,
    cols: nat,
)
    requires
        cols > 0,
        line.image_art == Some(art),
    ensures
        image_rows(line, cols) == total_rows(text::lines_of(art), cols),
        total_rows(text::lines_of(art).push(last), cols) == image_rows(line, cols) + rows_of(
            last.len(),
            cols,
        ),
        total_rows(Seq::empty(), cols) == 0,
{
    assert(text::lines_of(art).push(last).drop_last() =~= text::lines_of(art));
}

/// The visible lines stand in the order of their messages, the oldest first, each with the words of
/// its own.
pub proof fn lines_keep_the_order_of_messages(
    messages: Seq<ChatMessageItem>,
    scroll: nat,
    config: ChatConfig,
    now: Instant,
    i: int,
)
    requires
        scroll <= messages.len(),
        0 <= i < messages.len() - scroll,
    ensures
        visible_lines(messages, scroll, config, now).len() == messages.len() - scroll,
        visible_lines(messages, scroll, config, now)[i].content == messages[i].content@,
        visible_lines(messages, scroll, config, now)[i].username == messages[i].username@,
{
}

/// A line that is about to go is grey from front to back; the others have the common colour for the
/// bracket and white for their words.
pub proof fn dimmed_lines_are_grey(line: Line)
    ensures
        line.dimmed ==> text::has_sub(line_text(line), "\x1b[90m"@ + line.content),
        !line.dimmed ==> text::has_sub(line_text(line), "\x1b[37m"@ + line.content),
        painted_bracket(line).len() > 0 && line.dimmed ==> text::has_prefix(
            line_text(line),
            "\x1b[90m["@,
        ),
        painted_bracket(line).len() > 0 && !line.dimmed ==> text::has_prefix(
            line_text(line),
            "\x1b[35m["@,
        ),
{
    let front = bracket_row(line) + image_block(line);
    let back = "\x1b[0m\r\n\r\n"@;
    let tint = if line.dimmed {
        "\x1b[90m"@
    } else {
        "\x1b[37m"@
    };
    assert(line_text(line) =~= front + (tint + line.content) + back);
    text::middle_is_found(front, tint + line.content, back);
    if painted_bracket(line).len() > 0 {
        reveal_strlit("\x1b[90m");
        reveal_strlit("\x1b[35m");
        reveal_strlit("[");
        reveal_strlit("\x1b[90m[");
        reveal_strlit("\x1b[35m[");
        if line.dimmed {
            assert(line_text(line).subrange(0, 6) =~= "\x1b[90m["@);
        } else {
            assert(line_text(line).subrange(0, 6) =~= "\x1b[35m["@);
        }
    }
}

/// The footer stands in its row as it is.
pub proof fn footer_is_shown(mode: UiMode, login: Option<LoginState>, cols: nat)
    ensures
        text::has_sub(footer_row(mode, login, cols), footer(mode, login)),
{
    let words = footer(mode, login);
    let c = layout::centered(words, cols);
    layout::centered_text_is_in_the_middle(words, cols);
    let left = (c.len() - words.len()) / 2;
    let front = "\x1b[90m"@ + c.take(left);
    let back = c.skip(left + words.len()) + "\x1b[0m"@;
    assert(c =~= c.take(left) + c.subrange(left, left + words.len()) + c.skip(left + words.len()));
    assert(footer_row(mode, login, cols) =~= front + words + back);
    text::middle_is_found(front, words, back);
}

/// On a screen that is wide enough, the frame tells how many messages are buffered, its own size and
/// how far it is scrolled.
pub proof fn frames_tell_the_state(
    cols: nat,
    rows: nat,
    messages: Seq<ChatMessageItem>,
    ui: Ui,
    status: AppStatus,
    config: ChatConfig,
    login: Option<LoginState>,
    now: Instant,
)
    requires
        2 + status_text(
            cols,
            rows,
            messages.len(),
            ui.scroll as nat,
            status.detail@,
            login,
        ).len() <= cols,
    ensures
        ({
            let f = frame(cols, rows, messages, ui, status, config, login, now);
            let lines = frame_lines(cols, rows, messages, ui.scroll as nat, config, now);
            f[4 + lines.len() as int] matches Mark::Print(s) && {
                &&& text::has_sub(s, status.detail@)
                &&& text::has_sub(s, numbers::digits(messages.len()) + " messages buffered"@)
                &&& text::has_sub(s, numbers::digits(cols) + "x"@ + numbers::digits(rows))
                &&& ui.scroll > 0 ==> text::has_sub(s, numbers::digits(ui.scroll as nat) + " msgs"@)
            }
        }),
{
    let words = status_text(cols, rows, messages.len(), ui.scroll as nat, status.detail@, login);
    let bar = status_bar(status.connected, cols, words);
    status_bar_tells_the_state(
        cols,
        rows,
        messages.len(),
        ui.scroll as nat,
        status.detail@,
        login,
        status.connected,
    );
    text::parts_of_parts_are_found(bar, words, status.detail@);
    text::parts_of_parts_are_found(
        bar,
        words,
        numbers::digits(messages.len()) + " messages buffered"@,
    );
    text::parts_of_parts_are_found(
        bar,
        words,
        numbers::digits(cols) + "x"@ + numbers::digits(rows),
    );
    if ui.scroll > 0 {
        text::parts_of_parts_are_found(bar, words, numbers::digits(ui.scroll as nat) + " msgs"@);
    }
}

/// Of a login that has no name yet the status bar gives the platform.
pub proof fn nameless_logins_show_their_platform(l: LoginState)
    ensures
        l.handle@.len() == 0 && l.platform@.len() > 0 ==> text::has_sub(
            login_bit(Some(l)),
            l.platform@,
        ),
        l.handle@.len() == 0 && l.platform@.len() == 0 ==> login_bit(Some(l)) == login_bit(None),
{
    text::middle_is_found(" | logged in ("@, l.platform@, ")"@);
}

} // verus!
