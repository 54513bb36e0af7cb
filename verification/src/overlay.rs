//! What is drawn on top of a frame: menus, prompts, notes and the input bar.
use crate::layout;
use crate::login::LoginState;
use crate::render::Ui;
use crate::screen;
use crate::screen::{Mark, Op};
use crate::text;
use crate::types::UiMode;
use vstd::prelude::*;

verus! {

// ── Boxes ─────────────────────────────────────────────────────────────

/// The length of the longest of several texts.
pub open spec fn longest(lines: Seq<Seq<char>>) -> nat
    decreases lines.len(),
{
    if lines.len() == 0 {
        0
    } else if longest(lines.drop_last()) > lines.last().len() {
        longest(lines.drop_last())
    } else {
        lines.last().len()
    }
}

/// The width of a box: two cells on either side of its longest line, but no wider than the screen
/// without its outermost columns, or ten cells where that is less. A box without lines is as wide
/// as one with a line of ten.
pub open spec fn box_width(lines: Seq<Seq<char>>, cols: nat) -> nat {
    let wanted = (if lines.len() == 0 {
        10
    } else {
        longest(lines)
    }) + 4;
    let room = if cols >= 12 {
        (cols - 2) as nat
    } else {
        10
    };
    if wanted < room {
        wanted
    } else {
        room
    }
}

/// The column of a box in the middle of the screen.
pub open spec fn box_left(lines: Seq<Seq<char>>, cols: nat) -> nat {
    if cols >= box_width(lines, cols) {
        ((cols - box_width(lines, cols)) / 2) as nat
    } else {
        0
    }
}

/// The first row of a box in the middle of the screen.
pub open spec fn box_top(lines: Seq<Seq<char>>, rows: nat) -> nat {
    if rows >= lines.len() + 2 {
        ((rows - (lines.len() + 2)) / 2) as nat
    } else {
        0
    }
}

/// One line of a box with `pad` cells for its text.
pub open spec fn box_line(line: Seq<char>, pad: nat) -> Seq<char> {
    "\x1b[100m\x1b[37m│ "@ + layout::padded(layout::ellipsized(line, pad), pad) + " │\x1b[0m"@
}

/// How a box is drawn: line by line in the middle of the screen.
pub open spec fn boxed(lines: Seq<Seq<char>>, cols: nat, rows: nat) -> Seq<Mark> {
    Seq::new(
        2 * lines.len(),
        |k: int|
            if k % 2 == 0 {
                Mark::MoveTo(box_left(lines, cols) as u16, (box_top(lines, rows) + k / 2) as u16)
            } else {
                Mark::Print(box_line(lines[k / 2], (box_width(lines, cols) - 4) as nat))
            },
    )
}

fn longest_of(lines: &Vec<String>) -> (r: usize)
    ensures
        r == longest(text::views(lines@)),
{
    let mut r: usize = 0;
    let mut i: usize = 0;
    let ghost all = text::views(lines@);
    while i < lines.len()
        invariant
            i <= lines@.len(),
            all == text::views(lines@),
            r == longest(all.take(i as int)),
        decreases lines@.len() - i,
    {
        assert(all.take(i + 1).drop_last() == all.take(i as int));
        assert(all.take(i + 1).last() == lines@[i as int]@);
        let n: usize = lines[i].as_str().unicode_len();
        if r <= n {
            r = n;
        }
        i += 1;
    }
    assert(all.take(all.len() as int) == all);
    r
}

/// Draw a box behind what was drawn before.
pub fn draw_box(ops: &mut Vec<Op>, cols: usize, rows: usize, lines: &Vec<String>)
    ensures
        screen::marks(final(ops)@) == screen::marks(old(ops)@) + boxed(
            text::views(lines@),
            cols as nat,
            rows as nat,
        ),
{
    let ghost all = text::views(lines@);
    let ghost start = screen::marks(ops@);
    let ghost want = boxed(all, cols as nat, rows as nat);
    let room: usize = if cols >= 12 {
        cols - 2
    } else {
        10
    };
    let text_len: usize = if lines.len() == 0 {
        10
    } else {
        longest_of(lines)
    };
    let width: usize = if text_len < room - 4 {
        text_len + 4
    } else {
        room
    };
    assert(width == box_width(all, cols as nat));
    let left: usize = if cols >= width {
        (cols - width) / 2
    } else {
        0
    };
    let count: usize = lines.len();
    let top: usize = if rows >= 2 && rows - 2 >= count {
        (rows - 2 - count) / 2
    } else {
        0
    };
    assert(top == box_top(all, rows as nat));
    let pad: usize = width - 4;
    let mut i: usize = 0;
    assert(start + want.take(0) =~= start);
    while i < count
        invariant
            i <= count == lines@.len(),
            all == text::views(lines@),
            want == boxed(all, cols as nat, rows as nat),
            width == box_width(all, cols as nat),
            left == box_left(all, cols as nat),
            top == box_top(all, rows as nat),
            pad == width - 4,
            top <= rows,
            count > 0 ==> top + count <= rows || top == 0,
            screen::marks(ops@) == start + want.take(2 * i as int),
        decreases count - i,
    {
        screen::push_op(ops, Op::MoveTo(left as u16, (top + i) as u16));
        let mut s = "\x1b[100m\x1b[37m│ ".to_owned();
        s.append(layout::pad(layout::ellipsize(lines[i].as_str(), pad).as_str(), pad).as_str());
        s.append(" │\x1b[0m");
        screen::push_op(ops, Op::Print(s));
        proof {
            let k = 2 * i as int;
            assert(want[k] == Mark::MoveTo(left as u16, (top + i) as u16));
            assert(all[i as int] == lines@[i as int]@);
            assert((k + 1) % 2 == 1 && (k + 1) / 2 == i);
            assert(want[k + 1] == Mark::Print(s@));
            assert(start + want.take(k + 2) =~= (start + want.take(k)).push(want[k]).push(
                want[k + 1],
            ));
        }
        i += 1;
    }
    assert(want.take(2 * count as int) =~= want);
}

// ── What the overlays say ─────────────────────────────────────────────

/// Who is logged in, as the menus put it.
pub open spec fn login_name(l: LoginState) -> Seq<char> {
    l.platform@ + " "@ + l.handle@ + " ("@ + l.effective.title() + ")"@
}

pub fn name_login(l: &LoginState) -> (r: String)
    ensures
        r@ == login_name(*l),
{
    let mut r = l.platform.clone();
    r.append(" ");
    r.append(l.handle.as_str());
    r.append(" (");
    r.append(l.effective.label());
    r.append(")");
    r
}

/// A note as a further line of a menu, if there is one.
pub open spec fn note_line(note: Seq<char>) -> Seq<Seq<char>> {
    if note.len() > 0 {
        seq![" ⚠ "@ + note]
    } else {
        Seq::empty()
    }
}

pub open spec fn login_menu(note: Seq<char>, login: Option<LoginState>) -> Seq<Seq<char>> {
    seq![
        "─ LOGIN ─"@,
        " 1: Twitch"@,
        " 2: Kick (enter handle after auth)"@,
        " 3: YouTube"@,
        " 4: cancel"@,
    ] + note_line(note) + (match login {
        Some(l) => if l.handle@.len() > 0 {
            seq![" logged in as "@ + login_name(l)]
        } else {
            Seq::empty()
        },
        None => Seq::empty(),
    })
}

/// Whom an action is aimed at: the name, or the handle where there is none, and the platform.
pub open spec fn target_name(target: Option<(String, String, String, String)>) -> Seq<char> {
    match target {
        Some((user, handle, platform, _)) => (if user@.len() == 0 {
            handle@
        } else {
            user@
        }) + " ("@ + platform@ + ")"@,
        None => Seq::empty(),
    }
}

pub open spec fn action_menu(
    target: Option<(String, String, String, String)>,
    note: Seq<char>,
) -> Seq<Seq<char>> {
    seq![
        "─ MOD ACTIONS: "@ + target_name(target) + " ─"@,
        " 1: ban"@,
        " 2: timeout"@,
        " 3: commend (+1 score)"@,
        " 4: reprimand (-1 score)"@,
        " esc: back"@,
    ] + note_line(note)
}

/// The width that is left for the draft behind the name of the platform.
pub open spec fn draft_width(platform: Seq<char>, cols: nat) -> nat {
    let prefix = ("["@ + platform + "] > "@).len();
    let used = if prefix > 1 {
        prefix
    } else {
        1
    };
    if cols >= used + 1 {
        (cols - used) as nat
    } else {
        1
    }
}

/// The input bar.
pub open spec fn input_bar(platform: Seq<char>, draft: Seq<char>, cols: nat) -> Seq<char> {
    let width = draft_width(platform, cols);
    "\x1b[40m\x1b[37m"@ + ("["@ + platform + "] > "@) + layout::padded(
        layout::ellipsized(draft, width),
        width,
    ) + "\x1b[0m"@
}

/// What is drawn on top of a frame.
pub open spec fn overlays(cols: nat, rows: nat, ui: Ui, login: Option<LoginState>) -> Seq<Mark> {
    match ui.mode {
        UiMode::Chat => if ui.result_note@.len() > 0 {
            boxed(seq![ui.result_note@], cols, rows)
        } else {
            Seq::empty()
        },
        UiMode::LoginMenu => boxed(login_menu(ui.login_note@, login), cols, rows),
        UiMode::KickHandle => boxed(
            seq![" Enter your Kick username:"@, " > "@ + ui.kick_handle_draft@] + note_line(
                ui.login_note@,
            ),
            cols,
            rows,
        ),
        UiMode::ActionMenu => boxed(action_menu(ui.action_target, ui.result_note@), cols, rows),
        UiMode::TimeoutPrompt => boxed(
            seq![" Timeout duration in seconds (default 300):"@, " > "@ + ui.timeout_draft@],
            cols,
            rows,
        ),
        UiMode::Input => seq![
            Mark::MoveTo(
                0,
                (if rows >= 3 {
                    rows - 3
                } else {
                    0
                }) as u16,
            ),
            Mark::Print(input_bar(ui.target_platform@, ui.draft@, cols)),
        ],
    }
}

fn push_line(lines: &mut Vec<String>, s: String)
    ensures
        text::views(final(lines)@) == text::views(old(lines)@).push(s@),
{
    let ghost before = lines@;
    lines.push(s);
    assert(text::views(lines@) =~= text::views(before).push(s@));
}

fn push_note(lines: &mut Vec<String>, note: &str)
    ensures
        text::views(final(lines)@) == text::views(old(lines)@) + note_line(note@),
{
    let ghost before = text::views(lines@);
    if !note.is_empty() {
        push_line(lines, text::concat(" ⚠ ", note));
    }
    assert(text::views(lines@) =~= before + note_line(note@));
}

fn login_menu_lines(note: &str, login: Option<&LoginState>) -> (lines: Vec<String>)
    ensures
        text::views(lines@) == login_menu(note@, login_view(login)),
{
    let mut lines: Vec<String> = Vec::new();
    push_line(&mut lines, "─ LOGIN ─".to_owned());
    push_line(&mut lines, " 1: Twitch".to_owned());
    push_line(&mut lines, " 2: Kick (enter handle after auth)".to_owned());
    push_line(&mut lines, " 3: YouTube".to_owned());
    push_line(&mut lines, " 4: cancel".to_owned());
    push_note(&mut lines, note);
    let ghost before = text::views(lines@);
    match login {
        Some(l) => {
            if !l.handle.as_str().is_empty() {
                push_line(&mut lines, text::concat(" logged in as ", name_login(l).as_str()));
            }
        },
        None => {},
    }
    assert(text::views(lines@) =~= login_menu(note@, login_view(login)));
    lines
}

fn action_menu_lines(
    target: &Option<(String, String, String, String)>,
    note: &str,
) -> (lines: Vec<String>)
    ensures
        text::views(lines@) == action_menu(*target, note@),
{
    let mut title = "─ MOD ACTIONS: ".to_owned();
    let mut name = String::new();
    match target {
        Some((user, handle, platform, _)) => {
            if user.as_str().is_empty() {
                name.append(handle.as_str());
            } else {
                name.append(user.as_str());
            }
            name.append(" (");
            name.append(platform.as_str());
            name.append(")");
        },
        None => {},
    }
    assert(name@ =~= target_name(*target));
    title.append(name.as_str());
    title.append(" ─");
    let mut lines: Vec<String> = Vec::new();
    push_line(&mut lines, title);
    push_line(&mut lines, " 1: ban".to_owned());
    push_line(&mut lines, " 2: timeout".to_owned());
    push_line(&mut lines, " 3: commend (+1 score)".to_owned());
    push_line(&mut lines, " 4: reprimand (-1 score)".to_owned());
    push_line(&mut lines, " esc: back".to_owned());
    push_note(&mut lines, note);
    assert(text::views(lines@) =~= action_menu(*target, note@));
    lines
}

fn input_line(platform: &str, draft: &str, cols: usize) -> (r: String)
    ensures
        r@ == input_bar(platform@, draft@, cols as nat),
{
    let mut prefix = "[".to_owned();
    prefix.append(platform);
    prefix.append("] > ");
    let len: usize = prefix.as_str().unicode_len();
    let used: usize = if len > 1 {
        len
    } else {
        1
    };
    let width: usize = if cols > used {
        cols - used
    } else {
        1
    };
    let mut r = "\x1b[40m\x1b[37m".to_owned();
    r.append(prefix.as_str());
    r.append(layout::pad(layout::ellipsize(draft, width).as_str(), width).as_str());
    r.append("\x1b[0m");
    r
}

/// Who is logged in, by value.
pub open spec fn login_view(login: Option<&LoginState>) -> Option<LoginState> {
    match login {
        Some(l) => Some(*l),
        None => None,
    }
}

/// Draw what lies on top of a frame.
pub fn draw_overlays(
    ops: &mut Vec<Op>,
    cols: usize,
    rows: usize,
    ui: &Ui,
    login: Option<&LoginState>,
)
    ensures
        screen::marks(final(ops)@) == screen::marks(old(ops)@) + overlays(
            cols as nat,
            rows as nat,
            *ui,
            login_view(login),
        ),
{
    let ghost start = screen::marks(ops@);
    let mut lines: Vec<String> = Vec::new();
    match ui.mode {
        UiMode::Chat => {
            if !ui.result_note.as_str().is_empty() {
                push_line(&mut lines, ui.result_note.clone());
                assert(text::views(lines@) =~= seq![ui.result_note@]);
                draw_box(ops, cols, rows, &lines);
            } else {
                assert(start + Seq::empty() =~= start);
            }
        },
        UiMode::LoginMenu => {
            draw_box(ops, cols, rows, &login_menu_lines(ui.login_note.as_str(), login));
        },
        UiMode::KickHandle => {
            push_line(&mut lines, " Enter your Kick username:".to_owned());
            push_line(&mut lines, text::concat(" > ", ui.kick_handle_draft.as_str()));
            assert(text::views(lines@) =~= seq![
                " Enter your Kick username:"@,
                " > "@ + ui.kick_handle_draft@,
            ]);
            push_note(&mut lines, ui.login_note.as_str());
            draw_box(ops, cols, rows, &lines);
        },
        UiMode::ActionMenu => {
            draw_box(
                ops,
                cols,
                rows,
                &action_menu_lines(&ui.action_target, ui.result_note.as_str()),
            );
        },
        UiMode::TimeoutPrompt => {
            push_line(&mut lines, " Timeout duration in seconds (default 300):".to_owned());
            push_line(&mut lines, text::concat(" > ", ui.timeout_draft.as_str()));
            assert(text::views(lines@) =~= seq![
                " Timeout duration in seconds (default 300):"@,
                " > "@ + ui.timeout_draft@,
            ]);
            draw_box(ops, cols, rows, &lines);
        },
        UiMode::Input => {
            // The input bar stands at the bottom of the message area.
            screen::push_op(ops, Op::MoveTo(0, rows.saturating_sub(3) as u16));
            screen::push_op(
                ops,
                Op::Print(input_line(ui.target_platform.as_str(), ui.draft.as_str(), cols)),
            );
            assert(screen::marks(ops@) =~= start + overlays(
                cols as nat,
                rows as nat,
                *ui,
                login_view(login),
            ));
        },
    }
}

// ── Laws ──────────────────────────────────────────────────────────────

/// Where the screen is at least twelve columns wide, a box leaves its outermost columns free; every
/// line of a box is exactly as wide as the box.
pub proof fn box_stays_on_screen(lines: Seq<Seq<char>>, cols: nat)
    requires
        cols >= 12,
    ensures
        4 <= box_width(lines, cols) <= cols - 2,
        box_left(lines, cols) >= 1,
        box_left(lines, cols) + box_width(lines, cols) < cols,
        forall|i: int|
            #![trigger lines[i]]
            0 <= i < lines.len() ==> layout::padded(
                layout::ellipsized(lines[i], (box_width(lines, cols) - 4) as nat),
                (box_width(lines, cols) - 4) as nat,
            ).len() == box_width(lines, cols) - 4,
{
    assert forall|i: int| #![trigger lines[i]] 0 <= i < lines.len() implies layout::padded(
        layout::ellipsized(lines[i], (box_width(lines, cols) - 4) as nat),
        (box_width(lines, cols) - 4) as nat,
    ).len() == box_width(lines, cols) - 4 by {
        lemma_longest(lines, i);
    }
}

proof fn lemma_longest(lines: Seq<Seq<char>>, i: int)
    requires
        0 <= i < lines.len(),
    ensures
        lines[i].len() <= longest(lines),
    decreases lines.len(),
{
    if i < lines.len() - 1 {
        lemma_longest(lines.drop_last(), i);
    }
}

/// The longest text is one of them, and none is longer.
pub proof fn longest_is_the_maximum(lines: Seq<Seq<char>>, i: int)
    ensures
        0 <= i < lines.len() ==> lines[i].len() <= longest(lines),
        lines.len() > 0 ==> exists|j: int|
            0 <= j < lines.len() && (#[trigger] lines[j]).len() == longest(lines),
    decreases lines.len(),
{
    if 0 <= i < lines.len() {
        lemma_longest(lines, i);
    }
    if lines.len() > 0 {
        let front = lines.drop_last();
        longest_is_the_maximum(front, i);
        if longest(front) > lines.last().len() {
            let j = choose|j: int| 0 <= j < front.len() && (#[trigger] front[j]).len() == longest(front);
            assert(lines[j] == front[j]);
        } else {
            assert(lines[lines.len() - 1].len() == longest(lines));
        }
    }
}

/// Where the screen has room for the longest line and its frame, every line of a box is shown in
/// full, and the box is no wider than that line needs.
pub proof fn boxes_show_their_lines(lines: Seq<Seq<char>>, cols: nat, rows: nat, i: int)
    requires
        0 <= i < lines.len(),
        longest(lines) + 6 <= cols,
        cols >= 12,
    ensures
        box_width(lines, cols) == longest(lines) + 4,
        boxed(lines, cols, rows)[2 * i + 1] matches Mark::Print(s) && text::has_sub(
            s,
            "│ "@ + lines[i],
        ),
{
    longest_is_the_maximum(lines, i);
    let pad = (box_width(lines, cols) - 4) as nat;
    let line = lines[i];
    assert((2 * i + 1) % 2 == 1 && (2 * i + 1) / 2 == i);
    assert(boxed(lines, cols, rows)[2 * i + 1] == Mark::Print(box_line(line, pad)));
    reveal_strlit("\x1b[100m\x1b[37m│ ");
    reveal_strlit("│ ");
    let head = "\x1b[100m\x1b[37m│ "@;
    let start = head.take(head.len() - 2);
    assert(head =~= start + "│ "@);
    let filled = layout::padded(line, pad);
    layout::padded_text_comes_first(line, pad);
    let rest = filled.skip(line.len() as int) + " │\x1b[0m"@;
    assert(filled =~= line + filled.skip(line.len() as int));
    assert(box_line(line, pad) =~= start + ("│ "@ + line) + rest);
    text::middle_is_found(start, "│ "@ + line, rest);
}

/// A box stands in the middle: what is left of the screen is shared between left and right, and
/// between above and below, with one cell of difference at most; its lines follow one another.
pub proof fn boxes_stand_in_the_middle(lines: Seq<Seq<char>>, cols: nat, rows: nat, i: int)
    requires
        12 <= cols <= 0xffff,
        lines.len() + 2 <= rows <= 0xffff,
        0 <= i < lines.len(),
    ensures
        ({
            let left = box_left(lines, cols);
            let right = cols - box_width(lines, cols) - left;
            let top = box_top(lines, rows);
            let bottom = rows - (lines.len() + 2) - top;
            &&& left <= right <= left + 1
            &&& top <= bottom <= top + 1
            &&& boxed(lines, cols, rows)[2 * i] == Mark::MoveTo(left as u16, (top + i) as u16)
            &&& top + i < rows
        }),
{
    assert((2 * i) % 2 == 0 && (2 * i) / 2 == i);
}

/// The menu of moderation actions names in its head whom it is about: by name, or by handle where
/// there is none, and with the platform.
pub proof fn menu_names_the_target(
    user: String,
    handle: String,
    platform: String,
    id: String,
    note: Seq<char>,
)
    ensures
        ({
            let head = action_menu(Some((user, handle, platform, id)), note)[0];
            &&& user@.len() > 0 ==> head == "─ MOD ACTIONS: "@ + user@ + " ("@ + platform@
                + ") ─"@
            &&& user@.len() == 0 ==> head == "─ MOD ACTIONS: "@ + handle@ + " ("@ + platform@
                + ") ─"@
        }),
{
    let head = action_menu(Some((user, handle, platform, id)), note)[0];
    reveal_strlit(")");
    reveal_strlit(" ─");
    reveal_strlit(") ─");
    assert(")"@ + " ─"@ =~= ") ─"@);
    if user@.len() > 0 {
        assert(head =~= "─ MOD ACTIONS: "@ + user@ + " ("@ + platform@ + (")"@ + " ─"@));
    } else {
        assert(head =~= "─ MOD ACTIONS: "@ + handle@ + " ("@ + platform@ + (")"@ + " ─"@));
    }
}

/// The input bar shows the platform and, where there is room, the whole draft behind it; it fills
/// the width of the screen.
pub proof fn input_bar_shows_the_draft(platform: Seq<char>, draft: Seq<char>, cols: nat)
    requires
        platform.len() + 5 < cols,
        platform.len() + 5 + draft.len() <= cols,
    ensures
        text::has_sub(input_bar(platform, draft, cols), "["@ + platform + "] > "@ + draft),
        ("["@ + platform + "] > "@).len() + draft_width(platform, cols) == cols,
{
    reveal_strlit("[");
    reveal_strlit("] > ");
    let width = draft_width(platform, cols);
    let prefix = "["@ + platform + "] > "@;
    let filled = layout::padded(layout::ellipsized(draft, width), width);
    layout::padded_text_comes_first(draft, width);
    assert(filled =~= draft + filled.skip(draft.len() as int));
    let rest = filled.skip(draft.len() as int) + "\x1b[0m"@;
    assert(input_bar(platform, draft, cols) =~= "\x1b[40m\x1b[37m"@ + (prefix + draft) + rest);
    text::middle_is_found("\x1b[40m\x1b[37m"@, prefix + draft, rest);
}

/// A note is the last line of a menu and says what was noted; without one the menu has none.
pub proof fn notes_are_the_last_line(note: Seq<char>, target: Option<(String, String, String, String)>)
    ensures
        note.len() == 0 ==> action_menu(target, note).len() == 6 && login_menu(note, None).len()
            == 5,
        note.len() > 0 ==> action_menu(target, note).len() == 7 && text::has_sub(
            action_menu(target, note)[6],
            note,
        ) && login_menu(note, None).len() == 6 && text::has_sub(login_menu(note, None)[5], note),
{
    let none = Seq::<char>::empty();
    if note.len() > 0 {
        assert(" ⚠ "@ + note =~= " ⚠ "@ + note + none);
        text::middle_is_found(" ⚠ "@, note, none);
    }
}

/// Whoever is logged in is named at the end of the login menu; nobody is where nobody is.
pub proof fn login_menu_names_the_operator(l: LoginState)
    ensures
        l.handle@.len() > 0 ==> login_menu(Seq::empty(), Some(l)).len() == 6 && login_menu(
            Seq::empty(),
            Some(l),
        )[5] == " logged in as "@ + (l.platform@ + " "@ + l.handle@ + " ("@ + l.effective.title()
            + ")"@),
        l.handle@.len() == 0 ==> login_menu(Seq::empty(), Some(l)) == login_menu(
            Seq::empty(),
            None,
        ),
{
}

/// What lies on top of the chat is what the mode calls for: a note if there is one, the menu, the
/// prompt with what has been typed so far, or the input bar on the row above the status bar.
pub proof fn overlays_follow_the_mode(cols: nat, rows: nat, ui: Ui, login: Option<LoginState>)
    requires
        3 <= rows <= 0xffff,
    ensures
        ({
            let o = overlays(cols, rows, ui, login);
            &&& ui.mode == UiMode::Chat && ui.result_note@.len() == 0 ==> o.len() == 0
            &&& ui.mode == UiMode::Chat && ui.result_note@.len() > 0 ==> o == boxed(
                seq![ui.result_note@],
                cols,
                rows,
            )
            &&& ui.mode == UiMode::LoginMenu ==> o == boxed(
                login_menu(ui.login_note@, login),
                cols,
                rows,
            )
            &&& ui.mode == UiMode::ActionMenu ==> o == boxed(
                action_menu(ui.action_target, ui.result_note@),
                cols,
                rows,
            )
            &&& ui.mode == UiMode::KickHandle && ui.login_note@.len() == 0 ==> o == boxed(
                seq![" Enter your Kick username:"@, " > "@ + ui.kick_handle_draft@],
                cols,
                rows,
            )
            &&& ui.mode == UiMode::TimeoutPrompt ==> o == boxed(
                seq![" Timeout duration in seconds (default 300):"@, " > "@ + ui.timeout_draft@],
                cols,
                rows,
            )
            &&& ui.mode == UiMode::Input ==> o.len() == 2 && o[0] == Mark::MoveTo(
                0,
                (rows - 3) as u16,
            ) && o[1] == Mark::Print(input_bar(ui.target_platform@, ui.draft@, cols))
        }),
{
    let two = seq![" Enter your Kick username:"@, " > "@ + ui.kick_handle_draft@];
    if ui.login_note@.len() == 0 {
        assert(two + note_line(ui.login_note@) =~= two);
    }
}

/// A box whose longest line is too long for the screen takes all but the outermost columns, and
/// marks what it leaves out.
pub proof fn long_lines_are_marked(lines: Seq<Seq<char>>, cols: nat, i: int)
    requires
        cols >= 12,
        0 <= i < lines.len(),
        lines[i].len() + 6 > cols,
    ensures
        box_width(lines, cols) == cols - 2,
        layout::ellipsized(lines[i], (box_width(lines, cols) - 4) as nat).last() == '…',
        layout::ellipsized(lines[i], (box_width(lines, cols) - 4) as nat).len() == cols - 6,
{
    longest_is_the_maximum(lines, i);
    layout::ellipsis_marks_what_is_cut(lines[i], (cols - 6) as nat);
}

} // verus!
