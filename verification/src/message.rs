//! What the engine sends, and the chat messages that are made of it.
use crate::emoji;
use crate::engine::QueryResult;
use crate::numbers;
use crate::text;
use crate::time::Instant;
use crate::tokens;
use crate::tokens::TokenMap;
use crate::types::ChatMessageItem;
use vstd::prelude::*;

verus! {

/// What is known of the author of a message.
pub struct UserData {
    pub username: String,
    pub is_owner: bool,
    pub is_admin: bool,
    pub is_moderator: bool,
    pub is_sponsor: bool,
    /// The style properties, among them what the user database knows.
    pub styling: Option<TokenMap>,
}

/// A message as a platform delivered it.
pub struct RawMessage {
    pub platform: String,
    pub user_uuid7: String,
    pub raw_message: String,
    pub user_data: Option<UserData>,
}

/// A message at the start of the pipeline.
pub struct MessagePreProcess {
    pub message_uuid7: String,
    pub raw_message: Option<RawMessage>,
}

/// A message at the end of the pipeline.
pub struct MessagePostProcess {
    pub message_uuid7: String,
    pub raw_message: Option<RawMessage>,
    pub processed_message: String,
    pub audio: Vec<u8>,
}

/// What the engine can send.
pub enum Payload {
    /// A liveness probe.
    AuthVerify,
    MessagePreProcess(MessagePreProcess),
    MessageInProcess { message_uuid7: String },
    MessagePostProcess(MessagePostProcess),
    DatabaseQueryResult(QueryResult),
    Prompt,
    /// Anything else.
    Other,
}

// ── Badges ────────────────────────────────────────────────────────────

/// The badges of a user, highest first.
pub open spec fn badges(ud: UserData) -> Seq<Seq<char>> {
    (if ud.is_owner {
        seq!["OWNER"@]
    } else {
        Seq::empty()
    }) + (if ud.is_admin {
        seq!["ADMIN"@]
    } else {
        Seq::empty()
    }) + (if ud.is_moderator {
        seq!["MOD"@]
    } else {
        Seq::empty()
    }) + (if ud.is_sponsor {
        seq!["SUB"@]
    } else {
        Seq::empty()
    })
}

fn push_badge(list: &mut Vec<String>, held: bool, badge: &str)
    ensures
        text::views(final(list)@) == text::views(old(list)@) + (if held {
            seq![badge@]
        } else {
            Seq::empty()
        }),
{
    let ghost before = list@;
    if held {
        list.push(badge.to_owned());
    }
    assert(text::views(list@) == text::views(before) + (if held {
        seq![badge@]
    } else {
        Seq::empty()
    }));
}

pub fn role_badges_of(ud: &UserData) -> (r: String)
    ensures
        r@ == text::joined(badges(*ud), " "@),
{
    let mut list: Vec<String> = Vec::new();
    assert(text::views(list@) == Seq::<Seq<char>>::empty());
    push_badge(&mut list, ud.is_owner, "OWNER");
    push_badge(&mut list, ud.is_admin, "ADMIN");
    push_badge(&mut list, ud.is_moderator, "MOD");
    push_badge(&mut list, ud.is_sponsor, "SUB");
    assert(text::views(list@) == badges(*ud));
    text::join(&list, " ")
}

// ── From a payload to a message ───────────────────────────────────────

/// What is known of the author.
pub open spec fn author(raw: Option<RawMessage>) -> Option<UserData> {
    match raw {
        Some(cm) => cm.user_data,
        None => None,
    }
}

/// The author's style property `key`.
pub open spec fn style(raw: Option<RawMessage>, key: Seq<char>) -> Option<Seq<char>> {
    match author(raw) {
        Some(ud) => match ud.styling {
            Some(st) => tokens::lookup(st@, key),
            None => None,
        },
        None => None,
    }
}

pub open spec fn style_or_empty(raw: Option<RawMessage>, key: Seq<char>) -> Seq<char> {
    match style(raw, key) {
        Some(s) => s,
        None => Seq::empty(),
    }
}

/// The author's style property `key` as a number; zero where there is none.
pub open spec fn style_number(raw: Option<RawMessage>, key: Seq<char>) -> i64 {
    match style(raw, key) {
        Some(s) => match numbers::parsed_i64(s) {
            Some(n) => n,
            None => 0,
        },
        None => 0,
    }
}

/// What the adapter calls the author.
pub open spec fn handle_of(raw: Option<RawMessage>) -> Seq<char> {
    match raw {
        Some(cm) => cm.user_uuid7@,
        None => Seq::empty(),
    }
}

/// The author's name, or what the adapter calls them where they have none.
pub open spec fn name_of(raw: Option<RawMessage>) -> Seq<char> {
    match author(raw) {
        Some(ud) => if ud.username@.len() > 0 {
            ud.username@
        } else {
            handle_of(raw)
        },
        None => handle_of(raw),
    }
}

/// The message as the author wrote it.
pub open spec fn written(raw: Option<RawMessage>) -> Seq<char> {
    match raw {
        Some(cm) => cm.raw_message@,
        None => Seq::empty(),
    }
}

pub open spec fn platform_of(raw: Option<RawMessage>) -> Seq<char> {
    match raw {
        Some(cm) => cm.platform@,
        None => Seq::empty(),
    }
}

pub open spec fn badges_of(raw: Option<RawMessage>) -> Seq<char> {
    match author(raw) {
        Some(ud) => text::joined(badges(ud), " "@),
        None => Seq::empty(),
    }
}

/// The message in a payload and the text to show for it; other payloads hold none.
pub open spec fn message_in(p: Payload) -> Option<(Option<RawMessage>, Seq<char>)> {
    match p {
        Payload::MessagePostProcess(pp) => Some(
            (
                pp.raw_message,
                if pp.processed_message@.len() > 0 {
                    pp.processed_message@
                } else {
                    written(pp.raw_message)
                },
            ),
        ),
        Payload::MessagePreProcess(pre) => Some((pre.raw_message, written(pre.raw_message))),
        _ => None,
    }
}

/// The text with its emoji put in, if they are wanted.
pub open spec fn shown(content: Seq<char>, emoji_map: tokens::Entries, emoji_enabled: bool) -> Seq<
    char,
> {
    if emoji_enabled {
        emoji::applied(emoji_map, content)
    } else {
        content
    }
}

/// Whether `item` shows a message with the given text.
pub open spec fn shows(item: ChatMessageItem, raw: Option<RawMessage>, content: Seq<char>) -> bool {
    &&& item.username@ == name_of(raw)
    &&& item.name_color@ == style_or_empty(raw, "color"@)
    &&& item.rank@ == style_or_empty(raw, "rank"@)
    &&& item.score == style_number(raw, "score"@)
    &&& item.reprimanded == (style_number(raw, "reprimands"@) > 0)
    &&& item.role_badges@ == badges_of(raw)
    &&& item.platform@ == platform_of(raw)
    &&& item.user_handle@ == handle_of(raw)
    &&& item.user_uuid7@ == handle_of(raw)
    &&& item.content@ == content
    &&& item.image_art is None
    &&& item.image_status is None
}

fn style_at(raw: &Option<RawMessage>, key: &str) -> (r: Option<String>)
    ensures
        r matches Some(s) ==> style(*raw, key@) == Some(s@),
        r is None ==> style(*raw, key@) is None,
{
    match raw {
        Some(cm) => match &cm.user_data {
            Some(ud) => match &ud.styling {
                Some(st) => st.get(key),
                None => None,
            },
            None => None,
        },
        None => None,
    }
}

fn style_text(raw: &Option<RawMessage>, key: &str) -> (r: String)
    ensures
        r@ == style_or_empty(*raw, key@),
{
    match style_at(raw, key) {
        Some(s) => s,
        None => String::new(),
    }
}

fn style_value(raw: &Option<RawMessage>, key: &str) -> (r: i64)
    ensures
        r == style_number(*raw, key@),
{
    match style_at(raw, key) {
        Some(s) => match numbers::parse_i64(s.as_str()) {
            Some(n) => n,
            None => 0,
        },
        None => 0,
    }
}

fn handle_text(raw: &Option<RawMessage>) -> (r: String)
    ensures
        r@ == handle_of(*raw),
{
    match raw {
        Some(cm) => cm.user_uuid7.clone(),
        None => String::new(),
    }
}

fn name_text(raw: &Option<RawMessage>) -> (r: String)
    ensures
        r@ == name_of(*raw),
{
    match raw {
        Some(cm) => match &cm.user_data {
            Some(ud) => {
                if ud.username.as_str().is_empty() {
                    cm.user_uuid7.clone()
                } else {
                    ud.username.clone()
                }
            },
            None => cm.user_uuid7.clone(),
        },
        None => String::new(),
    }
}

fn written_text(raw: &Option<RawMessage>) -> (r: String)
    ensures
        r@ == written(*raw),
{
    match raw {
        Some(cm) => cm.raw_message.clone(),
        None => String::new(),
    }
}

fn platform_text(raw: &Option<RawMessage>) -> (r: String)
    ensures
        r@ == platform_of(*raw),
{
    match raw {
        Some(cm) => cm.platform.clone(),
        None => String::new(),
    }
}

fn badge_text(raw: &Option<RawMessage>) -> (r: String)
    ensures
        r@ == badges_of(*raw),
{
    match raw {
        Some(cm) => match &cm.user_data {
            Some(ud) => role_badges_of(ud),
            None => String::new(),
        },
        None => String::new(),
    }
}

/// The message in a payload, under the given id and with the given time of arrival.
pub fn message_item(
    payload: &Payload,
    emoji_map: &TokenMap,
    emoji_enabled: bool,
    id: String,
    now: Instant,
) -> (r: Option<ChatMessageItem>)
    ensures
        match message_in(*payload) {
            Some((raw, content)) => r matches Some(item) && item.id == id && item.added_at == now
                && shows(item, raw, shown(content, emoji_map@, emoji_enabled)),
            None => r is None,
        },
{
    let (raw, content) = match payload {
        Payload::MessagePostProcess(pp) => {
            let content = if pp.processed_message.as_str().is_empty() {
                written_text(&pp.raw_message)
            } else {
                pp.processed_message.clone()
            };
            (&pp.raw_message, content)
        },
        Payload::MessagePreProcess(pre) => (&pre.raw_message, written_text(&pre.raw_message)),
        _ => {
            return None;
        },
    };
    let content = if emoji_enabled {
        emoji::apply(emoji_map, content.as_str())
    } else {
        content
    };
    Some(
        ChatMessageItem {
            id,
            username: name_text(raw),
            name_color: style_text(raw, "color"),
            rank: style_text(raw, "rank"),
            score: style_value(raw, "score"),
            role_badges: badge_text(raw),
            reprimanded: style_value(raw, "reprimands") > 0,
            platform: platform_text(raw),
            user_handle: handle_text(raw),
            user_uuid7: handle_text(raw),
            content,
            image_art: None,
            image_status: None,
            added_at: now,
        },
    )
}

// ── Ids ───────────────────────────────────────────────────────────────

pub open spec fn is_hex(c: char) -> bool {
    '0' <= c <= '9' || 'a' <= c <= 'f'
}

/// The shape of a version 7 UUID: 36 characters, hyphens behind the 8th, 12th, 16th and 20th
/// hexadecimal digit, and the version as the first digit of the third group.
pub open spec fn is_uuid7(s: Seq<char>) -> bool {
    &&& s.len() == 36
    &&& s[8] == '-' && s[13] == '-' && s[18] == '-' && s[23] == '-'
    &&& s[14] == '7'
    &&& forall|i: int|
        0 <= i < 36 && i != 8 && i != 13 && i != 18 && i != 23 ==> is_hex(#[trigger] s[i])
}

/// `uuid::Uuid::now_v7().to_string()`: a fresh version 7 UUID in its hyphenated form, in lower
/// case. That no two are the same is not stated: it rests on the clock and on chance.
#[verifier::external_body]
fn fresh_id() -> (id: String)
    ensures
        is_uuid7(id@),
{
    uuid::Uuid::now_v7().to_string()
}

/// The message in a payload, under a fresh id.
pub fn build_message_item(
    payload: &Payload,
    emoji_map: &TokenMap,
    emoji_enabled: bool,
    now: Instant,
) -> (r: Option<ChatMessageItem>)
    ensures
        match message_in(*payload) {
            Some((raw, content)) => r matches Some(item) && is_uuid7(item.id@) && item.added_at
                == now && shows(item, raw, shown(content, emoji_map@, emoji_enabled)),
            None => r is None,
        },
{
    message_item(payload, emoji_map, emoji_enabled, fresh_id(), now)
}

// ── What a payload calls for ──────────────────────────────────────────

/// What to do about the audio of a message.
pub enum AudioAction {
    Nothing,
    /// Play the clip that rides with the message.
    Play,
    /// Ask the engine for the clip of this message.
    Fetch(String),
}

/// What a payload calls for.
pub struct Reaction {
    /// Answer the liveness probe with the auth token.
    pub answer_probe: bool,
    /// Acknowledge this message, so that the engine advances the chain at once.
    pub ack: Option<String>,
    /// Hand the answer of a query to whoever waits for it.
    pub forward: bool,
    /// Show the message that the payload holds, if it holds one.
    pub show: bool,
    pub audio: AudioAction,
}

/// The id of a pipeline message.
pub open spec fn pipeline_id(p: Payload) -> Seq<char> {
    match p {
        Payload::MessagePreProcess(m) => m.message_uuid7@,
        Payload::MessageInProcess { message_uuid7 } => message_uuid7@,
        Payload::MessagePostProcess(m) => m.message_uuid7@,
        _ => Seq::empty(),
    }
}

fn pipeline_id_of(p: &Payload) -> (r: String)
    ensures
        r@ == pipeline_id(*p),
{
    match p {
        Payload::MessagePreProcess(m) => m.message_uuid7.clone(),
        Payload::MessageInProcess { message_uuid7 } => message_uuid7.clone(),
        Payload::MessagePostProcess(m) => m.message_uuid7.clone(),
        _ => String::new(),
    }
}

/// What is to be done about a payload. A probe is answered and nothing else; pipeline messages
/// with an id are acknowledged; query results go to whoever waits for them; prompts are ignored,
/// since this is a display and no interactive surface. Audio that was made before the last stage
/// rides with the message; what is made later is fetched.
pub fn react(payload: &Payload, play_audio: bool) -> (r: Reaction)
    ensures
        r.answer_probe == (payload is AuthVerify),
        r.ack is Some <==> pipeline_id(*payload).len() > 0,
        r.ack matches Some(u) ==> u@ == pipeline_id(*payload),
        r.forward == (payload is DatabaseQueryResult),
        r.show == !(payload is AuthVerify || payload is DatabaseQueryResult || payload is Prompt),
        match *payload {
            Payload::MessagePostProcess(pp) => if !play_audio {
                r.audio is Nothing
            } else if pp.audio@.len() > 0 {
                r.audio is Play
            } else if pp.message_uuid7@.len() > 0 {
                r.audio matches AudioAction::Fetch(u) && u@ == pp.message_uuid7@
            } else {
                r.audio is Nothing
            },
            _ => r.audio is Nothing,
        },
{
    let id = pipeline_id_of(payload);
    let ack = if id.as_str().is_empty() {
        None
    } else {
        Some(id)
    };
    let audio = match payload {
        Payload::MessagePostProcess(pp) => {
            if !play_audio {
                AudioAction::Nothing
            } else if pp.audio.len() > 0 {
                AudioAction::Play
            } else if !pp.message_uuid7.as_str().is_empty() {
                AudioAction::Fetch(pp.message_uuid7.clone())
            } else {
                AudioAction::Nothing
            }
        },
        _ => AudioAction::Nothing,
    };
    let (answer_probe, forward, show) = match payload {
        Payload::AuthVerify => (true, false, false),
        Payload::DatabaseQueryResult(_) => (false, true, false),
        Payload::Prompt => (false, false, false),
        _ => (false, false, true),
    };
    Reaction { answer_probe, ack, forward, show, audio }
}

// ── Laws ──────────────────────────────────────────────────────────────

/// A message is shown alike at both ends of the pipeline as long as no module has changed its
/// text.
pub proof fn unprocessed_messages_look_alike(pre: MessagePreProcess, post: MessagePostProcess)
    requires
        pre.raw_message == post.raw_message,
        post.processed_message@.len() == 0 || post.processed_message@ == written(post.raw_message),
    ensures
        message_in(Payload::MessagePreProcess(pre)) == message_in(
            Payload::MessagePostProcess(post),
        ),
{
}

/// A message whose author has a handle is shown with a name.
pub proof fn known_authors_are_named(raw: RawMessage)
    ensures
        raw.user_uuid7@.len() > 0 ==> name_of(Some(raw)).len() > 0,
{
}

/// An id has the length and the hyphens by which ids are told from handles.
pub proof fn ids_have_four_hyphens(s: Seq<char>)
    requires
        is_uuid7(s),
    ensures
        text::count_of(s, '-') == 4,
        vstd::utf8::encode_utf8(s).len() == 36,
{
    reveal_with_fuel(text::count_of, 37);
    assert forall|i: int|
        0 <= i < 36 && i != 8 && i != 13 && i != 18 && i != 23 implies #[trigger] s[i] != '-' by {
        assert(is_hex(s[i]));
    }
    assert(vstd::utf8::is_ascii_chars(s)) by {
        assert forall|i: int| 0 <= i < s.len() implies '\0' <= #[trigger] s[i] <= '\u{7f}' by {
            if i != 8 && i != 13 && i != 18 && i != 23 {
                assert(is_hex(s[i]));
            }
        }
    }
    vstd::utf8::is_ascii_chars_encode_utf8(s);
}

/// A message is shown with what its author and their styling say, each thing in its own place: the
/// colour under `color`, the rank under `rank`, the score under `score`, and a mark for those with
/// reprimands. What is missing is empty, zero or not set.
pub proof fn authors_are_shown_as_they_are(
    item: ChatMessageItem,
    raw: RawMessage,
    ud: UserData,
    st: TokenMap,
    content: Seq<char>,
    n: nat,
)
    requires
        shows(item, Some(raw), content),
        raw.user_data == Some(ud),
        ud.styling == Some(st),
        n <= i64::MAX,
    ensures
        item.content@ == content,
        item.platform@ == raw.platform@,
        item.user_handle@ == raw.user_uuid7@,
        item.user_uuid7@ == raw.user_uuid7@,
        ud.username@.len() > 0 ==> item.username@ == ud.username@,
        ud.username@.len() == 0 ==> item.username@ == raw.user_uuid7@,
        tokens::lookup(st@, "color"@) matches Some(c) ==> item.name_color@ == c,
        tokens::lookup(st@, "color"@) is None ==> item.name_color@.len() == 0,
        tokens::lookup(st@, "rank"@) matches Some(r) ==> item.rank@ == r,
        tokens::lookup(st@, "rank"@) is None ==> item.rank@.len() == 0,
        tokens::lookup(st@, "score"@) == Some(numbers::digits(n)) ==> item.score == n,
        tokens::lookup(st@, "score"@) == Some(seq!['-'] + numbers::digits(n)) ==> item.score == -n,
        tokens::lookup(st@, "score"@) is None ==> item.score == 0,
        tokens::lookup(st@, "reprimands"@) == Some(numbers::digits(n)) ==> item.reprimanded == (n
            > 0),
        tokens::lookup(st@, "reprimands"@) is None ==> !item.reprimanded,
{
    numbers::signs_are_read(n);
}

/// Of an author of whom nothing is known but a handle, the handle is shown as the name, and
/// nothing else.
pub proof fn unknown_authors_show_their_handle(
    item: ChatMessageItem,
    raw: RawMessage,
    content: Seq<char>,
)
    requires
        shows(item, Some(raw), content),
        raw.user_data is None,
    ensures
        item.username@ == raw.user_uuid7@,
        item.user_handle@ == raw.user_uuid7@,
        item.platform@ == raw.platform@,
        item.content@ == content,
        item.name_color@.len() == 0 && item.rank@.len() == 0 && item.role_badges@.len() == 0,
        item.score == 0 && !item.reprimanded,
{
}

/// Each role has its badge, and the badges stand in the order of the roles: the first one is the
/// label that the same roles give the operator.
pub proof fn badges_follow_the_roles(ud: UserData)
    ensures
        badges(ud).contains("OWNER"@) <==> ud.is_owner,
        badges(ud).contains("ADMIN"@) <==> ud.is_admin,
        badges(ud).contains("MOD"@) <==> ud.is_moderator,
        badges(ud).contains("SUB"@) <==> ud.is_sponsor,
        badges(ud).len() > 0 ==> badges(ud)[0] == (crate::login::Roles {
            is_sponsor: ud.is_sponsor,
            is_moderator: ud.is_moderator,
            is_admin: ud.is_admin,
            is_owner: ud.is_owner,
        }).title(),
        ud.is_owner && ud.is_admin && ud.is_moderator && ud.is_sponsor ==> text::joined(
            badges(ud),
            " "@,
        ) == "OWNER ADMIN MOD SUB"@,
        ud.is_moderator && ud.is_sponsor && !ud.is_owner && !ud.is_admin ==> text::joined(
            badges(ud),
            " "@,
        ) == "MOD SUB"@,
{
    reveal_strlit("OWNER");
    reveal_strlit("ADMIN");
    reveal_strlit("MOD");
    reveal_strlit("SUB");
    assert("OWNER"@[0] == 'O' && "ADMIN"@[0] == 'A' && "MOD"@[0] == 'M' && "SUB"@[0] == 'S');
    let b = badges(ud);
    let none = Seq::<Seq<char>>::empty();
    let own = if ud.is_owner {
        seq!["OWNER"@]
    } else {
        none
    };
    let adm = if ud.is_admin {
        seq!["ADMIN"@]
    } else {
        none
    };
    let moder = if ud.is_moderator {
        seq!["MOD"@]
    } else {
        none
    };
    let o: int = own.len() as int;
    let a: int = o + adm.len();
    let m: int = a + moder.len();
    assert(b == own + adm + moder + (if ud.is_sponsor {
        seq!["SUB"@]
    } else {
        none
    }));
    if ud.is_owner {
        assert(b[0] == "OWNER"@);
    }
    if ud.is_admin {
        assert(b[o] == "ADMIN"@);
    }
    if ud.is_moderator {
        assert(b[a] == "MOD"@);
    }
    if ud.is_sponsor {
        assert(b[m] == "SUB"@);
    }
    lemma_joined_badges(ud);
}

proof fn lemma_joined_badges(ud: UserData)
    ensures
        ud.is_owner && ud.is_admin && ud.is_moderator && ud.is_sponsor ==> text::joined(
            badges(ud),
            " "@,
        ) == "OWNER ADMIN MOD SUB"@,
        ud.is_moderator && ud.is_sponsor && !ud.is_owner && !ud.is_admin ==> text::joined(
            badges(ud),
            " "@,
        ) == "MOD SUB"@,
{
    reveal_strlit("OWNER");
    reveal_strlit("ADMIN");
    reveal_strlit("MOD");
    reveal_strlit("SUB");
    reveal_strlit(" ");
    reveal_strlit("OWNER ADMIN MOD SUB");
    reveal_strlit("MOD SUB");
    let three = seq!["ADMIN"@, "MOD"@, "SUB"@];
    let two = seq!["MOD"@, "SUB"@];
    let one = seq!["SUB"@];
    text::joined_piece_by_piece("SUB"@, Seq::empty(), " "@);
    text::joined_piece_by_piece("MOD"@, one, " "@);
    assert(seq!["MOD"@] + one =~= two);
    text::joined_piece_by_piece("ADMIN"@, two, " "@);
    assert(seq!["ADMIN"@] + two =~= three);
    text::joined_piece_by_piece("OWNER"@, three, " "@);
    if ud.is_owner && ud.is_admin && ud.is_moderator && ud.is_sponsor {
        assert(badges(ud) =~= seq!["OWNER"@] + three);
        assert("OWNER"@ + " "@ + ("ADMIN"@ + " "@ + ("MOD"@ + " "@ + "SUB"@))
            =~= "OWNER ADMIN MOD SUB"@);
    }
    if ud.is_moderator && ud.is_sponsor && !ud.is_owner && !ud.is_admin {
        assert(badges(ud) =~= two);
        assert("MOD"@ + " "@ + "SUB"@ =~= "MOD SUB"@);
    }
}

/// The text that a module has made of a message is shown in place of what its author wrote; where
/// no module has made one, or the message has only just come in, it is what its author wrote. Nothing
/// but a message at either end of the pipeline is shown.
pub proof fn processed_text_is_shown(p: Payload, raw: RawMessage)
    ensures
        message_in(p) is Some <==> p is MessagePreProcess || p is MessagePostProcess,
        p matches Payload::MessagePostProcess(pp) ==> (pp.raw_message == Some(raw) ==> message_in(p)
            == Some(
            (
                Some(raw),
                if pp.processed_message@.len() == 0 {
                    raw.raw_message@
                } else {
                    pp.processed_message@
                },
            ),
        )),
        p matches Payload::MessagePreProcess(pre) ==> (pre.raw_message == Some(raw) ==> message_in(
            p,
        ) == Some((Some(raw), raw.raw_message@))),
{
}

/// Every message of the pipeline is acknowledged under its own id, at whatever stage it is.
pub proof fn pipeline_messages_keep_their_id(
    pre: MessagePreProcess,
    post: MessagePostProcess,
    message_uuid7: String,
)
    ensures
        pipeline_id(Payload::MessagePreProcess(pre)) == pre.message_uuid7@,
        pipeline_id(Payload::MessagePostProcess(post)) == post.message_uuid7@,
        pipeline_id(Payload::MessageInProcess { message_uuid7 }) == message_uuid7@,
        pipeline_id(Payload::AuthVerify).len() == 0,
        pipeline_id(Payload::Prompt).len() == 0,
{
}

/// With emoji switched off, a text is shown as it is.
pub proof fn emoji_can_be_switched_off(content: Seq<char>, emoji_map: tokens::Entries)
    ensures
        shown(content, emoji_map, false) == content,
        shown(content, Seq::empty(), true) == content,
        shown(content, emoji_map, true) == emoji::applied(emoji_map, content),
{
    emoji::colons_untouched(Seq::empty(), content);
}

/// A score or a count of reprimands that is no number counts as none.
pub proof fn faulty_numbers_count_as_none(
    item: ChatMessageItem,
    raw: RawMessage,
    ud: UserData,
    st: TokenMap,
    content: Seq<char>,
    s: Seq<char>,
)
    requires
        shows(item, Some(raw), content),
        raw.user_data == Some(ud),
        ud.styling == Some(st),
        numbers::parsed_i64(s) is None,
    ensures
        tokens::lookup(st@, "score"@) == Some(s) ==> item.score == 0,
        tokens::lookup(st@, "reprimands"@) == Some(s) ==> !item.reprimanded,
{
}

/// Of a message without an origin nothing is shown but its text.
pub proof fn messages_without_origin_are_bare(item: ChatMessageItem, content: Seq<char>)
    requires
        shows(item, None, content),
    ensures
        item.content@ == content,
        item.username@.len() == 0 && item.user_handle@.len() == 0 && item.user_uuid7@.len() == 0,
        item.platform@.len() == 0 && item.rank@.len() == 0 && item.name_color@.len() == 0,
        item.role_badges@.len() == 0 && item.score == 0 && !item.reprimanded,
        item.image_art is None && item.image_status is None,
{
}

} // verus!
