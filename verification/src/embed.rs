//! Whose images are embedded, and what a message shows in the end.
use crate::images;
use crate::images::{RenderResult, Rendered};
use crate::numbers;
use crate::text;
use crate::tokens;
use crate::tokens::TokenMap;
use crate::types::ChatMessageItem;
use vstd::prelude::*;

verus! {

// ── Ranks ─────────────────────────────────────────────────────────────

/// The tier of a rank, given in lower case.
pub open spec fn tier_of(rank: Seq<char>) -> i32 {
    if rank == "owner"@ {
        9
    } else if rank == "admin"@ {
        8
    } else if rank == "mod"@ || rank == "moderator"@ {
        7
    } else if rank == "sponsor"@ || rank == "sub"@ {
        6
    } else if rank == "opal"@ {
        5
    } else if rank == "gold"@ {
        4
    } else if rank == "silver"@ {
        3
    } else if rank == "coal"@ {
        1
    } else if rank == "trash"@ {
        0
    } else {
        2
    }
}

/// Map a rank string to a comparable tier (higher = better). "regular" or anything unknown is the
/// baseline.
pub fn rank_tier(rank: &str) -> (tier: i32)
    ensures
        tier == tier_of(text::lowered(rank@)),
{
    let name = text::lower_ascii(rank);
    let r = name.as_str();
    if text::same(r, "owner") {
        9
    } else if text::same(r, "admin") {
        8
    } else if text::same(r, "mod") || text::same(r, "moderator") {
        7
    } else if text::same(r, "sponsor") || text::same(r, "sub") {
        6
    } else if text::same(r, "opal") {
        5
    } else if text::same(r, "gold") {
        4
    } else if text::same(r, "silver") {
        3
    } else if text::same(r, "coal") {
        1
    } else if text::same(r, "trash") {
        0
    } else {
        2
    }
}

/// Whether a user may embed images under a threshold: a number is compared with the score, a rank
/// name with the rank, and "regular" admits everyone.
pub open spec fn allowed(score: i64, rank: Seq<char>, min_rank: Seq<char>) -> bool {
    match numbers::parsed_i64(text::trimmed(min_rank)) {
        Some(least) => score >= least,
        None => text::lowered(min_rank) == "regular"@ || tier_of(text::lowered(rank)) >= tier_of(
            text::lowered(min_rank),
        ),
    }
}

/// True when a user (score + rank) is allowed to embed images under `min_rank`, which may be a
/// rank name or a numeric score threshold. "regular" is everyone.
pub fn rank_allows(score: i64, rank: &str, min_rank: &str) -> (r: bool)
    ensures
        r == allowed(score, rank@, min_rank@),
{
    match numbers::parse_i64(text::trim(min_rank).as_str()) {
        Some(least) => score >= least,
        None => text::same(text::lower_ascii(min_rank).as_str(), "regular") || rank_tier(rank)
            >= rank_tier(min_rank),
    }
}

/// Who may embed with some score and rank may still do so with a better score and a better rank.
pub proof fn better_standing_never_loses(
    score: i64,
    rank: Seq<char>,
    better_score: i64,
    better_rank: Seq<char>,
    min_rank: Seq<char>,
)
    requires
        allowed(score, rank, min_rank),
        better_score >= score,
        tier_of(text::lowered(better_rank)) >= tier_of(text::lowered(rank)),
    ensures
        allowed(better_score, better_rank, min_rank),
{
}

/// The default threshold "regular", in any case, admits everyone, whatever their score and rank.
pub proof fn regular_admits_everyone(score: i64, rank: Seq<char>, min_rank: Seq<char>)
    requires
        text::lowered(min_rank) == "regular"@,
    ensures
        allowed(score, rank, min_rank),
{
    reveal_strlit("regular");
    lemma_names_are_no_numbers(min_rank);
}

/// A name that begins with a letter is no number, whatever white space is taken off.
proof fn lemma_names_are_no_numbers(s: Seq<char>)
    requires
        text::lowered(s).len() > 0,
        'a' <= text::lowered(s)[0] <= 'z',
    ensures
        numbers::parsed_i64(text::trimmed(s)) is None,
{
    let t = text::trimmed(s);
    assert(s.len() == text::lowered(s).len());
    assert(text::lowered(s)[0] == text::ascii_lower(s[0]));
    assert(!text::is_white(s[0]));
    assert(text::trimmed_start(s) == s);
    lemma_trimmed_end_prefix(s);
    if t.len() > 0 {
        assert(t[0] == s[0]);
    }
    numbers::other_texts_are_no_numbers(t);
}

proof fn lemma_trimmed_end_prefix(s: Seq<char>)
    ensures
        text::trimmed_end(s).len() <= s.len(),
        text::trimmed_end(s) == s.take(text::trimmed_end(s).len() as int),
    decreases s.len(),
{
    if s.len() > 0 && text::is_white(s.last()) {
        lemma_trimmed_end_prefix(s.drop_last());
    } else {
        assert(s.take(s.len() as int) =~= s);
    }
}

/// The ranks from the highest to the lowest.
pub open spec fn ladder() -> Seq<Seq<char>> {
    seq![
        "owner"@,
        "admin"@,
        "mod"@,
        "sponsor"@,
        "opal"@,
        "gold"@,
        "silver"@,
        "regular"@,
        "coal"@,
        "trash"@,
    ]
}

proof fn lemma_rank_names()
    ensures
        "owner"@.len() == 5 && "owner"@[0] == 'o',
        "admin"@.len() == 5 && "admin"@[0] == 'a',
        "trash"@.len() == 5 && "trash"@[0] == 't',
        "mod"@.len() == 3 && "mod"@[0] == 'm',
        "sub"@.len() == 3 && "sub"@[0] == 's',
        "moderator"@.len() == 9 && "moderator"@[0] == 'm',
        "sponsor"@.len() == 7 && "sponsor"@[0] == 's',
        "regular"@.len() == 7 && "regular"@[0] == 'r',
        "opal"@.len() == 4 && "opal"@[0] == 'o',
        "gold"@.len() == 4 && "gold"@[0] == 'g',
        "coal"@.len() == 4 && "coal"@[0] == 'c',
        "silver"@.len() == 6 && "silver"@[0] == 's',
{
    reveal_strlit("owner");
    reveal_strlit("admin");
    reveal_strlit("trash");
    reveal_strlit("mod");
    reveal_strlit("sub");
    reveal_strlit("moderator");
    reveal_strlit("sponsor");
    reveal_strlit("regular");
    reveal_strlit("opal");
    reveal_strlit("gold");
    reveal_strlit("coal");
    reveal_strlit("silver");
}

/// Whoever holds the rank that the threshold names, or one of at least its tier, is admitted, in
/// whatever case the two are written; and the score does not matter then.
pub proof fn own_rank_is_enough(score: i64, rank: Seq<char>, min_rank: Seq<char>)
    requires
        numbers::parsed_i64(text::trimmed(min_rank)) is None,
        text::lowered(rank) == text::lowered(min_rank) || tier_of(text::lowered(min_rank))
            <= tier_of(text::lowered(rank)),
    ensures
        allowed(score, rank, min_rank),
{
}

/// A rank as threshold admits exactly that rank and those above it on the ladder; "regular" alone
/// admits everyone.
pub proof fn threshold_admits_its_rank_and_above(
    score: i64,
    rank: Seq<char>,
    min_rank: Seq<char>,
    i: int,
    j: int,
)
    requires
        0 <= i < ladder().len(),
        0 <= j < ladder().len(),
        text::lowered(rank) == ladder()[i],
        text::lowered(min_rank) == ladder()[j],
    ensures
        allowed(score, rank, min_rank) <==> i <= j || ladder()[j] == "regular"@,
{
    lemma_rank_names();
    lemma_names_are_no_numbers(min_rank);
}

/// Two names for one rank are worth the same, and a rank that is not on the ladder is worth as much
/// as a regular one; as a threshold such a name keeps out those below regular.
pub proof fn other_names_of_ranks(score: i64, rank: Seq<char>, other: Seq<char>, min_rank: Seq<char>)
    ensures
        text::lowered(rank) == "moderator"@ && text::lowered(other) == "mod"@ ==> allowed(
            score,
            rank,
            min_rank,
        ) == allowed(score, other, min_rank),
        text::lowered(rank) == "sub"@ && text::lowered(other) == "sponsor"@ ==> allowed(
            score,
            rank,
            min_rank,
        ) == allowed(score, other, min_rank),
        !ladder().contains(text::lowered(rank)) && text::lowered(rank) != "moderator"@
            && text::lowered(rank) != "sub"@ && text::lowered(other) == "regular"@ ==> allowed(
            score,
            rank,
            min_rank,
        ) == allowed(score, other, min_rank),
        text::lowered(rank) == text::lowered(other) ==> allowed(score, rank, min_rank) == allowed(
            score,
            other,
            min_rank,
        ),
{
    lemma_rank_names();
    let l = ladder();
    assert(l[0] == "owner"@ && l[1] == "admin"@ && l[2] == "mod"@ && l[3] == "sponsor"@ && l[4]
        == "opal"@ && l[5] == "gold"@ && l[6] == "silver"@ && l[7] == "regular"@ && l[8] == "coal"@
        && l[9] == "trash"@);
}

/// A written number as threshold, with or without white space around it, admits exactly the scores
/// from there on, whatever the rank.
pub proof fn numbers_are_thresholds(
    score: i64,
    rank: Seq<char>,
    n: nat,
    front: Seq<char>,
    back: Seq<char>,
)
    requires
        n <= i64::MAX,
        text::all_white(front),
        text::all_white(back),
    ensures
        allowed(score, rank, front + numbers::digits(n) + back) <==> score >= n,
        allowed(score, rank, front + (seq!['-'] + numbers::digits(n)) + back) <==> score >= -n,
{
    let s = numbers::digits(n);
    numbers::lemma_digits(n);
    assert(numbers::is_digit(s[0]) && numbers::is_digit(s[s.len() - 1]));
    text::trimming_frees_the_text(front, s, back);
    let t = seq!['-'] + s;
    assert(t.last() == s.last());
    text::trimming_frees_the_text(front, t, back);
    numbers::signs_are_read(n);
}

/// A threshold that is a number looks at the score alone, one that is a name at the rank alone.
pub proof fn threshold_looks_at_one_thing(
    score1: i64,
    rank1: Seq<char>,
    score2: i64,
    rank2: Seq<char>,
    min_rank: Seq<char>,
)
    ensures
        numbers::parsed_i64(text::trimmed(min_rank)) is Some ==> allowed(score1, rank1, min_rank)
            == allowed(score1, rank2, min_rank),
        numbers::parsed_i64(text::trimmed(min_rank)) is None ==> allowed(score1, rank1, min_rank)
            == allowed(score2, rank1, min_rank),
{
}

// ── One message ───────────────────────────────────────────────────────

/// What is to be done about the images of a message.
pub enum EmbedPlan {
    /// It has none, or images are switched off.
    Nothing,
    /// Its author may not embed any: show the placeholder.
    Refused,
    /// Try these in order until one works.
    Try(Vec<String>),
}

/// Why the images of an author below the threshold are not shown.
pub const RANK_TOO_LOW: &'static str = "rank too low";

/// Whether `plan` is what is to be done about the images of a message: nothing where images are
/// switched off or it has none, a refusal where its author is below the threshold, and else all of
/// them in their order.
pub open spec fn planned(
    plan: EmbedPlan,
    images_mode: Seq<char>,
    min_rank: Seq<char>,
    item: ChatMessageItem,
    map: tokens::Entries,
) -> bool {
    let urls = images::image_urls(item.content@, map);
    if images_mode != "all"@ || urls.len() == 0 {
        plan is Nothing
    } else if !allowed(item.score, item.rank@, min_rank) {
        plan is Refused
    } else {
        plan matches EmbedPlan::Try(list) && text::views(list@) == urls
    }
}

/// Decide what is to be done about the images of a message.
pub fn embed_plan(
    images_mode: &str,
    min_rank: &str,
    item: &ChatMessageItem,
    map: &TokenMap,
) -> (plan: EmbedPlan)
    ensures
        planned(plan, images_mode@, min_rank@, *item, map@),
{
    if !text::same(images_mode, "all") {
        return EmbedPlan::Nothing;
    }
    let urls = images::collect_image_urls(item.content.as_str(), map);
    assert(urls@.len() == text::views(urls@).len());
    if urls.len() == 0 {
        return EmbedPlan::Nothing;
    }
    if !rank_allows(item.score, item.rank.as_str(), min_rank) {
        return EmbedPlan::Refused;
    }
    EmbedPlan::Try(urls)
}

/// The outcome of trying images one after the other: the first art, or the last reason.
pub open spec fn settled(tried: Seq<Rendered>) -> Rendered
    decreases tried.len(),
{
    if tried.len() == 0 {
        Rendered::Reason(Seq::empty())
    } else {
        match settled(tried.drop_last()) {
            Rendered::Art(art) => Rendered::Art(art),
            Rendered::Reason(_) => tried.last(),
        }
    }
}

/// The reason to show, which is never empty.
pub open spec fn shown_reason(why: Seq<char>) -> Seq<char> {
    if why.len() == 0 {
        "could not be converted"@
    } else {
        why
    }
}

/// The attempts to embed an image of one message.
pub struct EmbedJob {
    pub urls: Vec<String>,
    pub next: usize,
    pub reason: String,
}

impl EmbedJob {
    /// `tried` is what came of the first `next` images, none of them art.
    pub open spec fn after(self, tried: Seq<Rendered>) -> bool {
        &&& tried.len() == self.next
        &&& self.next <= self.urls@.len()
        &&& settled(tried) == Rendered::Reason(self.reason@)
    }

    pub fn new(urls: Vec<String>) -> (job: EmbedJob)
        ensures
            job.urls == urls,
            job.after(Seq::empty()),
    {
        EmbedJob { urls, next: 0, reason: String::new() }
    }

    /// The next image to try, if one is left.
    pub fn upcoming(&self) -> (r: Option<String>)
        ensures
            r is Some <==> self.next < self.urls@.len(),
            r matches Some(url) ==> url == self.urls@[self.next as int],
    {
        if self.next < self.urls.len() {
            Some(self.urls[self.next].clone())
        } else {
            None
        }
    }

    /// Take note of what came of the next image. Art ends the attempts; it is handed back.
    pub fn record(&mut self, result: RenderResult) -> (art: Option<String>)
        requires
            old(self).next < old(self).urls@.len(),
        ensures
            final(self).urls == old(self).urls,
            final(self).next == old(self).next + 1,
            art is Some <==> result@ is Art,
            art matches Some(s) ==> result@ == Rendered::Art(s@),
            art is None ==> result@ == Rendered::Reason(final(self).reason@),
            forall|tried: Seq<Rendered>| #[trigger]
                old(self).after(tried) && art is None ==> final(self).after(tried.push(result@)),
            forall|tried: Seq<Rendered>| #[trigger]
                old(self).after(tried) ==> settled(tried.push(result@)) == result@,
    {
        proof {
            assert forall|tried: Seq<Rendered>| #[trigger] self.after(tried) implies settled(
                tried.push(result@),
            ) == result@ by {
                assert(tried.push(result@).drop_last() == tried);
            }
        }
        let total: usize = self.urls.len();
        assert(self.next < total);
        self.next = self.next + 1;
        match result {
            RenderResult::Art(s) => Some(s),
            RenderResult::Reason(why) => {
                self.reason = why;
                None
            },
        }
    }

    /// Why no image could be shown, once all have been tried.
    pub fn failure(&self) -> (why: String)
        ensures
            why@ == shown_reason(self.reason@),
    {
        if self.reason.as_str().is_empty() {
            "could not be converted".to_owned()
        } else {
            self.reason.clone()
        }
    }
}

proof fn lemma_settled(tried: Seq<Rendered>)
    ensures
        settled(tried) is Art ==> exists|i: int|
            0 <= i < tried.len() && #[trigger] tried[i] == settled(tried) && forall|j: int|
                0 <= j < i ==> !(#[trigger] tried[j] is Art),
        settled(tried) is Reason ==> forall|j: int|
            0 <= j < tried.len() ==> !(#[trigger] tried[j] is Art),
    decreases tried.len(),
{
    if tried.len() > 0 {
        let t = tried.drop_last();
        lemma_settled(t);
        if settled(t) is Art {
            let i = choose|i: int|
                0 <= i < t.len() && #[trigger] t[i] == settled(t) && forall|j: int|
                    0 <= j < i ==> !(#[trigger] t[j] is Art);
            assert(tried[i] == settled(tried));
            assert forall|j: int| 0 <= j < i implies !(#[trigger] tried[j] is Art) by {
                assert(t[j] == tried[j]);
            }
        } else {
            assert forall|j: int| 0 <= j < tried.len() - 1 implies !(#[trigger] tried[j] is Art) by {
                assert(t[j] == tried[j]);
            }
            if settled(tried) is Art {
                assert(tried[tried.len() - 1] == settled(tried));
            }
        }
    }
}

/// Whatever is tried, the first art is shown; only where there is none at all a reason is, and
/// that is never blank.
pub proof fn first_art_wins(tried: Seq<Rendered>)
    ensures
        settled(tried) is Art ==> exists|i: int|
            0 <= i < tried.len() && #[trigger] tried[i] == settled(tried) && forall|j: int|
                0 <= j < i ==> !(#[trigger] tried[j] is Art),
        settled(tried) is Reason <==> forall|j: int|
            0 <= j < tried.len() ==> !(#[trigger] tried[j] is Art),
        settled(tried) matches Rendered::Reason(why) ==> shown_reason(why).len() > 0,
{
    lemma_settled(tried);
    reveal_strlit("could not be converted");
    if settled(tried) is Art {
        let i = choose|i: int| 0 <= i < tried.len() && #[trigger] tried[i] == settled(tried);
        assert(tried[i] is Art);
    }
}

// ── The message in the buffer ─────────────────────────────────────────

/// Where the first message with an id is.
pub open spec fn place_of(messages: Seq<ChatMessageItem>, id: Seq<char>) -> Option<int>
    decreases messages.len(),
{
    if messages.len() == 0 {
        None
    } else {
        match place_of(messages.drop_last(), id) {
            Some(i) => Some(i),
            None => if messages.last().id@ == id {
                Some(messages.len() - 1)
            } else {
                None
            },
        }
    }
}

proof fn lemma_place(messages: Seq<ChatMessageItem>, id: Seq<char>, k: int)
    requires
        0 <= k <= messages.len(),
        forall|j: int| 0 <= j < k ==> (#[trigger] messages[j]).id@ != id,
        k < messages.len() ==> messages[k].id@ == id,
    ensures
        place_of(messages, id) == (if k < messages.len() {
            Some(k)
        } else {
            None
        }),
    decreases messages.len(),
{
    if messages.len() > 0 {
        let m = messages.drop_last();
        assert forall|j: int| 0 <= j < k && j < m.len() implies (#[trigger] m[j]).id@ != id by {
            assert(m[j] == messages[j]);
        }
        if k < m.len() {
            assert(m[k] == messages[k]);
            lemma_place(m, id, k);
        } else {
            lemma_place(m, id, m.len() as int);
        }
    }
}

fn find_message(messages: &Vec<ChatMessageItem>, id: &str) -> (r: Option<usize>)
    ensures
        r matches Some(i) ==> place_of(messages@, id@) == Some(i as int) && i < messages@.len(),
        r is None ==> place_of(messages@, id@) is None,
{
    let mut i: usize = 0;
    while i < messages.len()
        invariant
            i <= messages@.len(),
            forall|j: int| 0 <= j < i ==> (#[trigger] messages@[j]).id@ != id@,
        decreases messages@.len() - i,
    {
        if text::same(messages[i].id.as_str(), id) {
            proof {
                lemma_place(messages@, id@, i as int);
            }
            return Some(i);
        }
        i += 1;
    }
    proof {
        lemma_place(messages@, id@, i as int);
    }
    None
}

/// Put art into the message with this id, if it is still in the buffer.
pub fn show_art(messages: &mut Vec<ChatMessageItem>, id: &str, art: String)
    ensures
        match place_of(old(messages)@, id@) {
            Some(i) => final(messages)@ == old(messages)@.update(
                i,
                ChatMessageItem { image_art: Some(art), ..old(messages)@[i] },
            ),
            None => final(messages)@ == old(messages)@,
        },
{
    match find_message(messages, id) {
        Some(i) => {
            messages[i].image_art = Some(art);
        },
        None => {},
    }
}

/// Put into the message with this id why its image is not shown.
pub fn show_reason(messages: &mut Vec<ChatMessageItem>, id: &str, why: String)
    ensures
        match place_of(old(messages)@, id@) {
            Some(i) => final(messages)@ == old(messages)@.update(
                i,
                ChatMessageItem { image_status: Some(why), ..old(messages)@[i] },
            ),
            None => final(messages)@ == old(messages)@,
        },
{
    match find_message(messages, id) {
        Some(i) => {
            messages[i].image_status = Some(why);
        },
        None => {},
    }
}

// ── Laws of what is shown ─────────────────────────────────────────────

/// Where no image worked, the reason is that of the last one that was tried.
pub proof fn last_reason_is_given(tried: Seq<Rendered>)
    requires
        tried.len() > 0,
        forall|j: int| 0 <= j < tried.len() ==> !(#[trigger] tried[j] is Art),
    ensures
        settled(tried) == tried.last(),
{
    lemma_settled(tried.drop_last());
    if settled(tried.drop_last()) is Art {
        let t = tried.drop_last();
        let i = choose|i: int| 0 <= i < t.len() && #[trigger] t[i] == settled(t);
        assert(tried[i] == t[i]);
    }
}

/// An outcome goes to the first message with the id, and to none where there is no such message.
pub proof fn outcomes_find_their_message(messages: Seq<ChatMessageItem>, id: Seq<char>)
    ensures
        match place_of(messages, id) {
            Some(i) => 0 <= i < messages.len() && messages[i].id@ == id && forall|j: int|
                0 <= j < i ==> (#[trigger] messages[j]).id@ != id,
            None => forall|j: int| 0 <= j < messages.len() ==> (#[trigger] messages[j]).id@ != id,
        },
    decreases messages.len(),
{
    if messages.len() > 0 {
        let m = messages.drop_last();
        outcomes_find_their_message(m, id);
        assert forall|j: int| 0 <= j < m.len() implies #[trigger] messages[j] == m[j] by {}
    }
}

/// Images are tried exactly where they are switched on, the message has some and its author is
/// admitted; and then every one of them is.
pub proof fn plans_follow_the_switch(
    plan: EmbedPlan,
    images_mode: Seq<char>,
    min_rank: Seq<char>,
    item: ChatMessageItem,
    map: tokens::Entries,
    u: Seq<char>,
)
    requires
        planned(plan, images_mode, min_rank, item, map),
    ensures
        plan is Try <==> images_mode == "all"@ && images::image_urls(item.content@, map).len() > 0
            && allowed(item.score, item.rank@, min_rank),
        plan is Refused <==> images_mode == "all"@ && images::image_urls(item.content@, map).len()
            > 0 && !allowed(item.score, item.rank@, min_rank),
        plan matches EmbedPlan::Try(list) ==> (text::views(list@).contains(u)
            <==> images::raw_urls(item.content@).contains(u) || images::token_urls(
            map,
            item.content@,
        ).contains(u)),
{
    images::collected_urls_are_complete(item.content@, map, u);
}

/// A reason that is given is shown as it is; only where none is, a general one stands in for it.
pub proof fn reasons_are_shown_as_given(why: Seq<char>)
    ensures
        why.len() > 0 ==> shown_reason(why) == why,
        shown_reason(why).len() > 0,
{
    reveal_strlit("could not be converted");
}

/// Each step up the ladder of ranks is worth one.
pub proof fn ranks_are_one_apart(i: int)
    requires
        0 <= i < ladder().len(),
    ensures
        tier_of(ladder()[i]) == ladder().len() - 1 - i,
        tier_of("moderator"@) == tier_of("mod"@),
        tier_of("sub"@) == tier_of("sponsor"@),
{
    lemma_rank_names();
}

} // verus!
