//! When the clip of a message is asked for, and when playing it ends.
use crate::engine::QueryResult;
use crate::json;
use crate::json::{Json, Tree};
use crate::time::{Duration, Instant};
use vstd::prelude::*;

verus! {

/// The query that asks for the clip of a message.
pub const AUDIO_QUERY: &'static str = "audio_for_message";

/// How often a clip is asked for.
pub const ATTEMPTS: u32 = 3;

/// What a query for a clip names: the message.
pub open spec fn audio_tree(uuid7: Seq<char>) -> Tree {
    Tree::Object(seq![("uuid7"@, Tree::Text(uuid7))])
}

/// What to ask the engine for to get the clip of a message.
pub fn audio_query(uuid7: &str) -> (sql: String)
    ensures
        sql@ == json::displayed(json::stored(audio_tree(uuid7@))),
{
    let mut pairs: Vec<(String, Json)> = Vec::new();
    pairs.push(("uuid7".to_owned(), json::text_value(uuid7)));
    let payload = Json::Object(pairs);
    proof {
        json::lemma_view(payload);
        assert(payload@->Object_0 =~= audio_tree(uuid7@)->Object_0);
    }
    json::to_text(payload)
}

/// Asking for the clip of a message, which the TTS module saves to the timeline after the message
/// broadcasts: a few attempts, because that happens right after the display sees the message.
#[derive(Debug, Clone, Copy, PartialEq, Eq, Structural)]
pub struct AudioFetch {
    /// Attempts that brought nothing.
    pub failed: u32,
}

/// Whether an answer holds a clip.
pub open spec fn has_clip(answer: Result<QueryResult, String>) -> bool {
    answer matches Ok(res) && res.success && res.result_blob@.len() > 0
}

impl AudioFetch {
    pub fn new() -> (f: AudioFetch)
        ensures
            f.failed == 0,
    {
        AudioFetch { failed: 0 }
    }

    /// How long to wait before the next attempt; nothing where there is none.
    pub fn pause(&self) -> (r: Option<Duration>)
        ensures
            r is None <==> self.failed >= ATTEMPTS,
            r matches Some(d) ==> d.nanos == if self.failed == 0 {
                0
            } else {
                800_000_000int
            },
    {
        if self.failed >= ATTEMPTS {
            None
        } else if self.failed == 0 {
            Some(Duration::zero())
        } else {
            Some(Duration::from_millis(800))
        }
    }

    /// The clip in an answer, if there is one; or else one attempt has failed.
    pub fn answered(&mut self, answer: Result<QueryResult, String>) -> (clip: Option<Vec<u8>>)
        requires
            old(self).failed < ATTEMPTS,
        ensures
            clip is Some <==> has_clip(answer),
            clip matches Some(bytes) ==> bytes == answer->Ok_0.result_blob && final(self).failed
                == old(self).failed,
            clip is None ==> final(self).failed == old(self).failed + 1,
    {
        match answer {
            Ok(res) => {
                if res.success && res.result_blob.len() > 0 {
                    return Some(res.result_blob);
                }
            },
            Err(_) => {},
        }
        self.failed = self.failed + 1;
        None
    }
}

/// What to do about a clip that is playing.
#[derive(Debug, Clone, Copy, PartialEq, Eq, Structural)]
pub enum Playback {
    /// It has ended.
    Ended,
    /// It has had its time: stop it.
    Stop,
    /// Look again after this long.
    Wait(Duration),
}

/// Even a clip of unknown length is stopped once its time is over.
pub fn playback(ended: bool, now: Instant, deadline: Instant) -> (p: Playback)
    ensures
        p == if ended {
            Playback::Ended
        } else if now.nanos >= deadline.nanos {
            Playback::Stop
        } else {
            Playback::Wait(Duration { nanos: 50_000_000 })
        },
{
    if ended {
        Playback::Ended
    } else if now.nanos >= deadline.nanos {
        Playback::Stop
    } else {
        Playback::Wait(Duration::from_millis(50))
    }
}

/// A question for a clip names its message, and nothing else.
pub proof fn clips_are_asked_for_by_message(uuid7: Seq<char>, key: Seq<char>)
    ensures
        json::field(audio_tree(uuid7), "uuid7"@) == Some(Tree::Text(uuid7)),
        key != "uuid7"@ ==> json::field(audio_tree(uuid7), key) is None,
{
    let pairs = audio_tree(uuid7)->Object_0;
    json::fields_are_found(pairs, 0, key);
}

/// A clip is something that the engine hands out with success; a failure brings none, whatever
/// comes with it, and neither does silence.
pub proof fn clips_come_with_success(res: QueryResult, e: String)
    ensures
        has_clip(Ok(res)) ==> res.success && res.result_blob@.len() > 0,
        res.success && res.result_blob@.len() > 0 ==> has_clip(Ok(res)),
        !has_clip(Err(e)),
{
}

} // verus!
