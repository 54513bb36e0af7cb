//! How fast messages come on screen.
use crate::time::{Duration, Instant, NANOS_PER_SEC};
use crate::types::ChatMessageItem;
use std::collections::VecDeque;
use vstd::prelude::*;

verus! {

/// Display-rate limiter for chat messages. When enabled, a burst of messages is shown one at a
/// time, `interval` apart; if nothing has been emitted for a while, buffered messages flush
/// instantly.
pub struct EasingQueue {
    pub enabled: bool,
    /// The time between two messages at the target rate.
    pub interval: Duration,
    pub last_emit: Option<Instant>,
    pub buffer: VecDeque<ChatMessageItem>,
}

/// Nanoseconds since something was last shown; a queue that has shown nothing yet has been idle
/// for 99 seconds.
pub open spec fn idle(last_emit: Option<Instant>, now: Instant) -> int {
    match last_emit {
        Some(t) => now.since(t) as int,
        None => 99 * NANOS_PER_SEC,
    }
}

/// How many of `waiting` messages are due: all of them where nothing is held back or nothing has
/// been shown for more than two seconds, and else one each `interval`.
pub open spec fn due(enabled: bool, interval: int, idle: int, waiting: nat) -> nat {
    if !enabled || waiting == 0 {
        waiting
    } else if idle > 2 * NANOS_PER_SEC {
        waiting
    } else if idle >= interval {
        1
    } else {
        0
    }
}

impl EasingQueue {
    /// How many messages are due at `now`.
    pub open spec fn due_at(self, now: Instant) -> nat {
        due(
            self.enabled,
            self.interval.nanos as int,
            idle(self.last_emit, now),
            self.buffer@.len(),
        )
    }

    pub fn new(enabled: bool, interval: Duration) -> (q: EasingQueue)
        ensures
            q.enabled == enabled,
            q.interval == interval,
            q.last_emit is None,
            q.buffer@.len() == 0,
    {
        EasingQueue { enabled, interval, last_emit: None, buffer: VecDeque::new() }
    }

    pub fn push(&mut self, item: ChatMessageItem)
        ensures
            final(self).buffer@ == old(self).buffer@.push(item),
            final(self).enabled == old(self).enabled,
            final(self).interval == old(self).interval,
            final(self).last_emit == old(self).last_emit,
    {
        self.buffer.push_back(item);
    }

    /// The first `n` messages.
    fn take(&mut self, n: usize) -> (out: Vec<ChatMessageItem>)
        requires
            n <= old(self).buffer@.len(),
        ensures
            out@ == old(self).buffer@.take(n as int),
            final(self).buffer@ == old(self).buffer@.skip(n as int),
            final(self).enabled == old(self).enabled,
            final(self).interval == old(self).interval,
            final(self).last_emit == old(self).last_emit,
    {
        let mut out: Vec<ChatMessageItem> = Vec::new();
        let ghost all = self.buffer@;
        let ghost start = *self;
        let mut i: usize = 0;
        assert(all.skip(0) == all);
        while i < n
            invariant
                i <= n <= all.len(),
                out@ == all.take(i as int),
                self.buffer@ == all.skip(i as int),
                self.enabled == start.enabled,
                self.interval == start.interval,
                self.last_emit == start.last_emit,
            decreases n - i,
        {
            match self.buffer.pop_front() {
                Some(item) => {
                    out.push(item);
                },
                None => {},
            }
            assert(all.skip(i as int).subrange(1, all.len() - i) == all.skip(i + 1));
            assert(out@ == all.take(i + 1));
            i += 1;
        }
        out
    }

    /// Emit items ready to be displayed right now: the oldest ones, in their order, and no item is
    /// lost.
    pub fn poll(&mut self, now: Instant) -> (out: Vec<ChatMessageItem>)
        ensures
            out@ == old(self).buffer@.take(old(self).due_at(now) as int),
            final(self).buffer@ == old(self).buffer@.skip(old(self).due_at(now) as int),
            final(self).enabled == old(self).enabled,
            final(self).interval == old(self).interval,
            final(self).last_emit == if old(self).enabled && out@.len() > 0 {
                Some(now)
            } else {
                old(self).last_emit
            },
    {
        let waiting: usize = self.buffer.len();
        if !self.enabled {
            return self.take(waiting);
        }
        if waiting == 0 {
            return self.take(0);
        }
        let since = match self.last_emit {
            Some(t) => now.saturating_duration_since(t),
            None => Duration::from_secs(99),
        };
        if since.nanos > 2 * NANOS_PER_SEC {
            // Idle long enough: flush the whole buffer so the chat feels live.
            let out = self.take(waiting);
            self.last_emit = Some(now);
            out
        } else if since.nanos >= self.interval.nanos {
            let out = self.take(1);
            self.last_emit = Some(now);
            out
        } else {
            self.take(0)
        }
    }
}

// ── Laws ──────────────────────────────────────────────────────────────

/// What comes out and what stays is what was there, in its order: nothing is lost, doubled or
/// overtaken.
pub proof fn nothing_is_lost(q: EasingQueue, now: Instant)
    ensures
        q.due_at(now) <= q.buffer@.len(),
        q.buffer@.take(q.due_at(now) as int) + q.buffer@.skip(q.due_at(now) as int) == q.buffer@,
{
    assert(q.buffer@.take(q.due_at(now) as int) + q.buffer@.skip(q.due_at(now) as int)
        =~= q.buffer@);
}

/// A queue that is switched off holds nothing back.
pub proof fn disabled_queue_holds_nothing(q: EasingQueue, now: Instant)
    requires
        !q.enabled,
    ensures
        q.due_at(now) == q.buffer@.len(),
{
}

/// Unless the display has been idle for more than two seconds, messages come one at a time, and
/// the next one not before the interval has passed.
pub proof fn rate_is_kept(q: EasingQueue, now: Instant)
    requires
        q.enabled,
        idle(q.last_emit, now) <= 2 * NANOS_PER_SEC,
    ensures
        q.due_at(now) <= 1,
        q.buffer@.len() > 0 ==> (q.due_at(now) == 1 <==> idle(q.last_emit, now)
            >= q.interval.nanos),
{
}

/// No message waits longer than two seconds since the last one was shown: then all of them are due
/// at once.
pub proof fn no_message_waits_long(q: EasingQueue, now: Instant)
    requires
        idle(q.last_emit, now) > 2 * NANOS_PER_SEC,
    ensures
        q.due_at(now) == q.buffer@.len(),
{
}

/// A queue that has shown nothing yet shows everything at once.
pub proof fn first_messages_come_at_once(q: EasingQueue, now: Instant)
    requires
        q.last_emit is None,
    ensures
        q.due_at(now) == q.buffer@.len(),
{
}

/// After a message was shown, the next one comes exactly when the interval has passed, and it comes
/// alone; only more than two seconds of silence bring the rest with it.
pub proof fn messages_keep_their_distance(q: EasingQueue, shown: Instant, now: Instant)
    requires
        q.enabled,
        q.last_emit == Some(shown),
        shown.nanos <= now.nanos,
        q.buffer@.len() > 0,
    ensures
        ({
            let gap = now.nanos - shown.nanos;
            &&& gap > 2_000_000_000 ==> q.due_at(now) == q.buffer@.len()
            &&& gap <= 2_000_000_000 && gap >= q.interval.nanos ==> q.due_at(now) == 1
            &&& gap <= 2_000_000_000 && gap < q.interval.nanos ==> q.due_at(now) == 0
        }),
{
}

} // verus!
