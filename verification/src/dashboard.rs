//! The bookkeeping behind the terminal dashboard: the lock bell, the
//! per-channel frequency trails and the event log.
use vstd::prelude::*;
use crate::text::{chars_of, contains_seq, str_contains, string_from_chars, sub_chars};

verus! {

/// Points kept in a channel's trail.
pub open spec fn trail_capacity() -> nat {
    300
}

/// Messages kept in the event log.
pub open spec fn event_log_capacity() -> nat {
    50
}

/// The bell rings when the tracker enters lock.
pub fn lock_bell(was_locked: bool, is_locked: bool) -> (r: bool)
    ensures
        r == (is_locked && !was_locked),
{
    is_locked && !was_locked
}

/// A channel's trail after one frame: an active channel appends its point
/// and drops the oldest once past 300 points; an idle channel's trail is
/// cleared.
pub open spec fn trail_next<T>(trail: Seq<T>, active: bool, point: T) -> Seq<T> {
    if active {
        let t = trail.push(point);
        if t.len() > trail_capacity() {
            t.drop_first()
        } else {
            t
        }
    } else {
        Seq::empty()
    }
}

/// Records one frame of a channel in its trail.
pub fn record_channel_trail<T: Copy>(trail: &mut Vec<T>, active: bool, point: T)
    ensures
        final(trail)@ == trail_next(old(trail)@, active, point),
{
    if active {
        trail.push(point);
    } else {
        trail.clear();
    }
    if trail.len() > 300 {
        trail.remove(0);
    }
    assert(trail@ =~= trail_next(old(trail)@, active, point));
}

/// A message without the line breaks (`\r`, `\n`) at its end.
pub open spec fn trim_line_end(s: Seq<char>) -> Seq<char>
    decreases s.len(),
{
    if s.len() > 0 && (s.last() == '\r' || s.last() == '\n') {
        trim_line_end(s.drop_last())
    } else {
        s
    }
}

/// The event log after a message arrives: the message, without its line
/// breaks, is appended unless it is empty or contains a message already in
/// the log; past 50 messages the oldest is dropped.
pub open spec fn event_log_next(log: Seq<Seq<char>>, msg: Seq<char>) -> Seq<Seq<char>> {
    let t = trim_line_end(msg);
    if t.len() == 0 || exists|i: int| 0 <= i < log.len() && contains_seq(t, #[trigger] log[i]) {
        log
    } else {
        let l = log.push(t);
        if l.len() > event_log_capacity() {
            l.drop_first()
        } else {
            l
        }
    }
}

/// The messages of a log.
pub open spec fn log_view(log: Seq<String>) -> Seq<Seq<char>> {
    log.map_values(|s: String| s@)
}

/// Adds a message to the event log.
pub fn push_event_log(log: &mut Vec<String>, msg: &str)
    ensures
        log_view(final(log)@) == event_log_next(log_view(old(log)@), msg@),
{
    let cs = chars_of(msg);
    let mut k: usize = cs.len();
    assert(cs@.take(k as int) =~= msg@);
    while k > 0 && (cs[k - 1] == '\r' || cs[k - 1] == '\n')
        invariant
            k <= cs@.len(),
            cs@ == msg@,
            trim_line_end(cs@.take(k as int)) == trim_line_end(msg@),
        decreases k,
    {
        assert(cs@.take(k as int).drop_last() =~= cs@.take(k - 1));
        k = k - 1;
    }
    assert(cs@.subrange(0, k as int) =~= cs@.take(k as int));
    let trimmed_chars = sub_chars(&cs, 0, k);
    let trimmed = string_from_chars(&trimmed_chars);
    assert(trimmed@ == trim_line_end(msg@));
    if trimmed_chars.len() == 0 {
        return;
    }
    let ghost lv = log_view(log@);
    let mut i: usize = 0;
    while i < log.len()
        invariant
            i <= log@.len(),
            lv == log_view(log@),
            trimmed@ == trim_line_end(msg@),
            forall|j: int| 0 <= j < i ==> !contains_seq(trimmed@, #[trigger] lv[j]),
        decreases log.len() - i,
    {
        if str_contains(trimmed.as_str(), log[i].as_str()) {
            assert(contains_seq(trimmed@, lv[i as int]));
            return;
        }
        i = i + 1;
    }
    log.push(trimmed);
    if log.len() > 50 {
        log.remove(0);
    }
    assert(log_view(log@) =~= event_log_next(lv, msg@));
}

/// A trail never holds more than 300 points.
pub proof fn law_trail_bounded<T>(trail: Seq<T>, active: bool, point: T)
    requires
        trail.len() <= trail_capacity(),
    ensures
        trail_next(trail, active, point).len() <= trail_capacity(),
{
}

/// The event log never holds more than 50 messages, and a message that
/// contains one already logged leaves it unchanged.
pub proof fn law_event_log_bounded(log: Seq<Seq<char>>, msg: Seq<char>, i: int)
    requires
        log.len() <= event_log_capacity(),
    ensures
        event_log_next(log, msg).len() <= event_log_capacity(),
        0 <= i < log.len() && contains_seq(trim_line_end(msg), log[i]) ==> event_log_next(log, msg)
            == log,
{
}

} // verus!
