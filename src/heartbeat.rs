//! Heartbeat rule: on each periodic tick a connection that has been silent for
//! longer than the timeout is closed; any other gets a Ping.

use vstd::prelude::*;
use crate::rate_limit::elapsed;

verus! {

/// How often a tick fires, in milliseconds.
pub const PING_INTERVAL_MS: u64 = 30000;

/// Silence after which a connection is considered dead, in milliseconds.
pub const PONG_TIMEOUT_MS: u64 = 60000;

#[derive(Debug, Clone, Copy, PartialEq, Eq, Structural)]
pub enum TickAction {
    SendPing,
    TimedOut,
}

pub open spec fn tick_spec(last_activity_ms: u64, now_ms: u64, timeout_ms: u64) -> TickAction {
    if elapsed(last_activity_ms, now_ms) > timeout_ms {
        TickAction::TimedOut
    } else {
        TickAction::SendPing
    }
}

/// What a tick at `now_ms` does, the last frame having arrived at
/// `last_activity_ms`.
pub fn on_tick(last_activity_ms: u64, now_ms: u64, timeout_ms: u64) -> (r: TickAction)
    ensures
        r == tick_spec(last_activity_ms, now_ms, timeout_ms),
{
    let silent: u64 = if now_ms >= last_activity_ms {
        now_ms - last_activity_ms
    } else {
        0
    };
    if silent > timeout_ms {
        TickAction::TimedOut
    } else {
        TickAction::SendPing
    }
}

/// A connection whose last frame arrived within the timeout is never closed
/// for silence; once the silence exceeds the timeout, every later tick closes
/// it, so the handler exits at the first tick after that.
pub proof fn lemma_heartbeat(last_frame_ms: u64, detect_ms: u64, tick_ms: u64, timeout_ms: u64)
    ensures
        last_frame_ms <= tick_ms && tick_ms - last_frame_ms <= timeout_ms ==> tick_spec(
            last_frame_ms,
            tick_ms,
            timeout_ms,
        ) == TickAction::SendPing,
        elapsed(last_frame_ms, detect_ms) > timeout_ms && detect_ms <= tick_ms ==> tick_spec(
            last_frame_ms,
            tick_ms,
            timeout_ms,
        ) == TickAction::TimedOut,
{
}

} // verus!
