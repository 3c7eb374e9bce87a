//! Pacing of websocket writes and a holder for data owned by one task.
use vstd::prelude::*;

use crate::clock::millis_since;

verus! {

/// How long to wait, at `now_ms`, before acting again when the last action
/// was at `last_update_time` and actions must be `connect_wait_time`
/// milliseconds apart: the rest of that interval, or nothing once it has
/// passed. A reading before the last stamp means no time is known to be
/// owed, so nothing is waited.
pub open spec fn wait_ms(connect_wait_time: u16, last_update_time: u64, now_ms: u64) -> int {
    if now_ms < last_update_time {
        0
    } else if now_ms - last_update_time < connect_wait_time {
        connect_wait_time - (now_ms - last_update_time)
    } else {
        0
    }
}

/// How long to wait, at `now_ms`, before acting again when the last action
/// was at `last_update_time` and actions must be `connect_wait_time`
/// milliseconds apart.
pub fn wait_util_ms(connect_wait_time: u16, last_update_time: u64, now_ms: u64) -> (wait: u64)
    ensures
        wait == wait_ms(connect_wait_time, last_update_time, now_ms),
        now_ms < last_update_time ==> wait == 0,
        last_update_time <= now_ms && now_ms - last_update_time < connect_wait_time ==> wait
            == connect_wait_time - (now_ms - last_update_time),
        last_update_time <= now_ms && now_ms - last_update_time >= connect_wait_time ==> wait == 0,
{
    if now_ms < last_update_time {
        return 0;
    }
    let elapsed = now_ms - last_update_time;
    if elapsed < connect_wait_time as u64 {
        connect_wait_time as u64 - elapsed
    } else {
        0
    }
}

/// How long to wait now before acting again, on the monotonic clock that
/// counts milliseconds since `start` (the one writes are stamped with): the
/// wait `wait_util_ms` gives for the reading taken.
pub fn wait_now_ms(start: &tokio::time::Instant, connect_wait_time: u16, last_update_time: u64) -> (wait: u64)
    ensures
        exists|now_ms: u64| wait == wait_ms(connect_wait_time, last_update_time, now_ms),
        wait <= connect_wait_time,
{
    let now_ms = millis_since(start);
    wait_util_ms(connect_wait_time, last_update_time, now_ms)
}

/// Data owned by a single task and reached through it.
pub struct SingleThreadSharedData<T> {
    data: Box<T>,
}

impl<T> SingleThreadSharedData<T> {
    /// The data held.
    pub closed spec fn value(&self) -> T {
        *self.data
    }

    /// Holds `data`.
    pub fn new(data: T) -> (s: Self)
        ensures
            s.value() == data,
    {
        SingleThreadSharedData { data: Box::new(data) }
    }

    /// The data, to change in place.
    pub fn get_mut(&mut self) -> (r: &mut T)
        ensures
            *r == old(self).value(),
            final(self).value() == *final(r),
    {
        &mut *self.data
    }

    /// The data, to read.
    pub fn get(&self) -> (r: &T)
        ensures
            *r == self.value(),
    {
        &*self.data
    }
}

} // verus!
