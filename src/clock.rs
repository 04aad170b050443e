use vstd::prelude::*;
use crate::calendar::{UtcStamp, INSTANT_BOUND, instant_of};
use crate::store::{
    ClockState,
    SessionRecord,
    Store,
    StoreError,
    closing,
    elapsed_to,
    opening,
    state_of,
    total_time,
};

verus! {

/// The records after a clock-in at `now`: a new open session, unless one is
/// already open.
pub open spec fn after_clock_in(s: Seq<SessionRecord>, now: UtcStamp) -> Seq<SessionRecord> {
    if state_of(s) == ClockState::ClockedIn {
        s
    } else {
        s.push(opening(now))
    }
}

/// The records after a clock-out at `now`: the open session closed at `now`,
/// unless none is open or it began after `now`.
pub open spec fn after_clock_out(s: Seq<SessionRecord>, now: UtcStamp) -> Seq<SessionRecord> {
    if state_of(s) == ClockState::ClockedIn && elapsed_to(s.last(), now) >= 0 {
        s.update(s.len() - 1, closing(s.last(), now.time, elapsed_to(s.last(), now) as u64))
    } else {
        s
    }
}

/// Whether a session is open in `store`.
pub fn is_clocked_in(store: &Store) -> (r: bool)
    ensures
        r == (state_of(store@) == ClockState::ClockedIn),
{
    store.state() == ClockState::ClockedIn
}

/// Seconds from the start of `rec` to `now`.
fn seconds_since_start(rec: &SessionRecord, now: &UtcStamp) -> (r: i64)
    requires
        rec.wf(),
        now.wf(),
    ensures
        r == elapsed_to(*rec, *now),
        -2 * INSTANT_BOUND < r < 2 * INSTANT_BOUND,
{
    let start = UtcStamp { date: rec.date, time: rec.clock_in_time };
    instant_of(now) - instant_of(&start)
}

impl Store {
    /// Opens a session at `now`; refused while one is open.
    pub fn clock_in(&mut self, now: UtcStamp) -> (r: Result<(), StoreError>)
        requires
            old(self).wf(),
            now.wf(),
        ensures
            final(self).wf(),
            final(self)@ == after_clock_in(old(self)@, now),
            state_of(old(self)@) == ClockState::ClockedIn ==> r == Err::<(), StoreError>(
                StoreError::AlreadyClockedIn,
            ) && final(self)@ == old(self)@,
            state_of(old(self)@) == ClockState::ClockedOut ==> r == Ok::<(), StoreError>(())
                && final(self)@ == old(self)@.push(opening(now)),
    {
        self.append(SessionRecord::opened_at(now))
    }

    /// Closes the open session at `now` and returns its elapsed seconds.
    /// Refused when no session is open, and when it began after `now`.
    pub fn clock_out(&mut self, now: UtcStamp) -> (r: Result<u64, StoreError>)
        requires
            old(self).wf(),
            now.wf(),
        ensures
            final(self).wf(),
            final(self)@ == after_clock_out(old(self)@, now),
            state_of(old(self)@) == ClockState::ClockedOut ==> r == Err::<u64, StoreError>(
                StoreError::NotClockedIn,
            ) && final(self)@ == old(self)@,
            state_of(old(self)@) == ClockState::ClockedIn && elapsed_to(old(self)@.last(), now) < 0
                ==> r == Err::<u64, StoreError>(StoreError::InvalidTimestamp) && final(self)@ == old(
                self,
            )@,
            state_of(old(self)@) == ClockState::ClockedIn && elapsed_to(old(self)@.last(), now)
                >= 0 ==> r is Ok && r->Ok_0 == elapsed_to(old(self)@.last(), now) && final(self)@
                == old(self)@.update(
                old(self)@.len() - 1,
                closing(old(self)@.last(), now.time, r->Ok_0),
            ),
    {
        let rec = match self.last() {
            Some(rec) => rec,
            None => {
                return Err(StoreError::NotClockedIn);
            },
        };
        if !rec.is_open() {
            return Err(StoreError::NotClockedIn);
        }
        let elapsed = seconds_since_start(&rec, &now);
        if elapsed < 0 {
            return Err(StoreError::InvalidTimestamp);
        }
        let e = elapsed as u64;
        let closed = self.close_last(now.time, e);
        match closed {
            Ok(()) => Ok(e),
            Err(err) => Err(err),
        }
    }

    /// The total time at `now`: the closed sessions, and the open session up
    /// to `now`. Refused when the open session began after `now`.
    pub fn query_total_time(&self, now: UtcStamp) -> (r: Result<u128, StoreError>)
        requires
            self.wf(),
            now.wf(),
        ensures
            state_of(self@) == ClockState::ClockedIn && elapsed_to(self@.last(), now) < 0 ==> r
                == Err::<u128, StoreError>(StoreError::InvalidTimestamp),
            !(state_of(self@) == ClockState::ClockedIn && elapsed_to(self@.last(), now) < 0) ==> r
                == Ok::<u128, StoreError>(total_time(self@, now) as u128),
            r matches Ok(t) ==> t == total_time(self@, now),
    {
        let closed = self.total_elapsed_seconds();
        match self.last() {
            Some(rec) => {
                if rec.is_open() {
                    let elapsed = seconds_since_start(&rec, &now);
                    if elapsed < 0 {
                        return Err(StoreError::InvalidTimestamp);
                    }
                    proof {
                        assert((usize::MAX as int) * (u64::MAX as int) + 2 * INSTANT_BOUND
                            <= u128::MAX) by (nonlinear_arith);
                    }
                    Ok(closed + elapsed as u128)
                } else {
                    Ok(closed)
                }
            },
            None => Ok(closed),
        }
    }
}

} // verus!
