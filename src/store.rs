use vstd::prelude::*;
use crate::calendar::{CivilDate, TimeOfDay, UtcStamp, instant_of};

verus! {

/// Why an operation on the store failed.
#[derive(Clone, Copy, Debug, PartialEq, Eq, Structural)]
pub enum StoreError {
    /// The header is wrong, a row has the wrong number of fields or an
    /// unreadable count of seconds, or an open session is followed by another.
    CorruptStore,
    /// A session is already open.
    AlreadyClockedIn,
    /// No session is open.
    NotClockedIn,
    /// A stored date or time cannot be read, or the open session's clock-in
    /// lies after the present moment.
    InvalidTimestamp,
}

/// Whether a session is open.
#[derive(Clone, Copy, Debug, PartialEq, Eq, Structural)]
pub enum ClockState {
    ClockedOut,
    ClockedIn,
}

/// One work session. While it is open, it has neither a clock-out time nor
/// an elapsed duration.
#[derive(Clone, Copy, Debug, PartialEq, Eq, Structural)]
pub struct SessionRecord {
    pub date: CivilDate,
    pub clock_in_time: TimeOfDay,
    pub clock_out_time: Option<TimeOfDay>,
    pub elapsed_seconds: Option<u64>,
}

impl SessionRecord {
    pub open spec fn wf(self) -> bool {
        &&& self.date.wf()
        &&& self.clock_in_time.wf()
        &&& (self.clock_out_time is Some <==> self.elapsed_seconds is Some)
        &&& (self.clock_out_time matches Some(t) ==> t.wf())
    }

    pub open spec fn spec_is_open(self) -> bool {
        self.clock_out_time is None
    }

    /// The moment the session began.
    pub open spec fn start(self) -> UtcStamp {
        UtcStamp { date: self.date, time: self.clock_in_time }
    }

    /// Whether the session is still open.
    pub fn is_open(&self) -> (r: bool)
        ensures
            r == self.spec_is_open(),
    {
        self.clock_out_time.is_none()
    }

    /// A session opened at `now`.
    pub fn opened_at(now: UtcStamp) -> (r: SessionRecord)
        requires
            now.wf(),
        ensures
            r == opening(now),
            r.wf(),
    {
        SessionRecord {
            date: now.date,
            clock_in_time: now.time,
            clock_out_time: None,
            elapsed_seconds: None,
        }
    }
}

/// The open session that a clock-in at `now` appends.
pub open spec fn opening(now: UtcStamp) -> SessionRecord {
    SessionRecord {
        date: now.date,
        clock_in_time: now.time,
        clock_out_time: None,
        elapsed_seconds: None,
    }
}

/// The session `r` closed at `out` after `elapsed` seconds.
pub open spec fn closing(r: SessionRecord, out: TimeOfDay, elapsed: u64) -> SessionRecord {
    SessionRecord { clock_out_time: Some(out), elapsed_seconds: Some(elapsed), ..r }
}

/// Seconds from the start of session `r` to `now`.
pub open spec fn elapsed_to(r: SessionRecord, now: UtcStamp) -> int {
    now.instant() - r.start().instant()
}

/// Every record is well formed, and only the last may be open.
pub open spec fn well_formed(s: Seq<SessionRecord>) -> bool {
    &&& forall|i: int| 0 <= i < s.len() ==> (#[trigger] s[i]).wf()
    &&& forall|i: int| 0 <= i < s.len() - 1 ==> !(#[trigger] s[i]).spec_is_open()
}

/// Clocked in exactly when the last record exists and is open.
pub open spec fn state_of(s: Seq<SessionRecord>) -> ClockState {
    if s.len() > 0 && s.last().spec_is_open() {
        ClockState::ClockedIn
    } else {
        ClockState::ClockedOut
    }
}

/// The sum of the elapsed seconds of the closed records.
pub open spec fn closed_total(s: Seq<SessionRecord>) -> int
    decreases s.len(),
{
    if s.len() == 0 {
        0
    } else {
        closed_total(s.drop_last()) + match s.last().elapsed_seconds {
            Some(e) => e as int,
            None => 0,
        }
    }
}

/// The total time at `now`: the closed sessions, and the open one up to `now`.
pub open spec fn total_time(s: Seq<SessionRecord>, now: UtcStamp) -> int {
    closed_total(s) + if state_of(s) == ClockState::ClockedIn {
        elapsed_to(s.last(), now)
    } else {
        0
    }
}

/// The number of open records.
pub open spec fn open_count(s: Seq<SessionRecord>) -> nat
    decreases s.len(),
{
    if s.len() == 0 {
        0
    } else {
        open_count(s.drop_last()) + if s.last().spec_is_open() {
            1nat
        } else {
            0nat
        }
    }
}

/// The ordered sequence of work sessions.
pub struct Store {
    records: Vec<SessionRecord>,
}

impl View for Store {
    type V = Seq<SessionRecord>;

    closed spec fn view(&self) -> Seq<SessionRecord> {
        self.records@
    }
}

impl Store {
    pub open spec fn wf(&self) -> bool {
        well_formed(self@)
    }

    /// An empty store.
    pub fn new() -> (r: Store)
        ensures
            r@ == Seq::<SessionRecord>::empty(),
            r.wf(),
    {
        Store { records: Vec::new() }
    }

    /// The number of records.
    pub fn len(&self) -> (r: usize)
        ensures
            r == self@.len(),
    {
        self.records.len()
    }

    /// The record at `i`, in order of appending.
    pub fn record(&self, i: usize) -> (r: SessionRecord)
        requires
            i < self@.len(),
        ensures
            r == self@[i as int],
    {
        self.records[i]
    }

    /// The most recent record, if any.
    pub fn last(&self) -> (r: Option<SessionRecord>)
        ensures
            self@.len() == 0 ==> r is None,
            self@.len() > 0 ==> r == Some(self@.last()),
    {
        let n = self.records.len();
        if n == 0 {
            None
        } else {
            Some(self.records[n - 1])
        }
    }

    /// The state, derived from the last record.
    pub fn state(&self) -> (r: ClockState)
        ensures
            r == state_of(self@),
    {
        match self.last() {
            Some(rec) => if rec.is_open() {
                ClockState::ClockedIn
            } else {
                ClockState::ClockedOut
            },
            None => ClockState::ClockedOut,
        }
    }

    /// When the most recent session began, if there is one.
    pub fn last_clock_in_time(&self) -> (r: Option<UtcStamp>)
        ensures
            self@.len() == 0 ==> r is None,
            self@.len() > 0 ==> r == Some(self@.last().start()),
    {
        match self.last() {
            Some(rec) => Some(UtcStamp { date: rec.date, time: rec.clock_in_time }),
            None => None,
        }
    }

    /// Adds `rec` at the end; refused while a session is open.
    pub fn append(&mut self, rec: SessionRecord) -> (r: Result<(), StoreError>)
        requires
            old(self).wf(),
            rec.wf(),
        ensures
            final(self).wf(),
            state_of(old(self)@) == ClockState::ClockedIn ==> r == Err::<(), StoreError>(
                StoreError::AlreadyClockedIn,
            ) && final(self)@ == old(self)@,
            state_of(old(self)@) == ClockState::ClockedOut ==> r == Ok::<(), StoreError>(())
                && final(self)@ == old(self)@.push(rec),
    {
        if self.state() == ClockState::ClockedIn {
            return Err(StoreError::AlreadyClockedIn);
        }
        self.records.push(rec);
        Ok(())
    }

    /// Closes the open last record with a clock-out time and an elapsed
    /// duration; refused when no session is open.
    pub fn close_last(&mut self, clock_out_time: TimeOfDay, elapsed_seconds: u64) -> (r: Result<
        (),
        StoreError,
    >)
        requires
            old(self).wf(),
            clock_out_time.wf(),
        ensures
            final(self).wf(),
            state_of(old(self)@) == ClockState::ClockedOut ==> r == Err::<(), StoreError>(
                StoreError::NotClockedIn,
            ) && final(self)@ == old(self)@,
            state_of(old(self)@) == ClockState::ClockedIn ==> r == Ok::<(), StoreError>(())
                && final(self)@ == old(self)@.update(
                old(self)@.len() - 1,
                closing(old(self)@.last(), clock_out_time, elapsed_seconds),
            ),
    {
        if self.state() == ClockState::ClockedOut {
            return Err(StoreError::NotClockedIn);
        }
        let n = self.records.len();
        let rec = self.records[n - 1];
        let closed = SessionRecord {
            clock_out_time: Some(clock_out_time),
            elapsed_seconds: Some(elapsed_seconds),
            ..rec
        };
        self.records.set(n - 1, closed);
        Ok(())
    }

    /// The sum of the elapsed seconds of the closed records; an open record
    /// adds nothing.
    pub fn total_elapsed_seconds(&self) -> (r: u128)
        ensures
            r == closed_total(self@),
            r <= (usize::MAX as int) * (u64::MAX as int),
    {
        let mut total: u128 = 0;
        let mut i: usize = 0;
        let n = self.records.len();
        while i < n
            invariant
                n == self@.len(),
                i <= n,
                total == closed_total(self@.take(i as int)),
                total <= i * (u64::MAX as int),
            decreases self@.len() - i,
        {
            assert(self@.take(i + 1).drop_last() =~= self@.take(i as int));
            match self.records[i].elapsed_seconds {
                Some(e) => {
                    proof {
                        assert((i + 1) * (u64::MAX as int) == i * (u64::MAX as int) + u64::MAX)
                            by (nonlinear_arith);
                        assert(i * (u64::MAX as int) <= (usize::MAX as int) * (u64::MAX as int))
                            by (nonlinear_arith)
                            requires
                                i <= usize::MAX,
                        ;
                    }
                    total = total + e as u128;
                },
                None => {
                    assert(i * (u64::MAX as int) <= (i + 1) * (u64::MAX as int))
                        by (nonlinear_arith);
                },
            }
            i = i + 1;
        }
        assert(self@.take(i as int) =~= self@);
        assert(i * (u64::MAX as int) <= (usize::MAX as int) * (u64::MAX as int)) by (nonlinear_arith)
            requires
                i <= usize::MAX,
        ;
        total
    }
}

} // verus!
