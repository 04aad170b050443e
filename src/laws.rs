use vstd::prelude::*;
use crate::calendar::UtcStamp;
use crate::clock::{after_clock_in, after_clock_out};
use crate::store::{
    ClockState,
    SessionRecord,
    closed_total,
    open_count,
    state_of,
    total_time,
    well_formed,
};

verus! {

/// A command given to the clock, with the moment it was given.
pub enum ClockCommand {
    ClockIn(UtcStamp),
    ClockOut(UtcStamp),
}

impl ClockCommand {
    pub open spec fn wf(self) -> bool {
        match self {
            ClockCommand::ClockIn(now) => now.wf(),
            ClockCommand::ClockOut(now) => now.wf(),
        }
    }
}

/// The records after one command.
pub open spec fn apply_command(s: Seq<SessionRecord>, c: ClockCommand) -> Seq<SessionRecord> {
    match c {
        ClockCommand::ClockIn(now) => after_clock_in(s, now),
        ClockCommand::ClockOut(now) => after_clock_out(s, now),
    }
}

/// The records after the commands, in order.
pub open spec fn run_commands(s: Seq<SessionRecord>, cs: Seq<ClockCommand>) -> Seq<
    SessionRecord,
>
    decreases cs.len(),
{
    if cs.len() == 0 {
        s
    } else {
        apply_command(run_commands(s, cs.drop_last()), cs.last())
    }
}

proof fn lemma_closed_records_none_open(s: Seq<SessionRecord>)
    requires
        forall|i: int| 0 <= i < s.len() ==> !(#[trigger] s[i]).spec_is_open(),
    ensures
        open_count(s) == 0,
    decreases s.len(),
{
    if s.len() > 0 {
        assert(s.last() == s[s.len() - 1]);
        lemma_closed_records_none_open(s.drop_last());
    }
}

/// A well-formed store holds at most one open session.
pub proof fn lemma_at_most_one_open(s: Seq<SessionRecord>)
    requires
        well_formed(s),
    ensures
        open_count(s) <= 1,
{
    if s.len() > 0 {
        assert forall|i: int| 0 <= i < s.drop_last().len() implies !(
        #[trigger] s.drop_last()[i]).spec_is_open() by {
            assert(s.drop_last()[i] == s[i]);
        }
        lemma_closed_records_none_open(s.drop_last());
    }
}

/// Every command keeps a store well formed.
pub proof fn lemma_command_keeps_well_formed(s: Seq<SessionRecord>, c: ClockCommand)
    requires
        well_formed(s),
        c.wf(),
    ensures
        well_formed(apply_command(s, c)),
{
    let t = apply_command(s, c);
    match c {
        ClockCommand::ClockIn(now) => {
            if state_of(s) == ClockState::ClockedOut {
                assert forall|i: int| 0 <= i < t.len() - 1 implies !(
                #[trigger] t[i]).spec_is_open() by {
                    if i == s.len() - 1 {
                        assert(s.last() == s[i]);
                    }
                }
            }
        },
        ClockCommand::ClockOut(now) => {},
    }
}

/// Whatever commands are given, starting from a well-formed store (an empty
/// one, say), the store stays well formed and never holds two open
/// sessions.
pub proof fn lemma_never_two_open(s: Seq<SessionRecord>, cs: Seq<ClockCommand>)
    requires
        well_formed(s),
        forall|i: int| 0 <= i < cs.len() ==> (#[trigger] cs[i]).wf(),
    ensures
        well_formed(run_commands(s, cs)),
        open_count(run_commands(s, cs)) <= 1,
    decreases cs.len(),
{
    if cs.len() > 0 {
        assert forall|i: int| 0 <= i < cs.drop_last().len() implies (
        #[trigger] cs.drop_last()[i]).wf() by {
            assert(cs.drop_last()[i] == cs[i]);
        }
        lemma_never_two_open(s, cs.drop_last());
        assert(cs.last() == cs[cs.len() - 1]);
        lemma_command_keeps_well_formed(run_commands(s, cs.drop_last()), cs.last());
    }
    lemma_at_most_one_open(run_commands(s, cs));
}

/// While a session is open, the total time does not decrease as time goes
/// on.
pub proof fn lemma_total_time_monotone(s: Seq<SessionRecord>, earlier: UtcStamp, later: UtcStamp)
    requires
        earlier.instant() <= later.instant(),
    ensures
        total_time(s, earlier) <= total_time(s, later),
{
}

/// After a clock-in a session is open, so a second clock-in changes nothing
/// (the call itself returns the refusal).
pub proof fn lemma_second_clock_in_changes_nothing(
    s: Seq<SessionRecord>,
    first: UtcStamp,
    second: UtcStamp,
)
    requires
        well_formed(s),
        first.wf(),
    ensures
        state_of(after_clock_in(s, first)) == ClockState::ClockedIn,
        after_clock_in(after_clock_in(s, first), second) == after_clock_in(s, first),
        open_count(after_clock_in(s, first)) == 1,
{
    let t = after_clock_in(s, first);
    lemma_command_keeps_well_formed(s, ClockCommand::ClockIn(first));
    lemma_at_most_one_open(t);
    if state_of(s) == ClockState::ClockedOut {
        assert(t.drop_last() =~= s);
        lemma_at_most_one_open(s);
        if s.len() > 0 {
            assert forall|i: int| 0 <= i < s.len() implies !(#[trigger] s[i]).spec_is_open() by {
                if i == s.len() - 1 {
                    assert(s.last() == s[i]);
                }
            }
        }
        lemma_closed_records_none_open(s);
    } else {
        assert(s.last() == s[s.len() - 1]);
        assert forall|i: int| 0 <= i < s.drop_last().len() implies !(
        #[trigger] s.drop_last()[i]).spec_is_open() by {
            assert(s.drop_last()[i] == s[i]);
        }
        lemma_closed_records_none_open(s.drop_last());
    }
}

/// Appending a closed record to a store with no open session makes it the
/// last record, field for field, and adds its seconds to the total.
pub proof fn lemma_append_then_last(s: Seq<SessionRecord>, rec: SessionRecord)
    requires
        well_formed(s),
        state_of(s) == ClockState::ClockedOut,
        rec.wf(),
        !rec.spec_is_open(),
    ensures
        s.push(rec).last() == rec,
        state_of(s.push(rec)) == ClockState::ClockedOut,
        closed_total(s.push(rec)) == closed_total(s) + rec.elapsed_seconds->0,
{
    assert(s.push(rec).drop_last() =~= s);
}

} // verus!
