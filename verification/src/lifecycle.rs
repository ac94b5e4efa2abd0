//! The life of one log entry as a consumer group sees it: unseen, then
//! pending from its first delivery until an acknowledgment is confirmed.
//! There is no failed state: an entry that cannot be read is acknowledged
//! like any other.

use vstd::prelude::*;

verus! {

/// Where an entry stands for a consumer group.
#[derive(Clone, Copy, Debug, PartialEq, Eq, Structural)]
pub enum EntryState {
    /// Appended, not yet handed to any consumer of the group.
    Unseen,
    /// Handed to a consumer and not yet acknowledged.
    Pending,
    /// Retired from the group's pending set.
    Acknowledged,
}

/// What can happen to an entry.
#[derive(Clone, Copy, Debug, PartialEq, Eq, Structural)]
pub enum EntryEvent {
    /// The log handed the entry to a consumer.
    Delivered,
    /// The log confirmed the acknowledgment.
    AckConfirmed,
    /// The acknowledgment did not reach the log.
    AckFailed,
    /// The consumer that held the entry went away without acknowledging.
    ConsumerLost,
}

/// The state after one event. Only a delivery moves an unseen entry, only a
/// confirmed acknowledgment moves a pending one, nothing moves an
/// acknowledged one.
pub open spec fn step(state: EntryState, event: EntryEvent) -> EntryState {
    match (state, event) {
        (EntryState::Unseen, EntryEvent::Delivered) => EntryState::Pending,
        (EntryState::Pending, EntryEvent::AckConfirmed) => EntryState::Acknowledged,
        _ => state,
    }
}

/// The state after a run of events.
pub open spec fn run(state: EntryState, events: Seq<EntryEvent>) -> EntryState
    decreases events.len(),
{
    if events.len() == 0 {
        state
    } else {
        step(run(state, events.drop_last()), events.last())
    }
}

/// Whether the log may hand the entry to a consumer of the group.
pub open spec fn deliverable(state: EntryState) -> bool {
    state != EntryState::Acknowledged
}

/// The state after one event.
pub fn next_state(state: EntryState, event: EntryEvent) -> (next: EntryState)
    ensures
        next == step(state, event),
{
    match state {
        EntryState::Unseen => match event {
            EntryEvent::Delivered => EntryState::Pending,
            _ => EntryState::Unseen,
        },
        EntryState::Pending => match event {
            EntryEvent::AckConfirmed => EntryState::Acknowledged,
            _ => EntryState::Pending,
        },
        EntryState::Acknowledged => EntryState::Acknowledged,
    }
}

/// Whether the log may hand the entry to a consumer of the group.
pub fn may_be_delivered(state: EntryState) -> (r: bool)
    ensures
        r == deliverable(state),
{
    match state {
        EntryState::Acknowledged => false,
        _ => true,
    }
}

/// An acknowledged entry stays acknowledged whatever happens, so it is never
/// delivered again to any consumer of the group.
pub proof fn lemma_acknowledged_is_final(events: Seq<EntryEvent>)
    ensures
        run(EntryState::Acknowledged, events) == EntryState::Acknowledged,
        !deliverable(run(EntryState::Acknowledged, events)),
    decreases events.len(),
{
    if events.len() > 0 {
        lemma_acknowledged_is_final(events.drop_last());
    }
}

/// A delivered entry stays pending, and so open to redelivery, until an
/// acknowledgment is confirmed: lost consumers and failed acknowledgments
/// do not retire it.
pub proof fn lemma_pending_until_confirmed(events: Seq<EntryEvent>)
    requires
        forall|i: int| 0 <= i < events.len() ==> events[i] != EntryEvent::AckConfirmed,
    ensures
        run(EntryState::Pending, events) == EntryState::Pending,
        deliverable(run(EntryState::Pending, events)),
    decreases events.len(),
{
    if events.len() > 0 {
        lemma_pending_until_confirmed(events.drop_last());
    }
}

} // verus!
