//! The retrieval side: what a consumer does with the outcome of group setup,
//! of a poll, and with every entry that the log hands out.

use crate::admission::{payload_field, payload_field_name};
use crate::request::{InternalRequest, RequestView};
use crate::roundtrip::lemma_decode_encode;
use crate::wire::{decode, decode_spec, encode_spec, fits_wire, DecodeError};
use vstd::prelude::*;

verus! {

/// How long to wait after a poll that found nothing, in milliseconds.
pub const EMPTY_BACKOFF_MILLIS: u64 = 500;

/// How long to wait after a poll that failed, in milliseconds.
pub const ERROR_BACKOFF_MILLIS: u64 = 1000;

/// How many entries one poll asks for.
pub const POLL_COUNT: usize = 1;

/// One named field of a log entry.
#[derive(Clone, Debug, PartialEq, Eq)]
pub struct EntryField {
    pub name: String,
    pub value: Vec<u8>,
}

/// An entry as the log hands it out: the identifier that the log gave it and
/// its fields.
#[derive(Clone, Debug, PartialEq, Eq)]
pub struct LogEntry {
    pub entry_id: String,
    pub fields: Vec<EntryField>,
}

/// The mathematical content of a log entry.
pub ghost struct EntryView {
    pub entry_id: Seq<char>,
    pub fields: Seq<(Seq<char>, Seq<u8>)>,
}

impl View for LogEntry {
    type V = EntryView;

    open spec fn view(&self) -> EntryView {
        EntryView {
            entry_id: self.entry_id@,
            fields: Seq::new(
                self.fields@.len(),
                |i: int| (self.fields@[i].name@, self.fields@[i].value@),
            ),
        }
    }
}

/// What is done with one entry: the request it held, or the fact that it
/// held none that could be read, and the identifier to acknowledge. Every
/// entry that is handled is acknowledged, readable or not.
#[derive(Debug, PartialEq, Eq)]
pub struct Handling {
    pub acknowledge: String,
    pub decoded: Result<InternalRequest, DecodeError>,
}

/// The mathematical content of a handling.
pub ghost struct HandlingView {
    pub acknowledge: Seq<char>,
    pub decoded: Option<RequestView>,
}

impl View for Handling {
    type V = HandlingView;

    open spec fn view(&self) -> HandlingView {
        HandlingView {
            acknowledge: self.acknowledge@,
            decoded: match self.decoded {
                Ok(r) => Some(r@),
                Err(_) => None,
            },
        }
    }
}

/// The views of a batch of entries.
pub open spec fn batch_view(entries: Seq<LogEntry>) -> Seq<EntryView> {
    Seq::new(entries.len(), |i: int| entries[i]@)
}

/// The views of a list of handlings.
pub open spec fn plan_view(plan: Seq<Handling>) -> Seq<HandlingView> {
    Seq::new(plan.len(), |i: int| plan[i]@)
}

/// The value of the field named "payload"; of several, the last.
pub open spec fn find_payload(fields: Seq<(Seq<char>, Seq<u8>)>) -> Option<Seq<u8>>
    decreases fields.len(),
{
    if fields.len() == 0 {
        None
    } else if fields.last().0 == payload_field_name() {
        Some(fields.last().1)
    } else {
        find_payload(fields.drop_last())
    }
}

/// The handling of an entry with the identifier `entry_id` and the payload
/// `payload`: what the payload decodes to, and the entry acknowledged.
pub open spec fn handling_of(entry_id: Seq<char>, payload: Seq<u8>) -> HandlingView {
    HandlingView { acknowledge: entry_id, decoded: decode_spec(payload) }
}

/// The handlings of a batch: one for each entry that has a payload field, in
/// the order of the entries. An entry without that field is passed over and
/// stays pending.
pub open spec fn plan_spec(entries: Seq<EntryView>) -> Seq<HandlingView>
    decreases entries.len(),
{
    if entries.len() == 0 {
        Seq::empty()
    } else {
        let rest = plan_spec(entries.drop_last());
        let e = entries.last();
        match find_payload(e.fields) {
            Some(p) => rest.push(handling_of(e.entry_id, p)),
            None => rest,
        }
    }
}

/// The payload field of `entry`, if it has one.
pub fn payload_of(entry: &LogEntry) -> (r: Option<&Vec<u8>>)
    ensures
        match find_payload(entry@.fields) {
            Some(p) => r matches Some(v) && v@ == p,
            None => r is None,
        },
{
    let name: String = payload_field();
    let ghost fields = entry@.fields;
    let mut i: usize = entry.fields.len();
    assert(fields.take(i as int) =~= fields);
    while i > 0
        invariant
            i <= entry.fields@.len(),
            fields == entry@.fields,
            fields.len() == entry.fields@.len(),
            name@ == payload_field_name(),
            find_payload(fields) == find_payload(fields.take(i as int)),
        decreases i,
    {
        let ghost cur = fields.take(i as int);
        assert(cur.last() == fields[i - 1]);
        assert(cur.drop_last() =~= fields.take(i - 1));
        i -= 1;
        if entry.fields[i].name == name {
            return Some(&entry.fields[i].value);
        }
    }
    None
}

/// Handles one entry: reads the request from its payload and acknowledges
/// the entry whether or not that worked, so that an unreadable entry never
/// holds up the group.
pub fn process_message(message_id: String, payload_bytes: &[u8]) -> (h: Handling)
    ensures
        h@ == handling_of(message_id@, payload_bytes@),
        h.decoded matches Ok(r) ==> r.wf(),
{
    let decoded = decode(payload_bytes);
    Handling { acknowledge: message_id, decoded }
}

/// Handles a batch of entries, each on its own.
pub fn plan_batch(entries: &Vec<LogEntry>) -> (plan: Vec<Handling>)
    ensures
        plan_view(plan@) == plan_spec(batch_view(entries@)),
        forall|i: int|
            0 <= i < plan@.len() ==> ((#[trigger] plan@[i]).decoded matches Ok(r) ==> r.wf()),
{
    let mut plan: Vec<Handling> = Vec::new();
    let ghost all = batch_view(entries@);
    let mut i: usize = 0;
    assert(plan_view(plan@) =~= plan_spec(all.take(0)));
    while i < entries.len()
        invariant
            i <= entries@.len(),
            all == batch_view(entries@),
            plan_view(plan@) == plan_spec(all.take(i as int)),
            forall|j: int|
                0 <= j < plan@.len() ==> ((#[trigger] plan@[j]).decoded matches Ok(r) ==> r.wf()),
        decreases entries.len() - i,
    {
        let entry = &entries[i];
        let ghost before = plan@;
        proof {
            let t = all.take(i + 1);
            assert(t.drop_last() =~= all.take(i as int));
            assert(t.last() == entry@);
        }
        match payload_of(entry) {
            Some(p) => {
                let h = process_message(entry.entry_id.clone(), p.as_slice());
                plan.push(h);
                assert(plan_view(plan@) =~= plan_view(before).push(h@));
            },
            None => {},
        }
        i += 1;
    }
    assert(all.take(i as int) =~= all);
    plan
}

/// How a poll of the log ended.
#[derive(Clone, Debug, PartialEq, Eq)]
pub enum PollOutcome {
    /// The log could not be read.
    Failed,
    /// The log answered with these entries, possibly none.
    Entries(Vec<LogEntry>),
}

/// What the consumer does next.
#[derive(Debug, PartialEq, Eq)]
pub enum NextStep {
    /// Wait this many milliseconds, then poll again.
    Backoff { millis: u64 },
    /// Report and acknowledge each of these, then poll again.
    Handle(Vec<Handling>),
}

/// Decides what follows a poll: a failed poll and an empty one are waited
/// out, each with its own delay, and never end the loop; entries are
/// handled.
pub fn on_poll(outcome: PollOutcome) -> (next: NextStep)
    ensures
        match outcome {
            PollOutcome::Failed => next == (NextStep::Backoff { millis: ERROR_BACKOFF_MILLIS }),
            PollOutcome::Entries(entries) => if entries@.len() == 0 {
                next == (NextStep::Backoff { millis: EMPTY_BACKOFF_MILLIS })
            } else {
                next matches NextStep::Handle(plan) && plan_view(plan@) == plan_spec(
                    batch_view(entries@),
                )
            },
        },
{
    match outcome {
        PollOutcome::Failed => NextStep::Backoff { millis: ERROR_BACKOFF_MILLIS },
        PollOutcome::Entries(entries) => {
            if entries.len() == 0 {
                NextStep::Backoff { millis: EMPTY_BACKOFF_MILLIS }
            } else {
                NextStep::Handle(plan_batch(&entries))
            }
        },
    }
}

/// The handlings of two batches, one after the other, are the handlings of
/// the first followed by those of the second.
pub proof fn lemma_plan_concat(a: Seq<EntryView>, b: Seq<EntryView>)
    ensures
        plan_spec(a + b) == plan_spec(a) + plan_spec(b),
    decreases b.len(),
{
    if b.len() == 0 {
        assert(a + b =~= a);
        assert(plan_spec(a) + plan_spec(b) =~= plan_spec(a));
    } else {
        lemma_plan_concat(a, b.drop_last());
        assert((a + b).drop_last() =~= a + b.drop_last());
        assert((a + b).last() == b.last());
        let rest = plan_spec(a) + plan_spec(b.drop_last());
        match find_payload(b.last().fields) {
            Some(p) => {
                let h = handling_of(b.last().entry_id, p);
                assert(rest.push(h) =~= plan_spec(a) + plan_spec(b.drop_last()).push(h));
            },
            None => {},
        }
    }
}

/// An entry whose payload cannot be read is acknowledged like any other, and
/// the entries before and after it are handled as if it were not there.
pub proof fn lemma_poison_is_acknowledged(
    before: Seq<EntryView>,
    poison: EntryView,
    after: Seq<EntryView>,
)
    requires
        find_payload(poison.fields) matches Some(p) && decode_spec(p) is None,
    ensures
        plan_spec(before + seq![poison] + after) == plan_spec(before) + seq![
            HandlingView { acknowledge: poison.entry_id, decoded: None },
        ] + plan_spec(after),
{
    lemma_plan_concat(before + seq![poison], after);
    lemma_plan_concat(before, seq![poison]);
    let one = seq![poison];
    assert(one.drop_last() =~= Seq::<EntryView>::empty());
    assert(one.last() == poison);
    assert(plan_spec(one.drop_last()) =~= Seq::<HandlingView>::empty());
    let p = find_payload(poison.fields).unwrap();
    assert(handling_of(poison.entry_id, p) == HandlingView {
        acknowledge: poison.entry_id,
        decoded: None,
    });
    assert(plan_spec(seq![poison]) =~= seq![
        HandlingView { acknowledge: poison.entry_id, decoded: None },
    ]);
}

/// What the admission side appends, the retrieval side reads back: an entry
/// whose payload field holds the bytes of a request is handled by
/// acknowledging it and handing out that request, field for field.
pub proof fn lemma_submitted_request_is_retrieved(r: RequestView, entry_id: Seq<char>)
    requires
        r.wf(),
        fits_wire(r),
    ensures
        plan_spec(
            seq![EntryView { entry_id, fields: seq![(payload_field_name(), encode_spec(r))] }],
        ) == seq![HandlingView { acknowledge: entry_id, decoded: Some(r) }],
{
    lemma_decode_encode(r);
    let fields = seq![(payload_field_name(), encode_spec(r))];
    let e = EntryView { entry_id, fields };
    let one = seq![e];
    assert(fields.last() == (payload_field_name(), encode_spec(r)));
    assert(find_payload(fields) == Some(encode_spec(r)));
    assert(one.last() == e);
    assert(one.drop_last() =~= Seq::<EntryView>::empty());
    assert(plan_spec(one.drop_last()) =~= Seq::<HandlingView>::empty());
    assert(plan_spec(one) =~= seq![HandlingView { acknowledge: entry_id, decoded: Some(r) }]);
}

} // verus!
