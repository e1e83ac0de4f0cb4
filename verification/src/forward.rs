//! Socket forwarding for herdr agent state, host side and container side.
//!
//! A container cannot reach the host's herdr socket directly: Docker Desktop's file
//! sharing does not carry unix sockets across the VM boundary. Two hops bridge it
//! instead, and they are mirror images of each other:
//!
//! ```text
//! container:  $HOME/.herdr/herdr.sock  ->  host.docker.internal:47100   (relay)
//! host:       127.0.0.1:47100          ->  ~/.config/herdr/herdr.sock   (bridge)
//! ```

use vstd::prelude::*;

use crate::settings;
use crate::settings::{Environment, non_empty_or};

verus! {

/// Where the relay listens inside the container, and where the bridge finds herdr on the
/// host: "the herdr socket as seen from here", either way.
pub fn socket_path(env: &Environment, fallback: &str) -> (r: String)
    ensures
        r@ == non_empty_or(env.socket_path.deep_view(), fallback@),
{
    settings::owned_non_empty_or(&env.socket_path, fallback)
}

/// Where copying one direction of a connection stands, and so what to do next.
#[derive(Debug, Clone, Copy, PartialEq)]
pub enum PumpStep {
    /// Read into the buffer.
    Reading,
    /// Write the first `len` bytes of the buffer, all of them.
    Writing { len: usize },
    /// Close the write half of the destination, so the peer sees the end while it is
    /// still able to reply. Nothing follows.
    HalfClosing,
}

/// What came of a step.
#[derive(Debug, Clone, Copy, PartialEq)]
pub enum PumpEvent {
    /// So many bytes were read; none at the end of the stream.
    Read { len: usize },
    /// The read was interrupted before it read anything.
    Interrupted,
    ReadFailed,
    Written,
    WriteFailed,
}

/// The step that follows `step` when `event` came of it. An event that is not the
/// outcome of the step changes nothing.
pub open spec fn next_pump_step(step: PumpStep, event: PumpEvent) -> PumpStep {
    match (step, event) {
        (PumpStep::Reading, PumpEvent::Read { len }) => if len == 0 {
            PumpStep::HalfClosing
        } else {
            PumpStep::Writing { len }
        },
        (PumpStep::Reading, PumpEvent::ReadFailed) => PumpStep::HalfClosing,
        (PumpStep::Writing { .. }, PumpEvent::Written) => PumpStep::Reading,
        (PumpStep::Writing { .. }, PumpEvent::WriteFailed) => PumpStep::HalfClosing,
        (step, _) => step,
    }
}

/// Copy a source into a destination until its end, then half-close the destination so
/// the peer sees it.
///
/// The half-close matters: the hook sends one request, then blocks reading herdr's
/// reply. Without it propagating in each direction, both ends wait on a connection
/// neither will close.
pub fn pump(step: PumpStep, event: PumpEvent) -> (r: PumpStep)
    ensures
        r == next_pump_step(step, event),
{
    match (step, event) {
        (PumpStep::Reading, PumpEvent::Read { len }) => {
            if len == 0 {
                PumpStep::HalfClosing
            } else {
                PumpStep::Writing { len }
            }
        },
        (PumpStep::Reading, PumpEvent::ReadFailed) => PumpStep::HalfClosing,
        (PumpStep::Writing { .. }, PumpEvent::Written) => PumpStep::Reading,
        (PumpStep::Writing { .. }, PumpEvent::WriteFailed) => PumpStep::HalfClosing,
        (step, _) => step,
    }
}

/// Where `step` leads when `events` come one after the other.
pub open spec fn pump_run(step: PumpStep, events: Seq<PumpEvent>) -> PumpStep
    decreases events.len(),
{
    if events.len() == 0 {
        step
    } else {
        next_pump_step(pump_run(step, events.drop_last()), events.last())
    }
}

/// How many bytes are read along the way.
pub open spec fn bytes_read(step: PumpStep, events: Seq<PumpEvent>) -> nat
    decreases events.len(),
{
    if events.len() == 0 {
        0
    } else {
        let before = bytes_read(step, events.drop_last());
        match (pump_run(step, events.drop_last()), events.last()) {
            (PumpStep::Reading, PumpEvent::Read { len }) => before + len as nat,
            _ => before,
        }
    }
}

/// How many bytes are written along the way.
pub open spec fn bytes_written(step: PumpStep, events: Seq<PumpEvent>) -> nat
    decreases events.len(),
{
    if events.len() == 0 {
        0
    } else {
        let before = bytes_written(step, events.drop_last());
        match (pump_run(step, events.drop_last()), events.last()) {
            (PumpStep::Writing { len }, PumpEvent::Written) => before + len as nat,
            _ => before,
        }
    }
}

/// Whether a write fails along the way.
pub open spec fn write_fails(step: PumpStep, events: Seq<PumpEvent>) -> bool
    decreases events.len(),
{
    events.len() > 0 && (write_fails(step, events.drop_last()) || (pump_run(
        step,
        events.drop_last(),
    ) is Writing && events.last() is WriteFailed))
}

/// Everything that is read is written before the next read and before the half-close,
/// unless a write fails; nothing else is written.
pub proof fn law_nothing_is_lost(events: Seq<PumpEvent>)
    ensures
        !write_fails(PumpStep::Reading, events) ==> bytes_read(PumpStep::Reading, events)
            == bytes_written(PumpStep::Reading, events) + (match pump_run(
            PumpStep::Reading,
            events,
        ) {
            PumpStep::Writing { len } => len as nat,
            _ => 0,
        }),
    decreases events.len(),
{
    if events.len() > 0 {
        law_nothing_is_lost(events.drop_last());
    }
}

/// Whether `chunks` tells what each of `events` read: as many bytes as it says.
pub open spec fn chunks_fit(events: Seq<PumpEvent>, chunks: Seq<Seq<u8>>) -> bool {
    &&& chunks.len() == events.len()
    &&& forall|i: int|
        0 <= i < events.len() ==> ((#[trigger] events[i]) matches PumpEvent::Read { len }
            ==> chunks[i].len() == len)
}

/// What is read along the way, from the start.
pub open spec fn content_read(events: Seq<PumpEvent>, chunks: Seq<Seq<u8>>) -> Seq<u8>
    decreases events.len(),
{
    if events.len() == 0 {
        seq![]
    } else {
        let before = content_read(events.drop_last(), chunks.drop_last());
        match (pump_run(PumpStep::Reading, events.drop_last()), events.last()) {
            (PumpStep::Reading, PumpEvent::Read { .. }) => before + chunks.last(),
            _ => before,
        }
    }
}

/// What was read last, and so stands in the buffer.
pub open spec fn buffered(events: Seq<PumpEvent>, chunks: Seq<Seq<u8>>) -> Seq<u8>
    decreases events.len(),
{
    if events.len() == 0 {
        seq![]
    } else {
        match (pump_run(PumpStep::Reading, events.drop_last()), events.last()) {
            (PumpStep::Reading, PumpEvent::Read { .. }) => chunks.last(),
            _ => buffered(events.drop_last(), chunks.drop_last()),
        }
    }
}

/// What is written along the way, from the start: each time as much of the buffer as the
/// step says.
pub open spec fn content_written(events: Seq<PumpEvent>, chunks: Seq<Seq<u8>>) -> Seq<u8>
    decreases events.len(),
{
    if events.len() == 0 {
        seq![]
    } else {
        let before = content_written(events.drop_last(), chunks.drop_last());
        match (pump_run(PumpStep::Reading, events.drop_last()), events.last()) {
            (PumpStep::Writing { len }, PumpEvent::Written) => before + buffered(
                events.drop_last(),
                chunks.drop_last(),
            ).take(len as int),
            _ => before,
        }
    }
}

/// What is written is what was read, in order: all of it once the next read is due, all
/// but the buffer while that is to be written, and a part from the start in any case.
pub proof fn law_what_is_read_is_written_in_order(events: Seq<PumpEvent>, chunks: Seq<Seq<u8>>)
    requires
        chunks_fit(events, chunks),
    ensures
        content_written(events, chunks).is_prefix_of(content_read(events, chunks)),
        match pump_run(PumpStep::Reading, events) {
            PumpStep::Reading => content_written(events, chunks) == content_read(events, chunks),
            PumpStep::Writing { len } => {
                &&& buffered(events, chunks).len() == len
                &&& content_written(events, chunks) + buffered(events, chunks) == content_read(
                    events,
                    chunks,
                )
            },
            PumpStep::HalfClosing => !write_fails(PumpStep::Reading, events)
                ==> content_written(events, chunks) == content_read(events, chunks),
        },
    decreases events.len(),
{
    if events.len() > 0 {
        let before = events.drop_last();
        let parts = chunks.drop_last();
        assert forall|i: int| 0 <= i < before.len() implies ((#[trigger] before[i]) matches
            PumpEvent::Read { len } ==> parts[i].len() == len) by {
            assert(before[i] == events[i]);
        }
        law_what_is_read_is_written_in_order(before, parts);
        assert(events[events.len() - 1] == events.last());
        assert(buffered(before, parts).take(buffered(before, parts).len() as int) =~= buffered(
            before,
            parts,
        ));
        assert(content_read(before, parts) + Seq::<u8>::empty() =~= content_read(before, parts));
        if events.last() == (PumpEvent::Read { len: 0 }) {
            assert(chunks.last() =~= Seq::<u8>::empty());
        }
    }
}

/// The destination is half-closed at the end of the stream, on a failed read and on a
/// failed write, and on nothing else: an interrupted read is tried again.
pub proof fn law_half_close_ends_the_pump(step: PumpStep, event: PumpEvent)
    ensures
        step is HalfClosing ==> next_pump_step(step, event) is HalfClosing,
        !(step is HalfClosing) ==> (next_pump_step(step, event) is HalfClosing <==> (match step {
            PumpStep::Reading => event == (PumpEvent::Read { len: 0 }) || event is ReadFailed,
            _ => event is WriteFailed,
        })),
        step is Reading && event is Interrupted ==> next_pump_step(step, event) is Reading,
{
}

/// What is read is written next, as many bytes as were read, and after it is written comes
/// the next read. What is not the outcome of a step does not end it.
pub proof fn law_reads_and_writes_take_turns(step: PumpStep, event: PumpEvent, len: usize)
    ensures
        len > 0 ==> next_pump_step(PumpStep::Reading, PumpEvent::Read { len })
            == (PumpStep::Writing { len }),
        next_pump_step(PumpStep::Writing { len }, PumpEvent::Written) == PumpStep::Reading,
        step is Reading && (event is Interrupted || event is Written || event is WriteFailed)
            ==> next_pump_step(step, event) == step,
        step is Writing && (event is Read || event is Interrupted || event is ReadFailed)
            ==> next_pump_step(step, event) == step,
{
}

} // verus!
