//! Decision logic of the backpressure-coupled transport pipeline.
//!
//! Two execution contexts run per archive: a producing side that drives the
//! encoder and pushes chunks into a bounded conduit, and a consuming side
//! that drains the conduit into the destination. The conduit's capacity is
//! the sole flow control: a full conduit suspends the producer. The loops
//! that perform the sends, receives and destination writes live outside the
//! library; each outcome is handed back here, and these step functions
//! decide -- verifiably -- what happens next.

use vstd::prelude::*;

use crate::errors::EncodeError;

verus! {

/// One value carried by the conduit: a chunk of archive bytes, or the
/// producing side's single, final failure report.
pub enum ConduitMessage {
    Chunk(Vec<u8>),
    Failure(EncodeError),
}

/// The producing side's standing.
#[derive(Debug, Clone, Copy, PartialEq, Eq, Structural)]
pub enum ProducerState {
    /// Still encoding entries and sending chunks.
    Producing,
    /// Every entry (and the directory and terminator) has been sent.
    Completed,
    /// Aborted: no further chunk may be issued.
    Stopped(EncodeError),
}

/// What the outside loop reports to the producing side.
pub enum ProducerEvent {
    /// The encoder handed out more bytes to deliver.
    ChunkReady(Vec<u8>),
    /// The last send was accepted by the conduit.
    SendOk,
    /// The conduit refused the send: the consuming side dropped its end.
    SendFailed,
    /// Reading or encoding a source failed.
    SourceFailed(EncodeError),
    /// All entries, the directory and the terminator have been emitted.
    EntriesDone,
}

/// What the producing side asks the outside loop to do next.
pub enum ProducerAction {
    /// Push this message into the conduit (suspending while it is full).
    Send(ConduitMessage),
    /// Go on encoding: nothing to deliver right now.
    Continue,
    /// Drop the producing end, signalling end of stream.
    CloseConduit,
}

/// The consuming side's standing.
#[derive(Debug, Clone, Copy, PartialEq, Eq, Structural)]
pub enum ConsumerState {
    /// Still draining the conduit into the destination.
    Draining,
    /// The conduit closed after a clean stream: the destination is complete.
    Done,
    /// Aborted: nothing further is written.
    Failed(EncodeError),
}

/// What the outside loop reports to the consuming side.
pub enum ConsumerEvent {
    /// The next conduit message arrived.
    Received(ConduitMessage),
    /// The conduit closed: the producing side is gone.
    Closed,
    /// The last destination write succeeded.
    WriteOk,
    /// The destination rejected the last write.
    WriteFailed,
}

/// What the consuming side asks the outside loop to do next.
pub enum ConsumerAction {
    /// Write these bytes to the destination, then report the outcome.
    Write(Vec<u8>),
    /// Wait for the next conduit message.
    Receive,
    /// Flush and close the destination: the stream is complete.
    Finish,
    /// Stop: drop the consuming end of the conduit and report this error.
    Abort(EncodeError),
}

/// The producing side's whole decision table.
pub open spec fn spec_producer_step(state: ProducerState, event: ProducerEvent) -> (
    ProducerState,
    ProducerAction,
) {
    match state {
        ProducerState::Producing => match event {
            ProducerEvent::ChunkReady(bytes) => (
                ProducerState::Producing,
                ProducerAction::Send(ConduitMessage::Chunk(bytes)),
            ),
            ProducerEvent::SendOk => (ProducerState::Producing, ProducerAction::Continue),
            ProducerEvent::SendFailed => (
                ProducerState::Stopped(EncodeError::ChannelClosed),
                ProducerAction::CloseConduit,
            ),
            ProducerEvent::SourceFailed(e) => (
                ProducerState::Stopped(e),
                ProducerAction::Send(ConduitMessage::Failure(e)),
            ),
            ProducerEvent::EntriesDone => (
                ProducerState::Completed,
                ProducerAction::CloseConduit,
            ),
        },
        ProducerState::Completed => (ProducerState::Completed, ProducerAction::CloseConduit),
        ProducerState::Stopped(e) => (ProducerState::Stopped(e), ProducerAction::CloseConduit),
    }
}

/// Decides the producing side's next step.
pub fn producer_step(state: ProducerState, event: ProducerEvent) -> (r: (
    ProducerState,
    ProducerAction,
))
    ensures
        r == spec_producer_step(state, event),
{
    match state {
        ProducerState::Producing => match event {
            ProducerEvent::ChunkReady(bytes) => (
                ProducerState::Producing,
                ProducerAction::Send(ConduitMessage::Chunk(bytes)),
            ),
            ProducerEvent::SendOk => (ProducerState::Producing, ProducerAction::Continue),
            ProducerEvent::SendFailed => (
                ProducerState::Stopped(EncodeError::ChannelClosed),
                ProducerAction::CloseConduit,
            ),
            ProducerEvent::SourceFailed(e) => (
                ProducerState::Stopped(e),
                ProducerAction::Send(ConduitMessage::Failure(e)),
            ),
            ProducerEvent::EntriesDone => (
                ProducerState::Completed,
                ProducerAction::CloseConduit,
            ),
        },
        ProducerState::Completed => (ProducerState::Completed, ProducerAction::CloseConduit),
        ProducerState::Stopped(e) => (ProducerState::Stopped(e), ProducerAction::CloseConduit),
    }
}

/// The consuming side's whole decision table.
pub open spec fn spec_consumer_step(state: ConsumerState, event: ConsumerEvent) -> (
    ConsumerState,
    ConsumerAction,
) {
    match state {
        ConsumerState::Draining => match event {
            ConsumerEvent::Received(ConduitMessage::Chunk(bytes)) => (
                ConsumerState::Draining,
                ConsumerAction::Write(bytes),
            ),
            ConsumerEvent::Received(ConduitMessage::Failure(e)) => (
                ConsumerState::Failed(e),
                ConsumerAction::Abort(e),
            ),
            ConsumerEvent::Closed => (ConsumerState::Done, ConsumerAction::Finish),
            ConsumerEvent::WriteOk => (ConsumerState::Draining, ConsumerAction::Receive),
            ConsumerEvent::WriteFailed => (
                ConsumerState::Failed(EncodeError::SinkWriteError),
                ConsumerAction::Abort(EncodeError::SinkWriteError),
            ),
        },
        ConsumerState::Done => (ConsumerState::Done, ConsumerAction::Finish),
        ConsumerState::Failed(e) => (ConsumerState::Failed(e), ConsumerAction::Abort(e)),
    }
}

/// Decides the consuming side's next step.
pub fn consumer_step(state: ConsumerState, event: ConsumerEvent) -> (r: (
    ConsumerState,
    ConsumerAction,
))
    ensures
        r == spec_consumer_step(state, event),
{
    match state {
        ConsumerState::Draining => match event {
            ConsumerEvent::Received(ConduitMessage::Chunk(bytes)) => (
                ConsumerState::Draining,
                ConsumerAction::Write(bytes),
            ),
            ConsumerEvent::Received(ConduitMessage::Failure(e)) => (
                ConsumerState::Failed(e),
                ConsumerAction::Abort(e),
            ),
            ConsumerEvent::Closed => (ConsumerState::Done, ConsumerAction::Finish),
            ConsumerEvent::WriteOk => (ConsumerState::Draining, ConsumerAction::Receive),
            ConsumerEvent::WriteFailed => (
                ConsumerState::Failed(EncodeError::SinkWriteError),
                ConsumerAction::Abort(EncodeError::SinkWriteError),
            ),
        },
        ConsumerState::Done => (ConsumerState::Done, ConsumerAction::Finish),
        ConsumerState::Failed(e) => (ConsumerState::Failed(e), ConsumerAction::Abort(e)),
    }
}

/// A destination write failure is terminal: the step reports
/// `SinkWriteError`, and from a failed state no event can ever lead to
/// another `Write` -- nothing (no further chunk, no directory, no
/// terminator) reaches the destination after the failure point.
pub proof fn lemma_write_failure_terminal(event: ConsumerEvent)
    ensures
        spec_consumer_step(ConsumerState::Draining, ConsumerEvent::WriteFailed).0
            == ConsumerState::Failed(EncodeError::SinkWriteError),
        spec_consumer_step(ConsumerState::Draining, ConsumerEvent::WriteFailed).1 matches
            ConsumerAction::Abort(e) && e == EncodeError::SinkWriteError,
        forall|e: EncodeError, ev: ConsumerEvent|
            spec_consumer_step(ConsumerState::Failed(e), ev).0 == ConsumerState::Failed(e),
        forall|e: EncodeError, ev: ConsumerEvent|
            !(spec_consumer_step(ConsumerState::Failed(e), ev).1 is Write),
        !(spec_consumer_step(ConsumerState::Draining, event).1 is Write) || event matches
            ConsumerEvent::Received(ConduitMessage::Chunk(_)),
{
}

/// Once the producing side has stopped -- after a refused send or a source
/// failure -- no event makes it send another chunk, and its state never
/// leaves `Stopped`. A refused send is reported as `ChannelClosed`.
pub proof fn lemma_producer_stop_terminal()
    ensures
        spec_producer_step(ProducerState::Producing, ProducerEvent::SendFailed).0
            == ProducerState::Stopped(EncodeError::ChannelClosed),
        forall|e: EncodeError, ev: ProducerEvent|
            spec_producer_step(ProducerState::Stopped(e), ev).0 == ProducerState::Stopped(e),
        forall|e: EncodeError, ev: ProducerEvent|
            !(spec_producer_step(ProducerState::Stopped(e), ev).1 is Send),
{
}

/// The single terminal result of a run: the first error observed wins (the
/// producing side is observed first), both sides clean means success, and no
/// error is ever dropped.
pub open spec fn spec_combine_results(
    producer: Result<(), EncodeError>,
    consumer: Result<(), EncodeError>,
) -> Result<(), EncodeError> {
    if producer is Err {
        producer
    } else {
        consumer
    }
}

/// Folds the two sides' outcomes into the one result reported to the caller.
pub fn combine_results(producer: Result<(), EncodeError>, consumer: Result<(), EncodeError>) -> (r:
    Result<(), EncodeError>)
    ensures
        r == spec_combine_results(producer, consumer),
        r is Ok <==> producer is Ok && consumer is Ok,
{
    match producer {
        Err(e) => Err(e),
        Ok(()) => consumer,
    }
}

} // verus!
