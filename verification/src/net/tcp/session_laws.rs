//! What holds of a session as a whole: its messages, its reader, its writer and its receiver.

use vstd::prelude::*;
use crate::net::tcp::frame_laws::{frames_of_packets, law_frames_ignore_packet_boundaries};
use crate::net::tcp::frame_reader::all_frames;
use crate::net::tcp::line_laws::{law_lines_ignore_packet_boundaries, lines_of_packets};
use crate::net::tcp::line_reader::{all_lines, line_end, past_crlf};
use crate::net::tcp::session::{after_cast, child_of, is_reader_step, passed_to_writer};
use crate::net::tcp::session::{shutdown_steps, stop_after_write, writer_step};
use crate::net::tcp::session::{ActorId, AfterCast, Child, Packet, ReaderStep, SessionStep};
use crate::net::tcp::session::{SessionWriterMessage, StopReason, SupervisionEvent};
use crate::net::tcp::session::{TcpSessionMessage, TcpSessionState, WriterStep, READ_SIZE};

verus! {

/// A read, and whether the session can be told of it: the bytes that the read brings, of which
/// there are none at the end of the stream, or nothing at all if it fails.
pub struct ReadEvent {
    pub read: Option<Seq<u8>>,
    pub cast_ok: bool,
}

/// The packets that reach the session from its reader.
pub open spec fn packets_read(events: Seq<ReadEvent>) -> Seq<Seq<u8>>
    decreases events.len(),
{
    if events.len() == 0 {
        seq![]
    } else {
        match events[0].read {
            Some(bytes) => if bytes.len() > 0 && events[0].cast_ok {
                seq![bytes] + packets_read(events.drop_first())
            } else {
                seq![]
            },
            None => seq![],
        }
    }
}

/// A reader passes packets on one read after the other, and none once it has stopped or once a
/// packet could not be passed on.
pub proof fn law_reader_passes_packets_on<E>(
    events: Seq<ReadEvent>,
    step: ReaderStep,
    result: Result<(), E>,
)
    requires
        events.len() > 0,
        is_reader_step(events[0].read, step),
        events[0].cast_ok == (result is Ok),
    ensures
        packets_read(events) == (match step {
            ReaderStep::Cast(TcpSessionMessage::PacketReady(packet)) => if after_cast(
                result,
            ) is ReadAgain {
                seq![packet@] + packets_read(events.drop_first())
            } else {
                seq![]
            },
            _ => seq![],
        }),
{
}

/// A reader loses nothing: what it reads before it ends, be it with the end of the stream, with a
/// failed read or because the session is gone, reaches the session in order and cut as it was
/// read. After that nothing does.
pub proof fn law_reader_loses_nothing(
    chunks: Seq<Seq<u8>>,
    end: ReadEvent,
    later: Seq<ReadEvent>,
)
    requires
        forall|i: int| 0 <= i < chunks.len() ==> (#[trigger] chunks[i]).len() > 0,
        end.cast_ok ==> (end.read matches Some(bytes) ==> bytes.len() == 0),
    ensures
        packets_read(
            chunks.map_values(|chunk: Seq<u8>| ReadEvent { read: Some(chunk), cast_ok: true })
                + seq![end] + later,
        ) == chunks,
    decreases chunks.len(),
{
    let wrap = |chunk: Seq<u8>| ReadEvent { read: Some(chunk), cast_ok: true };
    let events = chunks.map_values(wrap) + seq![end] + later;
    if chunks.len() == 0 {
        assert(events[0] == end);
        assert(packets_read(events) =~= chunks);
    } else {
        let rest = chunks.drop_first();
        assert forall|i: int| 0 <= i < rest.len() implies (#[trigger] rest[i]).len() > 0 by {
            assert(rest[i] == chunks[i + 1]);
        }
        law_reader_loses_nothing(rest, end, later);
        assert(chunks[0].len() > 0);
        assert(events[0] == wrap(chunks[0]));
        assert(events.drop_first() =~= rest.map_values(wrap) + seq![end] + later);
        assert(packets_read(events) =~= chunks);
    }
}

/// Whatever each read brings, the lines that a session hands on are the lines of the bytes that
/// its reader has passed on, put together.
pub proof fn law_session_hands_on_the_lines_of_its_stream(events: Seq<ReadEvent>)
    ensures
        ({
            let packets = packets_read(events);
            let handed_on = lines_of_packets(Seq::empty(), false, packets);
            let stream = all_lines(packets.flatten(), false);
            handed_on.lines == stream.lines && handed_on.bad == stream.bad
        }),
{
    let packets = packets_read(events);
    let none = Seq::<u8>::empty();
    if packets.len() > 0 {
        law_lines_ignore_packet_boundaries(none, false, packets);
        assert(none + packets.flatten() =~= packets.flatten());
    } else {
        assert(packets.flatten() =~= none);
        assert(past_crlf(none, false) == none);
        assert(line_end(none) == 0);
    }
}

/// Whatever each read brings, the frames that a session hands on are the frames of the bytes that
/// its reader has passed on, put together.
pub proof fn law_session_hands_on_the_frames_of_its_stream(events: Seq<ReadEvent>)
    ensures
        ({
            let packets = packets_read(events);
            frames_of_packets(Seq::empty(), None, packets).frames == all_frames(
                packets.flatten(),
                None,
            ).frames
        }),
{
    let packets = packets_read(events);
    let none = Seq::<u8>::empty();
    assert(none + packets.flatten() =~= packets.flatten());
    if packets.len() > 0 {
        law_frames_ignore_packet_boundaries(none, None, packets);
    } else {
        assert(packets.flatten() =~= none);
    }
}

/// A packet that a session is told to send is what its writer writes, all of it and nothing else,
/// as long as the writer has its half of the stream. After that nothing is written. A writer goes
/// on after a write that succeeds.
pub proof fn law_sent_packet_is_written(packet: Packet)
    ensures
        passed_to_writer(TcpSessionMessage::Send(packet)) == Some(
            SessionWriterMessage::Write(packet),
        ),
        writer_step(SessionWriterMessage::Write(packet), true) == WriterStep::WriteAll(packet),
        writer_step(SessionWriterMessage::Write(packet), false) == WriterStep::Wait,
        stop_after_write(true) is None,
{
}

/// A packet that has come in is never sent back out.
pub proof fn law_received_packet_is_not_written(packet: Packet)
    ensures
        passed_to_writer(TcpSessionMessage::PacketReady(packet)) is None,
{
}

/// If the connection is gone, the session is torn down. At the end of the stream, and after a
/// failed read, the reader stops, and after a failed write the writer does. Either way the session
/// is told that a child has exited, and then stops all its children, and itself last.
pub proof fn law_closed_connection_ends_the_session(
    read: Option<Seq<u8>>,
    step: ReaderStep,
    child: ActorId,
)
    requires
        is_reader_step(read, step),
    ensures
        (read is None || read->0.len() == 0) <==> step == ReaderStep::Stop(
            StopReason::ChannelClosed,
        ),
        stop_after_write(false) == Some(StopReason::ChannelClosed),
        ({
            let steps = shutdown_steps(SupervisionEvent::ActorTerminated(child));
            &&& steps.len() == 2
            &&& steps[0] == SessionStep::StopChildrenAndWait(StopReason::SessionStopPanic)
            &&& steps[1] == SessionStep::Stop(StopReason::ChildPanic)
        }),
{
}

/// A child that fails and a child that exits are treated alike, whichever child it is. Nothing else
/// that a session is told of its children makes it do anything.
pub proof fn law_any_lost_child_ends_the_session(one: ActorId, other: ActorId)
    ensures
        shutdown_steps(SupervisionEvent::ActorFailed(one)) == shutdown_steps(
            SupervisionEvent::ActorTerminated(other),
        ),
        shutdown_steps(SupervisionEvent::ActorFailed(one)).last() == SessionStep::Stop(
            StopReason::ChildPanic,
        ),
        shutdown_steps(SupervisionEvent::Other).len() == 0,
{
}

/// An actor is taken for the reader exactly if it has the reader's identity, and otherwise for the
/// writer exactly if it has the writer's. Nothing else in the state counts.
pub proof fn law_children_are_told_by_identity<R, Addr>(
    state: TcpSessionState<R, Addr>,
    id: ActorId,
)
    ensures
        id == state.reader ==> child_of(state, id) == Child::Reader,
        id != state.reader && id == state.writer ==> child_of(state, id) == Child::Writer,
        id != state.reader && id != state.writer ==> child_of(state, id) == Child::Unknown,
{
}

/// Whatever went wrong, an error ends the reader with that error, and only an error does.
pub proof fn law_reader_ends_with_the_error<E>(result: Result<(), E>)
    ensures
        result matches Err(err) ==> after_cast(result) == AfterCast::Fail(err),
        result is Ok ==> after_cast(result) is ReadAgain,
{
}

/// What a read brings is passed on byte for byte, whatever the bytes and however many.
pub proof fn law_read_bytes_are_passed_on(bytes: Seq<u8>, step: ReaderStep)
    requires
        bytes.len() > 0,
        is_reader_step(Some(bytes), step),
    ensures
        step matches ReaderStep::Cast(message) && message matches TcpSessionMessage::PacketReady(
            packet,
        ) && packet@ == bytes,
{
}

/// The reader asks for eight kibibytes at a time.
pub proof fn law_reads_ask_for_eight_kibibytes()
    ensures
        READ_SIZE == 8 * 1024,
{
}

} // verus!
