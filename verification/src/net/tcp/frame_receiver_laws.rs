//! What a [`FrameReader`] does with the packets that it is given, said of the packets, of the
//! frames that it hands on and of the bytes that it keeps.

use vstd::prelude::*;
use crate::buffer::{capacity_limit, contents, law_be_value_round_trip};
use crate::net::tcp::frame_laws::{encode_frames, frames_of_packets, header_of, is_unfinished};
use crate::net::tcp::frame_laws::{law_frames_ignore_packet_boundaries, law_frames_keep_the_bytes};
use crate::net::tcp::frame_laws::{law_frames_of_a_cut_stream, law_frames_round_trip};
use crate::net::tcp::frame_laws::{law_header_round_trip, law_no_frame_is_left, with_header};
use crate::net::tcp::frame_reader::{all_frames, headers_fit, lemma_headers_fit, next_frame};
use crate::net::tcp::frame_reader::{FrameReader, FrameRun, FrameStep, HEADER_LEN};
use crate::net::tcp::session::{PacketReceiver, Received};

verus! {

/// Where a `usize` has as many bytes as a header, a packet is accepted whatever it holds, as long
/// as the bytes held and those of the packet take no more than a quarter of the largest allocation.
pub proof fn law_any_packet_that_fits_is_accepted(reader: FrameReader, packet: Seq<u8>)
    requires
        usize::MAX >= u64::MAX,
    ensures
        reader.accepts(packet) <==> 4 * (contents(reader.buf).len() + packet.len()) <= isize::MAX,
{
    lemma_headers_fit(contents(reader.buf) + packet, reader.len);
}

/// Frames are accepted on every machine: a packet that goes on with a stream of frames and an
/// unfinished one is accepted whatever its length and wherever it is cut, as long as the bytes
/// held and those of the packet take no more than a quarter of the largest allocation.
pub proof fn law_packet_of_frames_is_accepted(
    reader: FrameReader,
    packet: Seq<u8>,
    frames: Seq<Seq<u8>>,
    tail: Seq<u8>,
)
    requires
        with_header(contents(reader.buf), reader.len) + packet == encode_frames(frames) + tail,
        forall|i: int| 0 <= i < frames.len() ==> (#[trigger] frames[i]).len() <= usize::MAX,
        is_unfinished(tail),
        4 * (contents(reader.buf).len() + packet.len()) <= isize::MAX,
    ensures
        reader.accepts(packet),
{
    let buf = contents(reader.buf) + packet;
    let stream = encode_frames(frames) + tail;
    law_frames_round_trip(frames, tail);
    match reader.len {
        None => {},
        Some(n) => {
            law_header_round_trip(n as nat);
            assert(stream =~= header_of(n as nat) + buf);
            assert(stream.take(HEADER_LEN as int) =~= header_of(n as nat));
            assert(stream.skip(HEADER_LEN as int) =~= buf);
            assert(next_frame(stream, None) == (FrameStep {
                more: true,
                frame: None,
                buf,
                len: Some(n),
            }));
        },
    }
}

/// Nothing is lost, added, changed or moved: whatever the reader's state and whatever the packet,
/// the frames handed on, each behind its header, and then what is kept, are what was there and
/// what came. What is kept is less than a header, or less than the frame whose header was read. A
/// frame reader never fails.
pub proof fn law_received_frames_are_the_stream(
    before: FrameReader,
    packet: Seq<u8>,
    after: FrameReader,
    out: Received<Vec<u8>, ()>,
)
    requires
        before.accepts(packet),
        before.received(packet, &after, out),
    ensures
        with_header(contents(before.buf), before.len) + packet == encode_frames(
            out.items.deep_view(),
        ) + with_header(contents(after.buf), after.len),
        after.len is None ==> contents(after.buf).len() < HEADER_LEN,
        after.len matches Some(n) ==> contents(after.buf).len() < n,
        out.outcome is Ok,
{
    let buf = contents(before.buf) + packet;
    law_frames_keep_the_bytes(buf, before.len);
    law_no_frame_is_left(buf, before.len);
    assert(with_header(contents(before.buf), before.len) + packet =~= with_header(buf, before.len));
}

/// What is kept of an unfinished frame is that frame.
proof fn lemma_unfinished_is_kept(frames: Seq<Seq<u8>>, tail: Seq<u8>)
    requires
        forall|i: int| 0 <= i < frames.len() ==> (#[trigger] frames[i]).len() <= usize::MAX,
        is_unfinished(tail),
    ensures
        ({
            let run = all_frames(encode_frames(frames) + tail, None);
            run.frames == frames && with_header(run.buf, run.len) == tail
        }),
{
    law_frames_round_trip(frames, tail);
    if tail.len() >= HEADER_LEN {
        law_be_value_round_trip(tail.take(HEADER_LEN as int));
        assert(tail.take(HEADER_LEN as int) + tail.skip(HEADER_LEN as int) =~= tail);
    }
}

/// Reading gives back what was written: given frames, each behind its header, and part of another,
/// a reader that holds nothing hands on exactly those frames, every byte of them, and keeps that
/// part.
pub proof fn law_received_frames_come_back(
    before: FrameReader,
    frames: Seq<Seq<u8>>,
    tail: Seq<u8>,
    after: FrameReader,
    out: Received<Vec<u8>, ()>,
)
    requires
        contents(before.buf).len() == 0,
        before.len is None,
        forall|i: int| 0 <= i < frames.len() ==> (#[trigger] frames[i]).len() <= usize::MAX,
        is_unfinished(tail),
        before.received(encode_frames(frames) + tail, &after, out),
    ensures
        out.items.deep_view() == frames,
        out.outcome is Ok,
        with_header(contents(after.buf), after.len) == tail,
        tail.len() < HEADER_LEN ==> after.len is None && contents(after.buf) == tail,
{
    let stream = encode_frames(frames) + tail;
    assert(contents(before.buf) + stream =~= stream);
    law_frames_round_trip(frames, tail);
    lemma_unfinished_is_kept(frames, tail);
}

/// It makes no difference whether bytes come in one packet or in two: the same frames are handed
/// on, and the reader ends in the same state.
pub proof fn law_two_packets_are_as_one(
    before: FrameReader,
    a: Seq<u8>,
    between: FrameReader,
    first: Received<Vec<u8>, ()>,
    b: Seq<u8>,
    after: FrameReader,
    second: Received<Vec<u8>, ()>,
    end: FrameReader,
    whole: Received<Vec<u8>, ()>,
)
    requires
        before.received(a, &between, first),
        between.received(b, &after, second),
        before.received(a + b, &end, whole),
    ensures
        whole.items.deep_view() == first.items.deep_view() + second.items.deep_view(),
        contents(end.buf) == contents(after.buf),
        end.len == after.len,
{
    law_frames_of_a_cut_stream(contents(before.buf) + a, b, before.len);
    assert((contents(before.buf) + a) + b =~= contents(before.buf) + (a + b));
}

/// A reader that is given packets in turn: its states, and what it makes of each packet.
pub open spec fn is_run(
    readers: Seq<FrameReader>,
    packets: Seq<Seq<u8>>,
    outs: Seq<Received<Vec<u8>, ()>>,
) -> bool {
    &&& readers.len() == packets.len() + 1
    &&& outs.len() == packets.len()
    &&& forall|i: int|
        0 <= i < packets.len() ==> readers[i].received(
            #[trigger] packets[i],
            &readers[i + 1],
            outs[i],
        )
}

/// All frames handed on, in order.
pub open spec fn frames_handed_on(outs: Seq<Received<Vec<u8>, ()>>) -> Seq<Seq<u8>>
    decreases outs.len(),
{
    if outs.len() == 0 {
        seq![]
    } else {
        frames_handed_on(outs.drop_last()) + outs.last().items.deep_view()
    }
}

/// No more bytes are kept than there were.
proof fn lemma_kept_bytes_are_bounded(buf: Seq<u8>, len: Option<usize>)
    ensures
        all_frames(buf, len).buf.len() <= buf.len(),
    decreases
            buf.len(),
            (if len is Some {
                1int
            } else {
                0int
            }),
{
    let step = next_frame(buf, len);
    if step.more {
        lemma_kept_bytes_are_bounded(step.buf, step.len);
    }
}

proof fn lemma_run(
    readers: Seq<FrameReader>,
    packets: Seq<Seq<u8>>,
    outs: Seq<Received<Vec<u8>, ()>>,
)
    requires
        is_run(readers, packets, outs),
        contents(readers[0].buf).len() == 0,
        readers[0].len is None,
        headers_fit(packets.flatten(), None),
        packets.flatten().len() <= capacity_limit(),
    ensures
        ({
            let run = all_frames(packets.flatten(), None);
            &&& frames_handed_on(outs) == run.frames
            &&& contents(readers.last().buf) == run.buf
            &&& readers.last().len == run.len
        }),
        forall|i: int| 0 <= i < packets.len() ==> readers[i].accepts(#[trigger] packets[i]),
        forall|i: int| 0 <= i < outs.len() ==> (#[trigger] outs[i]).outcome is Ok,
    decreases packets.len(),
{
    let none = Seq::<u8>::empty();
    if packets.len() == 0 {
        assert(packets.flatten() =~= none);
        assert(contents(readers[0].buf) =~= none);
        assert(all_frames(none, None) == (FrameRun { frames: seq![], buf: none, len: None }));
    } else {
        let n = packets.len() - 1;
        let some = packets.drop_last();
        packets.lemma_flatten_and_flatten_alt_are_equivalent();
        some.lemma_flatten_and_flatten_alt_are_equivalent();
        assert(packets.flatten() == some.flatten() + packets[n]);
        law_frames_of_a_cut_stream(some.flatten(), packets[n], None);
        assert forall|i: int| 0 <= i < some.len() implies readers.drop_last()[i].received(
            #[trigger] some[i],
            &readers.drop_last()[i + 1],
            outs.drop_last()[i],
        ) by {
            assert(some[i] == packets[i]);
        }
        lemma_run(readers.drop_last(), some, outs.drop_last());
        lemma_kept_bytes_are_bounded(some.flatten(), None);
        assert(readers[n].received(packets[n], &readers[n + 1], outs[n]));
        assert(readers[n] == readers.drop_last().last());
        assert forall|i: int| 0 <= i < packets.len() implies readers[i].accepts(
            #[trigger] packets[i],
        ) by {
            if i < n {
                assert(packets[i] == some[i]);
                assert(readers[i] == readers.drop_last()[i]);
            }
        }
        assert forall|i: int| 0 <= i < outs.len() implies (#[trigger] outs[i]).outcome is Ok by {
            if i < n {
                assert(outs[i] == outs.drop_last()[i]);
            }
        }
    }
}

/// Reading gives back what was written, however the stream is cut into packets: a new reader that
/// is given them in turn accepts each, hands on exactly the frames that were sent, every byte of
/// them, and keeps what is unfinished.
pub proof fn law_frames_come_back_from_packets(
    readers: Seq<FrameReader>,
    packets: Seq<Seq<u8>>,
    outs: Seq<Received<Vec<u8>, ()>>,
    frames: Seq<Seq<u8>>,
    tail: Seq<u8>,
)
    requires
        is_run(readers, packets, outs),
        contents(readers[0].buf).len() == 0,
        readers[0].len is None,
        packets.flatten() == encode_frames(frames) + tail,
        forall|i: int| 0 <= i < frames.len() ==> (#[trigger] frames[i]).len() <= usize::MAX,
        is_unfinished(tail),
        4 * packets.flatten().len() <= isize::MAX,
    ensures
        forall|i: int| 0 <= i < packets.len() ==> readers[i].accepts(#[trigger] packets[i]),
        frames_handed_on(outs) == frames,
        with_header(contents(readers.last().buf), readers.last().len) == tail,
        forall|i: int| 0 <= i < outs.len() ==> (#[trigger] outs[i]).outcome is Ok,
{
    law_frames_round_trip(frames, tail);
    lemma_unfinished_is_kept(frames, tail);
    lemma_run(readers, packets, outs);
}

} // verus!
