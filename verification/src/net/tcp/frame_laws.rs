//! What holds of the frames that a [`FrameReader`] hands on.
//!
//! [`FrameReader`]: crate::net::tcp::frame_reader::FrameReader

use vstd::prelude::*;
use crate::buffer::{be_bytes, be_value, law_be_bytes_round_trip, law_be_value_round_trip};
use crate::net::tcp::frame_reader::{all_frames, header_fits, header_value, headers_fit, next_frame};
use crate::net::tcp::frame_reader::{FrameRun, FrameStep, HEADER_LEN};

verus! {

/// The frames of several packets, taken one packet after the other.
pub open spec fn frames_of_packets(
    buf: Seq<u8>,
    len: Option<usize>,
    packets: Seq<Seq<u8>>,
) -> FrameRun
    decreases packets.len(),
{
    if packets.len() == 0 {
        FrameRun { frames: seq![], buf, len }
    } else {
        let before = frames_of_packets(buf, len, packets.drop_last());
        let last = all_frames(before.buf + packets.last(), before.len);
        FrameRun { frames: before.frames + last.frames, ..last }
    }
}

/// More bytes behind a header or a complete frame do not change it.
proof fn lemma_next_frame_append(a: Seq<u8>, b: Seq<u8>, len: Option<usize>)
    requires
        next_frame(a, len).more,
    ensures
        ({
            let step = next_frame(a, len);
            next_frame(a + b, len) == (FrameStep { buf: step.buf + b, ..step })
        }),
        header_fits(a + b, len) == header_fits(a, len),
{
    let n = match len {
        None => HEADER_LEN as int,
        Some(n) => n as int,
    };
    assert((a + b).take(n) =~= a.take(n));
    assert((a + b).skip(n) =~= a.skip(n) + b);
}

/// Cutting a stream in two changes nothing: the frames of `a` followed by `b` are those of `a`,
/// then those of `b` with what `a` left over in front. All headers of the stream fit exactly when
/// those of the two parts do.
pub proof fn law_frames_of_a_cut_stream(a: Seq<u8>, b: Seq<u8>, len: Option<usize>)
    ensures
        ({
            let first = all_frames(a, len);
            let second = all_frames(first.buf + b, first.len);
            &&& all_frames(a + b, len) == (FrameRun {
                frames: first.frames + second.frames,
                ..second
            })
            &&& headers_fit(a + b, len) <==> headers_fit(a, len) && headers_fit(
                first.buf + b,
                first.len,
            )
        }),
    decreases
            a.len(),
            (if len is Some {
                1int
            } else {
                0int
            }),
{
    let first = all_frames(a, len);
    let second = all_frames(first.buf + b, first.len);
    let step = next_frame(a, len);
    if step.more {
        lemma_next_frame_append(a, b, len);
        law_frames_of_a_cut_stream(step.buf, b, step.len);
        assert(all_frames(a + b, len).frames =~= first.frames + second.frames);
    } else {
        assert(first.frames + second.frames =~= second.frames);
    }
}

/// However a stream is cut into packets, the same frames come out and the reader ends in the same
/// state.
pub proof fn law_frames_ignore_packet_boundaries(
    buf: Seq<u8>,
    len: Option<usize>,
    packets: Seq<Seq<u8>>,
)
    requires
        packets.len() > 0,
    ensures
        frames_of_packets(buf, len, packets) == all_frames(buf + packets.flatten(), len),
    decreases packets.len(),
{
    let last = packets.last();
    let stream = packets.drop_last().flatten();
    packets.lemma_flatten_and_flatten_alt_are_equivalent();
    packets.drop_last().lemma_flatten_and_flatten_alt_are_equivalent();
    if packets.len() == 1 {
        assert(packets.flatten() =~= last);
        assert(frames_of_packets(buf, len, packets.drop_last()) == (FrameRun {
            frames: seq![],
            buf,
            len,
        }));
        assert(frames_of_packets(buf, len, packets).frames =~= all_frames(buf + last, len).frames);
    } else {
        law_frames_ignore_packet_boundaries(buf, len, packets.drop_last());
        law_frames_of_a_cut_stream(buf + stream, last, len);
        assert((buf + stream) + last =~= buf + packets.flatten());
    }
}

/// If all headers of a stream fit, each packet of it can be taken in its turn: all headers fit in
/// what the packets before it leave over, with the packet behind.
pub proof fn law_headers_fit_packet_by_packet(
    buf: Seq<u8>,
    len: Option<usize>,
    packets: Seq<Seq<u8>>,
    i: int,
)
    requires
        headers_fit(buf + packets.flatten(), len),
        0 <= i < packets.len(),
    ensures
        ({
            let before = frames_of_packets(buf, len, packets.take(i));
            headers_fit(before.buf + packets[i], before.len)
        }),
    decreases packets.len(),
{
    let last = packets.last();
    let some = packets.drop_last();
    packets.lemma_flatten_and_flatten_alt_are_equivalent();
    some.lemma_flatten_and_flatten_alt_are_equivalent();
    assert((buf + some.flatten()) + last =~= buf + packets.flatten());
    law_frames_of_a_cut_stream(buf + some.flatten(), last, len);
    if i == packets.len() - 1 {
        assert(packets.take(i) =~= some);
        if i == 0 {
            assert(some.flatten() =~= Seq::<u8>::empty());
            assert(buf + packets.flatten() =~= buf + last);
        } else {
            law_frames_ignore_packet_boundaries(buf, len, some);
        }
    } else {
        law_headers_fit_packet_by_packet(buf, len, some, i);
        assert(some.take(i) =~= packets.take(i));
    }
}

/// Once every complete frame is out, another step without new bytes finds none and changes
/// nothing.
pub proof fn law_no_frame_is_left(buf: Seq<u8>, len: Option<usize>)
    ensures
        ({
            let run = all_frames(buf, len);
            let step = next_frame(run.buf, run.len);
            &&& !step.more
            &&& step.frame is None
            &&& step.buf == run.buf
            &&& step.len == run.len
        }),
    decreases
            buf.len(),
            (if len is Some {
                1int
            } else {
                0int
            }),
{
    let step = next_frame(buf, len);
    if step.more {
        law_no_frame_is_left(step.buf, step.len);
    }
}

/// The header of a frame of length `n`.
pub open spec fn header_of(n: nat) -> Seq<u8> {
    be_bytes(n, HEADER_LEN as nat)
}

/// A header announces the length that it was made for.
pub proof fn law_header_round_trip(n: nat)
    requires
        n <= u64::MAX,
    ensures
        header_of(n).len() == HEADER_LEN,
        be_value(header_of(n)) == n,
{
    reveal_with_fuel(vstd::arithmetic::power::pow, 9);
    assert(vstd::arithmetic::power::pow(256, 8) == 0x1_0000_0000_0000_0000);
    law_be_bytes_round_trip(n, 8);
}

/// A frame as it is sent: behind its header.
pub open spec fn encode_frame(frame: Seq<u8>) -> Seq<u8> {
    header_of(frame.len()) + frame
}

/// Several frames as they are sent, each behind its own header.
pub open spec fn encode_frames(frames: Seq<Seq<u8>>) -> Seq<u8>
    decreases frames.len(),
{
    if frames.len() == 0 {
        seq![]
    } else {
        encode_frame(frames[0]) + encode_frames(frames.drop_first())
    }
}

/// The bytes that a reader holds, with the header that it has already read.
pub open spec fn with_header(buf: Seq<u8>, len: Option<usize>) -> Seq<u8> {
    match len {
        None => buf,
        Some(n) => header_of(n as nat) + buf,
    }
}

/// Nothing is lost, added or moved: the frames that came out, each behind its header, and then
/// what the reader still holds, are the stream.
pub proof fn law_frames_keep_the_bytes(buf: Seq<u8>, len: Option<usize>)
    requires
        headers_fit(buf, len),
    ensures
        ({
            let run = all_frames(buf, len);
            with_header(buf, len) == encode_frames(run.frames) + with_header(run.buf, run.len)
        }),
    decreases
            buf.len(),
            (if len is Some {
                1int
            } else {
                0int
            }),
{
    let run = all_frames(buf, len);
    let step = next_frame(buf, len);
    let held = with_header(run.buf, run.len);
    if step.more {
        let rest = all_frames(step.buf, step.len);
        law_frames_keep_the_bytes(step.buf, step.len);
        match len {
            None => {
                let header = buf.take(HEADER_LEN as int);
                law_be_value_round_trip(header);
                assert(header + step.buf =~= buf);
            },
            Some(n) => {
                let frame = buf.take(n as int);
                assert(run.frames.drop_first() =~= rest.frames);
                assert(run.frames[0] == frame);
                assert(frame + step.buf =~= buf);
                assert(with_header(buf, len) =~= encode_frame(frame) + step.buf);
                assert(encode_frames(run.frames) + held =~= encode_frame(frame) + (encode_frames(
                    rest.frames,
                ) + held));
            },
        }
    } else {
        assert(encode_frames(run.frames) + held =~= held);
    }
}

/// The first frame of a stream, with anything behind it.
proof fn lemma_encoded_frame_comes_out(frame: Seq<u8>, rest: Seq<u8>)
    requires
        frame.len() <= usize::MAX,
    ensures
        ({
            let run = all_frames(rest, None);
            all_frames(encode_frame(frame) + rest, None) == (FrameRun {
                frames: seq![frame] + run.frames,
                ..run
            })
        }),
        headers_fit(encode_frame(frame) + rest, None) <==> headers_fit(rest, None),
{
    let n = frame.len() as usize;
    let stream = encode_frame(frame) + rest;
    law_header_round_trip(frame.len());
    assert(stream.take(HEADER_LEN as int) =~= header_of(frame.len()));
    assert(stream.skip(HEADER_LEN as int) =~= frame + rest);
    assert(next_frame(stream, None) == (FrameStep {
        more: true,
        frame: None,
        buf: frame + rest,
        len: Some(n),
    }));
    assert((frame + rest).take(n as int) =~= frame);
    assert((frame + rest).skip(n as int) =~= rest);
    assert(next_frame(frame + rest, Some(n)) == (FrameStep {
        more: true,
        frame: Some(frame),
        buf: rest,
        len: None,
    }));
    assert(all_frames(stream, None) == all_frames(frame + rest, Some(n)));
    assert(headers_fit(stream, None) == headers_fit(frame + rest, Some(n)));
    assert(headers_fit(frame + rest, Some(n)) == headers_fit(rest, None));
}

/// Frames that were sent come out first, whatever comes behind them, and are no obstacle to it.
pub proof fn law_encoded_frames_come_out(frames: Seq<Seq<u8>>, rest: Seq<u8>)
    requires
        forall|i: int| 0 <= i < frames.len() ==> (#[trigger] frames[i]).len() <= usize::MAX,
    ensures
        ({
            let run = all_frames(rest, None);
            all_frames(encode_frames(frames) + rest, None) == (FrameRun {
                frames: frames + run.frames,
                ..run
            })
        }),
        headers_fit(encode_frames(frames) + rest, None) <==> headers_fit(rest, None),
    decreases frames.len(),
{
    let run = all_frames(rest, None);
    let stream = encode_frames(frames) + rest;
    if frames.len() == 0 {
        assert(stream =~= rest);
        assert(frames + run.frames =~= run.frames);
    } else {
        let others = frames.drop_first();
        assert forall|i: int| 0 <= i < others.len() implies (#[trigger] others[i]).len()
            <= usize::MAX by {
            assert(others[i] == frames[i + 1]);
        }
        assert(frames[0].len() <= usize::MAX);
        law_encoded_frames_come_out(others, rest);
        lemma_encoded_frame_comes_out(frames[0], encode_frames(others) + rest);
        assert(stream =~= encode_frame(frames[0]) + (encode_frames(others) + rest));
        assert(seq![frames[0]] + (others + run.frames) =~= frames + run.frames);
    }
}

/// Part of a header, or a header and part of the frame that it announces.
pub open spec fn is_unfinished(tail: Seq<u8>) -> bool {
    tail.len() < HEADER_LEN || tail.len() - HEADER_LEN < header_value(tail) <= usize::MAX
}

/// Reading gives back what was written: the frames of a stream are those that were sent, each
/// behind its own header, empty ones too. An unfinished frame behind them stays in the reader,
/// and if there is none, nothing does.
pub proof fn law_frames_round_trip(frames: Seq<Seq<u8>>, tail: Seq<u8>)
    requires
        forall|i: int| 0 <= i < frames.len() ==> (#[trigger] frames[i]).len() <= usize::MAX,
        is_unfinished(tail),
    ensures
        headers_fit(encode_frames(frames) + tail, None),
        all_frames(encode_frames(frames) + tail, None) == (if tail.len() < HEADER_LEN {
            FrameRun { frames, buf: tail, len: None }
        } else {
            FrameRun {
                frames,
                buf: tail.skip(HEADER_LEN as int),
                len: Some(header_value(tail) as usize),
            }
        }),
        all_frames(encode_frames(frames), None) == (FrameRun { frames, buf: seq![], len: None }),
{
    let none = Seq::<u8>::empty();
    law_encoded_frames_come_out(frames, tail);
    law_encoded_frames_come_out(frames, none);
    assert(encode_frames(frames) + none =~= encode_frames(frames));
    assert(frames + Seq::<Seq<u8>>::empty() =~= frames);
    let step = next_frame(tail, None);
    if tail.len() >= HEADER_LEN {
        assert(!next_frame(step.buf, step.len).more);
        assert(all_frames(step.buf, step.len).frames =~= Seq::<Seq<u8>>::empty());
        assert(headers_fit(step.buf, step.len));
    }
    assert(all_frames(tail, None).frames =~= Seq::<Seq<u8>>::empty());
}

/// Reading gives back what was written, however the stream is cut into packets: a new reader
/// hands on exactly the frames that were sent.
pub proof fn law_packets_give_the_frames_back(
    frames: Seq<Seq<u8>>,
    tail: Seq<u8>,
    packets: Seq<Seq<u8>>,
)
    requires
        forall|i: int| 0 <= i < frames.len() ==> (#[trigger] frames[i]).len() <= usize::MAX,
        is_unfinished(tail),
        packets.flatten() == encode_frames(frames) + tail,
    ensures
        frames_of_packets(Seq::empty(), None, packets).frames == frames,
{
    let none = Seq::<u8>::empty();
    law_frames_round_trip(frames, tail);
    assert(none + packets.flatten() =~= packets.flatten());
    if packets.len() > 0 {
        law_frames_ignore_packet_boundaries(none, None, packets);
    } else {
        assert(packets.flatten() =~= none);
        assert(all_frames(none, None).frames =~= Seq::<Seq<u8>>::empty());
    }
}

} // verus!
