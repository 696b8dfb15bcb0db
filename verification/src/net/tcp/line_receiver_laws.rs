//! What a [`LineReader`] does with the packets that it is given, said of the packets, of the lines
//! that it hands on and of the bytes that it keeps.

use vstd::prelude::*;
use vstd::utf8::{decode_utf8, encode_utf8, valid_utf8};
use crate::net::tcp::line_laws::{encode_lines, is_break_free, is_one_line, lines_of_packets};
use crate::net::tcp::line_laws::{law_lines_ignore_packet_boundaries, law_lines_of_a_cut_stream};
use crate::net::tcp::line_laws::{law_lines_round_trip, law_one_line_has_no_break};
use crate::net::tcp::line_reader::{all_lines, is_break, lemma_line_end, lemma_next_line_shrinks};
use crate::net::tcp::line_reader::{line_end, next_line, past_crlf};
use crate::net::tcp::line_reader::{LineError, LineReader, CR, LF};
use crate::net::tcp::session::{PacketReceiver, Received};

verus! {

/// Any packet is accepted, in any state.
pub proof fn law_every_packet_is_accepted(reader: LineReader, packet: Seq<u8>)
    ensures
        reader.accepts(packet),
{
}

/// One of the line breaks `\n`, `\r\n` and `\r`.
pub open spec fn is_line_break(s: Seq<u8>) -> bool {
    s == seq![LF] || s == seq![CR, LF] || s == seq![CR]
}

/// Neither `\r` nor `\n` is among these bytes.
pub open spec fn has_no_break(s: Seq<u8>) -> bool {
    forall|i: int| 0 <= i < s.len() ==> #[trigger] s[i] != CR && s[i] != LF
}

/// Lines, each followed by its line break.
pub open spec fn join_lines(lines: Seq<Seq<char>>, breaks: Seq<Seq<u8>>) -> Seq<u8>
    decreases lines.len(),
{
    if lines.len() == 0 {
        seq![]
    } else {
        encode_utf8(lines[0]) + breaks[0] + join_lines(lines.drop_first(), breaks.drop_first())
    }
}

/// The `\n` at the front of a stream that belongs to a `\r` before it, if there is one.
pub open spec fn owed_break(stream: Seq<u8>, skip: bool) -> Seq<u8> {
    if skip && stream.len() > 0 && stream[0] == LF {
        seq![LF]
    } else {
        seq![]
    }
}

/// A stream is these lines, each on one line and followed by its line break, and then a tail. A
/// `\r` and a `\n` right behind it are one line break and not two.
pub open spec fn is_cut(
    stream: Seq<u8>,
    skip: bool,
    lines: Seq<Seq<char>>,
    breaks: Seq<Seq<u8>>,
    tail: Seq<u8>,
) -> bool {
    &&& breaks.len() == lines.len()
    &&& forall|i: int| 0 <= i < breaks.len() ==> is_line_break(#[trigger] breaks[i])
    &&& forall|i: int| 0 <= i < lines.len() ==> is_one_line(#[trigger] lines[i])
    &&& forall|i: int|
        0 < i < lines.len() && breaks[i - 1] == seq![CR] ==> (#[trigger] lines[i]).len() > 0
            || breaks[i][0] == CR
    &&& stream == owed_break(stream, skip) + join_lines(lines, breaks) + tail
}

/// What a packet does to a reader, given the line breaks of the stream: the bytes that the reader
/// held and those of the packet are the lines handed on, with their line breaks, and then what is
/// kept. If there is no error, what is kept is the start of a line. An error tells the first line
/// that is no text, and what comes behind its line break is kept. The reader remembers whether the
/// last byte that it has taken was a `\r`.
pub open spec fn is_explained(
    before: LineReader,
    packet: Seq<u8>,
    after: LineReader,
    out: Received<String, LineError>,
    breaks: Seq<Seq<u8>>,
) -> bool {
    let stream = before.buf@ + packet;
    let lines = out.items.deep_view();
    match out.outcome {
        Ok(_) => {
            &&& is_cut(stream, before.skip, lines, breaks, after.buf@)
            &&& has_no_break(after.buf@)
            &&& after.skip <==> after.buf@.len() == 0 && if lines.len() == 0 {
                before.skip && stream.len() == 0
            } else {
                breaks.last() == seq![CR]
            }
        },
        Err(LineError::InvalidUtf8(bad)) => {
            let brk = if after.skip {
                CR
            } else {
                LF
            };
            &&& is_cut(stream, before.skip, lines, breaks, bad@ + seq![brk] + after.buf@)
            &&& has_no_break(bad@)
            &&& !valid_utf8(bad@)
        },
    }
}

/// A text and its line break in front of a stream.
#[verifier::spinoff_prover]
proof fn lemma_cut_one_more(
    stream: Seq<u8>,
    skip: bool,
    text: Seq<char>,
    brk: u8,
    rest: Seq<u8>,
    lines: Seq<Seq<char>>,
    breaks: Seq<Seq<u8>>,
    tail: Seq<u8>,
)
    requires
        is_one_line(text),
        brk == CR || brk == LF,
        stream == owed_break(stream, skip) + (encode_utf8(text) + seq![brk] + rest),
        is_cut(rest, brk == CR, lines, breaks, tail),
    ensures
        is_cut(
            stream,
            skip,
            seq![text] + lines,
            seq![seq![brk] + owed_break(rest, brk == CR)] + breaks,
            tail,
        ),
{
    let owed = owed_break(stream, skip);
    let more = owed_break(rest, brk == CR);
    let first = seq![brk] + more;
    let all = seq![text] + lines;
    let every = seq![first] + breaks;
    let joined = join_lines(lines, breaks);
    assert(is_line_break(first)) by {
        if more.len() > 0 {
            assert(first =~= seq![CR, LF]);
        } else {
            assert(first =~= seq![brk]);
        }
    }
    assert(all.drop_first() =~= lines);
    assert(every.drop_first() =~= breaks);
    assert(join_lines(all, every) == encode_utf8(text) + first + joined);
    assert(stream =~= owed + join_lines(all, every) + tail);
    assert forall|i: int| 0 <= i < every.len() implies is_line_break(#[trigger] every[i]) by {
        if i > 0 {
            assert(every[i] == breaks[i - 1]);
        }
    }
    assert forall|i: int| 0 <= i < all.len() implies is_one_line(#[trigger] all[i]) by {
        if i > 0 {
            assert(all[i] == lines[i - 1]);
        }
    }
    assert forall|i: int| 0 < i < all.len() && every[i - 1] == seq![CR] implies (
    #[trigger] all[i]).len() > 0 || every[i][0] == CR by {
        assert(all[i] == lines[i - 1]);
        assert(every[i] == breaks[i - 1]);
        if i > 1 {
            assert(every[i - 1] == breaks[i - 2]);
        } else if lines[0].len() == 0 {
            assert(first.len() == 1 && first[0] == CR);
            assert(more.len() == 0);
            assert(is_line_break(breaks[0]));
            assert(encode_utf8(lines[0]) =~= Seq::<u8>::empty());
            assert(joined[0] == breaks[0][0]);
            assert(rest[0] == joined[0]);
        }
    }
}

/// The line breaks of a buffer, up to the first line that is no text.
#[verifier::spinoff_prover]
proof fn lemma_all_lines_cut(buf: Seq<u8>, skip: bool) -> (breaks: Seq<Seq<u8>>)
    ensures
        ({
            let run = all_lines(buf, skip);
            let brk = if run.skip {
                CR
            } else {
                LF
            };
            &&& run.bad matches Some(bad) ==> {
                &&& is_cut(buf, skip, run.lines, breaks, bad + seq![brk] + run.buf)
                &&& has_no_break(bad)
                &&& !valid_utf8(bad)
            }
            &&& run.bad is None ==> {
                &&& is_cut(buf, skip, run.lines, breaks, run.buf)
                &&& has_no_break(run.buf)
                &&& run.skip <==> run.buf.len() == 0 && if run.lines.len() == 0 {
                    skip && buf.len() == 0
                } else {
                    breaks.last() == seq![CR]
                }
            }
        }),
    decreases buf.len(),
{
    let run = all_lines(buf, skip);
    let step = next_line(buf, skip);
    let body = past_crlf(buf, skip);
    let owed = owed_break(buf, skip);
    let none = Seq::<Seq<u8>>::empty();
    lemma_line_end(body);
    lemma_next_line_shrinks(buf, skip);
    assert(buf =~= owed + body);
    assert(join_lines(seq![], none) =~= Seq::<u8>::empty());
    if step.line is None {
        assert(has_no_break(body)) by {
            assert forall|i: int| 0 <= i < body.len() implies #[trigger] body[i] != CR && body[i]
                != LF by {
                assert(!is_break(body[i]));
            }
        }
        assert(buf =~= owed + join_lines(run.lines, none) + run.buf);
        none
    } else {
        let line = step.line->0;
        let end = line_end(body) as int;
        let brk = body[end];
        assert(has_no_break(line)) by {
            assert forall|i: int| 0 <= i < line.len() implies #[trigger] line[i] != CR && line[i]
                != LF by {
                assert(!is_break(body[i]));
            }
        }
        assert(body =~= line + seq![brk] + step.buf);
        assert(brk == if step.skip {
            CR
        } else {
            LF
        });
        if !valid_utf8(line) {
            assert(buf =~= owed + join_lines(run.lines, none) + (line + seq![brk] + run.buf));
            none
        } else {
            let text = decode_utf8(line);
            let rest = all_lines(step.buf, step.skip);
            let others = lemma_all_lines_cut(step.buf, step.skip);
            let first = seq![brk] + owed_break(step.buf, step.skip);
            let breaks = seq![first] + others;
            let tail = if run.bad is Some {
                run.bad->0 + seq![
                    if run.skip {
                        CR
                    } else {
                        LF
                    },
                ] + run.buf
            } else {
                run.buf
            };
            vstd::utf8::decode_utf8_encode_utf8(line);
            law_one_line_has_no_break(text);
            assert(is_break_free(line));
            lemma_cut_one_more(buf, skip, text, brk, step.buf, rest.lines, others, tail);
            if rest.lines.len() == 0 {
                assert(breaks.last() == first);
                assert(first =~= seq![CR] <==> brk == CR && first.len() == 1);
            } else {
                assert(breaks.last() == others.last());
            }
            breaks
        }
    }
}

/// Nothing is lost, added, changed or moved: whatever the reader's state and whatever the packet,
/// the lines handed on, put together with line breaks, and then the bytes that are kept, are the
/// bytes that were there and those that came.
pub proof fn law_received_lines_are_the_stream(
    before: LineReader,
    packet: Seq<u8>,
    after: LineReader,
    out: Received<String, LineError>,
)
    requires
        before.received(packet, &after, out),
    ensures
        exists|breaks: Seq<Seq<u8>>| is_explained(before, packet, after, out, breaks),
{
    let breaks = lemma_all_lines_cut(before.buf@ + packet, before.skip);
    assert(is_explained(before, packet, after, out, breaks));
}

/// Reading gives back what was written: given texts, each ended by `\n` or `\r\n`, and the start
/// of another, a reader that holds nothing hands on exactly those texts and keeps that start.
pub proof fn law_received_texts_come_back(
    before: LineReader,
    lines: Seq<(Seq<char>, bool)>,
    tail: Seq<char>,
    after: LineReader,
    out: Received<String, LineError>,
)
    requires
        before.buf@.len() == 0,
        !before.skip,
        forall|i: int| 0 <= i < lines.len() ==> is_one_line((#[trigger] lines[i]).0),
        is_one_line(tail),
        before.received(encode_lines(lines) + encode_utf8(tail), &after, out),
    ensures
        out.items.deep_view() == lines.map_values(|line: (Seq<char>, bool)| line.0),
        out.outcome is Ok,
        after.buf@ == encode_utf8(tail),
        !after.skip,
{
    let stream = encode_lines(lines) + encode_utf8(tail);
    assert(before.buf@ + stream =~= stream);
    law_lines_round_trip(lines, tail);
}

/// It makes no difference whether bytes come in one packet or in two: the same lines are handed
/// on, the same error is told and the reader ends in the same state. If the first packet already
/// has a line that is no text, the second is left untouched.
pub proof fn law_two_packets_are_as_one(
    before: LineReader,
    a: Seq<u8>,
    between: LineReader,
    first: Received<String, LineError>,
    b: Seq<u8>,
    after: LineReader,
    second: Received<String, LineError>,
    end: LineReader,
    whole: Received<String, LineError>,
)
    requires
        before.received(a, &between, first),
        between.received(b, &after, second),
        before.received(a + b, &end, whole),
    ensures
        first.outcome is Ok ==> {
            &&& whole.items.deep_view() == first.items.deep_view() + second.items.deep_view()
            &&& whole.outcome is Ok <==> second.outcome is Ok
            &&& whole.outcome is Err ==> whole.outcome->Err_0->InvalidUtf8_0@
                == second.outcome->Err_0->InvalidUtf8_0@
            &&& end.buf@ == after.buf@
            &&& end.skip == after.skip
        },
        first.outcome is Err ==> {
            &&& whole.items.deep_view() == first.items.deep_view()
            &&& whole.outcome is Err
            &&& whole.outcome->Err_0->InvalidUtf8_0@ == first.outcome->Err_0->InvalidUtf8_0@
            &&& end.buf@ == between.buf@ + b
            &&& end.skip == between.skip
        },
{
    law_lines_of_a_cut_stream(before.buf@ + a, b, before.skip);
    assert((before.buf@ + a) + b =~= before.buf@ + (a + b));
}

/// A reader that is given packets in turn: its states, and what it makes of each packet.
pub open spec fn is_run(
    readers: Seq<LineReader>,
    packets: Seq<Seq<u8>>,
    outs: Seq<Received<String, LineError>>,
) -> bool {
    &&& readers.len() == packets.len() + 1
    &&& outs.len() == packets.len()
    &&& forall|i: int|
        0 <= i < packets.len() ==> readers[i].received(
            #[trigger] packets[i],
            &readers[i + 1],
            outs[i],
        )
}

/// All lines handed on, in order.
pub open spec fn lines_handed_on(outs: Seq<Received<String, LineError>>) -> Seq<Seq<char>>
    decreases outs.len(),
{
    if outs.len() == 0 {
        seq![]
    } else {
        lines_handed_on(outs.drop_last()) + outs.last().items.deep_view()
    }
}

proof fn lemma_run(
    readers: Seq<LineReader>,
    packets: Seq<Seq<u8>>,
    outs: Seq<Received<String, LineError>>,
)
    requires
        is_run(readers, packets, outs),
        lines_of_packets(readers[0].buf@, readers[0].skip, packets).bad is None,
    ensures
        ({
            let run = lines_of_packets(readers[0].buf@, readers[0].skip, packets);
            &&& lines_handed_on(outs) == run.lines
            &&& readers.last().buf@ == run.buf
            &&& readers.last().skip == run.skip
        }),
        forall|i: int| 0 <= i < outs.len() ==> (#[trigger] outs[i]).outcome is Ok,
    decreases packets.len(),
{
    if packets.len() > 0 {
        let n = packets.len() - 1;
        let some = packets.drop_last();
        assert forall|i: int| 0 <= i < some.len() implies readers.drop_last()[i].received(
            #[trigger] some[i],
            &readers.drop_last()[i + 1],
            outs.drop_last()[i],
        ) by {
            assert(some[i] == packets[i]);
        }
        lemma_run(readers.drop_last(), some, outs.drop_last());
        assert(readers[n].received(packets[n], &readers[n + 1], outs[n]));
        assert forall|i: int| 0 <= i < outs.len() implies (#[trigger] outs[i]).outcome is Ok by {
            if i < n {
                assert(outs[i] == outs.drop_last()[i]);
            }
        }
    }
}

/// Reading gives back what was written, however the stream is cut into packets: a new reader that
/// is given them in turn accepts each, hands on exactly the texts that were sent, and never fails.
pub proof fn law_texts_come_back_from_packets(
    readers: Seq<LineReader>,
    packets: Seq<Seq<u8>>,
    outs: Seq<Received<String, LineError>>,
    lines: Seq<(Seq<char>, bool)>,
    tail: Seq<char>,
)
    requires
        is_run(readers, packets, outs),
        readers[0].buf@.len() == 0,
        !readers[0].skip,
        packets.flatten() == encode_lines(lines) + encode_utf8(tail),
        forall|i: int| 0 <= i < lines.len() ==> is_one_line((#[trigger] lines[i]).0),
        is_one_line(tail),
    ensures
        forall|i: int| 0 <= i < packets.len() ==> readers[i].accepts(#[trigger] packets[i]),
        lines_handed_on(outs) == lines.map_values(|line: (Seq<char>, bool)| line.0),
        forall|i: int| 0 <= i < outs.len() ==> (#[trigger] outs[i]).outcome is Ok,
{
    let none = Seq::<u8>::empty();
    law_lines_round_trip(lines, tail);
    assert(readers[0].buf@ =~= none);
    assert(none + packets.flatten() =~= packets.flatten());
    if packets.len() > 0 {
        law_lines_ignore_packet_boundaries(none, false, packets);
    } else {
        assert(packets.flatten() =~= none);
        assert(line_end(none) == 0);
        assert(all_lines(none, false).lines =~= Seq::<Seq<char>>::empty());
    }
    lemma_run(readers, packets, outs);
}

} // verus!
