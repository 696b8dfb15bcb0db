//! What holds of the lines that a [`LineReader`] hands on.
//!
//! [`LineReader`]: crate::net::tcp::line_reader::LineReader

use vstd::prelude::*;
use vstd::utf8::{decode_utf8, encode_scalar, encode_utf8, valid_utf8};
use crate::net::tcp::line_reader::{all_lines, is_break, line_end, next_line, past_crlf, LineRun, CR, LF};
use crate::net::tcp::line_reader::{lemma_line_end, lemma_line_end_is, lemma_next_line_shrinks};

verus! {

/// The lines of several packets, taken one packet after the other. Packets that come after a bad
/// line are not looked at.
pub open spec fn lines_of_packets(buf: Seq<u8>, skip: bool, packets: Seq<Seq<u8>>) -> LineRun
    decreases packets.len(),
{
    if packets.len() == 0 {
        LineRun { lines: seq![], bad: None, buf, skip }
    } else {
        let before = lines_of_packets(buf, skip, packets.drop_last());
        if before.bad is Some {
            before
        } else {
            let last = all_lines(before.buf + packets.last(), before.skip);
            LineRun { lines: before.lines + last.lines, ..last }
        }
    }
}

/// More bytes behind a complete line do not change that line.
proof fn lemma_next_line_append(a: Seq<u8>, b: Seq<u8>, skip: bool)
    ensures
        ({
            let step = next_line(a, skip);
            if step.line is Some {
                &&& next_line(a + b, skip).line == step.line
                &&& next_line(a + b, skip).buf == step.buf + b
                &&& next_line(a + b, skip).skip == step.skip
            } else {
                next_line(a + b, skip) == next_line(step.buf + b, step.skip)
            }
        }),
{
    let body = past_crlf(a, skip);
    lemma_line_end(body);
    if a.len() == 0 {
        assert(past_crlf(a, skip) == a);
    } else {
        assert(past_crlf(a + b, skip) =~= body + b);
        let end = line_end(body) as int;
        assert forall|i: int| 0 <= i < end implies !is_break(#[trigger] (body + b)[i]) by {
            assert(!is_break(body[i]));
        }
        if end < body.len() {
            assert((body + b)[end] == body[end]);
            lemma_line_end_is(body + b, end);
            assert((body + b).take(end) =~= body.take(end));
            assert((body + b).skip(end + 1) =~= body.skip(end + 1) + b);
        } else {
            assert(past_crlf(body + b, false) == body + b);
        }
    }
}

/// Cutting a stream in two changes nothing: the lines of `a` followed by `b` are those of `a`,
/// then those of `b` with what `a` left over in front. If a line of `a` is bad, `b` is left
/// untouched behind it.
#[verifier::spinoff_prover]
pub proof fn law_lines_of_a_cut_stream(a: Seq<u8>, b: Seq<u8>, skip: bool)
    ensures
        ({
            let first = all_lines(a, skip);
            let second = all_lines(first.buf + b, first.skip);
            all_lines(a + b, skip) == if first.bad is Some {
                LineRun { buf: first.buf + b, ..first }
            } else {
                LineRun { lines: first.lines + second.lines, ..second }
            }
        }),
    decreases a.len(),
{
    let step = next_line(a, skip);
    lemma_next_line_append(a, b, skip);
    lemma_next_line_shrinks(a, skip);
    let whole = all_lines(a + b, skip);
    let first = all_lines(a, skip);
    let second = all_lines(first.buf + b, first.skip);
    if step.line is Some {
        let line = step.line->0;
        if valid_utf8(line) {
            law_lines_of_a_cut_stream(step.buf, b, step.skip);
            if first.bad is None {
                assert(whole.lines =~= first.lines + second.lines);
            } else {
                assert(whole.lines =~= first.lines);
            }
        }
    } else {
        assert(whole =~= all_lines(step.buf + b, step.skip));
        assert(first.lines + second.lines =~= second.lines);
    }
}

/// However a stream is cut into packets, the same lines come out, the same line is found to be
/// bad, and unless there is a bad line the reader ends in the same state.
pub proof fn law_lines_ignore_packet_boundaries(
    buf: Seq<u8>,
    skip: bool,
    packets: Seq<Seq<u8>>,
)
    requires
        packets.len() > 0,
    ensures
        ({
            let cut = lines_of_packets(buf, skip, packets);
            let whole = all_lines(buf + packets.flatten(), skip);
            &&& cut.lines == whole.lines
            &&& cut.bad == whole.bad
            &&& cut.bad is None ==> cut == whole
        }),
    decreases packets.len(),
{
    let last = packets.last();
    packets.lemma_flatten_and_flatten_alt_are_equivalent();
    packets.drop_last().lemma_flatten_and_flatten_alt_are_equivalent();
    if packets.len() == 1 {
        assert(packets.drop_last().flatten() =~= Seq::<u8>::empty());
        assert(packets.flatten() =~= last);
        assert(lines_of_packets(buf, skip, packets.drop_last()) == (LineRun {
            lines: seq![],
            bad: None,
            buf,
            skip,
        }));
        assert(lines_of_packets(buf, skip, packets).lines =~= all_lines(buf + last, skip).lines);
    } else {
        let stream = packets.drop_last().flatten();
        law_lines_ignore_packet_boundaries(buf, skip, packets.drop_last());
        law_lines_of_a_cut_stream(buf + stream, last, skip);
        assert((buf + stream) + last =~= buf + packets.flatten());
    }
}

/// Once every complete line is out, no line break is left behind, and another call without new
/// bytes finds no line and changes nothing.
pub proof fn law_no_line_is_left(buf: Seq<u8>, skip: bool)
    requires
        all_lines(buf, skip).bad is None,
    ensures
        ({
            let run = all_lines(buf, skip);
            &&& forall|i: int| 0 <= i < run.buf.len() ==> !is_break(#[trigger] run.buf[i])
            &&& next_line(run.buf, run.skip).line is None
            &&& next_line(run.buf, run.skip).buf == run.buf
            &&& next_line(run.buf, run.skip).skip == run.skip
        }),
    decreases buf.len(),
{
    let step = next_line(buf, skip);
    lemma_next_line_shrinks(buf, skip);
    let body = past_crlf(buf, skip);
    lemma_line_end(body);
    if step.line is Some {
        law_no_line_is_left(step.buf, step.skip);
    } else {
        lemma_line_end_is(body, body.len() as int);
    }
}

/// The bytes of a stream that are no line breaks.
pub open spec fn without_breaks(s: Seq<u8>) -> Seq<u8> {
    s.filter(|b: u8| !is_break(b))
}

proof fn lemma_without_breaks_of_plain(s: Seq<u8>)
    requires
        forall|i: int| 0 <= i < s.len() ==> !is_break(#[trigger] s[i]),
    ensures
        without_breaks(s) == s,
    decreases s.len(),
{
    reveal(Seq::filter);
    if s.len() > 0 {
        lemma_without_breaks_of_plain(s.drop_last());
        assert(!is_break(s[s.len() - 1]));
        assert(s.drop_last().push(s.last()) =~= s);
    }
}

proof fn lemma_without_breaks_of_break(b: u8)
    requires
        is_break(b),
    ensures
        without_breaks(seq![b]) == Seq::<u8>::empty(),
{
    reveal(Seq::filter);
    let s = seq![b];
    assert(s.drop_last() =~= Seq::<u8>::empty());
    assert(s.last() == b);
    assert(without_breaks(s.drop_last()) =~= Seq::<u8>::empty());
}

/// The line that comes out and what stays behind hold the same bytes as before, less line breaks.
proof fn lemma_next_line_keeps_bytes(buf: Seq<u8>, skip: bool)
    ensures
        ({
            let step = next_line(buf, skip);
            without_breaks(buf) == (match step.line {
                Some(line) => line,
                None => seq![],
            }) + without_breaks(step.buf)
        }),
{
    let p = |b: u8| !is_break(b);
    let step = next_line(buf, skip);
    let body = past_crlf(buf, skip);
    if body != buf {
        assert(buf =~= seq![LF] + body);
        lemma_without_breaks_of_break(LF);
        Seq::filter_distributes_over_add(seq![LF], body, p);
    }
    assert(without_breaks(buf) =~= without_breaks(body));
    lemma_line_end(body);
    let end = line_end(body) as int;
    if end < body.len() {
        let line = body.take(end);
        let brk = body[end];
        assert(body =~= (line + seq![brk]) + body.skip(end + 1));
        Seq::filter_distributes_over_add(line + seq![brk], body.skip(end + 1), p);
        Seq::filter_distributes_over_add(line, seq![brk], p);
        lemma_without_breaks_of_break(brk);
        lemma_without_breaks_of_plain(line);
        assert(without_breaks(line + seq![brk]) =~= line);
    } else {
        assert(Seq::<u8>::empty() + without_breaks(body) =~= without_breaks(body));
    }
}

/// Nothing is lost, added or moved: the lines one after the other, and then the bytes still
/// buffered, are the stream less its line breaks.
#[verifier::spinoff_prover]
pub proof fn law_lines_keep_the_bytes(buf: Seq<u8>, skip: bool)
    requires
        all_lines(buf, skip).bad is None,
    ensures
        ({
            let run = all_lines(buf, skip);
            without_breaks(buf) == run.lines.map_values(|line: Seq<char>| encode_utf8(line)).flatten()
                + run.buf
        }),
    decreases buf.len(),
{
    let encode = |line: Seq<char>| encode_utf8(line);
    let run = all_lines(buf, skip);
    let step = next_line(buf, skip);
    lemma_next_line_shrinks(buf, skip);
    lemma_next_line_keeps_bytes(buf, skip);
    if step.line is Some {
        let line = step.line->0;
        let rest = all_lines(step.buf, step.skip);
        law_lines_keep_the_bytes(step.buf, step.skip);
        vstd::utf8::decode_utf8_encode_utf8(line);
        let encoded = run.lines.map_values(encode);
        assert(encoded.first() == line);
        assert(encoded.drop_first() =~= rest.lines.map_values(encode));
        assert(encoded.flatten() =~= line + rest.lines.map_values(encode).flatten());
        assert(without_breaks(buf) =~= encoded.flatten() + run.buf);
    } else {
        law_no_line_is_left(buf, skip);
        lemma_without_breaks_of_plain(run.buf);
        assert(run.lines.map_values(encode).flatten() =~= Seq::<u8>::empty());
        assert(without_breaks(buf) =~= Seq::<u8>::empty() + run.buf);
    }
}

/// A text that stays on one line.
pub open spec fn is_one_line(text: Seq<char>) -> bool {
    forall|i: int| 0 <= i < text.len() ==> #[trigger] text[i] != '\r' && text[i] != '\n'
}

/// Only the characters `\r` and `\n` have a line break in their encoding.
proof fn lemma_char_breaks(ch: char)
    ensures
        is_break_free(encode_scalar(ch as u32)) <==> ch != '\r' && ch != '\n',
{
    let c = ch as u32;
    let s = encode_scalar(c);
    if vstd::utf8::has_width_1_encoding(c) {
        assert((c & 0x7F) as u8 == c as u8) by (bit_vector)
            requires
                c <= 0x7f,
        ;
        assert(s[0] == c as u8);
    } else {
        assert(0xC0 | (((c >> 6) & 0x1F) as u8) >= 0x80) by (bit_vector);
        assert(0xE0 | (((c >> 12) & 0x0F) as u8) >= 0x80) by (bit_vector);
        assert(0xF0 | (((c >> 18) & 0x7) as u8) >= 0x80) by (bit_vector);
        assert(0x80 | ((c & 0x3F) as u8) >= 0x80) by (bit_vector);
        assert(0x80 | (((c >> 6) & 0x3F) as u8) >= 0x80) by (bit_vector);
        assert(0x80 | (((c >> 12) & 0x3F) as u8) >= 0x80) by (bit_vector);
    }
}

/// Bytes without a line break.
pub open spec fn is_break_free(s: Seq<u8>) -> bool {
    forall|i: int| 0 <= i < s.len() ==> !is_break(#[trigger] s[i])
}

/// A text stays on one line exactly when its encoding has no line break.
pub proof fn law_one_line_has_no_break(text: Seq<char>)
    ensures
        is_one_line(text) <==> is_break_free(encode_utf8(text)),
    decreases text.len(),
{
    if text.len() > 0 {
        let head = encode_scalar(text[0] as u32);
        let tail = text.drop_first();
        lemma_char_breaks(text[0]);
        law_one_line_has_no_break(tail);
        let all = encode_utf8(text);
        assert(all == head + encode_utf8(tail));
        assert(is_break_free(all) <==> is_break_free(head) && is_break_free(encode_utf8(tail))) by {
            if is_break_free(all) {
                assert forall|i: int| 0 <= i < head.len() implies !is_break(#[trigger] head[i]) by {
                    assert(all[i] == head[i]);
                }
                assert forall|i: int| 0 <= i < encode_utf8(tail).len() implies !is_break(
                    #[trigger] encode_utf8(tail)[i],
                ) by {
                    assert(all[head.len() + i] == encode_utf8(tail)[i]);
                }
            }
        }
        assert(is_one_line(text) <==> text[0] != '\r' && text[0] != '\n' && is_one_line(tail)) by {
            if is_one_line(text) {
                assert forall|i: int| 0 <= i < tail.len() implies #[trigger] tail[i] != '\r'
                    && tail[i] != '\n' by {
                    assert(text[i + 1] == tail[i]);
                }
            }
            if text[0] != '\r' && text[0] != '\n' && is_one_line(tail) {
                assert forall|i: int| 0 <= i < text.len() implies #[trigger] text[i] != '\r'
                    && text[i] != '\n' by {
                    if i > 0 {
                        assert(tail[i - 1] == text[i]);
                    }
                }
            }
        }
    }
}

/// No line that comes out holds a line break.
pub proof fn law_lines_hold_no_breaks(buf: Seq<u8>, skip: bool)
    ensures
        forall|i: int|
            0 <= i < all_lines(buf, skip).lines.len() ==> is_one_line(
                #[trigger] all_lines(buf, skip).lines[i],
            ),
    decreases buf.len(),
{
    let step = next_line(buf, skip);
    lemma_next_line_shrinks(buf, skip);
    lemma_line_end(past_crlf(buf, skip));
    if step.line is Some && valid_utf8(step.line->0) {
        let line = step.line->0;
        law_lines_hold_no_breaks(step.buf, step.skip);
        vstd::utf8::decode_utf8_encode_utf8(line);
        law_one_line_has_no_break(decode_utf8(line));
        assert(is_break_free(line));
    }
}

/// A text on a line of its own, ended by `\r\n` or by `\n`.
pub open spec fn encode_line(text: Seq<char>, crlf: bool) -> Seq<u8> {
    encode_utf8(text) + if crlf {
        seq![CR, LF]
    } else {
        seq![LF]
    }
}

/// Several lines, each with its own line break.
pub open spec fn encode_lines(lines: Seq<(Seq<char>, bool)>) -> Seq<u8>
    decreases lines.len(),
{
    if lines.len() == 0 {
        seq![]
    } else {
        encode_line(lines[0].0, lines[0].1) + encode_lines(lines.skip(1))
    }
}

proof fn lemma_next_line_of_encoded(text: Seq<char>, brk: u8, rest: Seq<u8>)
    requires
        is_one_line(text),
        is_break(brk),
    ensures
        next_line(encode_utf8(text) + seq![brk] + rest, false) == (
        crate::net::tcp::line_reader::LineStep {
            line: Some(encode_utf8(text)),
            buf: rest,
            skip: brk == CR,
        }),
{
    law_one_line_has_no_break(text);
    let line = encode_utf8(text);
    let buf = line + seq![brk] + rest;
    let end = line.len() as int;
    assert forall|i: int| 0 <= i < end implies !is_break(#[trigger] buf[i]) by {
        assert(buf[i] == line[i]);
    }
    assert(buf[end] == brk);
    lemma_line_end_is(buf, end);
    assert(buf.take(end) =~= line);
    assert(buf.skip(end + 1) =~= rest);
}

/// A `\n` right behind a `\r` makes no difference.
proof fn lemma_all_lines_past_crlf(rest: Seq<u8>)
    ensures
        all_lines(seq![LF] + rest, true) == all_lines(rest, false),
{
    assert((seq![LF] + rest).skip(1) =~= rest);
    assert(next_line(seq![LF] + rest, true) == next_line(rest, false));
}

/// Reading gives back what was written: the lines of a stream that is made of texts, each ended
/// by `\n` or `\r\n`, are those texts, and an unfinished last line stays in the buffer.
pub proof fn law_lines_round_trip(lines: Seq<(Seq<char>, bool)>, tail: Seq<char>)
    requires
        forall|i: int| 0 <= i < lines.len() ==> is_one_line((#[trigger] lines[i]).0),
        is_one_line(tail),
    ensures
        all_lines(encode_lines(lines) + encode_utf8(tail), false) == (LineRun {
            lines: lines.map_values(|line: (Seq<char>, bool)| line.0),
            bad: None,
            buf: encode_utf8(tail),
            skip: false,
        }),
    decreases lines.len(),
{
    let texts = lines.map_values(|line: (Seq<char>, bool)| line.0);
    let end = encode_utf8(tail);
    let stream = encode_lines(lines) + end;
    if lines.len() == 0 {
        law_one_line_has_no_break(tail);
        assert(stream =~= end);
        lemma_line_end_is(stream, stream.len() as int);
        assert(texts =~= Seq::<Seq<char>>::empty());
    } else {
        let (text, crlf) = lines[0];
        let others = lines.skip(1);
        let rest = encode_lines(others) + end;
        assert forall|i: int| 0 <= i < others.len() implies is_one_line((#[trigger] others[i]).0) by {
            assert(others[i] == lines[i + 1]);
        }
        law_lines_round_trip(others, tail);
        assert(texts =~= seq![text] + others.map_values(|line: (Seq<char>, bool)| line.0));
        vstd::utf8::encode_utf8_valid_utf8(text);
        vstd::utf8::encode_utf8_decode_utf8(text);
        if crlf {
            lemma_next_line_of_encoded(text, CR, seq![LF] + rest);
            lemma_all_lines_past_crlf(rest);
            assert(stream =~= encode_utf8(text) + seq![CR] + (seq![LF] + rest));
        } else {
            lemma_next_line_of_encoded(text, LF, rest);
            assert(stream =~= encode_utf8(text) + seq![LF] + rest);
        }
    }
}

} // verus!
