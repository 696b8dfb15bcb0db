//! A [`PacketReceiver`] that converts the input stream into lines of text. Each line is either
//! `\n` or `\r\n` separated.

use vstd::prelude::*;
use vstd::utf8::{decode_utf8, valid_utf8};
use crate::net::tcp::session::{Packet, PacketReceiver, Received};

verus! {

/// Carriage return, `\r`.
pub const CR: u8 = 0x0d;

/// Line feed, `\n`.
pub const LF: u8 = 0x0a;

/// The error of `String::from_utf8`.
#[verifier::external_type_specification]
#[verifier::external_body]
pub struct ExFromUtf8Error(std::string::FromUtf8Error);

/// `String::from_utf8` of the standard library: it succeeds exactly on valid UTF-8, and the
/// string then holds the characters that the bytes encode.
pub assume_specification[ String::from_utf8 ](vec: Vec<u8>) -> (res: Result<
    String,
    std::string::FromUtf8Error,
>)
    ensures
        res is Ok <==> valid_utf8(vec@),
        res matches Ok(text) ==> text@ == decode_utf8(vec@),
;

/// Why a [`LineReader`] fails.
pub enum LineError {
    /// The line, without its line break, is not valid UTF-8.
    InvalidUtf8(Vec<u8>),
}

/// Reads lines out of packets, however the packets cut the stream.
pub struct LineReader {
    /// Bytes that have come in and belong to no line yet.
    pub buf: Vec<u8>,
    /// Set when the last line ended with `\r`: a `\n` that comes next belongs to that `\r`.
    pub skip: bool,
}

/// A byte that ends a line.
pub open spec fn is_break(b: u8) -> bool {
    b == CR || b == LF
}

/// How many bytes come before the first line break, or before the end if there is none.
pub open spec fn line_end(s: Seq<u8>) -> nat
    decreases s.len(),
{
    if s.len() == 0 || is_break(s[0]) {
        0
    } else {
        1 + line_end(s.skip(1))
    }
}

/// The bytes that are left once a `\n` that belongs to an earlier `\r` is taken off.
pub open spec fn past_crlf(buf: Seq<u8>, skip: bool) -> Seq<u8> {
    if skip && buf.len() > 0 && buf[0] == LF {
        buf.skip(1)
    } else {
        buf
    }
}

/// The next line, if it is complete, and the reader's state after it.
#[verifier::ext_equal]
pub struct LineStep {
    pub line: Option<Seq<u8>>,
    pub buf: Seq<u8>,
    pub skip: bool,
}

/// Takes the next complete line out of `buf`, without its line break.
pub open spec fn next_line(buf: Seq<u8>, skip: bool) -> LineStep {
    let body = past_crlf(buf, skip);
    let end = line_end(body) as int;
    if end < body.len() {
        LineStep {
            line: Some(body.take(end)),
            buf: body.skip(end + 1),
            skip: body[end] == CR,
        }
    } else {
        LineStep { line: None, buf: body, skip: skip && buf.len() == 0 }
    }
}

pub(crate) proof fn lemma_line_end(s: Seq<u8>)
    ensures
        line_end(s) <= s.len(),
        forall|i: int| 0 <= i < line_end(s) ==> !is_break(#[trigger] s[i]),
        line_end(s) < s.len() ==> is_break(s[line_end(s) as int]),
    decreases s.len(),
{
    if s.len() > 0 && !is_break(s[0]) {
        lemma_line_end(s.skip(1));
        assert forall|i: int| 0 <= i < line_end(s) implies !is_break(#[trigger] s[i]) by {
            if i > 0 {
                assert(s[i] == s.skip(1)[i - 1]);
            }
        }
    }
}

pub(crate) proof fn lemma_line_end_is(s: Seq<u8>, end: int)
    requires
        0 <= end <= s.len(),
        forall|i: int| 0 <= i < end ==> !is_break(#[trigger] s[i]),
        end < s.len() ==> is_break(s[end]),
    ensures
        line_end(s) == end,
{
    lemma_line_end(s);
}

/// Taking a line leaves fewer bytes behind.
pub proof fn lemma_next_line_shrinks(buf: Seq<u8>, skip: bool)
    ensures
        next_line(buf, skip).line is Some ==> next_line(buf, skip).buf.len() < buf.len(),
{
    lemma_line_end(past_crlf(buf, skip));
}

/// The lines that come out of a buffer, and the reader's state after them. If a line is not
/// valid UTF-8, it is `bad`, and nothing after it has been looked at.
#[verifier::ext_equal]
pub struct LineRun {
    pub lines: Seq<Seq<char>>,
    pub bad: Option<Seq<u8>>,
    pub buf: Seq<u8>,
    pub skip: bool,
}

/// Takes every complete line out of `buf`, up to the first that is not valid UTF-8.
pub open spec fn all_lines(buf: Seq<u8>, skip: bool) -> LineRun
    decreases buf.len(),
{
    let step = next_line(buf, skip);
    match step.line {
        None => LineRun { lines: seq![], bad: None, buf: step.buf, skip: step.skip },
        Some(line) => if valid_utf8(line) {
            proof {
                lemma_next_line_shrinks(buf, skip);
            }
            let rest = all_lines(step.buf, step.skip);
            LineRun { lines: seq![decode_utf8(line)] + rest.lines, ..rest }
        } else {
            LineRun { lines: seq![], bad: Some(line), buf: step.buf, skip: step.skip }
        },
    }
}

impl LineReader {
    /// A reader that has seen nothing.
    pub fn new() -> (reader: Self)
        ensures
            reader.buf@ == Seq::<u8>::empty(),
            !reader.skip,
    {
        LineReader { buf: Vec::new(), skip: false }
    }

    /// Takes one line out of the buffer: the bytes up to the first line break, behind a `\n` that
    /// belongs to an earlier `\r`. The flag tells whether to call again: it is set exactly when a
    /// line came out.
    pub fn process(&mut self) -> (res: (bool, Option<Vec<u8>>))
        ensures
            ({
                let step = next_line(old(self).buf@, old(self).skip);
                &&& final(self).buf@ == step.buf
                &&& final(self).skip == step.skip
                &&& res.0 == (step.line is Some)
                &&& res.1 is Some == step.line is Some
                &&& res.1 matches Some(line) ==> line@ == step.line->0
            }),
            ({
                let buf = old(self).buf@;
                let start = if old(self).skip && buf.len() > 0 && buf[0] == LF {
                    1int
                } else {
                    0int
                };
                match res.1 {
                    Some(line) => {
                        let end = start + line@.len();
                        &&& res.0
                        &&& end < buf.len()
                        &&& buf[end] == CR || buf[end] == LF
                        &&& line@ == buf.subrange(start, end)
                        &&& forall|i: int|
                            0 <= i < line@.len() ==> #[trigger] line@[i] != CR && line@[i] != LF
                        &&& final(self).buf@ == buf.skip(end + 1)
                        &&& final(self).skip == (buf[end] == CR)
                    },
                    None => {
                        &&& !res.0
                        &&& final(self).buf@ == buf.skip(start)
                        &&& forall|i: int|
                            start <= i < buf.len() ==> #[trigger] buf[i] != CR && buf[i] != LF
                        &&& final(self).skip == (old(self).skip && buf.len() == 0)
                    },
                }
            }),
    {
        // After a \r, a \n that comes next is skipped.
        if self.skip {
            if self.buf.len() == 0 {
                // One more byte is needed to tell.
                proof {
                    lemma_line_end(self.buf@);
                }
                return (false, None);
            }
            if self.buf[0] == LF {
                self.buf.remove(0);
                assert(self.buf@ =~= old(self).buf@.skip(1));
            }
            self.skip = false;
        }
        let ghost body = self.buf@;
        assert(body == past_crlf(old(self).buf@, old(self).skip));
        let ghost start = old(self).buf@.len() - body.len();
        assert(body =~= old(self).buf@.skip(start));
        let mut idx: usize = 0;
        while idx < self.buf.len() && self.buf[idx] != CR && self.buf[idx] != LF
            invariant
                idx <= self.buf@.len(),
                forall|i: int| 0 <= i < idx ==> !is_break(#[trigger] self.buf@[i]),
            decreases self.buf@.len() - idx,
        {
            idx = idx + 1;
        }
        proof {
            lemma_line_end_is(body, idx as int);
        }
        if idx == self.buf.len() {
            assert forall|i: int| start <= i < old(self).buf@.len() implies #[trigger] old(
                self,
            ).buf@[i] != CR && old(self).buf@[i] != LF by {
                assert(!is_break(body[i - start]));
            }
            return (false, None);
        }
        let mut line = self.buf.split_off(idx + 1);
        std::mem::swap(&mut self.buf, &mut line);
        if line[idx] == CR {
            self.skip = true;
        }
        line.pop();
        assert(line@ =~= body.take(idx as int));
        assert(self.buf@ =~= body.skip(idx as int + 1));
        (true, Some(line))
    }
}

impl PacketReceiver for LineReader {
    type Item = String;

    type Error = LineError;

    /// Any packet will do.
    open spec fn accepts(&self, packet: Seq<u8>) -> bool {
        true
    }

    /// The packet is put behind the buffered bytes, and every complete line is handed on, up to
    /// the first that is not valid UTF-8.
    open spec fn received(
        &self,
        packet: Seq<u8>,
        after: &Self,
        out: Received<String, LineError>,
    ) -> bool {
        let run = all_lines(self.buf@ + packet, self.skip);
        &&& out.items.deep_view() == run.lines
        &&& match run.bad {
            None => out.outcome is Ok,
            Some(line) => out.outcome matches Err(LineError::InvalidUtf8(bytes)) && bytes@ == line,
        }
        &&& after.buf@ == run.buf
        &&& after.skip == run.skip
    }

    fn can_accept(&self, packet: &Packet) -> (ok: bool)
        ensures
            ok,
    {
        true
    }

    fn packet_ready(&mut self, packet: Packet) -> (out: Received<String, LineError>) {
        self.buf.extend_from_slice(packet.as_slice());
        assert(self.buf@ =~= old(self).buf@ + packet@);
        let ghost run = all_lines(self.buf@, self.skip);
        let mut items: Vec<String> = Vec::new();
        assert(items.deep_view() =~= Seq::<Seq<char>>::empty());
        loop
            invariant
                run == all_lines(old(self).buf@ + packet@, old(self).skip),
                ({
                    let rest = all_lines(self.buf@, self.skip);
                    &&& run.lines =~= items.deep_view() + rest.lines
                    &&& run.bad == rest.bad
                    &&& run.buf == rest.buf
                    &&& run.skip == rest.skip
                }),
            decreases self.buf@.len(),
        {
            proof {
                lemma_next_line_shrinks(self.buf@, self.skip);
            }
            let (more, line) = self.process();
            if let Some(line) = line {
                let copy = line.clone();
                assert(copy@ =~= line@);
                match String::from_utf8(line) {
                    Ok(string) => {
                        let ghost sent = items.deep_view();
                        items.push(string);
                        assert(items.deep_view() =~= sent.push(string@));
                    },
                    Err(_) => {
                        return Received { items, outcome: Err(LineError::InvalidUtf8(copy)) };
                    },
                }
            }
            if !more {
                return Received { items, outcome: Ok(()) };
            }
        }
    }
}

} // verus!
