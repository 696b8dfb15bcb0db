//! A [`PacketReceiver`] that converts the input stream into frames of bytes. Each frame comes
//! behind a header of eight bytes: its length in big-endian order.

use bytes::BytesMut;
use vstd::prelude::*;
use crate::buffer;
use crate::net::tcp::session::{Packet, PacketReceiver, Received};

verus! {

/// A frame of data.
pub type Frame = Vec<u8>;

/// The length of the header.
pub const HEADER_LEN: usize = 8;

/// Reads frames out of packets, however the packets cut the stream.
pub struct FrameReader {
    /// Bytes that have come in and belong to no frame yet.
    pub buf: BytesMut,
    /// The length of the next frame, once its header has been read.
    pub len: Option<usize>,
}

/// The length that a header announces.
pub open spec fn header_value(buf: Seq<u8>) -> nat {
    buffer::be_value(buf.take(HEADER_LEN as int))
}

/// The next step of a reader: a header, or a frame, or neither if too few bytes are there.
#[verifier::ext_equal]
pub struct FrameStep {
    pub more: bool,
    pub frame: Option<Seq<u8>>,
    pub buf: Seq<u8>,
    pub len: Option<usize>,
}

/// Takes the next header off the front of `buf`, or the frame whose header has been read.
pub open spec fn next_frame(buf: Seq<u8>, len: Option<usize>) -> FrameStep {
    match len {
        None => if buf.len() < HEADER_LEN {
            FrameStep { more: false, frame: None, buf, len }
        } else {
            FrameStep {
                more: true,
                frame: None,
                buf: buf.skip(HEADER_LEN as int),
                len: Some(header_value(buf) as usize),
            }
        },
        Some(n) => if buf.len() < n {
            FrameStep { more: false, frame: None, buf, len }
        } else {
            FrameStep {
                more: true,
                frame: Some(buf.take(n as int)),
                buf: buf.skip(n as int),
                len: None,
            }
        },
    }
}

/// Frames, and the reader's state after them.
#[verifier::ext_equal]
pub struct FrameRun {
    pub frames: Seq<Seq<u8>>,
    pub buf: Seq<u8>,
    pub len: Option<usize>,
}

/// Takes every complete frame out of `buf`.
pub open spec fn all_frames(buf: Seq<u8>, len: Option<usize>) -> FrameRun
    decreases
            buf.len(),
            (if len is Some {
                1int
            } else {
                0int
            }),
{
    let step = next_frame(buf, len);
    if step.more {
        let rest = all_frames(step.buf, step.len);
        match step.frame {
            Some(frame) => FrameRun { frames: seq![frame] + rest.frames, ..rest },
            None => rest,
        }
    } else {
        FrameRun { frames: seq![], buf, len }
    }
}

/// The header that comes next, once it is there, announces a length that the machine can count.
pub open spec fn header_fits(buf: Seq<u8>, len: Option<usize>) -> bool {
    len is None && buf.len() >= HEADER_LEN ==> header_value(buf) <= usize::MAX
}

/// Every header in `buf` announces a length that the machine can count.
pub open spec fn headers_fit(buf: Seq<u8>, len: Option<usize>) -> bool
    decreases
            buf.len(),
            (if len is Some {
                1int
            } else {
                0int
            }),
{
    let step = next_frame(buf, len);
    &&& header_fits(buf, len)
    &&& step.more ==> headers_fit(step.buf, step.len)
}

/// Where a `usize` has as many bytes as a header, every header fits.
pub(crate) proof fn lemma_headers_fit(buf: Seq<u8>, len: Option<usize>)
    requires
        usize::MAX >= u64::MAX,
    ensures
        headers_fit(buf, len),
    decreases
            buf.len(),
            (if len is Some {
                1int
            } else {
                0int
            }),
{
    if len is None && buf.len() >= HEADER_LEN {
        buffer::law_be_value_of_eight_bytes(buf.take(HEADER_LEN as int));
    }
    let step = next_frame(buf, len);
    if step.more {
        lemma_headers_fit(step.buf, step.len);
    }
}

impl FrameReader {
    /// A reader that has seen nothing.
    pub fn new() -> (reader: Self)
        ensures
            buffer::contents(reader.buf) == Seq::<u8>::empty(),
            reader.len is None,
    {
        FrameReader { buf: buffer::empty(), len: None }
    }

    /// Takes the next header, or the frame that it announces, out of the buffer. The flag tells
    /// whether to call again: it is set exactly when something was taken.
    pub fn process(&mut self) -> (res: (bool, Option<BytesMut>))
        requires
            old(self).len is None && buffer::contents(old(self).buf).len() >= HEADER_LEN
                ==> buffer::be_value(buffer::contents(old(self).buf).take(HEADER_LEN as int))
                <= usize::MAX,
        ensures
            ({
                let step = next_frame(buffer::contents(old(self).buf), old(self).len);
                &&& buffer::contents(final(self).buf) == step.buf
                &&& final(self).len == step.len
                &&& res.0 == step.more
                &&& res.1 is Some == step.frame is Some
                &&& res.1 matches Some(frame) ==> buffer::contents(frame) == step.frame->0
            }),
            ({
                let before = buffer::contents(old(self).buf);
                let after = buffer::contents(final(self).buf);
                match (old(self).len, res.1) {
                    (None, None) => {
                        &&& res.0 <==> before.len() >= HEADER_LEN
                        &&& res.0 ==> after == before.skip(HEADER_LEN as int)
                        &&& res.0 ==> (final(self).len matches Some(n) && n == buffer::be_value(
                            before.take(HEADER_LEN as int),
                        ))
                        &&& !res.0 ==> after == before && final(self).len is None
                    },
                    (None, Some(_)) => false,
                    (Some(n), Some(frame)) => {
                        &&& res.0
                        &&& buffer::contents(frame).len() == n
                        &&& buffer::contents(frame) + after == before
                        &&& final(self).len is None
                    },
                    (Some(n), None) => {
                        &&& !res.0
                        &&& before.len() < n
                        &&& after == before
                        &&& final(self).len == Some(n)
                    },
                }
            }),
    {
        match self.len {
            None => {
                if buffer::len(&self.buf) < HEADER_LEN {
                    return (false, None);
                }
                let sz: u64 = buffer::get_u64(&mut self.buf);
                self.len = Some(sz as usize);
                (true, None)
            },
            Some(len) => {
                if buffer::len(&self.buf) >= len {
                    let data = buffer::split_to(&mut self.buf, len);
                    self.len = None;
                    (true, Some(data))
                } else {
                    (false, None)
                }
            },
        }
    }
}

impl PacketReceiver for FrameReader {
    type Item = Frame;

    /// A frame reader never fails.
    type Error = ();

    /// The buffer must be able to take the packet, and every header that is then there must
    /// announce a length that the machine can count.
    open spec fn accepts(&self, packet: Seq<u8>) -> bool {
        let buf = buffer::contents(self.buf) + packet;
        &&& buf.len() <= buffer::capacity_limit()
        &&& headers_fit(buf, self.len)
    }

    /// The packet is put behind the buffered bytes, and every complete frame is handed on.
    open spec fn received(
        &self,
        packet: Seq<u8>,
        after: &Self,
        out: Received<Frame, ()>,
    ) -> bool {
        let run = all_frames(buffer::contents(self.buf) + packet, self.len);
        &&& out.items.deep_view() == run.frames
        &&& out.outcome is Ok
        &&& buffer::contents(after.buf) == run.buf
        &&& after.len == run.len
    }

    fn can_accept(&self, packet: &Packet) -> (ok: bool) {
        let limit: usize = isize::MAX as usize / 4;
        let buffered: usize = buffer::len(&self.buf);
        if buffered > limit || packet.len() > limit - buffered {
            return false;
        }
        if usize::MAX as u64 == u64::MAX {
            proof {
                lemma_headers_fit(buffer::contents(self.buf) + packet@, self.len);
            }
            return true;
        }
        let mut probe = buffer::empty();
        buffer::extend(&mut probe, buffer::to_vec(&self.buf));
        let copy = packet.clone();
        assert(copy@ =~= packet@);
        buffer::extend(&mut probe, copy);
        let mut len: Option<usize> = self.len;
        assert(buffer::contents(probe) =~= buffer::contents(self.buf) + packet@);
        loop
            invariant
                buffer::contents(self.buf).len() + packet@.len() <= buffer::capacity_limit(),
                headers_fit(buffer::contents(self.buf) + packet@, self.len) == headers_fit(
                    buffer::contents(probe),
                    len,
                ),
            decreases
                    buffer::contents(probe).len(),
                    (if len is Some {
                        1int
                    } else {
                        0int
                    }),
        {
            match len {
                None => {
                    if buffer::len(&probe) < HEADER_LEN {
                        return true;
                    }
                    let sz: u64 = buffer::get_u64(&mut probe);
                    if sz > usize::MAX as u64 {
                        return false;
                    }
                    len = Some(sz as usize);
                },
                Some(n) => {
                    if buffer::len(&probe) < n {
                        return true;
                    }
                    buffer::split_to(&mut probe, n);
                    len = None;
                },
            }
        }
    }

    fn packet_ready(&mut self, packet: Packet) -> (out: Received<Frame, ()>) {
        buffer::extend(&mut self.buf, packet);
        let ghost all = buffer::contents(self.buf);
        let ghost run = all_frames(all, self.len);
        let mut items: Vec<Frame> = Vec::new();
        assert(items.deep_view() =~= Seq::<Seq<u8>>::empty());
        loop
            invariant
                run == all_frames(buffer::contents(old(self).buf) + packet@, old(self).len),
                headers_fit(buffer::contents(self.buf), self.len),
                ({
                    let rest = all_frames(buffer::contents(self.buf), self.len);
                    &&& run.frames =~= items.deep_view() + rest.frames
                    &&& run.buf == rest.buf
                    &&& run.len == rest.len
                }),
            decreases
                    buffer::contents(self.buf).len(),
                    (if self.len is Some {
                        1int
                    } else {
                        0int
                    }),
        {
            let (more, frame) = self.process();
            if let Some(frame) = frame {
                let ghost sent = items.deep_view();
                let frame = buffer::to_vec(&frame);
                items.push(frame);
                assert(frame.deep_view() =~= frame@);
                assert(items.deep_view() =~= sent.push(frame@));
            }
            if !more {
                return Received { items, outcome: Ok(()) };
            }
        }
    }
}

} // verus!
