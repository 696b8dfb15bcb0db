//! TCP session: what the actor that manages the communication on a single socket, and the reader
//! and the writer that it spawns, do on each event. Performing these steps is left to the actors.

use std::marker::PhantomData;
use vstd::prelude::*;
use crate::net::tcp::stream::{are_halves, can_split, info_of};
use crate::net::tcp::stream::{NetworkStream, NetworkStreamInfo, ReaderHalf, WriterHalf};

verus! {

/// A packet of data.
pub type Packet = Vec<u8>;

/// What a receiver makes of one packet: the items it hands on, in order, and whether it failed
/// after the last of them.
pub struct Received<T, E> {
    pub items: Vec<T>,
    pub outcome: Result<(), E>,
}

/// A receiver of packets of data.
pub trait PacketReceiver: Sized {
    /// What the receiver hands on.
    type Item;

    /// Why the receiver can fail.
    type Error;

    /// Whether the receiver can take this packet in its present state.
    spec fn accepts(&self, packet: Seq<u8>) -> bool;

    /// What taking this packet does: the receiver is `after` once it has handed on `out`.
    spec fn received(
        &self,
        packet: Seq<u8>,
        after: &Self,
        out: Received<Self::Item, Self::Error>,
    ) -> bool;

    /// Tells whether `packet_ready` may be called with this packet.
    fn can_accept(&self, packet: &Packet) -> (ok: bool)
        ensures
            ok == self.accepts(packet@),
    ;

    /// Called when a session has received a packet.
    fn packet_ready(&mut self, packet: Packet) -> (out: Received<Self::Item, Self::Error>)
        requires
            old(self).accepts(packet@),
        ensures
            old(self).received(packet@, final(self), out),
    ;
}

/// How many bytes the reader asks for at a time.
pub const READ_SIZE: usize = 8192;

/// The identity of an actor.
#[derive(Debug, PartialEq, Eq, Structural, Clone, Copy)]
pub enum ActorId {
    /// An actor of this system.
    Local(u64),
    /// An actor of another system.
    Remote { node_id: u64, pid: u64 },
}

/// Why an actor is told to stop.
#[derive(Debug, PartialEq, Eq, Structural, Clone, Copy)]
pub enum StopReason {
    /// The connection is closed.
    ChannelClosed,
    /// The session that the actor belongs to stops.
    SessionStopPanic,
    /// A child of the session has gone.
    ChildPanic,
}

/// The reason as it is told to the actor.
pub open spec fn reason_text(reason: StopReason) -> Seq<char> {
    match reason {
        StopReason::ChannelClosed => "channel_closed"@,
        StopReason::SessionStopPanic => "session_stop_panic"@,
        StopReason::ChildPanic => "child_panic"@,
    }
}

impl StopReason {
    /// The reason as it is told to the actor.
    pub fn text(&self) -> (text: &'static str)
        ensures
            text@ == reason_text(*self),
            *self is ChannelClosed ==> text@ == "channel_closed"@,
            *self is SessionStopPanic ==> text@ == "session_stop_panic"@,
            *self is ChildPanic ==> text@ == "child_panic"@,
    {
        match self {
            StopReason::ChannelClosed => "channel_closed",
            StopReason::SessionStopPanic => "session_stop_panic",
            StopReason::ChildPanic => "child_panic",
        }
    }
}

/// Supported messages by a [`TcpSession`].
pub enum TcpSessionMessage {
    /// Send a packet over the wire.
    Send(Packet),
    /// Received a packet from the [`SessionReader`] child.
    PacketReady(Packet),
}

/// What a session is told about the actors that it supervises.
#[derive(Debug, PartialEq, Eq, Structural, Clone, Copy)]
pub enum SupervisionEvent {
    /// An actor has exited.
    ActorTerminated(ActorId),
    /// An actor has panicked or failed.
    ActorFailed(ActorId),
    /// Anything else.
    Other,
}

/// The children of a session.
#[derive(Debug, PartialEq, Eq, Structural, Clone, Copy)]
pub enum Child {
    Reader,
    Writer,
    Unknown,
}

/// What a session does to shut down.
#[derive(Debug, PartialEq, Eq, Structural, Clone, Copy)]
pub enum SessionStep {
    /// Stop all children and wait until they are gone.
    StopChildrenAndWait(StopReason),
    /// Stop the session itself.
    Stop(StopReason),
}

/// What a session does with a message.
pub enum SessionEffect<T, E> {
    /// Pass this on to the writer.
    Cast(SessionWriterMessage),
    /// The receiver has taken a packet, with this result.
    Delivered(Received<T, E>),
}

/// State of a [`TcpSession`].
pub struct TcpSessionState<R, Addr> {
    pub writer: ActorId,
    pub reader: ActorId,
    pub receiver: R,
    pub stream_info: NetworkStreamInfo<Addr>,
}

/// Startup arguments to starting a tcp session.
pub struct TcpSessionStartupArguments<R, Stream> {
    /// The callback implementation for received messages.
    pub receiver: R,
    /// The stream to create the session upon.
    pub tcp_session: Stream,
}

/// A session that has split its stream and waits for its writer.
pub struct AwaitingWriter<R, Addr> {
    pub receiver: R,
    pub stream_info: NetworkStreamInfo<Addr>,
}

/// A session that has its writer and waits for its reader.
pub struct AwaitingReader<R, Addr> {
    pub receiver: R,
    pub stream_info: NetworkStreamInfo<Addr>,
    pub writer: ActorId,
}

impl<R, Addr> AwaitingWriter<R, Addr> {
    /// Goes on once the writer has been spawned. If that failed, the session does not start.
    pub fn writer_spawned<E>(self, spawned: Result<ActorId, E>) -> (res: Result<
        AwaitingReader<R, Addr>,
        E,
    >)
        ensures
            match spawned {
                Ok(writer) => res == Ok::<_, E>(
                    AwaitingReader {
                        receiver: self.receiver,
                        stream_info: self.stream_info,
                        writer,
                    },
                ),
                Err(err) => res == Err::<AwaitingReader<R, Addr>, E>(err),
            },
    {
        match spawned {
            Ok(writer) => Ok(
                AwaitingReader { receiver: self.receiver, stream_info: self.stream_info, writer },
            ),
            Err(err) => Err(err),
        }
    }
}

impl<R, Addr> AwaitingReader<R, Addr> {
    /// Goes on once the reader has been spawned. If that failed, the session does not start.
    pub fn reader_spawned<E>(self, spawned: Result<ActorId, E>) -> (res: Result<
        TcpSessionState<R, Addr>,
        E,
    >)
        ensures
            match spawned {
                Ok(reader) => res == Ok::<_, E>(
                    TcpSessionState {
                        writer: self.writer,
                        reader,
                        receiver: self.receiver,
                        stream_info: self.stream_info,
                    },
                ),
                Err(err) => res == Err::<TcpSessionState<R, Addr>, E>(err),
            },
    {
        match spawned {
            Ok(reader) => Ok(
                TcpSessionState {
                    writer: self.writer,
                    reader,
                    receiver: self.receiver,
                    stream_info: self.stream_info,
                },
            ),
            Err(err) => Err(err),
        }
    }
}

/// Which child of a session has this identity. The reader comes first.
pub open spec fn child_of<R, Addr>(state: TcpSessionState<R, Addr>, id: ActorId) -> Child {
    if id == state.reader {
        Child::Reader
    } else if id == state.writer {
        Child::Writer
    } else {
        Child::Unknown
    }
}

impl<R, Addr> TcpSessionState<R, Addr> {
    /// Tells which child of the session has this identity.
    pub fn child(&self, id: ActorId) -> (child: Child)
        ensures
            child == child_of(*self, id),
            child is Reader <==> id == self.reader,
            child is Writer <==> id == self.writer && id != self.reader,
    {
        if id == self.reader {
            Child::Reader
        } else if id == self.writer {
            Child::Writer
        } else {
            Child::Unknown
        }
    }
}

/// What a session does about a supervision event. If a child exits for any reason, the session
/// shuts down: first the children, then the session itself.
pub open spec fn shutdown_steps(event: SupervisionEvent) -> Seq<SessionStep> {
    match event {
        SupervisionEvent::ActorTerminated(_) | SupervisionEvent::ActorFailed(_) => seq![
            SessionStep::StopChildrenAndWait(StopReason::SessionStopPanic),
            SessionStep::Stop(StopReason::ChildPanic),
        ],
        SupervisionEvent::Other => seq![],
    }
}

/// What a session passes on to its writer.
pub open spec fn passed_to_writer(message: TcpSessionMessage) -> Option<SessionWriterMessage> {
    match message {
        TcpSessionMessage::Send(packet) => Some(SessionWriterMessage::Write(packet)),
        TcpSessionMessage::PacketReady(_) => None,
    }
}

/// A tcp-session management actor.
pub struct TcpSession<R> {
    pub _r: PhantomData<R>,
}

impl<R: PacketReceiver> Default for TcpSession<R> {
    fn default() -> (session: Self)
        ensures
            session == (TcpSession { _r: PhantomData::<R> }),
    {
        TcpSession::new()
    }
}

impl<R: PacketReceiver> TcpSession<R> {
    /// Create a new session.
    pub fn new() -> (session: Self)
        ensures
            session == (TcpSession { _r: PhantomData::<R> }),
    {
        TcpSession { _r: PhantomData }
    }

    /// Starts a session: splits its stream. The writer gets one half and is spawned first, the
    /// reader gets the other.
    pub fn pre_start<
        Addr: Copy,
        Raw,
        Server,
        Client,
        RR,
        RW,
        SR,
        SW,
        CR,
        CW,
        F: FnOnce(Raw) -> (RR, RW),
        G: FnOnce(Server) -> (SR, SW),
        H: FnOnce(Client) -> (CR, CW),
    >(
        &self,
        args: TcpSessionStartupArguments<R, NetworkStream<Addr, Raw, Server, Client>>,
        split_raw: F,
        split_server: G,
        split_client: H,
    ) -> (start: (
        AwaitingWriter<R, Addr>,
        ReaderHalf<SR, CR, RR>,
        WriterHalf<SW, CW, RW>,
    ))
        requires
            can_split(args.tcp_session, split_raw, split_server, split_client),
        ensures
            start.0.receiver == args.receiver,
            start.0.stream_info == info_of(args.tcp_session),
            are_halves(
                args.tcp_session,
                split_raw,
                split_server,
                split_client,
                start.1,
                start.2,
            ),
    {
        let stream_info = args.tcp_session.info();
        let (read, write) = args.tcp_session.into_split(split_raw, split_server, split_client);
        (AwaitingWriter { receiver: args.receiver, stream_info }, read, write)
    }

    /// Handles a message: a packet to send goes to the writer, and a packet that has come in goes
    /// to the receiver.
    pub fn handle<Addr>(
        &self,
        message: TcpSessionMessage,
        state: &mut TcpSessionState<R, Addr>,
    ) -> (effect: SessionEffect<R::Item, R::Error>)
        requires
            message matches TcpSessionMessage::PacketReady(packet)
                ==> old(state).receiver.accepts(packet@),
        ensures
            match message {
                TcpSessionMessage::Send(_) => {
                    &&& effect matches SessionEffect::Cast(to_writer)
                    &&& passed_to_writer(message) == Some(to_writer)
                    &&& to_writer == SessionWriterMessage::Write(message->Send_0)
                    &&& final(state).receiver == old(state).receiver
                },
                TcpSessionMessage::PacketReady(packet) => {
                    &&& effect matches SessionEffect::Delivered(out)
                    &&& old(state).receiver.received(packet@, &final(state).receiver, out)
                },
            },
            final(state).writer == old(state).writer,
            final(state).reader == old(state).reader,
            final(state).stream_info == old(state).stream_info,
    {
        match message {
            TcpSessionMessage::Send(packet) => {
                SessionEffect::Cast(SessionWriterMessage::Write(packet))
            },
            TcpSessionMessage::PacketReady(packet) => {
                SessionEffect::Delivered(state.receiver.packet_ready(packet))
            },
        }
    }

    /// Decides what to do about a supervision event.
    pub fn handle_supervisor_evt(&self, event: SupervisionEvent) -> (steps: Vec<SessionStep>)
        ensures
            steps@ == shutdown_steps(event),
            steps@.len() == (if event is Other {
                0int
            } else {
                2int
            }),
            event !is Other ==> steps@[0] == SessionStep::StopChildrenAndWait(
                StopReason::SessionStopPanic,
            ) && steps@[1] == SessionStep::Stop(StopReason::ChildPanic),
    {
        let mut steps: Vec<SessionStep> = Vec::new();
        match event {
            SupervisionEvent::ActorTerminated(_) | SupervisionEvent::ActorFailed(_) => {
                steps.push(SessionStep::StopChildrenAndWait(StopReason::SessionStopPanic));
                steps.push(SessionStep::Stop(StopReason::ChildPanic));
            },
            SupervisionEvent::Other => {},
        }
        assert(steps@ =~= shutdown_steps(event));
        steps
    }
}

// ---------------------------------------------------------------------------------------------
// The writer
// ---------------------------------------------------------------------------------------------

/// The child of a session that writes to the socket.
pub struct SessionWriter;

/// State of a [`SessionWriter`]: its half of the stream, until it stops.
pub struct SessionWriterState<W> {
    pub writer: Option<W>,
}

/// Messages to a [`SessionWriter`].
pub enum SessionWriterMessage {
    /// Write an object over the wire.
    Write(Vec<u8>),
}

/// What a writer does with a message.
pub enum WriterStep {
    /// Write all these bytes to the stream.
    WriteAll(Vec<u8>),
    /// Nothing: wait for the next message.
    Wait,
}

/// What a writer does with a message, while it has its half of the stream and after.
pub open spec fn writer_step(message: SessionWriterMessage, open: bool) -> WriterStep {
    match message {
        SessionWriterMessage::Write(bytes) => if open {
            WriterStep::WriteAll(bytes)
        } else {
            WriterStep::Wait
        },
    }
}

/// Whether a writer stops once a write is over, and why.
pub open spec fn stop_after_write(ok: bool) -> Option<StopReason> {
    if ok {
        None
    } else {
        Some(StopReason::ChannelClosed)
    }
}

impl SessionWriter {
    /// Starts a writer on its half of the stream.
    pub fn pre_start<W>(&self, writer: W) -> (state: SessionWriterState<W>)
        ensures
            state.writer == Some(writer),
    {
        SessionWriterState { writer: Some(writer) }
    }

    /// Gives up the half of the stream, which is closed when the caller drops it.
    pub fn post_stop<W>(&self, state: &mut SessionWriterState<W>) -> (writer: Option<W>)
        ensures
            writer == old(state).writer,
            final(state).writer is None,
    {
        state.writer.take()
    }

    /// Handles a message. Without a stream there is nothing to do.
    pub fn handle<W>(
        &self,
        message: SessionWriterMessage,
        state: &SessionWriterState<W>,
    ) -> (step: WriterStep)
        ensures
            step == writer_step(message, state.writer is Some),
            state.writer is Some ==> step == WriterStep::WriteAll(message->Write_0),
            state.writer is None ==> step is Wait,
    {
        match message {
            SessionWriterMessage::Write(bytes) => {
                if state.writer.is_some() {
                    WriterStep::WriteAll(bytes)
                } else {
                    WriterStep::Wait
                }
            },
        }
    }

    /// Decides whether to stop once a write is over: a writer that cannot write stops.
    pub fn written<E>(&self, result: &Result<(), E>) -> (stop: Option<StopReason>)
        ensures
            stop == stop_after_write(result is Ok),
            *result is Ok ==> stop is None,
            *result is Err ==> stop == Some(StopReason::ChannelClosed),
    {
        match result {
            Ok(_) => None,
            Err(_) => Some(StopReason::ChannelClosed),
        }
    }
}

// ---------------------------------------------------------------------------------------------
// The reader
// ---------------------------------------------------------------------------------------------

/// The child of a session that reads from the socket.
pub struct SessionReader;

/// State of a [`SessionReader`]: its half of the stream, until it stops, and its session.
pub struct SessionReaderState<H, S> {
    pub reader: Option<H>,
    pub session: S,
}

/// Startup arguments of a [`SessionReader`].
pub struct SessionReaderArgs<H, S> {
    pub reader: H,
    pub session: S,
}

/// What a reader does after a read.
pub enum ReaderStep {
    /// Pass this on to the session, and see whether that succeeds before reading again.
    Cast(TcpSessionMessage),
    /// Read no more, and stop.
    Stop(StopReason),
}

/// What a reader does once it has passed a packet on to the session.
pub enum AfterCast<E> {
    /// Read again.
    ReadAgain,
    /// End at once with this error. Nothing more is read or passed on.
    Fail(E),
}

/// What a reader does after a read that brought these bytes, or that failed. A read that brings
/// nothing, and one that fails, mean that the connection is gone.
pub open spec fn is_reader_step(read: Option<Seq<u8>>, step: ReaderStep) -> bool {
    match read {
        Some(bytes) => if bytes.len() == 0 {
            step == ReaderStep::Stop(StopReason::ChannelClosed)
        } else {
            step matches ReaderStep::Cast(TcpSessionMessage::PacketReady(packet)) && packet@ == bytes
        },
        None => step == ReaderStep::Stop(StopReason::ChannelClosed),
    }
}

/// What a reader does once it has passed a packet on, with this result.
pub open spec fn after_cast<E>(result: Result<(), E>) -> AfterCast<E> {
    match result {
        Ok(_) => AfterCast::ReadAgain,
        Err(err) => AfterCast::Fail(err),
    }
}

impl SessionReader {
    /// Starts a reader on its half of the stream.
    pub fn pre_start<H, S>(&self, args: SessionReaderArgs<H, S>) -> (state: SessionReaderState<H, S>)
        ensures
            state.reader == Some(args.reader),
            state.session == args.session,
    {
        SessionReaderState { reader: Some(args.reader), session: args.session }
    }

    /// Gives up the half of the stream, which is closed when the caller drops it.
    pub fn post_stop<H, S>(&self, state: &mut SessionReaderState<H, S>) -> (reader: Option<H>)
        ensures
            reader == old(state).reader,
            final(state).reader is None,
            final(state).session == old(state).session,
    {
        state.reader.take()
    }

    /// Decides what to do after a read into `buf` that brought so many bytes, or that failed.
    pub fn handle<E>(&self, buf: &[u8], result: &Result<usize, E>) -> (step: ReaderStep)
        requires
            result matches Ok(sz) ==> sz <= buf@.len(),
        ensures
            is_reader_step(
                match *result {
                    Ok(sz) => Some(buf@.take(sz as int)),
                    Err(_) => None,
                },
                step,
            ),
            match *result {
                Ok(sz) if sz > 0 => step matches ReaderStep::Cast(
                    TcpSessionMessage::PacketReady(packet),
                ) && packet@ == buf@.take(sz as int),
                _ => step == ReaderStep::Stop(StopReason::ChannelClosed),
            },
    {
        match result {
            Ok(sz) => {
                if *sz == 0 {
                    return ReaderStep::Stop(StopReason::ChannelClosed);
                }
                let packet = vstd::slice::slice_to_vec(
                    vstd::slice::slice_subrange(buf, 0, *sz),
                );
                assert(packet@ =~= buf@.take(*sz as int));
                ReaderStep::Cast(TcpSessionMessage::PacketReady(packet))
            },
            Err(_) => ReaderStep::Stop(StopReason::ChannelClosed),
        }
    }

    /// Decides how to go on once a packet has been passed on to the session, or could not be. An
    /// error ends the reader.
    pub fn passed_on<E>(&self, result: Result<(), E>) -> (next: AfterCast<E>)
        ensures
            next == after_cast(result),
            result is Ok ==> next is ReadAgain,
            result matches Err(err) ==> next == AfterCast::Fail(err),
    {
        match result {
            Ok(_) => AfterCast::ReadAgain,
            Err(err) => AfterCast::Fail(err),
        }
    }
}

} // verus!
