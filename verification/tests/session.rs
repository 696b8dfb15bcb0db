use ractor_actors::net::tcp::frame_reader::FrameReader;
use ractor_actors::net::tcp::line_reader::LineReader;
use ractor_actors::net::tcp::separator_reader::SeparatorReader;
use ractor_actors::net::tcp::session::{
    ActorId, AfterCast, Child, PacketReceiver, ReaderStep, SessionEffect, SessionReader,
    SessionReaderArgs, SessionStep, SessionWriter, SessionWriterMessage, StopReason,
    SupervisionEvent, TcpSession, TcpSessionMessage, TcpSessionStartupArguments, TcpSessionState,
    WriterStep, READ_SIZE,
};
use ractor_actors::net::tcp::stream::{NetworkStream, ReaderHalf, WriterHalf};

type Stream = NetworkStream<u16, &'static str, &'static str, &'static str>;

fn raw() -> Stream {
    NetworkStream::Raw { peer_addr: 1, local_addr: 2, stream: "raw" }
}

fn started<R: PacketReceiver>(receiver: R) -> TcpSessionState<R, u16> {
    let args = TcpSessionStartupArguments { receiver, tcp_session: raw() };
    let (start, read, write) = TcpSession::new().pre_start(
        args,
        |s| (format!("{} in", s), format!("{} out", s)),
        |s| (s, s),
        |s| (s, s),
    );
    assert!(matches!(read, ReaderHalf::Regular(half) if half == "raw in"));
    assert!(matches!(write, WriterHalf::Regular(half) if half == "raw out"));
    let start = match start.writer_spawned(Ok::<ActorId, ()>(ActorId::Local(7))) {
        Ok(start) => start,
        Err(_) => panic!("the writer is there"),
    };
    match start.reader_spawned(Ok::<ActorId, ()>(ActorId::Local(8))) {
        Ok(state) => state,
        Err(_) => panic!("the reader is there"),
    }
}

#[test]
fn session_starts_with_writer_and_reader() {
    let state = started(LineReader::new());
    assert_eq!(state.writer, ActorId::Local(7));
    assert_eq!(state.reader, ActorId::Local(8));
    assert_eq!(state.stream_info.peer_addr, 1);
    assert_eq!(state.stream_info.local_addr, 2);
}

#[test]
fn session_does_not_start_without_a_child() {
    let args = TcpSessionStartupArguments { receiver: LineReader::new(), tcp_session: raw() };
    let (start, _, _) = TcpSession::default().pre_start(args, |s| (s, s), |s| (s, s), |s| (s, s));
    assert!(matches!(start.writer_spawned(Err("no writer")), Err("no writer")));

    let args = TcpSessionStartupArguments { receiver: LineReader::new(), tcp_session: raw() };
    let (start, _, _) = TcpSession::default().pre_start(args, |s| (s, s), |s| (s, s), |s| (s, s));
    match start.writer_spawned(Ok(ActorId::Local(1))) {
        Ok(start) => {
            assert!(matches!(start.reader_spawned(Err("no reader")), Err("no reader")));
        }
        Err(err) => {
            let _: &str = err;
            panic!("the writer is there")
        }
    }
}

#[test]
fn packet_to_send_goes_to_the_writer() {
    let mut state = started(LineReader::new());
    let effect = TcpSession::new().handle(TcpSessionMessage::Send(vec![1, 2]), &mut state);
    let message = match effect {
        SessionEffect::Cast(message) => message,
        SessionEffect::Delivered(_) => panic!("nothing was received"),
    };
    let mut writer = SessionWriter.pre_start("half");
    match SessionWriter.handle(message, &writer) {
        WriterStep::WriteAll(bytes) => assert_eq!(bytes, vec![1, 2]),
        WriterStep::Wait => panic!("the writer has its half"),
    }
    assert_eq!(SessionWriter.post_stop(&mut writer), Some("half"));
    let step = SessionWriter.handle(SessionWriterMessage::Write(vec![1, 2]), &writer);
    assert!(matches!(step, WriterStep::Wait));
    assert!(SessionWriter.post_stop(&mut writer).is_none());
}

#[test]
fn packet_that_has_come_in_goes_to_the_receiver() {
    let mut state = started(LineReader::new());
    let message = TcpSessionMessage::PacketReady(b"hi\nyou".to_vec());
    match TcpSession::new().handle(message, &mut state) {
        SessionEffect::Delivered(out) => {
            assert!(out.outcome.is_ok());
            assert_eq!(out.items, vec!["hi".to_string()]);
        }
        SessionEffect::Cast(_) => panic!("nothing is to be written"),
    }
    assert_eq!(state.receiver.buf, b"you".to_vec());

    let mut state = started(FrameReader::new());
    let message = TcpSessionMessage::PacketReady(vec![0, 0, 0, 0, 0, 0, 0, 1, 9]);
    match TcpSession::new().handle(message, &mut state) {
        SessionEffect::Delivered(out) => assert_eq!(out.items, vec![vec![9]]),
        SessionEffect::Cast(_) => panic!("nothing is to be written"),
    }
}

#[test]
fn receiver_failure_reaches_the_session() {
    let mut state = started(LineReader::new());
    let message = TcpSessionMessage::PacketReady(vec![0xff, b'\n']);
    match TcpSession::new().handle(message, &mut state) {
        SessionEffect::Delivered(out) => assert!(out.outcome.is_err()),
        SessionEffect::Cast(_) => panic!("nothing is to be written"),
    }
}

#[test]
fn lost_child_shuts_the_session_down() {
    let session = TcpSession::<LineReader>::new();
    let shutdown = vec![
        SessionStep::StopChildrenAndWait(StopReason::SessionStopPanic),
        SessionStep::Stop(StopReason::ChildPanic),
    ];
    let id = ActorId::Remote { node_id: 1, pid: 2 };
    assert_eq!(session.handle_supervisor_evt(SupervisionEvent::ActorFailed(id)), shutdown);
    assert_eq!(session.handle_supervisor_evt(SupervisionEvent::ActorTerminated(id)), shutdown);
    assert!(session.handle_supervisor_evt(SupervisionEvent::Other).is_empty());
}

#[test]
fn session_knows_its_children() {
    let mut state = started(LineReader::new());
    assert_eq!(state.child(ActorId::Local(7)), Child::Writer);
    assert_eq!(state.child(ActorId::Local(8)), Child::Reader);
    assert_eq!(state.child(ActorId::Remote { node_id: 8, pid: 8 }), Child::Unknown);
    state.writer = state.reader;
    assert_eq!(state.child(ActorId::Local(8)), Child::Reader);
}

#[test]
fn stop_reasons_have_their_texts() {
    assert_eq!(StopReason::ChannelClosed.text(), "channel_closed");
    assert_eq!(StopReason::SessionStopPanic.text(), "session_stop_panic");
    assert_eq!(StopReason::ChildPanic.text(), "child_panic");
}

#[test]
fn writer_that_cannot_write_stops() {
    assert_eq!(SessionWriter.written(&Ok::<(), ()>(())), None);
    assert_eq!(SessionWriter.written(&Err("broken pipe")), Some(StopReason::ChannelClosed));
}

#[test]
fn reader_passes_on_what_it_reads() {
    let mut buf = [0u8; READ_SIZE];
    buf[0] = 5;
    buf[1] = 6;
    match SessionReader.handle(&buf, &Ok::<usize, ()>(2)) {
        ReaderStep::Cast(TcpSessionMessage::PacketReady(packet)) => assert_eq!(packet, vec![5, 6]),
        _ => panic!("two bytes were read"),
    }
    match SessionReader.handle(&buf, &Ok::<usize, ()>(READ_SIZE)) {
        ReaderStep::Cast(TcpSessionMessage::PacketReady(packet)) => assert_eq!(packet, buf.to_vec()),
        _ => panic!("the buffer was filled"),
    }
}

#[test]
fn reader_stops_at_the_end_of_the_stream() {
    let buf = [0u8; READ_SIZE];
    let step = SessionReader.handle(&buf, &Ok::<usize, ()>(0));
    assert!(matches!(step, ReaderStep::Stop(StopReason::ChannelClosed)));
}

#[test]
fn reader_stops_after_a_failed_read() {
    let buf = [7u8; READ_SIZE];
    let step = SessionReader.handle(&buf, &Err("reset"));
    assert!(matches!(step, ReaderStep::Stop(StopReason::ChannelClosed)));
}

#[test]
fn reader_reads_again_once_the_session_has_the_packet() {
    let next = SessionReader.passed_on(Ok::<(), &str>(()));
    assert!(matches!(next, AfterCast::ReadAgain));
}

#[test]
fn reader_fails_when_the_session_cannot_be_told() {
    let next = SessionReader.passed_on(Err("session is gone"));
    assert!(matches!(next, AfterCast::Fail("session is gone")));
}

#[test]
fn reader_gives_its_half_up() {
    let mut state = SessionReader.pre_start(SessionReaderArgs { reader: "half", session: 3 });
    assert_eq!(state.reader, Some("half"));
    assert_eq!(state.session, 3);
    assert_eq!(SessionReader.post_stop(&mut state), Some("half"));
    assert_eq!(state.reader, None);
    assert_eq!(state.session, 3);
}

#[test]
fn separator_reader_keeps_its_separator() {
    let reader = SeparatorReader { separator: b';' };
    assert_eq!(reader.separator, b';');
}
