use ractor_actors::net::tcp::stream::{
    IncomingEncryptionMode, NetworkStream, ReadNBytes, ReaderHalf, UnexpectedEof, WriterHalf,
};

/// An IPv4 address and a port.
type Addr = ([u8; 4], u16);

type Stream = NetworkStream<Addr, u8, u16, u32>;

fn peer() -> Addr {
    ([127, 0, 0, 1], 9999)
}

fn local() -> Addr {
    ([10, 0, 0, 2], 4242)
}

fn streams() -> Vec<Stream> {
    vec![
        NetworkStream::Raw { peer_addr: peer(), local_addr: local(), stream: 1 },
        NetworkStream::TlsServer { peer_addr: peer(), local_addr: local(), stream: 2 },
        NetworkStream::TlsClient { peer_addr: peer(), local_addr: local(), stream: 3 },
    ]
}

#[test]
fn stream_knows_its_addresses() {
    for stream in streams() {
        assert_eq!(stream.peer_addr(), peer());
        assert_eq!(stream.local_addr(), local());
        let info = stream.info();
        assert_eq!(info.peer_addr, peer());
        assert_eq!(info.local_addr, local());
    }
}

#[test]
fn halves_keep_the_kind_of_the_stream() {
    let mut kinds = Vec::new();
    for stream in streams() {
        let (read, write) =
            stream.into_split(|s| (s + 10, s + 20), |s| (s + 30, s + 40), |s| (s + 50, s + 60));
        kinds.push(match (read, write) {
            (ReaderHalf::Regular(r), WriterHalf::Regular(w)) => ("raw", r as u32, w as u32),
            (ReaderHalf::ServerTls(r), WriterHalf::ServerTls(w)) => ("server", r as u32, w as u32),
            (ReaderHalf::ClientTls(r), WriterHalf::ClientTls(w)) => ("client", r, w),
            _ => panic!("the halves are of different kinds"),
        });
    }
    assert_eq!(kinds, vec![("raw", 11, 21), ("server", 32, 42), ("client", 53, 63)]);
}

#[test]
fn exactly_the_wanted_bytes_are_read() {
    let mut reading = ReadNBytes::new(5);
    assert_eq!(reading.missing(), 5);
    assert_eq!(reading.on_read(b"ab"), Ok(()));
    assert_eq!(reading.missing(), 3);
    assert_eq!(reading.on_read(b"c"), Ok(()));
    assert_eq!(reading.on_read(b"de"), Ok(()));
    assert_eq!(reading.missing(), 0);
    assert_eq!(reading.finish(), b"abcde".to_vec());
}

#[test]
fn end_of_stream_is_an_error() {
    let mut reading = ReadNBytes::new(2);
    assert_eq!(reading.on_read(b"a"), Ok(()));
    assert_eq!(reading.on_read(b""), Err(UnexpectedEof));
    assert_eq!(reading.missing(), 1);
}

#[test]
fn no_bytes_are_there_at_once() {
    let reading = ReadNBytes::new(0);
    assert_eq!(reading.missing(), 0);
    assert!(reading.finish().is_empty());
}

#[test]
fn encryption_mode_keeps_its_acceptor() {
    let mode = IncomingEncryptionMode::Tls(3);
    assert!(matches!(mode.clone(), IncomingEncryptionMode::Tls(3)));
    let raw: IncomingEncryptionMode<u8> = IncomingEncryptionMode::Raw;
    assert!(matches!(raw, IncomingEncryptionMode::Raw));
}
