//! Network streams, plain or encrypted, and the halves that they split into.
//!
//! The types here are generic over addresses and sockets: they say which kind of stream goes
//! where, and never look inside one.

use vstd::prelude::*;

verus! {

/// A network port.
pub type NetworkPort = u16;

/// Incoming encryption mode.
pub enum IncomingEncryptionMode<Acceptor> {
    /// Accept sockets raw, with no encryption.
    Raw,
    /// Accept sockets and establish a secure connection.
    Tls(Acceptor),
}

impl<Acceptor: Clone> Clone for IncomingEncryptionMode<Acceptor> {
    fn clone(&self) -> (mode: Self)
        ensures
            match *self {
                IncomingEncryptionMode::Raw => mode is Raw,
                IncomingEncryptionMode::Tls(acceptor) => mode matches IncomingEncryptionMode::Tls(copy)
                    && cloned::<Acceptor>(acceptor, copy),
            },
    {
        match self {
            IncomingEncryptionMode::Raw => IncomingEncryptionMode::Raw,
            IncomingEncryptionMode::Tls(acceptor) => IncomingEncryptionMode::Tls(acceptor.clone()),
        }
    }
}

/// A network data stream which can either be
/// 1. unencrypted
/// 2. encrypted and the server-side of the session
/// 3. encrypted and the client-side of the session
#[allow(inconsistent_fields)]
pub enum NetworkStream<Addr, Raw, Server, Client> {
    /// Unencrypted session.
    Raw {
        /// The peer's address.
        peer_addr: Addr,
        /// The local address.
        local_addr: Addr,
        /// The stream.
        stream: Raw,
    },
    /// Encrypted as the server-side of the session.
    TlsServer {
        /// The peer's address.
        peer_addr: Addr,
        /// The local address.
        local_addr: Addr,
        /// The stream.
        stream: Server,
    },
    /// Encrypted as the client-side of the session.
    TlsClient {
        /// The peer's address.
        peer_addr: Addr,
        /// The local address.
        local_addr: Addr,
        /// The stream.
        stream: Client,
    },
}

/// The two ends of a network stream.
pub struct NetworkStreamInfo<Addr> {
    pub peer_addr: Addr,
    pub local_addr: Addr,
}

/// The half of a stream that is read.
pub enum ReaderHalf<Server, Client, Regular> {
    ServerTls(Server),
    ClientTls(Client),
    Regular(Regular),
}

/// The half of a stream that is written.
pub enum WriterHalf<Server, Client, Regular> {
    ServerTls(Server),
    ClientTls(Client),
    Regular(Regular),
}

/// The two ends of a stream.
pub open spec fn info_of<Addr, Raw, Server, Client>(
    stream: NetworkStream<Addr, Raw, Server, Client>,
) -> NetworkStreamInfo<Addr> {
    match stream {
        NetworkStream::Raw { peer_addr, local_addr, .. } => NetworkStreamInfo {
            peer_addr,
            local_addr,
        },
        NetworkStream::TlsServer { peer_addr, local_addr, .. } => NetworkStreamInfo {
            peer_addr,
            local_addr,
        },
        NetworkStream::TlsClient { peer_addr, local_addr, .. } => NetworkStreamInfo {
            peer_addr,
            local_addr,
        },
    }
}

/// Whether the socket inside a stream can be given to the function that splits its kind.
pub open spec fn can_split<
    Addr,
    Raw,
    Server,
    Client,
    RawHalves,
    ServerHalves,
    ClientHalves,
    F: FnOnce(Raw) -> RawHalves,
    G: FnOnce(Server) -> ServerHalves,
    H: FnOnce(Client) -> ClientHalves,
>(
    stream: NetworkStream<Addr, Raw, Server, Client>,
    split_raw: F,
    split_server: G,
    split_client: H,
) -> bool {
    match stream {
        NetworkStream::Raw { stream, .. } => call_requires(split_raw, (stream,)),
        NetworkStream::TlsServer { stream, .. } => call_requires(split_server, (stream,)),
        NetworkStream::TlsClient { stream, .. } => call_requires(split_client, (stream,)),
    }
}

/// Whether `reader` and `writer` are the halves of a stream: its socket, split by the function
/// for its kind, and marked with that kind.
pub open spec fn are_halves<
    Addr,
    Raw,
    Server,
    Client,
    RR,
    RW,
    SR,
    SW,
    CR,
    CW,
    F: FnOnce(Raw) -> (RR, RW),
    G: FnOnce(Server) -> (SR, SW),
    H: FnOnce(Client) -> (CR, CW),
>(
    stream: NetworkStream<Addr, Raw, Server, Client>,
    split_raw: F,
    split_server: G,
    split_client: H,
    reader: ReaderHalf<SR, CR, RR>,
    writer: WriterHalf<SW, CW, RW>,
) -> bool {
    match stream {
        NetworkStream::Raw { stream, .. } => {
            &&& reader matches ReaderHalf::Regular(r)
            &&& writer matches WriterHalf::Regular(w)
            &&& call_ensures(split_raw, (stream,), (r, w))
        },
        NetworkStream::TlsServer { stream, .. } => {
            &&& reader matches ReaderHalf::ServerTls(r)
            &&& writer matches WriterHalf::ServerTls(w)
            &&& call_ensures(split_server, (stream,), (r, w))
        },
        NetworkStream::TlsClient { stream, .. } => {
            &&& reader matches ReaderHalf::ClientTls(r)
            &&& writer matches WriterHalf::ClientTls(w)
            &&& call_ensures(split_client, (stream,), (r, w))
        },
    }
}

impl<Addr: Copy, Raw, Server, Client> NetworkStream<Addr, Raw, Server, Client> {
    /// Retrieve both socket addresses.
    pub fn info(&self) -> (info: NetworkStreamInfo<Addr>)
        ensures
            info == info_of(*self),
            match *self {
                NetworkStream::Raw { peer_addr, local_addr, .. } => info.peer_addr == peer_addr
                    && info.local_addr == local_addr,
                NetworkStream::TlsServer { peer_addr, local_addr, .. } => info.peer_addr
                    == peer_addr && info.local_addr == local_addr,
                NetworkStream::TlsClient { peer_addr, local_addr, .. } => info.peer_addr
                    == peer_addr && info.local_addr == local_addr,
            },
    {
        NetworkStreamInfo { peer_addr: self.peer_addr(), local_addr: self.local_addr() }
    }

    /// Retrieve the peer (other) socket address.
    pub fn peer_addr(&self) -> (addr: Addr)
        ensures
            addr == info_of(*self).peer_addr,
            match *self {
                NetworkStream::Raw { peer_addr, .. } => addr == peer_addr,
                NetworkStream::TlsServer { peer_addr, .. } => addr == peer_addr,
                NetworkStream::TlsClient { peer_addr, .. } => addr == peer_addr,
            },
    {
        match self {
            NetworkStream::Raw { peer_addr, .. } => *peer_addr,
            NetworkStream::TlsServer { peer_addr, .. } => *peer_addr,
            NetworkStream::TlsClient { peer_addr, .. } => *peer_addr,
        }
    }

    /// Retrieve the local socket address.
    pub fn local_addr(&self) -> (addr: Addr)
        ensures
            addr == info_of(*self).local_addr,
            match *self {
                NetworkStream::Raw { local_addr, .. } => addr == local_addr,
                NetworkStream::TlsServer { local_addr, .. } => addr == local_addr,
                NetworkStream::TlsClient { local_addr, .. } => addr == local_addr,
            },
    {
        match self {
            NetworkStream::Raw { local_addr, .. } => *local_addr,
            NetworkStream::TlsServer { local_addr, .. } => *local_addr,
            NetworkStream::TlsClient { local_addr, .. } => *local_addr,
        }
    }

    /// Split the stream into the half that is read and the half that is written. Each kind of
    /// socket has its own way to be split.
    pub fn into_split<
        RR,
        RW,
        SR,
        SW,
        CR,
        CW,
        F: FnOnce(Raw) -> (RR, RW),
        G: FnOnce(Server) -> (SR, SW),
        H: FnOnce(Client) -> (CR, CW),
    >(self, split_raw: F, split_server: G, split_client: H) -> (halves: (
        ReaderHalf<SR, CR, RR>,
        WriterHalf<SW, CW, RW>,
    ))
        requires
            can_split(self, split_raw, split_server, split_client),
        ensures
            are_halves(self, split_raw, split_server, split_client, halves.0, halves.1),
    {
        match self {
            NetworkStream::Raw { stream, .. } => {
                let (read, write) = split_raw(stream);
                (ReaderHalf::Regular(read), WriterHalf::Regular(write))
            },
            NetworkStream::TlsClient { stream, .. } => {
                let (read, write) = split_client(stream);
                (ReaderHalf::ClientTls(read), WriterHalf::ClientTls(write))
            },
            NetworkStream::TlsServer { stream, .. } => {
                let (read, write) = split_server(stream);
                (ReaderHalf::ServerTls(read), WriterHalf::ServerTls(write))
            },
        }
    }
}

/// The stream ended before all the bytes had come.
#[derive(Debug, PartialEq, Eq, Structural, Clone, Copy)]
pub struct UnexpectedEof;

/// Reading exactly so many bytes from a stream, whatever number of bytes each read brings.
pub struct ReadNBytes {
    buf: Vec<u8>,
    len: usize,
}

impl ReadNBytes {
    /// The bytes that have come so far.
    pub closed spec fn bytes(&self) -> Seq<u8> {
        self.buf@
    }

    /// How many bytes are wanted in all.
    pub closed spec fn wanted(&self) -> nat {
        self.len as nat
    }

    /// Never are there more bytes than wanted.
    pub open spec fn wf(&self) -> bool {
        self.bytes().len() <= self.wanted() <= usize::MAX
    }

    /// Starts to read `len` bytes.
    pub fn new(len: usize) -> (reading: Self)
        ensures
            reading.wf(),
            reading.bytes() == Seq::<u8>::empty(),
            reading.wanted() == len,
    {
        ReadNBytes { buf: Vec::new(), len }
    }

    /// How many bytes are still to come: as many as the next read may bring. Once there are none,
    /// no more is to be read.
    pub fn missing(&self) -> (n: usize)
        requires
            self.wf(),
        ensures
            n == self.wanted() - self.bytes().len(),
    {
        self.len - self.buf.len()
    }

    /// Takes what one read has brought. A read that brings nothing means that the stream is at
    /// its end.
    pub fn on_read(&mut self, chunk: &[u8]) -> (res: Result<(), UnexpectedEof>)
        requires
            old(self).wf(),
            old(self).bytes().len() < old(self).wanted(),
            old(self).bytes().len() + chunk@.len() <= old(self).wanted(),
        ensures
            final(self).wf(),
            final(self).wanted() == old(self).wanted(),
            final(self).bytes() == old(self).bytes() + chunk@,
            res is Err <==> chunk@.len() == 0,
            forall|later: Seq<Seq<u8>>| #[trigger]
                read_n(old(self).wanted(), old(self).bytes(), seq![chunk@] + later) == (match res {
                    Ok(_) => read_n(final(self).wanted(), final(self).bytes(), later),
                    Err(_) => ReadEnd::Eof,
                }),
    {
        assert(forall|later: Seq<Seq<u8>>| (#[trigger] (seq![chunk@] + later)).drop_first() =~= later);
        if chunk.len() == 0 {
            assert(self.bytes() =~= old(self).bytes() + chunk@);
            return Err(UnexpectedEof);
        }
        self.buf.extend_from_slice(chunk);
        assert(self.bytes() =~= old(self).bytes() + chunk@);
        Ok(())
    }

    /// Hands the bytes over, once they are all there.
    pub fn finish(self) -> (bytes: Vec<u8>)
        requires
            self.wf(),
            self.bytes().len() == self.wanted(),
        ensures
            bytes@ == self.bytes(),
            bytes@.len() == self.wanted(),
            forall|later: Seq<Seq<u8>>| #[trigger]
                read_n(self.wanted(), self.bytes(), later) == ReadEnd::Done(bytes@, later.len()),
    {
        self.buf
    }
}

/// How a series of reads for `len` bytes ends.
#[verifier::ext_equal]
pub enum ReadEnd {
    /// With the bytes, and with this many reads not needed.
    Done(Seq<u8>, nat),
    /// At the end of the stream.
    Eof,
    /// Not yet.
    Waiting(Seq<u8>),
}

/// What becomes of `got` with further reads.
pub open spec fn read_n(len: nat, got: Seq<u8>, reads: Seq<Seq<u8>>) -> ReadEnd
    decreases reads.len(),
{
    if got.len() >= len {
        ReadEnd::Done(got, reads.len())
    } else if reads.len() == 0 {
        ReadEnd::Waiting(got)
    } else if reads[0].len() == 0 {
        ReadEnd::Eof
    } else {
        read_n(len, got + reads[0], reads.drop_first())
    }
}

/// Reading `len` bytes gives the next `len` bytes of the stream, in order, and takes no more from
/// it: it does not matter how many bytes each read brings.
pub proof fn law_read_n_gives_the_stream(got: Seq<u8>, reads: Seq<Seq<u8>>)
    requires
        forall|i: int| 0 <= i < reads.len() ==> (#[trigger] reads[i]).len() > 0,
    ensures
        read_n(got.len() + reads.flatten().len(), got, reads) == ReadEnd::Done(
            got + reads.flatten(),
            0,
        ),
    decreases reads.len(),
{
    if reads.len() == 0 {
        assert(got + reads.flatten() =~= got);
    } else {
        let rest = reads.drop_first();
        assert forall|i: int| 0 <= i < rest.len() implies (#[trigger] rest[i]).len() > 0 by {
            assert(rest[i] == reads[i + 1]);
        }
        assert(reads[0].len() > 0);
        assert(reads.flatten() =~= reads[0] + rest.flatten());
        law_read_n_gives_the_stream(got + reads[0], rest);
        assert((got + reads[0]) + rest.flatten() =~= got + reads.flatten());
    }
}

/// A stream that ends early never gives its bytes out as if they were all there.
pub proof fn law_read_n_sees_the_end(len: nat, got: Seq<u8>, reads: Seq<Seq<u8>>)
    requires
        forall|i: int| 0 <= i < reads.len() ==> (#[trigger] reads[i]).len() > 0,
        got.len() + reads.flatten().len() < len,
    ensures
        read_n(len, got, reads.push(Seq::empty())) == ReadEnd::Eof,
    decreases reads.len(),
{
    let all = reads.push(Seq::<u8>::empty());
    if reads.len() > 0 {
        let rest = reads.drop_first();
        assert forall|i: int| 0 <= i < rest.len() implies (#[trigger] rest[i]).len() > 0 by {
            assert(rest[i] == reads[i + 1]);
        }
        assert(reads[0].len() > 0);
        assert(reads.flatten() =~= reads[0] + rest.flatten());
        law_read_n_sees_the_end(len, got + reads[0], rest);
        assert(all.drop_first() =~= rest.push(Seq::<u8>::empty()));
        assert(all[0] == reads[0]);
    }
}

/// A stream is told by its addresses: whatever its kind and its socket, the ends that are told of
/// it are the two that it was made with, and neither stands in for the other.
pub proof fn law_ends_are_those_of_the_stream<Addr, Raw, Server, Client>(
    peer: Addr,
    local: Addr,
    raw: Raw,
    server: Server,
    client: Client,
)
    ensures
        ({
            let ends = NetworkStreamInfo { peer_addr: peer, local_addr: local };
            &&& info_of(
                NetworkStream::<Addr, Raw, Server, Client>::Raw {
                    peer_addr: peer,
                    local_addr: local,
                    stream: raw,
                },
            ) == ends
            &&& info_of(
                NetworkStream::<Addr, Raw, Server, Client>::TlsServer {
                    peer_addr: peer,
                    local_addr: local,
                    stream: server,
                },
            ) == ends
            &&& info_of(
                NetworkStream::<Addr, Raw, Server, Client>::TlsClient {
                    peer_addr: peer,
                    local_addr: local,
                    stream: client,
                },
            ) == ends
        }),
{
}

/// A plain stream can be split whenever its socket can. Its halves are the two that its own
/// function makes of the socket, the first to be read and the second to be written, and they keep
/// its kind. The addresses and the functions for the other kinds have no part in it.
pub proof fn law_raw_stream_splits_into_its_halves<
    Addr,
    Raw,
    Server,
    Client,
    RR,
    RW,
    SR,
    SW,
    CR,
    CW,
    F: FnOnce(Raw) -> (RR, RW),
    G: FnOnce(Server) -> (SR, SW),
    H: FnOnce(Client) -> (CR, CW),
>(
    peer: Addr,
    local: Addr,
    socket: Raw,
    split_raw: F,
    split_server: G,
    split_client: H,
    reader: ReaderHalf<SR, CR, RR>,
    writer: WriterHalf<SW, CW, RW>,
)
    ensures
        ({
            let stream = NetworkStream::<Addr, Raw, Server, Client>::Raw {
                peer_addr: peer,
                local_addr: local,
                stream: socket,
            };
            &&& can_split(stream, split_raw, split_server, split_client) <==> call_requires(
                split_raw,
                (socket,),
            )
            &&& are_halves(stream, split_raw, split_server, split_client, reader, writer) <==> (
            reader is Regular && writer is Regular && call_ensures(
                split_raw,
                (socket,),
                (reader->Regular_0, writer->Regular_0),
            ))
        }),
{
}

/// An encrypted server-side stream can be split whenever its socket can. Its halves are the two that its own
/// function makes of the socket, the first to be read and the second to be written, and they keep
/// its kind. The addresses and the functions for the other kinds have no part in it.
pub proof fn law_server_stream_splits_into_its_halves<
    Addr,
    Raw,
    Server,
    Client,
    RR,
    RW,
    SR,
    SW,
    CR,
    CW,
    F: FnOnce(Raw) -> (RR, RW),
    G: FnOnce(Server) -> (SR, SW),
    H: FnOnce(Client) -> (CR, CW),
>(
    peer: Addr,
    local: Addr,
    socket: Server,
    split_raw: F,
    split_server: G,
    split_client: H,
    reader: ReaderHalf<SR, CR, RR>,
    writer: WriterHalf<SW, CW, RW>,
)
    ensures
        ({
            let stream = NetworkStream::<Addr, Raw, Server, Client>::TlsServer {
                peer_addr: peer,
                local_addr: local,
                stream: socket,
            };
            &&& can_split(stream, split_raw, split_server, split_client) <==> call_requires(
                split_server,
                (socket,),
            )
            &&& are_halves(stream, split_raw, split_server, split_client, reader, writer) <==> (
            reader is ServerTls && writer is ServerTls && call_ensures(
                split_server,
                (socket,),
                (reader->ServerTls_0, writer->ServerTls_0),
            ))
        }),
{
}

/// An encrypted client-side stream can be split whenever its socket can. Its halves are the two that its own
/// function makes of the socket, the first to be read and the second to be written, and they keep
/// its kind. The addresses and the functions for the other kinds have no part in it.
pub proof fn law_client_stream_splits_into_its_halves<
    Addr,
    Raw,
    Server,
    Client,
    RR,
    RW,
    SR,
    SW,
    CR,
    CW,
    F: FnOnce(Raw) -> (RR, RW),
    G: FnOnce(Server) -> (SR, SW),
    H: FnOnce(Client) -> (CR, CW),
>(
    peer: Addr,
    local: Addr,
    socket: Client,
    split_raw: F,
    split_server: G,
    split_client: H,
    reader: ReaderHalf<SR, CR, RR>,
    writer: WriterHalf<SW, CW, RW>,
)
    ensures
        ({
            let stream = NetworkStream::<Addr, Raw, Server, Client>::TlsClient {
                peer_addr: peer,
                local_addr: local,
                stream: socket,
            };
            &&& can_split(stream, split_raw, split_server, split_client) <==> call_requires(
                split_client,
                (socket,),
            )
            &&& are_halves(stream, split_raw, split_server, split_client, reader, writer) <==> (
            reader is ClientTls && writer is ClientTls && call_ensures(
                split_client,
                (socket,),
                (reader->ClientTls_0, writer->ClientTls_0),
            ))
        }),
{
}

/// Reading `len` bytes takes no read that it does not need: what comes behind the last of them
/// is left, whatever it is.
pub proof fn law_read_n_leaves_the_later_reads(
    got: Seq<u8>,
    reads: Seq<Seq<u8>>,
    later: Seq<Seq<u8>>,
)
    requires
        forall|i: int| 0 <= i < reads.len() ==> (#[trigger] reads[i]).len() > 0,
    ensures
        read_n(got.len() + reads.flatten().len(), got, reads + later) == ReadEnd::Done(
            got + reads.flatten(),
            later.len(),
        ),
    decreases reads.len(),
{
    if reads.len() == 0 {
        assert(got + reads.flatten() =~= got);
        assert(reads + later =~= later);
    } else {
        let rest = reads.drop_first();
        assert forall|i: int| 0 <= i < rest.len() implies (#[trigger] rest[i]).len() > 0 by {
            assert(rest[i] == reads[i + 1]);
        }
        assert(reads[0].len() > 0);
        assert(reads.flatten() =~= reads[0] + rest.flatten());
        law_read_n_leaves_the_later_reads(got + reads[0], rest, later);
        assert((reads + later).drop_first() =~= rest + later);
        assert((reads + later)[0] == reads[0]);
        assert((got + reads[0]) + rest.flatten() =~= got + reads.flatten());
    }
}

/// As long as bytes are missing and the stream has not ended, all that has come is kept.
pub proof fn law_read_n_waits_for_more(len: nat, got: Seq<u8>, reads: Seq<Seq<u8>>)
    requires
        forall|i: int| 0 <= i < reads.len() ==> (#[trigger] reads[i]).len() > 0,
        got.len() + reads.flatten().len() < len,
    ensures
        read_n(len, got, reads) == ReadEnd::Waiting(got + reads.flatten()),
    decreases reads.len(),
{
    if reads.len() == 0 {
        assert(got + reads.flatten() =~= got);
    } else {
        let rest = reads.drop_first();
        assert forall|i: int| 0 <= i < rest.len() implies (#[trigger] rest[i]).len() > 0 by {
            assert(rest[i] == reads[i + 1]);
        }
        assert(reads[0].len() > 0);
        assert(reads.flatten() =~= reads[0] + rest.flatten());
        law_read_n_waits_for_more(len, got + reads[0], rest);
        assert((got + reads[0]) + rest.flatten() =~= got + reads.flatten());
    }
}

} // verus!
