use bytes::BytesMut;
use ractor_actors::net::tcp::frame_reader::FrameReader;
use ractor_actors::net::tcp::session::PacketReceiver;

fn encode(data: &[u8]) -> Vec<u8> {
    let mut all = (data.len() as u64).to_be_bytes().to_vec();
    all.extend(data);
    all
}

fn encode_all(frames: &[&[u8]]) -> Vec<u8> {
    let mut all = Vec::new();
    for frame in frames {
        all.extend(encode(frame));
    }
    all
}

fn frame(data: &[u8]) -> Option<BytesMut> {
    Some(BytesMut::from(data))
}

#[test]
fn process_takes_the_header_and_then_frames() {
    let mut fr = FrameReader::new();
    assert_eq!(fr.process(), (false, None));
    fr.buf.extend(vec![0, 0, 0, 0, 0, 0, 0]);
    assert_eq!(fr.process(), (false, None));
    fr.buf.extend(vec![3, b'a', b'b']);
    assert_eq!(fr.process(), (true, None));
    assert_eq!(fr.len, Some(3));
    assert_eq!(fr.process(), (false, None));
    fr.buf.extend(vec![b'c', b'd']);
    assert_eq!(fr.process(), (true, frame(b"abc")));
    assert_eq!(fr.len, None);
    assert_eq!(fr.process(), (false, None));
    assert_eq!(fr.buf, BytesMut::from(&b"d"[..]));
}

#[test]
fn header_is_big_endian() {
    let mut fr = FrameReader::new();
    fr.buf.extend(vec![0, 0, 0, 0, 0, 0, 1, 2]);
    assert_eq!(fr.process(), (true, None));
    assert_eq!(fr.len, Some(258));
    assert!(fr.buf.is_empty());
}

#[test]
fn process_reads_a_header_before_every_frame() {
    let mut fr = FrameReader::new();
    fr.buf.extend(vec![0, 0, 0, 0, 0, 0, 0, 1, b'a', 0, 0, 0, 0, 0, 0, 0, 2, b'b', b'c']);
    assert_eq!(fr.process(), (true, None));
    assert_eq!(fr.process(), (true, frame(b"a")));
    assert_eq!(fr.process(), (true, None));
    assert_eq!(fr.process(), (true, frame(b"bc")));
    assert_eq!(fr.process(), (false, None));
    assert!(fr.buf.is_empty());
    assert_eq!(fr.len, None);
}

#[test]
fn packet_with_two_frames_gives_both() {
    let mut fr = FrameReader::new();
    let packet = vec![0, 0, 0, 0, 0, 0, 0, 1, b'a', 0, 0, 0, 0, 0, 0, 0, 2, b'b', b'c'];
    assert!(fr.can_accept(&packet));
    let out = fr.packet_ready(packet);
    assert!(out.outcome.is_ok());
    assert_eq!(out.items, vec![b"a".to_vec(), b"bc".to_vec()]);
    assert!(fr.buf.is_empty());
    assert_eq!(fr.len, None);
}

#[test]
fn frames_come_back_from_their_encoding() {
    let frames: Vec<&[u8]> = vec![b"", b"one", b"", b"", b"a longer frame", b"x"];
    let mut fr = FrameReader::new();
    let out = fr.packet_ready(encode_all(&frames));
    assert_eq!(out.items, frames);
    assert!(fr.buf.is_empty());
    assert_eq!(fr.len, None);
}

#[test]
fn frames_do_not_depend_on_packet_boundaries() {
    let frames: Vec<&[u8]> = vec![b"one", b"", b"three", b"sixsix"];
    let mut whole = encode_all(&frames);
    whole.extend(&encode(b"unfinished")[..12]);
    let mut at_once = FrameReader::new();
    assert_eq!(at_once.packet_ready(whole.clone()).items, frames);
    assert_eq!(at_once.buf, BytesMut::from(&b"unfi"[..]));
    assert_eq!(at_once.len, Some(10));
    for size in 1..whole.len() {
        let mut fr = FrameReader::new();
        let mut got = Vec::new();
        for chunk in whole.chunks(size) {
            let packet = chunk.to_vec();
            assert!(fr.can_accept(&packet));
            got.extend(fr.packet_ready(packet).items);
        }
        assert_eq!(got, frames);
        assert_eq!(fr.buf, at_once.buf);
        assert_eq!(fr.len, at_once.len);
    }
}

#[test]
fn stream_may_be_cut_in_two_anywhere() {
    let frames: Vec<&[u8]> = vec![b"ab", b"", b"cde"];
    let whole = encode_all(&frames);
    for at in 0..=whole.len() {
        let mut fr = FrameReader::new();
        let mut got = fr.packet_ready(whole[..at].to_vec()).items;
        got.extend(fr.packet_ready(whole[at..].to_vec()).items);
        assert_eq!(got, frames);
        assert!(fr.buf.is_empty());
        assert_eq!(fr.len, None);
    }
}

#[test]
fn frames_and_rest_keep_the_bytes() {
    let frames: Vec<&[u8]> = vec![b"0123", b"", b"456"];
    let mut whole = encode_all(&frames);
    whole.extend(&encode(b"789")[..9]);
    let mut fr = FrameReader::new();
    let out = fr.packet_ready(whole.clone());
    let mut kept = Vec::new();
    for item in &out.items {
        kept.extend(encode(item));
    }
    kept.extend((fr.len.unwrap() as u64).to_be_bytes());
    kept.extend_from_slice(&fr.buf);
    assert_eq!(kept, whole);
}

#[test]
fn part_of_a_header_stays_in_the_reader() {
    let mut whole = encode(b"ab");
    whole.extend(vec![0, 0, 0]);
    let mut fr = FrameReader::new();
    assert_eq!(fr.packet_ready(whole).items, vec![b"ab".to_vec()]);
    assert_eq!(fr.buf, BytesMut::from(&[0u8, 0, 0][..]));
    assert_eq!(fr.len, None);
    assert_eq!(fr.process(), (false, None));
    assert_eq!(fr.buf, BytesMut::from(&[0u8, 0, 0][..]));
}

#[test]
fn frame_that_ends_with_the_packet_comes_out() {
    let mut fr = FrameReader::new();
    let out = fr.packet_ready(encode(b"hello"));
    assert_eq!(out.items, vec![b"hello".to_vec()]);
    assert!(fr.buf.is_empty());
    assert_eq!(fr.len, None);
    let again = fr.packet_ready(Vec::new());
    assert!(again.items.is_empty());
}

#[test]
fn header_of_zero_gives_one_empty_frame() {
    let mut fr = FrameReader::new();
    let packet = vec![0; 8];
    assert!(fr.can_accept(&packet));
    let out = fr.packet_ready(packet);
    assert_eq!(out.items, vec![Vec::<u8>::new()]);
    assert!(fr.buf.is_empty());
    assert_eq!(fr.len, None);
    assert_eq!(fr.process(), (false, None));
}
