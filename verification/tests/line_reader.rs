use ractor_actors::net::tcp::line_reader::{LineError, LineReader};
use ractor_actors::net::tcp::session::PacketReceiver;

#[test]
fn line_reader() {
    check(vec![
        ("abc", false, None), //
        ("", false, None),
    ]);

    check(vec![
        ("abc\nxyz\nbleh", true, Some("abc")),
        ("", true, Some("xyz")),
        ("", false, None),
    ]);

    check(vec![
        ("a", false, None),
        ("\n", true, Some("a")),
        ("", false, None),
    ]);

    check(vec![
        ("abc\r\n", true, Some("abc")), //
        ("", false, None),              //
    ]);

    check(vec![
        ("a", false, None),
        ("\r", true, Some("a")),
        ("\n", false, None),
    ]);
}

fn check(io: Vec<(&str, bool, Option<&str>)>) {
    let mut lr = LineReader::new();

    let mut idx = 1;
    for (input, more, res) in io {
        lr.buf.extend(input.as_bytes());
        let expected = (more, res.map(|s| s.as_bytes().to_vec()));
        let actual = lr.process();
        assert_eq!(expected, actual, "input #{}: {:0x?}", idx, input);

        idx += 1;
    }
}

/// The lines that come out of each packet, the packets being taken by one reader.
fn feed(packets: &[&str]) -> (Vec<Vec<String>>, LineReader) {
    let mut lr = LineReader::new();
    let mut all = Vec::new();
    for packet in packets {
        let packet = packet.as_bytes().to_vec();
        assert!(lr.can_accept(&packet));
        let out = lr.packet_ready(packet);
        assert!(out.outcome.is_ok());
        all.push(out.items);
    }
    (all, lr)
}

fn lines(texts: &[&str]) -> Vec<String> {
    texts.iter().map(|t| t.to_string()).collect()
}

#[test]
fn packet_hands_on_every_complete_line() {
    let (out, lr) = feed(&["abc\r\nxyz\nbleh"]);
    assert_eq!(out, vec![lines(&["abc", "xyz"])]);
    assert_eq!(lr.buf, b"bleh".to_vec());
    assert!(!lr.skip);
}

#[test]
fn lines_do_not_depend_on_packet_boundaries() {
    let whole = "ein\r\nzwei\n\ndrei\r\n\r\nvier\rf\u{fc}nf\nrest";
    let (out, at_once) = feed(&[whole]);
    let expected = lines(&["ein", "zwei", "", "drei", "", "vier", "f\u{fc}nf"]);
    assert_eq!(out.concat(), expected);

    let mut one_by_one = LineReader::new();
    let mut got = Vec::new();
    for byte in whole.as_bytes() {
        let out = one_by_one.packet_ready(vec![*byte]);
        assert!(out.outcome.is_ok());
        got.extend(out.items);
    }
    assert_eq!(got, expected);
    assert_eq!(one_by_one.buf, at_once.buf);
    assert_eq!(one_by_one.skip, at_once.skip);
    assert_eq!(at_once.buf, b"rest".to_vec());
}

#[test]
fn only_the_line_feed_next_to_a_carriage_return_is_skipped() {
    let (out, _) = feed(&["a\r\nb\n\nc\n"]);
    assert_eq!(out, vec![lines(&["a", "b", "", "c"])]);

    let (out, _) = feed(&["a\r", "\n", "\n"]);
    assert_eq!(out, vec![lines(&["a"]), lines(&[]), lines(&[""])]);
}

#[test]
fn carriage_return_alone_ends_a_line() {
    let (out, lr) = feed(&["a\rb\r"]);
    assert_eq!(out, vec![lines(&["a", "b"])]);
    assert!(lr.skip);
    assert!(lr.buf.is_empty());
}

#[test]
fn empty_packet_changes_nothing() {
    let (out, lr) = feed(&["a\r", "", "\nb"]);
    assert_eq!(out, vec![lines(&["a"]), lines(&[]), lines(&[])]);
    assert_eq!(lr.buf, b"b".to_vec());
    assert!(!lr.skip);
}

#[test]
fn lines_and_rest_keep_the_bytes() {
    let stream = "x\n\r\nyy\rzzz\n\nw";
    let (out, lr) = feed(&[stream]);
    let mut kept = out.concat().concat().into_bytes();
    kept.extend(&lr.buf);
    let stripped: Vec<u8> =
        stream.bytes().filter(|b| *b != b'\r' && *b != b'\n').collect();
    assert_eq!(kept, stripped);
}

#[test]
fn lines_come_back_as_they_were_written() {
    let texts = ["", "\u{4f60}\u{597d}", "plain", "\u{1f600}", ""];
    let mut stream = Vec::new();
    for (i, text) in texts.iter().enumerate() {
        stream.extend(text.as_bytes());
        stream.extend(if i % 2 == 0 { "\n".as_bytes() } else { "\r\n".as_bytes() });
    }
    stream.extend("tail".as_bytes());
    let mut lr = LineReader::new();
    let out = lr.packet_ready(stream);
    assert!(out.outcome.is_ok());
    assert_eq!(out.items, lines(&texts));
    assert_eq!(lr.buf, b"tail".to_vec());
}

#[test]
fn line_that_is_no_text_is_an_error() {
    let mut lr = LineReader::new();
    let out = lr.packet_ready(vec![b'o', b'k', b'\n', 0xff, b'x', b'\n', b'y', b'\n']);
    assert_eq!(out.items, lines(&["ok"]));
    match out.outcome {
        Err(LineError::InvalidUtf8(line)) => assert_eq!(line, vec![0xff, b'x']),
        Ok(()) => panic!("the second line is not valid UTF-8"),
    }
    assert_eq!(lr.buf, b"y\n".to_vec());
    let out = lr.packet_ready(Vec::new());
    assert!(out.outcome.is_ok());
    assert_eq!(out.items, lines(&["y"]));
}

#[test]
fn character_cut_by_a_packet_boundary_is_whole_again() {
    let mut lr = LineReader::new();
    let first = lr.packet_ready(vec![0xc3]);
    assert!(first.outcome.is_ok() && first.items.is_empty());
    let second = lr.packet_ready(vec![0xbc, b'\n']);
    assert!(second.outcome.is_ok());
    assert_eq!(second.items, lines(&["\u{fc}"]));
}
