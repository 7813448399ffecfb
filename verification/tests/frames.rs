use tsgo_wasm::frame::{parse_bin, parse_tuple, write_bin, write_tuple, FrameError};

#[test]
fn short_message_has_two_byte_headers() {
    assert_eq!(
        write_tuple(1, "ping", b"{}"),
        vec![0x93, 1, 0xC4, 4, b'p', b'i', b'n', b'g', 0xC4, 2, b'{', b'}']
    );
}

#[test]
fn empty_payload_is_an_empty_binary() {
    assert_eq!(write_tuple(1, "a", b""), vec![0x93, 1, 0xC4, 1, b'a', 0xC4, 0]);
}

#[test]
fn headers_grow_with_the_length() {
    let cases = [
        (0usize, vec![0xC4u8, 0]),
        (255, vec![0xC4, 255]),
        (256, vec![0xC5, 1, 0]),
        (65535, vec![0xC5, 255, 255]),
        (65536, vec![0xC6, 0, 1, 0, 0]),
    ];
    for (length, header) in cases {
        let body = vec![7u8; length];
        let mut out = vec![0xAA];
        write_bin(&mut out, &body);
        assert_eq!(out[0], 0xAA);
        assert_eq!(&out[1..1 + header.len()], header.as_slice());
        assert_eq!(&out[1 + header.len()..], body.as_slice());
        let end = out.len();
        assert_eq!(parse_bin(&out, 1).unwrap(), Some((body, end)));
    }
}

#[test]
fn written_message_is_read_back() {
    for length in [0usize, 1, 255, 256, 65535, 65536, 70000] {
        let payload: Vec<u8> = (0..length).map(|i| (i % 251) as u8).collect();
        let mut bytes = write_tuple(4, "getSemanticDiagnostics", &payload);
        let size = bytes.len();
        bytes.extend_from_slice(&[1, 2, 3]);
        let tuple = parse_tuple(&bytes).unwrap().unwrap();
        assert_eq!(tuple.kind, 4);
        assert_eq!(tuple.method, "getSemanticDiagnostics");
        assert_eq!(tuple.payload, payload);
        assert_eq!(tuple.consumed, size);
    }
}

#[test]
fn partial_message_waits() {
    let bytes = write_tuple(6, "readFile", b"\"/app/main.ts\"");
    for n in 0..bytes.len() {
        assert!(parse_tuple(&bytes[..n]).unwrap().is_none(), "{n} bytes");
    }
    assert!(parse_tuple(&bytes).unwrap().is_some());
}

#[test]
fn later_bytes_do_not_change_a_message() {
    let first = write_tuple(6, "realpath", b"\"/app\"");
    let second = write_tuple(4, "initialize", b"null");
    let mut both = first.clone();
    both.extend_from_slice(&second);
    let one = parse_tuple(&both).unwrap().unwrap();
    assert_eq!(one.method, "realpath");
    let two = parse_tuple(&both[one.consumed..]).unwrap().unwrap();
    assert_eq!(two.method, "initialize");
    assert_eq!(two.payload, b"null");
    assert_eq!(one.consumed + two.consumed, both.len());
}

#[test]
fn every_cut_of_a_stream_gives_the_same_messages() {
    let mut stream = Vec::new();
    for i in 0..4u8 {
        stream.extend(write_tuple(i, "m", &vec![i; i as usize * 100]));
    }
    for cut in 0..=stream.len() {
        let mut kinds = Vec::new();
        let mut held: Vec<u8> = Vec::new();
        for chunk in [&stream[..cut], &stream[cut..]] {
            held.extend_from_slice(chunk);
            while let Some(tuple) = parse_tuple(&held).unwrap() {
                kinds.push((tuple.kind, tuple.payload.len()));
                held.drain(..tuple.consumed);
            }
        }
        assert_eq!(kinds, vec![(0, 0), (1, 100), (2, 200), (3, 300)]);
        assert!(held.is_empty());
    }
}

#[test]
fn kind_may_take_two_bytes() {
    let tuple = parse_tuple(&[0x93, 0xCC, 200, 0xC4, 0, 0xC4, 0]).unwrap().unwrap();
    assert_eq!(tuple.kind, 200);
    assert_eq!(tuple.consumed, 7);
    assert!(parse_tuple(&[0x93, 0xCC]).unwrap().is_none());
}

#[test]
fn bad_markers_are_reported() {
    assert_eq!(parse_tuple(&[0x92]).unwrap_err(), FrameError::TupleMarker(0x92));
    assert_eq!(parse_tuple(&[0x93, 0x80]).unwrap_err(), FrameError::TypeMarker(0x80));
    assert_eq!(parse_tuple(&[0x93, 1, 0xC0]).unwrap_err(), FrameError::BinMarker(0xC0));
    assert_eq!(
        parse_tuple(&[0x93, 1, 0xC4, 0, 0xD9]).unwrap_err(),
        FrameError::BinMarker(0xD9)
    );
}

#[test]
fn invalid_method_text_is_replaced() {
    let tuple = parse_tuple(&[0x93, 1, 0xC4, 2, b'a', 0xFF, 0xC4, 0]).unwrap().unwrap();
    assert_eq!(tuple.method, "a\u{FFFD}");
}
