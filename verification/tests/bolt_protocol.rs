use toroidal_tql::bolt_protocol::{handle_message, run_reply, BoltAction, BoltConfig, PackStreamReader, PackStreamWriter};

#[test]
fn test_bolt_config_default() {
    let config = BoltConfig::default();
    assert_eq!(config.port, 7687);
}

#[test]
fn test_packstream_reader_parse_string() {
    let reader = PackStreamReader::new();
    let data = vec![0x85, 0x48, 0x65, 0x6C, 0x6C, 0x6F]; // tiny string "Hello"
    let mut i = 0;
    let s = reader.parse_string(&data, &mut i);
    assert_eq!(s, Some("Hello".to_string()));
}

#[test]
fn test_packstream_writer_string() {
    let writer = PackStreamWriter;
    let mut buf = Vec::new();
    writer.write_string(&mut buf, "Hello");
    assert_eq!(buf, vec![0x85, 0x48, 0x65, 0x6C, 0x6C, 0x6F]);
}

#[test]
fn bolt_default_host_is_loopback() {
    assert_eq!(BoltConfig::default().host, "127.0.0.1");
}

#[test]
fn packstream_long_string_uses_string8_marker() {
    let writer = PackStreamWriter;
    let mut buf = Vec::new();
    let s = "abcdefghijklmnopq"; // 17 bytes
    writer.write_string(&mut buf, s);
    assert_eq!(buf[0], 0xD0);
    assert_eq!(buf[1], 17);
    assert_eq!(&buf[2..], s.as_bytes());
}

#[test]
fn packstream_string_round_trip() {
    let writer = PackStreamWriter;
    let reader = PackStreamReader::new();
    for s in ["", "a", "fifteen chars!!", "sixteen chars!!!", "a somewhat longer text of forty bytes...."] {
        let mut buf = Vec::new();
        writer.write_string(&mut buf, s);
        let mut i = 0;
        assert_eq!(reader.parse_string(&buf, &mut i), Some(s.to_string()));
        assert_eq!(i, buf.len());
    }
}

#[test]
fn packstream_parse_string_rejects_other_markers_and_short_data() {
    let reader = PackStreamReader::new();
    let mut i = 0;
    assert_eq!(reader.parse_string(&[0x01, 0x41], &mut i), None);
    assert_eq!(i, 1);
    let mut j = 0;
    assert_eq!(reader.parse_string(&[0x83, 0x41], &mut j), None);
    let mut k = 5;
    assert_eq!(reader.parse_string(&[0x80], &mut k), None);
    assert_eq!(k, 5);
}

#[test]
fn packstream_parse_map_reads_pairs() {
    let reader = PackStreamReader::new();
    let data = vec![0xA2, 0x81, b'a', 0x81, b'b', 0x81, b'c', 0x82, b'd', b'e'];
    let m = reader.parse_map(&data);
    assert_eq!(m, vec![("a".to_string(), "b".to_string()), ("c".to_string(), "de".to_string())]);
}

#[test]
fn packstream_parse_run_reads_query_and_params() {
    let reader = PackStreamReader::new();
    let data = vec![0x93, 0x84, b'Q', b'U', b'E', b'R', 0xA1, 0x81, b'k', 0x81, b'v'];
    let (q, params) = reader.parse_run(&data);
    assert_eq!(q, "QUER");
    assert_eq!(params, vec![("k".to_string(), "v".to_string())]);
}

#[test]
fn packstream_success_and_failure_messages() {
    let writer = PackStreamWriter;
    assert_eq!(writer.success_message(&[]), vec![0x70, 0x71, 0xA0]);
    assert_eq!(
        writer.success_message(&[("type", "r")]),
        vec![0x70, 0x71, 0xA1, 0x84, b't', b'y', b'p', b'e', 0x81, b'r']
    );
    let f = writer.failure_message("bad");
    let mut expected = vec![0x70, 0x7F, 0xA1, 0x87];
    expected.extend_from_slice(b"message");
    expected.extend_from_slice(&[0x83, b'b', b'a', b'd']);
    assert_eq!(f, expected);
}

#[test]
fn bolt_message_decisions() {
    match handle_message(&[0x02]) {
        BoltAction::Close => {}
        _ => panic!("GOODBYE must close"),
    }
    match handle_message(&[0x3F]) {
        BoltAction::Reply(b) => assert_eq!(b, vec![0x70, 0x71, 0xA1, 0x84, b't', b'y', b'p', b'e', 0x81, b'r']),
        _ => panic!("PULL must reply"),
    }
    for sig in [0x12u8, 0x13, 0x14, 0x0F, 0x11] {
        match handle_message(&[sig]) {
            BoltAction::Reply(b) => assert_eq!(b, vec![0x70, 0x71, 0xA0]),
            _ => panic!("must reply with SUCCESS"),
        }
    }
    match handle_message(&[0x55]) {
        BoltAction::Reply(b) => assert_eq!(b, vec![0x70, 0x7E]),
        _ => panic!("unknown messages are IGNORED"),
    }
    match handle_message(&[0x10, 0x91, 0x82, b'h', b'i']) {
        BoltAction::Run { query, params } => {
            assert_eq!(query, "hi");
            assert!(params.is_empty());
        }
        _ => panic!("RUN hands its query over"),
    }
    match handle_message(&[0x01, 0xA0]) {
        BoltAction::Reply(b) => {
            assert_eq!(&b[..3], &[0x70, 0x71, 0xA1]);
            assert!(b.windows(16).any(|w| w == b"ToroidalDB/3.1.0"));
        }
        _ => panic!("HELLO must reply"),
    }
}

#[test]
fn bolt_run_reply() {
    assert_eq!(
        run_reply(Ok(())),
        vec![0x70, 0x71, 0xA1, 0x86, b'f', b'i', b'e', b'l', b'd', b's', 0x82, b'[', b']']
    );
    let mut expected = vec![0x70, 0x7F, 0xA1, 0x87];
    expected.extend_from_slice(b"message");
    expected.extend_from_slice(&[0x82, b'n', b'o']);
    assert_eq!(run_reply(Err("no")), expected);
}

#[test]
fn packstream_non_ascii_round_trip_after_a_prefix() {
    let writer = PackStreamWriter;
    let reader = PackStreamReader::new();
    for s in ["héllo", "Grüße aus Köln, 東京", "€"] {
        let mut buf = vec![0xB1u8, 0x10];
        writer.write_string(&mut buf, s);
        let mut i = 2;
        assert_eq!(reader.parse_string(&buf, &mut i), Some(s.to_string()));
        assert_eq!(i, buf.len());
    }
    // invalid UTF-8 is replaced, not rejected
    let mut i = 0;
    assert_eq!(reader.parse_string(&[0x82, 0xFF, 0x41], &mut i), Some("\u{FFFD}A".to_string()));
    assert_eq!(i, 3);
}
