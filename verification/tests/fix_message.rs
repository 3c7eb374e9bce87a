use bytes::BytesMut;
use trend_arb::fix::message::{FixHeaderScan, FixMessageBuilder};

fn builder() -> FixMessageBuilder {
    FixMessageBuilder::new("kraken", "FIX.4.4", "SENDER", "TARGET")
}

const FRAME: &str = "8=FIX.4.4\x019=67\x0135=A\x0134=1\x0149=SENDER\x0152=20240101-00:00:00.000\x0156=TARGET\x0198=0\x01108=30\x0110=101\x01";

#[test]
fn fix_builds_exact_frame() {
    let mut b = builder();
    let fields = vec![(98u32, "0".to_string()), (108u32, "30".to_string())];
    let msg = b.build_fix_message(fields, "A", None, "20240101-00:00:00.000");
    assert_eq!(msg, FRAME.as_bytes().to_vec());
    assert_eq!(b.msg_seq_num, 2);
}

#[test]
fn fix_explicit_seq_keeps_counter() {
    let mut b = builder();
    let msg = b.build_fix_message(vec![], "0", Some(7), "20240101-00:00:00.000");
    let text = String::from_utf8(msg).unwrap();
    assert!(text.contains("\x0134=7\x01"));
    assert_eq!(b.msg_seq_num, 1);
    b.build_fix_message(vec![], "0", None, "20240101-00:00:00.000");
    b.reset_seq_num();
    assert_eq!(b.msg_seq_num, 1);
}

#[test]
fn fix_extracts_built_frame_and_keeps_rest() {
    let b = builder();
    let mut buf = BytesMut::from(FRAME.as_bytes());
    buf.extend_from_slice(b"8=FIX");
    let got = b.extract_fix_message(&mut buf);
    assert_eq!(got.map(|f| f.to_vec()), Some(FRAME.as_bytes().to_vec()));
    assert_eq!(buf.to_vec(), b"8=FIX".to_vec());
}

#[test]
fn fix_extract_waits_for_more_or_clears_garbage() {
    let b = builder();
    let mut short = BytesMut::from(&FRAME.as_bytes()[..40]);
    assert!(b.extract_fix_message(&mut short).is_none());
    assert_eq!(short.len(), 40);
    let mut bad = BytesMut::from(&b"XX=FIX.4.4\x019=5\x0135=A\x01"[..]);
    assert!(b.extract_fix_message(&mut bad).is_none());
    assert!(bad.is_empty());
    assert!(matches!(trend_arb::fix::message::scan_fix_header(FRAME.as_bytes()), FixHeaderScan::Complete { .. }));
}

#[test]
fn fix_field_values() {
    let b = builder();
    assert_eq!(b.get_field_value(FRAME.as_bytes(), 35, true), vec!["A"]);
    assert_eq!(b.get_field_value(FRAME.as_bytes(), 56, false), vec!["TARGET"]);
    assert!(b.get_field_value(FRAME.as_bytes(), 11, false).is_empty());
    let twice = b"55=A\x0155=B\x01";
    assert_eq!(b.get_field_value(twice, 55, false), vec!["A", "B"]);
    assert_eq!(b.get_field_value(twice, 55, true), vec!["A"]);
}

#[test]
fn fix_checksum_mod_256() {
    let b = builder();
    assert_eq!(b.checksum(&FRAME.as_bytes()[..FRAME.len() - 7]), 101);
    assert_eq!(b.checksum(&[200, 100]), 44);
    assert_eq!(b.checksum(&[]), 0);
}

#[test]
fn fix_sender_comp_id_replaced() {
    let mut b = builder();
    b.set_sender_comp_id("OTHER".to_string());
    assert_eq!(b.sender_comp_id, "OTHER");
}

#[test]
fn fix_sending_time_text() {
    assert_eq!(
        trend_arb::fix::message::fix_sending_time(1704067200123),
        Some("20240101-00:00:00.123".to_string())
    );
}

#[test]
fn fix_kraken_password_value() {
    let input = "35=A\x0134=1\x0149=SENDER\x0156=TARGET\x01553=KEY\x01";
    let pw = FixMessageBuilder::get_password(input, "c2VjcmV0", "1704067200123").unwrap();
    assert_eq!(pw, "eEcojZGDmMXfmQG7hubGj3are5atY5s6eq3O5m6tnl+DWK9owyBRPdKT1PwSDdQYVfsweG+SZE7yMQPIdJDqfA==");
    assert_eq!(
        FixMessageBuilder::get_password(input, "not base64!", "1"),
        Err(trend_arb::fix::message::PasswordError::SecretNotBase64)
    );
}

#[test]
fn fix_kraken_logon_message() {
    let mut b = builder();
    let msg = b.try_build_kraken_logon_message("KEY", "c2VjcmV0", 1704067200123).unwrap();
    let text = String::from_utf8(msg.clone()).unwrap();
    assert!(text.starts_with("8=FIX.4.4\x01"));
    assert!(text.contains("\x0135=A\x0134=1\x0149=SENDER\x0152=20240101-00:00:00.123\x0156=TARGET\x01"));
    assert!(text.contains("\x01554=eEcojZGDmMXfmQG7hubGj3are5atY5s6eq3O5m6tnl+DWK9owyBRPdKT1PwSDdQYVfsweG+SZE7yMQPIdJDqfA==\x015025=1704067200123\x01"));
    assert_eq!(b.msg_seq_num, 2);
    let mut buf = BytesMut::from(&msg[..]);
    assert_eq!(b.extract_fix_message(&mut buf).map(|f| f.to_vec()), Some(msg));
}

#[test]
fn fix_extract_keeps_every_prefix() {
    let mut b = FixMessageBuilder::new("kraken", "FIX.4.4.LONG.BEGIN.STRING", "SENDER", "TARGET");
    let msg = b.build_fix_message(vec![(98u32, "0".to_string())], "A", None, "20240101-00:00:00.000");
    for k in 0..msg.len() {
        let mut buf = BytesMut::from(&msg[..k]);
        assert!(b.extract_fix_message(&mut buf).is_none());
        assert_eq!(buf.to_vec(), msg[..k].to_vec());
    }
    let mut whole = BytesMut::from(&msg[..]);
    assert_eq!(b.extract_fix_message(&mut whole).map(|f| f.to_vec()), Some(msg.clone()));
    let mut wrong = BytesMut::from(&b"8=FIX.4.4.LONG.BEGIN.STRING\x01X"[..]);
    assert!(b.extract_fix_message(&mut wrong).is_none());
    assert!(wrong.is_empty());
}

#[test]
fn fix_built_body_fields_read_back() {
    let mut b = builder();
    let fields = vec![(98u32, "0".to_string()), (108u32, "30".to_string()), (98u32, "1".to_string())];
    let msg = b.build_fix_message(fields, "A", None, "20240101-00:00:00.000");
    assert_eq!(b.get_field_value(&msg, 98, false), vec!["0", "1"]);
    assert_eq!(b.get_field_value(&msg, 98, true), vec!["0"]);
    assert_eq!(b.get_field_value(&msg, 108, false), vec!["30"]);
    assert!(b.get_field_value(&msg, 553, false).is_empty());
}
