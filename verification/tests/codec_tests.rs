use msg_log_store::codec::{decode_attachments, encode_attachments, parse_msg_logs_record, LogRow};
use msg_log_store::errors::CodecError;

#[test]
fn encode_two_attachments() {
    let v = vec!["a.png".to_string(), "b.png".to_string()];
    assert_eq!(encode_attachments(&v), "a.png,b.png");
}

#[test]
fn encode_empty_sequence_is_empty_string() {
    let v: Vec<String> = Vec::new();
    assert_eq!(encode_attachments(&v), "");
}

#[test]
fn encode_single_attachment_has_no_delimiter() {
    let v = vec!["only.png".to_string()];
    assert_eq!(encode_attachments(&v), "only.png");
}

#[test]
fn decode_empty_string_is_empty_sequence() {
    let v = decode_attachments("");
    assert!(v.is_empty());
}

#[test]
fn decode_splits_on_commas() {
    assert_eq!(decode_attachments("x,y,z"), vec!["x", "y", "z"]);
    assert_eq!(decode_attachments("solo"), vec!["solo"]);
}

#[test]
fn decode_keeps_empty_pieces() {
    assert_eq!(decode_attachments("a,,b"), vec!["a", "", "b"]);
    assert_eq!(decode_attachments(","), vec!["", ""]);
    assert_eq!(decode_attachments("tail,"), vec!["tail", ""]);
}

#[test]
fn decode_then_encode_restores_the_string() {
    for s in ["", "one", "a.png,b.png", "a,,b", ",", "x,y,z,"] {
        assert_eq!(encode_attachments(&decode_attachments(s)), s);
    }
}

#[test]
fn encode_then_decode_restores_comma_free_sequences() {
    let cases: Vec<Vec<String>> = vec![
        vec![],
        vec!["a.png".to_string(), "b.png".to_string()],
        vec!["x".to_string()],
        vec!["".to_string(), "mid".to_string(), "".to_string()],
    ];
    for v in cases {
        assert_eq!(decode_attachments(&encode_attachments(&v)), v);
    }
}

#[test]
fn non_ascii_attachments_round_trip() {
    let v = vec!["köln.png".to_string(), "東京.jpg".to_string()];
    let encoded = encode_attachments(&v);
    assert_eq!(encoded, "köln.png,東京.jpg");
    assert_eq!(decode_attachments(&encoded), v);
}

#[test]
fn parse_complete_row() {
    let row = LogRow {
        msg_id: Some(1),
        guild_id: Some(2),
        channel_id: Some(3),
        author_id: Some(4),
        content: Some("hi".to_string()),
        attachments: Some("a,b".to_string()),
    };
    let rec = parse_msg_logs_record(row).unwrap();
    assert_eq!(rec.msg_id, 1);
    assert_eq!(rec.guild_id, 2);
    assert_eq!(rec.channel_id, 3);
    assert_eq!(rec.author_id, 4);
    assert_eq!(rec.content, "hi");
    assert_eq!(rec.attachments, "a,b");
}

#[test]
fn parse_row_with_missing_column_is_malformed() {
    let row = LogRow {
        msg_id: Some(1),
        guild_id: Some(2),
        channel_id: Some(3),
        author_id: Some(4),
        content: None,
        attachments: Some(String::new()),
    };
    assert!(matches!(parse_msg_logs_record(row), Err(CodecError::MalformedRow)));
    let row = LogRow {
        msg_id: None,
        guild_id: None,
        channel_id: None,
        author_id: None,
        content: None,
        attachments: None,
    };
    assert!(matches!(parse_msg_logs_record(row), Err(CodecError::MalformedRow)));
    assert_eq!(CodecError::MalformedRow.message(), "malformed row");
}
