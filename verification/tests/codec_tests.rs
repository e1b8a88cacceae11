use blame_index::codec::{decode_message, DecodeError};
use blame_index::ids::{parse_commit_id, CommitId};

fn id_from_byte(b: u8) -> CommitId {
    CommitId::from_bytes(vec![b; 20]).unwrap()
}

fn hex_a1() -> String {
    "aa11aa11aa11aa11aa11aa11aa11aa11aa11aa11".to_string()
}

#[test]
fn parses_valid_commit_id() {
    let id = parse_commit_id(&hex_a1()).unwrap();
    let mut expected: Vec<u8> = Vec::new();
    let mut i: usize = 0;
    while i < 10 {
        expected.push(0xaa);
        expected.push(0x11);
        i += 1;
    }
    assert_eq!(id.as_bytes(), &expected);
}

#[test]
fn parses_mixed_case_commit_id() {
    let id = parse_commit_id("ABCDEF0123456789abcdef0123456789ABCDEF01").unwrap();
    assert_eq!(id.as_bytes()[0], 0xab);
    assert_eq!(id.as_bytes()[1], 0xcd);
    assert_eq!(id.as_bytes()[19], 0x01);
}

#[test]
fn rejects_bad_commit_ids() {
    assert!(parse_commit_id("").is_none());
    assert!(parse_commit_id("aa11").is_none());
    // 39 digits
    assert!(parse_commit_id("aa11aa11aa11aa11aa11aa11aa11aa11aa11aa1").is_none());
    // 41 digits
    assert!(parse_commit_id("aa11aa11aa11aa11aa11aa11aa11aa11aa11aa11a").is_none());
    // right length, one non-hex character
    assert!(parse_commit_id("gg11aa11aa11aa11aa11aa11aa11aa11aa11aa11").is_none());
}

#[test]
fn decodes_full_message() {
    let msg = format!("blame {} rev r1", hex_a1());
    let entry = decode_message(id_from_byte(7), &msg).unwrap();
    assert_eq!(entry.original_id, parse_commit_id(&hex_a1()).unwrap());
    assert_eq!(entry.blame_id, id_from_byte(7));
    assert_eq!(entry.external_revision, Some("r1".to_string()));
}

#[test]
fn decodes_message_without_revision() {
    let msg = format!("blame {}", hex_a1());
    let entry = decode_message(id_from_byte(7), &msg).unwrap();
    assert_eq!(entry.original_id, parse_commit_id(&hex_a1()).unwrap());
    assert_eq!(entry.external_revision, None);
}

#[test]
fn three_field_message_has_no_revision() {
    let msg = format!("blame {} reserved", hex_a1());
    let entry = decode_message(id_from_byte(7), &msg).unwrap();
    assert_eq!(entry.external_revision, None);
}

#[test]
fn rejects_short_messages() {
    assert_eq!(
        decode_message(id_from_byte(7), "").unwrap_err(),
        DecodeError::MalformedMessage
    );
    assert_eq!(
        decode_message(id_from_byte(7), "blame").unwrap_err(),
        DecodeError::MalformedMessage
    );
    assert_eq!(
        decode_message(id_from_byte(7), "   \t\n ").unwrap_err(),
        DecodeError::MalformedMessage
    );
}

#[test]
fn rejects_bad_identifier_field() {
    assert_eq!(
        decode_message(id_from_byte(7), "blame nothex rev r1").unwrap_err(),
        DecodeError::InvalidIdentifier
    );
    assert_eq!(
        decode_message(id_from_byte(7), "blame aa11 rev r1").unwrap_err(),
        DecodeError::InvalidIdentifier
    );
}

#[test]
fn splits_on_runs_of_whitespace() {
    let msg = format!("  blame\t{}\n reserved\tr2  ", hex_a1());
    let entry = decode_message(id_from_byte(7), &msg).unwrap();
    assert_eq!(entry.original_id, parse_commit_id(&hex_a1()).unwrap());
    assert_eq!(entry.external_revision, Some("r2".to_string()));
}
