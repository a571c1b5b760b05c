use rsecnotes::note_id::{NoteId, ParseNoteIdError};

#[test]
fn encodes_zero_bytes() {
    let id = NoteId { id: [0; 32] };
    assert_eq!(id.to_string(), "A".repeat(43));
}

#[test]
fn encodes_url_safe_alphabet() {
    let id = NoteId { id: [0xff; 32] };
    assert_eq!(id.to_string(), format!("{}8", "_".repeat(42)));
}

#[test]
fn parse_round_trip() {
    let mut bytes = [0u8; 32];
    for (i, b) in bytes.iter_mut().enumerate() {
        *b = (i as u8).wrapping_mul(37);
    }
    let id = NoteId { id: bytes };
    let parsed = NoteId::parse(&id.to_string()).unwrap();
    assert_eq!(parsed, id);
    let via_from_str: NoteId = id.to_string().parse().unwrap();
    assert_eq!(via_from_str, id);
}

#[test]
fn parse_invalid_encoding() {
    let e = NoteId::parse("!!!").unwrap_err();
    assert_eq!(
        e,
        ParseNoteIdError::InvalidEncoding("Invalid symbol 33, offset 0.".to_string())
    );
    assert_eq!(e.message(), "Invalid symbol 33, offset 0.");
    let padded = format!("{}=", "A".repeat(43));
    assert_eq!(
        NoteId::parse(&padded),
        Err(ParseNoteIdError::InvalidEncoding("Invalid padding".to_string()))
    );
}

#[test]
fn parse_bad_size() {
    assert_eq!(NoteId::parse("AAAA"), Err(ParseNoteIdError::BadSize));
    assert_eq!(NoteId::parse(&"A".repeat(44)), Err(ParseNoteIdError::BadSize));
    assert_eq!(ParseNoteIdError::BadSize.message(), "bad size");
}

#[test]
fn generated_ids_differ() {
    let a = NoteId::generate();
    let b = NoteId::generate();
    assert!(!a.same_as(&b));
    assert!(a.same_as(&a));
}
