use codevar_wsocket::ws_error::WsError;
use codevar_wsocket::ws_utf8::{Utf8Validator, validate_utf8};

const SPLIT_SAMPLE: &str = "héllo wörld — € 🙂 end";

const VALID_SEQUENCES: &[&[u8]] = &[
    &[0x00],
    &[0x7F],
    &[0xC2, 0x80],
    &[0xC3, 0xA9],
    &[0xDF, 0xBF],
    &[0xE0, 0xA0, 0x80],
    &[0xE1, 0x80, 0x80],
    &[0xED, 0x9F, 0xBF],
    &[0xEE, 0x80, 0x80],
    &[0xEF, 0xBF, 0xBD],
    &[0xF0, 0x90, 0x80, 0x80],
    &[0xF0, 0x9F, 0x99, 0x82],
    &[0xF4, 0x8F, 0xBF, 0xBF],
];

const INVALID_SEQUENCES: &[&[u8]] = &[
    &[0x80],
    &[0xBF],
    &[0xC0, 0x80],
    &[0xC1, 0xBF],
    &[0xE0, 0x80, 0x80],
    &[0xE0, 0x9F, 0xBF],
    &[0xED, 0xA0, 0x80],
    &[0xED, 0xBF, 0xBF],
    &[0xF0, 0x80, 0x80, 0x80],
    &[0xF4, 0x90, 0x80, 0x80],
    &[0xF5, 0x80, 0x80, 0x80],
    &[0xFE],
    &[0xFF],
    &[0xC3],
    &[0xE2, 0x82],
    &[0xF0, 0x9F],
    &[0x41, 0xFF],
    &[0xE2, 0x41, 0x80],
    &[0xE2, 0x82, 0x41],
    &[0xF0, 0x9F, 0x41, 0x80],
];

#[test]
fn accepts_empty_input() {
    let mut v = Utf8Validator::new();
    v.feed(&[]).unwrap();
    v.feed(&[]).unwrap();
    v.finish().unwrap();
    validate_utf8(&[]).unwrap();
}

#[test]
fn accepts_full_ascii_range() {
    let ascii: Vec<u8> = (0u16..=0x7F).map(|i| u8::try_from(i).unwrap()).collect();
    validate_utf8(&ascii).unwrap();

    let mut v = Utf8Validator::new();
    v.feed(&ascii).unwrap();
    v.finish().unwrap();
}

#[test]
fn accepts_boundary_valid_sequences() {
    for seq in VALID_SEQUENCES {
        validate_utf8(seq).unwrap_or_else(|e| panic!("rejected {seq:02x?}: {e:?}"));
    }
}

#[test]
fn rejects_boundary_invalid_sequences() {
    for seq in INVALID_SEQUENCES {
        assert!(
            validate_utf8(seq).is_err(),
            "accepted invalid UTF-8: {seq:02x?}"
        );
    }
}

#[test]
fn rejects_lone_surrogates_cesu8_style() {
    for seq in [
        [0xEDu8, 0xA0, 0x80].as_slice(),
        &[0xED, 0xAD, 0xBF][..],
        &[0xED, 0xB0, 0x80][..],
        &[0xED, 0xBF, 0xBF][..],
    ] {
        assert!(matches!(validate_utf8(seq), Err(WsError::InvalidUtf8)));
    }
}

#[test]
fn rejects_overlong_encodings() {
    for seq in [
        [0xC0u8, 0x80].as_slice(),
        &[0xC1, 0xBF][..],
        &[0xE0, 0x80, 0x80][..],
        &[0xE0, 0x9F, 0xBF][..],
        &[0xF0, 0x80, 0x80, 0x80][..],
        &[0xF0, 0x8F, 0xBF, 0xBF][..],
    ] {
        assert!(matches!(validate_utf8(seq), Err(WsError::InvalidUtf8)));
    }
}

#[test]
fn rejects_truncated_sequences_at_finish() {
    for seq in [&[0xC3][..], &[0xE2, 0x82][..], &[0xF0, 0x9F, 0x99][..]] {
        let mut v = Utf8Validator::new();
        v.feed(seq).unwrap();
        assert!(matches!(v.finish(), Err(WsError::InvalidUtf8)));
    }
}

#[test]
fn split_code_points_accepted_at_every_byte_boundary() {
    let bytes = SPLIT_SAMPLE.as_bytes();
    assert!(bytes.len() > 12);
    for split in 0..=bytes.len() {
        let mut v = Utf8Validator::new();
        v.feed(&bytes[..split])
            .unwrap_or_else(|e| panic!("first half at {split}: {e:?}"));
        v.feed(&bytes[split..])
            .unwrap_or_else(|e| panic!("second half at {split}: {e:?}"));
        v.finish()
            .unwrap_or_else(|e| panic!("finish at split {split}: {e:?}"));
    }
}

#[test]
fn byte_by_byte_feeding_preserves_validity() {
    let mut v = Utf8Validator::new();
    for b in SPLIT_SAMPLE.as_bytes() {
        v.feed(&[*b]).unwrap();
    }
    v.finish().unwrap();
}

#[test]
fn chunked_feeding_matches_one_shot_validation() {
    let bytes = SPLIT_SAMPLE.as_bytes();
    for chunk in [1usize, 2, 3, 4, 5, 7] {
        let mut v = Utf8Validator::new();
        for piece in bytes.chunks(chunk) {
            v.feed(piece)
                .unwrap_or_else(|e| panic!("chunk {chunk}: {e:?}"));
        }
        v.finish().unwrap_or_else(|e| panic!("chunk {chunk}: {e:?}"));
    }
    validate_utf8(bytes).unwrap();
}

#[test]
fn finish_fails_while_multi_byte_sequence_pending() {
    let mut v = Utf8Validator::new();
    v.feed(&[0xC3]).unwrap();
    assert!(v.finish().is_err());

    v.feed(&[0xA9]).unwrap();
    v.finish().unwrap();
}

#[test]
fn reset_clears_pending_state() {
    let mut v = Utf8Validator::new();
    v.feed(&[0xC3]).unwrap();
    assert!(v.finish().is_err());
    v.reset();
    v.finish().unwrap();
    v.feed(b"fresh").unwrap();
    v.finish().unwrap();
}

#[test]
fn rejects_non_continuation_byte_after_partial_sequence() {
    let mut v = Utf8Validator::new();
    v.feed(&[0xC3]).unwrap();
    assert!(matches!(v.feed(&[0x41]), Err(WsError::InvalidUtf8)));

    let mut v3 = Utf8Validator::new();
    v3.feed(&[0xE2, 0x82]).unwrap();
    assert!(matches!(v3.feed(&[0x20]), Err(WsError::InvalidUtf8)));
}

#[test]
fn rejects_continuation_byte_without_pending_lead() {
    let mut v = Utf8Validator::new();
    assert!(matches!(v.feed(&[0x80]), Err(WsError::InvalidUtf8)));

    let mut v2 = Utf8Validator::new();
    v2.feed(&[0x41]).unwrap();
    assert!(matches!(v2.feed(&[0xBF]), Err(WsError::InvalidUtf8)));
    v2.finish().unwrap();
}

#[test]
fn invalid_byte_fails_feed_even_after_valid_prefix() {
    let mut v = Utf8Validator::new();
    assert!(matches!(
        v.feed(&[0x41, 0xFF, 0x42]),
        Err(WsError::InvalidUtf8)
    ));
}

#[test]
fn pending_bytes_survive_across_feed_calls_until_complete() {
    let mut v = Utf8Validator::new();
    v.feed(&[0xF0]).unwrap();
    v.feed(&[0x9F]).unwrap();
    v.feed(&[0x99]).unwrap();
    v.finish().unwrap_err();
    v.feed(&[0x82]).unwrap();
    v.finish().unwrap();
}

#[test]
fn default_and_new_are_equivalent_empty_validators() {
    let default = Utf8Validator::default();
    let fresh = Utf8Validator::new();
    assert_eq!(format!("{default:?}"), format!("{fresh:?}"));
    default.finish().unwrap();
    fresh.finish().unwrap();
}

#[test]
fn validator_clone_inherits_pending_state() {
    let mut v = Utf8Validator::new();
    v.feed(&[0xC3]).unwrap();
    let mut clone = v.clone();
    assert!(clone.finish().is_err());
    clone.feed(&[0xA9]).unwrap();
    clone.finish().unwrap();
    assert!(v.finish().is_err());
}

#[test]
fn feed_rejects_any_byte_that_cannot_continue_the_text() {
    for bad in [&[0x80u8][..], &[0x41, 0xFF, 0x42], &[0xC3, 0x41], &[0xE2, 0xFF], &[0xE0, 0x80], &[0xED, 0xA0], &[0xF0, 0x80], &[0xF4, 0x90], &[0xF0, 0x90, 0x41]] {
        let mut v = Utf8Validator::new();
        assert_eq!(v.feed(bad), Err(WsError::InvalidUtf8), "{bad:?}");
    }
    let mut v = Utf8Validator::new();
    assert_eq!(v.feed(&[0xE2]), Ok(()));
    assert_eq!(v.feed(&[0xFF]), Err(WsError::InvalidUtf8));
    let mut w = Utf8Validator::new();
    assert_eq!(w.feed(&[0xF0, 0x9F]), Ok(()));
    assert_eq!(w.feed(&[0x98, 0x80]), Ok(()));
    assert!(w.finish().is_ok());
}
