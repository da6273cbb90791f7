use union_governance::common::{parse_idl_number, CandidRejectionCode, ToCandidType};
use union_governance::validation::{validate_and_trim_str, ValidationReason};

#[test]
fn trims_and_accepts_text_within_bounds() {
    let r = validate_and_trim_str(String::from("  hello world \n"), 1, 100, "Field").unwrap();
    assert_eq!(r, "hello world");
}

#[test]
fn too_long_text_is_rejected_with_the_actual_length() {
    let r = validate_and_trim_str(String::from(" abcdef "), 1, 5, "Field");
    match r {
        Err(e) => {
            assert_eq!(e.field, "Field");
            assert!(matches!(
                e.reason,
                ValidationReason::TooLong { max: 5, actual: 6 }
            ));
        }
        Ok(_) => panic!("six characters must not pass a bound of five"),
    }
}

#[test]
fn too_short_text_is_rejected_after_trimming() {
    let r = validate_and_trim_str(String::from("   "), 1, 5, "Field");
    match r {
        Err(e) => {
            assert!(matches!(
                e.reason,
                ValidationReason::TooShort { min: 1, actual: 0 }
            ));
        }
        Ok(_) => panic!("blank text trims to nothing and must not pass"),
    }
}

#[test]
fn length_bounds_count_utf8_bytes() {
    // A two-byte character exceeds a one-byte bound.
    let r = validate_and_trim_str(String::from("\u{e9}"), 0, 1, "Field");
    match r {
        Err(e) => {
            assert!(matches!(
                e.reason,
                ValidationReason::TooLong { max: 1, actual: 2 }
            ));
        }
        Ok(_) => panic!("two bytes must not pass a bound of one"),
    }
    let r = validate_and_trim_str(String::from("\u{e9}"), 0, 2, "Field").unwrap();
    assert_eq!(r, "\u{e9}");
}

#[test]
fn unicode_blanks_are_trimmed() {
    // A no-break space and an ideographic space are stripped like ASCII
    // blanks.
    let r = validate_and_trim_str(String::from("\u{a0}abc\u{3000}"), 1, 10, "Field").unwrap();
    assert_eq!(r, "abc");
}

#[test]
fn empty_is_fine_when_the_minimum_is_zero() {
    let r = validate_and_trim_str(String::from("  "), 0, 5, "Field").unwrap();
    assert_eq!(r, "");
}

#[test]
fn parse_idl_number_reads_the_numeric_prefix() {
    assert_eq!(parse_idl_number(String::from("42 : nat")), Some(42));
    assert_eq!(parse_idl_number(String::from("  7  ")), Some(7));
    assert_eq!(parse_idl_number(String::from("abc : nat")), None);
    assert_eq!(parse_idl_number(String::from(" : nat")), None);
    assert_eq!(parse_idl_number(String::from("")), None);
    assert_eq!(parse_idl_number(String::from("0")), Some(0));
}

#[test]
fn rejection_codes_follow_the_platform_numbering() {
    assert!(matches!(
        CandidRejectionCode::from_common(0),
        CandidRejectionCode::NoError
    ));
    assert!(matches!(
        CandidRejectionCode::from_common(4),
        CandidRejectionCode::CanisterReject
    ));
    assert!(matches!(
        CandidRejectionCode::from_common(77),
        CandidRejectionCode::Unknown
    ));

    let ok: Result<u8, (u32, String)> = Ok(3);
    assert!(matches!(ok.to_candid_type(), Ok(3)));
    let err: Result<u8, (u32, String)> = Err((5, String::from("boom")));
    match err.to_candid_type() {
        Err((code, msg)) => {
            assert!(matches!(code, CandidRejectionCode::CanisterError));
            assert_eq!(msg, "boom");
        }
        Ok(_) => panic!("an error must stay an error"),
    }
}

#[test]
fn u64_blobs_round_trip() {
    for x in [0u64, 1, 255, 256, 65_535, u64::MAX - 1, u64::MAX] {
        let blob = union_governance::blob::u64_to_le_blob(x);
        assert_eq!(blob.len(), 8);
        assert_eq!(union_governance::blob::u64_from_le_blob(&blob), Some(x));
    }
    assert_eq!(union_governance::blob::u64_to_le_blob(258), vec![2, 1, 0, 0, 0, 0, 0, 0]);
    assert_eq!(union_governance::blob::u64_from_le_blob(&vec![1, 2, 3]), None);
}
