use git_repository::value::{
    parse_abbreviation, parse_boolean, parse_integer, parse_object_format,
    parse_object_kind_hint, to_usize, ApplyLeniency, ApplyLeniencyDefault, ObjectHash,
    ObjectKindHint,
};

#[test]
fn boolean_accepts_the_known_words() {
    assert_eq!(parse_boolean(b"yes"), Some(true));
    assert_eq!(parse_boolean(b"no"), Some(false));
    assert_eq!(parse_boolean(b"true"), Some(true));
    assert_eq!(parse_boolean(b"FALSE"), Some(false));
    assert_eq!(parse_boolean(b"on"), Some(true));
    assert_eq!(parse_boolean(b"Off"), Some(false));
    assert_eq!(parse_boolean(b"1"), Some(true));
    assert_eq!(parse_boolean(b"0"), Some(false));
}

#[test]
fn boolean_rejects_everything_else() {
    assert_eq!(parse_boolean(b"maybe"), None);
    assert_eq!(parse_boolean(b""), None);
    assert_eq!(parse_boolean(b"2"), None);
    assert_eq!(parse_boolean(b" true"), None);
}

#[test]
fn integer_scales_by_unit() {
    assert_eq!(parse_integer(b"4k"), Some(4096));
    assert_eq!(parse_integer(b"1g"), Some(1073741824));
    assert_eq!(parse_integer(b"3M"), Some(3 * 1024 * 1024));
    assert_eq!(parse_integer(b"42"), Some(42));
    assert_eq!(parse_integer(b"-7"), Some(-7));
    assert_eq!(parse_integer(b"+7"), Some(7));
    assert_eq!(parse_integer(b"-2K"), Some(-2048));
    assert_eq!(parse_integer(b"0000000000000000000000012"), Some(12));
}

#[test]
fn integer_rejects_text_and_overflow() {
    assert_eq!(parse_integer(b"abc"), None);
    assert_eq!(parse_integer(b""), None);
    assert_eq!(parse_integer(b"k"), None);
    assert_eq!(parse_integer(b"-"), None);
    assert_eq!(parse_integer(b"1kk"), None);
    assert_eq!(parse_integer(b"12x"), None);
    assert_eq!(parse_integer(b"9223372036854775807"), Some(i64::MAX));
    assert_eq!(parse_integer(b"-9223372036854775808"), Some(i64::MIN));
    assert_eq!(parse_integer(b"9223372036854775808"), None);
    assert_eq!(parse_integer(b"-9223372036854775809"), None);
    assert_eq!(parse_integer(b"8589934592g"), None);
    assert_eq!(parse_integer(b"8589934591g"), Some(8589934591 * 1073741824));
    assert_eq!(parse_integer(b"99999999999999999999999999"), None);
}

#[test]
fn integer_is_bounded_into_usize() {
    assert_eq!(to_usize(0), Some(0));
    assert_eq!(to_usize(4096), Some(4096));
    assert_eq!(to_usize(-1), None);
}

#[test]
fn object_format_names_two_hashes() {
    assert_eq!(parse_object_format(b"sha1"), Some(ObjectHash::Sha1));
    assert_eq!(parse_object_format(b"SHA256"), Some(ObjectHash::Sha256));
    assert_eq!(parse_object_format(b"md5"), None);
    assert_eq!(ObjectHash::Sha1.len_in_hex(), 40);
    assert_eq!(ObjectHash::Sha256.len_in_hex(), 64);
}

#[test]
fn abbreviation_is_checked_against_the_hash() {
    assert_eq!(parse_abbreviation(b"auto", ObjectHash::Sha1), Some(None));
    assert_eq!(parse_abbreviation(b"false", ObjectHash::Sha1), Some(Some(40)));
    assert_eq!(parse_abbreviation(b"no", ObjectHash::Sha256), Some(Some(64)));
    assert_eq!(parse_abbreviation(b"7", ObjectHash::Sha1), Some(Some(7)));
    assert_eq!(parse_abbreviation(b"4", ObjectHash::Sha1), Some(Some(4)));
    assert_eq!(parse_abbreviation(b"3", ObjectHash::Sha1), None);
    assert_eq!(parse_abbreviation(b"40", ObjectHash::Sha1), Some(Some(40)));
    assert_eq!(parse_abbreviation(b"41", ObjectHash::Sha1), None);
    assert_eq!(parse_abbreviation(b"41", ObjectHash::Sha256), Some(Some(41)));
    assert_eq!(parse_abbreviation(b"notanumber", ObjectHash::Sha1), None);
}

#[test]
fn object_kind_hint_names() {
    assert_eq!(parse_object_kind_hint(b"none"), Some(None));
    assert_eq!(parse_object_kind_hint(b"commit"), Some(Some(ObjectKindHint::Commit)));
    assert_eq!(parse_object_kind_hint(b"committish"), Some(Some(ObjectKindHint::Committish)));
    assert_eq!(parse_object_kind_hint(b"tree"), Some(Some(ObjectKindHint::Tree)));
    assert_eq!(parse_object_kind_hint(b"treeish"), Some(Some(ObjectKindHint::Treeish)));
    assert_eq!(parse_object_kind_hint(b"blob"), Some(Some(ObjectKindHint::Blob)));
    assert_eq!(parse_object_kind_hint(b"tag"), None);
}

#[test]
fn leniency_turns_failure_into_absence() {
    let failed: Result<Option<u32>, &str> = Err("bad");
    assert_eq!(failed.with_leniency(true), Ok(None));
    let failed: Result<Option<u32>, &str> = Err("bad");
    assert_eq!(failed.with_leniency(false), Err("bad"));
    let fine: Result<Option<u32>, &str> = Ok(Some(3));
    assert_eq!(fine.with_leniency(true), Ok(Some(3)));
    let fine: Result<Option<u32>, &str> = Ok(Some(3));
    assert_eq!(fine.with_leniency(false), Ok(Some(3)));
}

#[test]
fn leniency_turns_failure_into_the_default() {
    let failed: Result<u32, &str> = Err("bad");
    assert_eq!(failed.with_lenient_default(true), Ok(0));
    let failed: Result<bool, &str> = Err("bad");
    assert_eq!(failed.with_lenient_default(false), Err("bad"));
    let fine: Result<u32, &str> = Ok(3);
    assert_eq!(fine.with_lenient_default(true), Ok(3));
}
