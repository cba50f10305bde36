use dropmutt_site::error::DropmuttError;
use dropmutt_site::grammar::{parse_field_name, NamePathSegment};

#[test]
fn parses_nested_keys() {
    let segs = parse_field_name("a[b][c]").unwrap();
    assert_eq!(
        segs,
        vec![
            NamePathSegment::Field("a".to_string()),
            NamePathSegment::Key("b".to_string()),
            NamePathSegment::Key("c".to_string()),
        ]
    );
}

#[test]
fn parses_array_append() {
    let segs = parse_field_name("a[]").unwrap();
    assert_eq!(
        segs,
        vec![NamePathSegment::Field("a".to_string()), NamePathSegment::Index]
    );
}

#[test]
fn parses_bare_field() {
    let segs = parse_field_name("gallery-name").unwrap();
    assert_eq!(segs, vec![NamePathSegment::Field("gallery-name".to_string())]);
}

#[test]
fn parses_deep_mixture() {
    let segs = parse_field_name("gallery[images][][tags][]").unwrap();
    assert_eq!(
        segs,
        vec![
            NamePathSegment::Field("gallery".to_string()),
            NamePathSegment::Key("images".to_string()),
            NamePathSegment::Index,
            NamePathSegment::Key("tags".to_string()),
            NamePathSegment::Index,
        ]
    );
}

#[test]
fn parsing_is_deterministic() {
    let a = parse_field_name("x[y][]").unwrap();
    let b = parse_field_name("x[y][]").unwrap();
    assert_eq!(a, b);
}

#[test]
fn rejects_bare_segment_after_first() {
    assert_eq!(
        parse_field_name("a[b]c").unwrap_err(),
        DropmuttError::InvalidFieldName
    );
}

#[test]
fn rejects_unbalanced_brackets() {
    assert_eq!(
        parse_field_name("a[b").unwrap_err(),
        DropmuttError::InvalidFieldName
    );
    assert_eq!(
        parse_field_name("a]").unwrap_err(),
        DropmuttError::InvalidFieldName
    );
    assert_eq!(
        parse_field_name("a[b]]").unwrap_err(),
        DropmuttError::InvalidFieldName
    );
    assert_eq!(
        parse_field_name("a[[b]").unwrap_err(),
        DropmuttError::InvalidFieldName
    );
}

#[test]
fn rejects_empty_name() {
    assert_eq!(
        parse_field_name("").unwrap_err(),
        DropmuttError::InvalidFieldName
    );
    assert_eq!(
        parse_field_name("[a]").unwrap_err(),
        DropmuttError::InvalidFieldName
    );
}
