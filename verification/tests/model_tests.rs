use dropmutt_site::error::{DropmutErrorResponse, DropmuttError};
use dropmutt_site::models::{parse_i32, ImageWithFiles, NewUser, QueriedUser, User};
use dropmutt_site::strutil::{str_eq, str_starts_with};

#[test]
fn token_str_joins_username_and_id() {
    let u = User { id: 5, username: "alice".to_string() };
    assert_eq!(u.token_str(), "alice#5");
    let v = User { id: -3, username: "bob".to_string() };
    assert_eq!(v.token_str(), "bob#-3");
    let w = User { id: 1048576, username: "x".to_string() };
    assert_eq!(w.token_str(), "x#1048576");
}

#[test]
fn parse_token_splits_at_last_hash() {
    assert_eq!(
        User::parse_token("alice#5").unwrap(),
        ("alice".to_string(), 5)
    );
    assert_eq!(
        User::parse_token("a#b#12").unwrap(),
        ("a#b".to_string(), 12)
    );
    assert_eq!(User::parse_token("alice").unwrap_err(), DropmuttError::Login);
    assert_eq!(User::parse_token("alice#x").unwrap_err(), DropmuttError::Login);
    assert_eq!(User::parse_token("alice#").unwrap_err(), DropmuttError::Login);
}

#[test]
fn parse_i32_reads_signed_decimals() {
    assert_eq!(parse_i32("123"), Some(123));
    assert_eq!(parse_i32("+7"), Some(7));
    assert_eq!(parse_i32("-45"), Some(-45));
    assert_eq!(parse_i32("0"), Some(0));
    assert_eq!(parse_i32("2147483647"), Some(2147483647));
    assert_eq!(parse_i32("-2147483648"), Some(-2147483648));
    assert_eq!(parse_i32("2147483648"), None);
    assert_eq!(parse_i32("-2147483649"), None);
    assert_eq!(parse_i32(""), None);
    assert_eq!(parse_i32("-"), None);
    assert_eq!(parse_i32("12a"), None);
    // Leading zeros do not limit the digit count, only the value does.
    assert_eq!(parse_i32("0000000000012"), Some(12));
    assert_eq!(parse_i32("-00000000000"), Some(0));
    assert_eq!(parse_i32("99999999999999999999"), None);
}

#[test]
fn password_hash_round_trips() {
    let nu = NewUser::new("alice".to_string(), "hunter2".to_string()).unwrap();
    assert_eq!(nu.username, "alice");
    assert_eq!(nu.password.len(), 60);

    let qu = QueriedUser { id: 9, username: nu.username, password: nu.password };
    let user = qu.verify("hunter2").unwrap();
    assert_eq!(user.id, 9);
    assert_eq!(user.username, "alice");
}

#[test]
fn wrong_password_fails_login() {
    let nu = NewUser::new("alice".to_string(), "hunter2".to_string()).unwrap();
    let qu = QueriedUser { id: 9, username: nu.username, password: nu.password };
    assert_eq!(qu.verify("hunter3").unwrap_err(), DropmuttError::Login);

    let bad = QueriedUser {
        id: 1,
        username: "b".to_string(),
        password: "not a bcrypt hash".to_string(),
    };
    assert_eq!(bad.verify("pw").unwrap_err(), DropmuttError::Bcrypt);
}

#[test]
fn consolidate_groups_rows_per_image_newest_first() {
    let rows = vec![
        (2, "d2".to_string(), "a2".to_string(), 200, 100, "p2a".to_string()),
        (1, "d1".to_string(), "a1".to_string(), 200, 150, "p1a".to_string()),
        (2, "d2".to_string(), "a2".to_string(), 400, 200, "p2b".to_string()),
        (1, "d1".to_string(), "a1".to_string(), 400, 300, "p1b".to_string()),
    ];
    let out = ImageWithFiles::consolidate(rows);
    assert_eq!(out.len(), 2);
    assert_eq!(out[0].id, 2);
    assert_eq!(out[0].description, "d2");
    assert_eq!(out[0].alternate_text, "a2");
    assert_eq!(out[0].files.len(), 2);
    assert_eq!(out[0].files[0].path, "p2a");
    assert_eq!(out[0].files[0].width, 200);
    assert_eq!(out[0].files[0].height, 100);
    assert_eq!(out[0].files[1].path, "p2b");
    assert_eq!(out[1].id, 1);
    assert_eq!(out[1].files.len(), 2);
    assert_eq!(out[1].files[0].path, "p1a");
    assert_eq!(out[1].files[1].path, "p1b");
}

#[test]
fn consolidate_of_nothing_is_empty() {
    let out = ImageWithFiles::consolidate(Vec::new());
    assert!(out.is_empty());
}

#[test]
fn string_helpers_compare_by_characters() {
    assert!(str_eq("abc", "abc"));
    assert!(!str_eq("abc", "abd"));
    assert!(!str_eq("abc", "ab"));
    assert!(str_starts_with("multipart/form-data", "multipart/"));
    assert!(!str_starts_with("multi", "multipart/"));
}

#[test]
fn errors_describe_themselves() {
    assert_eq!(
        DropmuttError::ContentType.message(),
        "request was made with bad Content-Type header"
    );
    assert_eq!(DropmuttError::FormSize.message(), "text field too large");
    assert_eq!(DropmuttError::FileCount.message(), "too many file parts");
}

#[test]
fn error_response_keeps_messages() {
    let resp = DropmutErrorResponse::new(vec!["boom".to_string()]);
    assert_eq!(resp.errors, vec!["boom".to_string()]);
}
