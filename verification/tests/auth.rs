use microtak_admin_web::auth::{
    base64_decode, constant_time_eq, parse_basic_auth_password, password_accepted,
    password_from_credentials,
};

#[test]
fn decodes_standard_basic_auth_header() {
    // "admin:hunter2" base64-encoded.
    let header = "Basic YWRtaW46aHVudGVyMg==";
    let password = parse_basic_auth_password(header).unwrap();
    assert_eq!(password, "hunter2");
}

#[test]
fn rejects_non_basic_scheme() {
    assert!(parse_basic_auth_password("Bearer sometoken").is_none());
}

#[test]
fn constant_time_eq_matches_equal_slices() {
    assert!(constant_time_eq(b"secret", b"secret"));
}

#[test]
fn constant_time_eq_rejects_different_slices() {
    assert!(!constant_time_eq(b"secret", b"wrong!"));
    assert!(!constant_time_eq(b"short", b"muchlonger"));
}

#[test]
fn constant_time_eq_on_empty_slices() {
    assert!(constant_time_eq(b"", b""));
    assert!(!constant_time_eq(b"", b"x"));
}

#[test]
fn base64_decodes_all_padding_lengths() {
    assert_eq!(base64_decode("aGVsbG8=").unwrap(), b"hello".to_vec());
    assert_eq!(base64_decode("aGVsbA==").unwrap(), b"hell".to_vec());
    assert_eq!(base64_decode("aGVs").unwrap(), b"hel".to_vec());
    assert_eq!(base64_decode("").unwrap(), Vec::<u8>::new());
}

#[test]
fn base64_padding_is_optional_and_ignored() {
    assert_eq!(base64_decode("aGVsbG8").unwrap(), b"hello".to_vec());
    assert_eq!(base64_decode("aGVsbG8=====").unwrap(), b"hello".to_vec());
    // A single left-over character carries no whole byte.
    assert_eq!(base64_decode("aGVsY").unwrap(), b"hel".to_vec());
}

#[test]
fn base64_uses_plus_and_slash() {
    assert_eq!(base64_decode("+/+/").unwrap(), vec![0xfb, 0xff, 0xbf]);
}

#[test]
fn base64_rejects_characters_outside_the_alphabet() {
    assert!(base64_decode("aG=sbG8=").is_none());
    assert!(base64_decode("aGVs bG8=").is_none());
    assert!(base64_decode("aGVs-G8=").is_none());
    assert!(base64_decode("aGVsé").is_none());
}

#[test]
fn password_keeps_everything_after_the_first_colon() {
    assert_eq!(password_from_credentials("user:pa:ss").unwrap(), "pa:ss");
    assert_eq!(password_from_credentials(":secret").unwrap(), "secret");
    assert_eq!(password_from_credentials("user:").unwrap(), "");
    assert!(password_from_credentials("nocolon").is_none());
}

#[test]
fn basic_auth_rejects_malformed_credentials() {
    // "nocolon"
    assert!(parse_basic_auth_password("Basic bm9jb2xvbg==").is_none());
    // invalid base64
    assert!(parse_basic_auth_password("Basic !!!!").is_none());
    // 0xff 0xfe 0x3a: not UTF-8
    assert!(parse_basic_auth_password("Basic //46").is_none());
    // scheme is case-sensitive and needs the space
    assert!(parse_basic_auth_password("basic YWRtaW46aHVudGVyMg==").is_none());
    assert!(parse_basic_auth_password("Basic").is_none());
}

#[test]
fn gate_accepts_any_username_with_the_right_password() {
    // "admin:hunter2" and "someone:hunter2"
    assert!(password_accepted(Some("Basic YWRtaW46aHVudGVyMg=="), "hunter2"));
    assert!(password_accepted(Some("Basic c29tZW9uZTpodW50ZXIy"), "hunter2"));
}

#[test]
fn gate_rejects_wrong_or_missing_credentials() {
    assert!(!password_accepted(Some("Basic YWRtaW46aHVudGVyMg=="), "hunter3"));
    assert!(!password_accepted(Some("Basic YWRtaW46aHVudGVyMg=="), "hunter"));
    assert!(!password_accepted(Some("Bearer hunter2"), "hunter2"));
    assert!(!password_accepted(None, "hunter2"));
}
