use microtak_admin_web::client::EnrollmentToken;
use microtak_admin_web::pages::{
    expires_text, note_text, optional_number_field, optional_text_field, revocable, short,
    status_class, status_text, urlencode, PageLink,
};

const NOW: i64 = 1_700_000_000;

fn token(used: bool, revoked: bool, used_by: Option<&str>) -> EnrollmentToken {
    EnrollmentToken {
        token: "abc".to_string(),
        created_at_unix: 1,
        expires_at_unix: None,
        note: None,
        used,
        used_by_common_name: used_by.map(|s| s.to_string()),
        used_at_unix: None,
        revoked,
    }
}

#[test]
fn status_of_unused_token() {
    let t = token(false, false, None);
    assert_eq!(status_class(&t, NOW), "");
    assert_eq!(status_text(&t, NOW), "unused");
    assert!(revocable(&t));
}

#[test]
fn status_of_used_token() {
    let t = token(true, false, Some("device-1"));
    assert_eq!(status_class(&t, NOW), "used");
    assert_eq!(status_text(&t, NOW), "used by device-1");
    assert!(!revocable(&t));
    assert_eq!(status_text(&token(true, false, None), NOW), "used by ?");
}

#[test]
fn revoked_takes_precedence_over_used() {
    let t = token(true, true, Some("device-1"));
    assert_eq!(status_class(&t, NOW), "revoked");
    assert_eq!(status_text(&t, NOW), "revoked");
    assert!(!revocable(&t));
    assert!(!revocable(&token(false, true, None)));
}

#[test]
fn short_tokens_are_shown_whole() {
    assert_eq!(short("abc"), "abc");
    assert_eq!(short("0123456789abcdef"), "0123456789abcdef");
}

#[test]
fn long_tokens_are_cut_in_the_middle() {
    assert_eq!(short("0123456789abcdefg"), "01234567\u{2026}9abcdefg");
    assert_eq!(
        short("aaaaaaaabbbbbbbbbbbbbbbbcccccccc"),
        "aaaaaaaa\u{2026}cccccccc"
    );
}

#[test]
fn note_and_expiry_defaults() {
    assert_eq!(note_text(&None), "\u{2014}");
    assert_eq!(note_text(&Some("for test device".to_string())), "for test device");
    assert_eq!(expires_text(None), "never");
    assert_eq!(expires_text(Some(1_700_000_000)), "1700000000");
    assert_eq!(expires_text(Some(-5)), "-5");
}

#[test]
fn links_encode_names_but_not_tokens() {
    assert_eq!(PageLink::Tokens.path(), "/tokens");
    assert_eq!(PageLink::RevokeToken("t0k".to_string()).path(), "/tokens/t0k/revoke");
    assert_eq!(PageLink::Missions.path(), "/missions");
    assert_eq!(PageLink::Mission("Web UI Test".to_string()).path(), "/missions/Web%20UI%20Test");
    assert_eq!(
        PageLink::RevokeRole("Web UI Test".to_string(), "web-admin".to_string()).path(),
        "/missions/Web%20UI%20Test/roles/web-admin/revoke"
    );
    assert_eq!(urlencode("a&b"), "a%26b");
}

#[test]
fn mint_form_number_field() {
    assert_eq!(optional_number_field(None).unwrap(), None);
    assert_eq!(optional_number_field(Some("")).unwrap(), None);
    assert_eq!(optional_number_field(Some("3600")).unwrap(), Some(3600));
    assert_eq!(optional_number_field(Some("+7")).unwrap(), Some(7));
    assert_eq!(optional_number_field(Some("-7")).unwrap(), Some(-7));
    assert!(optional_number_field(Some("abc")).is_err());
    assert!(optional_number_field(Some(" 1")).is_err());
    assert!(optional_number_field(Some("-")).is_err());
    assert!(optional_number_field(Some("9223372036854775808")).is_err());
    assert_eq!(
        optional_number_field(Some("-9223372036854775808")).unwrap(),
        Some(i64::MIN)
    );
}

#[test]
fn mint_form_text_field() {
    assert_eq!(optional_text_field(None), None);
    assert_eq!(optional_text_field(Some(String::new())), None);
    assert_eq!(
        optional_text_field(Some("for test device".to_string())),
        Some("for test device".to_string())
    );
}

fn expiring(used: bool, revoked: bool, expires_at_unix: i64) -> EnrollmentToken {
    EnrollmentToken {
        expires_at_unix: Some(expires_at_unix),
        ..token(used, revoked, Some("device-1"))
    }
}

#[test]
fn unused_token_past_its_expiry_is_expired() {
    let t = expiring(false, false, NOW - 1);
    assert_eq!(status_text(&t, NOW), "expired");
    assert_eq!(status_class(&t, NOW), "expired");
}

#[test]
fn token_is_not_expired_until_its_expiry_has_passed() {
    let t = expiring(false, false, NOW);
    assert_eq!(status_text(&t, NOW), "unused");
    assert_eq!(status_class(&t, NOW), "");
    let later = expiring(false, false, NOW + 3600);
    assert_eq!(status_text(&later, NOW), "unused");
}

#[test]
fn revoked_and_used_take_precedence_over_expired() {
    assert_eq!(status_text(&expiring(false, true, NOW - 1), NOW), "revoked");
    assert_eq!(status_class(&expiring(false, true, NOW - 1), NOW), "revoked");
    assert_eq!(status_text(&expiring(true, false, NOW - 1), NOW), "used by device-1");
    assert_eq!(status_class(&expiring(true, false, NOW - 1), NOW), "used");
}
