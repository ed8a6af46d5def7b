use microtak_admin_web::qr::EnrollmentQr;

#[test]
fn payload_includes_token_and_optional_enrollment_url() {
    let qr = EnrollmentQr {
        token: "abc123".to_string(),
        enrollment_url: Some("http://server:8446".to_string()),
    };
    let payload = qr.payload();
    let parsed: serde_json::Value = serde_json::from_str(&payload).unwrap();
    assert_eq!(parsed["microtakEnroll"]["token"], "abc123");
    assert_eq!(parsed["microtakEnroll"]["enrollmentUrl"], "http://server:8446");
}

#[test]
fn payload_omits_enrollment_url_when_not_configured() {
    let qr = EnrollmentQr {
        token: "abc123".to_string(),
        enrollment_url: None,
    };
    let parsed: serde_json::Value = serde_json::from_str(&qr.payload()).unwrap();
    assert!(parsed["microtakEnroll"].get("enrollmentUrl").is_none());
}

#[test]
fn renders_non_empty_svg() {
    let qr = EnrollmentQr {
        token: "a".repeat(64),
        enrollment_url: None,
    };
    let markup = qr.render_svg().unwrap();
    assert!(markup.contains("<svg"));
}

#[test]
fn payload_text_is_exact() {
    let qr = EnrollmentQr {
        token: "abc123".to_string(),
        enrollment_url: Some("http://server:8446".to_string()),
    };
    assert_eq!(
        qr.payload(),
        r#"{"microtakEnroll":{"enrollmentUrl":"http://server:8446","token":"abc123"}}"#
    );
    let bare = EnrollmentQr {
        token: "abc123".to_string(),
        enrollment_url: None,
    };
    assert_eq!(bare.payload(), r#"{"microtakEnroll":{"token":"abc123"}}"#);
}

#[test]
fn payload_escapes_json_special_characters() {
    let qr = EnrollmentQr {
        token: "a\"b\\c\nd\u{1}é".to_string(),
        enrollment_url: None,
    };
    assert_eq!(
        qr.payload(),
        "{\"microtakEnroll\":{\"token\":\"a\\\"b\\\\c\\nd\\u0001é\"}}"
    );
    let parsed: serde_json::Value = serde_json::from_str(&qr.payload()).unwrap();
    assert_eq!(parsed["microtakEnroll"]["token"], "a\"b\\c\nd\u{1}é");
}

#[test]
fn svg_is_none_when_payload_is_too_long() {
    let qr = EnrollmentQr {
        token: "x".repeat(5000),
        enrollment_url: None,
    };
    assert!(qr.render_svg().is_none());
}
