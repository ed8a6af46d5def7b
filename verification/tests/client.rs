use microtak_admin_web::client::{
    check_status, classify_status, normalize_base_url, urlencoding_light, ApiCall, HttpMethod,
    StatusClass,
};

#[test]
fn urlencoding_keeps_unreserved_characters() {
    assert_eq!(urlencoding_light("Az09-_.~"), "Az09-_.~");
}

#[test]
fn urlencoding_escapes_everything_else_in_uppercase_hex() {
    assert_eq!(urlencoding_light("Web UI Test"), "Web%20UI%20Test");
    assert_eq!(urlencoding_light("a/b%c&d"), "a%2Fb%25c%26d");
    assert_eq!(urlencoding_light("é"), "%C3%A9");
    assert_eq!(urlencoding_light(""), "");
}

#[test]
fn base_url_loses_trailing_slashes() {
    assert_eq!(normalize_base_url("https://h:8443/"), "https://h:8443");
    assert_eq!(normalize_base_url("https://h:8443///"), "https://h:8443");
    assert_eq!(normalize_base_url("https://h:8443"), "https://h:8443");
    let once = normalize_base_url("https://h/x//");
    assert_eq!(normalize_base_url(&once), once);
}

#[test]
fn api_calls_have_the_servers_paths() {
    let base = "https://h:8443";
    assert_eq!(ApiCall::ListTokens.url(base), "https://h:8443/Marti/api/admin/enrollmentTokens");
    assert_eq!(ApiCall::MintToken.url(base), "https://h:8443/Marti/api/admin/enrollmentTokens");
    assert_eq!(
        ApiCall::RevokeToken("t0k".to_string()).url(base),
        "https://h:8443/Marti/api/admin/enrollmentTokens/t0k"
    );
    assert_eq!(ApiCall::ListMissions.url(base), "https://h:8443/Marti/api/missions");
    assert_eq!(
        ApiCall::GetMission("Web UI Test".to_string()).url(base),
        "https://h:8443/Marti/api/missions/Web%20UI%20Test"
    );
    assert_eq!(
        ApiCall::AssignRole("a/b".to_string()).url(base),
        "https://h:8443/Marti/api/missions/a%2Fb/role"
    );
    assert_eq!(
        ApiCall::RevokeRole("m".to_string(), "web admin".to_string()).url(base),
        "https://h:8443/Marti/api/missions/m/role/web%20admin"
    );
}

#[test]
fn api_calls_have_their_methods() {
    assert_eq!(ApiCall::ListTokens.method(), HttpMethod::Get);
    assert_eq!(ApiCall::MintToken.method(), HttpMethod::Post);
    assert_eq!(ApiCall::RevokeToken("t".to_string()).method(), HttpMethod::Delete);
    assert_eq!(ApiCall::ListMissions.method(), HttpMethod::Get);
    assert_eq!(ApiCall::GetMission("m".to_string()).method(), HttpMethod::Get);
    assert_eq!(ApiCall::AssignRole("m".to_string()).method(), HttpMethod::Put);
    assert_eq!(ApiCall::RevokeRole("m".to_string(), "u".to_string()).method(), HttpMethod::Delete);
}

#[test]
fn statuses_are_classified() {
    assert_eq!(classify_status(200), StatusClass::Success);
    assert_eq!(classify_status(204), StatusClass::Success);
    assert_eq!(classify_status(299), StatusClass::Success);
    assert_eq!(classify_status(404), StatusClass::NotFound);
    assert_eq!(classify_status(409), StatusClass::Failure);
    assert_eq!(classify_status(303), StatusClass::Failure);
    assert_eq!(classify_status(199), StatusClass::Failure);
}

#[test]
fn rejections_carry_the_servers_message() {
    assert!(check_status(201, Some("ignored".to_string())).is_ok());
    let rejection = check_status(409, Some("cannot remove the last remaining owner".to_string()))
        .unwrap_err();
    assert_eq!(rejection.status, 409);
    assert_eq!(rejection.body, "cannot remove the last remaining owner");
    let bare = check_status(500, None).unwrap_err();
    assert_eq!(bare.status, 500);
    assert_eq!(bare.body, "(no error detail)");
    assert!(check_status(404, None).is_err());
}
