use lesbin_api::config::{get_config_handler, AppState};
use lesbin_api::middleware::{
    admin_auth_middleware, api_auth_middleware, authorize, AccessTokenHeader, AuthOutcome,
    HeaderError, Tier,
};
use lesbin_api::status::{deletion_status, StatusCode};
use lesbin_api::sweeper::{expiry_task_step, SweeperAction, SweeperEvent, SWEEP_INTERVAL_SECS};

fn state() -> AppState {
    AppState {
        access_token: String::from("api-token"),
        admin_tokens: vec![String::from("admin-one"), String::from("admin-two")],
        paste_max_size: 524_288,
        paste_max_expiry: 31_536_000,
        paste_expiry_required: true,
        reports_enabled: false,
        reports_min_length: 10,
    }
}

#[test]
fn api_tier_tells_missing_from_wrong() {
    let s = state();
    assert_eq!(api_auth_middleware(&s, None), AuthOutcome::Unauthorized);
    let wrong = AccessTokenHeader(String::from("api-tokem"));
    assert_eq!(api_auth_middleware(&s, Some(&wrong)), AuthOutcome::Forbidden);
    let prefix = AccessTokenHeader(String::from("api-toke"));
    assert_eq!(api_auth_middleware(&s, Some(&prefix)), AuthOutcome::Forbidden);
    let admin = AccessTokenHeader(String::from("admin-one"));
    assert_eq!(api_auth_middleware(&s, Some(&admin)), AuthOutcome::Forbidden);
    let right = AccessTokenHeader(String::from("api-token"));
    assert_eq!(api_auth_middleware(&s, Some(&right)), AuthOutcome::Authorized);
}

#[test]
fn admin_tier_is_a_membership_test() {
    let s = state();
    assert_eq!(admin_auth_middleware(&s, None), AuthOutcome::Unauthorized);
    assert_eq!(admin_auth_middleware(&s, Some("api-token")), AuthOutcome::Unauthorized);
    assert_eq!(admin_auth_middleware(&s, Some("")), AuthOutcome::Unauthorized);
    assert_eq!(admin_auth_middleware(&s, Some("admin-one")), AuthOutcome::Authorized);
    assert_eq!(admin_auth_middleware(&s, Some("admin-two")), AuthOutcome::Authorized);
    let mut none = state();
    none.admin_tokens = Vec::new();
    assert_eq!(admin_auth_middleware(&none, Some("admin-one")), AuthOutcome::Unauthorized);
}

#[test]
fn auth_outcomes_map_to_status_codes() {
    assert_eq!(AuthOutcome::Authorized.status().as_u16(), 200);
    assert_eq!(AuthOutcome::Unauthorized.status().as_u16(), 401);
    assert_eq!(AuthOutcome::Forbidden.status().as_u16(), 403);
}

#[test]
fn header_name_and_token() {
    assert_eq!(AccessTokenHeader::name(), "x-access-token");
    assert_eq!(AccessTokenHeader(String::from("abc")).token(), "abc");
}

#[test]
fn header_decodes_its_first_value() {
    let values = vec![b"secret token".to_vec(), b"second".to_vec()];
    let decoded = AccessTokenHeader::decode(&values).ok().unwrap();
    assert_eq!(decoded.token(), "secret token");
    let tab = vec![b"a\tb".to_vec()];
    assert_eq!(AccessTokenHeader::decode(&tab).ok().unwrap().token(), "a\tb");
    let empty = vec![Vec::new()];
    assert_eq!(AccessTokenHeader::decode(&empty).ok().unwrap().token(), "");
}

#[test]
fn header_rejects_missing_or_unreadable_values() {
    let none: Vec<Vec<u8>> = Vec::new();
    assert_eq!(AccessTokenHeader::decode(&none).err(), Some(HeaderError::Invalid));
    let high = vec![vec![b'a', 0xe9]];
    assert_eq!(AccessTokenHeader::decode(&high).err(), Some(HeaderError::Invalid));
    let control = vec![vec![b'a', 0x07]];
    assert_eq!(AccessTokenHeader::decode(&control).err(), Some(HeaderError::Invalid));
    let delete = vec![vec![0x7f]];
    assert_eq!(AccessTokenHeader::decode(&delete).err(), Some(HeaderError::Invalid));
}

#[test]
fn header_encodes_one_value_or_none() {
    let plain = AccessTokenHeader(String::from("abc def"));
    assert_eq!(plain.encode(), vec![b"abc def".to_vec()]);
    let wide = AccessTokenHeader(String::from("h\u{e9}"));
    assert_eq!(wide.encode(), vec![vec![b'h', 0xc3, 0xa9]]);
    let line = AccessTokenHeader(String::from("a\nb"));
    assert!(line.encode().is_empty());
}

#[test]
fn config_projection_copies_the_limits() {
    let response = get_config_handler(&state());
    assert_eq!(response.paste.max_size_bytes, 524_288);
    assert_eq!(response.paste.max_expiry, 31_536_000);
    assert!(response.paste.expiry_required);
    assert!(!response.report.enabled);
    assert_eq!(response.report.min_length, 10);
}

#[test]
fn status_codes_by_number() {
    assert_eq!(StatusCode::Success.as_u16(), 200);
    assert_eq!(StatusCode::Created.as_u16(), 201);
    assert_eq!(StatusCode::NoContent.as_u16(), 204);
    assert_eq!(StatusCode::BadRequest.as_u16(), 400);
    assert_eq!(StatusCode::Unauthorized.as_u16(), 401);
    assert_eq!(StatusCode::Forbidden.as_u16(), 403);
    assert_eq!(StatusCode::NotFound.as_u16(), 404);
    assert_eq!(StatusCode::PayloadTooLarge.as_u16(), 413);
    assert_eq!(StatusCode::InternalServerError.as_u16(), 500);
    assert!(StatusCode::NoContent.is_success());
    assert!(!StatusCode::NotFound.is_success());
}

#[test]
fn zero_rows_affected_is_not_found() {
    assert_eq!(deletion_status(0), StatusCode::NotFound);
    assert_eq!(deletion_status(1), StatusCode::NoContent);
    assert_eq!(deletion_status(7), StatusCode::NoContent);
}

#[test]
fn sweeper_alternates_sweep_and_sleep() {
    assert_eq!(SWEEP_INTERVAL_SECS, 60);
    assert_eq!(expiry_task_step(SweeperEvent::Started), SweeperAction::Sweep);
    assert_eq!(expiry_task_step(SweeperEvent::Swept(3)), SweeperAction::Sleep(60));
    assert_eq!(expiry_task_step(SweeperEvent::SweepFailed), SweeperAction::Sleep(60));
    assert_eq!(expiry_task_step(SweeperEvent::Woke), SweeperAction::Sweep);
}

#[test]
fn authorize_by_tier() {
    let s = state();
    assert_eq!(authorize(&s, None, Tier::Api), AuthOutcome::Unauthorized);
    assert_eq!(authorize(&s, None, Tier::Admin), AuthOutcome::Unauthorized);
    assert_eq!(authorize(&s, Some("api-token"), Tier::Api), AuthOutcome::Authorized);
    assert_eq!(authorize(&s, Some("api-token"), Tier::Admin), AuthOutcome::Unauthorized);
    assert_eq!(authorize(&s, Some("admin-two"), Tier::Admin), AuthOutcome::Authorized);
    assert_eq!(authorize(&s, Some("admin-two"), Tier::Api), AuthOutcome::Forbidden);
    assert_eq!(authorize(&s, Some("nobody"), Tier::Api), AuthOutcome::Forbidden);
    assert_eq!(authorize(&s, Some("nobody"), Tier::Admin), AuthOutcome::Unauthorized);
}
