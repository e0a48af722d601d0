use std::time::Duration;

use base64::Engine;

use waywallen::steam::auth::{
    apply_poll_response, qr_data_url, session_from_begin, svg_data_url, Poll, PollResponse,
    QrSession, SteamAuthError, Tokens,
};
use waywallen::steam::login::{
    account_name, busy_update, is_signed_in, login_step, session_for, success_update, LoginEvent,
    LoginStep, LoginUpdate,
};
use waywallen::steam::session::Session;
use waywallen::steam::workshop::{
    assemfiles_pattern, assets_username, classify, classify_lower, item_credentials, needs_auth,
    needs_auth_lower, require_username, resolve_bin, staging_dir_name, FetchFailure,
};

fn session() -> QrSession {
    QrSession {
        client_id: 5,
        request_id: vec![1, 2, 3],
        challenge_url: "https://s.team/q/1/5".to_string(),
        interval: Duration::from_secs(5),
    }
}

fn response() -> PollResponse {
    PollResponse {
        new_client_id: 0,
        new_challenge_url: String::new(),
        refresh_token: String::new(),
        access_token: String::new(),
        account_name: String::new(),
    }
}

#[test]
fn qr_data_url_is_svg() {
    let url = qr_data_url("https://s.team/q/1/123").expect("qr");
    assert!(url.starts_with("data:image/svg+xml;base64,"));
}

#[test]
fn qr_data_url_encodes_the_svg_in_base64() {
    let url = qr_data_url("https://s.team/q/1/123").expect("qr");
    let payload = &url["data:image/svg+xml;base64,".len()..];
    assert!(!payload.is_empty());
    assert!(!payload.contains('<'));
    assert!(payload
        .chars()
        .all(|c| c.is_ascii_alphanumeric() || c == '+' || c == '/' || c == '='));
    assert_eq!(payload.len() % 4, 0);
}

#[test]
fn qr_data_url_payload_decodes_to_an_svg_image() {
    let url = qr_data_url("https://s.team/q/1/123").expect("qr");
    let payload = &url["data:image/svg+xml;base64,".len()..];
    let svg = base64::engine::general_purpose::STANDARD
        .decode(payload)
        .expect("valid base64");
    let svg = String::from_utf8(svg).expect("utf-8 svg");
    assert!(svg.contains("<svg"));
    assert!(svg.contains("#000000"));
    assert!(svg.contains("#ffffff"));
    assert!(!svg.contains("s.team"));
}

#[test]
fn qr_data_url_refuses_oversized_data() {
    let huge = "x".repeat(8000);
    assert!(matches!(qr_data_url(&huge), Err(SteamAuthError::QrCode(_))));
}

#[test]
fn svg_data_url_prefixes_the_payload() {
    assert_eq!(svg_data_url("QUJD"), "data:image/svg+xml;base64,QUJD");
}

#[test]
fn begin_requires_a_challenge() {
    assert!(matches!(
        session_from_begin(1, vec![9], String::new(), Duration::from_secs(5)),
        Err(SteamAuthError::NoChallenge)
    ));
    let s = session_from_begin(1, vec![9], "u".to_string(), Duration::from_secs(2)).unwrap();
    assert_eq!(s.client_id, 1);
    assert_eq!(s.request_id, vec![9]);
    assert_eq!(s.challenge_url, "u");
    assert_eq!(s.interval, Duration::from_secs(2));
}

#[test]
fn poll_with_refresh_token_completes() {
    let mut s = session();
    let mut r = response();
    r.refresh_token = "refresh".to_string();
    r.access_token = "access".to_string();
    r.account_name = "acct".to_string();
    r.new_client_id = 77;
    match apply_poll_response(&mut s, r) {
        Poll::Done(t) => {
            assert_eq!(t.account_name, "acct");
            assert_eq!(t.refresh_token, "refresh");
            assert_eq!(t.access_token, "access");
        }
        _ => panic!("expected Done"),
    }
    assert_eq!(s.client_id, 5);
}

#[test]
fn poll_rotates_only_on_a_new_challenge() {
    let mut s = session();
    let mut r = response();
    r.new_client_id = 6;
    r.new_challenge_url = "https://s.team/q/1/5".to_string();
    assert!(matches!(apply_poll_response(&mut s, r), Poll::Pending));
    assert_eq!(s.client_id, 6);
    let mut r = response();
    r.new_challenge_url = "https://s.team/q/1/6".to_string();
    assert!(matches!(apply_poll_response(&mut s, r), Poll::Rotated));
    assert_eq!(s.challenge_url, "https://s.team/q/1/6");
    assert_eq!(s.client_id, 6);
    assert!(matches!(apply_poll_response(&mut s, response()), Poll::Pending));
}

#[test]
fn login_steps_follow_events() {
    assert!(matches!(
        login_step(LoginEvent::Cancelled),
        LoginStep::Finish(LoginUpdate::Cancelled)
    ));
    match login_step(LoginEvent::TimedOut) {
        LoginStep::Finish(u) => {
            assert_eq!(u, LoginUpdate::Failed("login timed out; try again".to_string()))
        }
        _ => panic!("expected Finish"),
    }
    assert!(matches!(
        login_step(LoginEvent::Polled(Poll::Pending)),
        LoginStep::Continue
    ));
    assert!(matches!(
        login_step(LoginEvent::Polled(Poll::Rotated)),
        LoginStep::ShowChallenge
    ));
    let tokens = Tokens {
        account_name: "a".to_string(),
        refresh_token: "r".to_string(),
        access_token: "t".to_string(),
    };
    match login_step(LoginEvent::Polled(Poll::Done(tokens))) {
        LoginStep::SignedIn(t) => assert_eq!(t.account_name, "a"),
        _ => panic!("expected SignedIn"),
    }
    match login_step(LoginEvent::PollFailed("boom".to_string())) {
        LoginStep::Finish(u) => assert_eq!(u, LoginUpdate::Failed("boom".to_string())),
        _ => panic!("expected Finish"),
    }
    assert_eq!(
        busy_update(),
        LoginUpdate::Failed("a Steam login is already in progress".to_string())
    );
}

#[test]
fn stored_session_answers_sign_in_questions() {
    let tokens = Tokens {
        account_name: "acct".to_string(),
        refresh_token: "r".to_string(),
        access_token: "t".to_string(),
    };
    let stored = session_for(&tokens);
    assert_eq!(stored.refresh_token, "r");
    assert_eq!(success_update(&tokens), LoginUpdate::Success("acct".to_string()));
    assert!(is_signed_in(&Some(stored.clone())));
    assert!(!is_signed_in(&None));
    assert_eq!(account_name(Some(stored)), Some("acct".to_string()));
    assert_eq!(account_name(None), None);
}

#[test]
fn auth_prompts_are_recognised_in_any_case() {
    assert!(needs_auth("STEAM GUARD! Please enter code"));
    assert!(needs_auth("Password:"));
    assert!(!needs_auth("Downloading depot 431961"));
    assert!(needs_auth_lower("logon requires a code"));
    assert!(!needs_auth_lower("LOGON REQUIRES a code"));
}

#[test]
fn failures_are_classified() {
    assert_eq!(classify("STEAM GUARD! Please enter code"), FetchFailure::SignInNeeded);
    assert_eq!(classify("InvalidPassword"), FetchFailure::SignInNeeded);
    assert_eq!(
        classify("App 431960 not available from this account"),
        FetchFailure::NotOwned
    );
    assert_eq!(classify("Access is denied"), FetchFailure::NotOwned);
    assert_eq!(classify("something else"), FetchFailure::Failed);
    assert_eq!(classify_lower("NO LICENSE"), FetchFailure::Failed);
    assert!(FetchFailure::SignInNeeded
        .item_message()
        .contains("Steam sign-in needed"));
    assert!(FetchFailure::NotOwned
        .item_message()
        .contains("does not own Wallpaper Engine"));
    assert!(FetchFailure::Failed
        .assets_message()
        .contains("Wallpaper Engine assets"));
    assert!(FetchFailure::SignInNeeded
        .assets_message()
        .contains("Wallpaper Engine assets"));
}

#[test]
fn usernames_and_binaries_are_resolved() {
    assert!(require_username("  ").unwrap_err().contains("sign in to Steam"));
    assert!(require_username("user").is_ok());
    assert_eq!(resolve_bin(Some("/opt/dd".into()), "x".into()), "/opt/dd");
    assert_eq!(resolve_bin(None, "  ".into()), "DepotDownloader");
    assert_eq!(resolve_bin(None, "/usr/bin/dd".into()), "/usr/bin/dd");
    let stored = Session {
        account_name: "acct".into(),
        refresh_token: "tok".into(),
        access_token: "acc".into(),
    };
    assert_eq!(
        item_credentials(Some(stored.clone()), "cfg".into()),
        ("acct".to_string(), Some("tok".to_string()))
    );
    let blank = Session {
        account_name: " ".into(),
        refresh_token: "tok".into(),
        access_token: "acc".into(),
    };
    assert_eq!(
        item_credentials(Some(blank.clone()), "cfg".into()),
        ("cfg".to_string(), None)
    );
    assert_eq!(item_credentials(None, "cfg".into()), ("cfg".to_string(), None));
    assert_eq!(assets_username(Some(stored), "cfg".into()), "acct");
    assert_eq!(assets_username(Some(blank), "cfg".into()), "cfg");
    assert_eq!(assemfiles_pattern("/root"), "/root/*/*/Url.*/AssemFiles");
    assert_eq!(staging_dir_name("123"), ".staging-123");
}
