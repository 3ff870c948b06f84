use hc_helper::auth::login::{
    begin_login, finish_callback, get_login_redirect_response, handle_callback, handle_login,
    redirect_url, scopes_to_string, CallbackArgs, CallbackStep, CodeRequestResponse, Rejection,
    Scopes, StateRegistry,
};
use hc_helper::expiry::{MINUTE, SECOND};
use hc_helper::http::{Method, Redirect};

fn scopes(wanted: bool) -> Scopes {
    Scopes {
        openid: wanted,
        profile: wanted,
        email: wanted,
        name: wanted,
        slack_id: wanted,
        verification_status: wanted,
        basic_info: wanted,
        addresses: wanted,
    }
}

fn begin(registry: &mut StateRegistry, value: u128, now: u64) -> Redirect {
    begin_login(registry, value, "id", "back", scopes(false), now, now)
}

fn come_back(
    registry: &mut StateRegistry,
    cookie: Option<&str>,
    state: Option<&str>,
    code: Option<&str>,
    now: u64,
) -> CallbackStep {
    let args = CallbackArgs {
        code: code.map(str::to_string),
        state: state.map(str::to_string),
    };
    handle_callback(
        registry,
        cookie.map(str::to_string),
        args,
        "id".to_string(),
        "secret".to_string(),
        "back".to_string(),
        now,
    )
}

fn rejection(step: CallbackStep) -> Rejection {
    match step {
        CallbackStep::Reject(rejection) => rejection,
        CallbackStep::RequestToken(_) => panic!("accepted"),
    }
}

fn assert_to_login(response: Redirect) {
    assert_eq!(response.status, 302);
    assert_eq!(response.location, "/login");
    assert!(response.cookie.is_none());
    assert!(response.body.is_none());
}

#[test]
fn scopes_are_joined_by_plus_signs() {
    assert_eq!(
        scopes_to_string(scopes(true)),
        "openid+profile+email+name+slack_id+verification_status+basic_info+address"
    );
    assert_eq!(scopes_to_string(scopes(false)), "");
    let mut some = scopes(false);
    some.email = true;
    some.addresses = true;
    assert_eq!(scopes_to_string(some), "email+address");
    let mut one = scopes(false);
    one.slack_id = true;
    assert_eq!(scopes_to_string(one), "slack_id");
}

#[test]
fn people_come_back_to_the_callback() {
    assert_eq!(
        redirect_url("https", "example.com"),
        "https://example.com/callback"
    );
}

#[test]
fn login_page_is_the_answer_to_the_unknown() {
    assert_to_login(get_login_redirect_response());
}

#[test]
fn login_begins() {
    let mut registry = StateRegistry::new();
    let mut wanted = scopes(false);
    wanted.openid = true;
    wanted.name = true;
    let response = begin_login(
        &mut registry,
        42,
        "client",
        "https://example.com/callback",
        wanted,
        10,
        11,
    );
    assert_eq!(response.status, 302);
    assert_eq!(
        response.location,
        "https://auth.hackclub.com/oauth/authorize?client_id=client\
         &redirect_uri=https://example.com/callback&response_type=code&scope=openid+name&state=42"
    );
    assert_eq!(
        response.body,
        Some("redirecting to Hack Club Auth".to_string())
    );
    let cookie = response.cookie.unwrap();
    assert_eq!(cookie.name, "state");
    assert_eq!(cookie.value, "42");
    assert!(cookie.http_only && cookie.secure && cookie.same_site_lax);
    assert_eq!(cookie.lifetime, 300);
    assert_eq!(registry.items.len(), 1);
    assert_eq!(registry.items[0].value, 42);
    assert_eq!(registry.items[0].created_time, 10);
}

#[test]
fn logins_get_states_of_their_own() {
    let mut registry = StateRegistry::new();
    let first = handle_login(&mut registry, "id", "back", scopes(true), 1, 2);
    let second = handle_login(&mut registry, "id", "back", scopes(true), 3, 4);
    assert_ne!(first.location, second.location);
    assert_eq!(registry.items.len(), 2);
    for (response, item) in [first, second].iter().zip(&registry.items) {
        let state = item.value.to_string();
        assert_eq!(response.cookie.as_ref().unwrap().value, state);
        assert!(response.location.ends_with(&format!("&state={state}")));
    }
}

#[test]
fn login_succeeds_with_what_it_was_given() {
    let mut registry = StateRegistry::new();
    let cookie = begin(&mut registry, u128::MAX, 0).cookie.unwrap().value;
    begin(&mut registry, 5, SECOND);
    let now = 5 * MINUTE - 1;
    match come_back(&mut registry, Some(&cookie), Some(&cookie), Some("code"), now) {
        CallbackStep::RequestToken(request) => {
            assert_eq!(request.method, Method::Post);
            assert_eq!(request.url, "https://auth.hackclub.com/oauth/token");
            assert!(request.json);
            assert!(request.bearer.is_none());
            assert_eq!(request.body.client_id, "id");
            assert_eq!(request.body.client_secret, "secret");
            assert_eq!(request.body.redirect_uri, "back");
            assert_eq!(request.body.code, "code");
            assert_eq!(request.body.grant_type, "authorization_code");
        }
        CallbackStep::Reject(_) => panic!("rejected"),
    }
    assert_eq!(registry.items.len(), 1);
    assert_eq!(registry.items[0].value, 5);
}

#[test]
fn state_serves_once() {
    let mut registry = StateRegistry::new();
    begin(&mut registry, 7, 0);
    begin(&mut registry, 7, 1);
    assert!(matches!(
        come_back(&mut registry, Some("7"), Some("7"), Some("c"), 2),
        CallbackStep::RequestToken(_)
    ));
    begin(&mut registry, 8, 3);
    assert_eq!(
        rejection(come_back(&mut registry, Some("7"), Some("7"), Some("c"), 4)),
        Rejection::StateMismatch
    );
    begin(&mut registry, 7, 5);
    assert!(matches!(
        come_back(&mut registry, Some("7"), Some("7"), Some("c"), 6),
        CallbackStep::RequestToken(_)
    ));
}

#[test]
fn login_takes_five_minutes_at_most() {
    let mut registry = StateRegistry::new();
    begin(&mut registry, 7, 0);
    assert_eq!(
        rejection(come_back(
            &mut registry,
            Some("7"),
            Some("7"),
            Some("c"),
            5 * MINUTE
        )),
        Rejection::StateMismatch
    );
    begin(&mut registry, 8, 0);
    begin(&mut registry, 9, 5 * MINUTE);
    assert_eq!(registry.items.len(), 1);
    assert_eq!(registry.items[0].value, 9);
}

#[test]
fn states_have_to_agree() {
    let mut registry = StateRegistry::new();
    begin(&mut registry, 7, 0);
    begin(&mut registry, 8, 0);
    assert_eq!(
        rejection(come_back(&mut registry, Some("7"), Some("8"), Some("c"), 1)),
        Rejection::StateMismatch
    );
    assert_eq!(registry.items.len(), 1);
    assert_eq!(registry.items[0].value, 8);
}

#[test]
fn unreadable_states_change_nothing() {
    let mut registry = StateRegistry::new();
    begin(&mut registry, 7, 0);
    let late = 10 * MINUTE;
    for (cookie, state, expected) in [
        (None, Some("7"), Rejection::NoStateCookie),
        (None, None, Rejection::NoStateCookie),
        (Some("x"), Some("7"), Rejection::InvalidStateCookie),
        (Some(""), None, Rejection::InvalidStateCookie),
        (Some("7"), None, Rejection::NoStateInUrl),
        (Some("7"), Some("-7"), Rejection::InvalidStateInUrl),
        (
            Some("7"),
            Some("340282366920938463463374607431768211456"),
            Rejection::InvalidStateInUrl,
        ),
    ] {
        assert_eq!(
            rejection(come_back(&mut registry, cookie, state, Some("c"), late)),
            expected
        );
        assert_eq!(registry.items.len(), 1);
    }
}

#[test]
fn code_has_to_come_back() {
    let mut registry = StateRegistry::new();
    begin(&mut registry, 7, 0);
    assert_eq!(
        rejection(come_back(&mut registry, Some("7"), Some("7"), None, 1)),
        Rejection::NoCode
    );
    assert!(registry.items.is_empty());
}

fn reply(access_token: Option<&str>) -> CodeRequestResponse {
    CodeRequestResponse {
        access_token: access_token.map(str::to_string),
        token_type: None,
        expires_in: None,
        scope: None,
        refresh_token: None,
    }
}

#[test]
fn token_is_kept_in_a_cookie() {
    let response = match finish_callback(Some(reply(Some("tok"))), "/home".to_string()) {
        Ok(response) => response,
        Err(_) => panic!("rejected"),
    };
    assert_eq!(response.status, 302);
    assert_eq!(response.location, "/home");
    assert_eq!(
        response.body,
        Some("Authentication successful, redirecting...".to_string())
    );
    let cookie = response.cookie.unwrap();
    assert_eq!(cookie.name, "auth-token");
    assert_eq!(cookie.value, "tok");
    assert!(cookie.http_only && cookie.secure && cookie.same_site_lax);
    assert_eq!(cookie.lifetime, 60 * 60 * 24 * 5);
}

#[test]
fn without_a_token_there_is_no_login() {
    assert!(matches!(
        finish_callback(None, "/home".to_string()),
        Err(Rejection::NoReply)
    ));
    assert!(matches!(
        finish_callback(Some(reply(None)), "/home".to_string()),
        Err(Rejection::NoAccessToken)
    ));
}

#[test]
fn the_rejected_are_sent_to_the_login_page() {
    for rejection in [
        Rejection::NoStateCookie,
        Rejection::InvalidStateCookie,
        Rejection::NoStateInUrl,
        Rejection::InvalidStateInUrl,
        Rejection::StateMismatch,
        Rejection::NoCode,
        Rejection::NoReply,
        Rejection::NoAccessToken,
    ] {
        assert_to_login(rejection.response());
    }
}

#[test]
fn states_of_no_login_are_refused() {
    let mut registry = StateRegistry::new();
    assert_eq!(
        rejection(come_back(&mut registry, Some("7"), Some("7"), Some("c"), 0)),
        Rejection::StateMismatch
    );
    begin(&mut registry, 8, 0);
    assert_eq!(
        rejection(come_back(&mut registry, Some("7"), Some("7"), Some("c"), 1)),
        Rejection::StateMismatch
    );
    assert!(matches!(
        come_back(&mut registry, Some("+8"), Some("008"), Some("c"), 2),
        CallbackStep::RequestToken(_)
    ));
}
