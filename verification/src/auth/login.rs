//! Logging in with Hack Club Auth.
use vstd::prelude::*;

use crate::expiry::{age, elapsed, live_items, retain_live, Expiring, MINUTE};
use crate::http::{ApiRequest, Method, Redirect, SetCookie, FOUND};
use crate::text::{
    decimal, decimal_text, join, number, parse_u128, parted, separated, text_of_option,
    texts,
};

verus! {

/// How long, in minutes, a login may take.
pub const STATE_EXPIRY_TIME_MINUTES: u64 = 5;

/// For how many seconds a client stays logged in.
pub const TOKEN_LIFETIME: u64 = 432_000;

/// The cookie that holds the token of a client.
pub const TOKEN_COOKIE: &'static str = "auth-token";

/// The cookie that holds the state of a login.
pub const STATE_COOKIE: &'static str = "state";

/// A login that has begun.
#[derive(Clone, Copy)]
pub struct StateRegistryItem {
    /// The state that it was given.
    pub value: u128,
    /// When it began.
    pub created_time: u64,
}

impl Expiring for StateRegistryItem {
    open spec fn live(&self, now: u64) -> bool {
        age(self.created_time, now) < STATE_EXPIRY_TIME_MINUTES * MINUTE
    }

    fn is_live(&self, now: u64) -> (kept: bool) {
        elapsed(self.created_time, now) < STATE_EXPIRY_TIME_MINUTES * MINUTE
    }

    proof fn live_before(&self, earlier: u64, later: u64) {
    }
}

/// The logins that have begun and are not over.
pub struct StateRegistry {
    /// Those logins, in the order in which they began.
    pub items: Vec<StateRegistryItem>,
}

impl StateRegistry {
    /// A registry without logins.
    pub fn new() -> (registry: Self)
        ensures
            registry.items@ == Seq::<StateRegistryItem>::empty(),
    {
        StateRegistry { items: Vec::new() }
    }
}

/// Whether an answer sends the client to the login page, and does nothing else.
pub open spec fn to_login(response: Redirect) -> bool {
    &&& response.status == FOUND
    &&& response.location@ == "/login"@
    &&& response.cookie is None
    &&& response.body is None
}

/// Get the redirect to the /login page
pub fn get_login_redirect_response() -> (response: Redirect)
    ensures
        to_login(response),
        response.status == 302,
        response.location@ == "/login"@,
        response.cookie is None,
        response.body is None,
{
    Redirect { status: FOUND, location: "/login".to_owned(), cookie: None, body: None }
}

/// What a login asks to know.
pub struct Scopes {
    pub openid: bool,
    pub profile: bool,
    pub email: bool,
    pub name: bool,
    pub slack_id: bool,
    pub verification_status: bool,
    pub basic_info: bool,
    pub addresses: bool,
}

/// The list of one name that is asked for, or the empty list.
pub open spec fn asked(wanted: bool, name: Seq<char>) -> Seq<Seq<char>> {
    if wanted {
        seq![name]
    } else {
        Seq::empty()
    }
}

impl Scopes {
    /// The names of the scopes that are asked for, in order.
    pub open spec fn names(&self) -> Seq<Seq<char>> {
        asked(self.openid, "openid"@) + asked(self.profile, "profile"@) + asked(self.email, "email"@)
            + asked(self.name, "name"@) + asked(self.slack_id, "slack_id"@) + asked(
            self.verification_status,
            "verification_status"@,
        ) + asked(self.basic_info, "basic_info"@) + asked(self.addresses, "address"@)
    }
}

fn add_scope(names: &mut Vec<&'static str>, wanted: bool, name: &'static str)
    ensures
        texts(final(names)@) == texts(old(names)@) + asked(wanted, name@),
{
    if wanted {
        names.push(name);
    }
}

/// Writes the names of the scopes that are asked for, with plus signs between
/// them.
pub fn scopes_to_string(scopes: Scopes) -> (text: String)
    ensures
        text@ == separated(scopes.names(), "+"@),
{
    let mut names: Vec<&'static str> = Vec::new();
    assert(texts(names@) == Seq::<Seq<char>>::empty());
    add_scope(&mut names, scopes.openid, "openid");
    add_scope(&mut names, scopes.profile, "profile");
    add_scope(&mut names, scopes.email, "email");
    add_scope(&mut names, scopes.name, "name");
    add_scope(&mut names, scopes.slack_id, "slack_id");
    add_scope(&mut names, scopes.verification_status, "verification_status");
    add_scope(&mut names, scopes.basic_info, "basic_info");
    add_scope(&mut names, scopes.addresses, "address");
    assert(texts(names@) == scopes.names());
    join(&names, "+")
}

/// The address that people come back to after a login.
pub fn redirect_url(scheme: &str, base_url: &str) -> (url: String)
    ensures
        url@ == scheme@ + "://"@ + base_url@ + "/callback"@,
{
    let mut url = scheme.to_owned();
    url.append("://");
    url.append(base_url);
    url.append("/callback");
    url
}

/// The address that a login starts at.
pub open spec fn auth_url(
    client_id: Seq<char>,
    redirect_url: Seq<char>,
    scopes: Scopes,
    state: u128,
) -> Seq<char> {
    "https://auth.hackclub.com/oauth/authorize?client_id="@ + client_id + "&redirect_uri="@
        + redirect_url + "&response_type=code&scope="@ + separated(scopes.names(), "+"@)
        + "&state="@ + decimal(state as nat)
}

/// The registry at the time `now` after a login with the state `value` began at
/// the time `created_time`.
pub open spec fn login_begun(
    items: Seq<StateRegistryItem>,
    value: u128,
    created_time: u64,
    now: u64,
) -> Seq<StateRegistryItem> {
    live_items(items.push(StateRegistryItem { value, created_time }), now)
}

/// Whether an answer sends the client to a login with the state `value`, and
/// has it keep that state.
pub open spec fn starts_login(
    response: Redirect,
    client_id: Seq<char>,
    redirect_url: Seq<char>,
    scopes: Scopes,
    value: u128,
) -> bool {
    &&& response.status == FOUND
    &&& response.location@ == auth_url(client_id, redirect_url, scopes, value)
    &&& response.cookie matches Some(cookie) && cookie.guards(
        STATE_COOKIE@,
        decimal(value as nat),
        STATE_EXPIRY_TIME_MINUTES * 60,
    )
    &&& response.body matches Some(body) && body@ == "redirecting to Hack Club Auth"@
}

/// Calls `rand::random` for a number of 128 bits. It is drawn at random, so
/// nothing is said of its value.
#[verifier::external_body]
fn random_state() -> u128 {
    rand::random::<u128>()
}

/// Begins a login with the state `value`.
pub fn begin_login(
    registry: &mut StateRegistry,
    value: u128,
    client_id: &str,
    redirect_url: &str,
    scopes: Scopes,
    created_time: u64,
    now: u64,
) -> (response: Redirect)
    ensures
        final(registry).items@ == login_begun(old(registry).items@, value, created_time, now),
        starts_login(response, client_id@, redirect_url@, scopes, value),
        response.status == 302,
        response.location@ == "https://auth.hackclub.com/oauth/authorize?client_id="@ + client_id@
            + "&redirect_uri="@ + redirect_url@ + "&response_type=code&scope="@ + separated(
            scopes.names(),
            "+"@,
        ) + "&state="@ + decimal(value as nat),
        response.cookie is Some,
        (response.cookie->0).name@ == "state"@,
        (response.cookie->0).value@ == decimal(value as nat),
        (response.cookie->0).http_only && (response.cookie->0).secure && (
        response.cookie->0).same_site_lax,
        (response.cookie->0).lifetime == 300,
        response.body is Some && (response.body->0)@ == "redirecting to Hack Club Auth"@,
{
    registry.items.push(StateRegistryItem { value, created_time });
    let mut url = "https://auth.hackclub.com/oauth/authorize?client_id=".to_owned();
    url.append(client_id);
    url.append("&redirect_uri=");
    url.append(redirect_url);
    url.append("&response_type=code&scope=");
    url.append(scopes_to_string(scopes).as_str());
    url.append("&state=");
    url.append(decimal_text(value).as_str());
    retain_live(&mut registry.items, now);
    Redirect {
        status: FOUND,
        location: url,
        cookie: Some(
            SetCookie {
                name: STATE_COOKIE.to_owned(),
                value: decimal_text(value),
                http_only: true,
                secure: true,
                same_site_lax: true,
                lifetime: STATE_EXPIRY_TIME_MINUTES * 60,
            },
        ),
        body: Some("redirecting to Hack Club Auth".to_owned()),
    }
}

/// Begins a login with a state of its own, drawn at random: should be placed at
/// /login, saves state cookie and redirects to HCA redirect URL
pub fn handle_login(
    registry: &mut StateRegistry,
    client_id: &str,
    redirect_url: &str,
    scopes: Scopes,
    created_time: u64,
    now: u64,
) -> (response: Redirect)
    ensures
        exists|value: u128|
            {
                &&& final(registry).items@ == login_begun(
                    old(registry).items@,
                    value,
                    created_time,
                    now,
                )
                &&& #[trigger] starts_login(response, client_id@, redirect_url@, scopes, value)
            },
{
    let value = random_state();
    begin_login(registry, value, client_id, redirect_url, scopes, created_time, now)
}

/// What a client brings back from a login.
pub struct CallbackArgs {
    pub code: Option<String>,
    pub state: Option<String>,
}

/// What a token is asked for with.
pub struct CodeRequestBody {
    pub client_id: String,
    pub client_secret: String,
    pub redirect_uri: String,
    pub code: String,
    pub grant_type: String,
}

/// The answer of one who was asked for a token.
pub struct CodeRequestResponse {
    pub access_token: Option<String>,
    pub token_type: Option<String>,
    pub expires_in: Option<u32>,
    pub scope: Option<String>,
    pub refresh_token: Option<String>,
}

/// Why a client that came back is not logged in.
#[derive(Clone, Copy, Debug, PartialEq, Eq, Structural)]
pub enum Rejection {
    /// It has no cookie with a state.
    NoStateCookie,
    /// The state in its cookie is no number.
    InvalidStateCookie,
    /// It brings no state back.
    NoStateInUrl,
    /// The state that it brings back is no number.
    InvalidStateInUrl,
    /// The states differ, or belong to no login that is still under way.
    StateMismatch,
    /// It brings no code back.
    NoCode,
    /// The token could not be fetched.
    NoReply,
    /// There was no token in the reply.
    NoAccessToken,
}

impl Rejection {
    /// The answer to a client that is not logged in.
    pub fn response(&self) -> (response: Redirect)
        ensures
            to_login(response),
            response.status == 302,
            response.location@ == "/login"@,
            response.cookie is None,
            response.body is None,
    {
        get_login_redirect_response()
    }
}

/// What is to be done for a client that came back.
pub enum CallbackStep {
    /// It is not logged in.
    Reject(Rejection),
    /// A token is to be fetched for it.
    RequestToken(ApiRequest<CodeRequestBody>),
}

/// The states that a client presents, in its cookie and in what it brings back,
/// or what is wrong with them.
pub open spec fn presented(cookie: Option<Seq<char>>, state: Option<Seq<char>>) -> Result<
    (u128, u128),
    Rejection,
> {
    match cookie {
        None => Err(Rejection::NoStateCookie),
        Some(cookie) => match number(cookie, u128::MAX as nat) {
            None => Err(Rejection::InvalidStateCookie),
            Some(from_cookie) => match state {
                None => Err(Rejection::NoStateInUrl),
                Some(state) => match number(state, u128::MAX as nat) {
                    None => Err(Rejection::InvalidStateInUrl),
                    Some(from_url) => Ok((from_cookie as u128, from_url as u128)),
                },
            },
        },
    }
}

/// Whether a login with the state `value` is under way at the time `now`.
pub open spec fn under_way(items: Seq<StateRegistryItem>, value: u128, now: u64) -> bool {
    exists|i: int| 0 <= i < items.len() && (#[trigger] items[i]).value == value && items[i].live(now)
}

/// The registry at the time `now` after a client presented the state `value` in
/// its cookie: the login with that state is over, however it ended.
pub open spec fn login_ended(items: Seq<StateRegistryItem>, value: u128, now: u64) -> Seq<
    StateRegistryItem,
> {
    live_items(items, now).filter(|item: StateRegistryItem| item.value != value)
}

/// What comes of a client that comes back at the time `now`: a token is fetched
/// for it, or it is rejected.
pub open spec fn callback_outcome(
    items: Seq<StateRegistryItem>,
    cookie: Option<Seq<char>>,
    state: Option<Seq<char>>,
    has_code: bool,
    now: u64,
) -> Result<(), Rejection> {
    match presented(cookie, state) {
        Err(rejection) => Err(rejection),
        Ok((from_cookie, from_url)) => if !under_way(items, from_cookie, now) || from_cookie
            != from_url {
            Err(Rejection::StateMismatch)
        } else if !has_code {
            Err(Rejection::NoCode)
        } else {
            Ok(())
        },
    }
}

/// The registry at the time `now` after a client came back: nothing has changed
/// where its states cannot be read, else the login with the state in its cookie
/// is over.
pub open spec fn after_callback(
    items: Seq<StateRegistryItem>,
    cookie: Option<Seq<char>>,
    state: Option<Seq<char>>,
    now: u64,
) -> Seq<StateRegistryItem> {
    match presented(cookie, state) {
        Err(_) => items,
        Ok((from_cookie, from_url)) => login_ended(items, from_cookie, now),
    }
}

/// Whether a request asks Hack Club Auth for the token that `code` stands for.
pub open spec fn asks_for_token(
    request: ApiRequest<CodeRequestBody>,
    client_id: Seq<char>,
    client_secret: Seq<char>,
    redirect_uri: Seq<char>,
    code: Seq<char>,
) -> bool {
    &&& request.method == Method::Post
    &&& request.url@ == "https://auth.hackclub.com/oauth/token"@
    &&& request.json
    &&& request.bearer is None
    &&& request.body.client_id@ == client_id
    &&& request.body.client_secret@ == client_secret
    &&& request.body.redirect_uri@ == redirect_uri
    &&& request.body.code@ == code
    &&& request.body.grant_type@ == "authorization_code"@
}

impl StateRegistry {
    fn end_login(&mut self, value: u128, now: u64) -> (found: bool)
        ensures
            found == under_way(old(self).items@, value, now),
            final(self).items@ == login_ended(old(self).items@, value, now),
    {
        broadcast use Seq::lemma_filter_push;

        let ghost before = self.items@;
        retain_live(&mut self.items, now);
        let ghost live = self.items@;
        let ghost other = |item: StateRegistryItem| item.value != value;
        let mut found = false;
        let mut rest: Vec<StateRegistryItem> = Vec::new();
        proof {
            reveal(Seq::filter);
        }
        assert(live.take(0).filter(other) == Seq::<StateRegistryItem>::empty());
        for i in 0..self.items.len()
            invariant
                self.items@ == live,
                other == (|item: StateRegistryItem| item.value != value),
                found == exists|j: int| 0 <= j < i && (#[trigger] live[j]).value == value,
                rest@ == live.take(i as int).filter(other),
        {
            broadcast use Seq::lemma_filter_push;

            assert(live.take(i + 1) == live.take(i as int).push(live[i as int]));
            let item = self.items[i];
            if item.value == value {
                assert(live[i as int].value == value);
                found = true;
            } else {
                rest.push(item);
            }
        }
        assert(live.take(live.len() as int) == live);
        self.items = rest;
        proof {
            let pred = |item: StateRegistryItem| item.live(now);
            if found {
                let j = choose|j: int| 0 <= j < live.len() && (#[trigger] live[j]).value == value;
                assert(pred(live[j]));
                before.lemma_filter_contains_rev(pred, live[j]);
                let i = choose|i: int| 0 <= i < before.len() && before[i] == live[j];
                assert(before[i].value == value && before[i].live(now));
            }
            if under_way(before, value, now) {
                let i = choose|i: int|
                    0 <= i < before.len() && (#[trigger] before[i]).value == value
                        && before[i].live(now);
                assert(pred(before[i]));
                before.lemma_filter_contains(pred, i);
                let j = choose|j: int| 0 <= j < live.len() && live[j] == before[i];
                assert(live[j].value == value);
            }
        }
        found
    }
}

/// Decides what is to be done for a client that came back from a login: should
/// be placed at /callback, validates response
pub fn handle_callback(
    registry: &mut StateRegistry,
    state_cookie: Option<String>,
    args: CallbackArgs,
    client_id: String,
    client_secret: String,
    redirect_uri: String,
    now: u64,
) -> (step: CallbackStep)
    ensures
        final(registry).items@ == after_callback(
            old(registry).items@,
            text_of_option(state_cookie),
            text_of_option(args.state),
            now,
        ),
        match callback_outcome(
            old(registry).items@,
            text_of_option(state_cookie),
            text_of_option(args.state),
            args.code is Some,
            now,
        ) {
            Err(rejection) => step == CallbackStep::Reject(rejection),
            Ok(()) => step matches CallbackStep::RequestToken(request) && asks_for_token(
                request,
                client_id@,
                client_secret@,
                redirect_uri@,
                (args.code->0)@,
            ),
        },
        step matches CallbackStep::RequestToken(request) ==> {
            &&& args.code is Some
            &&& request.method == Method::Post
            &&& request.url@ == "https://auth.hackclub.com/oauth/token"@
            &&& request.json
            &&& request.bearer is None
            &&& request.body.client_id@ == client_id@
            &&& request.body.client_secret@ == client_secret@
            &&& request.body.redirect_uri@ == redirect_uri@
            &&& request.body.code@ == (args.code->0)@
            &&& request.body.grant_type@ == "authorization_code"@
        },
{
    let state_from_cookie = match state_cookie {
        Some(cookie) => match parse_u128(cookie.as_str()) {
            Some(value) => value,
            None => {
                return CallbackStep::Reject(Rejection::InvalidStateCookie);
            },
        },
        None => {
            return CallbackStep::Reject(Rejection::NoStateCookie);
        },
    };
    let state_from_url = match args.state {
        Some(state) => match parse_u128(state.as_str()) {
            Some(value) => value,
            None => {
                return CallbackStep::Reject(Rejection::InvalidStateInUrl);
            },
        },
        None => {
            return CallbackStep::Reject(Rejection::NoStateInUrl);
        },
    };
    let state_found = registry.end_login(state_from_cookie, now);
    if !state_found || state_from_cookie != state_from_url {
        return CallbackStep::Reject(Rejection::StateMismatch);
    }
    match args.code {
        None => CallbackStep::Reject(Rejection::NoCode),
        Some(code) => CallbackStep::RequestToken(
            ApiRequest {
                method: Method::Post,
                url: "https://auth.hackclub.com/oauth/token".to_owned(),
                json: true,
                bearer: None,
                body: CodeRequestBody {
                    client_id,
                    client_secret,
                    redirect_uri,
                    code,
                    grant_type: "authorization_code".to_owned(),
                },
            },
        ),
    }
}

/// Whether an answer has the client keep `token`, and sends it to `location`.
pub open spec fn logs_in(response: Redirect, token: Seq<char>, location: Seq<char>) -> bool {
    &&& response.status == FOUND
    &&& response.location@ == location
    &&& response.cookie matches Some(cookie) && cookie.guards(
        TOKEN_COOKIE@,
        token,
        TOKEN_LIFETIME as int,
    )
    &&& response.body matches Some(body) && body@ == "Authentication successful, redirecting..."@
}

/// Answers a client for which a token was to be fetched, where `reply` is what
/// came of that: saves token cookie
pub fn finish_callback(reply: Option<CodeRequestResponse>, redirect_url_on_success: String) -> (
response: Result<Redirect, Rejection>)
    ensures
        match reply {
            None => response == Err::<Redirect, _>(Rejection::NoReply),
            Some(parsed) => match parsed.access_token {
                None => response == Err::<Redirect, _>(Rejection::NoAccessToken),
                Some(token) => response matches Ok(redirect) && logs_in(
                    redirect,
                    token@,
                    redirect_url_on_success@,
                ),
            },
        },
        response is Ok <==> reply is Some && (reply->0).access_token is Some,
        response matches Ok(redirect) ==> {
            &&& redirect.status == 302
            &&& redirect.location@ == redirect_url_on_success@
            &&& redirect.cookie is Some
            &&& (redirect.cookie->0).name@ == "auth-token"@
            &&& (redirect.cookie->0).value@ == ((reply->0).access_token->0)@
            &&& (redirect.cookie->0).http_only
            &&& (redirect.cookie->0).secure
            &&& (redirect.cookie->0).same_site_lax
            &&& (redirect.cookie->0).lifetime == 432_000
            &&& redirect.body is Some
            &&& (redirect.body->0)@ == "Authentication successful, redirecting..."@
        },
{
    match reply {
        None => Err(Rejection::NoReply),
        Some(parsed) => match parsed.access_token {
            None => Err(Rejection::NoAccessToken),
            Some(token) => Ok(
                Redirect {
                    status: FOUND,
                    location: redirect_url_on_success,
                    cookie: Some(
                        SetCookie {
                            name: TOKEN_COOKIE.to_owned(),
                            value: token,
                            http_only: true,
                            secure: true,
                            same_site_lax: true,
                            lifetime: TOKEN_LIFETIME,
                        },
                    ),
                    body: Some("Authentication successful, redirecting...".to_owned()),
                },
            ),
        },
    }
}

/// Something that happens to the registry.
pub enum RegistryEvent {
    /// A login begins.
    Login { value: u128, created_time: u64, now: u64 },
    /// A client presents a state in its cookie.
    Callback { value: u128, now: u64 },
}

impl RegistryEvent {
    /// When the registry was last looked through.
    pub open spec fn time(&self) -> u64 {
        match self {
            RegistryEvent::Login { value, created_time, now } => *now,
            RegistryEvent::Callback { value, now } => *now,
        }
    }
}

/// The registry after an event.
pub open spec fn after_event(items: Seq<StateRegistryItem>, event: RegistryEvent) -> Seq<
    StateRegistryItem,
> {
    match event {
        RegistryEvent::Login { value, created_time, now } => login_begun(
            items,
            value,
            created_time,
            now,
        ),
        RegistryEvent::Callback { value, now } => login_ended(items, value, now),
    }
}

/// The registry after all of `events`.
pub open spec fn after_events(items: Seq<StateRegistryItem>, events: Seq<RegistryEvent>) -> Seq<
    StateRegistryItem,
>
    decreases events.len(),
{
    if events.len() == 0 {
        items
    } else {
        after_event(after_events(items, events.drop_last()), events.last())
    }
}

proof fn lemma_login_ended(
    items: Seq<StateRegistryItem>,
    value: u128,
    now: u64,
    item: StateRegistryItem,
)
    ensures
        login_ended(items, value, now).contains(item) <==> items.contains(item) && item.live(now)
            && item.value != value,
{
    let live = |i: StateRegistryItem| i.live(now);
    let other = |i: StateRegistryItem| i.value != value;
    lemma_filter_membership(items, live, item);
    lemma_filter_membership(items.filter(live), other, item);
}

proof fn lemma_login_begun(
    items: Seq<StateRegistryItem>,
    value: u128,
    created_time: u64,
    now: u64,
    item: StateRegistryItem,
)
    ensures
        login_begun(items, value, created_time, now).contains(item) <==> item.live(now) && (
        items.contains(item) || item == (StateRegistryItem { value, created_time })),
{
    let begun = StateRegistryItem { value, created_time };
    lemma_filter_membership(items.push(begun), |i: StateRegistryItem| i.live(now), item);
    if items.contains(item) {
        let i = choose|i: int| 0 <= i < items.len() && items[i] == item;
        assert(items.push(begun)[i] == item);
    }
    assert(items.push(begun)[items.len() as int] == begun);
}

proof fn lemma_filter_membership(
    items: Seq<StateRegistryItem>,
    pred: spec_fn(StateRegistryItem) -> bool,
    item: StateRegistryItem,
)
    ensures
        items.filter(pred).contains(item) <==> items.contains(item) && pred(item),
{
    if items.filter(pred).contains(item) {
        let i = choose|i: int| 0 <= i < items.filter(pred).len() && items.filter(pred)[i] == item;
        items.lemma_filter_pred(pred, i);
        items.lemma_filter_contains_rev(pred, item);
    }
    if items.contains(item) && pred(item) {
        let i = choose|i: int| 0 <= i < items.len() && items[i] == item;
        items.lemma_filter_contains(pred, i);
    }
}

/// A login that has begun stays under way, whatever other logins do, until its
/// state is presented or its time is over.
pub proof fn login_stays_under_way(
    items: Seq<StateRegistryItem>,
    item: StateRegistryItem,
    events: Seq<RegistryEvent>,
    now: u64,
)
    requires
        items.contains(item),
        item.live(now),
        forall|i: int| 0 <= i < events.len() ==> (#[trigger] events[i]).time() <= now,
        forall|i: int|
            0 <= i < events.len() ==> !((#[trigger] events[i]) matches RegistryEvent::Callback {
                value,
                now: _,
            } && value == item.value),
    ensures
        after_events(items, events).contains(item),
        under_way(after_events(items, events), item.value, now),
    decreases events.len(),
{
    let after = after_events(items, events);
    if events.len() > 0 {
        let front = events.drop_last();
        assert forall|i: int| 0 <= i < front.len() implies #[trigger] front[i] == events[i] by {}
        login_stays_under_way(items, item, front, now);
        assert(events[events.len() - 1].time() <= now);
        item.live_before(events.last().time(), now);
        match events.last() {
            RegistryEvent::Login { value, created_time, now } => {
                lemma_login_begun(after_events(items, front), value, created_time, now, item);
            },
            RegistryEvent::Callback { value, now } => {
                lemma_login_ended(after_events(items, front), value, now, item);
            },
        }
    }
    let i = choose|i: int| 0 <= i < after.len() && after[i] == item;
    assert(after[i].value == item.value);
}

/// A client that keeps the cookie that it was given, and brings the state of
/// its login and a code back in time, has its token fetched with that code,
/// whatever other logins did in between.
pub proof fn login_succeeds(
    items: Seq<StateRegistryItem>,
    value: u128,
    created_time: u64,
    begun: u64,
    events: Seq<RegistryEvent>,
    now: u64,
)
    requires
        created_time <= begun <= now,
        now - created_time < STATE_EXPIRY_TIME_MINUTES * MINUTE,
        forall|i: int| 0 <= i < events.len() ==> (#[trigger] events[i]).time() <= now,
        forall|i: int|
            0 <= i < events.len() ==> !((#[trigger] events[i]) matches RegistryEvent::Callback {
                value: other,
                now: _,
            } && other == value),
    ensures
        callback_outcome(
            after_events(login_begun(items, value, created_time, begun), events),
            Some(decimal(value as nat)),
            Some(decimal(value as nat)),
            true,
            now,
        ) == Ok::<(), Rejection>(()),
{
    crate::text::decimal_reads_back(value as nat, u128::MAX as nat);
    let item = StateRegistryItem { value, created_time };
    lemma_login_begun(items, value, created_time, begun, item);
    login_stays_under_way(login_begun(items, value, created_time, begun), item, events, now);
}

/// A state serves once: after it was presented, whoever presents it again is
/// rejected, at whatever time and whatever other logins do, until a login is
/// begun with it again.
pub proof fn state_serves_once(
    items: Seq<StateRegistryItem>,
    value: u128,
    presented_at: u64,
    events: Seq<RegistryEvent>,
    cookie: Seq<char>,
    state: Seq<char>,
    has_code: bool,
    now: u64,
)
    requires
        forall|i: int|
            0 <= i < events.len() ==> !((#[trigger] events[i]) matches RegistryEvent::Login {
                value: other,
                created_time: _,
                now: _,
            } && other == value),
        number(cookie, u128::MAX as nat) == Some(value as nat),
        number(state, u128::MAX as nat) is Some,
    ensures
        callback_outcome(
            after_events(login_ended(items, value, presented_at), events),
            Some(cookie),
            Some(state),
            has_code,
            now,
        ) == Err::<(), _>(Rejection::StateMismatch),
{
    let after = after_events(login_ended(items, value, presented_at), events);
    assert forall|i: int| 0 <= i < after.len() implies (#[trigger] after[i]).value != value by {
        assert(after.contains(after[i]));
        lemma_state_is_gone(items, value, presented_at, events, after[i]);
    }
}

proof fn lemma_state_is_gone(
    items: Seq<StateRegistryItem>,
    value: u128,
    presented_at: u64,
    events: Seq<RegistryEvent>,
    item: StateRegistryItem,
)
    requires
        forall|i: int|
            0 <= i < events.len() ==> !((#[trigger] events[i]) matches RegistryEvent::Login {
                value: other,
                created_time: _,
                now: _,
            } && other == value),
        after_events(login_ended(items, value, presented_at), events).contains(item),
    ensures
        item.value != value,
    decreases events.len(),
{
    if events.len() == 0 {
        lemma_login_ended(items, value, presented_at, item);
    } else {
        let front = events.drop_last();
        let before = after_events(login_ended(items, value, presented_at), front);
        assert forall|i: int| 0 <= i < front.len() implies #[trigger] front[i] == events[i] by {}
        assert(events[events.len() - 1] == events.last());
        match events.last() {
            RegistryEvent::Login { value: other, created_time, now } => {
                lemma_login_begun(before, other, created_time, now, item);
            },
            RegistryEvent::Callback { value: other, now } => {
                lemma_login_ended(before, other, now, item);
            },
        }
        if before.contains(item) {
            lemma_state_is_gone(items, value, presented_at, front, item);
        }
    }
}

/// Whether `event` is the beginning of a login with the state `value` whose
/// time is not over at the time `now`.
pub open spec fn began_in_time(event: RegistryEvent, value: u128, now: u64) -> bool {
    event matches RegistryEvent::Login { value: given, created_time, now: _ } && given == value
        && age(created_time, now) < STATE_EXPIRY_TIME_MINUTES * MINUTE
}

/// A token is fetched for nobody but a client that presents the same state in
/// its cookie and in what it brings back, and only where a login was begun with
/// that state, less than five minutes ago.
pub proof fn token_needs_a_login(
    events: Seq<RegistryEvent>,
    cookie: Option<Seq<char>>,
    state: Option<Seq<char>>,
    has_code: bool,
    now: u64,
)
    requires
        callback_outcome(after_events(Seq::empty(), events), cookie, state, has_code, now) is Ok,
    ensures
        has_code,
        presented(cookie, state) matches Ok((from_cookie, from_url)) && from_cookie == from_url
            && exists|i: int|
            0 <= i < events.len() && began_in_time(#[trigger] events[i], from_cookie, now),
{
    let items = after_events(Seq::empty(), events);
    let value = presented(cookie, state)->Ok_0.0;
    let i = choose|i: int|
        0 <= i < items.len() && (#[trigger] items[i]).value == value && items[i].live(now);
    assert(items.contains(items[i]));
    lemma_item_was_begun(events, items[i], now);
}

proof fn lemma_item_was_begun(events: Seq<RegistryEvent>, item: StateRegistryItem, now: u64)
    requires
        after_events(Seq::empty(), events).contains(item),
        item.live(now),
    ensures
        exists|i: int|
            0 <= i < events.len() && began_in_time(#[trigger] events[i], item.value, now),
    decreases events.len(),
{
    if events.len() > 0 {
        let front = events.drop_last();
        let before = after_events(Seq::empty(), front);
        let last = events[events.len() - 1];
        match last {
            RegistryEvent::Login { value, created_time, now: at } => {
                lemma_login_begun(before, value, created_time, at, item);
            },
            RegistryEvent::Callback { value, now: at } => {
                lemma_login_ended(before, value, at, item);
            },
        }
        if before.contains(item) {
            lemma_item_was_begun(front, item, now);
            let i = choose|i: int|
                0 <= i < front.len() && began_in_time(#[trigger] front[i], item.value, now);
            assert(events[i] == front[i]);
        } else {
            assert(began_in_time(last, item.value, now));
        }
    }
}

/// The names of `list` that are asked for.
spec fn chosen(list: Seq<(bool, Seq<char>)>) -> Seq<Seq<char>>
    decreases list.len(),
{
    if list.len() == 0 {
        Seq::empty()
    } else {
        chosen(list.drop_last()) + asked(list.last().0, list.last().1)
    }
}

proof fn lemma_chosen(list: Seq<(bool, Seq<char>)>) -> (places: Seq<int>)
    ensures
        places.len() == chosen(list).len(),
        forall|a: int| 0 <= a < places.len() ==> 0 <= #[trigger] places[a] < list.len(),
        forall|a: int, b: int| 0 <= a < b < places.len() ==> places[a] < places[b],
        forall|a: int|
            0 <= a < places.len() ==> list[#[trigger] places[a]].0 && chosen(list)[a]
                == list[places[a]].1,
        forall|k: int| 0 <= k < list.len() && (#[trigger] list[k]).0 ==> places.contains(k),
    decreases list.len(),
{
    if list.len() == 0 {
        Seq::empty()
    } else {
        let front = list.drop_last();
        let n = list.len() - 1;
        let before = lemma_chosen(front);
        let places = if list[n].0 {
            before.push(n)
        } else {
            before
        };
        assert forall|a: int| 0 <= a < places.len() implies list[#[trigger] places[a]].0 && chosen(
            list,
        )[a] == list[places[a]].1 by {
            if a < before.len() {
                assert(front[before[a]] == list[places[a]]);
            }
        }
        assert forall|k: int|
            0 <= k < list.len() && (#[trigger] list[k]).0 implies places.contains(k) by {
            if k < n {
                assert(front[k].0);
                let a = choose|a: int| 0 <= a < before.len() && before[a] == k;
                assert(places[a] == k);
            } else {
                assert(places[before.len() as int] == k);
            }
        }
        places
    }
}

proof fn lemma_names_are_chosen(scopes: Scopes, list: Seq<(bool, Seq<char>)>)
    requires
        list == seq![
                (scopes.openid, "openid"@),
                (scopes.profile, "profile"@),
                (scopes.email, "email"@),
                (scopes.name, "name"@),
                (scopes.slack_id, "slack_id"@),
                (scopes.verification_status, "verification_status"@),
                (scopes.basic_info, "basic_info"@),
                (scopes.addresses, "address"@),
            ],
    ensures
        scopes.names() == chosen(list),
{
    let s7 = list.drop_last();
    let s6 = s7.drop_last();
    let s5 = s6.drop_last();
    let s4 = s5.drop_last();
    let s3 = s4.drop_last();
    let s2 = s3.drop_last();
    let s1 = s2.drop_last();
    let s0 = s1.drop_last();
    assert(chosen(s0) == Seq::<Seq<char>>::empty());
    assert(chosen(s1) == chosen(s0) + asked(scopes.openid, "openid"@));
    assert(chosen(s0) + asked(scopes.openid, "openid"@) == asked(scopes.openid, "openid"@));
    assert(chosen(s2) == chosen(s1) + asked(scopes.profile, "profile"@));
    assert(chosen(s3) == chosen(s2) + asked(scopes.email, "email"@));
    assert(chosen(s4) == chosen(s3) + asked(scopes.name, "name"@));
    assert(chosen(s5) == chosen(s4) + asked(scopes.slack_id, "slack_id"@));
    assert(chosen(s6) == chosen(s5) + asked(scopes.verification_status, "verification_status"@));
    assert(chosen(s7) == chosen(s6) + asked(scopes.basic_info, "basic_info"@));
    assert(chosen(list) == chosen(s7) + asked(scopes.addresses, "address"@));
}

/// The names of scopes stand in one fixed order, each exactly where its own flag
/// is set, and nothing else is named: the places that they have in that order
/// grow, and every scope that is asked for has one.
pub proof fn scopes_stand_in_order(scopes: Scopes) -> (places: Seq<int>)
    ensures
        ({
            let list = seq![
                (scopes.openid, "openid"@),
                (scopes.profile, "profile"@),
                (scopes.email, "email"@),
                (scopes.name, "name"@),
                (scopes.slack_id, "slack_id"@),
                (scopes.verification_status, "verification_status"@),
                (scopes.basic_info, "basic_info"@),
                (scopes.addresses, "address"@),
            ];
            &&& places.len() == scopes.names().len()
            &&& forall|a: int| 0 <= a < places.len() ==> 0 <= #[trigger] places[a] < 8
            &&& forall|a: int, b: int| 0 <= a < b < places.len() ==> places[a] < places[b]
            &&& forall|a: int|
                0 <= a < places.len() ==> list[#[trigger] places[a]].0 && scopes.names()[a]
                    == list[places[a]].1
            &&& forall|k: int| 0 <= k < 8 && (#[trigger] list[k]).0 ==> places.contains(k)
        }),
{
    let list = seq![
                (scopes.openid, "openid"@),
                (scopes.profile, "profile"@),
                (scopes.email, "email"@),
                (scopes.name, "name"@),
                (scopes.slack_id, "slack_id"@),
                (scopes.verification_status, "verification_status"@),
                (scopes.basic_info, "basic_info"@),
                (scopes.addresses, "address"@),
            ];
    lemma_names_are_chosen(scopes, list);
    lemma_chosen(list)
}

proof fn lemma_all_named_once(names: Seq<Seq<char>>, list: Seq<(bool, Seq<char>)>)
    requires
        list.len() == 8,
        names == chosen(list),
        forall|a: int, b: int| 0 <= a < b < 8 ==> (#[trigger] list[a]).1 != (#[trigger] list[b]).1,
    ensures
        forall|k: int| 0 <= k < 8 ==> ((#[trigger] list[k]).0 <==> names.contains(list[k].1)),
{
    let places = lemma_chosen(list);
    assert forall|k: int| 0 <= k < 8 implies ((#[trigger] list[k]).0 <==> names.contains(
        list[k].1,
    )) by {
        if list[k].0 {
            let a = choose|a: int| 0 <= a < places.len() && places[a] == k;
            assert(names[a] == list[k].1);
        }
        if names.contains(list[k].1) {
            let a = choose|a: int| 0 <= a < names.len() && names[a] == list[k].1;
            assert(names[a] == list[places[a]].1);
            assert(places[a] == k);
        }
    }
}

proof fn lemma_scope_names_differ(list: Seq<(bool, Seq<char>)>, scopes: Scopes)
    requires
        list == seq![
                (scopes.openid, "openid"@),
                (scopes.profile, "profile"@),
                (scopes.email, "email"@),
                (scopes.name, "name"@),
                (scopes.slack_id, "slack_id"@),
                (scopes.verification_status, "verification_status"@),
                (scopes.basic_info, "basic_info"@),
                (scopes.addresses, "address"@),
            ],
    ensures
        forall|a: int, b: int| 0 <= a < b < 8 ==> (#[trigger] list[a]).1 != (#[trigger] list[b]).1,
{
    reveal_strlit("openid");
    reveal_strlit("profile");
    reveal_strlit("email");
    reveal_strlit("name");
    reveal_strlit("slack_id");
    reveal_strlit("verification_status");
    reveal_strlit("basic_info");
    reveal_strlit("address");
    assert("openid"@.len() == 6 && "profile"@.len() == 7 && "email"@.len() == 5 && "name"@.len()
        == 4 && "slack_id"@.len() == 8 && "verification_status"@.len() == 19 && "basic_info"@.len()
        == 10 && "address"@.len() == 7);
    assert("profile"@[0] != "address"@[0]);
}

proof fn lemma_flags(scopes: Scopes, names: Seq<Seq<char>>, list: Seq<(bool, Seq<char>)>)
    requires
        list == seq![
                (scopes.openid, "openid"@),
                (scopes.profile, "profile"@),
                (scopes.email, "email"@),
                (scopes.name, "name"@),
                (scopes.slack_id, "slack_id"@),
                (scopes.verification_status, "verification_status"@),
                (scopes.basic_info, "basic_info"@),
                (scopes.addresses, "address"@),
            ],
        names == chosen(list),
    ensures
        scopes.openid <==> names.contains("openid"@),
        scopes.profile <==> names.contains("profile"@),
        scopes.email <==> names.contains("email"@),
        scopes.name <==> names.contains("name"@),
        scopes.slack_id <==> names.contains("slack_id"@),
        scopes.verification_status <==> names.contains("verification_status"@),
        scopes.basic_info <==> names.contains("basic_info"@),
        scopes.addresses <==> names.contains("address"@),
{
    lemma_scope_names_differ(list, scopes);
    lemma_all_named_once(names, list);
    assert(list[0] == (scopes.openid, "openid"@));
    assert(list[1] == (scopes.profile, "profile"@));
    assert(list[2] == (scopes.email, "email"@));
    assert(list[3] == (scopes.name, "name"@));
    assert(list[4] == (scopes.slack_id, "slack_id"@));
    assert(list[5] == (scopes.verification_status, "verification_status"@));
    assert(list[6] == (scopes.basic_info, "basic_info"@));
    assert(list[7] == (scopes.addresses, "address"@));
}

/// Each scope is named exactly where its own flag is set, whatever the others
/// are.
pub proof fn scopes_are_named_by_their_own_flags(scopes: Scopes)
    ensures
        scopes.openid <==> scopes.names().contains("openid"@),
        scopes.profile <==> scopes.names().contains("profile"@),
        scopes.email <==> scopes.names().contains("email"@),
        scopes.name <==> scopes.names().contains("name"@),
        scopes.slack_id <==> scopes.names().contains("slack_id"@),
        scopes.verification_status <==> scopes.names().contains("verification_status"@),
        scopes.basic_info <==> scopes.names().contains("basic_info"@),
        scopes.addresses <==> scopes.names().contains("address"@),
{
    let list = seq![
                (scopes.openid, "openid"@),
                (scopes.profile, "profile"@),
                (scopes.email, "email"@),
                (scopes.name, "name"@),
                (scopes.slack_id, "slack_id"@),
                (scopes.verification_status, "verification_status"@),
                (scopes.basic_info, "basic_info"@),
                (scopes.addresses, "address"@),
            ];
    lemma_names_are_chosen(scopes, list);
    lemma_flags(scopes, scopes.names(), list);
}

/// The text for scopes, taken apart at its plus signs, gives the names of the
/// scopes that are asked for.
pub proof fn scopes_are_read_between_plus_signs(scopes: Scopes)
    requires
        scopes.names().len() > 0,
    ensures
        parted(separated(scopes.names(), "+"@), '+') == scopes.names(),
{
    let places = scopes_stand_in_order(scopes);
    let list = seq![
                (scopes.openid, "openid"@),
                (scopes.profile, "profile"@),
                (scopes.email, "email"@),
                (scopes.name, "name"@),
                (scopes.slack_id, "slack_id"@),
                (scopes.verification_status, "verification_status"@),
                (scopes.basic_info, "basic_info"@),
                (scopes.addresses, "address"@),
            ];
    reveal_strlit("+");
    assert("+"@ == seq!['+']);
    lemma_no_plus_signs(list, scopes);
    assert forall|i: int| 0 <= i < scopes.names().len() implies !(
    #[trigger] scopes.names()[i]).contains('+') by {
        assert(scopes.names()[i] == list[places[i]].1);
    }
    crate::text::separated_reads_back(scopes.names(), '+');
}

proof fn lemma_no_plus_signs(list: Seq<(bool, Seq<char>)>, scopes: Scopes)
    requires
        list == seq![
                (scopes.openid, "openid"@),
                (scopes.profile, "profile"@),
                (scopes.email, "email"@),
                (scopes.name, "name"@),
                (scopes.slack_id, "slack_id"@),
                (scopes.verification_status, "verification_status"@),
                (scopes.basic_info, "basic_info"@),
                (scopes.addresses, "address"@),
            ],
    ensures
        forall|k: int| 0 <= k < 8 ==> !(#[trigger] list[k]).1.contains('+'),
{
    reveal_strlit("openid");
    reveal_strlit("profile");
    reveal_strlit("email");
    reveal_strlit("name");
    reveal_strlit("slack_id");
    reveal_strlit("verification_status");
    reveal_strlit("basic_info");
    reveal_strlit("address");
    assert(!"openid"@.contains('+'));
    assert(!"profile"@.contains('+'));
    assert(!"email"@.contains('+'));
    assert(!"name"@.contains('+'));
    assert(!"slack_id"@.contains('+'));
    assert(!"verification_status"@.contains('+'));
    assert(!"basic_info"@.contains('+'));
    assert(!"address"@.contains('+'));
}

/// A client presents two states, read as numbers, or is told what is wrong with
/// the first of the two that cannot be read, the one in its cookie coming first.
pub proof fn states_are_read_as_numbers(cookie: Option<Seq<char>>, state: Option<Seq<char>>)
    ensures
        presented(cookie, state) == Err::<(u128, u128), _>(Rejection::NoStateCookie) <==> cookie is None,
        presented(cookie, state) == Err::<(u128, u128), _>(Rejection::InvalidStateCookie)
            <==> cookie is Some && number(cookie->0, u128::MAX as nat) is None,
        presented(cookie, state) == Err::<(u128, u128), _>(Rejection::NoStateInUrl) <==> cookie is Some
            && number(cookie->0, u128::MAX as nat) is Some && state is None,
        presented(cookie, state) == Err::<(u128, u128), _>(Rejection::InvalidStateInUrl) <==> cookie is Some
            && number(cookie->0, u128::MAX as nat) is Some && state is Some && number(
            state->0,
            u128::MAX as nat,
        ) is None,
        presented(cookie, state) matches Ok((from_cookie, from_url)) ==> cookie is Some
            && state is Some && number(cookie->0, u128::MAX as nat) == Some(from_cookie as nat)
            && number(state->0, u128::MAX as nat) == Some(from_url as nat),
        presented(cookie, state) is Ok <==> cookie is Some && number(cookie->0, u128::MAX as nat) is Some
            && state is Some && number(state->0, u128::MAX as nat) is Some,
{
}

/// A client whose states can be read has its token fetched exactly where both
/// are the same number, a login with that number began less than five minutes
/// ago and is not over, and it brings a code; it is told that the states do not
/// match wherever they differ or there is no such login, and that the code is
/// missing in what is left. Whatever it is told, no login with the number in its
/// cookie is left, and all others are that began less than five minutes ago.
pub proof fn states_decide_who_is_let_in(
    items: Seq<StateRegistryItem>,
    cookie: Seq<char>,
    state: Seq<char>,
    from_cookie: u128,
    from_url: u128,
    has_code: bool,
    now: u64,
    item: StateRegistryItem,
)
    requires
        number(cookie, u128::MAX as nat) == Some(from_cookie as nat),
        number(state, u128::MAX as nat) == Some(from_url as nat),
    ensures
        ({
            let begun = exists|i: int|
                0 <= i < items.len() && (#[trigger] items[i]).value == from_cookie && now
                    < items[i].created_time + 300_000_000_000;
            let outcome = callback_outcome(items, Some(cookie), Some(state), has_code, now);
            &&& outcome is Ok <==> begun && from_cookie == from_url && has_code
            &&& outcome == Err::<(), _>(Rejection::StateMismatch) <==> !begun || from_cookie
                != from_url
            &&& outcome == Err::<(), _>(Rejection::NoCode) <==> begun && from_cookie == from_url
                && !has_code
        }),
        after_callback(items, Some(cookie), Some(state), now).contains(item) <==> items.contains(
            item,
        ) && now < item.created_time + 300_000_000_000 && item.value != from_cookie,
{
    lemma_login_ended(items, from_cookie, now, item);
    if exists|i: int|
        0 <= i < items.len() && (#[trigger] items[i]).value == from_cookie && now
            < items[i].created_time + 300_000_000_000 {
        let i = choose|i: int|
            0 <= i < items.len() && (#[trigger] items[i]).value == from_cookie && now
                < items[i].created_time + 300_000_000_000;
        assert(items[i].value == from_cookie && items[i].live(now));
    }
    if under_way(items, from_cookie, now) {
        let i = choose|i: int|
            0 <= i < items.len() && (#[trigger] items[i]).value == from_cookie && items[i].live(now);
        assert(items[i].value == from_cookie && now < items[i].created_time + 300_000_000_000);
    }
}

/// A client whose states cannot be read is told so, and changes nothing.
pub proof fn unreadable_states_change_nothing(
    items: Seq<StateRegistryItem>,
    cookie: Option<Seq<char>>,
    state: Option<Seq<char>>,
    has_code: bool,
    now: u64,
)
    requires
        presented(cookie, state) is Err,
    ensures
        callback_outcome(items, cookie, state, has_code, now) == Err::<(), _>(
            presented(cookie, state)->Err_0,
        ),
        after_callback(items, cookie, state, now) == items,
{
}

/// After a login has begun, the registry holds it and every other login that
/// began less than five minutes ago, and nothing else.
pub proof fn login_is_registered(
    items: Seq<StateRegistryItem>,
    value: u128,
    created_time: u64,
    now: u64,
    item: StateRegistryItem,
)
    ensures
        login_begun(items, value, created_time, now).contains(item) <==> now < item.created_time
            + 300_000_000_000 && (items.contains(item) || (item.value == value && item.created_time
            == created_time)),
{
    lemma_login_begun(items, value, created_time, now, item);
}

/// What a client is told to keep holds the state of its login, which reads back
/// as the number that the registry holds.
pub proof fn state_cookie_reads_back(
    response: Redirect,
    client_id: Seq<char>,
    redirect_url: Seq<char>,
    scopes: Scopes,
    value: u128,
)
    requires
        starts_login(response, client_id, redirect_url, scopes, value),
    ensures
        response.cookie is Some,
        (response.cookie->0).name@ == "state"@,
        number((response.cookie->0).value@, u128::MAX as nat) == Some(value as nat),
        (response.cookie->0).http_only && (response.cookie->0).secure && (
        response.cookie->0).same_site_lax,
        (response.cookie->0).lifetime == 300,
        response.status == 302,
        response.location@ == "https://auth.hackclub.com/oauth/authorize?client_id="@ + client_id
            + "&redirect_uri="@ + redirect_url + "&response_type=code&scope="@ + separated(
            scopes.names(),
            "+"@,
        ) + "&state="@ + (response.cookie->0).value@,
{
    crate::text::decimal_reads_back(value as nat, u128::MAX as nat);
}

} // verus!
