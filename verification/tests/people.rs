use hc_helper::auth::data::{
    check_verified, Address, AuthData, AuthDataCache, VerificationStatus,
};
use hc_helper::cache::TokenLookup;
use hc_helper::expiry::MINUTE;
use hc_helper::hackatime::data as own;
use hc_helper::hackatime::{
    HackatimeEmailCache, HackatimeUser, HackatimeUserCache, IdLookup, UserLookup,
};
use hc_helper::http::{ApiRequest, Method};
use hc_helper::link::LinkError;

fn address(id: &str, primary: bool) -> Address {
    Address {
        id: id.to_string(),
        primary,
        ..Address::default()
    }
}

fn person(id: &str) -> AuthData {
    AuthData {
        id: id.to_string(),
        ..AuthData::default()
    }
}

fn token(text: &str) -> Option<String> {
    Some(text.to_string())
}

fn assert_fetches(request: &ApiRequest<()>, url: &str, token: &str) {
    assert_eq!(request.method, Method::Get);
    assert_eq!(request.url, url);
    assert!(!request.json);
    assert_eq!(request.bearer, Some(token.to_string()));
}

#[test]
fn primary_address_is_the_first_marked() {
    let mut data = person("p");
    assert_eq!(data.primary_address(), None);
    data.addresses = vec![address("a", false)];
    assert_eq!(data.primary_address(), None);
    data.addresses = vec![
        address("a", false),
        address("b", true),
        address("c", true),
    ];
    assert_eq!(data.primary_address(), Some(address("b", true)));
}

fn status(name: &str) -> Result<VerificationStatus, String> {
    let data = AuthData {
        verification_status: name.to_string(),
        ..AuthData::default()
    };
    check_verified(&data).map_err(|e| e.message())
}

#[test]
fn statuses_have_names() {
    assert_eq!(
        status("needs_submission"),
        Ok(VerificationStatus::NeedsSubmission)
    );
    assert_eq!(status("pending"), Ok(VerificationStatus::Pending));
    assert_eq!(
        status("verified_eligible"),
        Ok(VerificationStatus::VerifiedEligible)
    );
    assert_eq!(status("verified"), Ok(VerificationStatus::VerifiedEligible));
    assert_eq!(
        status("verified_but_over_18"),
        Ok(VerificationStatus::VerifiedButOver18)
    );
    assert_eq!(status("rejected"), Ok(VerificationStatus::Rejected));
    assert_eq!(status("not_found"), Ok(VerificationStatus::NotFound));
    assert_eq!(
        status("Pending"),
        Err("Unknown verification status: Pending".to_string())
    );
    assert_eq!(status(""), Err("Unknown verification status: ".to_string()));
}

#[test]
fn the_eligible_are_verified() {
    assert!(VerificationStatus::VerifiedEligible.is_verified());
    for status in [
        VerificationStatus::NeedsSubmission,
        VerificationStatus::Pending,
        VerificationStatus::VerifiedButOver18,
        VerificationStatus::Rejected,
        VerificationStatus::NotFound,
    ] {
        assert!(!status.is_verified());
    }
}

#[test]
fn data_is_fetched_once_in_ten_minutes() {
    let mut cache = AuthDataCache::new();
    match cache.get_auth_data(token("t"), 1) {
        TokenLookup::Fetch { token, request } => {
            assert_eq!(token, "t");
            assert_fetches(&request, "https://auth.hackclub.com/api/v1/me", "t");
        }
        _ => panic!("not fetched"),
    }
    cache.store("t".to_string(), person("p"), 2);
    match cache.get_auth_data(token("t"), 10 * MINUTE + 1) {
        TokenLookup::Hit(data) => assert_eq!(*data, person("p")),
        _ => panic!("not found"),
    }
    assert!(matches!(
        cache.get_auth_data(token("t"), 10 * MINUTE + 2),
        TokenLookup::Fetch { .. }
    ));
    assert!(cache.entries.is_empty());
}

#[test]
fn data_belongs_to_its_token() {
    let mut cache = AuthDataCache::new();
    cache.store("t".to_string(), person("p"), 0);
    cache.store("u".to_string(), person("q"), 0);
    cache.store("t".to_string(), person("r"), 0);
    assert!(matches!(
        cache.get_auth_data(token("v"), 1),
        TokenLookup::Fetch { .. }
    ));
    for (key, id) in [("t", "p"), ("u", "q")] {
        match cache.get_auth_data(token(key), 1) {
            TokenLookup::Hit(data) => assert_eq!(data.id, id),
            _ => panic!("not found"),
        }
    }
}

#[test]
fn without_a_token_nobody_is_known() {
    let mut cache = AuthDataCache::new();
    cache.store("t".to_string(), person("p"), 0);
    assert!(matches!(
        cache.get_auth_data(None, 20 * MINUTE),
        TokenLookup::NoToken
    ));
    assert_eq!(cache.entries.len(), 1);
    assert_eq!(hc_helper::auth::data::NO_TOKEN, "No auth token");
    assert_eq!(own::NO_TOKEN, "No Hackatime token");
}

fn id(cache: &mut HackatimeEmailCache, email: &str, now: u64) -> Option<u64> {
    match cache.get_hackatime_id_from_email(email.to_string(), &"admin".to_string(), now) {
        IdLookup::Hit(id) => Some(id),
        IdLookup::Fetch(request) => {
            assert_eq!(request.method, Method::Post);
            assert_eq!(
                request.url,
                "https://hackatime.hackclub.com/api/admin/v1/user/get_user_by_email"
            );
            assert!(request.json);
            assert_eq!(request.bearer, Some("admin".to_string()));
            assert_eq!(request.body.email, email);
            None
        }
    }
}

#[test]
fn ids_are_kept_for_half_an_hour() {
    let mut cache = HackatimeEmailCache::new();
    assert_eq!(id(&mut cache, "a@b", 0), None);
    cache.store("a@b".to_string(), 5, 0);
    assert_eq!(id(&mut cache, "a@b", 30 * MINUTE - 1), Some(5));
    assert_eq!(id(&mut cache, "c@d", 30 * MINUTE - 1), None);
    assert_eq!(id(&mut cache, "a@b", 30 * MINUTE), None);
}

#[test]
fn invalid_ids_are_not_kept() {
    let mut cache = HackatimeEmailCache::new();
    cache.store("a@b".to_string(), 0, 0);
    cache.store("a@b".to_string(), 6, 0);
    assert_eq!(id(&mut cache, "a@b", 1), Some(6));
    assert_eq!(cache.entries.len(), 1);
}

fn administered(user_id: u64) -> HackatimeUser {
    HackatimeUser {
        user_id,
        ..HackatimeUser::default()
    }
}

#[test]
fn people_are_looked_up_by_id() {
    let admin = "admin".to_string();
    let mut cache = HackatimeUserCache::new();
    match cache.get_hackatime_user_data(12, &admin, 0) {
        UserLookup::Fetch(request) => assert_fetches(
            &request,
            "https://hackatime.hackclub.com/api/admin/v1/user/projects?user_id=12",
            "admin",
        ),
        UserLookup::Hit(_) => panic!("found"),
    }
    cache.store(administered(0), 0);
    cache.store(administered(12), 0);
    match cache.get_hackatime_user_data(12, &admin, 30 * MINUTE - 1) {
        UserLookup::Hit(user) => assert_eq!(user.user_id, 12),
        UserLookup::Fetch(_) => panic!("not found"),
    }
    for (id, now) in [(0, 1), (13, 1), (12, 30 * MINUTE)] {
        assert!(matches!(
            cache.get_hackatime_user_data(id, &admin, now),
            UserLookup::Fetch(_)
        ));
    }
}

#[test]
fn people_see_their_own_data() {
    let mut cache = own::HackatimeUserCache::new();
    assert!(matches!(
        cache.get_hackatime_user(None, 0),
        TokenLookup::NoToken
    ));
    match cache.get_hackatime_user(token("t"), 0) {
        TokenLookup::Fetch { token, request } => {
            assert_eq!(token, "t");
            assert_fetches(
                &request,
                "https://hackatime.hackclub.com/api/v1/authenticated/me",
                "t",
            );
        }
        _ => panic!("not fetched"),
    }
    cache.store("t".to_string(), own::HackatimeUser::default(), 0);
    let user = own::HackatimeUser {
        user_id: 3,
        ..own::HackatimeUser::default()
    };
    cache.store("t".to_string(), user.clone(), 0);
    match cache.get_hackatime_user(token("t"), 30 * MINUTE - 1) {
        TokenLookup::Hit(found) => assert_eq!(*found, user),
        _ => panic!("not found"),
    }
    assert!(matches!(
        cache.get_hackatime_user(token("t"), 30 * MINUTE),
        TokenLookup::Fetch { .. }
    ));
}

#[test]
fn people_see_the_names_of_their_projects() {
    let mut cache = own::ProjectNamesCache::new();
    assert!(matches!(
        cache.get_hackatime_projects(None, 0),
        TokenLookup::NoToken
    ));
    match cache.get_hackatime_projects(token("t"), 0) {
        TokenLookup::Fetch { token, request } => {
            assert_eq!(token, "t");
            assert_fetches(
                &request,
                "https://hackatime.hackclub.com/api/v1/authenticated/projects?include_archived=true",
                "t",
            );
        }
        _ => panic!("not fetched"),
    }
    let names = own::project_names(own::ProjectNamesResponse {
        projects: ["a", "b"]
            .iter()
            .map(|name| own::ProjectName {
                name: name.to_string(),
            })
            .collect(),
    });
    assert_eq!(names, vec!["a", "b"]);
    cache.store("t".to_string(), names, 0);
    match cache.get_hackatime_projects(token("t"), 1) {
        TokenLookup::Hit(names) => assert_eq!(*names, vec!["a", "b"]),
        _ => panic!("not found"),
    }
}

fn project(name: &str) -> own::Project {
    own::Project {
        name: name.to_string(),
        ..own::Project::default()
    }
}

#[test]
fn people_see_their_projects() {
    let mut cache = own::ProjectCache::new();
    assert!(matches!(
        cache.get_hackatime_project(None, "p".to_string(), 0),
        own::ProjectLookup::NoToken
    ));
    let key = match cache.get_hackatime_project(token("t"), "my project/1".to_string(), 0) {
        own::ProjectLookup::Fetch { key, request } => {
            assert_fetches(
                &request,
                "https://hackatime.hackclub.com/api/v1/users/my/project/my%20project%2F1?start_date=2015-01-01",
                "t",
            );
            key
        }
        _ => panic!("not fetched"),
    };
    assert_eq!(key.token, "t");
    assert_eq!(key.name, "my project/1");
    cache.store(key, project("p"), 0);
    match cache.get_hackatime_project(token("t"), "my project/1".to_string(), 30 * MINUTE - 1) {
        own::ProjectLookup::Hit(found) => assert_eq!(*found, project("p")),
        _ => panic!("not found"),
    }
    for (owner, name, now) in [
        ("u", "my project/1", 1),
        ("t", "other", 1),
        ("t", "my project/1", 30 * MINUTE),
    ] {
        assert!(matches!(
            cache.get_hackatime_project(token(owner), name.to_string(), now),
            own::ProjectLookup::Fetch { .. }
        ));
    }
}

#[test]
fn times_are_compared_as_numbers() {
    let times = [
        0.0,
        -0.0,
        1.0,
        -1.0,
        1.5,
        f64::MIN_POSITIVE,
        5e-324,
        -5e-324,
        f64::MAX,
        f64::MIN,
        f64::INFINITY,
        f64::NEG_INFINITY,
        f64::NAN,
        -f64::NAN,
        f64::from_bits(0x7ff0_0000_0000_0001),
    ];
    for a in times {
        for b in times {
            let mut left = project("p");
            let mut right = project("p");
            left.total_duration_seconds_bits = a.to_bits();
            right.total_duration_seconds_bits = b.to_bits();
            assert_eq!(left == right, a == b, "{a} {b}");
        }
    }
}

#[test]
fn projects_are_compared_by_all_they_hold() {
    let mut other = vec![project("q")];
    for i in 0..8 {
        let mut p = project("p");
        match i {
            0 => p.total_heartbeats = 1,
            1 => p.languages = vec!["Rust".to_string()],
            2 => p.repo_url = token("r"),
            3 => p.first_heartbeat = token(""),
            4 => p.last_heartbeat = token("l"),
            5 => p.most_recent_heartbeat = token("m"),
            6 => p.archived = true,
            _ => p.languages = vec!["C".to_string()],
        }
        other.push(p);
    }
    for (i, a) in other.iter().enumerate() {
        assert!(*a != project("p"));
        for (j, b) in other.iter().enumerate() {
            assert_eq!(a == b, i == j);
        }
    }
}

#[test]
fn projects_with_long_names_have_an_address() {
    let long = "x".repeat(1 << 20);
    assert!(own::is_short_project_name(&long));
    match own::ProjectCache::new().get_hackatime_project(token("t"), long.clone(), 0) {
        own::ProjectLookup::Fetch { request, .. } => assert_fetches(
            &request,
            &format!(
                "https://hackatime.hackclub.com/api/v1/users/my/project/{long}?start_date=2015-01-01"
            ),
            "t",
        ),
        _ => panic!("not fetched"),
    }
}

#[test]
fn rejected_entries_are_young_and_invalid() {
    let mut ids = HackatimeEmailCache::new();
    ids.store("a@b".to_string(), 0, 0);
    ids.store("c@d".to_string(), 1, 0);
    let mut users = HackatimeUserCache::new();
    users.store(administered(0), 0);
    users.store(administered(1), 0);
    let mut own_users = own::HackatimeUserCache::new();
    own_users.store("t".to_string(), own::HackatimeUser::default(), 0);
    for (now, expected) in [(30 * MINUTE - 1, true), (30 * MINUTE, false)] {
        assert_eq!(ids.entries[0].is_rejected(now), expected);
        assert!(!ids.entries[1].is_rejected(now));
        assert_eq!(users.entries[0].is_rejected(now), expected);
        assert!(!users.entries[1].is_rejected(now));
        assert_eq!(own_users.entries[0].is_rejected(now), expected);
    }
}

#[test]
fn projects_without_an_address_are_not_fetched() {
    let key = own::ProjectKey {
        token: "t".to_string(),
        name: "p".to_string(),
    };
    match own::project_request(key, Err(LinkError::CannotBeABase)) {
        own::ProjectLookup::NoLink(error) => assert_eq!(
            error.message(own::NO_PROJECT_URL),
            "Cannot build Hackatime project URL"
        ),
        _ => panic!("fetched"),
    }
}
