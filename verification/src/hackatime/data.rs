//! Hackatime, as the people see it whose time it counts.
use vstd::prelude::*;
use vstd::std_specs::cmp::PartialEqSpec;

use crate::cache::{found, look_up, CacheEntry, TokenLookup};
use crate::expiry::{age, elapsed, live_items, Expiring, MINUTE};
use crate::http::{fetch, fetches, ApiRequest, Method};
use crate::link::{
    extended_link, has_room, is_short, outcome, pair_texts, plain, query_link, then_queried,
    LinkError,
};
use crate::text::{text_of_option, texts};

verus! {

/// For how many minutes an answer of Hackatime is kept.
pub const CACHE_EXPIRY_MINUTES: u64 = 30;

/// Without this the API only looks back a year, which truncates `first_heartbeat`.
pub const PROJECT_STATS_START: &'static str = "2015-01-01";

/// Where the data of a person is.
pub const USER_URL: &'static str = "https://hackatime.hackclub.com/api/v1/authenticated/me";

/// Where the names of a person's projects are.
pub const PROJECT_NAMES_URL: &'static str =
    "https://hackatime.hackclub.com/api/v1/authenticated/projects?include_archived=true";

/// What the addresses of a person's projects start with.
pub const PROJECT_URL: &'static str = "https://hackatime.hackclub.com/api/v1/users/my/project";

/// What is said where there is no token.
pub const NO_TOKEN: &'static str = "No Hackatime token";

/// What is said where the address of a project cannot be built.
pub const NO_PROJECT_URL: &'static str = "Cannot build Hackatime project URL";

/// Someone whose time is counted.
#[derive(Debug, Clone, Default, PartialEq)]
pub struct HackatimeUser {
    pub user_id: u64,
    pub emails: Vec<String>,
    pub slack_id: Option<String>,
    pub github_username: Option<String>,
    pub trust_factor: TrustFactor,
}

/// How far someone is trusted.
#[derive(Debug, Clone, Default, PartialEq)]
pub struct TrustFactor {
    pub trust_level: String,
    pub trust_value: i64,
}

/// A project that time was spent on.
#[derive(Debug, Clone, Default)]
pub struct Project {
    pub name: String,
    /// The time in seconds, as the bits of a floating-point number.
    pub total_duration_seconds_bits: u64,
    pub total_heartbeats: u64,
    pub languages: Vec<String>,
    pub repo_url: Option<String>,
    pub first_heartbeat: Option<String>,
    pub last_heartbeat: Option<String>,
    pub most_recent_heartbeat: Option<String>,
    pub archived: bool,
}

/// A floating-point number of 64 bits without its sign.
pub open spec fn magnitude(bits: u64) -> u64 {
    bits % 0x8000_0000_0000_0000
}

/// Whether the bits of a floating-point number stand for a number, and not for
/// the lack of one.
pub open spec fn is_number(bits: u64) -> bool {
    magnitude(bits) <= 0x7ff0_0000_0000_0000
}

/// Whether the bits of two floating-point numbers stand for the same number:
/// both zeros do, and what is no number is not even the same as itself.
pub open spec fn same_number(a: u64, b: u64) -> bool {
    is_number(a) && is_number(b) && (a == b || magnitude(a) == 0 && magnitude(b) == 0)
}

fn is_same_number(a: u64, b: u64) -> (same: bool)
    ensures
        same == same_number(a, b),
{
    let a_magnitude: u64 = a % 0x8000_0000_0000_0000;
    let b_magnitude: u64 = b % 0x8000_0000_0000_0000;
    a_magnitude <= 0x7ff0_0000_0000_0000 && b_magnitude <= 0x7ff0_0000_0000_0000 && (a == b || (
    a_magnitude == 0 && b_magnitude == 0))
}

/// The characters of each text.
pub open spec fn string_texts(strings: Seq<String>) -> Seq<Seq<char>> {
    strings.map_values(|s: String| s@)
}

fn are_same_texts(a: &Vec<String>, b: &Vec<String>) -> (same: bool)
    ensures
        same == (string_texts(a@) == string_texts(b@)),
{
    if a.len() != b.len() {
        assert(string_texts(a@).len() != string_texts(b@).len());
        return false;
    }
    for i in 0..a.len()
        invariant
            a.len() == b.len(),
            forall|j: int| 0 <= j < i ==> (#[trigger] a@[j])@ == b@[j]@,
    {
        if a[i] != b[i] {
            assert(string_texts(a@)[i as int] != string_texts(b@)[i as int]);
            return false;
        }
    }
    assert(string_texts(a@) =~= string_texts(b@));
    true
}

fn is_same_option(a: &Option<String>, b: &Option<String>) -> (same: bool)
    ensures
        same == (text_of_option(*a) == text_of_option(*b)),
{
    match (a, b) {
        (Some(a), Some(b)) => *a == *b,
        (None, None) => true,
        _ => false,
    }
}

/// Projects are equal where all they hold is, the time as a number.
impl PartialEq for Project {
    fn eq(&self, other: &Self) -> (same: bool) {
        self.name == other.name && is_same_number(
            self.total_duration_seconds_bits,
            other.total_duration_seconds_bits,
        ) && self.total_heartbeats == other.total_heartbeats && are_same_texts(
            &self.languages,
            &other.languages,
        ) && is_same_option(&self.repo_url, &other.repo_url) && is_same_option(
            &self.first_heartbeat,
            &other.first_heartbeat,
        ) && is_same_option(&self.last_heartbeat, &other.last_heartbeat) && is_same_option(
            &self.most_recent_heartbeat,
            &other.most_recent_heartbeat,
        ) && self.archived == other.archived
    }
}

impl vstd::std_specs::cmp::PartialEqSpecImpl for Project {
    open spec fn obeys_eq_spec() -> bool {
        true
    }

    open spec fn eq_spec(&self, other: &Self) -> bool {
        &&& self.name@ == other.name@
        &&& same_number(self.total_duration_seconds_bits, other.total_duration_seconds_bits)
        &&& self.total_heartbeats == other.total_heartbeats
        &&& string_texts(self.languages@) == string_texts(other.languages@)
        &&& text_of_option(self.repo_url) == text_of_option(other.repo_url)
        &&& text_of_option(self.first_heartbeat) == text_of_option(other.first_heartbeat)
        &&& text_of_option(self.last_heartbeat) == text_of_option(other.last_heartbeat)
        &&& text_of_option(self.most_recent_heartbeat) == text_of_option(
            other.most_recent_heartbeat,
        )
        &&& self.archived == other.archived
    }
}

/// The names of a person's projects, as Hackatime gives them.
pub struct ProjectNamesResponse {
    pub projects: Vec<ProjectName>,
}

/// The name of a project.
pub struct ProjectName {
    pub name: String,
}

/// Takes the names out of what Hackatime gives.
pub fn project_names(response: ProjectNamesResponse) -> (names: Vec<String>)
    ensures
        names@ == response.projects@.map_values(|p: ProjectName| p.name),
        names@.len() == response.projects@.len(),
        forall|i: int|
            0 <= i < names@.len() ==> #[trigger] names@[i] == response.projects@[i].name,
{
    let ghost all = response.projects@.map_values(|p: ProjectName| p.name);
    let mut names: Vec<String> = Vec::new();
    for project in it: response.projects
        invariant
            it.seq() == response.projects@,
            all == response.projects@.map_values(|p: ProjectName| p.name),
            names@ == all.take(it.index() as int),
    {
        names.push(project.name);
    }
    assert(all.take(all.len() as int) == all);
    names
}

/// The data of a person that is kept.
pub struct HackatimeUserCacheEntry {
    /// The token that it was fetched with.
    pub token: String,
    /// The data.
    pub user: HackatimeUser,
    /// When it was stored.
    pub created_time: u64,
}

impl Expiring for HackatimeUserCacheEntry {
    open spec fn live(&self, now: u64) -> bool {
        age(self.created_time, now) < CACHE_EXPIRY_MINUTES * MINUTE && self.user.user_id != 0
    }

    fn is_live(&self, now: u64) -> (kept: bool) {
        elapsed(self.created_time, now) < CACHE_EXPIRY_MINUTES * MINUTE && self.user.user_id != 0
    }

    proof fn live_before(&self, earlier: u64, later: u64) {
    }
}

impl HackatimeUserCacheEntry {
    /// Tells whether the entry is not too old, and yet not kept because the id
    /// in it is invalid.
    pub fn is_rejected(&self, now: u64) -> (rejected: bool)
        ensures
            rejected == (age(self.created_time, now) < CACHE_EXPIRY_MINUTES * MINUTE && self.user.user_id
                == 0),
    {
        elapsed(self.created_time, now) < CACHE_EXPIRY_MINUTES * MINUTE && self.user.user_id == 0
    }
}

impl CacheEntry for HackatimeUserCacheEntry {
    type Key = String;

    open spec fn is_for(&self, key: &String) -> bool {
        self.token@ == key@
    }

    fn answers(&self, key: &String) -> (fits: bool) {
        self.token == *key
    }
}

/// The data of people, kept for a while. Data without a valid id is not kept.
pub struct HackatimeUserCache {
    /// What is kept, in the order in which it was stored.
    pub entries: Vec<HackatimeUserCacheEntry>,
}

impl HackatimeUserCache {
    /// A cache that holds nothing.
    pub fn new() -> (cache: Self)
        ensures
            cache.entries@ == Seq::<HackatimeUserCacheEntry>::empty(),
    {
        HackatimeUserCache { entries: Vec::new() }
    }

    /// Looks for the data of the one whom `token` belongs to.
    pub fn get_hackatime_user<'a>(&'a mut self, token: Option<String>, now: u64) -> (lookup:
        TokenLookup<'a, HackatimeUser>)
        ensures
            match token {
                None => {
                    &&& lookup is NoToken
                    &&& final(self).entries@ == old(self).entries@
                },
                Some(token) => {
                    &&& final(self).entries@ == live_items(old(self).entries@, now)
                    &&& match found(old(self).entries@, &token, now) {
                        Some(entry) => lookup == TokenLookup::Hit(&entry.user),
                        None => lookup.asks_for(token, USER_URL@),
                    }
                },
            },
            lookup is NoToken <==> token is None,
            lookup is Hit <==> token is Some && found(old(self).entries@, &token->0, now) is Some,
            lookup matches TokenLookup::Fetch { token: used, request } ==> token is Some
                && used@ == (token->0)@ && request.method == Method::Get && request.url@ == "https://hackatime.hackclub.com/api/v1/authenticated/me"@
                && !request.json && request.bearer is Some && (request.bearer->0)@ == (token->0)@,
    {
        match token {
            None => TokenLookup::NoToken,
            Some(token) => match look_up(&mut self.entries, &token, now) {
                Some(entry) => TokenLookup::Hit(&entry.user),
                None => {
                    let request = fetch(USER_URL.to_owned(), &token);
                    TokenLookup::Fetch { token, request }
                },
            },
        }
    }

    /// Keeps data that was fetched with `token`.
    pub fn store(&mut self, token: String, user: HackatimeUser, now: u64)
        ensures
            final(self).entries@ == old(self).entries@.push(
                HackatimeUserCacheEntry { token, user, created_time: now },
            ),
    {
        self.entries.push(HackatimeUserCacheEntry { token, user, created_time: now });
    }
}

/// The names of a person's projects that are kept.
pub struct ProjectNamesCacheEntry {
    /// The token that they were fetched with.
    pub token: String,
    /// The names.
    pub names: Vec<String>,
    /// When they were stored.
    pub created_time: u64,
}

impl Expiring for ProjectNamesCacheEntry {
    open spec fn live(&self, now: u64) -> bool {
        age(self.created_time, now) < CACHE_EXPIRY_MINUTES * MINUTE
    }

    fn is_live(&self, now: u64) -> (kept: bool) {
        elapsed(self.created_time, now) < CACHE_EXPIRY_MINUTES * MINUTE
    }

    proof fn live_before(&self, earlier: u64, later: u64) {
    }
}

impl CacheEntry for ProjectNamesCacheEntry {
    type Key = String;

    open spec fn is_for(&self, key: &String) -> bool {
        self.token@ == key@
    }

    fn answers(&self, key: &String) -> (fits: bool) {
        self.token == *key
    }
}

/// The names of projects, kept for a while.
pub struct ProjectNamesCache {
    /// What is kept, in the order in which it was stored.
    pub entries: Vec<ProjectNamesCacheEntry>,
}

impl ProjectNamesCache {
    /// A cache that holds nothing.
    pub fn new() -> (cache: Self)
        ensures
            cache.entries@ == Seq::<ProjectNamesCacheEntry>::empty(),
    {
        ProjectNamesCache { entries: Vec::new() }
    }

    /// Looks for the names of the projects of the one whom `token` belongs to.
    pub fn get_hackatime_projects<'a>(&'a mut self, token: Option<String>, now: u64) -> (lookup:
        TokenLookup<'a, Vec<String>>)
        ensures
            match token {
                None => {
                    &&& lookup is NoToken
                    &&& final(self).entries@ == old(self).entries@
                },
                Some(token) => {
                    &&& final(self).entries@ == live_items(old(self).entries@, now)
                    &&& match found(old(self).entries@, &token, now) {
                        Some(entry) => lookup == TokenLookup::Hit(&entry.names),
                        None => lookup.asks_for(token, PROJECT_NAMES_URL@),
                    }
                },
            },
            lookup is NoToken <==> token is None,
            lookup is Hit <==> token is Some && found(old(self).entries@, &token->0, now) is Some,
            lookup matches TokenLookup::Fetch { token: used, request } ==> token is Some
                && used@ == (token->0)@ && request.method == Method::Get && request.url@ == "https://hackatime.hackclub.com/api/v1/authenticated/projects?include_archived=true"@
                && !request.json && request.bearer is Some && (request.bearer->0)@ == (token->0)@,
    {
        match token {
            None => TokenLookup::NoToken,
            Some(token) => match look_up(&mut self.entries, &token, now) {
                Some(entry) => TokenLookup::Hit(&entry.names),
                None => {
                    let request = fetch(PROJECT_NAMES_URL.to_owned(), &token);
                    TokenLookup::Fetch { token, request }
                },
            },
        }
    }

    /// Keeps names that were fetched with `token`.
    pub fn store(&mut self, token: String, names: Vec<String>, now: u64)
        ensures
            final(self).entries@ == old(self).entries@.push(
                ProjectNamesCacheEntry { token, names, created_time: now },
            ),
    {
        self.entries.push(ProjectNamesCacheEntry { token, names, created_time: now });
    }
}

/// A project, and the one whose it is.
pub struct ProjectKey {
    /// The token of that person.
    pub token: String,
    /// The name that the project was asked for by.
    pub name: String,
}

/// A project that is kept.
pub struct ProjectCacheEntry {
    /// The token that it was fetched with.
    pub token: String,
    /// The name that it was asked for by.
    pub name: String,
    /// The project.
    pub project: Project,
    /// When it was stored.
    pub created_time: u64,
}

impl Expiring for ProjectCacheEntry {
    open spec fn live(&self, now: u64) -> bool {
        age(self.created_time, now) < CACHE_EXPIRY_MINUTES * MINUTE
    }

    fn is_live(&self, now: u64) -> (kept: bool) {
        elapsed(self.created_time, now) < CACHE_EXPIRY_MINUTES * MINUTE
    }

    proof fn live_before(&self, earlier: u64, later: u64) {
    }
}

impl CacheEntry for ProjectCacheEntry {
    type Key = ProjectKey;

    open spec fn is_for(&self, key: &ProjectKey) -> bool {
        self.token@ == key.token@ && self.name@ == key.name@
    }

    fn answers(&self, key: &ProjectKey) -> (fits: bool) {
        self.token == key.token && self.name == key.name
    }
}

/// What is to be done to learn about a project.
pub enum ProjectLookup<'a> {
    /// There is no token, so nobody knows whose project it is.
    NoToken,
    /// It is known.
    Hit(&'a Project),
    /// It has no address.
    NoLink(LinkError),
    /// It has to be fetched.
    Fetch {
        /// What to store it under.
        key: ProjectKey,
        /// The request.
        request: ApiRequest<()>,
    },
}

/// The address of a project, or why it has none.
pub open spec fn project_link(name: Seq<char>) -> Result<Seq<char>, Option<Seq<char>>> {
    then_queried(
        extended_link(PROJECT_URL@, seq![name]),
        seq![("start_date"@, PROJECT_STATS_START@)],
    )
}

/// Whether the name of a project fits into an address.
pub open spec fn project_fits_link(name: Seq<char>) -> bool {
    has_room(PROJECT_URL@, seq![name])
}

/// Tells whether the name of a project fits into an address.
pub fn is_short_project_name(name: &str) -> (short: bool)
    ensures
        short == project_fits_link(name@),
        short == has_room(
            "https://hackatime.hackclub.com/api/v1/users/my/project"@,
            seq![name@],
        ),
{
    let mut path: Vec<&str> = Vec::new();
    path.push(name);
    assert(texts(path@) == seq![name@]);
    is_short(PROJECT_URL, &path)
}

/// Writes the address of a project.
pub fn project_url(name: &str) -> (url: Result<String, LinkError>)
    requires
        project_fits_link(name@),
    ensures
        outcome(url) == project_link(name@),
        outcome(url) == (match extended_link(
            "https://hackatime.hackclub.com/api/v1/users/my/project"@,
            seq![name@],
        ) {
            Ok(link) => Ok(
                crate::link::queried_link(link, seq![("start_date"@, "2015-01-01"@)]),
            ),
            Err(reason) => Err(reason),
        }),
{
    assert(plain(PROJECT_URL@)) by {
        reveal_strlit("https://hackatime.hackclub.com/api/v1/users/my/project");
    }
    let mut path: Vec<&str> = Vec::new();
    path.push(name);
    let mut pairs: Vec<(&str, &str)> = Vec::new();
    pairs.push(("start_date", PROJECT_STATS_START));
    assert(texts(path@) == seq![name@]);
    assert(pair_texts(pairs@) == seq![("start_date"@, PROJECT_STATS_START@)]);
    query_link(PROJECT_URL, &path, &pairs)
}

/// Projects, kept for a while.
pub struct ProjectCache {
    /// What is kept, in the order in which it was stored.
    pub entries: Vec<ProjectCacheEntry>,
}

/// Whether a lookup that found nothing says to fetch the project, or why that
/// cannot be done, where `link` is its address.
pub open spec fn fetches_project(
    lookup: ProjectLookup<'_>,
    key: ProjectKey,
    link: Result<Seq<char>, Option<Seq<char>>>,
) -> bool {
    match link {
        Ok(url) => lookup matches ProjectLookup::Fetch { key: used, request } && used.token
            == key.token && used.name == key.name && fetches(request, url, key.token@),
        Err(_) => lookup matches ProjectLookup::NoLink(error) && outcome(
            Err::<String, _>(error),
        ) == link,
    }
}

/// What a lookup that found nothing says to do, where `url` is the address of
/// the project or why it has none.
pub fn project_request<'a>(key: ProjectKey, url: Result<String, LinkError>) -> (lookup:
    ProjectLookup<'a>)
    ensures
        fetches_project(lookup, key, outcome(url)),
{
    match url {
        Ok(url) => {
            let request = fetch(url, &key.token);
            ProjectLookup::Fetch { key, request }
        },
        Err(error) => ProjectLookup::NoLink(error),
    }
}

impl ProjectCache {
    /// A cache that holds nothing.
    pub fn new() -> (cache: Self)
        ensures
            cache.entries@ == Seq::<ProjectCacheEntry>::empty(),
    {
        ProjectCache { entries: Vec::new() }
    }

    /// Looks for the project `name` of the one whom `token` belongs to.
    pub fn get_hackatime_project<'a>(
        &'a mut self,
        token: Option<String>,
        name: String,
        now: u64,
    ) -> (lookup: ProjectLookup<'a>)
        requires
            token matches Some(token) && found(
                old(self).entries@,
                &(ProjectKey { token, name }),
                now,
            ) is None ==> project_fits_link(name@),
        ensures
            match token {
                None => {
                    &&& lookup is NoToken
                    &&& final(self).entries@ == old(self).entries@
                },
                Some(token) => {
                    let key = ProjectKey { token, name };
                    &&& final(self).entries@ == live_items(old(self).entries@, now)
                    &&& match found(old(self).entries@, &key, now) {
                        Some(entry) => lookup == ProjectLookup::Hit(&entry.project),
                        None => fetches_project(lookup, key, project_link(name@)),
                    }
                },
            },
            lookup is NoToken <==> token is None,
            lookup matches ProjectLookup::Fetch { key, request } ==> token is Some
                && key.token@ == (token->0)@ && key.name@ == name@ && request.method == Method::Get
                && !request.json && request.bearer is Some && (request.bearer->0)@ == (token->0)@
                && project_link(name@) == Ok::<_, Option<Seq<char>>>(request.url@),
            lookup matches ProjectLookup::NoLink(error) ==> outcome(Err::<String, _>(error))
                == project_link(name@),
    {
        match token {
            None => ProjectLookup::NoToken,
            Some(token) => {
                let key = ProjectKey { token, name };
                match look_up(&mut self.entries, &key, now) {
                    Some(entry) => ProjectLookup::Hit(&entry.project),
                    None => {
                        let url = project_url(key.name.as_str());
                        project_request(key, url)
                    },
                }
            },
        }
    }

    /// Keeps a project.
    pub fn store(&mut self, key: ProjectKey, project: Project, now: u64)
        ensures
            final(self).entries@ == old(self).entries@.push(
                ProjectCacheEntry {
                    token: key.token,
                    name: key.name,
                    project,
                    created_time: now,
                },
            ),
    {
        self.entries.push(
            ProjectCacheEntry { token: key.token, name: key.name, project, created_time: now },
        );
    }
}

/// Data without a valid id is never the answer to a lookup.
pub proof fn answered_user_is_valid(
    entries: Seq<HackatimeUserCacheEntry>,
    token: &String,
    now: u64,
)
    ensures
        found(entries, token, now) matches Some(entry) ==> entry.user.user_id != 0,
{
    crate::cache::answers_are_live(entries, token, now);
}

/// The data of a person is the answer for the token that it was fetched with,
/// character by character, and for no other; it is for half an hour, unless the
/// id in it is zero. The first such data is the answer, and data is fetched only
/// where there is none.
pub proof fn user_is_for_its_token_alone(entries: Seq<HackatimeUserCacheEntry>, token: &String, now: u64)
    ensures
        match found(entries, token, now) {
            Some(entry) => exists|i: int|
                {
                    &&& 0 <= i < entries.len()
                    &&& #[trigger] entries[i] == entry
                    &&& entry.token@ == token@
                    &&& now < entry.created_time + 1_800_000_000_000 && entry.user.user_id != 0
                    &&& forall|j: int|
                        0 <= j < i ==> !((#[trigger] entries[j]).token@ == token@ && now < entries[j].created_time + 1_800_000_000_000 && entries[j].user.user_id != 0)
                },
            None => forall|i: int|
                0 <= i < entries.len() ==> !((#[trigger] entries[i]).token@ == token@ && now < entries[i].created_time + 1_800_000_000_000 && entries[i].user.user_id != 0),
        },
{
    crate::cache::first_live_entry_answers(entries, token, now);
}

/// The names of projects are the answer for the token that they were fetched
/// with, character by character, and for no other; they are for half an hour.
/// The first such names are the answer, and names are fetched only where there
/// are none.
pub proof fn names_are_for_their_token_alone(entries: Seq<ProjectNamesCacheEntry>, token: &String, now: u64)
    ensures
        match found(entries, token, now) {
            Some(entry) => exists|i: int|
                {
                    &&& 0 <= i < entries.len()
                    &&& #[trigger] entries[i] == entry
                    &&& entry.token@ == token@
                    &&& now < entry.created_time + 1_800_000_000_000
                    &&& forall|j: int|
                        0 <= j < i ==> !((#[trigger] entries[j]).token@ == token@ && now < entries[j].created_time + 1_800_000_000_000)
                },
            None => forall|i: int|
                0 <= i < entries.len() ==> !((#[trigger] entries[i]).token@ == token@ && now < entries[i].created_time + 1_800_000_000_000),
        },
{
    crate::cache::first_live_entry_answers(entries, token, now);
}

/// A project is the answer for the token that it was fetched with and the name
/// that it was asked for by, both character by character, and for no others; it
/// is for half an hour. The first such project is the answer, and a project is
/// fetched only where there is none.
pub proof fn project_is_for_its_owner_and_name_alone(entries: Seq<ProjectCacheEntry>, key: &ProjectKey, now: u64)
    ensures
        match found(entries, key, now) {
            Some(entry) => exists|i: int|
                {
                    &&& 0 <= i < entries.len()
                    &&& #[trigger] entries[i] == entry
                    &&& entry.token@ == key.token@ && entry.name@ == key.name@
                    &&& now < entry.created_time + 1_800_000_000_000
                    &&& forall|j: int|
                        0 <= j < i ==> !((#[trigger] entries[j]).token@ == key.token@ && entries[j].name@ == key.name@ && now < entries[j].created_time + 1_800_000_000_000)
                },
            None => forall|i: int|
                0 <= i < entries.len() ==> !((#[trigger] entries[i]).token@ == key.token@ && entries[i].name@ == key.name@ && now < entries[i].created_time + 1_800_000_000_000),
        },
{
    crate::cache::first_live_entry_answers(entries, key, now);
}

/// The address of a project is made of its name and the day from which on time
/// counts, on top of one fixed address.
pub proof fn project_is_at_its_name(name: Seq<char>)
    ensures
        match extended_link(
            "https://hackatime.hackclub.com/api/v1/users/my/project"@,
            seq![name],
        ) {
            Ok(link) => project_link(name) == Ok::<_, Option<Seq<char>>>(
                crate::link::queried_link(link, seq![("start_date"@, "2015-01-01"@)]),
            ),
            Err(reason) => project_link(name) == Err::<Seq<char>, _>(reason),
        },
{
}

/// The bits of two floating-point numbers stand for the same number exactly
/// where they are the same and stand for a number, or where no bit but the first
/// is set in either.
pub proof fn numbers_are_the_same_by_their_bits(a: u64, b: u64)
    ensures
        a != b && a != 0 && a != 0x8000_0000_0000_0000 ==> !same_number(a, b),
        a != b && b != 0 && b != 0x8000_0000_0000_0000 ==> !same_number(a, b),
        same_number(0, 0x8000_0000_0000_0000) && same_number(0x8000_0000_0000_0000, 0),
        a <= 0x7ff0_0000_0000_0000 ==> same_number(a, a),
        0x7ff0_0000_0000_0000 < a < 0x8000_0000_0000_0000 ==> !same_number(a, b),
        0x8000_0000_0000_0000 <= a <= 0xfff0_0000_0000_0000 ==> same_number(a, a),
        0xfff0_0000_0000_0000 < a ==> !same_number(a, b),
        same_number(a, b) == same_number(b, a),
{
}

/// Two projects are equal exactly where everything that they hold is.
pub proof fn equal_projects_hold_the_same(a: Project, b: Project)
    ensures
        a.eq_spec(&b) <==> {
            &&& a.name@ == b.name@
            &&& same_number(a.total_duration_seconds_bits, b.total_duration_seconds_bits)
            &&& a.total_heartbeats == b.total_heartbeats
            &&& a.languages@.len() == b.languages@.len()
            &&& forall|i: int|
                0 <= i < a.languages@.len() ==> (#[trigger] a.languages@[i])@ == b.languages@[i]@
            &&& text_of_option(a.repo_url) == text_of_option(b.repo_url)
            &&& text_of_option(a.first_heartbeat) == text_of_option(b.first_heartbeat)
            &&& text_of_option(a.last_heartbeat) == text_of_option(b.last_heartbeat)
            &&& text_of_option(a.most_recent_heartbeat) == text_of_option(b.most_recent_heartbeat)
            &&& a.archived == b.archived
        },
{
    if string_texts(a.languages@) == string_texts(b.languages@) {
        assert(string_texts(a.languages@).len() == a.languages@.len());
        assert(string_texts(b.languages@).len() == b.languages@.len());
        assert forall|i: int| 0 <= i < a.languages@.len() implies (#[trigger] a.languages@[i])@
            == b.languages@[i]@ by {
            assert(string_texts(a.languages@)[i] == string_texts(b.languages@)[i]);
        }
    }
    if a.languages@.len() == b.languages@.len() && forall|i: int|
        0 <= i < a.languages@.len() ==> (#[trigger] a.languages@[i])@ == b.languages@[i]@ {
        assert(string_texts(a.languages@) =~= string_texts(b.languages@));
    }
}

} // verus!
