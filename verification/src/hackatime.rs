//! Hackatime, as those see it who administer it.
use vstd::prelude::*;

use crate::cache::{found, look_up, CacheEntry};
use crate::expiry::{age, elapsed, live_items, Expiring, MINUTE};
use crate::http::{fetch, fetches, ApiRequest, Method};
use crate::text::{decimal, decimal_text};

pub mod data;

verus! {

/// For how many minutes an answer of Hackatime is kept.
pub const CACHE_EXPIRY_MINUTES: u64 = 30;

/// Where the id of a person is asked for.
pub const ID_URL: &'static str =
    "https://hackatime.hackclub.com/api/admin/v1/user/get_user_by_email";

/// Someone whose time is counted.
#[derive(Debug, Clone, Default)]
pub struct HackatimeUser {
    pub user_id: u64,
    pub username: String,
    pub projects: Vec<Project>,
    pub total_projects: usize,
}

/// A project that time was spent on.
#[derive(Debug, Clone, Default)]
pub struct Project {
    pub name: String,
    pub total_heartbeats: u64,
    pub total_duration_seconds: u64,
    pub languages: Vec<String>,
    pub repo: Option<String>,
    pub repo_mapping_id: Option<u64>,
    pub archived: bool,
}

/// The id of a person that is kept.
pub struct HackatimeEmailCacheEntry {
    /// The address that it was asked for by.
    pub email: String,
    /// The id.
    pub id: u64,
    /// When it was stored.
    pub created_time: u64,
}

impl Expiring for HackatimeEmailCacheEntry {
    open spec fn live(&self, now: u64) -> bool {
        age(self.created_time, now) < CACHE_EXPIRY_MINUTES * MINUTE && self.id != 0
    }

    fn is_live(&self, now: u64) -> (kept: bool) {
        elapsed(self.created_time, now) < CACHE_EXPIRY_MINUTES * MINUTE && self.id != 0
    }

    proof fn live_before(&self, earlier: u64, later: u64) {
    }
}

impl HackatimeEmailCacheEntry {
    /// Tells whether the entry is not too old, and yet not kept because the id
    /// in it is invalid.
    pub fn is_rejected(&self, now: u64) -> (rejected: bool)
        ensures
            rejected == (age(self.created_time, now) < CACHE_EXPIRY_MINUTES * MINUTE && self.id
                == 0),
    {
        elapsed(self.created_time, now) < CACHE_EXPIRY_MINUTES * MINUTE && self.id == 0
    }
}

impl CacheEntry for HackatimeEmailCacheEntry {
    type Key = String;

    open spec fn is_for(&self, key: &String) -> bool {
        self.email@ == key@
    }

    fn answers(&self, key: &String) -> (fits: bool) {
        self.email == *key
    }
}

/// The question for the id of the person with an address.
pub struct EmailQuery {
    /// The address.
    pub email: String,
}

/// What is to be done to learn the id of a person.
pub enum IdLookup {
    /// It is known.
    Hit(u64),
    /// It has to be fetched.
    Fetch(ApiRequest<EmailQuery>),
}

/// Whether a request asks for the id of the person with the address `email`.
pub open spec fn asks_for_id(request: ApiRequest<EmailQuery>, email: String, token: Seq<char>) -> bool {
    &&& request.method == Method::Post
    &&& request.url@ == ID_URL@
    &&& request.json
    &&& request.bearer matches Some(bearer) && bearer@ == token
    &&& request.body.email == email
}

/// The ids of people, kept for a while. The invalid id zero is not kept.
pub struct HackatimeEmailCache {
    /// What is kept, in the order in which it was stored.
    pub entries: Vec<HackatimeEmailCacheEntry>,
}

impl HackatimeEmailCache {
    /// A cache that holds nothing.
    pub fn new() -> (cache: Self)
        ensures
            cache.entries@ == Seq::<HackatimeEmailCacheEntry>::empty(),
    {
        HackatimeEmailCache { entries: Vec::new() }
    }

    /// Looks for the id of the person with the address `email`; `token` is the
    /// token of an administrator.
    pub fn get_hackatime_id_from_email(&mut self, email: String, token: &String, now: u64) -> (lookup:
        IdLookup)
        ensures
            final(self).entries@ == live_items(old(self).entries@, now),
            match found(old(self).entries@, &email, now) {
                Some(entry) => lookup == IdLookup::Hit(entry.id),
                None => lookup matches IdLookup::Fetch(request) && asks_for_id(
                    request,
                    email,
                    token@,
                ),
            },
            lookup is Hit <==> found(old(self).entries@, &email, now) is Some,
            lookup matches IdLookup::Fetch(request) ==> request.method == Method::Post
                && request.url@
                == "https://hackatime.hackclub.com/api/admin/v1/user/get_user_by_email"@
                && request.json && request.bearer is Some && (request.bearer->0)@ == token@
                && request.body.email@ == email@,
    {
        if let Some(entry) = look_up(&mut self.entries, &email, now) {
            return IdLookup::Hit(entry.id);
        }
        IdLookup::Fetch(
            ApiRequest {
                method: Method::Post,
                url: ID_URL.to_owned(),
                json: true,
                bearer: Some(token.clone()),
                body: EmailQuery { email },
            },
        )
    }

    /// Keeps the id of the person with the address `email`.
    pub fn store(&mut self, email: String, id: u64, now: u64)
        ensures
            final(self).entries@ == old(self).entries@.push(
                HackatimeEmailCacheEntry { email, id, created_time: now },
            ),
    {
        self.entries.push(HackatimeEmailCacheEntry { email, id, created_time: now });
    }
}

/// The data of a person that is kept.
pub struct HackatimeUserCacheEntry {
    /// The data.
    pub user: HackatimeUser,
    /// When it was stored.
    pub created_time: u64,
}

impl Expiring for HackatimeUserCacheEntry {
    open spec fn live(&self, now: u64) -> bool {
        age(self.created_time, now) < CACHE_EXPIRY_MINUTES * MINUTE && self.user.user_id != 0
    }

    fn is_live(&self, now: u64) -> (kept: bool) {
        elapsed(self.created_time, now) < CACHE_EXPIRY_MINUTES * MINUTE && self.user.user_id != 0
    }

    proof fn live_before(&self, earlier: u64, later: u64) {
    }
}

impl HackatimeUserCacheEntry {
    /// Tells whether the entry is not too old, and yet not kept because the id
    /// in it is invalid.
    pub fn is_rejected(&self, now: u64) -> (rejected: bool)
        ensures
            rejected == (age(self.created_time, now) < CACHE_EXPIRY_MINUTES * MINUTE && self.user.user_id
                == 0),
    {
        elapsed(self.created_time, now) < CACHE_EXPIRY_MINUTES * MINUTE && self.user.user_id == 0
    }
}

impl CacheEntry for HackatimeUserCacheEntry {
    type Key = u64;

    open spec fn is_for(&self, key: &u64) -> bool {
        self.user.user_id == *key
    }

    fn answers(&self, key: &u64) -> (fits: bool) {
        self.user.user_id == *key
    }
}

/// What is to be done to learn about a person.
pub enum UserLookup<'a> {
    /// The data is known.
    Hit(&'a HackatimeUser),
    /// The data has to be fetched.
    Fetch(ApiRequest<()>),
}

/// Where the data of the person with an id is.
pub open spec fn user_url(hackatime_id: u64) -> Seq<char> {
    "https://hackatime.hackclub.com/api/admin/v1/user/projects?user_id="@ + decimal(
        hackatime_id as nat,
    )
}

/// The data of people, kept for a while. Data without a valid id is not kept.
pub struct HackatimeUserCache {
    /// What is kept, in the order in which it was stored.
    pub entries: Vec<HackatimeUserCacheEntry>,
}

impl HackatimeUserCache {
    /// A cache that holds nothing.
    pub fn new() -> (cache: Self)
        ensures
            cache.entries@ == Seq::<HackatimeUserCacheEntry>::empty(),
    {
        HackatimeUserCache { entries: Vec::new() }
    }

    /// Looks for the data of the person with an id; `token` is the token of an
    /// administrator.
    ///
    /// Do not expose this directly on an endpoint! Very bad!
    pub fn get_hackatime_user_data<'a>(&'a mut self, hackatime_id: u64, token: &String, now: u64) -> (
    lookup: UserLookup<'a>)
        ensures
            final(self).entries@ == live_items(old(self).entries@, now),
            match found(old(self).entries@, &hackatime_id, now) {
                Some(entry) => lookup == UserLookup::Hit(&entry.user),
                None => lookup matches UserLookup::Fetch(request) && fetches(
                    request,
                    user_url(hackatime_id),
                    token@,
                ),
            },
            lookup is Hit <==> found(old(self).entries@, &hackatime_id, now) is Some,
            lookup matches UserLookup::Fetch(request) ==> request.method == Method::Get
                && request.url@
                == "https://hackatime.hackclub.com/api/admin/v1/user/projects?user_id="@ + decimal(
                hackatime_id as nat,
            ) && !request.json && request.bearer is Some && (request.bearer->0)@ == token@,
    {
        match look_up(&mut self.entries, &hackatime_id, now) {
            Some(entry) => UserLookup::Hit(&entry.user),
            None => {
                let mut url =
                    "https://hackatime.hackclub.com/api/admin/v1/user/projects?user_id=".to_owned();
                url.append(decimal_text(hackatime_id as u128).as_str());
                UserLookup::Fetch(fetch(url, token))
            },
        }
    }

    /// Keeps the data of a person.
    pub fn store(&mut self, user: HackatimeUser, now: u64)
        ensures
            final(self).entries@ == old(self).entries@.push(
                HackatimeUserCacheEntry { user, created_time: now },
            ),
    {
        self.entries.push(HackatimeUserCacheEntry { user, created_time: now });
    }
}

/// The invalid id zero is never the answer to a lookup.
pub proof fn answered_id_is_valid(entries: Seq<HackatimeEmailCacheEntry>, email: &String, now: u64)
    ensures
        found(entries, email, now) matches Some(entry) ==> entry.id != 0,
{
    crate::cache::answers_are_live(entries, email, now);
}

/// Data that is kept is the answer for its own id alone, and never without a
/// valid id.
pub proof fn answered_user_is_the_one(
    entries: Seq<HackatimeUserCacheEntry>,
    hackatime_id: u64,
    now: u64,
)
    ensures
        found(entries, &hackatime_id, now) matches Some(entry) ==> entry.user.user_id
            == hackatime_id && hackatime_id != 0,
{
    crate::cache::answers_are_live(entries, &hackatime_id, now);
}

/// An id is the answer for the address that it was stored for, character by
/// character, and for no other; it is for half an hour, unless it is zero. The
/// first such id is the answer, and the id is fetched only where there is none.
pub proof fn id_is_for_its_address_alone(entries: Seq<HackatimeEmailCacheEntry>, email: &String, now: u64)
    ensures
        match found(entries, email, now) {
            Some(entry) => exists|i: int|
                {
                    &&& 0 <= i < entries.len()
                    &&& #[trigger] entries[i] == entry
                    &&& entry.email@ == email@
                    &&& now < entry.created_time + 1_800_000_000_000 && entry.id != 0
                    &&& forall|j: int|
                        0 <= j < i ==> !((#[trigger] entries[j]).email@ == email@ && now < entries[j].created_time + 1_800_000_000_000 && entries[j].id != 0)
                },
            None => forall|i: int|
                0 <= i < entries.len() ==> !((#[trigger] entries[i]).email@ == email@ && now < entries[i].created_time + 1_800_000_000_000 && entries[i].id != 0),
        },
{
    crate::cache::first_live_entry_answers(entries, email, now);
}

/// For an address that nothing was stored for, there is no answer.
pub proof fn unknown_address_has_no_id(
    entries: Seq<HackatimeEmailCacheEntry>,
    email: &String,
    now: u64,
)
    requires
        forall|i: int| 0 <= i < entries.len() ==> (#[trigger] entries[i]).email@ != email@,
    ensures
        found(entries, email, now) is None,
{
    id_is_for_its_address_alone(entries, email, now);
}

/// The data of a person is the answer for the id in it, and for no other; it is
/// for half an hour, unless the id is zero. The first such data is the answer,
/// and data is fetched only where there is none.
pub proof fn user_is_for_the_own_id_alone(entries: Seq<HackatimeUserCacheEntry>, hackatime_id: &u64, now: u64)
    ensures
        match found(entries, hackatime_id, now) {
            Some(entry) => exists|i: int|
                {
                    &&& 0 <= i < entries.len()
                    &&& #[trigger] entries[i] == entry
                    &&& entry.user.user_id == *hackatime_id
                    &&& now < entry.created_time + 1_800_000_000_000 && entry.user.user_id != 0
                    &&& forall|j: int|
                        0 <= j < i ==> !((#[trigger] entries[j]).user.user_id == *hackatime_id && now < entries[j].created_time + 1_800_000_000_000 && entries[j].user.user_id != 0)
                },
            None => forall|i: int|
                0 <= i < entries.len() ==> !((#[trigger] entries[i]).user.user_id == *hackatime_id && now < entries[i].created_time + 1_800_000_000_000 && entries[i].user.user_id != 0),
        },
{
    crate::cache::first_live_entry_answers(entries, hackatime_id, now);
}

} // verus!
