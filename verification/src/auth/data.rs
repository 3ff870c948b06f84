//! What Hack Club Auth knows of people.
use vstd::prelude::*;

use crate::cache::{found, look_up, CacheEntry, TokenLookup};
use crate::expiry::{age, elapsed, live_items, Expiring, MINUTE};
use crate::http::{fetch, Method};

verus! {

/// For how many minutes the data of a person is kept.
pub const APP_DATA_EXPIRY_MINUTES: u64 = 10;

/// Where the data of a person is.
pub const IDENTITY_URL: &'static str = "https://auth.hackclub.com/api/v1/me";

/// What is said where there is no token.
pub const NO_TOKEN: &'static str = "No auth token";

/// Where someone lives.
#[derive(Debug, Default, PartialEq)]
pub struct Address {
    pub id: String,
    pub first_name: String,
    pub last_name: String,
    pub line_1: String,
    pub line_2: String,
    pub city: String,
    pub state: String,
    pub postal_code: String,
    pub country: String,
    pub phone_number: String,
    pub primary: bool,
}

impl Clone for Address {
    fn clone(&self) -> (copy: Self)
        ensures
            copy == *self,
    {
        Address {
            id: self.id.clone(),
            first_name: self.first_name.clone(),
            last_name: self.last_name.clone(),
            line_1: self.line_1.clone(),
            line_2: self.line_2.clone(),
            city: self.city.clone(),
            state: self.state.clone(),
            postal_code: self.postal_code.clone(),
            country: self.country.clone(),
            phone_number: self.phone_number.clone(),
            primary: self.primary,
        }
    }
}

/// Someone who has logged in.
#[derive(Debug, Clone, Default, PartialEq)]
pub struct AuthData {
    pub id: String,
    pub ysws_eligible: bool,
    pub verification_status: String,
    pub first_name: String,
    pub last_name: String,
    pub primary_email: String,
    pub slack_id: String,
    pub phone_number: String,
    pub birthday: String,
    pub legal_first_name: String,
    pub legal_last_name: String,
    pub addresses: Vec<Address>,
}

/// The first of `addresses` that is marked as primary.
pub open spec fn first_primary(addresses: Seq<Address>) -> Option<Address>
    decreases addresses.len(),
{
    if addresses.len() == 0 {
        None
    } else if addresses[0].primary {
        Some(addresses[0])
    } else {
        first_primary(addresses.drop_first())
    }
}

impl AuthData {
    /// The first address that is marked as primary.
    pub fn primary_address(&self) -> (address: Option<Address>)
        ensures
            address == first_primary(self.addresses@),
    {
        let mut i: usize = 0;
        assert(self.addresses@.skip(0) == self.addresses@);
        while i < self.addresses.len()
            invariant
                i <= self.addresses@.len(),
                first_primary(self.addresses@.skip(i as int)) == first_primary(self.addresses@),
            decreases self.addresses@.len() - i,
        {
            assert(self.addresses@.skip(i as int)[0] == self.addresses@[i as int]);
            if self.addresses[i].primary {
                return Some(self.addresses[i].clone());
            }
            assert(self.addresses@.skip(i as int).drop_first() == self.addresses@.skip(i + 1));
            i = i + 1;
        }
        None
    }
}

/// The data of a person that is kept.
pub struct AuthDataCacheEntry {
    /// The token that it was fetched with.
    pub token: String,
    /// The data.
    pub data: AuthData,
    /// When it was stored.
    pub created_time: u64,
}

impl Expiring for AuthDataCacheEntry {
    open spec fn live(&self, now: u64) -> bool {
        age(self.created_time, now) < APP_DATA_EXPIRY_MINUTES * MINUTE
    }

    fn is_live(&self, now: u64) -> (kept: bool) {
        elapsed(self.created_time, now) < APP_DATA_EXPIRY_MINUTES * MINUTE
    }

    proof fn live_before(&self, earlier: u64, later: u64) {
    }
}

impl CacheEntry for AuthDataCacheEntry {
    type Key = String;

    open spec fn is_for(&self, key: &String) -> bool {
        self.token@ == key@
    }

    fn answers(&self, key: &String) -> (fits: bool) {
        self.token == *key
    }
}

/// The data of people, kept for a while.
pub struct AuthDataCache {
    /// What is kept, in the order in which it was stored.
    pub entries: Vec<AuthDataCacheEntry>,
}

impl AuthDataCache {
    /// A cache that knows nobody.
    pub fn new() -> (cache: Self)
        ensures
            cache.entries@ == Seq::<AuthDataCacheEntry>::empty(),
    {
        AuthDataCache { entries: Vec::new() }
    }

    /// Looks for the data of the one whom `token` belongs to.
    pub fn get_auth_data<'a>(&'a mut self, token: Option<String>, now: u64) -> (lookup: TokenLookup<
        'a,
        AuthData,
    >)
        ensures
            match token {
                None => {
                    &&& lookup is NoToken
                    &&& final(self).entries@ == old(self).entries@
                },
                Some(token) => {
                    &&& final(self).entries@ == live_items(old(self).entries@, now)
                    &&& match found(old(self).entries@, &token, now) {
                        Some(entry) => lookup == TokenLookup::Hit(&entry.data),
                        None => lookup.asks_for(token, IDENTITY_URL@),
                    }
                },
            },
            lookup is NoToken <==> token is None,
            lookup is Hit <==> token is Some && found(old(self).entries@, &token->0, now) is Some,
            lookup matches TokenLookup::Fetch { token: used, request } ==> token is Some
                && used@ == (token->0)@ && request.method == Method::Get && request.url@ == "https://auth.hackclub.com/api/v1/me"@
                && !request.json && request.bearer is Some && (request.bearer->0)@ == (token->0)@,
    {
        match token {
            None => TokenLookup::NoToken,
            Some(token) => match look_up(&mut self.entries, &token, now) {
                Some(entry) => TokenLookup::Hit(&entry.data),
                None => {
                    let request = fetch(IDENTITY_URL.to_owned(), &token);
                    TokenLookup::Fetch { token, request }
                },
            },
        }
    }

    /// Keeps data that was fetched with `token`.
    pub fn store(&mut self, token: String, data: AuthData, now: u64)
        ensures
            final(self).entries@ == old(self).entries@.push(
                AuthDataCacheEntry { token, data, created_time: now },
            ),
    {
        self.entries.push(AuthDataCacheEntry { token, data, created_time: now });
    }
}

/// How far the verification of a person has come.
#[derive(Clone, Copy, Debug, PartialEq, Eq, Structural)]
pub enum VerificationStatus {
    NeedsSubmission,
    Pending,
    VerifiedEligible,
    VerifiedButOver18,
    Rejected,
    NotFound,
}

impl VerificationStatus {
    /// Whether the person is verified and eligible.
    pub fn is_verified(&self) -> (verified: bool)
        ensures
            verified == (self == VerificationStatus::VerifiedEligible),
    {
        matches!(self, VerificationStatus::VerifiedEligible)
    }
}

/// The status that a name stands for.
pub open spec fn status_named(name: Seq<char>) -> Option<VerificationStatus> {
    if name == "needs_submission"@ {
        Some(VerificationStatus::NeedsSubmission)
    } else if name == "pending"@ {
        Some(VerificationStatus::Pending)
    } else if name == "verified_eligible"@ || name == "verified"@ {
        Some(VerificationStatus::VerifiedEligible)
    } else if name == "verified_but_over_18"@ {
        Some(VerificationStatus::VerifiedButOver18)
    } else if name == "rejected"@ {
        Some(VerificationStatus::Rejected)
    } else if name == "not_found"@ {
        Some(VerificationStatus::NotFound)
    } else {
        None
    }
}

/// A name that stands for no status.
pub struct UnknownStatus {
    /// The name.
    pub name: String,
}

impl UnknownStatus {
    /// Writes the message of the error.
    pub fn message(&self) -> (text: String)
        ensures
            text@ == "Unknown verification status: "@ + self.name@,
    {
        "Unknown verification status: ".to_owned().concat(self.name.as_str())
    }
}

/// Tells how far the verification of a person has come.
pub fn check_verified(auth_data: &AuthData) -> (status: Result<VerificationStatus, UnknownStatus>)
    ensures
        match status_named(auth_data.verification_status@) {
            Some(named) => status == Ok::<_, UnknownStatus>(named),
            None => status matches Err(unknown) && unknown.name == auth_data.verification_status,
        },
{
    let name = auth_data.verification_status.as_str();
    if *name == *"needs_submission" {
        Ok(VerificationStatus::NeedsSubmission)
    } else if *name == *"pending" {
        Ok(VerificationStatus::Pending)
    } else if *name == *"verified_eligible" || *name == *"verified" {
        Ok(VerificationStatus::VerifiedEligible)
    } else if *name == *"verified_but_over_18" {
        Ok(VerificationStatus::VerifiedButOver18)
    } else if *name == *"rejected" {
        Ok(VerificationStatus::Rejected)
    } else if *name == *"not_found" {
        Ok(VerificationStatus::NotFound)
    } else {
        Err(UnknownStatus { name: auth_data.verification_status.clone() })
    }
}

/// The data of a person is the answer for the token that it was fetched with,
/// character by character, and for no other; it is for ten minutes. The first
/// such data is the answer, and there is none only where there is no such data.
pub proof fn data_is_for_its_token_alone(entries: Seq<AuthDataCacheEntry>, token: &String, now: u64)
    ensures
        match found(entries, token, now) {
            Some(entry) => exists|i: int|
                {
                    &&& 0 <= i < entries.len()
                    &&& #[trigger] entries[i] == entry
                    &&& entry.token@ == token@
                    &&& now < entry.created_time + 600_000_000_000
                    &&& forall|j: int|
                        0 <= j < i ==> !((#[trigger] entries[j]).token@ == token@ && now < entries[j].created_time + 600_000_000_000)
                },
            None => forall|i: int|
                0 <= i < entries.len() ==> !((#[trigger] entries[i]).token@ == token@ && now < entries[i].created_time + 600_000_000_000),
        },
{
    crate::cache::first_live_entry_answers(entries, token, now);
}

/// The primary address is the first of all addresses that is marked so; there
/// is none exactly where none is marked.
pub proof fn primary_address_is_the_first_marked(addresses: Seq<Address>)
    ensures
        match first_primary(addresses) {
            Some(address) => exists|i: int|
                {
                    &&& 0 <= i < addresses.len()
                    &&& #[trigger] addresses[i] == address
                    &&& address.primary
                    &&& forall|j: int| 0 <= j < i ==> !(#[trigger] addresses[j]).primary
                },
            None => forall|i: int| 0 <= i < addresses.len() ==> !(#[trigger] addresses[i]).primary,
        },
    decreases addresses.len(),
{
    if addresses.len() > 0 && !addresses[0].primary {
        let rest = addresses.drop_first();
        primary_address_is_the_first_marked(rest);
        match first_primary(rest) {
            Some(address) => {
                let i = choose|i: int|
                    {
                        &&& 0 <= i < rest.len()
                        &&& #[trigger] rest[i] == address
                        &&& address.primary
                        &&& forall|j: int| 0 <= j < i ==> !(#[trigger] rest[j]).primary
                    };
                assert(addresses[i + 1] == address);
                assert forall|j: int| 0 <= j < i + 1 implies !(#[trigger] addresses[j]).primary by {
                    if j > 0 {
                        assert(!rest[j - 1].primary);
                    }
                }
            },
            None => {
                assert forall|i: int| 0 <= i < addresses.len() implies !(
                #[trigger] addresses[i]).primary by {
                    if i > 0 {
                        assert(!rest[i - 1].primary);
                    }
                }
            },
        }
    } else if addresses.len() > 0 {
        assert(addresses[0].primary);
    }
}

/// Each status has its own name, and the eligible status has two; no other text
/// is the name of a status.
pub proof fn statuses_have_their_names(name: Seq<char>)
    ensures
        status_named(name) == Some(VerificationStatus::NeedsSubmission) <==> name
            == "needs_submission"@,
        status_named(name) == Some(VerificationStatus::Pending) <==> name == "pending"@,
        status_named(name) == Some(VerificationStatus::VerifiedEligible) <==> name
            == "verified_eligible"@ || name == "verified"@,
        status_named(name) == Some(VerificationStatus::VerifiedButOver18) <==> name
            == "verified_but_over_18"@,
        status_named(name) == Some(VerificationStatus::Rejected) <==> name == "rejected"@,
        status_named(name) == Some(VerificationStatus::NotFound) <==> name == "not_found"@,
{
    reveal_strlit("needs_submission");
    reveal_strlit("pending");
    reveal_strlit("verified_eligible");
    reveal_strlit("verified");
    reveal_strlit("verified_but_over_18");
    reveal_strlit("rejected");
    reveal_strlit("not_found");
    assert("needs_submission"@.len() == 16 && "pending"@.len() == 7 && "verified_eligible"@.len()
        == 17 && "verified"@.len() == 8 && "verified_but_over_18"@.len() == 20 && "rejected"@.len()
        == 8 && "not_found"@.len() == 9);
    assert("rejected"@[0] != "verified"@[0]);
}

} // verus!
