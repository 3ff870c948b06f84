//! Answers of services, kept for a while.
use vstd::prelude::*;

use crate::expiry::{keeping_goes_item_by_item, live_items, retain_live, Expiring};
use crate::http::{fetches, ApiRequest};

verus! {

/// An answer that is kept, with what was asked.
pub trait CacheEntry: Expiring {
    /// What was asked.
    type Key;

    /// Whether this is the answer to `key`.
    spec fn is_for(&self, key: &Self::Key) -> bool;

    /// Tells whether this is the answer to `key`.
    fn answers(&self, key: &Self::Key) -> (fits: bool)
        ensures
            fits == self.is_for(key),
    ;
}

/// The first of `entries` that answers `key`.
pub open spec fn first_for<E: CacheEntry>(entries: Seq<E>, key: &E::Key) -> Option<E>
    decreases entries.len(),
{
    if entries.len() == 0 {
        None
    } else if entries[0].is_for(key) {
        Some(entries[0])
    } else {
        first_for(entries.drop_first(), key)
    }
}

/// What a cache finds at the time `now`: the first entry for `key` that has not
/// lapsed.
pub open spec fn found<E: CacheEntry>(entries: Seq<E>, key: &E::Key, now: u64) -> Option<E> {
    first_for(live_items(entries, now), key)
}

/// What is to be done for an answer that belongs to the owner of a token.
pub enum TokenLookup<'a, V> {
    /// There is no token, and so no answer.
    NoToken,
    /// The answer is kept.
    Hit(&'a V),
    /// The answer has to be fetched.
    Fetch {
        /// The token to store it under.
        token: String,
        /// The request.
        request: ApiRequest<()>,
    },
}

impl<'a, V> TokenLookup<'a, V> {
    /// Whether this says to fetch what is at `url` with that token.
    pub open spec fn asks_for(&self, token: String, url: Seq<char>) -> bool {
        self matches TokenLookup::Fetch { token: used, request } && *used == token && fetches(
            *request,
            url,
            token@,
        )
    }
}

/// Drops the entries that have lapsed at the time `now`, and finds the first of
/// the others that answers `key`.
pub fn look_up<'a, E: CacheEntry>(entries: &'a mut Vec<E>, key: &E::Key, now: u64) -> (hit: Option<
    &'a E,
>)
    ensures
        final(entries)@ == live_items(old(entries)@, now),
        match hit {
            Some(entry) => found(old(entries)@, key, now) == Some(*entry),
            None => found(old(entries)@, key, now) is None,
        },
{
    retain_live(entries, now);
    let ghost all = entries@;
    let mut i: usize = 0;
    assert(all.skip(0) == all);
    while i < entries.len() && !entries[i].answers(key)
        invariant
            i <= entries@.len(),
            entries@ == all,
            first_for(all.skip(i as int), key) == first_for(all, key),
        decreases entries@.len() - i,
    {
        assert(all.skip(i as int).drop_first() == all.skip(i + 1));
        i = i + 1;
    }
    if i < entries.len() {
        assert(all.skip(i as int)[0] == all[i as int]);
        Some(&entries[i])
    } else {
        None
    }
}

proof fn lemma_first_for<E: CacheEntry>(entries: Seq<E>, key: &E::Key)
    ensures
        match first_for(entries, key) {
            Some(entry) => entries.contains(entry) && entry.is_for(key),
            None => forall|i: int| 0 <= i < entries.len() ==> !(#[trigger] entries[i]).is_for(key),
        },
    decreases entries.len(),
{
    if entries.len() > 0 && !entries[0].is_for(key) {
        let rest = entries.drop_first();
        lemma_first_for(rest, key);
        match first_for(entries, key) {
            Some(entry) => {
                let i = choose|i: int| 0 <= i < rest.len() && rest[i] == entry;
                assert(entries[i + 1] == entry);
            },
            None => {
                assert forall|i: int| 0 <= i < entries.len() implies !(#[trigger] entries[i]).is_for(
                    key,
                ) by {
                    if i > 0 {
                        assert(!rest[i - 1].is_for(key));
                    }
                }
            },
        }
    } else if entries.len() > 0 {
        assert(entries[0].is_for(key));
    }
}

proof fn lemma_first_for_skips<E: CacheEntry>(front: Seq<E>, back: Seq<E>, key: &E::Key)
    requires
        forall|i: int| 0 <= i < front.len() ==> !(#[trigger] front[i]).is_for(key),
    ensures
        first_for(front + back, key) == first_for(back, key),
    decreases front.len(),
{
    if front.len() == 0 {
        assert(front + back == back);
    } else {
        assert(!front[0].is_for(key));
        assert((front + back).drop_first() == front.drop_first() + back);
        assert forall|i: int| 0 <= i < front.drop_first().len() implies !(
        #[trigger] front.drop_first()[i]).is_for(key) by {
            assert(!front[i + 1].is_for(key));
        }
        lemma_first_for_skips(front.drop_first(), back, key);
    }
}

/// A cache answers with nothing but what was stored in it for the same key, and
/// never with what has lapsed.
pub proof fn answers_are_live<E: CacheEntry>(entries: Seq<E>, key: &E::Key, now: u64)
    ensures
        found(entries, key, now) matches Some(entry) ==> entries.contains(entry) && entry.is_for(
            key,
        ) && entry.live(now),
{
    let pred = |e: E| e.live(now);
    lemma_first_for(live_items(entries, now), key);
    if let Some(entry) = found(entries, key, now) {
        let live = live_items(entries, now);
        let i = choose|i: int| 0 <= i < live.len() && live[i] == entry;
        entries.lemma_filter_pred(pred, i);
        entries.lemma_filter_contains_rev(pred, entry);
    }
}

/// What is stored after a miss is what the cache answers with until it lapses,
/// whatever is stored for other keys in between and for any key afterwards.
pub proof fn stored_is_found<E: CacheEntry>(
    entries: Seq<E>,
    key: &E::Key,
    missed: u64,
    between: Seq<E>,
    entry: E,
    after: Seq<E>,
    now: u64,
)
    requires
        found(entries, key, missed) is None,
        missed <= now,
        forall|i: int| 0 <= i < between.len() ==> !(#[trigger] between[i]).is_for(key),
        entry.is_for(key),
        entry.live(now),
    ensures
        found(live_items(entries, missed) + between + seq![entry] + after, key, now) == Some(entry),
{
    let pred = |e: E| e.live(now);
    let front = live_items(entries, missed) + between;
    let back = seq![entry] + after;
    lemma_first_for(live_items(entries, missed), key);
    assert forall|i: int| 0 <= i < front.filter(pred).len() implies !(#[trigger] front.filter(
        pred,
    )[i]).is_for(key) by {
        let e = front.filter(pred)[i];
        front.lemma_filter_contains_rev(pred, e);
        let j = choose|j: int| 0 <= j < front.len() && front[j] == e;
        if j < live_items(entries, missed).len() {
            assert(!live_items(entries, missed)[j].is_for(key));
        } else {
            assert(!between[j - live_items(entries, missed).len()].is_for(key));
        }
    }
    assert(live_items(entries, missed) + between + seq![entry] + after == front + back);
    Seq::filter_distributes_over_add(front, back, pred);
    Seq::filter_distributes_over_add(seq![entry], after, pred);
    reveal(Seq::filter);
    assert(seq![entry].drop_last() == Seq::<E>::empty());
    assert(seq![entry].filter(pred) == seq![entry]);
    assert(back.filter(pred)[0] == entry);
    lemma_first_for_skips(front.filter(pred), back.filter(pred), key);
}

/// A cache does not answer once everything stored for the key has lapsed.
pub proof fn lapsed_is_forgotten<E: CacheEntry>(entries: Seq<E>, key: &E::Key, now: u64)
    requires
        forall|i: int|
            0 <= i < entries.len() && (#[trigger] entries[i]).is_for(key) ==> !entries[i].live(now),
    ensures
        found(entries, key, now) is None,
{
    answers_are_live(entries, key, now);
}

/// Dropping what has lapsed changes no later answer.
pub proof fn dropping_changes_no_answer<E: CacheEntry>(
    entries: Seq<E>,
    key: &E::Key,
    earlier: u64,
    now: u64,
)
    requires
        earlier <= now,
    ensures
        found(live_items(entries, earlier), key, now) == found(entries, key, now),
{
    crate::expiry::dropped_twice(entries, earlier, now);
}

/// A cache answers with the first of all entries that is for the key and has
/// not lapsed, and gives no answer exactly where there is no such entry.
pub proof fn first_live_entry_answers<E: CacheEntry>(entries: Seq<E>, key: &E::Key, now: u64)
    ensures
        match found(entries, key, now) {
            Some(entry) => exists|i: int|
                {
                    &&& 0 <= i < entries.len()
                    &&& #[trigger] entries[i] == entry
                    &&& entry.is_for(key)
                    &&& entry.live(now)
                    &&& forall|j: int|
                        0 <= j < i ==> !((#[trigger] entries[j]).is_for(key) && entries[j].live(
                            now,
                        ))
                },
            None => forall|i: int|
                0 <= i < entries.len() ==> !((#[trigger] entries[i]).is_for(key)
                    && entries[i].live(now)),
        },
    decreases entries.len(),
{
    if entries.len() == 0 {
        assert(entries == Seq::<E>::empty());
        reveal(Seq::filter);
        assert(live_items(entries, now).len() == 0);
    } else {
        let e = entries[0];
        let rest = entries.drop_first();
        assert(entries == seq![e] + rest);
        keeping_goes_item_by_item(seq![e], rest, e, now);
        first_live_entry_answers(rest, key, now);
        if e.live(now) {
            assert(live_items(entries, now)[0] == e);
            assert(live_items(entries, now).drop_first() == live_items(rest, now));
        } else {
            assert(live_items(entries, now) == live_items(rest, now));
        }
        if e.live(now) && e.is_for(key) {
            assert(entries[0] == e);
        } else {
            match found(rest, key, now) {
                Some(entry) => {
                    let i = choose|i: int|
                        {
                            &&& 0 <= i < rest.len()
                            &&& #[trigger] rest[i] == entry
                            &&& entry.is_for(key)
                            &&& entry.live(now)
                            &&& forall|j: int|
                                0 <= j < i ==> !((#[trigger] rest[j]).is_for(key) && rest[j].live(
                                    now,
                                ))
                        };
                    assert(entries[i + 1] == entry);
                    assert forall|j: int| 0 <= j < i + 1 implies !((#[trigger] entries[j]).is_for(
                        key,
                    ) && entries[j].live(now)) by {
                        if j > 0 {
                            assert(rest[j - 1] == entries[j]);
                        }
                    }
                },
                None => {
                    assert forall|i: int| 0 <= i < entries.len() implies !((
                    #[trigger] entries[i]).is_for(key) && entries[i].live(now)) by {
                        if i > 0 {
                            assert(rest[i - 1] == entries[i]);
                        }
                    }
                },
            }
        }
    }
}

} // verus!
