//! Lists whose items lapse with time.
//!
//! Times are nanoseconds on a clock that never goes back.
use vstd::prelude::*;

verus! {

/// The nanoseconds of a second.
pub const SECOND: u64 = 1_000_000_000;

/// The nanoseconds of a minute.
pub const MINUTE: u64 = 60_000_000_000;

/// How long before `now` the time `at` was; nothing where it is still to come.
pub open spec fn age(at: u64, now: u64) -> nat {
    if at <= now {
        (now - at) as nat
    } else {
        0
    }
}

/// Measures how long before `now` the time `at` was.
pub fn elapsed(at: u64, now: u64) -> (passed: u64)
    ensures
        passed == age(at, now),
{
    now.saturating_sub(at)
}

/// An item that lapses at some time, if ever, and stays lapsed.
pub trait Expiring: Sized {
    /// Whether the item is still to be kept at the time `now`.
    spec fn live(&self, now: u64) -> bool;

    /// Tells whether the item is still to be kept at the time `now`.
    fn is_live(&self, now: u64) -> (kept: bool)
        ensures
            kept == self.live(now),
    ;

    /// What is kept at a time was kept at every time before it.
    proof fn live_before(&self, earlier: u64, later: u64)
        requires
            earlier <= later,
            self.live(later),
        ensures
            self.live(earlier),
    ;
}

/// The items that are still to be kept at the time `now`, in their order.
pub open spec fn live_items<E: Expiring>(items: Seq<E>, now: u64) -> Seq<E> {
    items.filter(|e: E| e.live(now))
}

/// Drops the items that have lapsed at the time `now`.
pub fn retain_live<E: Expiring>(items: &mut Vec<E>, now: u64)
    ensures
        final(items)@ == live_items(old(items)@, now),
{
    let ghost all = items@;
    let ghost pred = |e: E| e.live(now);
    let ghost mut seen: int = 0;
    let mut i: usize = 0;
    assert(all.take(0) == Seq::<E>::empty());
    proof {
        reveal(Seq::filter);
    }
    assert(all.take(0).filter(pred) == Seq::<E>::empty());
    assert(all.skip(0) == all);
    while i < items.len()
        invariant
            pred == (|e: E| e.live(now)),
            0 <= seen <= all.len(),
            i == all.take(seen).filter(pred).len(),
            items@ == all.take(seen).filter(pred) + all.skip(seen),
        decreases all.len() - seen,
    {
        broadcast use Seq::lemma_filter_push;

        assert(all.take(seen + 1) == all.take(seen).push(all[seen]));
        assert(all.skip(seen) == seq![all[seen]] + all.skip(seen + 1));
        if items[i].is_live(now) {
            assert(items@ == all.take(seen + 1).filter(pred) + all.skip(seen + 1));
            i = i + 1;
        } else {
            items.remove(i);
            assert(items@ == all.take(seen + 1).filter(pred) + all.skip(seen + 1));
        }
        proof {
            seen = seen + 1;
        }
    }
    assert(all.take(seen) == all);
}

/// Dropping what has lapsed, and later again, leaves what dropping later alone
/// leaves.
pub proof fn dropped_twice<E: Expiring>(items: Seq<E>, earlier: u64, later: u64)
    requires
        earlier <= later,
    ensures
        live_items(live_items(items, earlier), later) == live_items(items, later),
    decreases items.len(),
{
    broadcast use Seq::lemma_filter_push;

    reveal(Seq::filter);
    if items.len() > 0 {
        dropped_twice(items.drop_last(), earlier, later);
        assert(items == items.drop_last().push(items.last()));
        if items.last().live(later) {
            items.last().live_before(earlier, later);
        }
    }
}

/// The age of a time is what has to be added to it to come to `now`; a time
/// still to come has none.
pub proof fn age_leads_to_now(at: u64, now: u64)
    ensures
        at <= now ==> at + age(at, now) == now,
        at > now ==> age(at, now) == 0,
{
}

/// What is kept of two lists one after another is what is kept of each; a
/// single item is kept exactly where it has not lapsed.
pub proof fn keeping_goes_item_by_item<E: Expiring>(a: Seq<E>, b: Seq<E>, e: E, now: u64)
    ensures
        live_items(Seq::<E>::empty(), now).len() == 0,
        live_items(a + b, now) == live_items(a, now) + live_items(b, now),
        e.live(now) ==> live_items(seq![e], now) == seq![e],
        !e.live(now) ==> live_items(seq![e], now).len() == 0,
{
    let pred = |e: E| e.live(now);
    Seq::filter_distributes_over_add(a, b, pred);
    reveal(Seq::filter);
    assert(seq![e].drop_last() == Seq::<E>::empty());
    assert(Seq::<E>::empty().filter(pred) == Seq::<E>::empty());
}

} // verus!
