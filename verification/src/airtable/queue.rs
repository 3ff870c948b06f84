//! The queue in front of Airtable: how fast requests go out, and what becomes
//! of one that Airtable turns away.
use vstd::prelude::*;
use vstd::arithmetic::power2::pow2;

use crate::expiry::{age, elapsed, live_items, retain_live, Expiring, SECOND};
use crate::http::{header_text, http_date, parse_http_date, visible_text};
use crate::text::{decimal, number, parse_u64};

verus! {

/// How many requests go out to one base within a second.
pub const MAX_REQUESTS_PER_SECOND: usize = 4;

/// How often a request may have been turned away and still go out.
pub const MAX_RATE_LIMITED: u32 = 10;

/// The longest wait, in seconds, that the queue chooses by itself.
pub const MAX_BACKOFF: u64 = 300;

/// The HTTP status of a request that came too early.
pub const TOO_MANY_REQUESTS: u16 = 429;

/// A request that went out.
pub struct RequestInstance {
    /// The base that it went to.
    pub airtable_base_id: String,
    /// When it went out.
    pub instant: u64,
}

impl Expiring for RequestInstance {
    open spec fn live(&self, now: u64) -> bool {
        age(self.instant, now) < SECOND
    }

    fn is_live(&self, now: u64) -> (kept: bool) {
        elapsed(self.instant, now) < SECOND
    }

    proof fn live_before(&self, earlier: u64, later: u64) {
    }
}

/// The requests of `sent` that went to one base.
pub open spec fn of_base(sent: Seq<RequestInstance>, base_id: Seq<char>) -> Seq<RequestInstance> {
    sent.filter(|r: RequestInstance| r.airtable_base_id@ == base_id)
}

/// When the first request of `sent` went out.
pub open spec fn earliest(sent: Seq<RequestInstance>) -> u64
    decreases sent.len(),
{
    if sent.len() == 0 {
        u64::MAX
    } else if sent.last().instant < earliest(sent.drop_last()) {
        sent.last().instant
    } else {
        earliest(sent.drop_last())
    }
}

/// How long a request to a base has to wait at the time `now`, where `sent` is
/// what went out within the last second: not at all while less than the
/// permitted number went to that base, else until the first of those is a
/// second old, and for a whole second if it is that old already.
pub open spec fn required_delay(
    sent: Seq<RequestInstance>,
    base_id: Seq<char>,
    now: u64,
) -> Option<u64> {
    let mine = of_base(sent, base_id);
    if mine.len() < MAX_REQUESTS_PER_SECOND {
        None
    } else if age(earliest(mine), now) < SECOND {
        Some((SECOND - age(earliest(mine), now)) as u64)
    } else {
        Some(SECOND)
    }
}

/// Whether a request that was turned away that often may go out once more.
pub open spec fn may_go_out(rate_limited_count: u32) -> bool {
    rate_limited_count <= MAX_RATE_LIMITED
}

/// The requests that went out lately.
pub struct RateLimiter {
    /// Those requests, in the order in which they went out.
    pub request_instances: Vec<RequestInstance>,
}

impl RateLimiter {
    /// A limiter through which nothing has gone yet.
    pub fn new() -> (limiter: Self)
        ensures
            limiter.request_instances@ == Seq::<RequestInstance>::empty(),
    {
        RateLimiter { request_instances: Vec::new() }
    }

    /// Forgets what went out a second or more before `now`, and tells how long
    /// a request to `base_id` has to wait, reckoned from the time `later`.
    pub fn next_delay(&mut self, base_id: &String, now: u64, later: u64) -> (delay: Option<u64>)
        ensures
            final(self).request_instances@ == live_items(old(self).request_instances@, now),
            delay == required_delay(final(self).request_instances@, base_id@, later),
    {
        retain_live(&mut self.request_instances, now);
        let ghost sent = self.request_instances@;
        let ghost pred = |r: RequestInstance| r.airtable_base_id@ == base_id@;
        let mut count: usize = 0;
        let mut oldest: u64 = u64::MAX;
        let mut i: usize = 0;
        proof {
            reveal(Seq::filter);
        }
        assert(sent.take(0).filter(pred) == Seq::<RequestInstance>::empty());
        while i < self.request_instances.len()
            invariant
                i <= sent.len(),
                sent == self.request_instances@,
                pred == (|r: RequestInstance| r.airtable_base_id@ == base_id@),
                count == sent.take(i as int).filter(pred).len(),
                count <= i,
                oldest == earliest(sent.take(i as int).filter(pred)),
            decreases sent.len() - i,
        {
            broadcast use Seq::lemma_filter_push;

            assert(sent.take(i + 1) == sent.take(i as int).push(sent[i as int]));
            let request = &self.request_instances[i];
            if request.airtable_base_id == *base_id {
                let ghost before = sent.take(i as int).filter(pred);
                assert(sent.take(i + 1).filter(pred) == before.push(sent[i as int]));
                assert(before.push(sent[i as int]).drop_last() == before);
                count = count + 1;
                if request.instant < oldest {
                    oldest = request.instant;
                }
            }
            i = i + 1;
        }
        assert(sent.take(i as int) == sent);
        if count < MAX_REQUESTS_PER_SECOND {
            return None;
        }
        let passed = elapsed(oldest, later);
        if passed < SECOND {
            Some(SECOND - passed)
        } else {
            Some(SECOND)
        }
    }

    /// Lets a request out at the time `now`, unless it was turned away too
    /// often before.
    pub fn let_out(&mut self, base_id: String, rate_limited_count: u32, now: u64) -> (sent: bool)
        ensures
            sent == may_go_out(rate_limited_count),
            sent == (rate_limited_count <= 10),
            final(self).request_instances@ == (if sent {
                old(self).request_instances@.push(
                    RequestInstance { airtable_base_id: base_id, instant: now },
                )
            } else {
                old(self).request_instances@
            }),
    {
        if rate_limited_count > MAX_RATE_LIMITED {
            return false;
        }
        self.request_instances.push(RequestInstance { airtable_base_id: base_id, instant: now });
        true
    }
}

/// One request in its turn at the limiter.
pub struct Turn {
    /// The base that it is for.
    pub base_id: String,
    /// How often it was turned away before.
    pub rate_limited_count: u32,
    /// When the limiter forgot what was a second old.
    pub now: u64,
    /// When the wait was reckoned.
    pub later: u64,
    /// When the wait, if there was one, was over.
    pub resumed: u64,
}

/// What the limiter remembers after a turn.
pub open spec fn after_turn(sent: Seq<RequestInstance>, turn: Turn) -> Seq<RequestInstance> {
    let recent = live_items(sent, turn.now);
    if may_go_out(turn.rate_limited_count) {
        recent.push(RequestInstance { airtable_base_id: turn.base_id, instant: turn.resumed })
    } else {
        recent
    }
}

/// Whether the clock does not go back during a turn, and the wait is as long
/// as the limiter requires, or longer.
pub open spec fn timely(sent: Seq<RequestInstance>, turn: Turn) -> bool {
    &&& turn.now <= turn.later <= turn.resumed
    &&& required_delay(live_items(sent, turn.now), turn.base_id@, turn.later) matches Some(delay)
        ==> turn.later + delay <= turn.resumed
}

/// What the limiter remembers after all of `turns`.
pub open spec fn remembered(turns: Seq<Turn>) -> Seq<RequestInstance>
    decreases turns.len(),
{
    if turns.len() == 0 {
        Seq::empty()
    } else {
        after_turn(remembered(turns.drop_last()), turns.last())
    }
}

/// Every request that went out in `turns`, in order.
pub open spec fn went_out(turns: Seq<Turn>) -> Seq<RequestInstance>
    decreases turns.len(),
{
    if turns.len() == 0 {
        Seq::empty()
    } else if may_go_out(turns.last().rate_limited_count) {
        went_out(turns.drop_last()).push(
            RequestInstance {
                airtable_base_id: turns.last().base_id,
                instant: turns.last().resumed,
            },
        )
    } else {
        went_out(turns.drop_last())
    }
}

/// Whether the limiter serves `turns` one after another, each of them timely.
pub open spec fn served(turns: Seq<Turn>) -> bool
    decreases turns.len(),
{
    turns.len() > 0 ==> {
        &&& served(turns.drop_last())
        &&& turns.len() > 1 ==> turns[turns.len() - 2].resumed <= turns.last().now
        &&& timely(remembered(turns.drop_last()), turns.last())
    }
}

/// Whether requests stand in the order in which they went out, none after
/// `end`.
spec fn in_order(sent: Seq<RequestInstance>, end: u64) -> bool {
    &&& forall|i: int, j: int| 0 <= i <= j < sent.len() ==> sent[i].instant <= sent[j].instant
    &&& forall|i: int| 0 <= i < sent.len() ==> #[trigger] sent[i].instant <= end
}

/// Whether any five requests that follow each other span a second or more.
spec fn spread(sent: Seq<RequestInstance>) -> bool {
    forall|i: int|
        0 <= i && i + 4 < sent.len() ==> sent[i].instant + SECOND <= (#[trigger] sent[i
            + 4]).instant
}

/// When the last of `turns` was over.
spec fn end_of(turns: Seq<Turn>) -> u64 {
    if turns.len() == 0 {
        0
    } else {
        turns.last().resumed
    }
}

/// In a list in order, what is less than a second old are its last items.
proof fn lemma_recent_is_tail(sent: Seq<RequestInstance>, now: u64) -> (k: int)
    requires
        forall|i: int, j: int| 0 <= i <= j < sent.len() ==> sent[i].instant <= sent[j].instant,
    ensures
        0 <= k <= sent.len(),
        live_items(sent, now) == sent.skip(k),
        forall|i: int| 0 <= i < k ==> !(#[trigger] sent[i]).live(now),
        forall|i: int| k <= i < sent.len() ==> (#[trigger] sent[i]).live(now),
    decreases sent.len(),
{
    broadcast use Seq::lemma_filter_push;

    reveal(Seq::filter);
    if sent.len() == 0 {
        0
    } else {
        let front = sent.drop_last();
        let k = lemma_recent_is_tail(front, now);
        assert(sent == front.push(sent.last()));
        assert forall|i: int| 0 <= i < front.len() implies front[i] == sent[i] by {}
        if sent.last().live(now) {
            assert(live_items(sent, now) == sent.skip(k));
            assert forall|i: int| 0 <= i < k implies !(#[trigger] sent[i]).live(now) by {
                assert(!front[i].live(now));
            }
            assert forall|i: int| k <= i < sent.len() implies (#[trigger] sent[i]).live(now) by {
                if i < front.len() {
                    assert(front[i].live(now));
                }
            }
            k
        } else {
            assert forall|i: int| 0 <= i < sent.len() implies !(#[trigger] sent[i]).live(now) by {}
            assert(k == front.len()) by {
                if k < front.len() {
                    assert(front[k].live(now));
                    assert(!sent[k].live(now));
                }
            }
            assert(live_items(sent, now) == sent.skip(sent.len() as int));
            sent.len() as int
        }
    }
}

/// It is all one whether the base or the age is looked at first.
proof fn lemma_base_and_age(sent: Seq<RequestInstance>, base_id: Seq<char>, now: u64)
    ensures
        of_base(live_items(sent, now), base_id) == live_items(of_base(sent, base_id), now),
    decreases sent.len(),
{
    broadcast use Seq::lemma_filter_push;

    reveal(Seq::filter);
    if sent.len() > 0 {
        lemma_base_and_age(sent.drop_last(), base_id, now);
        assert(sent == sent.drop_last().push(sent.last()));
    }
}

proof fn lemma_base_in_order(sent: Seq<RequestInstance>, base_id: Seq<char>, end: u64)
    requires
        in_order(sent, end),
    ensures
        in_order(of_base(sent, base_id), end),
    decreases sent.len(),
{
    broadcast use Seq::lemma_filter_push;

    reveal(Seq::filter);
    if sent.len() > 0 {
        let front = sent.drop_last();
        assert(in_order(front, sent.last().instant)) by {
            assert forall|i: int| 0 <= i < front.len() implies #[trigger] front[i].instant
                <= sent.last().instant by {
                assert(sent[i].instant <= sent[sent.len() - 1].instant);
            }
        }
        lemma_base_in_order(front, base_id, sent.last().instant);
        assert(sent == front.push(sent.last()));
        assert(sent[sent.len() - 1].instant <= end);
    }
}

/// The first of a list in order went out first.
proof fn lemma_earliest_is_first(sent: Seq<RequestInstance>)
    requires
        sent.len() > 0,
        forall|i: int, j: int| 0 <= i <= j < sent.len() ==> sent[i].instant <= sent[j].instant,
    ensures
        earliest(sent) == sent[0].instant,
    decreases sent.len(),
{
    if sent.len() == 1 {
        assert(earliest(sent.drop_last()) == u64::MAX);
    } else {
        lemma_earliest_is_first(sent.drop_last());
        assert(sent[0].instant <= sent[sent.len() - 1].instant);
    }
}

/// What the limiter remembers is all that is less than a second old.
proof fn lemma_remembers_the_recent(turns: Seq<Turn>, now: u64)
    requires
        served(turns),
        end_of(turns) <= now,
    ensures
        in_order(went_out(turns), end_of(turns)),
        live_items(remembered(turns), now) == live_items(went_out(turns), now),
    decreases turns.len(),
{
    broadcast use Seq::lemma_filter_push;

    reveal(Seq::filter);
    if turns.len() > 0 {
        let front = turns.drop_last();
        let turn = turns.last();
        assert(end_of(front) <= turn.now);
        lemma_remembers_the_recent(front, now);
        crate::expiry::dropped_twice(remembered(front), turn.now, now);
        assert forall|i: int| 0 <= i < went_out(front).len() implies #[trigger] went_out(
            front,
        )[i].instant <= turn.resumed by {}
    }
}

/// The step of the law: a request that waits as it must keeps its distance.
proof fn lemma_keeps_distance(turns: Seq<Turn>)
    requires
        served(turns),
        turns.len() > 0,
        may_go_out(turns.last().rate_limited_count),
        spread(of_base(went_out(turns.drop_last()), turns.last().base_id@)),
    ensures
        spread(of_base(went_out(turns), turns.last().base_id@)),
{
    broadcast use Seq::lemma_filter_push;

    let front = turns.drop_last();
    let turn = turns.last();
    let base_id = turn.base_id@;
    let mine = of_base(went_out(front), base_id);
    let all = of_base(went_out(turns), base_id);
    let m = mine.len() as int;
    assert(all == mine.push(all.last()) && all.last().instant == turn.resumed);
    assert(end_of(front) <= turn.now);
    lemma_remembers_the_recent(front, turn.now);
    lemma_base_in_order(went_out(front), base_id, end_of(front));
    if m >= 4 {
        lemma_base_and_age(remembered(front), base_id, turn.now);
        lemma_base_and_age(went_out(front), base_id, turn.now);
        let k = lemma_recent_is_tail(mine, turn.now);
        let recent = of_base(live_items(remembered(front), turn.now), base_id);
        assert(recent == mine.skip(k));
        if k <= m - 4 {
            assert(recent.len() >= 4);
            assert(recent[0] == mine[k]);
            lemma_earliest_is_first(recent);
            assert(mine[k].live(turn.now));
            if k < m - 4 {
                assert(mine[k].instant + SECOND <= mine[k + 4].instant);
                assert(mine[k + 4].instant <= turn.now);
            }
            assert(k == m - 4);
            assert(mine[m - 4].instant <= turn.now);
            assert(mine[m - 4].instant + SECOND <= turn.resumed);
        } else {
            assert(!mine[m - 4].live(turn.now));
        }
    }
    assert forall|i: int| 0 <= i && i + 4 < all.len() implies all[i].instant + SECOND <= (
    #[trigger] all[i + 4]).instant by {
        if i + 4 < m {
            assert(mine[i].instant + SECOND <= mine[i + 4].instant);
        }
    }
}

proof fn lemma_spread(turns: Seq<Turn>, base_id: Seq<char>)
    requires
        served(turns),
    ensures
        spread(of_base(went_out(turns), base_id)),
    decreases turns.len(),
{
    broadcast use Seq::lemma_filter_push;

    reveal(Seq::filter);
    if turns.len() > 0 {
        lemma_spread(turns.drop_last(), base_id);
        if may_go_out(turns.last().rate_limited_count) && turns.last().base_id@ == base_id {
            lemma_keeps_distance(turns);
        }
    }
}

/// The limiter lets at most four requests a second out to any one base: of the
/// requests that went to it, each goes out a second or more after the one four
/// before it.
pub proof fn at_most_four_a_second(turns: Seq<Turn>, base_id: Seq<char>, i: int)
    requires
        served(turns),
        0 <= i,
        i + 4 < of_base(went_out(turns), base_id).len(),
    ensures
        of_base(went_out(turns), base_id)[i].instant + 1_000_000_000 <= of_base(
            went_out(turns),
            base_id,
        )[i + 4].instant,
{
    lemma_spread(turns, base_id);
}

/// A request waits at most a second, and not at all while less than the
/// permitted number went to its base; and once it waited, the first of those
/// that it waited for is a second old.
pub proof fn waits_at_most_a_second(sent: Seq<RequestInstance>, base_id: Seq<char>, now: u64)
    ensures
        required_delay(sent, base_id, now) is None <==> of_base(sent, base_id).len()
            < MAX_REQUESTS_PER_SECOND,
        required_delay(sent, base_id, now) matches Some(delay) ==> 0 < delay <= SECOND && (
        earliest(of_base(sent, base_id)) <= now ==> earliest(of_base(sent, base_id)) + SECOND
            <= now + delay),
{
}

/// The wait, in seconds, before a request that was turned away `n` times goes
/// out again, where Airtable names no wait of its own.
pub open spec fn backoff(n: nat) -> nat {
    if pow2(n) < MAX_BACKOFF {
        pow2(n)
    } else {
        MAX_BACKOFF as nat
    }
}

/// Computes that wait: two seconds to the power of `rate_limited_count`, five
/// minutes at most.
pub fn backoff_seconds(rate_limited_count: u32) -> (seconds: u64)
    requires
        rate_limited_count < 64,
    ensures
        seconds == backoff(rate_limited_count as nat),
{
    let mut power: u64 = 1;
    proof {
        vstd::arithmetic::power2::lemma2_to64();
    }
    for i in 0..rate_limited_count
        invariant
            power < 2 * MAX_BACKOFF,
            power < MAX_BACKOFF ==> power == pow2(i as nat),
            power >= MAX_BACKOFF ==> pow2(i as nat) >= MAX_BACKOFF,
    {
        proof {
            vstd::arithmetic::power2::lemma_pow2_unfold((i + 1) as nat);
        }
        if power < MAX_BACKOFF {
            power = power * 2;
        }
    }
    if power < MAX_BACKOFF {
        power
    } else {
        MAX_BACKOFF
    }
}

/// The whole seconds from the time `unix_now`, in nanoseconds since the start
/// of 1970, to `date`, in seconds since then; none where that is past.
pub open spec fn seconds_until(date: u64, unix_now: u128) -> nat {
    if unix_now < date * SECOND {
        ((date * SECOND - unix_now) / SECOND as int) as nat
    } else {
        0
    }
}

/// The wait that a date asks for: until that date, or `default` where there is
/// no date or it is less than a second ahead.
pub open spec fn date_delay(date: Option<u64>, default: u64, unix_now: u128) -> nat {
    match date {
        Some(date) => if seconds_until(date, unix_now) == 0 {
            default as nat
        } else {
            seconds_until(date, unix_now)
        },
        None => default as nat,
    }
}

/// Computes the wait that a date asks for.
pub fn date_delay_seconds(date: Option<u64>, default: u64, unix_now: u128) -> (seconds: u64)
    ensures
        seconds == date_delay(date, default, unix_now),
{
    match date {
        Some(date) => {
            let due: u128 = date as u128 * SECOND as u128;
            if unix_now < due {
                let ahead = (due - unix_now) / SECOND as u128;
                assert(ahead <= date);
                if ahead == 0 {
                    default
                } else {
                    ahead as u64
                }
            } else {
                default
            }
        },
        None => default,
    }
}

/// The wait that the header `retry-after` asks for: a number of seconds, or
/// the time until a date. `default` where the header is missing or unreadable,
/// or names a date that is less than a second ahead.
pub open spec fn retry_delay(
    retry_after: Option<Seq<u8>>,
    default: u64,
    unix_now: u128,
) -> nat {
    match retry_after {
        Some(bytes) => match visible_text(bytes) {
            Some(text) => match number(text, u64::MAX as nat) {
                Some(seconds) => seconds,
                None => date_delay(http_date(text), default, unix_now),
            },
            None => default as nat,
        },
        None => default as nat,
    }
}

/// Reads the wait out of the header `retry-after`.
pub fn retry_delay_seconds(retry_after: Option<&Vec<u8>>, default: u64, unix_now: u128) -> (seconds:
    u64)
    ensures
        seconds == retry_delay(
            match retry_after {
                Some(bytes) => Some(bytes@),
                None => None,
            },
            default,
            unix_now,
        ),
{
    match retry_after {
        Some(bytes) => match header_text(bytes) {
            Some(text) => match parse_u64(text.as_str()) {
                Some(seconds) => seconds,
                None => date_delay_seconds(parse_http_date(text.as_str()), default, unix_now),
            },
            None => default,
        },
        None => default,
    }
}

/// What the queue does with a response.
pub enum Verdict {
    /// The response goes to the one who asked.
    Deliver,
    /// The one who asked is told that Airtable refused, and what it said.
    Refused,
    /// The request goes into the queue again after a wait.
    Retry {
        /// The wait.
        seconds: u64,
        /// How often the request was turned away by then.
        rate_limited_count: u32,
    },
    /// The request would have to go out again but cannot be repeated.
    NotRepeatable,
}

/// Whether a status says that the client or the server is at fault.
pub open spec fn error_status(status: u16) -> bool {
    400 <= status < 600
}

/// What becomes of a request that got a response: one with too many before it
/// is repeated where that can be done, other errors are reported, and anything
/// else is delivered.
pub open spec fn verdict(
    status: u16,
    retry_after: Option<Seq<u8>>,
    repeatable: bool,
    rate_limited_count: u32,
    unix_now: u128,
) -> Verdict {
    if status == TOO_MANY_REQUESTS {
        if repeatable {
            Verdict::Retry {
                seconds: retry_delay(
                    retry_after,
                    backoff(rate_limited_count as nat) as u64,
                    unix_now,
                ) as u64,
                rate_limited_count: (rate_limited_count + 1) as u32,
            }
        } else {
            Verdict::NotRepeatable
        }
    } else if error_status(status) {
        Verdict::Refused
    } else {
        Verdict::Deliver
    }
}

/// Decides what becomes of a request that was turned away
/// `rate_limited_count` times and then got a response with this status and
/// this header `retry-after`.
pub fn judge(
    status: u16,
    retry_after: Option<&Vec<u8>>,
    repeatable: bool,
    rate_limited_count: u32,
    unix_now: u128,
) -> (decision: Verdict)
    requires
        status == TOO_MANY_REQUESTS && repeatable ==> rate_limited_count < 64,
    ensures
        decision == verdict(
            status,
            match retry_after {
                Some(bytes) => Some(bytes@),
                None => None,
            },
            repeatable,
            rate_limited_count,
            unix_now,
        ),
        decision is Retry <==> status == 429 && repeatable,
        decision is NotRepeatable <==> status == 429 && !repeatable,
        decision is Refused <==> 400 <= status < 600 && status != 429,
        decision is Deliver <==> !(400 <= status < 600),
        decision matches Verdict::Retry { seconds, rate_limited_count: count } ==> count
            == rate_limited_count + 1,
{
    if status == TOO_MANY_REQUESTS {
        if repeatable {
            let default = backoff_seconds(rate_limited_count);
            Verdict::Retry {
                seconds: retry_delay_seconds(retry_after, default, unix_now),
                rate_limited_count: rate_limited_count + 1,
            }
        } else {
            Verdict::NotRepeatable
        }
    } else if 400 <= status && status < 600 {
        Verdict::Refused
    } else {
        Verdict::Deliver
    }
}

/// A response to a request that can be repeated.
pub struct Reply {
    /// Its status.
    pub status: u16,
    /// Its header `retry-after`.
    pub retry_after: Option<Seq<u8>>,
    /// When it came, in nanoseconds since the start of 1970.
    pub unix_now: u128,
}

/// How often a request was turned away, where `replies` are the responses that
/// put it into the queue again; `None` where one of them did not.
pub open spec fn turned_away(replies: Seq<Reply>) -> Option<u32>
    decreases replies.len(),
{
    if replies.len() == 0 {
        Some(0)
    } else {
        let reply = replies.last();
        match turned_away(replies.drop_last()) {
            Some(count) => if may_go_out(count) {
                match verdict(reply.status, reply.retry_after, true, count, reply.unix_now) {
                    Verdict::Retry { seconds, rate_limited_count } => Some(rate_limited_count),
                    _ => None,
                }
            } else {
                None
            },
            None => None,
        }
    }
}

/// A request goes out once and is repeated at most ten times: it is let out
/// again after each response that came too early, up to the tenth, and never
/// after the eleventh.
pub proof fn rests_after_ten_retries(replies: Seq<Reply>)
    requires
        turned_away(replies) is Some,
    ensures
        turned_away(replies) == Some(replies.len() as u32),
        replies.len() <= 11,
        may_go_out(turned_away(replies)->0) <==> replies.len() <= 10,
    decreases replies.len(),
{
    if replies.len() > 0 {
        rests_after_ten_retries(replies.drop_last());
    }
}

/// Left to itself, the queue waits two seconds to the power of the number of
/// times that a request was turned away, up to the eighth, and five minutes
/// from the ninth on; so it never waits less for a request that was turned
/// away more often.
pub proof fn backoff_grows(n: nat, m: nat)
    requires
        n <= m,
    ensures
        backoff(n) <= backoff(m),
        n <= 8 ==> backoff(n) == pow2(n),
        n >= 9 ==> backoff(n) == 300,
{
    vstd::arithmetic::power2::lemma2_to64();
    if n < m {
        vstd::arithmetic::power2::lemma_pow2_strictly_increases(n, m);
    }
    if n < 8 {
        vstd::arithmetic::power2::lemma_pow2_strictly_increases(n, 8);
    }
    if n > 9 {
        vstd::arithmetic::power2::lemma_pow2_strictly_increases(9, n);
    }
}

/// What the queue tells someone whose request came to nothing.
pub enum QueueError {
    /// The queue was set up before.
    AlreadyRunning,
    /// The queue was never set up.
    NotRunning,
    /// The request was turned away too often.
    RetriesExceeded,
    /// The request was turned away and could not be repeated.
    NotRepeatable,
    /// Airtable refused the request and said why.
    Refused(String),
}

impl QueueError {
    /// The message of the error.
    pub open spec fn text(&self) -> Seq<char> {
        match self {
            QueueError::AlreadyRunning => "error setting tx"@,
            QueueError::NotRunning => "Queue handler uninitialized"@,
            QueueError::RetriesExceeded => "Rate limit retries exceeded"@,
            QueueError::NotRepeatable => "Failed to clone request after Airtable returned a 429"@,
            QueueError::Refused(body) => "Airtable responded: "@ + body@,
        }
    }

    /// Writes the message of the error.
    pub fn message(&self) -> (text: String)
        ensures
            text@ == self.text(),
            self is AlreadyRunning ==> text@ == "error setting tx"@,
            self is NotRunning ==> text@ == "Queue handler uninitialized"@,
            self is RetriesExceeded ==> text@ == "Rate limit retries exceeded"@,
            self is NotRepeatable ==> text@
                == "Failed to clone request after Airtable returned a 429"@,
            self matches QueueError::Refused(body) ==> text@ == "Airtable responded: "@ + body@,
    {
        match self {
            QueueError::AlreadyRunning => "error setting tx".to_owned(),
            QueueError::NotRunning => "Queue handler uninitialized".to_owned(),
            QueueError::RetriesExceeded => "Rate limit retries exceeded".to_owned(),
            QueueError::NotRepeatable =>
            "Failed to clone request after Airtable returned a 429".to_owned(),
            QueueError::Refused(body) => "Airtable responded: ".to_owned().concat(body.as_str()),
        }
    }
}

/// The requests of one base are all those that went to it, in their order: the
/// places that they have among all requests grow, and every place of a request
/// to the base is one of them.
pub proof fn base_has_all_its_requests(sent: Seq<RequestInstance>, base_id: Seq<char>) -> (places: Seq<
    int,
>)
    ensures
        places.len() == of_base(sent, base_id).len(),
        forall|a: int| 0 <= a < places.len() ==> 0 <= #[trigger] places[a] < sent.len(),
        forall|a: int, b: int| 0 <= a < b < places.len() ==> places[a] < places[b],
        forall|a: int|
            0 <= a < places.len() ==> of_base(sent, base_id)[a] == sent[#[trigger] places[a]]
                && sent[places[a]].airtable_base_id@ == base_id,
        forall|i: int|
            0 <= i < sent.len() && (#[trigger] sent[i]).airtable_base_id@ == base_id
                ==> places.contains(i),
    decreases sent.len(),
{
    broadcast use Seq::lemma_filter_push;

    reveal(Seq::filter);
    if sent.len() == 0 {
        Seq::empty()
    } else {
        let front = sent.drop_last();
        let n = sent.len() - 1;
        let before = base_has_all_its_requests(front, base_id);
        assert(sent == front.push(sent.last()));
        let places = if sent.last().airtable_base_id@ == base_id {
            before.push(n)
        } else {
            before
        };
        assert forall|a: int| 0 <= a < places.len() implies of_base(sent, base_id)[a]
            == sent[#[trigger] places[a]] && sent[places[a]].airtable_base_id@ == base_id by {
            if a < before.len() {
                assert(of_base(front, base_id)[a] == front[before[a]]);
            }
        }
        assert forall|i: int|
            0 <= i < sent.len() && (#[trigger] sent[i]).airtable_base_id@
                == base_id implies places.contains(i) by {
            if i < n {
                assert(front[i].airtable_base_id@ == base_id);
                let a = choose|a: int| 0 <= a < before.len() && before[a] == i;
                assert(places[a] == i);
            } else {
                assert(places[before.len() as int] == i);
            }
        }
        places
    }
}

/// A request waits exactly where four others went to its base lately.
pub proof fn four_requests_make_a_fifth_wait(sent: Seq<RequestInstance>, base_id: Seq<char>, now: u64)
    ensures
        required_delay(sent, base_id, now) is Some <==> exists|i: int, j: int, k: int, l: int|
            {
                &&& 0 <= i < j < k < l < sent.len()
                &&& (#[trigger] sent[i]).airtable_base_id@ == base_id
                &&& (#[trigger] sent[j]).airtable_base_id@ == base_id
                &&& (#[trigger] sent[k]).airtable_base_id@ == base_id
                &&& (#[trigger] sent[l]).airtable_base_id@ == base_id
            },
{
    let places = base_has_all_its_requests(sent, base_id);
    if places.len() >= 4 {
        let (i, j, k, l) = (places[0], places[1], places[2], places[3]);
        assert(sent[i].airtable_base_id@ == base_id);
        assert(sent[j].airtable_base_id@ == base_id);
        assert(sent[k].airtable_base_id@ == base_id);
        assert(sent[l].airtable_base_id@ == base_id);
    }
    if exists|i: int, j: int, k: int, l: int|
        {
            &&& 0 <= i < j < k < l < sent.len()
            &&& (#[trigger] sent[i]).airtable_base_id@ == base_id
            &&& (#[trigger] sent[j]).airtable_base_id@ == base_id
            &&& (#[trigger] sent[k]).airtable_base_id@ == base_id
            &&& (#[trigger] sent[l]).airtable_base_id@ == base_id
        } {
        let (i, j, k, l) = choose|i: int, j: int, k: int, l: int|
            {
                &&& 0 <= i < j < k < l < sent.len()
                &&& (#[trigger] sent[i]).airtable_base_id@ == base_id
                &&& (#[trigger] sent[j]).airtable_base_id@ == base_id
                &&& (#[trigger] sent[k]).airtable_base_id@ == base_id
                &&& (#[trigger] sent[l]).airtable_base_id@ == base_id
            };
        let a = choose|a: int| 0 <= a < places.len() && places[a] == i;
        let b = choose|b: int| 0 <= b < places.len() && places[b] == j;
        let c = choose|c: int| 0 <= c < places.len() && places[c] == k;
        let d = choose|d: int| 0 <= d < places.len() && places[d] == l;
        assert(a < b < c < d);
    }
}

proof fn lemma_earliest_is_least(sent: Seq<RequestInstance>)
    ensures
        forall|a: int| 0 <= a < sent.len() ==> earliest(sent) <= (#[trigger] sent[a]).instant,
        sent.len() > 0 ==> exists|a: int|
            0 <= a < sent.len() && (#[trigger] sent[a]).instant == earliest(sent),
    decreases sent.len(),
{
    if sent.len() > 0 {
        let front = sent.drop_last();
        lemma_earliest_is_least(front);
        assert forall|a: int| 0 <= a < sent.len() implies earliest(sent) <= (
        #[trigger] sent[a]).instant by {
            if a < front.len() {
                assert(earliest(front) <= front[a].instant);
            }
        }
        if front.len() > 0 {
            let a = choose|a: int|
                0 <= a < front.len() && (#[trigger] front[a]).instant == earliest(front);
            assert(sent[a].instant == earliest(front));
        }
        assert(sent[sent.len() - 1].instant == sent.last().instant);
    }
}

/// A request that waits does so until the oldest of the requests that went to
/// its base is a second old, and for a whole second where it is that old
/// already or its time is still to come.
pub proof fn wait_ends_a_second_after_the_oldest(
    sent: Seq<RequestInstance>,
    base_id: Seq<char>,
    now: u64,
    oldest: int,
)
    requires
        0 <= oldest < sent.len(),
        sent[oldest].airtable_base_id@ == base_id,
        forall|i: int|
            0 <= i < sent.len() && (#[trigger] sent[i]).airtable_base_id@ == base_id
                ==> sent[oldest].instant <= sent[i].instant,
    ensures
        required_delay(sent, base_id, now) matches Some(delay) ==> {
            let at = sent[oldest].instant;
            if at <= now < at + 1_000_000_000 {
                now + delay == at + 1_000_000_000
            } else {
                delay == 1_000_000_000
            }
        },
{
    let mine = of_base(sent, base_id);
    let places = base_has_all_its_requests(sent, base_id);
    lemma_earliest_is_least(mine);
    assert(places.contains(oldest));
    let a = choose|a: int| 0 <= a < places.len() && places[a] == oldest;
    assert(mine[a] == sent[oldest]);
    let b = choose|b: int| 0 <= b < mine.len() && (#[trigger] mine[b]).instant == earliest(mine);
    assert(mine[b] == sent[places[b]]);
    assert(sent[oldest].instant <= sent[places[b]].instant);
}

/// What went out is remembered for a second from then on.
pub proof fn request_is_remembered_for_a_second(request: RequestInstance, now: u64)
    ensures
        request.live(now) <==> now < request.instant + 1_000_000_000,
{
}

/// Where Airtable names a number of seconds, the request waits for just as
/// long, however often it was turned away before.
pub proof fn named_wait_is_kept(
    bytes: Seq<u8>,
    text: Seq<char>,
    seconds: u64,
    rate_limited_count: u32,
    unix_now: u128,
)
    requires
        rate_limited_count < u32::MAX,
        text.len() == bytes.len(),
        forall|i: int|
            0 <= i < bytes.len() ==> (32 <= #[trigger] bytes[i] < 127 || bytes[i] == 9) && text[i]
                == bytes[i] as char,
        number(text, 0xffff_ffff_ffff_ffff) == Some(seconds as nat),
    ensures
        verdict(429, Some(bytes), true, rate_limited_count, unix_now) == (Verdict::Retry {
            seconds,
            rate_limited_count: (rate_limited_count + 1) as u32,
        }),
{
    lemma_visible(bytes, text);
}

proof fn lemma_visible(bytes: Seq<u8>, text: Seq<char>)
    requires
        text.len() == bytes.len(),
        forall|i: int|
            0 <= i < bytes.len() ==> (32 <= #[trigger] bytes[i] < 127 || bytes[i] == 9) && text[i]
                == bytes[i] as char,
    ensures
        visible_text(bytes) == Some(text),
{
    assert(bytes.map_values(|b: u8| b as char) == text);
}

/// Every number of seconds can be named in decimal notation, and is then the
/// wait.
pub proof fn every_wait_can_be_named(
    bytes: Seq<u8>,
    seconds: u64,
    rate_limited_count: u32,
    unix_now: u128,
)
    requires
        rate_limited_count < u32::MAX,
        bytes.len() == decimal(seconds as nat).len(),
        forall|i: int|
            0 <= i < bytes.len() ==> #[trigger] bytes[i] as char == decimal(seconds as nat)[i],
    ensures
        verdict(429, Some(bytes), true, rate_limited_count, unix_now) == (Verdict::Retry {
            seconds,
            rate_limited_count: (rate_limited_count + 1) as u32,
        }),
{
    let text = decimal(seconds as nat);
    crate::text::decimal_reads_back(seconds as nat, u64::MAX as nat);
    crate::text::lemma_decimal_digits(seconds as nat);
    assert forall|i: int| 0 <= i < bytes.len() implies (32 <= #[trigger] bytes[i] < 127 || bytes[i]
        == 9) && text[i] == bytes[i] as char by {
        assert('0' <= text[i] <= '9');
        assert(bytes[i] as char == text[i]);
    }
    named_wait_is_kept(bytes, text, seconds, rate_limited_count, unix_now);
}

/// Where Airtable names no number of seconds, the request waits until the date
/// that it names, in whole seconds, if that is a second ahead or more. In every
/// other case it waits two seconds to the power of the number of times that it
/// was turned away, and five minutes from the ninth time on.
pub proof fn backoff_is_the_last_resort(
    retry_after: Option<Seq<u8>>,
    text: Seq<char>,
    rate_limited_count: u32,
    unix_now: u128,
)
    requires
        rate_limited_count < u32::MAX,
        retry_after matches Some(bytes) ==> {
            ||| exists|i: int|
                0 <= i < bytes.len() && !(32 <= #[trigger] bytes[i] < 127 || bytes[i] == 9)
            ||| {
                &&& text.len() == bytes.len()
                &&& forall|i: int|
                    0 <= i < bytes.len() ==> (32 <= #[trigger] bytes[i] < 127 || bytes[i] == 9)
                        && text[i] == bytes[i] as char
                &&& number(text, 0xffff_ffff_ffff_ffff) is None
            }
        },
    ensures
        verdict(429, retry_after, true, rate_limited_count, unix_now) matches Verdict::Retry {
            seconds,
            rate_limited_count: count,
        } && count == rate_limited_count + 1 && {
            let readable = retry_after matches Some(bytes) && forall|i: int|
                0 <= i < bytes.len() ==> 32 <= #[trigger] bytes[i] < 127 || bytes[i] == 9;
            if readable && http_date(text) is Some && unix_now + 1_000_000_000 <= http_date(text)->0
                * 1_000_000_000 {
                seconds * 1_000_000_000 <= http_date(text)->0 * 1_000_000_000 - unix_now < (seconds
                    + 1) * 1_000_000_000
            } else if rate_limited_count <= 8 {
                seconds == pow2(rate_limited_count as nat)
            } else {
                seconds == 300
            }
        },
{
    backoff_grows(rate_limited_count as nat, rate_limited_count as nat);
    vstd::arithmetic::power2::lemma2_to64();
    if let Some(bytes) = retry_after {
        if exists|i: int|
            0 <= i < bytes.len() && !(32 <= #[trigger] bytes[i] < 127 || bytes[i] == 9) {
            let i = choose|i: int|
                0 <= i < bytes.len() && !(32 <= #[trigger] bytes[i] < 127 || bytes[i] == 9);
            assert(!crate::http::visible_ascii(bytes[i]));
            assert(visible_text(bytes) is None);
        } else {
            lemma_visible(bytes, text);
        }
    }
}

/// A response that came too early is the only one that a request is repeated
/// after, and only where it can be; other errors of the client or the server
/// are reported, and everything else is delivered.
pub proof fn only_early_requests_are_repeated(
    status: u16,
    retry_after: Option<Seq<u8>>,
    repeatable: bool,
    rate_limited_count: u32,
    unix_now: u128,
)
    ensures
        verdict(status, retry_after, repeatable, rate_limited_count, unix_now) is Retry <==> status
            == 429 && repeatable,
        verdict(status, retry_after, repeatable, rate_limited_count, unix_now) is NotRepeatable
            <==> status == 429 && !repeatable,
        verdict(status, retry_after, repeatable, rate_limited_count, unix_now) is Refused <==> 400
            <= status < 600 && status != 429,
        verdict(status, retry_after, repeatable, rate_limited_count, unix_now) is Deliver <==> !(400
            <= status < 600),
{
}

/// A turn at the limiter forgets what is a second old, and remembers the request
/// as gone out when its wait was over, unless it was turned away more than ten
/// times.
pub proof fn turn_remembers_its_request(sent: Seq<RequestInstance>, turn: Turn)
    ensures
        turn.rate_limited_count > 10 ==> after_turn(sent, turn) == live_items(sent, turn.now),
        turn.rate_limited_count <= 10 ==> {
            &&& after_turn(sent, turn).drop_last() == live_items(sent, turn.now)
            &&& after_turn(sent, turn).len() == live_items(sent, turn.now).len() + 1
            &&& after_turn(sent, turn).last().airtable_base_id == turn.base_id
            &&& after_turn(sent, turn).last().instant == turn.resumed
        },
{
    assert(turn.rate_limited_count <= 10 ==> after_turn(sent, turn).drop_last() == live_items(
        sent,
        turn.now,
    ));
}

/// A date is waited for in whole seconds where it is a second ahead or more;
/// every other date, and none, leaves the wait that was there before.
pub proof fn date_is_waited_for(date: u64, default: u64, unix_now: u128)
    ensures
        date_delay(None, default, unix_now) == default,
        unix_now + 1_000_000_000 <= date * 1_000_000_000 ==> date_delay(
            Some(date),
            default,
            unix_now,
        ) * 1_000_000_000 <= date * 1_000_000_000 - unix_now < (date_delay(
            Some(date),
            default,
            unix_now,
        ) + 1) * 1_000_000_000,
        unix_now + 1_000_000_000 > date * 1_000_000_000 ==> date_delay(
            Some(date),
            default,
            unix_now,
        ) == default,
{
}

/// The header is read as a number of seconds where it is one, as a date where it
/// is none, and not at all where a byte of it is not visible.
pub proof fn header_is_read_as_seconds_or_date(
    bytes: Seq<u8>,
    text: Seq<char>,
    default: u64,
    unix_now: u128,
)
    requires
        text.len() == bytes.len(),
        forall|i: int| 0 <= i < bytes.len() ==> (#[trigger] text[i]) as int == bytes[i] as int,
    ensures
        retry_delay(None, default, unix_now) == default,
        (exists|i: int| 0 <= i < bytes.len() && !(32 <= #[trigger] bytes[i] < 127 || bytes[i] == 9))
            ==> retry_delay(Some(bytes), default, unix_now) == default,
        (forall|i: int| 0 <= i < bytes.len() ==> 32 <= #[trigger] bytes[i] < 127 || bytes[i] == 9)
            ==> match number(text, 0xffff_ffff_ffff_ffff) {
            Some(seconds) => retry_delay(Some(bytes), default, unix_now) == seconds,
            None => retry_delay(Some(bytes), default, unix_now) == date_delay(
                http_date(text),
                default,
                unix_now,
            ),
        },
{
    crate::http::header_text_is_its_bytes(bytes);
    if exists|i: int| 0 <= i < bytes.len() && !(32 <= #[trigger] bytes[i] < 127 || bytes[i] == 9) {
        let i = choose|i: int|
            0 <= i < bytes.len() && !(32 <= #[trigger] bytes[i] < 127 || bytes[i] == 9);
        assert(!(32 <= bytes[i] <= 126 || bytes[i] == 9));
        assert(visible_text(bytes) is None);
    } else {
        assert(visible_text(bytes) is Some);
        assert(visible_text(bytes)->0 == text);
    }
}

} // verus!
