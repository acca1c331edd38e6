//! How often each client may search, so that a public service is not used so much that the search
//! engines turn it away.
//!
//! A client is told apart by the address that a proxy puts into the headers `X-Forwarded-For` or
//! `X-Real-IP`. Calls without either come from the same machine, and are not limited unless that is
//! asked for. The proxy must set these headers itself, so that no client can write its own.

use vstd::hash_map::StringHashMap;
use vstd::prelude::*;
use vstd::utf8;

use crate::text::{
    self, chars_of, cut_before, hex_digit, lowered, parsed_u64, string_of, trimmed,
};

verus! {

/// How often a client has searched, in the minute and in the day of its last search.
#[derive(Clone, Copy, Debug, PartialEq, Eq, Structural)]
pub struct Bucket {
    pub minute: u64,
    pub minute_n: u32,
    pub day: u64,
    pub day_n: u32,
}

/// The clients that are remembered, and how often each may search.
pub struct Limiter {
    per_min: u32,
    per_day: u32,
    local_unlimited: bool,
    buckets: StringHashMap<Bucket>,
}

/// The most clients that are remembered: beyond them all are forgotten, so that memory stays bounded.
pub const MAX_CLIENTS: usize = 20_000;

/// The seconds by which the Japanese clock is ahead of UTC.
pub const JST_OFFSET: u64 = 32_400;

pub struct LimiterView {
    pub per_min: u32,
    pub per_day: u32,
    pub local_unlimited: bool,
    pub buckets: Map<Seq<char>, Bucket>,
}

impl View for Limiter {
    type V = LimiterView;

    closed spec fn view(&self) -> LimiterView {
        LimiterView {
            per_min: self.per_min,
            per_day: self.per_day,
            local_unlimited: self.local_unlimited,
            buckets: self.buckets@,
        }
    }
}

impl LimiterView {
    /// What holds of every limiter: it remembers a bounded number of clients, none of them beyond
    /// its limits.
    pub open spec fn wf(self) -> bool {
        &&& self.buckets.dom().finite()
        &&& self.buckets.len() <= MAX_CLIENTS
        &&& forall|k: Seq<char>| #[trigger]
            self.buckets.contains_key(k) ==> self.buckets[k].minute_n <= self.per_min
                && self.buckets[k].day_n <= self.per_day
    }
}

/// The minute that a time lies in.
pub open spec fn minute_of(now: int) -> int {
    now / 60
}

/// The day in Japan that a time lies in.
pub open spec fn day_of(now: int) -> int {
    (now + JST_OFFSET) / 86_400
}

/// A client that has not searched yet.
pub open spec fn fresh() -> Bucket {
    Bucket { minute: 0, minute_n: 0, day: 0, day_n: 0 }
}

pub open spec fn bucket_of(buckets: Map<Seq<char>, Bucket>, key: Seq<char>) -> Bucket {
    if buckets.contains_key(key) {
        buckets[key]
    } else {
        fresh()
    }
}

/// Whether a new client makes the limiter forget all others.
pub open spec fn forgets(buckets: Map<Seq<char>, Bucket>, key: Seq<char>) -> bool {
    buckets.len() >= MAX_CLIENTS && !buckets.contains_key(key)
}

/// What is remembered when a client calls.
pub open spec fn remembered(buckets: Map<Seq<char>, Bucket>, key: Seq<char>) -> Map<
    Seq<char>,
    Bucket,
> {
    if forgets(buckets, key) {
        Map::empty()
    } else {
        buckets
    }
}

/// The counts as they stand at a time: those of another minute or another day are over.
pub open spec fn at_time(b: Bucket, now: int) -> Bucket {
    Bucket {
        minute: minute_of(now) as u64,
        minute_n: if b.minute == minute_of(now) {
            b.minute_n
        } else {
            0
        },
        day: day_of(now) as u64,
        day_n: if b.day == day_of(now) {
            b.day_n
        } else {
            0
        },
    }
}

/// Whether a client with these counts, as they stand at that time, may search; else for how many
/// seconds it has to wait: until midnight in Japan where the day's searches are used up, else until
/// the next minute.
pub open spec fn verdict(b: Bucket, per_min: u32, per_day: u32, now: int) -> Result<(), int> {
    if b.day_n >= per_day {
        Err(86_400 - (now + JST_OFFSET) % 86_400)
    } else if b.minute_n >= per_min {
        Err(60 - now % 60)
    } else {
        Ok(())
    }
}

/// The counts after one search more.
pub open spec fn one_more(b: Bucket) -> Bucket {
    Bucket { minute_n: (b.minute_n + 1) as u32, day_n: (b.day_n + 1) as u32, ..b }
}

/// The answer to a client that calls at a time.
pub open spec fn answer(l: LimiterView, key: Seq<char>, now: int) -> Result<(), int> {
    verdict(
        at_time(bucket_of(remembered(l.buckets, key), key), now),
        l.per_min,
        l.per_day,
        now,
    )
}

/// The limiter after a client has called at a time.
pub open spec fn counted(l: LimiterView, key: Seq<char>, now: int) -> LimiterView {
    let kept = remembered(l.buckets, key);
    let b = at_time(bucket_of(kept, key), now);
    LimiterView {
        buckets: kept.insert(
            key,
            if answer(l, key, now) is Ok {
                one_more(b)
            } else {
                b
            },
        ),
        ..l
    }
}

/// The key under which calls are counted; `None` for one that is not.
pub open spec fn counting_key(l: LimiterView, client: Option<Seq<char>>) -> Option<Seq<char>> {
    match client {
        Some(key) => Some(key),
        None => if l.local_unlimited {
            None
        } else {
            Some("local"@)
        },
    }
}

/// The answer to a call at a time: from a client, or from the same machine.
pub open spec fn call_answer(l: LimiterView, client: Option<Seq<char>>, now: int) -> Result<
    (),
    int,
> {
    match counting_key(l, client) {
        Some(key) => answer(l, key, now),
        None => Ok(()),
    }
}

/// The limiter after a call at a time.
pub open spec fn call_counted(l: LimiterView, client: Option<Seq<char>>, now: int) -> LimiterView {
    match counting_key(l, client) {
        Some(key) => counted(l, key, now),
        None => l,
    }
}

pub open spec fn opt_str_view(x: Option<&str>) -> Option<Seq<char>> {
    match x {
        Some(s) => Some(s@),
        None => None,
    }
}

pub open spec fn wait_of(r: Result<(), u64>) -> Result<(), int> {
    match r {
        Ok(_) => Ok(()),
        Err(w) => Err(w as int),
    }
}

/// A number that a setting gives, where it gives one that fits.
pub open spec fn setting(value: Option<Seq<char>>, default: u32) -> u32 {
    match value {
        Some(s) => match text::parse_u64(s) {
            Some(n) => if n <= u32::MAX {
                n as u32
            } else {
                default
            },
            None => default,
        },
        None => default,
    }
}

fn number_setting(value: Option<&str>, default: u32) -> (r: u32)
    ensures
        r == setting(opt_str_view(value), default),
{
    match value {
        Some(s) => match parsed_u64(&chars_of(s)) {
            Some(n) => if n <= u32::MAX as u64 {
                n as u32
            } else {
                default
            },
            None => default,
        },
        None => default,
    }
}

impl Limiter {
    /// A limiter that allows each client so many searches in a minute and in a day.
    pub fn new(per_min: u32, per_day: u32, local_unlimited: bool) -> (r: Limiter)
        ensures
            r@ == (LimiterView { per_min, per_day, local_unlimited, buckets: Map::empty() }),
            r@.wf(),
    {
        Limiter { per_min, per_day, local_unlimited, buckets: StringHashMap::new() }
    }

    /// A limiter with limits as settings give them: 20 searches in a minute and 1,000 in a day unless
    /// they say otherwise, and no limit on calls from the same machine unless `local` is `0`.
    pub fn from_settings(per_min: Option<&str>, per_day: Option<&str>, local: Option<&str>) -> (r:
        Limiter)
        ensures
            r@ == (LimiterView {
                per_min: setting(opt_str_view(per_min), 20),
                per_day: setting(opt_str_view(per_day), 1_000),
                local_unlimited: opt_str_view(local) != Some("0"@),
                buckets: Map::empty(),
            }),
            r@.wf(),
    {
        let local_unlimited: bool = match local {
            Some(s) => !text::same(s, "0"),
            None => true,
        };
        Limiter::new(number_setting(per_min, 20), number_setting(per_day, 1_000), local_unlimited)
    }

    /// How many clients are remembered.
    pub fn clients(&self) -> (r: usize)
        ensures
            r == self@.buckets.len(),
    {
        self.buckets.len()
    }

    /// Counts one search. Where the client is beyond its limit, the error says for how many seconds it
    /// has to wait. `client` is `None` for a call from the same machine.
    pub fn check(&mut self, client: Option<&str>, now_unix: u64) -> (r: Result<(), u64>)
        requires
            now_unix <= u64::MAX - JST_OFFSET,
        ensures
            wait_of(r) == call_answer(old(self)@, opt_str_view(client), now_unix as int),
            final(self)@ == call_counted(old(self)@, opt_str_view(client), now_unix as int),
            old(self)@.wf() ==> final(self)@.wf(),
    {
        match client {
            None => if self.local_unlimited {
                Ok(())
            } else {
                self.count("local", now_unix)
            },
            Some(key) => self.count(key, now_unix),
        }
    }

    fn count(&mut self, key: &str, now: u64) -> (r: Result<(), u64>)
        requires
            now <= u64::MAX - JST_OFFSET,
        ensures
            wait_of(r) == answer(old(self)@, key@, now as int),
            final(self)@ == counted(old(self)@, key@, now as int),
            old(self)@.wf() ==> final(self)@.wf(),
    {
        proof {
            if self@.wf() {
                lemma_counted_wf(self@, key@, now as int);
            }
        }
        if self.buckets.len() >= MAX_CLIENTS && !self.buckets.contains_key(key) {
            self.buckets.clear();
        }
        let mut b: Bucket = match self.buckets.get(key) {
            Some(b) => *b,
            None => Bucket { minute: 0, minute_n: 0, day: 0, day_n: 0 },
        };
        let minute: u64 = now / 60;
        let day: u64 = (now + JST_OFFSET) / 86_400;
        if b.minute != minute {
            b.minute = minute;
            b.minute_n = 0;
        }
        if b.day != day {
            b.day = day;
            b.day_n = 0;
        }
        let r: Result<(), u64> = if b.day_n >= self.per_day {
            Err(86_400 - (now + JST_OFFSET) % 86_400)
        } else if b.minute_n >= self.per_min {
            Err(60 - now % 60)
        } else {
            b.minute_n += 1;
            b.day_n += 1;
            Ok(())
        };
        self.buckets.insert(key.to_string(), b);
        r
    }
}

// ---------------------------------------------------------------------------
// Telling clients apart
// ---------------------------------------------------------------------------

pub open spec fn is_address_char(c: char) -> bool {
    text::is_hex_digit(c) || c == '.' || c == ':'
}

/// Whether a text has the form of an IP address.
pub open spec fn looks_like_address(s: Seq<char>) -> bool {
    utf8::encode_utf8(s).len() <= 45 && forall|i: int|
        0 <= i < s.len() ==> is_address_char(#[trigger] s[i])
}

/// The client that the headers name: the first address of `X-Forwarded-For`, or that of `X-Real-IP`
/// where there is no such header. All that do not look like addresses are one client, `invalid`.
pub open spec fn key_of(x_forwarded_for: Option<Seq<char>>, x_real_ip: Option<Seq<char>>) -> Option<
    Seq<char>,
> {
    let given = match x_forwarded_for {
        Some(v) => Some(text::before(v, ',')),
        None => x_real_ip,
    };
    match given {
        None => None,
        Some(v) => {
            let raw = text::trim(v);
            if raw.len() == 0 {
                None
            } else if looks_like_address(raw) {
                Some(text::lower(raw))
            } else {
                Some("invalid"@)
            }
        },
    }
}

fn is_address(s: &Vec<char>, bytes: usize) -> (r: bool)
    requires
        bytes == utf8::encode_utf8(s@).len(),
    ensures
        r == looks_like_address(s@),
{
    if bytes > 45 {
        return false;
    }
    for i in 0..s.len()
        invariant
            forall|k: int| 0 <= k < i ==> is_address_char(#[trigger] s@[k]),
    {
        if !(hex_digit(s[i]) || s[i] == '.' || s[i] == ':') {
            assert(!is_address_char(s@[i as int]));
            return false;
        }
    }
    true
}

/// The client that the headers of a call name; `None` where there are none, for a call from the same
/// machine.
pub fn client_key(x_forwarded_for: Option<&str>, x_real_ip: Option<&str>) -> (r: Option<String>)
    ensures
        (match r {
            Some(s) => Some(s@),
            None => None,
        }) == key_of(opt_str_view(x_forwarded_for), opt_str_view(x_real_ip)),
{
    let given: Vec<char> = match x_forwarded_for {
        Some(v) => cut_before(&chars_of(v), ','),
        None => match x_real_ip {
            Some(v) => chars_of(v),
            None => {
                return None;
            },
        },
    };
    let raw = trimmed(&given);
    if raw.len() == 0 {
        return None;
    }
    let bytes: usize = string_of(&raw).as_str().as_bytes().len();
    if is_address(&raw, bytes) {
        Some(string_of(&lowered(&raw)))
    } else {
        Some("invalid".to_string())
    }
}

// ---------------------------------------------------------------------------
// Laws
// ---------------------------------------------------------------------------

proof fn lemma_counted_wf(l: LimiterView, key: Seq<char>, now: int)
    requires
        l.wf(),
    ensures
        counted(l, key, now).wf(),
{
    let after = counted(l, key, now);
    assert forall|k: Seq<char>| #[trigger] after.buckets.contains_key(k) implies
        after.buckets[k].minute_n <= l.per_min && after.buckets[k].day_n <= l.per_day by {
        if k != key {
            assert(l.buckets.contains_key(k));
        } else {
            assert(l.buckets.contains_key(k) ==> l.buckets[k].minute_n <= l.per_min);
        }
    }
}

/// Calls from the same machine are never refused and never counted, unless that is asked for.
pub proof fn law_local_calls_are_free(l: LimiterView, now: int)
    requires
        l.local_unlimited,
    ensures
        call_answer(l, None, now) is Ok,
        call_counted(l, None, now) == l,
{
}

/// One client's calls do not change what another one has left, unless all are forgotten because too
/// many are remembered.
pub proof fn law_clients_are_counted_apart(l: LimiterView, key: Seq<char>, other: Seq<char>, now: int)
    requires
        key != other,
        !forgets(l.buckets, key),
    ensures
        bucket_of(counted(l, key, now).buckets, other) == bucket_of(l.buckets, other),
{
}

/// However many clients call, no more than a fixed number are remembered.
pub proof fn law_memory_is_bounded(l: LimiterView, key: Seq<char>, now: int)
    requires
        l.wf(),
    ensures
        counted(l, key, now).buckets.len() <= MAX_CLIENTS,
{
    lemma_counted_wf(l, key, now);
}

/// A client that is refused is told to wait for a second at least and a day at most. If its next try
/// comes after just that wait, it is allowed, unless the limits allow no search at all; if it comes
/// earlier, it is refused again.
pub proof fn law_waiting_as_told_helps(l: LimiterView, key: Seq<char>, now: int)
    requires
        0 <= now <= u64::MAX - JST_OFFSET - 86_400,
        answer(l, key, now) is Err,
    ensures
        ({
            let wait = answer(l, key, now)->Err_0;
            let later = counted(l, key, now);
            &&& 1 <= wait <= 86_400
            &&& l.per_min > 0 && l.per_day > 0 ==> answer(later, key, now + wait) is Ok
            &&& forall|early: int|
                0 <= early < wait ==> #[trigger] answer(later, key, now + early) is Err
        }),
{
    let wait = answer(l, key, now)->Err_0;
    let kept = remembered(l.buckets, key);
    let b = at_time(bucket_of(kept, key), now);
    let later = counted(l, key, now);
    assert(later.buckets.contains_key(key));
    assert(later.buckets[key] == b);
    assert(remembered(later.buckets, key) == later.buckets);
    if b.day_n >= l.per_day {
        assert(day_of(now + wait) == day_of(now) + 1);
        assert(minute_of(now + wait) > minute_of(now));
    } else {
        assert(minute_of(now + wait) == minute_of(now) + 1);
    }
    assert forall|early: int| 0 <= early < wait implies #[trigger] answer(
        later,
        key,
        now + early,
    ) is Err by {
        if b.day_n >= l.per_day {
            assert(day_of(now + early) == day_of(now));
        } else {
            assert(minute_of(now + early) == minute_of(now));
        }
    }
}

/// The limiter after a list of calls, each with its client and its time.
pub open spec fn after_calls(l: LimiterView, calls: Seq<(Seq<char>, int)>) -> LimiterView
    decreases calls.len(),
{
    if calls.len() == 0 {
        l
    } else {
        counted(after_calls(l, calls.drop_last()), calls.last().0, calls.last().1)
    }
}

/// Whether the last of a list of calls was allowed.
pub open spec fn last_allowed(l: LimiterView, calls: Seq<(Seq<char>, int)>) -> bool {
    answer(after_calls(l, calls.drop_last()), calls.last().0, calls.last().1) is Ok
}

/// How many calls of a client were allowed in one minute.
pub open spec fn allowed_in_minute(
    l: LimiterView,
    calls: Seq<(Seq<char>, int)>,
    key: Seq<char>,
    minute: int,
) -> nat
    decreases calls.len(),
{
    if calls.len() == 0 {
        0
    } else {
        allowed_in_minute(l, calls.drop_last(), key, minute) + if calls.last().0 == key
            && minute_of(calls.last().1) == minute && last_allowed(l, calls) {
            1nat
        } else {
            0nat
        }
    }
}

/// How many calls of a client were allowed in one day in Japan.
pub open spec fn allowed_in_day(
    l: LimiterView,
    calls: Seq<(Seq<char>, int)>,
    key: Seq<char>,
    day: int,
) -> nat
    decreases calls.len(),
{
    if calls.len() == 0 {
        0
    } else {
        allowed_in_day(l, calls.drop_last(), key, day) + if calls.last().0 == key && day_of(
            calls.last().1,
        ) == day && last_allowed(l, calls) {
            1nat
        } else {
            0nat
        }
    }
}

/// Whether the calls come in the order of their times.
pub open spec fn in_order(calls: Seq<(Seq<char>, int)>) -> bool {
    &&& forall|i: int| 0 <= i < calls.len() ==> 0 <= #[trigger] calls[i].1 <= u64::MAX - JST_OFFSET
    &&& forall|i: int, j: int|
        0 <= i <= j < calls.len() ==> #[trigger] calls[i].1 <= #[trigger] calls[j].1
}

/// Whether none of the calls makes the limiter forget its clients.
pub open spec fn nothing_forgotten(l: LimiterView, calls: Seq<(Seq<char>, int)>) -> bool
    decreases calls.len(),
{
    calls.len() == 0 || (nothing_forgotten(l, calls.drop_last()) && !forgets(
        after_calls(l, calls.drop_last()).buckets,
        calls.last().0,
    ))
}

proof fn lemma_calls(l: LimiterView, calls: Seq<(Seq<char>, int)>, key: Seq<char>)
    requires
        l.buckets == Map::<Seq<char>, Bucket>::empty(),
        in_order(calls),
        nothing_forgotten(l, calls),
    ensures
        ({
            let after = after_calls(l, calls);
            let b = bucket_of(after.buckets, key);
            &&& after.per_min == l.per_min && after.per_day == l.per_day
            &&& calls.len() > 0 ==> b.minute <= minute_of(calls.last().1) && b.day <= day_of(
                calls.last().1,
            )
            &&& calls.len() == 0 ==> b == fresh()
            &&& b.minute_n == allowed_in_minute(l, calls, key, b.minute as int)
            &&& b.day_n == allowed_in_day(l, calls, key, b.day as int)
            &&& forall|m: int|
                m > b.minute ==> #[trigger] allowed_in_minute(l, calls, key, m) == 0
            &&& forall|d: int| d > b.day ==> #[trigger] allowed_in_day(l, calls, key, d) == 0
            &&& forall|m: int| #[trigger] allowed_in_minute(l, calls, key, m) <= l.per_min
            &&& forall|d: int| #[trigger] allowed_in_day(l, calls, key, d) <= l.per_day
        }),
    decreases calls.len(),
{
    if calls.len() > 0 {
        let prev = calls.drop_last();
        assert forall|i: int, j: int| 0 <= i <= j < prev.len() implies #[trigger] prev[i].1
            <= #[trigger] prev[j].1 by {
            assert(calls[i].1 <= calls[j].1);
        }
        assert forall|i: int| 0 <= i < prev.len() implies 0 <= #[trigger] prev[i].1 <= u64::MAX
            - JST_OFFSET by {
            assert(0 <= calls[i].1);
        }
        lemma_calls(l, prev, key);
        let state = after_calls(l, prev);
        let (caller, now) = calls.last();
        assert(0 <= calls[calls.len() - 1].1);
        if prev.len() > 0 {
            assert(prev.last() == calls[calls.len() - 2]);
            assert(calls[calls.len() - 2].1 <= calls[calls.len() - 1].1);
        }
        let b0 = bucket_of(state.buckets, key);
        let after = after_calls(l, calls);
        let b = bucket_of(after.buckets, key);
        assert(b0.minute <= minute_of(now));
        assert(b0.day <= day_of(now));
        if caller != key {
            assert(b == b0);
        } else {
            let t = at_time(b0, now);
            assert(t.minute == minute_of(now));
            assert(t.day == day_of(now));
            assert(t.minute_n == allowed_in_minute(l, prev, key, minute_of(now)));
            assert(t.day_n == allowed_in_day(l, prev, key, day_of(now)));
            assert(b == if last_allowed(l, calls) {
                one_more(t)
            } else {
                t
            });
        }
        assert forall|m: int| #[trigger] allowed_in_minute(l, calls, key, m) <= l.per_min by {
            assert(allowed_in_minute(l, prev, key, m) <= l.per_min);
        }
        assert forall|d: int| #[trigger] allowed_in_day(l, calls, key, d) <= l.per_day by {
            assert(allowed_in_day(l, prev, key, d) <= l.per_day);
        }
        assert forall|m: int| m > b.minute implies #[trigger] allowed_in_minute(l, calls, key, m)
            == 0 by {
            assert(allowed_in_minute(l, prev, key, m) == 0);
        }
        assert forall|d: int| d > b.day implies #[trigger] allowed_in_day(l, calls, key, d)
            == 0 by {
            assert(allowed_in_day(l, prev, key, d) == 0);
        }
    }
}

/// However the clients of a new limiter call, each is allowed at most so many searches in any one
/// minute, and at most so many in any one day, as long as time does not run backwards and the clients
/// are not so many that all are forgotten.
pub proof fn law_limits_hold_over_time(
    l: LimiterView,
    calls: Seq<(Seq<char>, int)>,
    key: Seq<char>,
    minute: int,
    day: int,
)
    requires
        l.buckets == Map::<Seq<char>, Bucket>::empty(),
        in_order(calls),
        nothing_forgotten(l, calls),
    ensures
        allowed_in_minute(l, calls, key, minute) <= l.per_min,
        allowed_in_day(l, calls, key, day) <= l.per_day,
{
    lemma_calls(l, calls, key);
}

/// A call is allowed exactly where fewer of its client's calls than the limits say were allowed before
/// in its minute and in its day. Neither calls that were refused nor those of other clients count.
pub proof fn law_allowed_within_the_limits(l: LimiterView, calls: Seq<(Seq<char>, int)>)
    requires
        l.buckets == Map::<Seq<char>, Bucket>::empty(),
        calls.len() > 0,
        in_order(calls),
        nothing_forgotten(l, calls),
    ensures
        ({
            let (key, now) = calls.last();
            last_allowed(l, calls) <==> allowed_in_minute(l, calls.drop_last(), key, minute_of(now))
                < l.per_min && allowed_in_day(l, calls.drop_last(), key, day_of(now)) < l.per_day
        }),
{
    let (key, now) = calls.last();
    let prev = calls.drop_last();
    assert(calls.last() == calls[calls.len() - 1]);
    assert forall|i: int, j: int| 0 <= i <= j < prev.len() implies #[trigger] prev[i].1
        <= #[trigger] prev[j].1 by {
        assert(calls[i].1 <= calls[j].1);
    }
    assert forall|i: int| 0 <= i < prev.len() implies 0 <= #[trigger] prev[i].1 <= u64::MAX
        - JST_OFFSET by {
        assert(0 <= calls[i].1);
    }
    lemma_calls(l, prev, key);
    if prev.len() > 0 {
        assert(prev.last() == calls[calls.len() - 2]);
        assert(calls[calls.len() - 2].1 <= calls[calls.len() - 1].1);
    }
    let b = bucket_of(after_calls(l, prev).buckets, key);
    let t = at_time(b, now);
    assert(t.minute_n == allowed_in_minute(l, prev, key, minute_of(now)));
    assert(t.day_n == allowed_in_day(l, prev, key, day_of(now)));
}

/// The clients that have called.
pub open spec fn callers(calls: Seq<(Seq<char>, int)>) -> Set<Seq<char>>
    decreases calls.len(),
{
    if calls.len() == 0 {
        Set::empty()
    } else {
        callers(calls.drop_last()).insert(calls.last().0)
    }
}

/// As long as a new limiter has been called by no more clients than it remembers, it has forgotten
/// none of them.
pub proof fn law_few_clients_are_not_forgotten(l: LimiterView, calls: Seq<(Seq<char>, int)>)
    requires
        l.buckets == Map::<Seq<char>, Bucket>::empty(),
        callers(calls).len() <= MAX_CLIENTS,
    ensures
        callers(calls).finite(),
        after_calls(l, calls).buckets.dom() == callers(calls),
        nothing_forgotten(l, calls),
    decreases calls.len(),
{
    lemma_callers_finite(calls);
    if calls.len() > 0 {
        let prev = calls.drop_last();
        lemma_callers_finite(prev);
        law_few_clients_are_not_forgotten(l, prev);
        assert(after_calls(l, calls).buckets.dom() =~= callers(calls));
    } else {
        assert(after_calls(l, calls).buckets.dom() =~= callers(calls));
    }
}

proof fn lemma_callers_finite(calls: Seq<(Seq<char>, int)>)
    ensures
        callers(calls).finite(),
    decreases calls.len(),
{
    if calls.len() > 0 {
        lemma_callers_finite(calls.drop_last());
    }
}

/// Whatever the headers hold, a client is named by lower-case hexadecimal digits, dots and colons, or
/// is `invalid`.
pub proof fn law_client_names_are_clean(
    x_forwarded_for: Option<Seq<char>>,
    x_real_ip: Option<Seq<char>>,
)
    ensures
        key_of(x_forwarded_for, x_real_ip) matches Some(k) ==> k == "invalid"@ || (k.len() > 0
            && forall|i: int|
            0 <= i < k.len() ==> is_address_char(#[trigger] k[i]) && !('A' <= k[i] <= 'F')),
{
    if let Some(k) = key_of(x_forwarded_for, x_real_ip) {
        let given = match x_forwarded_for {
            Some(v) => Some(text::before(v, ',')),
            None => x_real_ip,
        };
        let raw = text::trim(given->Some_0);
        if looks_like_address(raw) {
            assert forall|i: int| 0 <= i < k.len() implies is_address_char(#[trigger] k[i]) && !('A'
                <= k[i] <= 'F') by {
                assert(is_address_char(raw[i]));
                assert(k[i] == text::lower_char(raw[i]));
            }
        }
    }
}

/// A setting that is a number is taken as that number, and where it is none, or missing, the default is.
pub proof fn law_settings_are_numbers(n: u32, default: u32, other: Seq<char>)
    ensures
        setting(Some(text::decimal(n as nat)), default) == n,
        setting(None, default) == default,
        text::parse_u64(other) is None ==> setting(Some(other), default) == default,
        MAX_CLIENTS == 20_000,
        JST_OFFSET == 9 * 3600,
{
    text::law_numbers_are_read_back(n as u64);
}

/// A client is told by the first address that a header names, whole and in lower case; only where there is
/// no `X-Forwarded-For` the other header counts. What is blank names no one, and everything that is no
/// address is one client.
pub proof fn law_clients_are_told_by_their_address(
    address: Seq<char>,
    more: Seq<char>,
    x_real_ip: Option<Seq<char>>,
)
    requires
        !address.contains(','),
    ensures
        key_of(Some(address + seq![','] + more), x_real_ip) == key_of(Some(address), x_real_ip),
        key_of(None, Some(address)) == key_of(Some(address), x_real_ip),
        key_of(None, None) is None,
        !text::says_something(address) ==> key_of(Some(address), x_real_ip) is None,
        address.len() > 0 && vstd::utf8::encode_utf8(address).len() <= 45 && (forall|i: int|
            0 <= i < address.len() ==> text::is_hex_digit(#[trigger] address[i]) || address[i] == '.'
                || address[i] == ':') ==> key_of(Some(address), x_real_ip) == Some(text::lower(address)),
        key_of(Some(address), x_real_ip) matches Some(k) ==> k == "invalid"@ || k == text::lower(
            text::trim(address),
        ),
{
    let s = address + seq![','] + more;
    assert forall|k: int| 0 <= k < address.len() implies s[k] != ',' by {
        assert(address.contains(address[k]));
        assert(s[k] == address[k]);
    }
    assert(s[address.len() as int] == ',');
    text::lemma_find_is(s, ',', address.len() as int);
    assert(text::before(s, ',') =~= address);
    text::law_before_the_first(address, ',');
    let (a, b) = text::law_trimming_takes_white_space_only(address);
    let t = text::trim(address);
    if !text::says_something(address) && t.len() > 0 {
        assert(address[a.len() as int] == t[0]);
    }
    if address.len() > 0 && (forall|i: int|
        0 <= i < address.len() ==> text::is_hex_digit(#[trigger] address[i]) || address[i] == '.'
            || address[i] == ':') {
        assert forall|i: int| 0 <= i < address.len() implies is_address_char(
            #[trigger] address[i],
        ) && !text::is_white(address[i]) by {
            assert(text::is_hex_digit(address[i]) || address[i] == '.' || address[i] == ':');
            text::law_white_space(address[i]);
        }
        assert(!text::is_white(address[0]));
        assert(!text::is_white(address.last()));
        assert(text::trim(address) == address);
    }
}

/// A call is counted for the client that it comes from, by its whole name; and one from the same machine,
/// where that is limited, for a client of its own.
pub proof fn law_calls_are_counted_for_their_client(l: LimiterView, client: Seq<char>, now: int)
    ensures
        call_answer(l, Some(client), now) == answer(l, client, now),
        call_counted(l, Some(client), now) == counted(l, client, now),
        !l.local_unlimited ==> call_answer(l, None, now) == answer(l, "local"@, now) && call_counted(
            l,
            None,
            now,
        ) == counted(l, "local"@, now),
        counted(l, client, now).per_min == l.per_min,
        counted(l, client, now).per_day == l.per_day,
        counted(l, client, now).local_unlimited == l.local_unlimited,
{
}

/// Contracts speak of the whole of a limiter, of a name and of an answer.
proof fn law_limiters_are_seen_whole(l: Limiter, name: Option<&str>, r: Result<(), u64>)
    ensures
        l@.per_min == l.per_min && l@.per_day == l.per_day && l@.local_unlimited == l.local_unlimited,
        l@.buckets == l.buckets@,
        name is None <==> opt_str_view(name) is None,
        name matches Some(s) ==> opt_str_view(name) == Some(s@),
        r matches Err(w) ==> wait_of(r) == Err::<(), int>(w as int),
        r is Ok <==> wait_of(r) is Ok,
{
}

} // verus!
