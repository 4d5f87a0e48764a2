//! Admission control: each identifier may make a bounded number of requests
//! in each window of time.

use crate::keyed::{
    distinct, find_named, holds, lemma_added, lemma_named_in_map, lemma_replaced, named_map,
    position, Named,
};
use crate::primitives::{clock_elapsed, clock_origin, duration_nanos};
use crate::text::same_text;
use vstd::prelude::*;
use vstd::string::StringExecFns;

verus! {

/// One admission policy: how many requests a window admits, the tighter
/// burst cap, and how long a window lasts.
#[derive(Debug, Clone, Copy, PartialEq, Eq)]
pub struct RateLimitConfig {
    pub requests_per_minute: u16,
    pub burst_limit: u16,
    pub window_size_seconds: u16,
}

impl Default for RateLimitConfig {
    fn default() -> (config: Self)
        ensures
            config.requests_per_minute == 100,
            config.burst_limit == 20,
            config.window_size_seconds == 60,
    {
        RateLimitConfig { requests_per_minute: 100, burst_limit: 20, window_size_seconds: 60 }
    }
}

impl RateLimitConfig {
    /// Authentication and authorisation endpoints.
    pub fn auth() -> (config: Self)
        ensures
            config.requests_per_minute == 5,
            config.burst_limit == 3,
            config.window_size_seconds == 60,
    {
        RateLimitConfig { requests_per_minute: 5, burst_limit: 3, window_size_seconds: 60 }
    }

    /// Endpoints that read data.
    pub fn read() -> (config: Self)
        ensures
            config.requests_per_minute == 200,
            config.burst_limit == 50,
            config.window_size_seconds == 60,
    {
        RateLimitConfig { requests_per_minute: 200, burst_limit: 50, window_size_seconds: 60 }
    }

    /// Endpoints that write data.
    pub fn write() -> (config: Self)
        ensures
            config.requests_per_minute == 50,
            config.burst_limit == 10,
            config.window_size_seconds == 60,
    {
        RateLimitConfig { requests_per_minute: 50, burst_limit: 10, window_size_seconds: 60 }
    }

    /// The endpoint that issues API keys.
    pub fn api_key_generation() -> (config: Self)
        ensures
            config.requests_per_minute == 3,
            config.burst_limit == 1,
            config.window_size_seconds == 60,
    {
        RateLimitConfig { requests_per_minute: 3, burst_limit: 1, window_size_seconds: 60 }
    }

    /// Batch endpoints.
    pub fn batch() -> (config: Self)
        ensures
            config.requests_per_minute == 2,
            config.burst_limit == 1,
            config.window_size_seconds == 60,
    {
        RateLimitConfig { requests_per_minute: 2, burst_limit: 1, window_size_seconds: 60 }
    }

    /// The length of a window in nanoseconds.
    pub open spec fn window_nanos(self) -> int {
        self.window_size_seconds as int * 1_000_000_000
    }

    /// The number of requests that a window admits: the smaller of the two
    /// caps.
    pub open spec fn quota(self) -> int {
        if self.requests_per_minute <= self.burst_limit {
            self.requests_per_minute as int
        } else {
            self.burst_limit as int
        }
    }
}

/// What is remembered of one identifier: the requests admitted in its
/// current window, and when that window began, in nanoseconds on the
/// limiter's clock.
#[derive(Debug, Clone, Copy, PartialEq, Eq)]
pub struct RateLimitEntry {
    pub requests: u16,
    pub window_start: u128,
}

impl RateLimitEntry {
    /// The time that has gone by since the window began; none if the clock
    /// reads earlier than the window's start.
    pub open spec fn elapsed(self, now: u128) -> int {
        if now >= self.window_start {
            now - self.window_start
        } else {
            0
        }
    }

    /// Whether the window is still running at `now`.
    pub open spec fn is_live(self, config: RateLimitConfig, now: u128) -> bool {
        self.elapsed(now) < config.window_nanos()
    }
}

/// Why a request was not admitted.
#[derive(Debug, Clone, Copy, PartialEq, Eq)]
pub enum RateLimitError {
    LimitExceeded,
    BurstLimitExceeded,
}

impl RateLimitError {
    /// The sentence that belongs to each error.
    pub open spec fn message_text(self) -> Seq<char> {
        match self {
            RateLimitError::LimitExceeded => "Rate limit exceeded"@,
            RateLimitError::BurstLimitExceeded => "Burst limit exceeded"@,
        }
    }

    pub fn message(&self) -> (text: String)
        ensures
            text@ == self.message_text(),
    {
        match self {
            RateLimitError::LimitExceeded => String::from_str("Rate limit exceeded"),
            RateLimitError::BurstLimitExceeded => String::from_str("Burst limit exceeded"),
        }
    }
}

/// A limiter as the contracts see it: its policy and, for each identifier
/// it remembers, that identifier's entry.
pub struct LimiterState {
    pub config: RateLimitConfig,
    pub entries: Map<Seq<char>, RateLimitEntry>,
}

impl LimiterState {
    /// A limiter that remembers nothing yet.
    pub open spec fn fresh(config: RateLimitConfig) -> LimiterState {
        LimiterState { config, entries: Map::empty() }
    }

    /// Whether the identifier has an entry whose window is running at `now`.
    pub open spec fn tracks(self, id: Seq<char>, now: u128) -> bool {
        self.entries.contains_key(id) && self.entries[id].is_live(self.config, now)
    }

    /// The entries that are left once those whose window has run out at
    /// `now` are dropped.
    pub open spec fn purged(self, now: u128) -> Map<Seq<char>, RateLimitEntry> {
        Map::new(|id: Seq<char>| self.tracks(id, now), |id: Seq<char>| self.entries[id])
    }

    /// The entry that decides a request of `id` at `now`: its running
    /// window, or a window that begins now with nothing counted.
    pub open spec fn slot(self, id: Seq<char>, now: u128) -> RateLimitEntry {
        if self.tracks(id, now) {
            self.entries[id]
        } else {
            RateLimitEntry { requests: 0, window_start: now }
        }
    }

    /// Whether a request of `id` at `now` is admitted. The burst cap is
    /// looked at first.
    pub open spec fn verdict(self, id: Seq<char>, now: u128) -> Result<(), RateLimitError> {
        let slot = self.slot(id, now);
        if slot.requests >= self.config.burst_limit {
            Err(RateLimitError::BurstLimitExceeded)
        } else if slot.requests >= self.config.requests_per_minute {
            Err(RateLimitError::LimitExceeded)
        } else {
            Ok(())
        }
    }

    /// The limiter after a request of `id` at `now`: run-out windows are
    /// gone, and the identifier's entry counts the request if it was
    /// admitted.
    pub open spec fn after_check(self, id: Seq<char>, now: u128) -> LimiterState {
        let slot = self.slot(id, now);
        let counted = if self.verdict(id, now) is Ok {
            RateLimitEntry { requests: (slot.requests + 1) as u16, window_start: slot.window_start }
        } else {
            slot
        };
        LimiterState { config: self.config, entries: self.purged(now).insert(id, counted) }
    }

    /// How many more requests of `id` the running window admits; the whole
    /// per-window cap if no window is running.
    pub open spec fn remaining(self, id: Seq<char>, now: u128) -> int {
        if self.tracks(id, now) {
            let used = self.entries[id].requests as int;
            let by_rate = if self.config.requests_per_minute >= used {
                self.config.requests_per_minute - used
            } else {
                0
            };
            let by_burst = if self.config.burst_limit >= used {
                self.config.burst_limit - used
            } else {
                0
            };
            if by_rate <= by_burst {
                by_rate
            } else {
                by_burst
            }
        } else {
            self.config.requests_per_minute as int
        }
    }

    /// The time that is left of the running window of `id`.
    pub open spec fn reset_in(self, id: Seq<char>, now: u128) -> Option<u128> {
        if self.tracks(id, now) {
            Some((self.config.window_nanos() - self.entries[id].elapsed(now)) as u128)
        } else {
            None
        }
    }
}

impl LimiterState {
    /// The limiter after requests of one identifier at the given readings,
    /// one after the other.
    pub open spec fn after_checks(self, id: Seq<char>, times: Seq<u128>) -> LimiterState
        decreases times.len(),
    {
        if times.len() == 0 {
            self
        } else {
            self.after_checks(id, times.drop_last()).after_check(id, times.last())
        }
    }
}

/// Readings of a clock that does not run backwards.
pub open spec fn nondecreasing(times: Seq<u128>) -> bool {
    forall|i: int, j: int|
        0 <= i <= j < times.len() ==> #[trigger] times[i] <= #[trigger] times[j]
}

/// Requests that all fall into the window which the first of them opens.
pub open spec fn within_one_window(config: RateLimitConfig, times: Seq<u128>) -> bool {
    &&& nondecreasing(times)
    &&& forall|i: int|
        1 <= i < times.len() ==> #[trigger] times[i] - times[0] < config.window_nanos()
}

proof fn lemma_count_within_window(state: LimiterState, id: Seq<char>, times: Seq<u128>, n: int)
    requires
        1 <= n <= times.len(),
        !state.tracks(id, times[0]),
        within_one_window(state.config, times),
    ensures
        state.after_checks(id, times.take(n)).config == state.config,
        state.after_checks(id, times.take(n)).entries.contains_key(id),
        state.after_checks(id, times.take(n)).entries[id].window_start == times[0],
        state.after_checks(id, times.take(n)).entries[id].requests == if n
            <= state.config.quota() {
            n
        } else {
            state.config.quota()
        },
    decreases n,
{
    assert(times.take(n).drop_last() =~= times.take(n - 1));
    if n == 1 {
        assert(state.after_checks(id, times.take(0)) == state);
    } else {
        lemma_count_within_window(state, id, times, n - 1);
    }
}

/// Of the consecutive requests of an identifier that the limiter does not
/// track, all falling into the window that the first one opens, the first
/// `quota` are admitted and every later one is refused.
pub proof fn law_fresh_identifier_gets_its_quota(
    state: LimiterState,
    id: Seq<char>,
    times: Seq<u128>,
    k: int,
)
    requires
        0 <= k < times.len(),
        !state.tracks(id, times[0]),
        within_one_window(state.config, times),
    ensures
        state.after_checks(id, times.take(k)).verdict(id, times[k]) is Ok <==> k
            < state.config.quota(),
{
    if k > 0 {
        lemma_count_within_window(state, id, times, k);
    }
}

/// A request of one identifier leaves every other identifier where it
/// stood, as seen at any reading that is not earlier than the request.
pub proof fn law_identifiers_are_independent(
    state: LimiterState,
    id: Seq<char>,
    other: Seq<char>,
    now: u128,
    later: u128,
)
    requires
        id != other,
        now <= later,
    ensures
        state.after_check(id, now).slot(other, later) == state.slot(other, later),
        state.after_check(id, now).verdict(other, later) == state.verdict(other, later),
        state.after_check(id, now).remaining(other, later) == state.remaining(other, later),
        state.after_check(id, now).reset_in(other, later) == state.reset_in(other, later),
{
}

/// However often one identifier asks, and whatever it is told, another
/// identifier is decided as if the first had never asked.
pub proof fn law_exhausting_one_spares_the_other(
    state: LimiterState,
    id: Seq<char>,
    other: Seq<char>,
    times: Seq<u128>,
    later: u128,
)
    requires
        id != other,
        forall|i: int| 0 <= i < times.len() ==> #[trigger] times[i] <= later,
    ensures
        state.after_checks(id, times).verdict(other, later) == state.verdict(other, later),
        state.after_checks(id, times).remaining(other, later) == state.remaining(other, later),
    decreases times.len(),
{
    if times.len() > 0 {
        let front = times.drop_last();
        law_exhausting_one_spares_the_other(state, id, other, front, later);
        law_identifiers_are_independent(
            state.after_checks(id, front),
            id,
            other,
            times.last(),
            later,
        );
    }
}

/// Once the window of an identifier has run out, what the identifier used
/// up in it is forgotten: its next request is admitted wherever the policy
/// admits any request at all, and opens a new window.
pub proof fn law_window_reset(state: LimiterState, id: Seq<char>, now: u128)
    requires
        state.entries.contains_key(id),
        state.entries[id].elapsed(now) >= state.config.window_nanos(),
    ensures
        state.verdict(id, now) is Ok <==> state.config.quota() >= 1,
        state.verdict(id, now) is Ok ==> state.after_check(id, now).entries[id] == (RateLimitEntry {
            requests: 1,
            window_start: now,
        }),
{
}

/// While a window is running, the count of what is left and the decision
/// on the next request agree: the request is admitted exactly if something
/// is left, and an admitted request leaves one less.
pub proof fn law_remaining_tells_the_verdict(state: LimiterState, id: Seq<char>, now: u128)
    requires
        state.tracks(id, now),
    ensures
        state.verdict(id, now) is Ok <==> state.remaining(id, now) > 0,
        state.verdict(id, now) is Ok ==> state.after_check(id, now).remaining(id, now)
            == state.remaining(id, now) - 1,
        state.verdict(id, now) is Err ==> state.after_check(id, now).remaining(id, now) == 0,
{
}

type Slot = Named<RateLimitEntry>;

fn is_live_at(config: &RateLimitConfig, entry: &RateLimitEntry, now: u128) -> (r: bool)
    ensures
        r == entry.is_live(*config, now),
{
    let elapsed: u128 = if now >= entry.window_start {
        now - entry.window_start
    } else {
        0
    };
    elapsed < (config.window_size_seconds as u128) * 1_000_000_000
}

/// `kept` holds exactly the slots of `all` from position `n` on whose window
/// is running at `now`: `from` says where each kept slot stood, `to` where
/// each such slot went.
spec fn keeps_live(
    all: Seq<Slot>,
    n: int,
    kept: Seq<Slot>,
    from: Seq<int>,
    to: Map<int, int>,
    config: RateLimitConfig,
    now: u128,
) -> bool {
    &&& from.len() == kept.len()
    &&& forall|j: int|
        0 <= j < kept.len() ==> n <= #[trigger] from[j] < all.len() && kept[j] == all[from[j]]
            && all[from[j]].item.is_live(config, now)
    &&& forall|a: int, b: int| 0 <= a < b < kept.len() ==> #[trigger] from[a] != #[trigger] from[b]
    &&& forall|i: int|
        n <= i < all.len() && (#[trigger] all[i]).item.is_live(config, now) ==> to.contains_key(i)
            && 0 <= to[i] < kept.len() && from[to[i]] == i
}

proof fn lemma_kept_is_purged(
    all: Seq<Slot>,
    kept: Seq<Slot>,
    from: Seq<int>,
    to: Map<int, int>,
    config: RateLimitConfig,
    now: u128,
)
    requires
        distinct(all),
        keeps_live(all, 0, kept, from, to, config, now),
    ensures
        distinct(kept),
        named_map(kept) == (LimiterState { config, entries: named_map(all) }).purged(now),
{
    let state = LimiterState { config, entries: named_map(all) };
    assert forall|a: int, b: int| 0 <= a < b < kept.len() implies kept[a].name@
        != kept[b].name@ by {
        // the two stood at different places of `all`
        assert(from[a] != from[b]);
    }
    assert forall|id: Seq<char>| #[trigger]
        named_map(kept).contains_key(id) == state.purged(now).contains_key(id) by {
        if holds(kept, id) {
            let j = position(kept, id);
            lemma_named_in_map(all, from[j]);
        }
        if state.tracks(id, now) {
            let i = position(all, id);
            lemma_named_in_map(all, i);
        }
    }
    assert forall|id: Seq<char>| #[trigger]
        named_map(kept).contains_key(id) implies named_map(kept)[id] == state.purged(now)[id] by {
        let j = position(kept, id);
        lemma_named_in_map(kept, j);
        lemma_named_in_map(all, from[j]);
    }
}

/// Moves the slots whose window is running at `now` into a new list and
/// drops the others.
fn keep_live(slots: Vec<Slot>, config: &RateLimitConfig, now: u128) -> (kept: Vec<Slot>)
    requires
        distinct(slots@),
    ensures
        distinct(kept@),
        named_map(kept@) == (LimiterState { config: *config, entries: named_map(slots@) }).purged(
            now,
        ),
{
    let ghost all = slots@;
    let ghost mut from: Seq<int> = Seq::empty();
    let ghost mut to: Map<int, int> = Map::empty();
    let mut rest = slots;
    let mut kept: Vec<Slot> = Vec::new();
    while rest.len() > 0
        invariant
            rest@.len() <= all.len(),
            rest@ == all.take(rest@.len() as int),
            keeps_live(all, rest@.len() as int, kept@, from, to, *config, now),
        decreases rest.len(),
    {
        let ghost n = rest@.len() - 1;
        let ghost before = kept@;
        let slot = rest.pop().unwrap();
        if is_live_at(config, &slot.item, now) {
            kept.push(slot);
            proof {
                from = from.push(n);
                to = to.insert(n, before.len() as int);
            }
        }
    }
    proof {
        lemma_kept_is_purged(all, kept@, from, to, *config, now);
    }
    kept
}

/// Admission control for one policy. Time is read in nanoseconds from a
/// monotonic clock that starts when the limiter is made; the methods whose
/// name ends in `_at` take the reading from the caller instead.
#[derive(Debug)]
pub struct RateLimiter {
    config: RateLimitConfig,
    slots: Vec<Slot>,
    origin: std::time::Instant,
}

impl View for RateLimiter {
    type V = LimiterState;

    closed spec fn view(&self) -> LimiterState {
        LimiterState { config: self.config, entries: named_map(self.slots@) }
    }
}

impl RateLimiter {
    #[verifier::type_invariant]
    spec fn well_formed(self) -> bool {
        distinct(self.slots@)
    }

    /// A limiter for the policy, with no identifier on record. Its clock
    /// starts now.
    pub fn new(config: RateLimitConfig) -> (limiter: Self)
        ensures
            limiter@ == LimiterState::fresh(config),
    {
        let limiter = RateLimiter { config, slots: Vec::new(), origin: clock_origin() };
        assert(limiter@.entries =~= Map::empty());
        limiter
    }

    /// A limiter for the standard policy: a hundred requests a minute, no
    /// more than twenty in a burst.
    pub fn with_default_config() -> (limiter: Self)
        ensures
            limiter@ == LimiterState::fresh(
                (RateLimitConfig {
                    requests_per_minute: 100,
                    burst_limit: 20,
                    window_size_seconds: 60,
                }),
            ),
    {
        RateLimiter::new(RateLimitConfig::default())
    }

    /// The policy of this limiter.
    pub fn config(&self) -> (config: RateLimitConfig)
        ensures
            config == self@.config,
    {
        self.config
    }

    /// What is on record for `identifier`, whether its window is still
    /// running or not.
    pub fn entry(&self, identifier: &str) -> (entry: Option<RateLimitEntry>)
        ensures
            entry == if self@.entries.contains_key(identifier@) {
                Some(self@.entries[identifier@])
            } else {
                None
            },
    {
        proof {
            use_type_invariant(self);
        }
        match find_named(&self.slots, identifier) {
            Some(i) => {
                proof {
                    lemma_named_in_map(self.slots@, i as int);
                }
                Some(self.slots[i].item)
            },
            None => None,
        }
    }

    fn now(&self) -> u128 {
        let span = clock_elapsed(&self.origin);
        duration_nanos(&span)
    }

    /// Decides a request of `identifier` at the present reading of the
    /// clock, and counts it if it is admitted.
    pub fn check_rate_limit(&mut self, identifier: &str) -> (r: Result<(), RateLimitError>)
        ensures
            exists|now: u128|
                r == old(self)@.verdict(identifier@, now) && final(self)@ == #[trigger] old(
                    self,
                )@.after_check(identifier@, now),
    {
        let now = self.now();
        self.check_rate_limit_at(identifier, now)
    }

    /// Decides a request of `identifier` at the reading `now`, and counts
    /// it if it is admitted.
    ///
    /// First every entry whose window has run out is dropped. The
    /// identifier then has its running window or begins one. The request is
    /// refused with `BurstLimitExceeded` if the window has used up the burst
    /// cap, else with `LimitExceeded` if it has used up the per-window cap,
    /// and else admitted and counted.
    pub fn check_rate_limit_at(&mut self, identifier: &str, now: u128) -> (r: Result<
        (),
        RateLimitError,
    >)
        ensures
            r == old(self)@.verdict(identifier@, now),
            final(self)@ == old(self)@.after_check(identifier@, now),
    {
        proof {
            use_type_invariant(&*self);
        }
        let config = self.config;
        let mut slots: Vec<Slot> = Vec::new();
        core::mem::swap(&mut slots, &mut self.slots);
        let mut kept = keep_live(slots, &config, now);
        let found = find_named(&kept, identifier);
        assert(named_map(kept@).contains_key(identifier@) == old(self)@.tracks(identifier@, now));
        let mut entry = match found {
            Some(i) => {
                proof {
                    lemma_named_in_map(kept@, i as int);
                }
                kept[i].item
            },
            None => RateLimitEntry { requests: 0, window_start: now },
        };
        if !is_live_at(&config, &entry, now) {
            entry = RateLimitEntry { requests: 0, window_start: now };
        }
        let r = if entry.requests >= config.burst_limit {
            Err(RateLimitError::BurstLimitExceeded)
        } else if entry.requests >= config.requests_per_minute {
            Err(RateLimitError::LimitExceeded)
        } else {
            entry.requests = entry.requests + 1;
            Ok(())
        };
        let slot = Named { name: String::from_str(identifier), item: entry };
        match found {
            Some(i) => {
                proof {
                    lemma_replaced(kept@, i as int, slot);
                }
                kept.set(i, slot);
            },
            None => {
                proof {
                    lemma_added(kept@, slot);
                }
                kept.push(slot);
            },
        }
        self.slots = kept;
        r
    }

    /// How many more requests of `identifier` are admitted at the present
    /// reading of the clock.
    pub fn get_remaining_requests(&self, identifier: &str) -> (left: u16)
        ensures
            exists|now: u128| left == #[trigger] self@.remaining(identifier@, now),
    {
        let now = self.now();
        self.get_remaining_requests_at(identifier, now)
    }

    /// How many more requests of `identifier` are admitted at `now`: the
    /// per-window cap if no window of it is running, else what the tighter
    /// of the two caps leaves, and never less than nothing.
    pub fn get_remaining_requests_at(&self, identifier: &str, now: u128) -> (left: u16)
        ensures
            left == self@.remaining(identifier@, now),
    {
        proof {
            use_type_invariant(self);
        }
        match find_named(&self.slots, identifier) {
            Some(i) => {
                proof {
                    lemma_named_in_map(self.slots@, i as int);
                }
                let entry = self.slots[i].item;
                if !is_live_at(&self.config, &entry, now) {
                    return self.config.requests_per_minute;
                }
                let by_rate: u16 = if self.config.requests_per_minute >= entry.requests {
                    self.config.requests_per_minute - entry.requests
                } else {
                    0
                };
                let by_burst: u16 = if self.config.burst_limit >= entry.requests {
                    self.config.burst_limit - entry.requests
                } else {
                    0
                };
                if by_rate <= by_burst {
                    by_rate
                } else {
                    by_burst
                }
            },
            None => self.config.requests_per_minute,
        }
    }

    /// The nanoseconds that are left of the running window of `identifier`
    /// at the present reading of the clock.
    pub fn get_reset_time(&self, identifier: &str) -> (left: Option<u128>)
        ensures
            exists|now: u128| left == #[trigger] self@.reset_in(identifier@, now),
    {
        let now = self.now();
        self.get_reset_time_at(identifier, now)
    }

    /// The nanoseconds that are left of the running window of `identifier`
    /// at `now`; `None` if no window of it is running.
    pub fn get_reset_time_at(&self, identifier: &str, now: u128) -> (left: Option<u128>)
        ensures
            left == self@.reset_in(identifier@, now),
    {
        proof {
            use_type_invariant(self);
        }
        match find_named(&self.slots, identifier) {
            Some(i) => {
                proof {
                    lemma_named_in_map(self.slots@, i as int);
                }
                let entry = self.slots[i].item;
                let window: u128 = (self.config.window_size_seconds as u128) * 1_000_000_000;
                let elapsed: u128 = if now >= entry.window_start {
                    now - entry.window_start
                } else {
                    0
                };
                if elapsed < window {
                    Some(window - elapsed)
                } else {
                    None
                }
            },
            None => None,
        }
    }
}

/// The category whose policy stands in for every category without one.
pub open spec fn default_category() -> Seq<char> {
    "default"@
}

/// The category whose policy is applied to requests of `category`: the
/// category itself if it has a policy, the default category if not.
pub open spec fn resolve_category(
    policies: Map<Seq<char>, LimiterState>,
    category: Seq<char>,
) -> Seq<char> {
    if policies.contains_key(category) {
        category
    } else {
        default_category()
    }
}

/// The six policies that a registry starts with, none of them with any
/// identifier on record.
pub open spec fn standard_policies() -> Map<Seq<char>, LimiterState> {
    Map::<Seq<char>, LimiterState>::empty().insert(
        default_category(),
        LimiterState::fresh(
            (RateLimitConfig { requests_per_minute: 100, burst_limit: 20, window_size_seconds: 60 }),
        ),
    ).insert(
        "auth"@,
        LimiterState::fresh(
            (RateLimitConfig { requests_per_minute: 5, burst_limit: 3, window_size_seconds: 60 }),
        ),
    ).insert(
        "read"@,
        LimiterState::fresh(
            (RateLimitConfig { requests_per_minute: 200, burst_limit: 50, window_size_seconds: 60 }),
        ),
    ).insert(
        "write"@,
        LimiterState::fresh(
            (RateLimitConfig { requests_per_minute: 50, burst_limit: 10, window_size_seconds: 60 }),
        ),
    ).insert(
        "api_key_gen"@,
        LimiterState::fresh(
            (RateLimitConfig { requests_per_minute: 3, burst_limit: 1, window_size_seconds: 60 }),
        ),
    ).insert(
        "batch"@,
        LimiterState::fresh(
            (RateLimitConfig { requests_per_minute: 2, burst_limit: 1, window_size_seconds: 60 }),
        ),
    )
}

spec fn policies(limiters: Seq<Named<RateLimiter>>) -> Map<Seq<char>, LimiterState> {
    named_map(limiters).map_values(|limiter: RateLimiter| limiter@)
}

fn put_limiter(limiters: &mut Vec<Named<RateLimiter>>, category: String, config: RateLimitConfig)
    requires
        distinct(old(limiters)@),
    ensures
        distinct(final(limiters)@),
        policies(final(limiters)@) == policies(old(limiters)@).insert(
            category@,
            LimiterState::fresh(config),
        ),
{
    let found = find_named(limiters, category.as_str());
    let named = Named { name: category, item: RateLimiter::new(config) };
    match found {
        Some(i) => {
            proof {
                lemma_replaced(limiters@, i as int, named);
            }
            limiters.set(i, named);
        },
        None => {
            proof {
                lemma_added(limiters@, named);
            }
            limiters.push(named);
        },
    }
}

/// The policies of the service by request category. A category without a
/// policy of its own is served by the policy of the category `default`,
/// which is always there.
#[derive(Debug)]
pub struct RateLimitManager {
    fallback: RateLimiter,
    others: Vec<Named<RateLimiter>>,
}

impl View for RateLimitManager {
    type V = Map<Seq<char>, LimiterState>;

    closed spec fn view(&self) -> Map<Seq<char>, LimiterState> {
        policies(self.others@).insert(default_category(), self.fallback@)
    }
}

impl RateLimitManager {
    #[verifier::type_invariant]
    spec fn well_formed(self) -> bool {
        distinct(self.others@) && !holds(self.others@, default_category())
    }

    /// A registry with the six standard policies.
    pub fn new() -> (manager: Self)
        ensures
            manager@ == standard_policies(),
    {
        let mut others: Vec<Named<RateLimiter>> = Vec::new();
        put_limiter(&mut others, String::from_str("auth"), RateLimitConfig::auth());
        put_limiter(&mut others, String::from_str("read"), RateLimitConfig::read());
        put_limiter(&mut others, String::from_str("write"), RateLimitConfig::write());
        put_limiter(
            &mut others,
            String::from_str("api_key_gen"),
            RateLimitConfig::api_key_generation(),
        );
        put_limiter(&mut others, String::from_str("batch"), RateLimitConfig::batch());
        proof {
            reveal_strlit("default");
            reveal_strlit("auth");
            reveal_strlit("read");
            reveal_strlit("write");
            reveal_strlit("api_key_gen");
            reveal_strlit("batch");
            // none of the five is as long as the name of the default category
            assert("auth"@.len() == 4 && "read"@.len() == 4 && "write"@.len() == 5);
            assert("api_key_gen"@.len() == 11 && "batch"@.len() == 5);
            assert(!policies(others@).contains_key(default_category()));
        }
        RateLimitManager { fallback: RateLimiter::with_default_config(), others }
    }

    fn index_of(&self, category: &str) -> (found: Option<usize>)
        ensures
            self@.contains_key(resolve_category(self@, category@)),
            match found {
                Some(i) => i < self.others@.len() && self.others@[i as int].name@
                    == resolve_category(self@, category@) && self.others@[i as int].name@
                    != default_category() && self.others@[i as int].item@
                    == self@[resolve_category(self@, category@)],
                None => resolve_category(self@, category@) == default_category() && self.fallback@
                    == self@[resolve_category(self@, category@)],
            },
    {
        proof {
            use_type_invariant(self);
        }
        let found = find_named(&self.others, category);
        proof {
            if let Some(i) = found {
                lemma_named_in_map(self.others@, i as int);
            }
        }
        found
    }

    /// The limiter that serves a category.
    pub fn get_limiter(&self, category: &str) -> (limiter: &RateLimiter)
        ensures
            self@.contains_key(resolve_category(self@, category@)),
            limiter@ == self@[resolve_category(self@, category@)],
    {
        match self.index_of(category) {
            Some(i) => &self.others[i].item,
            None => &self.fallback,
        }
    }

    /// Gives a category a policy of its own, with no identifier on record.
    /// A policy that the category had is replaced.
    pub fn add_limiter(&mut self, category: String, config: RateLimitConfig)
        ensures
            final(self)@ == old(self)@.insert(category@, LimiterState::fresh(config)),
    {
        proof {
            use_type_invariant(&*self);
        }
        if same_text(category.as_str(), "default") {
            self.fallback = RateLimiter::new(config);
        } else {
            let mut others: Vec<Named<RateLimiter>> = Vec::new();
            core::mem::swap(&mut others, &mut self.others);
            put_limiter(&mut others, category, config);
            assert(!policies(others@).contains_key(default_category()));
            self.others = others;
        }
    }

    /// Decides a request of `identifier` under the policy that serves
    /// `category`, at the present reading of that policy's clock, and
    /// counts the request if it is admitted.
    pub fn check_rate_limit(&mut self, category: &str, identifier: &str) -> (r: Result<
        (),
        RateLimitError,
    >)
        ensures
            old(self)@.contains_key(resolve_category(old(self)@, category@)),
            exists|now: u128|
                r == old(self)@[resolve_category(old(self)@, category@)].verdict(identifier@, now)
                    && final(self)@ == old(self)@.insert(
                    resolve_category(old(self)@, category@),
                    #[trigger] old(self)@[resolve_category(old(self)@, category@)].after_check(
                        identifier@,
                        now,
                    ),
                ),
    {
        let now = self.get_limiter(category).now();
        self.check_rate_limit_at(category, identifier, now)
    }

    /// Decides a request of `identifier` under the policy that serves
    /// `category`, at the reading `now`, and counts the request if it is
    /// admitted. No other policy changes.
    pub fn check_rate_limit_at(&mut self, category: &str, identifier: &str, now: u128) -> (r:
        Result<(), RateLimitError>)
        ensures
            old(self)@.contains_key(resolve_category(old(self)@, category@)),
            r == old(self)@[resolve_category(old(self)@, category@)].verdict(identifier@, now),
            final(self)@ == old(self)@.insert(
                resolve_category(old(self)@, category@),
                old(self)@[resolve_category(old(self)@, category@)].after_check(identifier@, now),
            ),
    {
        proof {
            use_type_invariant(&*self);
        }
        match self.index_of(category) {
            Some(i) => {
                let mut others: Vec<Named<RateLimiter>> = Vec::new();
                core::mem::swap(&mut others, &mut self.others);
                let ghost before = others@;
                let r = others[i].item.check_rate_limit_at(identifier, now);
                proof {
                    lemma_replaced(before, i as int, others@[i as int]);
                }
                self.others = others;
                r
            },
            None => {
                let mut limiter = RateLimiter::new(self.fallback.config());
                core::mem::swap(&mut limiter, &mut self.fallback);
                let r = limiter.check_rate_limit_at(identifier, now);
                self.fallback = limiter;
                r
            },
        }
    }
}

impl Default for RateLimitManager {
    fn default() -> (manager: Self)
        ensures
            manager@ == standard_policies(),
    {
        RateLimitManager::new()
    }
}

} // verus!
