//! Per-attestor rate limiting of attestation submissions.
//!
//! Each attestor may submit at most `max_submissions` attestations per window of
//! `window_length` ledgers. A global configuration applies unless the attestor has an
//! override of its own. The limiter holds, as plain values, what the contract keeps in
//! storage: the global configuration, the overrides and the per-attestor state, keyed by
//! the attestor's address; the current ledger sequence number is passed in.

use vstd::prelude::*;

use crate::errors::{AnchorKitError, ErrorCode};

verus! {

/// Rate limit configuration.
#[derive(Clone, Copy, Debug, PartialEq, Eq, Structural)]
pub struct RateLimitConfig {
    /// Maximum number of submissions allowed per window.
    pub max_submissions: u32,
    /// Length of the rate limit window in ledgers.
    pub window_length: u32,
}

/// Per-attestor rate limit state.
#[derive(Clone, Copy, Debug, PartialEq, Eq, Structural)]
pub struct RateLimitState {
    /// Number of submissions in the current window.
    pub submission_count: u32,
    /// Ledger number at which the current window started.
    pub window_start_ledger: u32,
    /// Total requests across all windows (never reset).
    pub total_requests: u64,
}

// ── A table keyed by attestor address ────────────────────────────────────────

/// The map held by a list of (key, value) entries.
pub open spec fn entries_map<V>(s: Seq<(String, V)>) -> Map<Seq<char>, V>
    decreases s.len(),
{
    if s.len() == 0 {
        Map::empty()
    } else {
        entries_map(s.drop_last()).insert(s.last().0@, s.last().1)
    }
}

/// No key occurs twice.
pub open spec fn distinct_keys<V>(s: Seq<(String, V)>) -> bool {
    forall|i: int, j: int| 0 <= i < j < s.len() ==> (#[trigger] s[i]).0@ != (#[trigger] s[j]).0@
}

proof fn lemma_entries_map_absent<V>(s: Seq<(String, V)>, k: Seq<char>)
    requires
        forall|i: int| 0 <= i < s.len() ==> (#[trigger] s[i]).0@ != k,
    ensures
        !entries_map(s).contains_key(k),
    decreases s.len(),
{
    if s.len() > 0 {
        lemma_entries_map_absent(s.drop_last(), k);
    }
}

proof fn lemma_entries_map_index<V>(s: Seq<(String, V)>, i: int)
    requires
        distinct_keys(s),
        0 <= i < s.len(),
    ensures
        entries_map(s).contains_key(s[i].0@),
        entries_map(s)[s[i].0@] == s[i].1,
    decreases s.len(),
{
    if i < s.len() - 1 {
        lemma_entries_map_index(s.drop_last(), i);
    }
}

proof fn lemma_entries_map_update<V>(s: Seq<(String, V)>, i: int, v: V)
    requires
        distinct_keys(s),
        0 <= i < s.len(),
    ensures
        entries_map(s.update(i, (s[i].0, v))) == entries_map(s).insert(s[i].0@, v),
    decreases s.len(),
{
    let t = s.update(i, (s[i].0, v));
    if i == s.len() - 1 {
        assert(t.drop_last() =~= s.drop_last());
        lemma_entries_map_absent(s.drop_last(), s[i].0@);
        assert(entries_map(s).insert(s[i].0@, v) =~= entries_map(s.drop_last()).insert(s[i].0@, v));
    } else {
        lemma_entries_map_update(s.drop_last(), i, v);
        assert(t.drop_last() =~= s.drop_last().update(i, (s[i].0, v)));
        assert(s.last().0@ != s[i].0@);
        assert(entries_map(t) =~= entries_map(s).insert(s[i].0@, v));
    }
}

/// A small map from attestor addresses to values, kept as a list without repeated keys.
struct AddressTable<V> {
    entries: Vec<(String, V)>,
}

impl<V: Copy> AddressTable<V> {
    spec fn wf(&self) -> bool {
        distinct_keys(self.entries@)
    }

    spec fn view(&self) -> Map<Seq<char>, V> {
        entries_map(self.entries@)
    }

    fn new() -> (t: Self)
        ensures
            t.wf(),
            t.view() == Map::<Seq<char>, V>::empty(),
    {
        AddressTable { entries: Vec::new() }
    }

    fn position(&self, key: &String) -> (r: Option<usize>)
        requires
            self.wf(),
        ensures
            r matches Some(i) ==> i < self.entries@.len() && self.entries@[i as int].0@ == key@,
            r is None ==> !self.view().contains_key(key@),
    {
        let n = self.entries.len();
        let mut i: usize = 0;
        while i < n
            invariant
                n == self.entries@.len(),
                i <= n,
                forall|k: int| 0 <= k < i ==> (#[trigger] self.entries@[k]).0@ != key@,
            decreases n - i,
        {
            if self.entries[i].0 == *key {
                return Some(i);
            }
            i = i + 1;
        }
        proof {
            lemma_entries_map_absent(self.entries@, key@);
        }
        None
    }

    fn get(&self, key: &String) -> (r: Option<V>)
        requires
            self.wf(),
        ensures
            r == (if self.view().contains_key(key@) {
                Some(self.view()[key@])
            } else {
                None::<V>
            }),
    {
        match self.position(key) {
            Some(i) => {
                proof {
                    lemma_entries_map_index(self.entries@, i as int);
                }
                Some(self.entries[i].1)
            },
            None => None,
        }
    }

    fn set(&mut self, key: String, value: V)
        requires
            old(self).wf(),
        ensures
            final(self).wf(),
            final(self).view() == old(self).view().insert(key@, value),
    {
        match self.position(&key) {
            Some(i) => {
                proof {
                    lemma_entries_map_update(self.entries@, i as int, value);
                }
                let ghost old_entries = self.entries@;
                let k = self.entries[i].0.clone();
                self.entries.set(i, (k, value));
                assert(self.entries@ == old_entries.update(i as int, (old_entries[i as int].0, value)));
            },
            None => {
                let ghost old_entries = self.entries@;
                self.entries.push((key, value));
                assert(self.entries@.drop_last() =~= old_entries);
                assert forall|i: int, j: int|
                    0 <= i < j < self.entries@.len() implies (#[trigger] self.entries@[i]).0@
                    != (#[trigger] self.entries@[j]).0@ by {
                    if j == self.entries@.len() - 1 {
                        assert(old_entries[i].0@ != key@) by {
                            if old_entries[i].0@ == key@ {
                                lemma_entries_map_index(old_entries, i);
                            }
                        }
                    }
                }
            },
        }
    }
}

// ── Specification of the limiter ─────────────────────────────────────────────

/// What the limiter holds: the global configuration if one was set, the per-attestor
/// overrides, and the per-attestor state.
pub struct RateLimiterView {
    pub global: Option<RateLimitConfig>,
    pub overrides: Map<Seq<char>, RateLimitConfig>,
    pub states: Map<Seq<char>, RateLimitState>,
}

/// The configuration used when none was set: 10 submissions per 100 ledgers.
pub open spec fn default_config() -> RateLimitConfig {
    RateLimitConfig { max_submissions: 10, window_length: 100 }
}

/// The state of an attestor not seen before: an empty window starting now.
pub open spec fn fresh_state(current_ledger: u32) -> RateLimitState {
    RateLimitState { submission_count: 0, window_start_ledger: current_ledger, total_requests: 0 }
}

/// The global configuration, or the default.
pub open spec fn global_config(v: RateLimiterView) -> RateLimitConfig {
    match v.global {
        Some(c) => c,
        None => default_config(),
    }
}

/// The configuration that applies to an attestor: its override if set, else the global one.
pub open spec fn effective_config(v: RateLimiterView, attestor: Seq<char>) -> RateLimitConfig {
    if v.overrides.contains_key(attestor) {
        v.overrides[attestor]
    } else {
        global_config(v)
    }
}

/// The state of an attestor, or a fresh one.
pub open spec fn state_of(v: RateLimiterView, attestor: Seq<char>, current_ledger: u32) -> RateLimitState {
    if v.states.contains_key(attestor) {
        v.states[attestor]
    } else {
        fresh_state(current_ledger)
    }
}

/// The window has run out: at least `window_length` ledgers have passed since it started
/// (no time has passed when the start lies ahead).
pub open spec fn window_expired(current_ledger: u32, window_start_ledger: u32, window_length: u32) -> bool {
    (if current_ledger >= window_start_ledger {
        current_ledger - window_start_ledger
    } else {
        0
    }) >= window_length
}

/// One submission attempt: an expired window restarts at the current ledger; every
/// attempt counts in `total_requests`; the attempt is allowed, and counted in the window,
/// only while the window holds fewer than `max_submissions`.
pub open spec fn rate_limit_step(state: RateLimitState, config: RateLimitConfig, current_ledger: u32) -> (
    RateLimitState,
    bool,
) {
    let s = if window_expired(current_ledger, state.window_start_ledger, config.window_length) {
        RateLimitState { submission_count: 0, window_start_ledger: current_ledger, ..state }
    } else {
        state
    };
    let s = RateLimitState { total_requests: (s.total_requests + 1) as u64, ..s };
    if s.submission_count >= config.max_submissions {
        (s, false)
    } else {
        (RateLimitState { submission_count: (s.submission_count + 1) as u32, ..s }, true)
    }
}

/// `n` attempts in a row at the same ledger: the state after them and how many were
/// allowed.
pub open spec fn run_attempts(state: RateLimitState, config: RateLimitConfig, current_ledger: u32, n: nat) -> (
    RateLimitState,
    nat,
)
    decreases n,
{
    if n == 0 {
        (state, 0)
    } else {
        let (next, allowed) = rate_limit_step(state, config, current_ledger);
        let (last, count) = run_attempts(next, config, current_ledger, (n - 1) as nat);
        (last, count + if allowed {
            1nat
        } else {
            0nat
        })
    }
}

/// An allowed attempt never takes the window past `max_submissions`, and every attempt,
/// allowed or not, adds exactly one to `total_requests`.
pub proof fn law_step_respects_limit(state: RateLimitState, config: RateLimitConfig, current_ledger: u32)
    requires
        state.total_requests < u64::MAX,
    ensures
        rate_limit_step(state, config, current_ledger).1 ==> rate_limit_step(
            state,
            config,
            current_ledger,
        ).0.submission_count <= config.max_submissions,
        rate_limit_step(state, config, current_ledger).0.total_requests == state.total_requests + 1,
{
}

/// A refused attempt leaves the window as it found it (after any restart of an expired
/// window): the refusal does not use up a submission.
pub proof fn law_refusal_keeps_window(state: RateLimitState, config: RateLimitConfig, current_ledger: u32)
    requires
        !rate_limit_step(state, config, current_ledger).1,
    ensures
        ({
            let next = rate_limit_step(state, config, current_ledger).0;
            if window_expired(current_ledger, state.window_start_ledger, config.window_length) {
                next.submission_count == 0 && next.window_start_ledger == current_ledger
            } else {
                next.submission_count == state.submission_count && next.window_start_ledger
                    == state.window_start_ledger
            }
        }),
{
}

/// Once `window_length` ledgers have passed, the window restarts at the current ledger and
/// an attempt is allowed whenever the limit is not zero.
pub proof fn law_expired_window_restarts(state: RateLimitState, config: RateLimitConfig, current_ledger: u32)
    requires
        window_expired(current_ledger, state.window_start_ledger, config.window_length),
        config.max_submissions > 0,
    ensures
        rate_limit_step(state, config, current_ledger).1,
        rate_limit_step(state, config, current_ledger).0.submission_count == 1,
        rate_limit_step(state, config, current_ledger).0.window_start_ledger == current_ledger,
{
}

/// Once a full window has passed (at least `window_length` ledgers since it started),
/// the next attempt restarts the window at the current ledger and is allowed whenever
/// the limit is not zero, however much later the attempt comes.
pub proof fn law_full_window_allows_next_attempt(
    state: RateLimitState,
    config: RateLimitConfig,
    current_ledger: u32,
)
    requires
        state.window_start_ledger <= current_ledger,
        current_ledger - state.window_start_ledger >= config.window_length,
        config.max_submissions > 0,
    ensures
        rate_limit_step(state, config, current_ledger).1,
        rate_limit_step(state, config, current_ledger).0.submission_count == 1,
        rate_limit_step(state, config, current_ledger).0.window_start_ledger == current_ledger,
{
}

/// Before a full window has passed, an attempt keeps the window where it started, and is
/// allowed exactly when the window still holds fewer than `max_submissions`.
pub proof fn law_open_window_is_kept(state: RateLimitState, config: RateLimitConfig, current_ledger: u32)
    requires
        state.window_start_ledger <= current_ledger,
        current_ledger - state.window_start_ledger < config.window_length,
    ensures
        rate_limit_step(state, config, current_ledger).0.window_start_ledger == state.window_start_ledger,
        rate_limit_step(state, config, current_ledger).1 <==> state.submission_count < config.max_submissions,
{
}

/// Expiry is monotone in time: a window that has run out at some ledger has run out at
/// every later ledger.
pub proof fn law_expiry_persists(
    window_start_ledger: u32,
    window_length: u32,
    current_ledger: u32,
    later_ledger: u32,
)
    requires
        window_expired(current_ledger, window_start_ledger, window_length),
        current_ledger <= later_ledger,
    ensures
        window_expired(later_ledger, window_start_ledger, window_length),
{
}

/// Within one window (a non-zero window length, not yet run out), `n` attempts at the
/// same ledger are allowed exactly as long as the window has room: the first
/// `max_submissions - submission_count` of them, and no more.
pub proof fn law_attempts_within_window(
    state: RateLimitState,
    config: RateLimitConfig,
    current_ledger: u32,
    n: nat,
)
    requires
        config.window_length > 0,
        !window_expired(current_ledger, state.window_start_ledger, config.window_length),
        state.submission_count <= config.max_submissions,
    ensures
        run_attempts(state, config, current_ledger, n).1 == if n <= config.max_submissions
            - state.submission_count {
            n
        } else {
            (config.max_submissions - state.submission_count) as nat
        },
    decreases n,
{
    if n > 0 {
        let (next, allowed) = rate_limit_step(state, config, current_ledger);
        assert(next.window_start_ledger == state.window_start_ledger);
        law_attempts_within_window(next, config, current_ledger, (n - 1) as nat);
    }
}

/// An attestor's override is the configuration that applies to it; without one, the
/// global configuration (or the default) applies.
pub proof fn law_override_precedence(v: RateLimiterView, attestor: Seq<char>)
    ensures
        v.overrides.contains_key(attestor) ==> effective_config(v, attestor) == v.overrides[attestor],
        !v.overrides.contains_key(attestor) ==> effective_config(v, attestor) == global_config(v),
        v.global is None ==> global_config(v) == default_config(),
{
}

/// Reading a configuration back gives what was written: the global configuration after
/// it is set, and an attestor's configuration after its override is set; an override
/// for one attestor leaves the configuration of every other attestor as it was.
pub proof fn law_config_read_after_write(v: RateLimiterView, config: RateLimitConfig, attestor: Seq<char>, other: Seq<char>)
    requires
        other != attestor,
    ensures
        global_config(RateLimiterView { global: Some(config), ..v }) == config,
        effective_config(RateLimiterView { overrides: v.overrides.insert(attestor, config), ..v }, attestor)
            == config,
        effective_config(RateLimiterView { overrides: v.overrides.insert(attestor, config), ..v }, other)
            == effective_config(v, other),
{
}

/// Rate limiter for attestation submissions.
pub struct RateLimiter {
    global: Option<RateLimitConfig>,
    overrides: AddressTable<RateLimitConfig>,
    states: AddressTable<RateLimitState>,
}

impl RateLimiter {
    pub closed spec fn view(&self) -> RateLimiterView {
        RateLimiterView {
            global: self.global,
            overrides: self.overrides.view(),
            states: self.states.view(),
        }
    }

    /// The limiter's internal invariant: no attestor has two entries.
    pub closed spec fn wf(&self) -> bool {
        self.overrides.wf() && self.states.wf()
    }

    /// A limiter with nothing stored: default configuration, no overrides, no state.
    pub fn new() -> (r: Self)
        ensures
            r.wf(),
            r.view().global is None,
            r.view().overrides == Map::<Seq<char>, RateLimitConfig>::empty(),
            r.view().states == Map::<Seq<char>, RateLimitState>::empty(),
    {
        RateLimiter { global: None, overrides: AddressTable::new(), states: AddressTable::new() }
    }

    /// The current rate limit state of an attestor (a fresh window starting at
    /// `current_ledger` if it has none).
    pub fn get_state(&self, attestor: &str, current_ledger: u32) -> (s: RateLimitState)
        requires
            self.wf(),
        ensures
            s == state_of(self.view(), attestor@, current_ledger),
    {
        let key = attestor.to_owned();
        match self.states.get(&key) {
            Some(s) => s,
            None => RateLimitState {
                submission_count: 0,
                window_start_ledger: current_ledger,
                total_requests: 0,
            },
        }
    }

    /// The global configuration (10 submissions per 100 ledgers until one is set).
    pub fn get_config(&self) -> (c: RateLimitConfig)
        ensures
            c == global_config(self.view()),
    {
        Self::pick_effective_config(None, self.global)
    }

    /// The configuration that applies given an attestor's stored override and the stored
    /// global configuration: the override if any, else the global one, else the default
    /// of 10 submissions per 100 ledgers.
    pub fn pick_effective_config(
        per_attestor: Option<RateLimitConfig>,
        global: Option<RateLimitConfig>,
    ) -> (c: RateLimitConfig)
        ensures
            c == match per_attestor {
                Some(o) => o,
                None => match global {
                    Some(g) => g,
                    None => default_config(),
                },
            },
    {
        match per_attestor {
            Some(o) => o,
            None => match global {
                Some(g) => g,
                None => RateLimitConfig { max_submissions: 10, window_length: 100 },
            },
        }
    }

    /// The configuration that applies to an attestor: its override if set, else the
    /// global configuration.
    pub fn get_effective_config(&self, attestor: &str) -> (c: RateLimitConfig)
        requires
            self.wf(),
        ensures
            c == effective_config(self.view(), attestor@),
    {
        let key = attestor.to_owned();
        Self::pick_effective_config(self.overrides.get(&key), self.global)
    }

    fn is_window_expired(current_ledger: u32, window_start_ledger: u32, window_length: u32) -> (r: bool)
        ensures
            r == window_expired(current_ledger, window_start_ledger, window_length),
    {
        current_ledger.saturating_sub(window_start_ledger) >= window_length
    }

    /// Checks whether an attestor may submit an attestation now and records the attempt.
    ///
    /// Returns `Ok(())` and counts the submission when the attestor's current window
    /// still has room, and the `RateLimitExceeded` error otherwise; every attempt is
    /// added to `total_requests`. No other attestor's state changes.
    pub fn check_and_increment(&mut self, attestor: &str, current_ledger: u32) -> (r: Result<(), AnchorKitError>)
        requires
            old(self).wf(),
            state_of(old(self).view(), attestor@, current_ledger).total_requests < u64::MAX,
        ensures
            final(self).wf(),
            ({
                let step = rate_limit_step(
                    state_of(old(self).view(), attestor@, current_ledger),
                    effective_config(old(self).view(), attestor@),
                    current_ledger,
                );
                &&& final(self).view().states == old(self).view().states.insert(attestor@, step.0)
                &&& final(self).view().global == old(self).view().global
                &&& final(self).view().overrides == old(self).view().overrides
                &&& (r is Ok <==> step.1)
            }),
            r matches Err(e) ==> e.spec_is_rate_limit_exceeded(),
    {
        let config = self.get_effective_config(attestor);
        let state = self.get_state(attestor, current_ledger);
        let (next, r) = Self::record_attempt(state, config, current_ledger);
        self.states.set(attestor.to_owned(), next);
        r
    }

    /// One submission attempt on an attestor's state under a configuration: returns the
    /// state to store and whether the attempt is allowed (`RateLimitExceeded` if not).
    pub fn record_attempt(state: RateLimitState, config: RateLimitConfig, current_ledger: u32) -> (res: (
        RateLimitState,
        Result<(), AnchorKitError>,
    ))
        requires
            state.total_requests < u64::MAX,
        ensures
            res.0 == rate_limit_step(state, config, current_ledger).0,
            res.1 is Ok <==> rate_limit_step(state, config, current_ledger).1,
            res.1 matches Err(e) ==> e.spec_is_rate_limit_exceeded(),
    {
        let mut state = state;
        if Self::is_window_expired(current_ledger, state.window_start_ledger, config.window_length) {
            state.submission_count = 0;
            state.window_start_ledger = current_ledger;
        }
        state.total_requests = state.total_requests + 1;
        if state.submission_count >= config.max_submissions {
            return (state, Err(AnchorKitError::rate_limit_exceeded()));
        }
        state.submission_count = state.submission_count + 1;
        (state, Ok(()))
    }

    /// Sets the global configuration, or an attestor's override when `attestor` is given.
    /// Always succeeds; `_admin` is not checked here.
    pub fn update_config(
        &mut self,
        _admin: &str,
        config: RateLimitConfig,
        attestor: Option<&str>,
    ) -> (r: Result<(), ErrorCode>)
        requires
            old(self).wf(),
        ensures
            final(self).wf(),
            r is Ok,
            final(self).view().states == old(self).view().states,
            match attestor {
                Some(a) => {
                    &&& final(self).view().overrides == old(self).view().overrides.insert(a@, config)
                    &&& final(self).view().global == old(self).view().global
                },
                None => {
                    &&& final(self).view().global == Some(config)
                    &&& final(self).view().overrides == old(self).view().overrides
                },
            },
    {
        match attestor {
            Some(a) => {
                self.overrides.set(a.to_owned(), config);
            },
            None => {
                self.global = Some(config);
            },
        }
        Ok(())
    }
}

} // verus!
