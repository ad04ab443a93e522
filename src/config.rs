//! Configuration of the line: shift start times, pauses, the start of the
//! production week, each partner's targets, and the cache that holds the
//! common part for a while.
use crate::clock::{NaiveTime, Weekday};
use crate::objective::Ratio;
use crate::shift::{all_wf, non_decreasing};
use crate::spans::{spans_wf, DailySpan};
use vstd::prelude::*;

verus! {

/// The shift at which the production week starts.
#[derive(Clone, Copy, Debug, PartialEq, Eq, Structural)]
pub struct WeekStart {
    pub day: Weekday,
    pub shift_index: usize,
}

/// Configuration common to every partner.
#[derive(Clone, Debug)]
pub struct CommonConfig {
    pub shift_start_times: Vec<NaiveTime>,
    pub pauses: Vec<DailySpan>,
    pub week_start: WeekStart,
}

impl CommonConfig {
    /// The invariants that a fetched configuration must meet: shift start
    /// times are there, in non-decreasing order, and the week starts at one
    /// of them.
    pub open spec fn valid(&self) -> bool {
        &&& self.shift_start_times@.len() > 0
        &&& non_decreasing(self.shift_start_times@)
        &&& self.week_start.shift_index < self.shift_start_times@.len()
    }

    /// Whether every time of the configuration is a valid time of day.
    pub open spec fn times_wf(&self) -> bool {
        all_wf(self.shift_start_times@) && spans_wf(self.pauses@)
    }
}

/// Configuration of one partner.
#[derive(Clone, Debug)]
pub struct PartnerConfig {
    /// Seconds per part at full efficiency.
    pub target_cycle_time: Ratio,
    /// Share of the full rate that is aimed at.
    pub target_efficiency: Ratio,
    /// Which shifts of the week are engaged, in order from the week's first.
    pub shift_engaged: Vec<bool>,
}

/// Why a common configuration is refused.
#[derive(Clone, Copy, Debug, PartialEq, Eq, Structural)]
pub enum ConfigError {
    ShiftStartTimesNotSorted,
    WeekStartShiftIndexOutOfBounds,
}

/// Whether each shift start time is not after the next one.
pub open spec fn adjacent_sorted(s: Seq<NaiveTime>) -> bool {
    forall|i: int| 0 <= i < s.len() - 1 ==> (#[trigger] s[i]).secs <= s[i + 1].secs
}

proof fn lemma_adjacent_sorted(s: Seq<NaiveTime>)
    requires
        adjacent_sorted(s),
    ensures
        non_decreasing(s),
{
    assert forall|i: int, j: int| 0 <= i <= j < s.len() implies s[i].secs <= s[j].secs by {
        lemma_adjacent_sorted_from(s, i, j);
    }
}

proof fn lemma_adjacent_sorted_from(s: Seq<NaiveTime>, i: int, j: int)
    requires
        adjacent_sorted(s),
        0 <= i <= j < s.len(),
    ensures
        s[i].secs <= s[j].secs,
    decreases j - i,
{
    if i < j {
        lemma_adjacent_sorted_from(s, i, j - 1);
        assert(s[j - 1].secs <= s[j].secs);
    }
}

/// Checks the invariants of a fetched common configuration: shift start
/// times in non-decreasing order, then a week start index within them.
pub fn validate_common_config(config: CommonConfig) -> (r: Result<CommonConfig, ConfigError>)
    ensures
        match r {
            Ok(c) => c.valid() && c == config,
            Err(ConfigError::ShiftStartTimesNotSorted) => !adjacent_sorted(config.shift_start_times@),
            Err(ConfigError::WeekStartShiftIndexOutOfBounds) => adjacent_sorted(
                config.shift_start_times@,
            ) && config.week_start.shift_index >= config.shift_start_times@.len(),
        },
        adjacent_sorted(config.shift_start_times@)
            && config.week_start.shift_index < config.shift_start_times@.len() ==> r is Ok,
{
    let n = config.shift_start_times.len();
    let mut i: usize = 1;
    while i < n
        invariant
            1 <= i <= n || n == 0,
            n == config.shift_start_times@.len(),
            forall|k: int| 0 <= k < i - 1 ==> (#[trigger] config.shift_start_times@[k]).secs
                <= config.shift_start_times@[k + 1].secs,
        decreases n - i,
    {
        if config.shift_start_times[i - 1].secs > config.shift_start_times[i].secs {
            return Err(ConfigError::ShiftStartTimesNotSorted);
        }
        i += 1;
    }
    if config.week_start.shift_index >= n {
        return Err(ConfigError::WeekStartShiftIndexOutOfBounds);
    }
    proof {
        lemma_adjacent_sorted(config.shift_start_times@);
    }
    Ok(config)
}

/// A single cached value with the instant it was taken at, in a monotonic
/// clock counted in milliseconds, kept for `expiration` milliseconds.
pub struct ConfigCache<T> {
    pub entry: Option<(u64, T)>,
    pub expiration: u64,
}

/// Whether a value taken at `taken_at` is still fresh at `now`: less than
/// `expiration` has elapsed since (no time has elapsed when `now` reads before
/// `taken_at`).
pub open spec fn fresh(taken_at: u64, now: u64, expiration: u64) -> bool {
    if now <= taken_at {
        0 < expiration
    } else {
        now - taken_at < expiration
    }
}

impl<T> ConfigCache<T> {
    /// An empty cache whose values stay fresh for `expiration` milliseconds.
    pub fn new(expiration: u64) -> (r: ConfigCache<T>)
        ensures
            r.entry is None,
            r.expiration == expiration,
    {
        ConfigCache { entry: None, expiration }
    }

    /// What a lookup at `now` hands out.
    pub open spec fn cached(&self, now: u64) -> Option<T> {
        match self.entry {
            Some((at, v)) => if fresh(at, now, self.expiration) {
                Some(v)
            } else {
                None
            },
            None => None,
        }
    }

    /// The cached value, when there is one and it is still fresh at `now`.
    pub fn lookup(&self, now: u64) -> (r: Option<&T>)
        ensures
            match r {
                Some(x) => self.cached(now) == Some(*x),
                None => self.cached(now) is None,
            },
    {
        match &self.entry {
            Some((at, value)) => {
                let elapsed = if now <= *at {
                    0
                } else {
                    now - *at
                };
                if elapsed < self.expiration {
                    Some(value)
                } else {
                    None
                }
            },
            None => None,
        }
    }

    /// Caches `value`, taken at `now`, in place of what was there.
    pub fn store(&mut self, now: u64, value: T)
        ensures
            final(self).entry == Some((now, value)),
            final(self).expiration == old(self).expiration,
    {
        self.entry = Some((now, value));
    }
}

/// Once a value is stored at `taken_at`, every lookup before `expiration`
/// has elapsed hands out that value, so no new fetch is made; the first
/// lookup after it misses, so exactly one more fetch follows.
pub proof fn lemma_cache_expiry<T>(cache: ConfigCache<T>, taken_at: u64, value: T, now: u64)
    requires
        cache.entry == Some((taken_at, value)),
        taken_at <= now,
    ensures
        now - taken_at < cache.expiration ==> cache.cached(now) == Some(value),
        now - taken_at >= cache.expiration ==> cache.cached(now) is None,
{
}

} // verus!
