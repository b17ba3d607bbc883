//! Trust scoring: a pure, config-driven estimate of a fact's reliability.
//!
//! Scores are carried in thousandths of a unit, so the closed interval
//! `[0.0, 1.0]` of the data model becomes `[0, 1000]` here and every
//! computation is exact integer arithmetic.

use vstd::prelude::*;

use crate::fact::{AuthorType, FactType, Source, Status};

verus! {

/// One full unit of trust, in thousandths.
pub const TRUST_UNIT: u32 = 1000;

/// Milliseconds in one day.
pub const MS_PER_DAY: i64 = 86_400_000;

/// Trust scoring configuration. All score-like fields are in thousandths.
#[derive(Debug, Clone, Copy, PartialEq, Eq, Structural)]
pub struct TrustConfig {
    /// Base trust for human authors.
    pub human_base: u32,
    /// Base trust for AI authors.
    pub ai_base: u32,
    /// Base trust for system authors.
    pub system_base: u32,
    /// Trust multiplier for the local source.
    pub source_local: u32,
    /// Trust multiplier for the company source.
    pub source_company: u32,
    /// Trust multiplier for the global source.
    pub source_global: u32,
    /// Trust multiplier for the npm source.
    pub source_npm: u32,
    /// Days before trust starts decaying.
    pub decay_start_days: i64,
    /// Decay per day past the grace period, in thousandths.
    pub decay_rate: u32,
    /// Lowest value decay can reach.
    pub decay_floor: u32,
    /// Added once per confirmation.
    pub confirmation_boost: u32,
    /// Subtracted when a fact is superseded.
    pub superseded_penalty: u32,
}

impl TrustConfig {
    /// The documented default constants.
    pub open spec fn spec_default() -> TrustConfig {
        TrustConfig {
            human_base: 800,
            ai_base: 500,
            system_base: 600,
            source_local: 1000,
            source_company: 950,
            source_global: 700,
            source_npm: 600,
            decay_start_days: 90,
            decay_rate: 5,
            decay_floor: 200,
            confirmation_boost: 100,
            superseded_penalty: 300,
        }
    }

    /// A sane configuration: every score-like constant is at most one unit.
    pub open spec fn wf(&self) -> bool {
        &&& self.human_base <= 1000
        &&& self.ai_base <= 1000
        &&& self.system_base <= 1000
        &&& self.source_local <= 1000
        &&& self.source_company <= 1000
        &&& self.source_global <= 1000
        &&& self.source_npm <= 1000
        &&& self.decay_floor <= 1000
    }
}

impl Default for TrustConfig {
    fn default() -> (r: Self)
        ensures
            r == TrustConfig::spec_default(),
    {
        TrustConfig {
            human_base: 800,
            ai_base: 500,
            system_base: 600,
            source_local: 1000,
            source_company: 950,
            source_global: 700,
            source_npm: 600,
            decay_start_days: 90,
            decay_rate: 5,
            decay_floor: 200,
            confirmation_boost: 100,
            superseded_penalty: 300,
        }
    }
}

/// Clamp a mathematical score into `[0, 1000]`.
pub open spec fn clamp_unit(t: int) -> int {
    if t < 0 {
        0
    } else if t > 1000 {
        1000
    } else {
        t
    }
}

/// Base trust for an author type under a configuration.
pub open spec fn spec_author_base(cfg: TrustConfig, author: AuthorType) -> u32 {
    match author {
        AuthorType::Human => cfg.human_base,
        AuthorType::Ai => cfg.ai_base,
        AuthorType::System => cfg.system_base,
    }
}

/// Source multiplier under a configuration.
pub open spec fn spec_source_mult(cfg: TrustConfig, source: Source) -> u32 {
    match source {
        Source::Local => cfg.source_local,
        Source::Company => cfg.source_company,
        Source::Global => cfg.source_global,
        Source::Npm => cfg.source_npm,
    }
}

/// Initial trust: author base scaled by the source multiplier, clamped.
pub open spec fn spec_initial_trust(cfg: TrustConfig, author: AuthorType, source: Source) -> int {
    clamp_unit(spec_author_base(cfg, author) * spec_source_mult(cfg, source) / 1000)
}

/// Whole days elapsed from `created` to `now`; never negative.
pub open spec fn spec_age_days(created: i64, now: i64) -> int {
    if now <= created {
        0
    } else {
        (now - created) / (86_400_000 as int)
    }
}

/// Trust after age decay: untouched within the grace period, then reduced
/// linearly per day down to the configured floor.
pub open spec fn spec_decayed(cfg: TrustConfig, trust: u32, created: i64, now: i64) -> int {
    let age_days = spec_age_days(created, now);
    if age_days <= cfg.decay_start_days {
        trust as int
    } else {
        let decay = (age_days - cfg.decay_start_days) * cfg.decay_rate;
        if trust - decay >= cfg.decay_floor {
            trust - decay
        } else {
            cfg.decay_floor as int
        }
    }
}

/// Trust after one confirmation boost.
pub open spec fn spec_boosted_once(cfg: TrustConfig, t: int) -> int {
    if t + cfg.confirmation_boost > 1000 {
        1000
    } else {
        t + cfg.confirmation_boost
    }
}

/// Trust after `n` confirmation boosts, each clamped at one unit.
pub open spec fn spec_boosted(cfg: TrustConfig, t: int, n: nat) -> int
    decreases n,
{
    if n == 0 {
        t
    } else {
        spec_boosted_once(cfg, spec_boosted(cfg, t, (n - 1) as nat))
    }
}

/// Trust after the superseded penalty, floored at zero.
pub open spec fn spec_penalized(cfg: TrustConfig, t: int) -> int {
    if t - cfg.superseded_penalty >= 0 {
        t - cfg.superseded_penalty
    } else {
        0
    }
}

/// Status-specific adjustment applied after decay.
pub open spec fn spec_status_adjusted(cfg: TrustConfig, t: int, status: Status) -> int {
    match status {
        Status::Active => t,
        Status::Superseded => spec_penalized(cfg, t),
        Status::Deprecated => t * 500 / 1000,
        Status::Archived => t * 300 / 1000,
        Status::PendingReview => t,
    }
}

/// Effective trust: decay, then status adjustment, then the correction
/// haircut, then the confirmation boosts, then a final clamp to `[0, 1000]`.
pub open spec fn spec_effective_trust(
    cfg: TrustConfig,
    base: u32,
    created: i64,
    now: i64,
    status: Status,
    fact_type: FactType,
    confirmations: nat,
) -> int {
    let decayed = spec_decayed(cfg, base, created, now);
    let adjusted = spec_status_adjusted(cfg, decayed, status);
    let inherited = if fact_type == FactType::Correction {
        adjusted * 900 / 1000
    } else {
        adjusted
    };
    clamp_unit(spec_boosted(cfg, inherited, confirmations))
}

/// Pure trust calculator over one configuration.
pub struct TrustCalculator {
    config: TrustConfig,
}

impl TrustCalculator {
    /// The configuration this calculator scores with.
    pub closed spec fn cfg(&self) -> TrustConfig {
        self.config
    }

    /// Calculator with the default constants.
    pub fn new() -> (r: Self)
        ensures
            r.cfg() == TrustConfig::spec_default(),
    {
        TrustCalculator { config: TrustConfig::default() }
    }

    /// Calculator with explicit constants.
    pub fn with_config(config: TrustConfig) -> (r: Self)
        ensures
            r.cfg() == config,
    {
        TrustCalculator { config }
    }

    /// Initial trust for a new fact, from author type and source alone.
    pub fn initial_trust(&self, author_type: AuthorType, source: Source) -> (r: u32)
        ensures
            r as int == spec_initial_trust(self.cfg(), author_type, source),
            r <= 1000,
    {
        let base: u64 = match author_type {
            AuthorType::Human => self.config.human_base as u64,
            AuthorType::Ai => self.config.ai_base as u64,
            AuthorType::System => self.config.system_base as u64,
        };
        let mult: u64 = match source {
            Source::Local => self.config.source_local as u64,
            Source::Company => self.config.source_company as u64,
            Source::Global => self.config.source_global as u64,
            Source::Npm => self.config.source_npm as u64,
        };
        proof {
            assert(base * mult <= 0xFFFF_FFFFu128 * 0xFFFF_FFFFu128) by (nonlinear_arith)
                requires
                    0 <= base <= 0xFFFF_FFFFu128,
                    0 <= mult <= 0xFFFF_FFFFu128,
            ;
        }
        let scaled: u128 = base as u128 * mult as u128 / 1000;
        if scaled > 1000 {
            1000
        } else {
            scaled as u32
        }
    }

    /// Trust decayed by the fact's age at the given clock reading.
    pub fn apply_decay_at(&self, trust: u32, created_at: i64, now: i64) -> (r: u32)
        ensures
            r as int == spec_decayed(self.cfg(), trust, created_at, now),
            trust <= 1000 && self.cfg().decay_floor <= 1000 ==> r <= 1000,
    {
        let age_days: i128 = if now <= created_at {
            0
        } else {
            let diff: u128 = (now as i128 - created_at as i128) as u128;
            let days: u128 = diff / 86_400_000;
            proof {
                vstd::arithmetic::div_mod::lemma_div_pos_is_pos(diff as int, 86_400_000);
                vstd::arithmetic::div_mod::lemma_div_nonincreasing(diff as int, 86_400_000);
            }
            days as i128
        };
        proof {
            assert(age_days == spec_age_days(created_at, now));
            assert(0 <= age_days < 0x2_0000_0000_0000_0000i128);
        }
        if age_days <= self.config.decay_start_days as i128 {
            return trust;
        }
        let days_past: i128 = age_days - self.config.decay_start_days as i128;
        let rate: i128 = self.config.decay_rate as i128;
        proof {
            assert(1 <= days_past < 0x4_0000_0000_0000_0000i128);
            assert(days_past * rate < 0x10_0000_0000_0000_0000_0000_0000i128) by (nonlinear_arith)
                requires
                    1 <= days_past < 0x4_0000_0000_0000_0000i128,
                    0 <= rate < 0x1_0000_0000i128,
            ;
            assert(days_past * rate >= 0) by (nonlinear_arith)
                requires
                    days_past >= 1 && rate >= 0,
            ;
        }
        let decay: i128 = days_past * rate;
        let remaining: i128 = trust as i128 - decay;
        if remaining >= self.config.decay_floor as i128 {
            remaining as u32
        } else {
            self.config.decay_floor
        }
    }

    /// Trust decayed by the fact's age, read against the current clock.
    ///
    /// The exact value depends on the clock; what is promised holds of every
    /// reading.
    pub fn apply_decay(&self, trust: u32, created_at: i64) -> (r: u32)
        ensures
            exists|now: i64| r as int == spec_decayed(self.cfg(), trust, created_at, now),
            trust <= 1000 && self.cfg().decay_floor <= 1000 ==> r <= 1000,
    {
        let now = crate::clock::now_millis();
        let r = self.apply_decay_at(trust, created_at, now);
        proof {
            assert(r as int == spec_decayed(self.cfg(), trust, created_at, now));
        }
        r
    }

    /// One confirmation boost, clamped at one unit.
    pub fn apply_confirmation_boost(&self, trust: u32) -> (r: u32)
        ensures
            r as int == spec_boosted_once(self.cfg(), trust as int),
            r <= 1000 || r == trust,
    {
        let boosted: u64 = trust as u64 + self.config.confirmation_boost as u64;
        if boosted > 1000 {
            1000
        } else {
            boosted as u32
        }
    }

    /// The superseded penalty, floored at zero.
    pub fn apply_superseded_penalty(&self, trust: u32) -> (r: u32)
        ensures
            r as int == spec_penalized(self.cfg(), trust as int),
            r <= trust,
    {
        if trust >= self.config.superseded_penalty {
            trust - self.config.superseded_penalty
        } else {
            0
        }
    }

    /// Effective trust at a given clock reading, combining decay, status,
    /// fact type and confirmations. Always lands in `[0, 1000]`.
    pub fn effective_trust_at(
        &self,
        base_trust: u32,
        created_at: i64,
        now: i64,
        status: Status,
        fact_type: FactType,
        confirmation_count: u32,
    ) -> (r: u32)
        ensures
            r as int == spec_effective_trust(
                self.cfg(),
                base_trust,
                created_at,
                now,
                status,
                fact_type,
                confirmation_count as nat,
            ),
            r <= 1000,
    {
        let decayed = self.apply_decay_at(base_trust, created_at, now);
        let adjusted: u64 = match status {
            Status::Active => decayed as u64,
            Status::Superseded => self.apply_superseded_penalty(decayed) as u64,
            Status::Deprecated => decayed as u64 * 500 / 1000,
            Status::Archived => decayed as u64 * 300 / 1000,
            Status::PendingReview => decayed as u64,
        };
        let inherited: u64 = if matches!(fact_type, FactType::Correction) {
            adjusted * 900 / 1000
        } else {
            adjusted
        };
        let ghost cfgv = self.cfg();
        let ghost start = inherited as int;
        let mut acc: u64 = inherited;
        let mut i: u32 = 0;
        while i < confirmation_count
            invariant
                i <= confirmation_count,
                acc as int == spec_boosted(cfgv, start, i as nat),
                cfgv == self.cfg(),
                acc <= u64::MAX - 0x1_0000_0000,
            decreases confirmation_count - i,
        {
            let boosted: u64 = acc + self.config.confirmation_boost as u64;
            acc = if boosted > 1000 {
                1000
            } else {
                boosted
            };
            i = i + 1;
        }
        if acc > 1000 {
            1000
        } else {
            acc as u32
        }
    }

    /// Effective trust against the current clock. The exact value depends on
    /// the clock; the result is in `[0, 1000]` for every reading.
    pub fn effective_trust(
        &self,
        base_trust: u32,
        created_at: i64,
        status: Status,
        fact_type: FactType,
        confirmation_count: u32,
    ) -> (r: u32)
        ensures
            exists|now: i64|
                r as int == spec_effective_trust(
                    self.cfg(),
                    base_trust,
                    created_at,
                    now,
                    status,
                    fact_type,
                    confirmation_count as nat,
                ),
            r <= 1000,
    {
        let now = crate::clock::now_millis();
        let r = self.effective_trust_at(
            base_trust,
            created_at,
            now,
            status,
            fact_type,
            confirmation_count,
        );
        proof {
            assert(r as int == spec_effective_trust(
                self.cfg(),
                base_trust,
                created_at,
                now,
                status,
                fact_type,
                confirmation_count as nat,
            ));
        }
        r
    }
}

impl Default for TrustCalculator {
    fn default() -> (r: Self)
        ensures
            r.cfg() == TrustConfig::spec_default(),
    {
        TrustCalculator::new()
    }
}

} // verus!
