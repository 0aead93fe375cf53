//! From risk to autonomy: weights, bands and what is asked of the host.
use crate::collections::Table;
use crate::rbac::dynamic::verdict::{AutonomyLevel, Strategy, StrategyView};
use crate::score::Score;
use vstd::prelude::*;

verus! {

/// The least sum of weights that is within 0.05 of one in double precision.
pub const LEAST_WEIGHT_SUM_BITS: u64 = 0x3FEE_6666_6666_6667;

/// The largest sum of weights that is within 0.05 of one in double precision.
pub const LARGEST_WEIGHT_SUM_BITS: u64 = 0x3FF0_CCCC_CCCC_CCCC;

/// The bits of 1.0.
pub const ONE_BITS: u64 = 0x3FF0_0000_0000_0000;

/// The bits of 1.1, above which no band reaches.
pub const BAND_LIMIT_BITS: u64 = 0x3FF1_9999_9999_999A;

/// The bits of 0.10.
pub const DELEGATOR_DIMENSION_BITS: u64 = 0x3FB9_9999_9999_999A;

/// The bits of 0.30.
pub const TRUST_DIMENSION_BITS: u64 = 0x3FD3_3333_3333_3333;

/// The bits of 0.25.
pub const SENSITIVITY_DIMENSION_BITS: u64 = 0x3FD0_0000_0000_0000;

/// The bits of 0.25.
pub const DOMAIN_DIMENSION_BITS: u64 = 0x3FD0_0000_0000_0000;

/// The bits of 0.10.
pub const ANOMALY_DIMENSION_BITS: u64 = 0x3FB9_9999_9999_999A;

/// The bits of 0.15, where full autonomy ends.
pub const FULL_AUTONOMY_END_BITS: u64 = 0x3FC3_3333_3333_3333;

/// The bits of 0.35, where actions are no longer allowed.
pub const CONDITIONAL_END_BITS: u64 = 0x3FD6_6666_6666_6666;

/// The bits of 0.60.
pub const SEMI_AUTONOMOUS_END_BITS: u64 = 0x3FE3_3333_3333_3333;

/// The bits of 0.80.
pub const ASSISTED_END_BITS: u64 = 0x3FE9_9999_9999_999A;

/// The bits of 1.01, so that a risk of one lies in a band.
pub const FROZEN_END_BITS: u64 = 0x3FF0_28F5_C28F_5C29;

/// The weights of the dimensions, the band of each level, and what each level asks of the host.
pub struct DynamicPolicy {
    /// Weights of kind, trust, sensitivity, domain and anomaly.
    pub dimension_weights: [Score; 5],
    /// The band of each level: from the first number on, below the second.
    pub autonomy_thresholds: Table<AutonomyLevel, (Score, Score)>,
    /// What each level asks of the host.
    pub level_strategies: Table<AutonomyLevel, Strategy>,
}

/// What is wrong with a policy.
#[derive(Debug, Clone, Copy, PartialEq, Eq, Structural)]
pub enum PolicyDefect {
    /// The weights do not add up to about one; their sum.
    WeightSum(Score),
    /// A weight is not from zero to one; the weight.
    Weight(Score),
    /// A band is empty; its level and ends.
    EmptyBand(AutonomyLevel, Score, Score),
    /// A band is out of range; its level and ends.
    BandRange(AutonomyLevel, Score, Score),
    /// A level with a band asks for nothing.
    NoStrategy(AutonomyLevel),
}

/// Whether a risk lies in a band.
pub open spec fn in_band(risk: Score, band: (Score, Score)) -> bool {
    risk.reaches(band.0) && risk.below(band.1)
}

/// Whether a sum of weights is about one. A sum that is not a number passes, since some weight
/// does not.
pub open spec fn sums_to_one(sum: Score) -> bool {
    !sum.below(Score { bits: LEAST_WEIGHT_SUM_BITS }) && !(Score { bits: LARGEST_WEIGHT_SUM_BITS }).below(sum)
}

/// Whether a weight is from zero to one.
pub open spec fn is_weight(w: Score) -> bool {
    w.reaches(crate::score::zero()) && (Score { bits: ONE_BITS }).reaches(w)
}

/// The first weight that is not from zero to one.
pub open spec fn first_bad_weight(weights: Seq<Score>) -> Option<Score>
    decreases weights.len(),
{
    if weights.len() == 0 {
        None
    } else if !is_weight(weights[0]) {
        Some(weights[0])
    } else {
        first_bad_weight(weights.skip(1))
    }
}

impl DynamicPolicy {
    /// The bands.
    pub open spec fn bands(&self) -> Map<AutonomyLevel, (Score, Score)> {
        self.autonomy_thresholds@
    }

    /// What each level asks of the host.
    pub open spec fn asks(&self) -> Map<AutonomyLevel, Strategy> {
        self.level_strategies@
    }

    /// Whether the value is well formed.
    pub open spec fn wf(&self) -> bool {
        self.autonomy_thresholds.wf() && self.level_strategies.wf()
    }

    /// Whether a risk lies in the band of a level.
    pub open spec fn covers(&self, level: AutonomyLevel, risk: Score) -> bool {
        self.bands().contains_key(level) && in_band(risk, self.bands()[level])
    }

    /// The highest level whose band holds a risk; the lowest level where none does.
    pub open spec fn level_of(&self, risk: Score) -> AutonomyLevel {
        if self.covers(AutonomyLevel::L4FullAutonomy, risk) {
            AutonomyLevel::L4FullAutonomy
        } else if self.covers(AutonomyLevel::L3Conditional, risk) {
            AutonomyLevel::L3Conditional
        } else if self.covers(AutonomyLevel::L2SemiAutonomous, risk) {
            AutonomyLevel::L2SemiAutonomous
        } else if self.covers(AutonomyLevel::L1Assisted, risk) {
            AutonomyLevel::L1Assisted
        } else {
            AutonomyLevel::L0Frozen
        }
    }

    /// What a level asks of the host; a refusal where nothing is set.
    pub open spec fn strategy_of(&self, level: AutonomyLevel) -> StrategyView {
        if self.asks().contains_key(level) {
            self.asks()[level]@
        } else {
            StrategyView::Block("no-strategy-defined"@)
        }
    }

    /// What is wrong with the band of a level.
    pub open spec fn band_defect(&self, level: AutonomyLevel) -> Option<PolicyDefect> {
        if !self.bands().contains_key(level) {
            None
        } else {
            let (min, max) = self.bands()[level];
            if !min.below(max) {
                Some(PolicyDefect::EmptyBand(level, min, max))
            } else if min.below(crate::score::zero()) || (Score { bits: BAND_LIMIT_BITS }).below(max) {
                Some(PolicyDefect::BandRange(level, min, max))
            } else if !self.asks().contains_key(level) {
                Some(PolicyDefect::NoStrategy(level))
            } else {
                None
            }
        }
    }

    /// What is wrong with the policy, given the sum of its weights; bands are looked at from the
    /// lowest level up.
    pub open spec fn defect(&self, weight_sum: Score) -> Option<PolicyDefect> {
        if !sums_to_one(weight_sum) {
            Some(PolicyDefect::WeightSum(weight_sum))
        } else if first_bad_weight(self.dimension_weights@) is Some {
            Some(PolicyDefect::Weight(first_bad_weight(self.dimension_weights@)->Some_0))
        } else if self.band_defect(AutonomyLevel::L0Frozen) is Some {
            self.band_defect(AutonomyLevel::L0Frozen)
        } else if self.band_defect(AutonomyLevel::L1Assisted) is Some {
            self.band_defect(AutonomyLevel::L1Assisted)
        } else if self.band_defect(AutonomyLevel::L2SemiAutonomous) is Some {
            self.band_defect(AutonomyLevel::L2SemiAutonomous)
        } else if self.band_defect(AutonomyLevel::L3Conditional) is Some {
            self.band_defect(AutonomyLevel::L3Conditional)
        } else {
            self.band_defect(AutonomyLevel::L4FullAutonomy)
        }
    }

    fn holds(&self, level: AutonomyLevel, risk: Score) -> (r: bool)
        requires
            self.wf(),
        ensures
            r == self.covers(level, risk),
    {
        match self.autonomy_thresholds.get(&level) {
            Some(band) => risk.is_at_least(band.0) && risk.is_below(band.1),
            None => false,
        }
    }

    /// The highest level whose band holds a risk; the lowest level where none does.
    #[must_use]
    pub fn map_to_level(&self, risk: Score) -> (r: AutonomyLevel)
        requires
            self.wf(),
        ensures
            r == self.level_of(risk),
    {
        if self.holds(AutonomyLevel::L4FullAutonomy, risk) {
            AutonomyLevel::L4FullAutonomy
        } else if self.holds(AutonomyLevel::L3Conditional, risk) {
            AutonomyLevel::L3Conditional
        } else if self.holds(AutonomyLevel::L2SemiAutonomous, risk) {
            AutonomyLevel::L2SemiAutonomous
        } else if self.holds(AutonomyLevel::L1Assisted, risk) {
            AutonomyLevel::L1Assisted
        } else {
            AutonomyLevel::L0Frozen
        }
    }

    /// What a level asks of the host.
    #[must_use]
    pub fn strategy_for(&self, level: AutonomyLevel) -> (r: Strategy)
        requires
            self.wf(),
        ensures
            r@ == self.strategy_of(level),
    {
        match self.level_strategies.get(&level) {
            Some(s) => s.duplicate(),
            None => Strategy::Block { reason: "no-strategy-defined".to_owned() },
        }
    }

    fn check_band(&self, level: AutonomyLevel) -> (r: Option<PolicyDefect>)
        requires
            self.wf(),
        ensures
            r == self.band_defect(level),
    {
        match self.autonomy_thresholds.get(&level) {
            Some(band) => {
                let min = band.0;
                let max = band.1;
                if !min.is_below(max) {
                    Some(PolicyDefect::EmptyBand(level, min, max))
                } else if min.is_below(Score::from_bits(0)) || Score::from_bits(BAND_LIMIT_BITS).is_below(max) {
                    Some(PolicyDefect::BandRange(level, min, max))
                } else if !self.level_strategies.contains_key(&level) {
                    Some(PolicyDefect::NoStrategy(level))
                } else {
                    None
                }
            },
            None => None,
        }
    }

    /// Whether the policy can be put in force, given the sum of its weights in their order.
    pub fn validate(&self, weight_sum: Score) -> (r: Result<(), PolicyDefect>)
        requires
            self.wf(),
        ensures
            match self.defect(weight_sum) {
                Some(d) => r == Err::<(), PolicyDefect>(d),
                None => r == Ok::<(), PolicyDefect>(()),
            },
    {
        if weight_sum.is_below(Score::from_bits(LEAST_WEIGHT_SUM_BITS)) || Score::from_bits(LARGEST_WEIGHT_SUM_BITS).is_below(
            weight_sum,
        ) {
            return Err(PolicyDefect::WeightSum(weight_sum));
        }
        let ghost all = self.dimension_weights@;
        let mut i: usize = 0;
        assert(all.skip(0) =~= all);
        while i < 5
            invariant
                i <= 5,
                all == self.dimension_weights@,
                all.len() == 5,
                sums_to_one(weight_sum),
                first_bad_weight(all) == first_bad_weight(all.skip(i as int)),
            decreases 5 - i,
        {
            let w = self.dimension_weights[i];
            assert(all.skip(i as int)[0] == w);
            assert(all.skip(i as int).skip(1) =~= all.skip(i + 1));
            if !(w.is_at_least(Score::from_bits(0)) && Score::from_bits(ONE_BITS).is_at_least(w)) {
                return Err(PolicyDefect::Weight(w));
            }
            i = i + 1;
        }
        assert(first_bad_weight(all) is None);
        if let Some(d) = self.check_band(AutonomyLevel::L0Frozen) {
            return Err(d);
        }
        if let Some(d) = self.check_band(AutonomyLevel::L1Assisted) {
            return Err(d);
        }
        if let Some(d) = self.check_band(AutonomyLevel::L2SemiAutonomous) {
            return Err(d);
        }
        if let Some(d) = self.check_band(AutonomyLevel::L3Conditional) {
            return Err(d);
        }
        if let Some(d) = self.check_band(AutonomyLevel::L4FullAutonomy) {
            return Err(d);
        }
        Ok(())
    }
}

/// Whether a policy is the built-in one: weights 0.10, 0.30, 0.25, 0.25 and 0.10; bands that
/// meet at 0.15, 0.35, 0.60 and 0.80.
pub open spec fn is_built_in(p: &DynamicPolicy) -> bool {
    &&& p.wf()
    &&& p.dimension_weights@ == seq![
        Score { bits: DELEGATOR_DIMENSION_BITS },
        Score { bits: TRUST_DIMENSION_BITS },
        Score { bits: SENSITIVITY_DIMENSION_BITS },
        Score { bits: DOMAIN_DIMENSION_BITS },
        Score { bits: ANOMALY_DIMENSION_BITS },
    ]
    &&& forall|level: AutonomyLevel| #[trigger] p.bands().contains_key(level) && p.asks().contains_key(level)
    &&& p.bands()[AutonomyLevel::L4FullAutonomy] == (crate::score::zero(), Score { bits: FULL_AUTONOMY_END_BITS })
    &&& p.bands()[AutonomyLevel::L3Conditional] == (
        Score { bits: FULL_AUTONOMY_END_BITS },
        Score { bits: CONDITIONAL_END_BITS },
    )
    &&& p.bands()[AutonomyLevel::L2SemiAutonomous] == (
        Score { bits: CONDITIONAL_END_BITS },
        Score { bits: SEMI_AUTONOMOUS_END_BITS },
    )
    &&& p.bands()[AutonomyLevel::L1Assisted] == (
        Score { bits: SEMI_AUTONOMOUS_END_BITS },
        Score { bits: ASSISTED_END_BITS },
    )
    &&& p.bands()[AutonomyLevel::L0Frozen] == (Score { bits: ASSISTED_END_BITS }, Score { bits: FROZEN_END_BITS })
    &&& p.asks()[AutonomyLevel::L4FullAutonomy]@ == StrategyView::Allow(true)
    &&& p.asks()[AutonomyLevel::L3Conditional]@ == StrategyView::Throttle(30)
    &&& p.asks()[AutonomyLevel::L2SemiAutonomous]@ == StrategyView::RequireConfirmation
    &&& p.asks()[AutonomyLevel::L1Assisted]@ == StrategyView::RequireConfirmation
    &&& p.asks()[AutonomyLevel::L0Frozen]@ == StrategyView::Block(Seq::<char>::empty())
}

/// The built-in policy.
#[must_use]
pub fn default_dynamic_policy() -> (r: DynamicPolicy)
    ensures
        is_built_in(&r),
{
    let mut bands: Table<AutonomyLevel, (Score, Score)> = Table::new();
    let _ = bands.insert(AutonomyLevel::L4FullAutonomy, (Score::from_bits(0), Score::from_bits(FULL_AUTONOMY_END_BITS)));
    let _ = bands.insert(
        AutonomyLevel::L3Conditional,
        (Score::from_bits(FULL_AUTONOMY_END_BITS), Score::from_bits(CONDITIONAL_END_BITS)),
    );
    let _ = bands.insert(
        AutonomyLevel::L2SemiAutonomous,
        (Score::from_bits(CONDITIONAL_END_BITS), Score::from_bits(SEMI_AUTONOMOUS_END_BITS)),
    );
    let _ = bands.insert(
        AutonomyLevel::L1Assisted,
        (Score::from_bits(SEMI_AUTONOMOUS_END_BITS), Score::from_bits(ASSISTED_END_BITS)),
    );
    let _ = bands.insert(
        AutonomyLevel::L0Frozen,
        (Score::from_bits(ASSISTED_END_BITS), Score::from_bits(FROZEN_END_BITS)),
    );
    let mut asks: Table<AutonomyLevel, Strategy> = Table::new();
    let _ = asks.insert(AutonomyLevel::L4FullAutonomy, Strategy::Allow { auto_approve: true });
    let _ = asks.insert(AutonomyLevel::L3Conditional, Strategy::Throttle { max_rate_per_min: 30 });
    let _ = asks.insert(AutonomyLevel::L2SemiAutonomous, Strategy::RequireConfirmation);
    let _ = asks.insert(AutonomyLevel::L1Assisted, Strategy::RequireConfirmation);
    let empty = String::new();
    let _ = asks.insert(AutonomyLevel::L0Frozen, Strategy::Block { reason: empty });
    let weights: [Score; 5] = [
        Score::from_bits(DELEGATOR_DIMENSION_BITS),
        Score::from_bits(TRUST_DIMENSION_BITS),
        Score::from_bits(SENSITIVITY_DIMENSION_BITS),
        Score::from_bits(DOMAIN_DIMENSION_BITS),
        Score::from_bits(ANOMALY_DIMENSION_BITS),
    ];
    assert(weights@ =~= seq![
        Score { bits: DELEGATOR_DIMENSION_BITS },
        Score { bits: TRUST_DIMENSION_BITS },
        Score { bits: SENSITIVITY_DIMENSION_BITS },
        Score { bits: DOMAIN_DIMENSION_BITS },
        Score { bits: ANOMALY_DIMENSION_BITS },
    ]);
    assert(empty@ =~= Seq::<char>::empty());
    DynamicPolicy { dimension_weights: weights, autonomy_thresholds: bands, level_strategies: asks }
}

/// A risk that lies in no band, such as one that is not a number, comes to the lowest level.
pub proof fn law_unmatched_risk_is_frozen(p: &DynamicPolicy, risk: Score)
    requires
        risk.rank() is None || forall|level: AutonomyLevel| !#[trigger] p.covers(level, risk),
    ensures
        p.level_of(risk) == AutonomyLevel::L0Frozen,
        !p.level_of(risk).allows(),
{
}

/// A policy that can be put in force has something to ask of the host at each level with a band.
pub proof fn law_valid_policy_has_strategies(p: &DynamicPolicy, weight_sum: Score, level: AutonomyLevel)
    requires
        p.defect(weight_sum) is None,
        p.bands().contains_key(level),
    ensures
        p.asks().contains_key(level),
        p.bands()[level].0.below(p.bands()[level].1),
{
    match level {
        AutonomyLevel::L0Frozen => {},
        AutonomyLevel::L1Assisted => {},
        AutonomyLevel::L2SemiAutonomous => {},
        AutonomyLevel::L3Conditional => {},
        AutonomyLevel::L4FullAutonomy => {},
    }
}

/// The built-in policy can be put in force with every sum of weights that is about one.
pub proof fn law_built_in_policy_is_valid(p: &DynamicPolicy, weight_sum: Score)
    requires
        is_built_in(p),
        sums_to_one(weight_sum),
    ensures
        p.defect(weight_sum) is None,
{
    let w = p.dimension_weights@;
    reveal_with_fuel(first_bad_weight, 6);
    assert(w.skip(1) =~= seq![w[1], w[2], w[3], w[4]]);
    assert(w.skip(1).skip(1) =~= seq![w[2], w[3], w[4]]);
    assert(w.skip(1).skip(1).skip(1) =~= seq![w[3], w[4]]);
    assert(w.skip(1).skip(1).skip(1).skip(1) =~= seq![w[4]]);
    assert(w.skip(1).skip(1).skip(1).skip(1).skip(1) =~= Seq::<Score>::empty());
    assert(first_bad_weight(w) is None);
    assert(p.bands().contains_key(AutonomyLevel::L0Frozen));
    assert(p.bands().contains_key(AutonomyLevel::L1Assisted));
    assert(p.bands().contains_key(AutonomyLevel::L2SemiAutonomous));
    assert(p.bands().contains_key(AutonomyLevel::L3Conditional));
    assert(p.bands().contains_key(AutonomyLevel::L4FullAutonomy));
}

/// Under the built-in policy exactly the risks from zero to below 0.35 come to a level that
/// allows.
pub proof fn law_built_in_policy_allows_low_risk(p: &DynamicPolicy, risk: Score)
    requires
        is_built_in(p),
    ensures
        p.level_of(risk).allows() <==> risk.reaches(crate::score::zero()) && risk.below(
            Score { bits: CONDITIONAL_END_BITS },
        ),
{
    assert(p.bands().contains_key(AutonomyLevel::L3Conditional));
    assert(p.bands().contains_key(AutonomyLevel::L4FullAutonomy));
}

/// Under the built-in policy more risk never comes to a higher level.
pub proof fn law_built_in_levels_fall_with_risk(p: &DynamicPolicy, low: Score, high: Score)
    requires
        is_built_in(p),
        low.reaches(crate::score::zero()),
        high.reaches(low),
    ensures
        p.level_of(high).number() <= p.level_of(low).number(),
{
    assert(p.bands().contains_key(AutonomyLevel::L0Frozen));
    assert(p.bands().contains_key(AutonomyLevel::L1Assisted));
    assert(p.bands().contains_key(AutonomyLevel::L2SemiAutonomous));
    assert(p.bands().contains_key(AutonomyLevel::L3Conditional));
    assert(p.bands().contains_key(AutonomyLevel::L4FullAutonomy));
}

/// The level of a risk has a band that holds it, from the first number on and below the second, and no
/// higher level has one; the lowest level is that of a risk that no band above it holds.
pub proof fn law_level_is_the_highest_that_holds(p: &DynamicPolicy, risk: Score, level: AutonomyLevel)
    requires
        call_ensures(DynamicPolicy::map_to_level, (p, risk), level),
    ensures
        ({
            let bands = p.autonomy_thresholds@;
            let holds = |l: AutonomyLevel|
                bands.contains_key(l) && risk.reaches(bands[l].0) && risk.below(bands[l].1);
            &&& !(level is L0Frozen) ==> holds(level)
            &&& holds(AutonomyLevel::L4FullAutonomy) ==> level is L4FullAutonomy
            &&& holds(AutonomyLevel::L3Conditional) ==> level is L3Conditional || level is L4FullAutonomy
            &&& holds(AutonomyLevel::L2SemiAutonomous) ==> !(level is L1Assisted) && !(level is L0Frozen)
            &&& holds(AutonomyLevel::L1Assisted) ==> !(level is L0Frozen)
        }),
{
}

/// What a level asks of the host is what is set for it; where nothing is set, it is refused.
pub proof fn law_strategy_is_what_is_set(p: &DynamicPolicy, level: AutonomyLevel, asked: Strategy)
    requires
        call_ensures(DynamicPolicy::strategy_for, (p, level), asked),
    ensures
        p.level_strategies@.contains_key(level) ==> asked@ == p.level_strategies@[level]@,
        !p.level_strategies@.contains_key(level) ==> asked@ == StrategyView::Block("no-strategy-defined"@),
{
}

/// Whether the band of a level starts at zero or above, ends at 1.1 or below, has something in it, and
/// comes with something to ask of the host; a level without a band is sound.
pub open spec fn is_sound_at(p: &DynamicPolicy, level: AutonomyLevel) -> bool {
    let bands = p.autonomy_thresholds@;
    bands.contains_key(level) ==> {
        &&& bands[level].0.below(bands[level].1)
        &&& !bands[level].0.below(Score { bits: 0 })
        &&& !(Score { bits: 0x3FF1_9999_9999_999A }).below(bands[level].1)
        &&& p.level_strategies@.contains_key(level)
    }
}

/// A policy can be put in force exactly if its weights add up to one within 0.05, each weight is from
/// zero to one, and each band is sound. Otherwise what is reported is wrong with it.
pub proof fn law_policy_is_valid_iff_sound(p: &DynamicPolicy, weight_sum: Score, r: Result<(), PolicyDefect>)
    requires
        call_ensures(DynamicPolicy::validate, (p, weight_sum), r),
    ensures
        r is Ok <==> {
            &&& !weight_sum.below(Score { bits: 0x3FEE_6666_6666_6667 })
            &&& !(Score { bits: 0x3FF0_CCCC_CCCC_CCCC }).below(weight_sum)
            &&& forall|i: int|
                0 <= i < 5 ==> (#[trigger] p.dimension_weights@[i]).reaches(Score { bits: 0 }) && (Score {
                    bits: 0x3FF0_0000_0000_0000,
                }).reaches(p.dimension_weights@[i])
            &&& forall|level: AutonomyLevel| #[trigger] is_sound_at(p, level)
        },
        match r {
            Err(PolicyDefect::WeightSum(sum)) => sum == weight_sum && (sum.below(Score { bits: 0x3FEE_6666_6666_6667 }) || (
            Score { bits: 0x3FF0_CCCC_CCCC_CCCC }).below(sum)),
            Err(PolicyDefect::Weight(w)) => {
                &&& p.dimension_weights@.contains(w)
                &&& !(w.reaches(Score { bits: 0 }) && (Score { bits: 0x3FF0_0000_0000_0000 }).reaches(w))
            },
            Err(PolicyDefect::EmptyBand(level, min, max)) => {
                &&& p.autonomy_thresholds@.contains_key(level)
                &&& p.autonomy_thresholds@[level] == (min, max)
                &&& !min.below(max)
            },
            Err(PolicyDefect::BandRange(level, min, max)) => {
                &&& p.autonomy_thresholds@.contains_key(level)
                &&& p.autonomy_thresholds@[level] == (min, max)
                &&& min.below(Score { bits: 0 }) || (Score { bits: 0x3FF1_9999_9999_999A }).below(max)
            },
            Err(PolicyDefect::NoStrategy(level)) => {
                &&& p.autonomy_thresholds@.contains_key(level)
                &&& !p.level_strategies@.contains_key(level)
            },
            Ok(()) => true,
        },
{
    let w = p.dimension_weights@;
    assert(w.len() == 5);
    lemma_bad_weight(w);
    assert forall|level: AutonomyLevel| #[trigger] is_sound_at(p, level) <==> p.band_defect(level) is None by {}
    if r is Ok {
        assert forall|level: AutonomyLevel| #[trigger] is_sound_at(p, level) by {
            match level {
                AutonomyLevel::L0Frozen => {},
                AutonomyLevel::L1Assisted => {},
                AutonomyLevel::L2SemiAutonomous => {},
                AutonomyLevel::L3Conditional => {},
                AutonomyLevel::L4FullAutonomy => {},
            }
        }
    } else {
        assert(is_sound_at(p, AutonomyLevel::L0Frozen) <==> p.band_defect(AutonomyLevel::L0Frozen) is None);
        assert(is_sound_at(p, AutonomyLevel::L1Assisted) <==> p.band_defect(AutonomyLevel::L1Assisted) is None);
        assert(is_sound_at(p, AutonomyLevel::L2SemiAutonomous) <==> p.band_defect(AutonomyLevel::L2SemiAutonomous)
            is None);
        assert(is_sound_at(p, AutonomyLevel::L3Conditional) <==> p.band_defect(AutonomyLevel::L3Conditional) is None);
        assert(is_sound_at(p, AutonomyLevel::L4FullAutonomy) <==> p.band_defect(AutonomyLevel::L4FullAutonomy) is None);
    }
}

/// The first weight that is out of range is one that is, and there is one unless all are in range.
proof fn lemma_bad_weight(w: Seq<Score>)
    ensures
        first_bad_weight(w) matches Some(x) ==> w.contains(x) && !is_weight(x),
        first_bad_weight(w) is None <==> forall|i: int| 0 <= i < w.len() ==> is_weight(#[trigger] w[i]),
    decreases w.len(),
{
    if w.len() > 0 {
        let rest = w.skip(1);
        lemma_bad_weight(rest);
        if !is_weight(w[0]) {
            assert(w.contains(w[0]));
        } else {
            if let Some(x) = first_bad_weight(rest) {
                let i = choose|i: int| 0 <= i < rest.len() && rest[i] == x;
                assert(w[i + 1] == x);
            } else {
                assert forall|i: int| 0 <= i < w.len() implies is_weight(#[trigger] w[i]) by {
                    if i > 0 {
                        assert(rest[i - 1] == w[i]);
                    }
                }
            }
        }
    }
}

/// The built-in policy: full autonomy below 0.15 and approved beforehand, thirty actions in a minute
/// below 0.35, a person asked below 0.60 and below 0.80, and a refusal from there on.
pub proof fn law_built_in_policy(p: DynamicPolicy, risk: Score, level: AutonomyLevel)
    requires
        call_ensures(default_dynamic_policy, (), p),
        call_ensures(DynamicPolicy::map_to_level, (&p, risk), level),
        risk.reaches(Score { bits: 0 }),
    ensures
        p.dimension_weights@.map_values(|s: Score| s.bits) == seq![
            0x3FB9_9999_9999_999Au64,
            0x3FD3_3333_3333_3333u64,
            0x3FD0_0000_0000_0000u64,
            0x3FD0_0000_0000_0000u64,
            0x3FB9_9999_9999_999Au64,
        ],
        level is L4FullAutonomy <==> risk.below(Score { bits: 0x3FC3_3333_3333_3333 }),
        level is L4FullAutonomy || level is L3Conditional <==> risk.below(Score { bits: 0x3FD6_6666_6666_6666 }),
        level is L1Assisted || level is L0Frozen <==> risk.reaches(Score { bits: 0x3FE3_3333_3333_3333 }),
        level is L0Frozen <==> risk.reaches(Score { bits: 0x3FE9_9999_9999_999A }),
        p.level_strategies@[AutonomyLevel::L4FullAutonomy]@ == StrategyView::Allow(true),
        p.level_strategies@[AutonomyLevel::L3Conditional]@ == StrategyView::Throttle(30),
        p.level_strategies@[AutonomyLevel::L2SemiAutonomous]@ == StrategyView::RequireConfirmation,
        p.level_strategies@[AutonomyLevel::L1Assisted]@ == StrategyView::RequireConfirmation,
        p.level_strategies@[AutonomyLevel::L0Frozen]@ == StrategyView::Block(Seq::<char>::empty()),
        forall|l: AutonomyLevel| #[trigger] p.level_strategies@.contains_key(l),
{
    assert(p.bands().contains_key(AutonomyLevel::L0Frozen));
    assert(p.bands().contains_key(AutonomyLevel::L1Assisted));
    assert(p.bands().contains_key(AutonomyLevel::L2SemiAutonomous));
    assert(p.bands().contains_key(AutonomyLevel::L3Conditional));
    assert(p.bands().contains_key(AutonomyLevel::L4FullAutonomy));
    assert forall|l: AutonomyLevel| #[trigger] p.level_strategies@.contains_key(l) by {
        assert(p.bands().contains_key(l));
    }
    assert(p.dimension_weights@.map_values(|s: Score| s.bits) =~= seq![
        0x3FB9_9999_9999_999Au64,
        0x3FD3_3333_3333_3333u64,
        0x3FD0_0000_0000_0000u64,
        0x3FD0_0000_0000_0000u64,
        0x3FB9_9999_9999_999Au64,
    ]);
}

} // verus!
