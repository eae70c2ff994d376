//! Decisions of the Graceful Degradation Score (GDS).
//!
//! GDS averages completion rates over stress levels; beside the score it
//! reports how monotone and how smooth the degradation curve is. The
//! structure of that computation (which observations count as evidence, the
//! order of the curve, how many steps fall, which smoothness formula applies)
//! is decided here. Stress levels and completion rates are compared through
//! integer keys that order them as the values themselves are ordered.

use vstd::prelude::*;
use crate::order::{arrange, is_stable_order, stable_order};

verus! {

/// The observations that carry both a stress level and a completion rate, in
/// their input order.
pub open spec fn evidence<T>(obs: Seq<(Option<T>, Option<T>)>) -> Seq<(T, T)>
    decreases obs.len(),
{
    if obs.len() == 0 {
        Seq::empty()
    } else {
        let rest = evidence(obs.drop_last());
        match obs.last() {
            (Some(level), Some(rate)) => rest.push((level, rate)),
            _ => rest,
        }
    }
}

/// Keeps the (stress level, completion rate) pairs of the observations that
/// carry both, in order.
pub fn paired_evidence<T: Copy>(observations: &[(Option<T>, Option<T>)]) -> (pairs: Vec<(T, T)>)
    ensures
        pairs@ == evidence(observations@),
        pairs@ == observations@.filter(
            |o: (Option<T>, Option<T>)| o.0 is Some && o.1 is Some,
        ).map_values(|o: (Option<T>, Option<T>)| (o.0->0, o.1->0)),
{
    let mut pairs: Vec<(T, T)> = Vec::new();
    let mut i: usize = 0;
    while i < observations.len()
        invariant
            i <= observations@.len(),
            pairs@ == evidence(observations@.take(i as int)),
        decreases observations@.len() - i,
    {
        assert(observations@.take(i + 1).drop_last() =~= observations@.take(i as int));
        assert(observations@.take(i + 1).last() == observations@[i as int]);
        match observations[i] {
            (Some(level), Some(rate)) => {
                pairs.push((level, rate));
            },
            _ => {},
        }
        i = i + 1;
    }
    assert(observations@.take(observations@.len() as int) =~= observations@);
    proof {
        lemma_evidence_is_filter(observations@);
    }
    pairs
}

/// The reason given when no observation carries both a stress level and a
/// completion rate.
pub fn no_evidence_reason() -> (s: String)
    ensures
        s@ == "No (stress_level, completion_rate) evidence found"@,
{
    String::from_str("No (stress_level, completion_rate) evidence found")
}

/// The number of adjacent pairs of the curve in which the later value is not
/// above the earlier one.
pub open spec fn non_increasing_steps(keys: Seq<u64>) -> nat
    decreases keys.len(),
{
    if keys.len() < 2 {
        0
    } else {
        non_increasing_steps(keys.drop_last()) + if keys.last() <= keys[keys.len() - 2] {
            1nat
        } else {
            0nat
        }
    }
}

/// The number of adjacent pairs of the curve in which the value falls.
pub open spec fn falling_steps(keys: Seq<u64>) -> nat
    decreases keys.len(),
{
    if keys.len() < 2 {
        0
    } else {
        falling_steps(keys.drop_last()) + if keys.last() < keys[keys.len() - 2] {
            1nat
        } else {
            0nat
        }
    }
}

/// The curve never rises.
pub open spec fn never_rises(keys: Seq<u64>) -> bool {
    forall|i: int| 0 <= i < keys.len() - 1 ==> #[trigger] keys[i + 1] <= keys[i]
}

/// The curve never falls.
pub open spec fn never_falls(keys: Seq<u64>) -> bool {
    forall|i: int| 0 <= i < keys.len() - 1 ==> #[trigger] keys[i + 1] >= keys[i]
}

proof fn lemma_steps_bounded(keys: Seq<u64>)
    requires
        keys.len() >= 1,
    ensures
        non_increasing_steps(keys) <= keys.len() - 1,
        falling_steps(keys) <= keys.len() - 1,
        non_increasing_steps(keys) == keys.len() - 1 <==> never_rises(keys),
        falling_steps(keys) == 0 <==> never_falls(keys),
    decreases keys.len(),
{
    if keys.len() >= 2 {
        let front = keys.drop_last();
        lemma_steps_bounded(front);
        assert forall|i: int| 0 <= i < front.len() - 1 implies #[trigger] front[i + 1] == keys[i
            + 1] && front[i] == keys[i] by {}
        if never_rises(keys) {
            assert forall|i: int| 0 <= i < front.len() - 1 implies #[trigger] front[i + 1]
                <= front[i] by {
                assert(keys[i + 1] <= keys[i]);
            }
            assert(keys[keys.len() - 2 + 1] <= keys[keys.len() - 2]);
        }
        if non_increasing_steps(keys) == keys.len() - 1 {
            assert forall|i: int| 0 <= i < keys.len() - 1 implies #[trigger] keys[i + 1]
                <= keys[i] by {
                if i < keys.len() - 2 {
                    assert(front[i + 1] <= front[i]);
                }
            }
        }
        if never_falls(keys) {
            assert forall|i: int| 0 <= i < front.len() - 1 implies #[trigger] front[i + 1]
                >= front[i] by {
                assert(keys[i + 1] >= keys[i]);
            }
            assert(keys[keys.len() - 2 + 1] >= keys[keys.len() - 2]);
        }
        if falling_steps(keys) == 0 {
            assert forall|i: int| 0 <= i < keys.len() - 1 implies #[trigger] keys[i + 1]
                >= keys[i] by {
                if i < keys.len() - 2 {
                    assert(front[i + 1] >= front[i]);
                }
            }
        }
    }
}

/// The positions `i` (from 1) at which the curve does not rise from the
/// point before: `keys[i] <= keys[i - 1]`.
pub open spec fn non_rising_positions(keys: Seq<u64>) -> Set<int> {
    Set::new(|i: int| 1 <= i < keys.len() && keys[i] <= keys[i - 1])
}

/// The positions `i` (from 1) at which the curve falls from the point
/// before: `keys[i] < keys[i - 1]`.
pub open spec fn falling_positions(keys: Seq<u64>) -> Set<int> {
    Set::new(|i: int| 1 <= i < keys.len() && keys[i] < keys[i - 1])
}

/// Law: the step counts are the numbers of adjacent pairs whose later key is
/// not above, respectively below, the earlier one.
pub proof fn lemma_step_counts(keys: Seq<u64>)
    ensures
        non_rising_positions(keys).finite(),
        non_increasing_steps(keys) == non_rising_positions(keys).len(),
        falling_positions(keys).finite(),
        falling_steps(keys) == falling_positions(keys).len(),
    decreases keys.len(),
{
    if keys.len() < 2 {
        assert(non_rising_positions(keys) =~= Set::<int>::empty());
        assert(falling_positions(keys) =~= Set::<int>::empty());
    } else {
        let front = keys.drop_last();
        let n = keys.len() as int;
        lemma_step_counts(front);
        assert(!non_rising_positions(front).contains(n - 1));
        assert(!falling_positions(front).contains(n - 1));
        if keys[n - 1] <= keys[n - 2] {
            assert(non_rising_positions(keys) =~= non_rising_positions(front).insert(n - 1));
        } else {
            assert(non_rising_positions(keys) =~= non_rising_positions(front));
        }
        if keys[n - 1] < keys[n - 2] {
            assert(falling_positions(keys) =~= falling_positions(front).insert(n - 1));
        } else {
            assert(falling_positions(keys) =~= falling_positions(front));
        }
    }
}

/// Law: the evidence is the observations that carry both values, each
/// reduced to its pair of values, in order.
pub proof fn lemma_evidence_is_filter<T>(obs: Seq<(Option<T>, Option<T>)>)
    ensures
        evidence(obs) == obs.filter(|o: (Option<T>, Option<T>)| o.0 is Some && o.1 is Some).map_values(
            |o: (Option<T>, Option<T>)| (o.0->0, o.1->0),
        ),
    decreases obs.len(),
{
    reveal(Seq::filter);
    if obs.len() > 0 {
        lemma_evidence_is_filter(obs.drop_last());
        let f = obs.filter(|o: (Option<T>, Option<T>)| o.0 is Some && o.1 is Some);
        let g = obs.drop_last().filter(|o: (Option<T>, Option<T>)| o.0 is Some && o.1 is Some);
        if obs.last().0 is Some && obs.last().1 is Some {
            assert(f == g.push(obs.last()));
            assert(f.map_values(|o: (Option<T>, Option<T>)| (o.0->0, o.1->0)) =~= g.map_values(
                |o: (Option<T>, Option<T>)| (o.0->0, o.1->0),
            ).push((obs.last().0->0, obs.last().1->0)));
        } else {
            assert(f == g);
        }
    } else {
        assert(obs.filter(|o: (Option<T>, Option<T>)| o.0 is Some && o.1 is Some).map_values(
            |o: (Option<T>, Option<T>)| (o.0->0, o.1->0),
        ) =~= Seq::<(T, T)>::empty());
    }
}

/// How many of the steps of a degradation curve do not rise.
#[derive(Clone, Copy, Debug, PartialEq, Eq, Structural)]
pub struct MonotoneSteps {
    /// Adjacent pairs whose later completion rate is not above the earlier.
    pub non_increasing: usize,
    /// All adjacent pairs of the curve.
    pub pairs: usize,
}

/// The step counts of a curve of at least two points.
pub open spec fn monotone_of(keys: Seq<u64>) -> Option<MonotoneSteps> {
    if keys.len() < 2 {
        None
    } else {
        Some(
            MonotoneSteps {
                non_increasing: non_increasing_steps(keys) as usize,
                pairs: (keys.len() - 1) as usize,
            },
        )
    }
}

/// Counts the non-rising steps of the curve of completion rates, given as
/// order keys in stress-level order; the monotonicity is their fraction of
/// all steps. A curve of fewer than two points has none.
pub fn monotone_steps(rate_keys: &[u64]) -> (m: Option<MonotoneSteps>)
    ensures
        m == monotone_of(rate_keys@),
        m matches Some(c) ==> {
            &&& c.non_increasing == non_rising_positions(rate_keys@).len()
            &&& c.non_increasing <= c.pairs
            &&& (c.non_increasing == c.pairs <==> never_rises(rate_keys@))
        },
{
    let n = rate_keys.len();
    if n < 2 {
        return None;
    }
    let mut count: usize = 0;
    let mut i: usize = 1;
    while i < n
        invariant
            n == rate_keys@.len(),
            1 <= i <= n,
            count == non_increasing_steps(rate_keys@.take(i as int)),
            count < i,
        decreases n - i,
    {
        let ghost front = rate_keys@.take(i + 1);
        assert(front.drop_last() =~= rate_keys@.take(i as int));
        if rate_keys[i] <= rate_keys[i - 1] {
            count = count + 1;
        }
        i = i + 1;
    }
    assert(rate_keys@.take(n as int) =~= rate_keys@);
    proof {
        lemma_steps_bounded(rate_keys@);
        lemma_step_counts(rate_keys@);
    }
    Some(MonotoneSteps { non_increasing: count, pairs: n - 1 })
}

/// Which formula gives the smoothness of a degradation curve.
#[derive(Clone, Copy, Debug, PartialEq, Eq, Structural)]
pub enum SmoothnessRule {
    /// Fewer than two points: no smoothness.
    Undefined,
    /// Smoothness 1: the curve never falls, or has one step and it falls.
    Smooth,
    /// Smoothness 0: the whole drop happens in one of several steps.
    Cliff,
    /// Smoothness is the normalized entropy of the falling steps' shares of
    /// the total drop; `falling` steps fall.
    Entropy { falling: usize },
}

/// The smoothness rule of a curve.
pub open spec fn smoothness_of(keys: Seq<u64>) -> SmoothnessRule {
    if keys.len() < 2 {
        SmoothnessRule::Undefined
    } else if falling_steps(keys) == 0 {
        SmoothnessRule::Smooth
    } else if falling_steps(keys) == 1 {
        if keys.len() == 2 {
            SmoothnessRule::Smooth
        } else {
            SmoothnessRule::Cliff
        }
    } else {
        SmoothnessRule::Entropy { falling: falling_steps(keys) as usize }
    }
}

/// Decides how the smoothness of the curve of completion rates, given as
/// order keys in stress-level order, is computed.
pub fn smoothness_rule(rate_keys: &[u64]) -> (rule: SmoothnessRule)
    ensures
        rule == smoothness_of(rate_keys@),
        rule matches SmoothnessRule::Entropy { falling } ==> falling == falling_positions(
            rate_keys@,
        ).len(),
        rule is Smooth && rate_keys@.len() > 2 ==> never_falls(rate_keys@),
{
    let n = rate_keys.len();
    if n < 2 {
        return SmoothnessRule::Undefined;
    }
    let mut falling: usize = 0;
    let mut i: usize = 1;
    while i < n
        invariant
            n == rate_keys@.len(),
            1 <= i <= n,
            falling == falling_steps(rate_keys@.take(i as int)),
            falling < i,
        decreases n - i,
    {
        let ghost front = rate_keys@.take(i + 1);
        assert(front.drop_last() =~= rate_keys@.take(i as int));
        if rate_keys[i] < rate_keys[i - 1] {
            falling = falling + 1;
        }
        i = i + 1;
    }
    assert(rate_keys@.take(n as int) =~= rate_keys@);
    proof {
        lemma_steps_bounded(rate_keys@);
        lemma_step_counts(rate_keys@);
    }
    if falling == 0 {
        SmoothnessRule::Smooth
    } else if falling == 1 {
        if n == 2 {
            SmoothnessRule::Smooth
        } else {
            SmoothnessRule::Cliff
        }
    } else {
        SmoothnessRule::Entropy { falling }
    }
}

/// Law: a flat degradation curve (every completion rate equal, as when all
/// work completes at every stress level) is fully monotone and smooth.
pub proof fn lemma_flat_curve(keys: Seq<u64>)
    requires
        keys.len() >= 2,
        forall|i: int| 0 <= i < keys.len() ==> #[trigger] keys[i] == keys[0],
    ensures
        monotone_of(keys) matches Some(c) && c.non_increasing == c.pairs,
        smoothness_of(keys) == SmoothnessRule::Smooth,
{
    assert forall|i: int| 0 <= i < keys.len() - 1 implies #[trigger] keys[i + 1] <= keys[i] by {
        assert(keys[i + 1] == keys[0]);
        assert(keys[i] == keys[0]);
    }
    assert forall|i: int| 0 <= i < keys.len() - 1 implies #[trigger] keys[i + 1] >= keys[i] by {
        assert(keys[i + 1] == keys[0]);
        assert(keys[i] == keys[0]);
    }
    lemma_steps_bounded(keys);
}

/// Law: a curve that falls at every step has every step counted as
/// non-rising, and its smoothness is the entropy of all its steps (or 1 for a
/// single step).
pub proof fn lemma_steadily_falling_curve(keys: Seq<u64>)
    requires
        keys.len() >= 2,
        forall|i: int| 0 <= i < keys.len() - 1 ==> #[trigger] keys[i + 1] < keys[i],
    ensures
        monotone_of(keys) matches Some(c) && c.non_increasing == c.pairs,
        keys.len() == 2 ==> smoothness_of(keys) == SmoothnessRule::Smooth,
        keys.len() > 2 ==> smoothness_of(keys) == (SmoothnessRule::Entropy {
            falling: (keys.len() - 1) as usize,
        }),
{
    lemma_steps_bounded(keys);
    lemma_all_steps_fall(keys);
}

proof fn lemma_all_steps_fall(keys: Seq<u64>)
    requires
        keys.len() >= 1,
        forall|i: int| 0 <= i < keys.len() - 1 ==> #[trigger] keys[i + 1] < keys[i],
    ensures
        falling_steps(keys) == keys.len() - 1,
    decreases keys.len(),
{
    if keys.len() >= 2 {
        let front = keys.drop_last();
        assert forall|i: int| 0 <= i < front.len() - 1 implies #[trigger] front[i + 1] < front[i] by {
            assert(keys[i + 1] < keys[i]);
        }
        lemma_all_steps_fall(front);
        assert(keys[keys.len() - 2 + 1] < keys[keys.len() - 2]);
    }
}

/// The completion rates keyed `rate_keys`, arranged in the given order.
pub open spec fn arranged(rate_keys: Seq<u64>, order: Seq<usize>) -> Seq<u64> {
    order.map_values(|i: usize| rate_keys[i as int])
}

/// The first position whose completion rate lies outside the bounds.
pub open spec fn first_out_of_bounds(rate_keys: Seq<u64>, lowest: u64, highest: u64) -> Option<
    int,
> {
    if exists|i: int| 0 <= i < rate_keys.len() && !(lowest <= #[trigger] rate_keys[i] <= highest) {
        Some(
            choose|i: int|
                0 <= i < rate_keys.len() && !(lowest <= #[trigger] rate_keys[i] <= highest)
                    && forall|j: int| 0 <= j < i ==> lowest <= #[trigger] rate_keys[j] <= highest,
        )
    } else {
        None
    }
}

/// How the score of a set of (stress level, completion rate) pairs is
/// reported.
#[derive(Debug)]
pub enum GdsPlan {
    /// No pair: the score is N/A for lack of evidence.
    NoEvidence,
    /// The completion rate of pair `index` (the first such) is outside
    /// [0, 1]: the score is N/A.
    RateOutOfBounds { index: usize },
    /// The score is the mean completion rate; the curve is the pairs in
    /// `order` (ascending stress level), with its step counts and the rule of
    /// its smoothness.
    Curve { order: Vec<usize>, monotone: Option<MonotoneSteps>, smoothness: SmoothnessRule },
}

/// Plans the Graceful Degradation Score of the pairs whose stress levels
/// and completion rates are keyed `level_keys` and `rate_keys`; `lowest` and
/// `highest` are the keys of completion rates 0 and 1.
pub fn gds_plan(level_keys: &[u64], rate_keys: &[u64], lowest: u64, highest: u64) -> (plan: GdsPlan)
    requires
        level_keys@.len() == rate_keys@.len(),
    ensures
        rate_keys@.len() == 0 ==> plan is NoEvidence,
        rate_keys@.len() > 0 ==> match first_out_of_bounds(rate_keys@, lowest, highest) {
            Some(i) => plan matches GdsPlan::RateOutOfBounds { index } && index == i,
            None => plan matches GdsPlan::Curve { order, monotone, smoothness } && {
                &&& is_stable_order(level_keys@, order@)
                &&& monotone == monotone_of(arranged(rate_keys@, order@))
                &&& smoothness == smoothness_of(arranged(rate_keys@, order@))
            },
        },
{
    let n = rate_keys.len();
    if n == 0 {
        return GdsPlan::NoEvidence;
    }
    let mut i: usize = 0;
    while i < n
        invariant
            n == rate_keys@.len(),
            i <= n,
            forall|j: int| 0 <= j < i ==> lowest <= #[trigger] rate_keys@[j] <= highest,
        decreases n - i,
    {
        if rate_keys[i] < lowest || rate_keys[i] > highest {
            assert(exists|k: int|
                0 <= k < rate_keys@.len() && !(lowest <= #[trigger] rate_keys@[k] <= highest));
            let ghost c = first_out_of_bounds(rate_keys@, lowest, highest)->0;
            assert(c == i as int) by {
                if c < i {
                    assert(lowest <= rate_keys@[c] <= highest);
                } else if c > i {
                    assert(lowest <= rate_keys@[i as int] <= highest);
                }
            }
            return GdsPlan::RateOutOfBounds { index: i };
        }
        i = i + 1;
    }
    let order = stable_order(level_keys);
    let curve = arrange(rate_keys, &order);
    assert(curve@ =~= arranged(rate_keys@, order@));
    let monotone = monotone_steps(&curve);
    let smoothness = smoothness_rule(&curve);
    GdsPlan::Curve { order, monotone, smoothness }
}

} // verus!
