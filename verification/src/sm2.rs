//! The interval/ease scheduling model.
//!
//! A pure function maps a recall quality in `[0, 5]` and the prior scheduling
//! state to the next state. Ease factors are held as fixed-point integers in
//! hundredths, so `250` stands for an ease factor of 2.5 and the floor of 1.3
//! is `130`.

use vstd::prelude::*;

verus! {

/// Smallest ease factor the model allows, in hundredths.
pub const MIN_EASE_FACTOR: i64 = 130;

/// Ease factor of a never-reviewed entity, in hundredths.
pub const INITIAL_EASE_FACTOR: i64 = 250;

/// Per-entity scheduling state of the interval/ease model.
///
/// `ease_factor` is a fixed-point value in hundredths of the multiplier that
/// stretches the interval after each successful recall.
#[derive(Clone, Copy, PartialEq, Eq, Structural, Debug)]
pub struct SmValue {
    pub repetitions: i64,
    pub interval: i64,
    pub ease_factor: i64,
}

/// Well-formedness of a scheduling state: counters are non-negative and the
/// ease factor never sits below the floor.
pub open spec fn sm_wf(s: SmValue) -> bool {
    &&& s.repetitions >= 0
    &&& s.interval >= 0
    &&& s.ease_factor >= MIN_EASE_FACTOR
}

impl SmValue {
    /// The state a freshly created entity starts from.
    pub fn inital() -> (s: SmValue)
        ensures
            s == (SmValue { repetitions: 0, interval: 0, ease_factor: INITIAL_EASE_FACTOR }),
            sm_wf(s),
    {
        SmValue { repetitions: 0, interval: 0, ease_factor: INITIAL_EASE_FACTOR }
    }
}

/// How much the ease factor moves for a given quality, in hundredths.
///
/// For a pass this is `0.1 - (5 - quality) * (0.08 + (5 - quality) * 0.02)`
/// written over hundredths, where every term is exact.
pub open spec fn ease_delta(quality: u32) -> int {
    let d: int = 5 - quality;
    10 - 8 * d - 2 * (d * d)
}

/// The next scheduling state for a recall of the given quality.
///
/// A pass (`quality >= 3`) grows the interval — one day on the first success,
/// six on the second, then the prior interval stretched by the ease factor,
/// truncating toward zero — and moves the ease factor by `ease_delta`. A fail
/// resets the repetition count and schedules a one-day interval, leaving the
/// ease factor alone. Either way the ease factor is clamped to the floor.
pub open spec fn calc_spec(quality: u32, prev: SmValue) -> SmValue {
    let (interval, repetitions, raw_ease) = if quality >= 3 {
        let interval: int = if prev.repetitions == 0 {
            1
        } else if prev.repetitions == 1 {
            6
        } else {
            (prev.interval * prev.ease_factor) / 100
        };
        (interval, prev.repetitions + 1, prev.ease_factor + ease_delta(quality))
    } else {
        (1, 0, prev.ease_factor as int)
    };
    let ease_factor: int = if raw_ease < MIN_EASE_FACTOR { MIN_EASE_FACTOR as int } else { raw_ease };
    SmValue {
        repetitions: repetitions as i64,
        interval: interval as i64,
        ease_factor: ease_factor as i64,
    }
}

/// Advance the scheduling state by one review of the given quality.
pub fn calc(quality: u32, prev: SmValue) -> (next: SmValue)
    requires
        quality <= 5,
        sm_wf(prev),
        prev.repetitions < i64::MAX,
        prev.interval * prev.ease_factor <= i64::MAX,
        prev.ease_factor <= i64::MAX - 10,
    ensures
        next == calc_spec(quality, prev),
        sm_wf(next),
{
    proof {
        lemma_calc_wf(quality, prev);
    }
    let (interval, repetitions, raw_ease): (i64, i64, i64) = if quality >= 3 {
        let interval: i64 = if prev.repetitions == 0 {
            1
        } else if prev.repetitions == 1 {
            6
        } else {
            proof {
                vstd::arithmetic::mul::lemma_mul_nonnegative(
                    prev.interval as int,
                    prev.ease_factor as int,
                );
            }
            (prev.interval * prev.ease_factor) / 100
        };
        let d: i64 = (5 - quality) as i64;
        proof {
            assert(0 <= d * d <= 25) by (nonlinear_arith)
                requires
                    0 <= d <= 5,
            ;
        }
        let dd: i64 = d * d;
        let raw_ease: i64 = prev.ease_factor + (10 - 8 * d - 2 * dd);
        (interval, prev.repetitions + 1, raw_ease)
    } else {
        (1, 0, prev.ease_factor)
    };
    let ease_factor: i64 = if raw_ease < MIN_EASE_FACTOR { MIN_EASE_FACTOR } else { raw_ease };
    SmValue { repetitions, interval, ease_factor }
}

/// On any well-formed prior state, the next state is well-formed again.
pub proof fn lemma_calc_wf(quality: u32, prev: SmValue)
    requires
        quality <= 5,
        sm_wf(prev),
        prev.repetitions < i64::MAX,
        prev.interval * prev.ease_factor <= i64::MAX,
        prev.ease_factor <= i64::MAX - 10,
    ensures
        sm_wf(calc_spec(quality, prev)),
        MIN_EASE_FACTOR <= calc_spec(quality, prev).ease_factor <= prev.ease_factor + 10,
        0 <= calc_spec(quality, prev).repetitions <= prev.repetitions + 1,
{
    vstd::arithmetic::mul::lemma_mul_nonnegative(prev.interval as int, prev.ease_factor as int);
    if quality >= 3 && prev.repetitions >= 2 {
        vstd::arithmetic::div_mod::lemma_div_is_ordered_by_denominator(
            prev.interval * prev.ease_factor,
            1,
            100,
        );
    }
}

/// For every pass (`quality >= 3`) the resulting ease factor stays at or
/// above the floor: the clamp invariant.
pub proof fn lemma_pass_keeps_ease_floor(quality: u32, prev: SmValue)
    requires
        3 <= quality <= 5,
        prev.ease_factor <= i64::MAX - 10,
    ensures
        calc_spec(quality, prev).ease_factor >= MIN_EASE_FACTOR,
{
}

/// Every failing quality (`quality < 3`) resets the repetition count to zero
/// and schedules a one-day interval, regardless of the prior state.
pub proof fn lemma_fail_resets(quality: u32, prev: SmValue)
    requires
        quality < 3,
    ensures
        calc_spec(quality, prev).repetitions == 0,
        calc_spec(quality, prev).interval == 1,
{
}

/// The model is a pure function: identical quality and prior state give an
/// identical next state, with no hidden inputs.
pub proof fn lemma_calc_deterministic(q1: u32, prev1: SmValue, q2: u32, prev2: SmValue)
    requires
        q1 == q2,
        prev1 == prev2,
    ensures
        calc_spec(q1, prev1) == calc_spec(q2, prev2),
{
}

} // verus!
