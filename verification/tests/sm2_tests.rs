use revise::sm2::{SmValue, INITIAL_EASE_FACTOR, MIN_EASE_FACTOR};
use revise::sm2;

#[test]
fn first_review_works() {
    let quality = 5;
    let prev = SmValue::inital();
    let resp = sm2::calc(quality, prev);
    let expected = SmValue {
        repetitions: 1,
        interval: 1,
        ease_factor: 260,
    };
    assert_eq!(resp, expected);
}

#[test]
fn second_review_works() {
    let quality = 5;
    let prev = SmValue {
        repetitions: 1,
        interval: 1,
        ease_factor: 260,
    };
    let resp = sm2::calc(quality, prev);
    let expected = SmValue {
        repetitions: 2,
        interval: 6,
        ease_factor: 270,
    };
    assert_eq!(resp, expected);
}

#[test]
fn third_review_works() {
    let quality = 5;
    let prev = SmValue {
        repetitions: 2,
        interval: 5,
        ease_factor: 250,
    };
    let resp = sm2::calc(quality, prev);
    // 5 days stretched by an ease factor of 2.5 gives 12.5, truncating to 12.
    let expected = SmValue {
        repetitions: 3,
        interval: 12,
        ease_factor: 260,
    };
    assert_eq!(resp, expected);
}

#[test]
fn inital_state_is_fresh() {
    let s = SmValue::inital();
    assert_eq!(s.repetitions, 0);
    assert_eq!(s.interval, 0);
    assert_eq!(s.ease_factor, INITIAL_EASE_FACTOR);
}

#[test]
fn failing_quality_resets() {
    for quality in 0..3 {
        let prev = SmValue {
            repetitions: 7,
            interval: 42,
            ease_factor: 305,
        };
        let resp = sm2::calc(quality, prev);
        assert_eq!(resp.repetitions, 0);
        assert_eq!(resp.interval, 1);
        assert_eq!(resp.ease_factor, 305);
    }
}

#[test]
fn ease_factor_clamped_at_floor() {
    // Quality 3 moves the ease factor by -0.14; from 1.36 that lands below
    // the floor of 1.3 and is clamped to exactly 1.3.
    let prev = SmValue {
        repetitions: 2,
        interval: 10,
        ease_factor: 136,
    };
    let resp = sm2::calc(3, prev);
    assert_eq!(resp.ease_factor, MIN_EASE_FACTOR);
    assert_eq!(resp.repetitions, 3);
}

#[test]
fn calc_is_deterministic() {
    let prev = SmValue {
        repetitions: 3,
        interval: 17,
        ease_factor: 221,
    };
    let a = sm2::calc(4, prev);
    let b = sm2::calc(4, prev);
    assert_eq!(a, b);
}
