use revise::conductor::{select_state, MemoryValue, NextState, NextStates};

fn pack(s: &fsrs::ItemState) -> NextState {
    NextState {
        memory: MemoryValue {
            difficulty: f32::to_bits(s.memory.difficulty),
            stability: f32::to_bits(s.memory.stability),
        },
        interval: s.interval.round().max(0.0) as u32,
    }
}

#[test]
fn memory_model_states_stay_in_domain() {
    let model = fsrs::FSRS::new(&[]).unwrap();
    for days in [0u32, 1, 10, 365] {
        let raw = model.next_states(None, 0.9, days).unwrap();
        for s in [&raw.again, &raw.hard, &raw.good, &raw.easy] {
            assert!(s.memory.stability.is_finite());
            assert!(s.memory.stability > 0.0);
            assert!(s.memory.difficulty.is_finite());
            assert!(s.interval.is_finite());
            assert!(s.interval >= 0.0);
        }
    }
}

#[test]
fn memory_model_accepts_prior_state() {
    let model = fsrs::FSRS::new(&[]).unwrap();
    let prior = fsrs::MemoryState {
        stability: 3.0,
        difficulty: 5.0,
    };
    let raw = model.next_states(Some(prior), 0.9, 2).unwrap();
    let states = NextStates {
        again: pack(&raw.again),
        hard: pack(&raw.hard),
        good: pack(&raw.good),
        easy: pack(&raw.easy),
    };
    for rating in 0..4u32 {
        let chosen = select_state(&states, rating);
        let stability = f32::from_bits(chosen.memory.stability);
        assert!(stability.is_finite() && stability > 0.0);
    }
    // a better rating never schedules sooner than "again"
    assert!(states.easy.interval >= states.again.interval);
}

#[test]
fn bit_patterns_round_trip() {
    for v in [0.0f32, 1.5, 3.25, 1234.5] {
        assert_eq!(f32::from_bits(f32::to_bits(v)), v);
    }
}
