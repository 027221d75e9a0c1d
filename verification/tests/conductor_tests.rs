use revise::conductor::{
    build_review, elapsed_days, get_first_line, last_memory, last_review_time, next_show_after,
    select_state, Conductor, MemoryValue, NextState, NextStates, Review, ReviewOutcome,
};
use revise::memstore::MemStore;
use revise::store::{data_path, ReviseError, Store};

fn lines(tokens: &[&str]) -> Vec<String> {
    tokens.iter().map(|t| t.to_string()).collect()
}

fn conductor_with_deck(now: i64) -> Conductor<MemStore> {
    let mut c = Conductor::new(MemStore::new());
    let deck_id = c.add_deck("spanish", now).unwrap();
    assert_eq!(deck_id, 1);
    c
}

#[test]
fn created_card_is_immediately_due() {
    let now = 1_000;
    let mut c = conductor_with_deck(now);
    let id = c.add_card(1, "hola", now).unwrap();
    assert_eq!(id, 1);
    let card = c.view_card(id).unwrap();
    assert!(card.next_show_date <= now);
    let listed = c.list_cards(Some(1), false, now).unwrap();
    assert_eq!(listed.len(), 1);
    assert_eq!(listed[0].id, id);
}

#[test]
fn passing_review_defers_card_one_day() {
    let now = 1_000;
    let mut c = conductor_with_deck(now);
    let id = c.add_card(1, "hola", now).unwrap();
    let out = c.review(1, now, &lines(&["5"])).unwrap();
    assert_eq!(out.applied, vec![(id, 5)]);
    assert!(out.failed.is_empty());
    let card = c.view_card(id).unwrap().clone();
    assert_eq!(card.data.repetitions, 1);
    assert_eq!(card.data.interval, 1);
    assert_eq!(card.data.ease_factor, 260);
    assert_eq!(card.next_show_date, now + 86_400);
    // no longer due before one day has passed
    assert!(c.list_cards(Some(1), false, now).unwrap().is_empty());
    assert!(c.list_cards(Some(1), false, now + 86_399).unwrap().is_empty());
    assert_eq!(c.list_cards(Some(1), false, now + 86_400).unwrap().len(), 1);
}

#[test]
fn review_appends_one_record_per_pass() {
    let now = 2_000;
    let mut c = conductor_with_deck(now);
    let a = c.add_card(1, "uno", now).unwrap();
    let b = c.add_card(1, "dos", now).unwrap();
    let out = c.review(1, now, &lines(&["5", "2"])).unwrap();
    assert_eq!(out.applied, vec![(a, 5), (b, 2)]);
    assert_eq!(c.store.reviews.len(), 2);
    assert_eq!(c.store.reviews[0].card_id, a);
    assert_eq!(c.store.reviews[1].card_id, b);
    assert!(c.store.reviews.iter().all(|r| r.review_time == now));
}

#[test]
fn invalid_input_reprompts_without_mutation() {
    let now = 3_000;
    let mut c = conductor_with_deck(now);
    let id = c.add_card(1, "uno", now).unwrap();
    let before = c.view_card(id).unwrap().clone();
    // two invalid lines, then the input runs out: the run aborts
    let out = c.review(1, now, &lines(&["xx", "7"])).unwrap();
    assert!(out.applied.is_empty());
    assert!(out.failed.is_empty());
    assert!(out.aborted);
    let after = c.view_card(id).unwrap().clone();
    assert_eq!(before, after);
    assert_eq!(c.store.reviews.len(), 0);
}

#[test]
fn skip_leaves_card_untouched() {
    let now = 4_000;
    let mut c = conductor_with_deck(now);
    let id = c.add_card(1, "uno", now).unwrap();
    let before = c.view_card(id).unwrap().clone();
    let out = c.review(1, now, &lines(&["s"])).unwrap();
    assert!(out.applied.is_empty());
    assert_eq!(out.skipped, vec![id]);
    assert!(!out.aborted);
    let after = c.view_card(id).unwrap().clone();
    assert_eq!(before, after);
    assert_eq!(c.store.reviews.len(), 0);
}

#[test]
fn quit_stops_batch_after_k_reviews() {
    let now = 5_000;
    let mut c = conductor_with_deck(now);
    let a = c.add_card(1, "uno", now).unwrap();
    let b = c.add_card(1, "dos", now).unwrap();
    let third = c.add_card(1, "tres", now).unwrap();
    let before_third = c.view_card(third).unwrap().clone();
    let out = c.review(1, now, &lines(&["5", "3", "q"])).unwrap();
    assert_eq!(out.applied, vec![(a, 5), (b, 3)]);
    assert!(out.aborted);
    // exactly two updated cards and two review records; the third untouched
    assert_eq!(c.store.reviews.len(), 2);
    assert_eq!(c.view_card(third).unwrap().clone(), before_third);
    assert_ne!(c.view_card(a).unwrap().data.repetitions, 0);
}

#[test]
fn review_only_touches_requested_deck() {
    let now = 6_000;
    let mut c = conductor_with_deck(now);
    let other_deck = c.add_deck("french", now).unwrap();
    let a = c.add_card(1, "uno", now).unwrap();
    let b = c.add_card(other_deck, "un", now).unwrap();
    let before_b = c.view_card(b).unwrap().clone();
    let out = c.review(1, now, &lines(&["4"])).unwrap();
    assert_eq!(out.applied, vec![(a, 4)]);
    assert_eq!(c.view_card(b).unwrap().clone(), before_b);
}

#[test]
fn review_by_id_bypasses_due_filter() {
    let now = 7_000;
    let mut c = conductor_with_deck(now);
    let id = c.add_card(1, "uno", now).unwrap();
    // push it a day into the future, then review it anyway by id
    c.review(1, now, &lines(&["5"])).unwrap();
    let out = c.review_by_id(id, now, &lines(&["4"])).unwrap();
    assert_eq!(out, ReviewOutcome::Applied(4));
    assert_eq!(c.view_card(id).unwrap().data.repetitions, 2);
}

#[test]
fn review_by_id_unknown_card() {
    let now = 8_000;
    let mut c = conductor_with_deck(now);
    let r = c.review_by_id(99, now, &lines(&["5"]));
    assert_eq!(r, Err(ReviseError::NotFound(99)));
}

#[test]
fn failing_review_resets_card_counters() {
    let now = 9_000;
    let mut c = conductor_with_deck(now);
    let id = c.add_card(1, "uno", now).unwrap();
    c.review(1, now, &lines(&["5"])).unwrap();
    let later = now + 86_400;
    let out = c.review(1, later, &lines(&["1"])).unwrap();
    assert_eq!(out.applied, vec![(id, 1)]);
    let card = c.view_card(id).unwrap();
    assert_eq!(card.data.repetitions, 0);
    assert_eq!(card.data.interval, 1);
    assert_eq!(card.next_show_date, later + 86_400);
}

#[test]
fn list_cards_truncates_description() {
    let now = 10_000;
    let mut c = conductor_with_deck(now);
    c.add_card(1, "front\nback line", now).unwrap();
    let listed = c.list_cards(None, true, now).unwrap();
    assert_eq!(listed.len(), 1);
    assert_eq!(listed[0].desc, "front");
}

#[test]
fn get_first_line_variants() {
    assert_eq!(get_first_line("a\nb"), "a");
    assert_eq!(get_first_line("single"), "single");
    assert_eq!(get_first_line(""), "");
    assert_eq!(get_first_line("\nrest"), "");
    // a carriage return before the line feed is part of the terminator
    assert_eq!(get_first_line("a\r\nb"), "a");
    // a lone carriage return is no line break
    assert_eq!(get_first_line("a\rb\nc"), "a\rb");
    assert_eq!(get_first_line("tail\r"), "tail\r");
}

#[test]
fn select_state_picks_matching_branch() {
    let mk = |d: u32, s: u32, i: u32| NextState {
        memory: MemoryValue {
            difficulty: d,
            stability: s,
        },
        interval: i,
    };
    let states = NextStates {
        again: mk(1, 2, 3),
        hard: mk(4, 5, 6),
        good: mk(7, 8, 9),
        easy: mk(10, 11, 12),
    };
    assert_eq!(select_state(&states, 0), states.again);
    assert_eq!(select_state(&states, 1), states.hard);
    assert_eq!(select_state(&states, 2), states.good);
    assert_eq!(select_state(&states, 3), states.easy);
}

#[test]
fn elapsed_days_truncates() {
    assert_eq!(elapsed_days(3 * 86_400 + 5_000, 0), 3);
    assert_eq!(elapsed_days(100, 100), 0);
    assert_eq!(elapsed_days(86_400, 0), 1);
    // a future anchor counts as zero days
    assert_eq!(elapsed_days(100, 200), 0);
}

#[test]
fn next_show_after_adds_days() {
    assert_eq!(next_show_after(1_000, 0), 1_000);
    assert_eq!(next_show_after(1_000, 2), 1_000 + 2 * 86_400);
}

#[test]
fn build_review_carries_memory_state() {
    let next = NextState {
        memory: MemoryValue {
            difficulty: 17,
            stability: 23,
        },
        interval: 4,
    };
    let r = build_review(9, &next, 5_000, 2);
    assert_eq!(r.card_id, 9);
    assert_eq!(r.interval, 4);
    assert_eq!(r.last_interval, 2);
    assert_eq!(r.review_time, 5_000);
    assert_eq!(r.stability, 23);
    assert_eq!(r.difficulty, 17);
}

#[test]
fn last_memory_and_anchor() {
    let rec = Review {
        id: 1,
        card_id: 2,
        interval: 3,
        last_interval: 0,
        review_time: 7_000,
        stability: 11,
        difficulty: 12,
    };
    assert_eq!(
        last_memory(&Some(rec)),
        Some(MemoryValue {
            difficulty: 12,
            stability: 11
        })
    );
    assert_eq!(last_memory(&None), None);
    assert_eq!(last_review_time(&Some(rec), 100), 7_000);
    assert_eq!(last_review_time(&None, 100), 100);
}

#[test]
fn data_path_appends_file_name() {
    assert_eq!(data_path("/home/u/.local/share/revise"), "/home/u/.local/share/revise/data.sqlite");
}

#[test]
fn last_review_is_most_recent() {
    let now = 11_000;
    let mut c = conductor_with_deck(now);
    let id = c.add_card(1, "uno", now).unwrap();
    assert_eq!(c.store.get_last_review(id).unwrap(), None);
    c.review_by_id(id, now, &lines(&["5"])).unwrap();
    c.review_by_id(id, now + 10, &lines(&["4"])).unwrap();
    let last = c.store.get_last_review(id).unwrap().unwrap();
    assert_eq!(last.review_time, now + 10);
    assert_eq!(c.store.get_last_review(42).unwrap(), None);
}
