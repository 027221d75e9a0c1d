use revise::memstore::MemStore;
use revise::store::{ReviseError, Store};

#[test]
fn duplicate_deck_name_rejected() {
    let mut s = MemStore::new();
    s.add_deck("words", 10).unwrap();
    assert_eq!(
        s.add_deck("words", 20),
        Err(ReviseError::DuplicateDescription)
    );
    assert_eq!(s.list_decks().unwrap().len(), 1);
}

#[test]
fn duplicate_card_description_rejected() {
    let mut s = MemStore::new();
    let d = s.add_deck("words", 10).unwrap();
    s.add_card(d, "apple", 10).unwrap();
    assert_eq!(
        s.add_card(d, "apple", 20),
        Err(ReviseError::DuplicateDescription)
    );
    assert_eq!(s.get_cards().unwrap().len(), 1);
}

#[test]
fn add_card_to_unknown_deck_fails() {
    let mut s = MemStore::new();
    assert_eq!(s.add_card(5, "apple", 10), Err(ReviseError::NotFound(5)));
}

#[test]
fn edit_card_changes_only_description() {
    let mut s = MemStore::new();
    let d = s.add_deck("words", 10).unwrap();
    let id = s.add_card(d, "apple", 10).unwrap();
    let before = s.get_card(id).unwrap().clone();
    s.edit_card(id, "pear").unwrap();
    let after = s.get_card(id).unwrap();
    assert_eq!(after.desc, "pear");
    assert_eq!(after.data, before.data);
    assert_eq!(after.next_show_date, before.next_show_date);
    assert_eq!(after.created_at, before.created_at);
    assert_eq!(s.edit_card(77, "x"), Err(ReviseError::NotFound(77)));
}

#[test]
fn edit_card_rejects_taken_description() {
    let mut s = MemStore::new();
    let d = s.add_deck("words", 10).unwrap();
    let a = s.add_card(d, "apple", 10).unwrap();
    s.add_card(d, "pear", 10).unwrap();
    assert_eq!(
        s.edit_card(a, "pear"),
        Err(ReviseError::DuplicateDescription)
    );
    // renaming a card to its own description is allowed
    assert_eq!(s.edit_card(a, "apple"), Ok(()));
}

#[test]
fn remove_card_is_quiet_on_absent_id() {
    let mut s = MemStore::new();
    let d = s.add_deck("words", 10).unwrap();
    let id = s.add_card(d, "apple", 10).unwrap();
    s.remove_card(id).unwrap();
    assert!(s.get_cards().unwrap().is_empty());
    assert_eq!(s.get_card(id), Err(ReviseError::NotFound(id)));
    // removing again is a quiet success
    assert_eq!(s.remove_card(id), Ok(()));
}

#[test]
fn fresh_ids_count_up_from_one() {
    let mut s = MemStore::new();
    let d1 = s.add_deck("a", 10).unwrap();
    let d2 = s.add_deck("b", 10).unwrap();
    assert_eq!((d1, d2), (1, 2));
    let c1 = s.add_card(d1, "x", 10).unwrap();
    let c2 = s.add_card(d2, "y", 10).unwrap();
    assert_eq!((c1, c2), (1, 2));
}

#[test]
fn new_card_carries_deck_name_and_initial_state() {
    let mut s = MemStore::new();
    let d = s.add_deck("words", 7).unwrap();
    let id = s.add_card(d, "apple", 9).unwrap();
    let c = s.get_card(id).unwrap();
    assert_eq!(c.deck, "words");
    assert_eq!(c.deck_id, d);
    assert_eq!(c.created_at, 9);
    assert_eq!(c.next_show_date, 9);
    assert_eq!(c.data.repetitions, 0);
    assert_eq!(c.data.interval, 0);
    assert_eq!(c.data.ease_factor, 250);
}

#[test]
fn removed_card_id_is_not_reused_while_records_remain() {
    let mut s = MemStore::new();
    let d = s.add_deck("words", 10).unwrap();
    let a = s.add_card(d, "apple", 10).unwrap();
    let rec = revise::conductor::Review {
        id: 0,
        card_id: a,
        interval: 1,
        last_interval: 0,
        review_time: 20,
        stability: 0,
        difficulty: 0,
    };
    s.add_review(rec).unwrap();
    s.remove_card(a).unwrap();
    // the orphaned record still references `a`, so the next card gets a
    // different id and inherits no history
    let b = s.add_card(d, "pear", 30).unwrap();
    assert_ne!(a, b);
    assert_eq!(s.get_last_review(b).unwrap(), None);
    assert_eq!(s.get_last_review(a).unwrap().unwrap().review_time, 20);
}
