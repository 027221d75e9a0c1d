//! The store interface: durable keeping of decks, cards and the append-only
//! review history.
//!
//! A store is modelled by three sequences. Every operation says exactly how it
//! moves the model; `memstore` holds the verified in-memory implementation
//! that the session drivers and the tests run against, while a durable
//! backend lives outside the verified crate and hands values in and out as
//! plain data.

use vstd::prelude::*;

use crate::conductor::{Card, Deck, Review};
use crate::sm2::SmValue;
use crate::sm2::INITIAL_EASE_FACTOR;
use vstd::string::StrSliceExecFns;
use vstd::string::StringExecFns;

verus! {

/// Identifier the store assigns to decks, cards and review records.
pub type ID = i64;

/// The error kinds a store operation can surface.
#[derive(Clone, Copy, PartialEq, Eq, Structural, Debug)]
pub enum ReviseError {
    /// The operation referenced an id the store does not hold.
    NotFound(ID),
    /// A creation or an edit collided with the uniqueness of names.
    DuplicateDescription,
    /// The backing storage refused a read or a write.
    PersistenceFailure,
}

pub type ReviseResult<T> = Result<T, ReviseError>;

/// The mathematical contents of a store.
pub struct StoreModel {
    pub decks: Seq<Deck>,
    pub cards: Seq<Card>,
    pub reviews: Seq<Review>,
}

pub open spec fn has_deck(decks: Seq<Deck>, id: ID) -> bool {
    exists|i: int| 0 <= i < decks.len() && decks[i].id == id
}

pub open spec fn has_deck_named(decks: Seq<Deck>, name: Seq<char>) -> bool {
    exists|i: int| 0 <= i < decks.len() && decks[i].name@ == name
}

pub open spec fn deck_index(decks: Seq<Deck>, id: ID) -> int {
    choose|i: int| 0 <= i < decks.len() && decks[i].id == id
}

pub open spec fn deck_by_id(decks: Seq<Deck>, id: ID) -> Deck {
    decks[deck_index(decks, id)]
}

pub open spec fn has_card(cards: Seq<Card>, id: ID) -> bool {
    exists|i: int| 0 <= i < cards.len() && cards[i].id == id
}

pub open spec fn has_card_described(cards: Seq<Card>, desc: Seq<char>) -> bool {
    exists|i: int| 0 <= i < cards.len() && cards[i].desc@ == desc
}

pub open spec fn card_index(cards: Seq<Card>, id: ID) -> int {
    choose|i: int| 0 <= i < cards.len() && cards[i].id == id
}

/// Some review record references the card of this id.
pub open spec fn has_review_for(reviews: Seq<Review>, id: ID) -> bool {
    exists|j: int| 0 <= j < reviews.len() && reviews[j].card_id == id
}

pub open spec fn card_by_id(cards: Seq<Card>, id: ID) -> Card {
    cards[card_index(cards, id)]
}

/// The most recent review of a card: the record appended last, or nothing.
pub open spec fn last_review_spec(reviews: Seq<Review>, card_id: ID) -> Option<Review>
    decreases reviews.len(),
{
    if reviews.len() == 0 {
        None
    } else if reviews.last().card_id == card_id {
        Some(reviews.last())
    } else {
        last_review_spec(reviews.drop_last(), card_id)
    }
}

pub open spec fn distinct_deck_ids(decks: Seq<Deck>) -> bool {
    forall|i: int, j: int| 0 <= i < j < decks.len() ==> decks[i].id != decks[j].id
}

pub open spec fn distinct_deck_names(decks: Seq<Deck>) -> bool {
    forall|i: int, j: int| 0 <= i < j < decks.len() ==> decks[i].name@ != decks[j].name@
}

pub open spec fn distinct_card_ids(cards: Seq<Card>) -> bool {
    forall|i: int, j: int| 0 <= i < j < cards.len() ==> cards[i].id != cards[j].id
}

pub open spec fn distinct_card_descs(cards: Seq<Card>) -> bool {
    forall|i: int, j: int| 0 <= i < j < cards.len() ==> cards[i].desc@ != cards[j].desc@
}

/// What every store keeps true: ids are unique, deck names are unique, and
/// card descriptions are unique.
pub open spec fn store_inv(m: StoreModel) -> bool {
    &&& distinct_deck_ids(m.decks)
    &&& distinct_deck_names(m.decks)
    &&& distinct_card_ids(m.cards)
    &&& distinct_card_descs(m.cards)
}

/// With unique deck ids, looking a deck up by the id of the deck at `i`
/// yields exactly that deck.
pub proof fn lemma_deck_by_id(decks: Seq<Deck>, i: int)
    requires
        distinct_deck_ids(decks),
        0 <= i < decks.len(),
    ensures
        has_deck(decks, decks[i].id),
        deck_by_id(decks, decks[i].id) == decks[i],
{
    assert(has_deck(decks, decks[i].id));
    let j = deck_index(decks, decks[i].id);
    assert(0 <= j < decks.len() && decks[j].id == decks[i].id);
}

/// With unique card ids, looking a card up by the id of the card at `i`
/// yields exactly that card.
pub proof fn lemma_card_by_id(cards: Seq<Card>, i: int)
    requires
        distinct_card_ids(cards),
        0 <= i < cards.len(),
    ensures
        has_card(cards, cards[i].id),
        card_by_id(cards, cards[i].id) == cards[i],
{
    assert(has_card(cards, cards[i].id));
    let j = card_index(cards, cards[i].id);
    assert(0 <= j < cards.len() && cards[j].id == cards[i].id);
}

/// `c` is `c0` with its scheduling state and next-due timestamp replaced and
/// everything else kept.
pub open spec fn card_rescheduled(c0: Card, c: Card, data: SmValue, next_show_date: int) -> bool {
    &&& c.id == c0.id
    &&& c.deck_id == c0.deck_id
    &&& c.deck == c0.deck
    &&& c.desc == c0.desc
    &&& c.created_at == c0.created_at
    &&& c.data == data
    &&& c.next_show_date == next_show_date
}

/// `cs` is `cs0` with the one card of the given id rescheduled and every
/// other card kept as it was.
pub open spec fn cards_updated(
    cs0: Seq<Card>,
    cs: Seq<Card>,
    id: ID,
    data: SmValue,
    next_show_date: int,
) -> bool {
    &&& cs.len() == cs0.len()
    &&& forall|i: int|
        0 <= i < cs0.len() ==> if cs0[i].id == id {
            card_rescheduled(cs0[i], #[trigger] cs[i], data, next_show_date)
        } else {
            cs[i] == cs0[i]
        }
}

/// `c` is `c0` with only its description replaced by `desc`.
pub open spec fn card_redescribed(c0: Card, c: Card, desc: Seq<char>) -> bool {
    &&& c.id == c0.id
    &&& c.deck_id == c0.deck_id
    &&& c.deck == c0.deck
    &&& c.desc@ == desc
    &&& c.created_at == c0.created_at
    &&& c.data == c0.data
    &&& c.next_show_date == c0.next_show_date
}

/// The state a newly created card starts in: due at once, initial scheduling
/// state, created and due timestamps both `now`.
pub open spec fn fresh_card(c: Card, id: ID, deck_id: ID, deck_name: Seq<char>, desc: Seq<char>, now: i64) -> bool {
    &&& c.id == id
    &&& c.deck_id == deck_id
    &&& c.deck@ == deck_name
    &&& c.desc@ == desc
    &&& c.next_show_date == now
    &&& c.created_at == now
    &&& c.data == (SmValue { repetitions: 0, interval: 0, ease_factor: INITIAL_EASE_FACTOR })
}

/// What `add_deck` does: a new deck appended with a fresh id and a unique
/// name, or the store left as it was and the error says why.
pub open spec fn add_deck_post(m0: StoreModel, m: StoreModel, name: Seq<char>, now: i64, r: ReviseResult<ID>) -> bool {
    match r {
        Ok(id) => {
            &&& !has_deck_named(m0.decks, name)
            &&& !has_deck(m0.decks, id)
            &&& m.decks.len() == m0.decks.len() + 1
            &&& m.decks.take(m0.decks.len() as int) == m0.decks
            &&& m.decks.last().id == id
            &&& m.decks.last().name@ == name
            &&& m.decks.last().created_at == now
            &&& m.cards == m0.cards
            &&& m.reviews == m0.reviews
        },
        Err(ReviseError::DuplicateDescription) => {
            &&& has_deck_named(m0.decks, name)
            &&& m == m0
        },
        Err(ReviseError::PersistenceFailure) => m == m0,
        Err(ReviseError::NotFound(_)) => false,
    }
}

/// What `add_card` does: a new card appended, immediately due and in the
/// initial scheduling state, or the store left as it was and the error says
/// why. The fresh id is also unknown to the review history, so no orphaned
/// record of a removed card can ever be taken for the new card's.
pub open spec fn add_card_post(m0: StoreModel, m: StoreModel, deck_id: ID, desc: Seq<char>, now: i64, r: ReviseResult<ID>) -> bool {
    match r {
        Ok(id) => {
            &&& has_deck(m0.decks, deck_id)
            &&& !has_card_described(m0.cards, desc)
            &&& !has_card(m0.cards, id)
            &&& !has_review_for(m0.reviews, id)
            &&& m.cards.len() == m0.cards.len() + 1
            &&& m.cards.take(m0.cards.len() as int) == m0.cards
            &&& fresh_card(
                m.cards.last(),
                id,
                deck_id,
                deck_by_id(m0.decks, deck_id).name@,
                desc,
                now,
            )
            &&& m.decks == m0.decks
            &&& m.reviews == m0.reviews
        },
        Err(ReviseError::NotFound(x)) => {
            &&& x == deck_id
            &&& !has_deck(m0.decks, deck_id)
            &&& m == m0
        },
        Err(ReviseError::DuplicateDescription) => {
            &&& has_deck(m0.decks, deck_id)
            &&& has_card_described(m0.cards, desc)
            &&& m == m0
        },
        Err(ReviseError::PersistenceFailure) => m == m0,
    }
}

/// What `edit_card` does: exactly one card's description replaced and
/// nothing else — scheduling state and due timestamp included — moved.
pub open spec fn edit_card_post(m0: StoreModel, m: StoreModel, id: ID, desc: Seq<char>, r: ReviseResult<()>) -> bool {
    match r {
        Ok(()) => {
            &&& has_card(m0.cards, id)
            &&& m.cards.len() == m0.cards.len()
            &&& forall|i: int|
                0 <= i < m0.cards.len() ==> if m0.cards[i].id == id {
                    card_redescribed(m0.cards[i], #[trigger] m.cards[i], desc)
                } else {
                    m.cards[i] == m0.cards[i]
                }
            &&& m.decks == m0.decks
            &&& m.reviews == m0.reviews
        },
        Err(ReviseError::NotFound(x)) => {
            &&& x == id
            &&& !has_card(m0.cards, id)
            &&& m == m0
        },
        Err(ReviseError::DuplicateDescription) => {
            &&& has_card(m0.cards, id)
            &&& exists|i: int|
                0 <= i < m0.cards.len() && m0.cards[i].id != id
                    && m0.cards[i].desc@ == desc
            &&& m == m0
        },
        Err(ReviseError::PersistenceFailure) => m == m0,
    }
}

/// What `remove_card` does: the one card of that id dropped, or nothing
/// when the id is absent; reviews stay.
pub open spec fn remove_card_post(m0: StoreModel, m: StoreModel, id: ID, r: ReviseResult<()>) -> bool {
    match r {
        Ok(()) => {
            &&& if has_card(m0.cards, id) {
                m.cards == m0.cards.remove(card_index(m0.cards, id))
            } else {
                m.cards == m0.cards
            }
            &&& m.decks == m0.decks
            &&& m.reviews == m0.reviews
        },
        Err(ReviseError::PersistenceFailure) => m == m0,
        Err(_) => false,
    }
}

/// What `update_card` does: exactly one card's scheduling state and due
/// timestamp rewritten; every other field and card kept.
pub open spec fn update_card_post(m0: StoreModel, m: StoreModel, id: ID, data: SmValue, next_show_date: i64, r: ReviseResult<()>) -> bool {
    match r {
        Ok(()) => {
            &&& has_card(m0.cards, id)
            &&& cards_updated(m0.cards, m.cards, id, data, next_show_date as int)
            &&& m.decks == m0.decks
            &&& m.reviews == m0.reviews
        },
        Err(ReviseError::NotFound(x)) => {
            &&& x == id
            &&& !has_card(m0.cards, id)
            &&& m == m0
        },
        Err(ReviseError::PersistenceFailure) => m == m0,
        Err(_) => false,
    }
}

/// What `add_review` does: the record appended under a fresh id; the
/// history only ever grows.
pub open spec fn add_review_post(m0: StoreModel, m: StoreModel, review: Review, r: ReviseResult<ID>) -> bool {
    match r {
        Ok(id) => {
            &&& m.reviews.len() == m0.reviews.len() + 1
            &&& m.reviews.take(m0.reviews.len() as int) == m0.reviews
            &&& m.reviews.last() == (Review { id, ..review })
            &&& m.decks == m0.decks
            &&& m.cards == m0.cards
        },
        Err(ReviseError::PersistenceFailure) => m == m0,
        Err(_) => false,
    }
}

/// Durable keeping of decks, cards and review history.
///
/// Mutating operations either do exactly what their contract says or leave
/// the store untouched; `PersistenceFailure` stands for a refusal of the
/// backing storage and never changes the model.
pub trait Store: Sized {
    spec fn model(&self) -> StoreModel;

    /// Create a deck with a unique name; its id is fresh.
    fn add_deck(&mut self, name: &str, now: i64) -> (r: ReviseResult<ID>)
        requires
            store_inv(old(self).model()),
        ensures
            store_inv(final(self).model()),
            add_deck_post(old(self).model(), final(self).model(), name@, now, r),
    ;

    /// Every deck, in creation order; the backing storage may refuse the
    /// read.
    fn list_decks(&self) -> (r: ReviseResult<&Vec<Deck>>)
        ensures
            match r {
                Ok(v) => v@ == self.model().decks,
                Err(ReviseError::PersistenceFailure) => true,
                Err(_) => false,
            },
    ;

    /// Create a card in a deck; its description must be unique, its id is
    /// fresh, and it is immediately due.
    fn add_card(&mut self, deck_id: ID, desc: &str, now: i64) -> (r: ReviseResult<ID>)
        requires
            store_inv(old(self).model()),
        ensures
            store_inv(final(self).model()),
            add_card_post(old(self).model(), final(self).model(), deck_id, desc@, now, r),
    ;

    /// Every card, in creation order; the backing storage may refuse the
    /// read.
    fn get_cards(&self) -> (r: ReviseResult<&Vec<Card>>)
        ensures
            match r {
                Ok(v) => v@ == self.model().cards,
                Err(ReviseError::PersistenceFailure) => true,
                Err(_) => false,
            },
    ;

    /// The card of the given id; the backing storage may refuse the read.
    fn get_card(&self, id: ID) -> (r: ReviseResult<&Card>)
        requires
            store_inv(self.model()),
        ensures
            ({
                let m = self.model();
                match r {
                    Ok(c) => has_card(m.cards, id) && *c == card_by_id(m.cards, id),
                    Err(ReviseError::NotFound(x)) => x == id && !has_card(m.cards, id),
                    Err(ReviseError::PersistenceFailure) => true,
                    Err(_) => false,
                }
            }),
    ;

    /// Replace a card's description, touching nothing else of it.
    fn edit_card(&mut self, id: ID, desc: &str) -> (r: ReviseResult<()>)
        requires
            store_inv(old(self).model()),
        ensures
            store_inv(final(self).model()),
            edit_card_post(old(self).model(), final(self).model(), id, desc@, r),
    ;

    /// Remove the card of the given id; absent ids are a quiet success.
    /// Review records of the card stay, as orphaned references.
    fn remove_card(&mut self, id: ID) -> (r: ReviseResult<()>)
        requires
            store_inv(old(self).model()),
        ensures
            store_inv(final(self).model()),
            remove_card_post(old(self).model(), final(self).model(), id, r),
    ;

    /// Rewrite a card's scheduling state and next-due timestamp. Nothing else
    /// of the card, and no other card, moves.
    fn update_card(&mut self, id: ID, data: SmValue, next_show_date: i64) -> (r: ReviseResult<()>)
        requires
            store_inv(old(self).model()),
        ensures
            store_inv(final(self).model()),
            update_card_post(old(self).model(), final(self).model(), id, data, next_show_date, r),
    ;

    /// Append one review record; the history only ever grows. The record's
    /// id is replaced by a fresh one, the rest is stored as handed in.
    fn add_review(&mut self, review: Review) -> (r: ReviseResult<ID>)
        requires
            store_inv(old(self).model()),
        ensures
            store_inv(final(self).model()),
            add_review_post(old(self).model(), final(self).model(), review, r),
    ;

    /// The most recently appended review record of the card, if any; the
    /// backing storage may refuse the read.
    fn get_last_review(&self, card_id: ID) -> (r: ReviseResult<Option<Review>>)
        ensures
            match r {
                Ok(o) => o == last_review_spec(self.model().reviews, card_id),
                Err(ReviseError::PersistenceFailure) => true,
                Err(_) => false,
            },
    ;
}

/// Path of the database file inside the given data directory.
pub fn data_path(dir: &str) -> (p: String)
    ensures
        p@ == dir@ + "/data.sqlite"@,
{
    let mut p = dir.to_owned();
    p.append("/data.sqlite");
    p
}

} // verus!
