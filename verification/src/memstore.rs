//! The in-memory store: the verified implementation of `Store`.
//!
//! Ids are assigned as one past the largest id the store has ever seen —
//! for cards, the review history counts too, so a removed card's id is not
//! reused while orphaned records still reference it. The store refuses a
//! write only when the id space is exhausted.

use vstd::prelude::*;

use crate::conductor::{Card, Deck, Review};
use crate::sm2::SmValue;
use crate::store::{
    card_index, cards_updated, has_card, has_deck, last_review_spec, lemma_card_by_id,
    lemma_deck_by_id, store_inv, ReviseError, ReviseResult, Store, StoreModel, ID,
};

verus! {

/// A store kept entirely in memory, with the same behaviour the durable
/// backend is expected to show.
pub struct MemStore {
    pub decks: Vec<Deck>,
    pub cards: Vec<Card>,
    pub reviews: Vec<Review>,
}

impl MemStore {
    /// An empty store.
    pub fn new() -> (s: MemStore)
        ensures
            s.model().decks.len() == 0,
            s.model().cards.len() == 0,
            s.model().reviews.len() == 0,
            store_inv(s.model()),
    {
        MemStore { decks: Vec::new(), cards: Vec::new(), reviews: Vec::new() }
    }
}

/// Index of the deck with the given id, if one is held.
fn find_deck_index(decks: &Vec<Deck>, id: ID) -> (r: Option<usize>)
    ensures
        match r {
            Some(i) => i < decks@.len() && decks@[i as int].id == id,
            None => !has_deck(decks@, id),
        },
{
    let n = decks.len();
    let mut i: usize = 0;
    while i < n
        invariant
            i <= n,
            n == decks@.len(),
            forall|j: int| 0 <= j < i ==> decks@[j].id != id,
        decreases n - i,
    {
        if decks[i].id == id {
            return Some(i);
        }
        i += 1;
    }
    None
}

/// Index of the card with the given id, if one is held.
fn find_card_index(cards: &Vec<Card>, id: ID) -> (r: Option<usize>)
    ensures
        match r {
            Some(i) => i < cards@.len() && cards@[i as int].id == id,
            None => !has_card(cards@, id),
        },
{
    let n = cards.len();
    let mut i: usize = 0;
    while i < n
        invariant
            i <= n,
            n == cards@.len(),
            forall|j: int| 0 <= j < i ==> cards@[j].id != id,
        decreases n - i,
    {
        if cards[i].id == id {
            return Some(i);
        }
        i += 1;
    }
    None
}

/// Whether some card other than `excl` already carries this description.
fn card_desc_taken(cards: &Vec<Card>, desc: &String, excl: Option<ID>) -> (r: bool)
    ensures
        r == exists|i: int|
            0 <= i < cards@.len() && (excl matches Some(x) ==> cards@[i].id != x)
                && cards@[i].desc@ == desc@,
{
    let n = cards.len();
    let mut i: usize = 0;
    while i < n
        invariant
            i <= n,
            n == cards@.len(),
            forall|j: int|
                0 <= j < i ==> !((excl matches Some(x) ==> cards@[j].id != x)
                    && cards@[j].desc@ == desc@),
        decreases n - i,
    {
        let excluded: bool = match excl {
            Some(x) => cards[i].id == x,
            None => false,
        };
        if !excluded && cards[i].desc == *desc {
            return true;
        }
        i += 1;
    }
    false
}

/// An upper bound on the deck ids held, at least zero.
fn max_deck_id(decks: &Vec<Deck>) -> (m: ID)
    ensures
        m >= 0,
        forall|j: int| 0 <= j < decks@.len() ==> decks@[j].id <= m,
{
    let n = decks.len();
    let mut m: ID = 0;
    let mut i: usize = 0;
    while i < n
        invariant
            i <= n,
            n == decks@.len(),
            m >= 0,
            forall|j: int| 0 <= j < i ==> decks@[j].id <= m,
        decreases n - i,
    {
        if decks[i].id > m {
            m = decks[i].id;
        }
        i += 1;
    }
    m
}

/// An upper bound on the card ids held and on the card ids the review
/// history references, at least zero. Scanning the history too keeps a
/// removed card's id from being handed out again while orphaned records
/// still carry it.
fn max_card_id(cards: &Vec<Card>, reviews: &Vec<Review>) -> (m: ID)
    ensures
        m >= 0,
        forall|j: int| 0 <= j < cards@.len() ==> cards@[j].id <= m,
        forall|j: int| 0 <= j < reviews@.len() ==> reviews@[j].card_id <= m,
{
    let n = cards.len();
    let mut m: ID = 0;
    let mut i: usize = 0;
    while i < n
        invariant
            i <= n,
            n == cards@.len(),
            m >= 0,
            forall|j: int| 0 <= j < i ==> cards@[j].id <= m,
        decreases n - i,
    {
        if cards[i].id > m {
            m = cards[i].id;
        }
        i += 1;
    }
    let rn = reviews.len();
    let mut i: usize = 0;
    while i < rn
        invariant
            i <= rn,
            rn == reviews@.len(),
            m >= 0,
            forall|j: int| 0 <= j < cards@.len() ==> cards@[j].id <= m,
            forall|j: int| 0 <= j < i ==> reviews@[j].card_id <= m,
        decreases rn - i,
    {
        if reviews[i].card_id > m {
            m = reviews[i].card_id;
        }
        i += 1;
    }
    m
}

/// An upper bound on the review ids held, at least zero.
fn max_review_id(reviews: &Vec<Review>) -> (m: ID)
    ensures
        m >= 0,
        forall|j: int| 0 <= j < reviews@.len() ==> reviews@[j].id <= m,
{
    let n = reviews.len();
    let mut m: ID = 0;
    let mut i: usize = 0;
    while i < n
        invariant
            i <= n,
            n == reviews@.len(),
            m >= 0,
            forall|j: int| 0 <= j < i ==> reviews@[j].id <= m,
        decreases n - i,
    {
        if reviews[i].id > m {
            m = reviews[i].id;
        }
        i += 1;
    }
    m
}

impl Store for MemStore {
    open spec fn model(&self) -> StoreModel {
        StoreModel { decks: self.decks@, cards: self.cards@, reviews: self.reviews@ }
    }

    fn add_deck(&mut self, name: &str, now: i64) -> (r: ReviseResult<ID>) {
        let name_s: String = name.to_owned();
        let n = self.decks.len();
        let mut i: usize = 0;
        while i < n
            invariant
                i <= n,
                n == self.decks@.len(),
                *self == *old(self),
                store_inv(old(self).model()),
                name_s@ == name@,
                forall|j: int| 0 <= j < i ==> self.decks@[j].name@ != name_s@,
            decreases n - i,
        {
            if self.decks[i].name == name_s {
                return Err(ReviseError::DuplicateDescription);
            }
            i += 1;
        }
        let m = max_deck_id(&self.decks);
        if m == i64::MAX {
            return Err(ReviseError::PersistenceFailure);
        }
        let id: ID = m + 1;
        self.decks.push(Deck { id, name: name_s, created_at: now });
        proof {
            let ds0 = old(self).decks@;
            let ds = self.decks@;
            assert(ds.take(ds0.len() as int) =~= ds0);
            assert forall|p: int, q: int| 0 <= p < q < ds.len() implies ds[p].id != ds[q].id by {
                if q == ds.len() - 1 {
                    assert(ds0[p].id <= m);
                }
            }
            assert forall|p: int, q: int| 0 <= p < q < ds.len() implies ds[p].name@
                != ds[q].name@ by {}
        }
        Ok(id)
    }

    fn list_decks(&self) -> (r: ReviseResult<&Vec<Deck>>) {
        Ok(&self.decks)
    }

    fn add_card(&mut self, deck_id: ID, desc: &str, now: i64) -> (r: ReviseResult<ID>) {
        let desc_s: String = desc.to_owned();
        let di_opt = find_deck_index(&self.decks, deck_id);
        let di = match di_opt {
            None => {
                return Err(ReviseError::NotFound(deck_id));
            },
            Some(di) => di,
        };
        if card_desc_taken(&self.cards, &desc_s, None) {
            return Err(ReviseError::DuplicateDescription);
        }
        let m = max_card_id(&self.cards, &self.reviews);
        if m == i64::MAX {
            return Err(ReviseError::PersistenceFailure);
        }
        let id: ID = m + 1;
        let deck_name: String = self.decks[di].name.clone();
        let card = Card {
            id,
            deck_id,
            deck: deck_name,
            desc: desc_s,
            next_show_date: now,
            created_at: now,
            data: SmValue::inital(),
        };
        self.cards.push(card);
        proof {
            let cs0 = old(self).cards@;
            let cs = self.cards@;
            assert(cs.take(cs0.len() as int) =~= cs0);
            lemma_deck_by_id(old(self).decks@, di as int);
            assert forall|p: int, q: int| 0 <= p < q < cs.len() implies cs[p].id != cs[q].id by {
                if q == cs.len() - 1 {
                    assert(cs0[p].id <= m);
                }
            }
            assert forall|p: int, q: int| 0 <= p < q < cs.len() implies cs[p].desc@
                != cs[q].desc@ by {}
        }
        Ok(id)
    }

    fn get_cards(&self) -> (r: ReviseResult<&Vec<Card>>) {
        Ok(&self.cards)
    }

    fn get_card(&self, id: ID) -> (r: ReviseResult<&Card>) {
        match find_card_index(&self.cards, id) {
            None => Err(ReviseError::NotFound(id)),
            Some(ci) => {
                proof {
                    lemma_card_by_id(self.cards@, ci as int);
                }
                Ok(&self.cards[ci])
            },
        }
    }

    fn edit_card(&mut self, id: ID, desc: &str) -> (r: ReviseResult<()>) {
        let desc_s: String = desc.to_owned();
        let ci = match find_card_index(&self.cards, id) {
            None => {
                return Err(ReviseError::NotFound(id));
            },
            Some(ci) => ci,
        };
        if card_desc_taken(&self.cards, &desc_s, Some(id)) {
            return Err(ReviseError::DuplicateDescription);
        }
        self.cards[ci].desc = desc_s;
        proof {
            let cs0 = old(self).cards@;
            let cs = self.cards@;
            assert forall|p: int, q: int| 0 <= p < q < cs.len() implies cs[p].desc@
                != cs[q].desc@ by {
                assert(cs0[p].id != cs0[q].id || p == q);
            }
            assert forall|j: int| 0 <= j < cs0.len() && cs0[j].id != id implies cs[j]
                == cs0[j] by {}
        }
        Ok(())
    }

    fn remove_card(&mut self, id: ID) -> (r: ReviseResult<()>) {
        match find_card_index(&self.cards, id) {
            None => Ok(()),
            Some(ci) => {
                proof {
                    lemma_card_by_id(self.cards@, ci as int);
                    assert(card_index(self.cards@, id) == ci as int);
                }
                self.cards.remove(ci);
                Ok(())
            },
        }
    }

    fn update_card(&mut self, id: ID, data: SmValue, next_show_date: i64) -> (r: ReviseResult<
        (),
    >) {
        let ci = match find_card_index(&self.cards, id) {
            None => {
                return Err(ReviseError::NotFound(id));
            },
            Some(ci) => ci,
        };
        let mut card: Card = self.cards.remove(ci);
        card.data = data;
        card.next_show_date = next_show_date;
        self.cards.insert(ci, card);
        proof {
            let cs0 = old(self).cards@;
            let cs = self.cards@;
            assert(cs =~= cs0.update(ci as int, cs[ci as int]));
            assert(cards_updated(cs0, cs, id, data, next_show_date as int));
        }
        Ok(())
    }

    fn add_review(&mut self, review: Review) -> (r: ReviseResult<ID>) {
        let m = max_review_id(&self.reviews);
        if m == i64::MAX {
            return Err(ReviseError::PersistenceFailure);
        }
        let id: ID = m + 1;
        self.reviews.push(Review { id, ..review });
        proof {
            assert(self.reviews@.take(old(self).reviews@.len() as int) =~= old(self).reviews@);
        }
        Ok(id)
    }

    fn get_last_review(&self, card_id: ID) -> (r: ReviseResult<Option<Review>>) {
        let n = self.reviews.len();
        let mut i: usize = n;
        proof {
            assert(self.reviews@.take(n as int) =~= self.reviews@);
        }
        while i > 0
            invariant
                i <= n,
                n == self.reviews@.len(),
                last_review_spec(self.reviews@, card_id) == last_review_spec(
                    self.reviews@.take(i as int),
                    card_id,
                ),
            decreases i,
        {
            let rec: Review = self.reviews[i - 1];
            if rec.card_id == card_id {
                proof {
                    assert(self.reviews@.take(i as int).last() == self.reviews@[i - 1]);
                }
                return Ok(Some(rec));
            }
            proof {
                assert(self.reviews@.take(i as int).drop_last() =~= self.reviews@.take(
                    i - 1,
                ));
            }
            i -= 1;
        }
        Ok(None)
    }
}

} // verus!
