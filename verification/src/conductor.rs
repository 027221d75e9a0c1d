//! The entities the store holds and the conductor that drives review runs.
//!
//! Timestamps are unix seconds. The memory-state numbers of the memory model
//! (`difficulty`, `stability`) are carried as opaque 32-bit patterns that this
//! crate never computes on; only the outside numeric model reads them.

use vstd::prelude::*;

use crate::session::{consume, token_of, SessionState, Token, QUALITY_MAX};
use crate::sm2::{calc_spec, sm_wf, SmValue};
use crate::store::{
    add_card_post, add_deck_post, card_by_id, card_rescheduled, cards_updated, edit_card_post,
    has_card, lemma_card_by_id, remove_card_post, store_inv, ReviseError, ReviseResult, Store,
    StoreModel, ID,
};
use vstd::string::StrSliceExecFns;

verus! {

/// A reviewable entity: a card inside a deck, carrying the scheduling state
/// of the interval/ease model and the derived next-due timestamp.
#[derive(Clone, PartialEq, Debug)]
pub struct Card {
    pub id: ID,
    pub deck_id: ID,
    /// Name of the deck the card belongs to.
    pub deck: String,
    /// Free-form description, unique across all cards.
    pub desc: String,
    /// The card is due exactly when this timestamp is at or before now.
    pub next_show_date: i64,
    pub created_at: i64,
    /// Scheduling state of the interval/ease model.
    pub data: SmValue,
}

/// A group of cards.
#[derive(Clone, PartialEq, Debug)]
pub struct Deck {
    pub id: ID,
    pub name: String,
    pub created_at: i64,
}

/// One immutable record of a completed review.
///
/// For the memory-state model the record is the authoritative memory state:
/// the next review reads the previous record's `difficulty` and `stability`.
/// `difficulty` and `stability` hold the model's numbers as raw bit patterns.
#[derive(Clone, Copy, PartialEq, Eq, Structural, Debug)]
pub struct Review {
    pub id: ID,
    pub card_id: ID,
    /// Days until the next review, as scheduled by this review.
    pub interval: u32,
    /// Whole days that had elapsed since the previous review.
    pub last_interval: u32,
    /// Unix seconds at which the review completed.
    pub review_time: i64,
    pub stability: u32,
    pub difficulty: u32,
}

/// A card is due exactly when its next-due timestamp is at or before now.
pub open spec fn is_due(card: Card, now: i64) -> bool {
    card.next_show_date <= now
}

/// A memory state as the outside numeric model hands it out: its two numbers
/// as raw 32-bit patterns.
#[derive(Clone, Copy, PartialEq, Eq, Structural, Debug)]
pub struct MemoryValue {
    pub difficulty: u32,
    pub stability: u32,
}

/// One candidate next state the memory model offers for a rating.
#[derive(Clone, Copy, PartialEq, Eq, Structural, Debug)]
pub struct NextState {
    pub memory: MemoryValue,
    pub interval: u32,
}

/// The four candidate next states, one per rating.
#[derive(Clone, Copy, PartialEq, Eq, Structural, Debug)]
pub struct NextStates {
    pub again: NextState,
    pub hard: NextState,
    pub good: NextState,
    pub easy: NextState,
}

/// The candidate belonging to a rating: 0 again, 1 hard, 2 good, 3 easy.
pub open spec fn chosen_state(states: NextStates, rating: u32) -> NextState {
    if rating == 0 {
        states.again
    } else if rating == 1 {
        states.hard
    } else if rating == 2 {
        states.good
    } else {
        states.easy
    }
}

/// Select the candidate next state matching the rating.
pub fn select_state(states: &NextStates, rating: u32) -> (s: NextState)
    requires
        rating <= crate::session::RATING_MAX,
    ensures
        s == chosen_state(*states, rating),
{
    if rating == 0 {
        states.again
    } else if rating == 1 {
        states.hard
    } else if rating == 2 {
        states.good
    } else {
        states.easy
    }
}

/// Whole days between two timestamps, truncating. An anchor at or past
/// `now` counts as zero days, and a gap of more days than the scale holds
/// saturates.
pub open spec fn elapsed_days_spec(now: i64, last: i64) -> u32 {
    if last >= now {
        0u32
    } else if (now - last) / 86400 > u32::MAX {
        u32::MAX
    } else {
        ((now - last) / 86400) as u32
    }
}

/// Whole days between two timestamps, total over every pair.
pub fn elapsed_days(now: i64, last: i64) -> (d: u32)
    ensures
        d == elapsed_days_spec(now, last),
{
    if last >= now {
        return 0;
    }
    match now.checked_sub(last) {
        None => {
            proof {
                vstd::arithmetic::div_mod::lemma_div_is_ordered(
                    i64::MAX + 1,
                    now - last,
                    86400,
                );
            }
            u32::MAX
        },
        Some(secs) => {
            let days: i64 = secs / 86400;
            if days > u32::MAX as i64 {
                u32::MAX
            } else {
                days as u32
            }
        },
    }
}

/// The timestamp a review of `interval` days from now schedules next.
pub fn next_show_after(now: i64, interval: u32) -> (t: i64)
    requires
        now + interval * 86400 <= i64::MAX,
    ensures
        t == now + interval * 86400,
{
    now + (interval as i64) * 86400
}

/// The memory state the last review carries, if one exists.
pub fn last_memory(last: &Option<Review>) -> (m: Option<MemoryValue>)
    ensures
        match last {
            Some(r) => m == Some(
                MemoryValue { difficulty: r.difficulty, stability: r.stability },
            ),
            None => m is None,
        },
{
    match last {
        Some(r) => Some(MemoryValue { difficulty: r.difficulty, stability: r.stability }),
        None => None,
    }
}

/// The time anchor of the next review: the last review's timestamp, or the
/// creation timestamp when no review exists yet.
pub fn last_review_time(last: &Option<Review>, created_at: i64) -> (t: i64)
    ensures
        match last {
            Some(r) => t == r.review_time,
            None => t == created_at,
        },
{
    match last {
        Some(r) => r.review_time,
        None => created_at,
    }
}

/// The review record one completed memory-model review appends; the store
/// replaces the id.
pub fn build_review(card_id: ID, next: &NextState, now: i64, days: u32) -> (r: Review)
    ensures
        r == (Review {
            id: 0,
            card_id,
            interval: next.interval,
            last_interval: days,
            review_time: now,
            stability: next.memory.stability,
            difficulty: next.memory.difficulty,
        }),
{
    Review {
        id: 0,
        card_id,
        interval: next.interval,
        last_interval: days,
        review_time: now,
        stability: next.memory.stability,
        difficulty: next.memory.difficulty,
    }
}

/// One completed memory-model review from plain values: pick the candidate
/// the rating asks for, build the review record from it, and schedule the
/// next showing `interval` days past `now`.
pub fn apply_memory_review(card_id: ID, states: &NextStates, rating: u32, now: i64, days: u32) -> (
r: (Review, i64))
    requires
        rating <= crate::session::RATING_MAX,
        now + chosen_state(*states, rating).interval * 86400 <= i64::MAX,
    ensures
        ({
            let chosen = chosen_state(*states, rating);
            &&& r.0 == (Review {
                id: 0,
                card_id,
                interval: chosen.interval,
                last_interval: days,
                review_time: now,
                stability: chosen.memory.stability,
                difficulty: chosen.memory.difficulty,
            })
            &&& r.1 == now + chosen.interval * 86400
        }),
{
    let chosen = select_state(states, rating);
    let rec = build_review(card_id, &chosen, now, days);
    let next_show = next_show_after(now, chosen.interval);
    (rec, next_show)
}

/// How many characters the first line of `s` holds.
pub open spec fn first_line_len(s: Seq<char>) -> int
    decreases s.len(),
{
    if s.len() == 0 {
        0
    } else if s[0] == '\n' {
        0
    } else {
        1 + first_line_len(s.subrange(1, s.len() as int))
    }
}

/// The first line of `s`: everything before the first line feed, with a
/// carriage return immediately preceding that line feed stripped as well. A
/// lone carriage return is no line break and stays.
pub open spec fn first_line_spec(s: Seq<char>) -> Seq<char> {
    let k = first_line_len(s);
    if k < s.len() && k > 0 && s[k - 1] == '\r' {
        s.take(k - 1)
    } else {
        s.take(k)
    }
}

/// `first_line_len` is exactly the index of the first line break, or the
/// whole length when none occurs.
proof fn lemma_first_line_len(s: Seq<char>, k: int)
    requires
        0 <= k <= s.len(),
        forall|j: int| 0 <= j < k ==> s[j] != '\n',
        k < s.len() ==> s[k] == '\n',
    ensures
        first_line_len(s) == k,
    decreases k,
{
    if s.len() == 0 {
    } else if k == 0 {
    } else {
        let rest = s.subrange(1, s.len() as int);
        lemma_first_line_len(rest, k - 1);
    }
}

/// The text before the first line break of `s`.
pub fn get_first_line(s: &str) -> (r: String)
    ensures
        r@ == first_line_spec(s@),
{
    let n = s.unicode_len();
    let mut i: usize = 0;
    while i < n
        invariant
            i <= n,
            n == s@.len(),
            forall|j: int| 0 <= j < i ==> s@[j] != '\n',
        decreases n - i,
    {
        if s.get_char(i) == '\n' {
            proof {
                lemma_first_line_len(s@, i as int);
            }
            let cut: usize = if i > 0 && s.get_char(i - 1) == '\r' {
                i - 1
            } else {
                i
            };
            let sub = s.substring_char(0, cut);
            return sub.to_owned();
        }
        i += 1;
    }
    proof {
        lemma_first_line_len(s@, n as int);
        assert(s@.take(n as int) =~= s@);
    }
    s.to_owned()
}

/// Bounds under which one interval/ease review of this state can be applied
/// at time `now` without running out of the machine's integer range.
pub open spec fn sm_calc_safe(data: SmValue, now: i64) -> bool {
    &&& sm_wf(data)
    &&& data.repetitions < i64::MAX
    &&& data.ease_factor <= i64::MAX - 10
    &&& data.interval * data.ease_factor <= i64::MAX
    &&& now + 6 * 86400 <= i64::MAX
    &&& now + ((data.interval * data.ease_factor) / 100) * 86400 <= i64::MAX
}

/// What one applied interval/ease review of `card` does to the store: that
/// card's state advances, its next-due timestamp moves `interval` days past
/// `now`, and exactly one review record for it is appended.
pub open spec fn applied_model(m0: StoreModel, m: StoreModel, card: Card, q: u32, now: i64) -> bool {
    let data = calc_spec(q, card.data);
    &&& m.decks == m0.decks
    &&& cards_updated(m0.cards, m.cards, card.id, data, now + data.interval * 86400)
    &&& m.reviews.len() == m0.reviews.len() + 1
    &&& m.reviews.take(m0.reviews.len() as int) == m0.reviews
    &&& m.reviews.last().card_id == card.id
    &&& m.reviews.last().review_time == now
}

/// How one card's review session ended.
#[derive(Clone, Copy, PartialEq, Eq, Structural, Debug)]
pub enum ReviewOutcome {
    /// A rating was applied and both persistence writes succeeded.
    Applied(u32),
    /// `s`: the card was left untouched.
    Skipped,
    /// `q`, or the input ran out: the whole run stops.
    Aborted,
    /// A persistence write refused the rating being applied.
    Failed(u32),
}

/// The whole effect of one card's review session on the store.
pub open spec fn review_card_post(
    m0: StoreModel,
    m: StoreModel,
    card_id: ID,
    now: i64,
    out: ReviewOutcome,
) -> bool {
    match out {
        ReviewOutcome::Applied(q) => q <= QUALITY_MAX && applied_model(
            m0,
            m,
            card_by_id(m0.cards, card_id),
            q,
            now,
        ),
        ReviewOutcome::Skipped => m == m0,
        ReviewOutcome::Aborted => m == m0,
        ReviewOutcome::Failed(q) => {
            let data = calc_spec(q, card_by_id(m0.cards, card_id).data);
            &&& q <= QUALITY_MAX
            &&& m.decks == m0.decks
            &&& m.reviews == m0.reviews
            &&& (m.cards == m0.cards || cards_updated(
                m0.cards,
                m.cards,
                card_id,
                data,
                now + data.interval * 86400,
            ))
        },
    }
}

/// One card's session consumed exactly the lines `start..end` of the input
/// script: every line before the deciding one was invalid and re-prompted,
/// and the outcome is what the deciding token asks for — a rating is applied
/// (or refused by the store), `s` skips, `q` aborts, and so does running out
/// of input.
pub open spec fn session_consumed(
    lines: Seq<String>,
    start: int,
    end: int,
    out: ReviewOutcome,
) -> bool {
    &&& start <= end <= lines.len()
    &&& forall|j: int| start <= j < end - 1 ==> token_of(#[trigger] lines[j]@, QUALITY_MAX) is Invalid
    &&& match out {
        ReviewOutcome::Applied(q) => end > start && token_of(lines[end - 1]@, QUALITY_MAX)
            == Token::Rating(q),
        ReviewOutcome::Failed(q) => end > start && token_of(lines[end - 1]@, QUALITY_MAX)
            == Token::Rating(q),
        ReviewOutcome::Skipped => end > start && token_of(lines[end - 1]@, QUALITY_MAX) is Skip,
        ReviewOutcome::Aborted => (end > start && token_of(lines[end - 1]@, QUALITY_MAX) is Quit)
            || (end == lines.len() && (end == start || token_of(
            lines[end - 1]@,
            QUALITY_MAX,
        ) is Invalid)),
    }
}

/// The cards of the deck that are due at `now`, in store order.
pub open spec fn due_seq(cards: Seq<Card>, deck_id: ID, now: i64) -> Seq<Card>
    decreases cards.len(),
{
    if cards.len() == 0 {
        Seq::empty()
    } else {
        let rest = due_seq(cards.drop_last(), deck_id, now);
        if cards.last().deck_id == deck_id && cards.last().next_show_date <= now {
            rest.push(cards.last())
        } else {
            rest
        }
    }
}

/// Every entry of `due_seq` is one of the cards, belongs to the deck, and is
/// due.
proof fn lemma_due_seq_members(cards: Seq<Card>, deck_id: ID, now: i64)
    ensures
        forall|k: int|
            0 <= k < due_seq(cards, deck_id, now).len() ==> (#[trigger] due_seq(
                cards,
                deck_id,
                now,
            )[k]).deck_id == deck_id && due_seq(cards, deck_id, now)[k].next_show_date <= now
                && cards.contains(due_seq(cards, deck_id, now)[k]),
    decreases cards.len(),
{
    if cards.len() > 0 {
        lemma_due_seq_members(cards.drop_last(), deck_id, now);
        let ds = due_seq(cards, deck_id, now);
        let rest = due_seq(cards.drop_last(), deck_id, now);
        assert forall|k: int| 0 <= k < ds.len() implies (#[trigger] ds[k]).deck_id == deck_id
            && ds[k].next_show_date <= now && cards.contains(ds[k]) by {
            if k < rest.len() {
                let d = rest[k];
                assert(cards.drop_last().contains(d));
                let i = choose|i: int| 0 <= i < cards.drop_last().len() && cards.drop_last()[i] == d;
                assert(cards[i] == d);
            } else {
                assert(cards[cards.len() - 1] == ds[k]);
            }
        }
    }
}

/// Every card of the deck that is due at `now` appears among the due cards.
proof fn lemma_due_seq_complete(cards: Seq<Card>, deck_id: ID, now: i64)
    ensures
        forall|i: int|
            0 <= i < cards.len() && (#[trigger] cards[i]).deck_id == deck_id
                && cards[i].next_show_date <= now ==> due_seq(cards, deck_id, now).contains(
                cards[i],
            ),
    decreases cards.len(),
{
    if cards.len() > 0 {
        lemma_due_seq_complete(cards.drop_last(), deck_id, now);
        let ds = due_seq(cards, deck_id, now);
        let rest = due_seq(cards.drop_last(), deck_id, now);
        assert forall|i: int|
            0 <= i < cards.len() && (cards[i]).deck_id == deck_id && cards[i].next_show_date
                <= now implies ds.contains(cards[i]) by {
            if i < cards.len() - 1 {
                assert(cards.drop_last()[i] == cards[i]);
                assert(rest.contains(cards[i]));
                let k = choose|k: int| 0 <= k < rest.len() && rest[k] == cards[i];
                assert(ds[k] == cards[i]);
            } else {
                assert(ds.last() == cards[i]);
            }
        }
    }
}

/// With unique card ids, the due cards carry pairwise different ids.
proof fn lemma_due_seq_distinct(cards: Seq<Card>, deck_id: ID, now: i64)
    requires
        crate::store::distinct_card_ids(cards),
    ensures
        forall|k1: int, k2: int|
            0 <= k1 < k2 < due_seq(cards, deck_id, now).len() ==> #[trigger] due_seq(
                cards,
                deck_id,
                now,
            )[k1].id != #[trigger] due_seq(cards, deck_id, now)[k2].id,
    decreases cards.len(),
{
    if cards.len() > 0 {
        let prefix = cards.drop_last();
        assert(crate::store::distinct_card_ids(prefix));
        lemma_due_seq_distinct(prefix, deck_id, now);
        lemma_due_seq_members(prefix, deck_id, now);
        let rest = due_seq(prefix, deck_id, now);
        let ds = due_seq(cards, deck_id, now);
        assert forall|k1: int, k2: int| 0 <= k1 < k2 < ds.len() implies ds[k1].id
            != ds[k2].id by {
            if k2 < rest.len() {
            } else if k2 == rest.len() && ds.len() > rest.len() {
                let d = rest[k1];
                assert(prefix.contains(d));
                let i = choose|i: int| 0 <= i < prefix.len() && prefix[i] == d;
                assert(cards[i] == d);
                assert(cards[i].id != cards[cards.len() - 1].id);
            }
        }
    }
}

/// No entry of `applied` or `failed` names this id.
pub open spec fn untouched(applied: Seq<(ID, u32)>, failed: Seq<ID>, id: ID) -> bool {
    &&& forall|k: int| 0 <= k < applied.len() ==> (#[trigger] applied[k]).0 != id
    &&& forall|k: int| 0 <= k < failed.len() ==> #[trigger] failed[k] != id
}

/// Some card of the deck with this id is due at `now`.
pub open spec fn due_in(cards: Seq<Card>, deck_id: ID, now: i64, id: ID) -> bool {
    exists|i: int|
        0 <= i < cards.len() && cards[i].id == id && cards[i].deck_id == deck_id
            && cards[i].next_show_date <= now
}

/// The whole effect of a batch review run on the store: one review record
/// per applied rating, in order; applied cards rescheduled by the algorithm;
/// every card that was neither applied nor touched by a failed write — among
/// them every skipped card and every card after an abort — kept exactly as
/// it was; decks untouched.
pub open spec fn batch_post(
    m0: StoreModel,
    m: StoreModel,
    deck_id: ID,
    now: i64,
    applied: Seq<(ID, u32)>,
    failed: Seq<ID>,
) -> bool {
    &&& m.decks == m0.decks
    &&& m.cards.len() == m0.cards.len()
    &&& m.reviews.len() == m0.reviews.len() + applied.len()
    &&& m.reviews.take(m0.reviews.len() as int) == m0.reviews
    &&& forall|j: int|
        m0.reviews.len() <= j < m.reviews.len() ==> (#[trigger] m.reviews[j]).review_time == now
            && m.reviews[j].card_id == applied[j - m0.reviews.len()].0
    &&& forall|i: int|
        0 <= i < m0.cards.len() && untouched(applied, failed, (#[trigger] m0.cards[i]).id)
            ==> m.cards[i] == m0.cards[i]
    &&& forall|i: int, k: int|
        0 <= i < m0.cards.len() && 0 <= k < applied.len() && (#[trigger] m0.cards[i]).id == (
        #[trigger] applied[k]).0 ==> card_rescheduled(
            m0.cards[i],
            m.cards[i],
            calc_spec(applied[k].1, m0.cards[i].data),
            now + calc_spec(applied[k].1, m0.cards[i].data).interval * 86400,
        )
    &&& forall|k: int|
        0 <= k < applied.len() ==> due_in(m0.cards, deck_id, now, (#[trigger] applied[k]).0)
            && applied[k].1 <= QUALITY_MAX
    &&& forall|k: int| 0 <= k < failed.len() ==> due_in(m0.cards, deck_id, now, #[trigger] failed[k])
}

/// There is a walk of the input script that yields exactly these logs: see
/// `batch_script`.
pub open spec fn batch_matches_script(
    lines: Seq<String>,
    ds: Seq<Card>,
    applied: Seq<(ID, u32)>,
    failed: Seq<ID>,
    skipped: Seq<ID>,
    aborted: bool,
) -> bool {
    exists|cuts: Seq<int>, outs: Seq<ReviewOutcome>|
        batch_script(lines, ds, cuts, outs, applied, failed, skipped, aborted)
}

/// What a batch review run reports back.
pub struct BatchOutcome {
    /// The applied reviews, in order: card id and rating.
    pub applied: Vec<(ID, u32)>,
    /// Cards whose review a persistence write refused.
    pub failed: Vec<ID>,
    /// Cards left untouched on `s`.
    pub skipped: Vec<ID>,
    /// Whether the run stopped on `q` or on the end of input.
    pub aborted: bool,
}

/// The card with this id was reviewed, refused, or skipped during the run.
pub open spec fn processed_in(
    applied: Seq<(ID, u32)>,
    failed: Seq<ID>,
    skipped: Seq<ID>,
    id: ID,
) -> bool {
    ||| exists|k: int| 0 <= k < applied.len() && (#[trigger] applied[k]).0 == id
    ||| failed.contains(id)
    ||| skipped.contains(id)
}

/// The applied log a run reports, read off the per-card outcomes: one
/// `(id, rating)` entry per `Applied`, in due order.
pub open spec fn applied_of(ds: Seq<Card>, outs: Seq<ReviewOutcome>) -> Seq<(ID, u32)>
    decreases outs.len(),
{
    if outs.len() == 0 {
        Seq::empty()
    } else {
        let rest = applied_of(ds, outs.drop_last());
        match outs.last() {
            ReviewOutcome::Applied(q) => rest.push((ds[outs.len() - 1].id, q)),
            _ => rest,
        }
    }
}

/// The failed log a run reports, read off the per-card outcomes.
pub open spec fn failed_of(ds: Seq<Card>, outs: Seq<ReviewOutcome>) -> Seq<ID>
    decreases outs.len(),
{
    if outs.len() == 0 {
        Seq::empty()
    } else {
        let rest = failed_of(ds, outs.drop_last());
        match outs.last() {
            ReviewOutcome::Failed(_) => rest.push(ds[outs.len() - 1].id),
            _ => rest,
        }
    }
}

/// The skipped log a run reports, read off the per-card outcomes.
pub open spec fn skipped_of(ds: Seq<Card>, outs: Seq<ReviewOutcome>) -> Seq<ID>
    decreases outs.len(),
{
    if outs.len() == 0 {
        Seq::empty()
    } else {
        let rest = skipped_of(ds, outs.drop_last());
        match outs.last() {
            ReviewOutcome::Skipped => rest.push(ds[outs.len() - 1].id),
            _ => rest,
        }
    }
}

/// How a batch run walks the input script: the due cards `ds` are taken in
/// store order; the k-th processed card's session consumed exactly the lines
/// `cuts[k]..cuts[k + 1]` as `session_consumed` says; only the last session
/// may abort, the run stops there, and a run that did not abort processed
/// every due card. The reported logs are exactly the outcomes read off in
/// order, so the number of applied reviews is pinned to the rating tokens
/// the script supplied before any quit.
/// The k-th session of a run consumed exactly the lines `cuts[k]` up to
/// `cuts[k + 1]`, as `session_consumed` says.
pub open spec fn session_ok(
    lines: Seq<String>,
    cuts: Seq<int>,
    outs: Seq<ReviewOutcome>,
    k: int,
) -> bool {
    &&& cuts[k] <= cuts[k + 1]
    &&& cuts[k + 1] <= lines.len()
    &&& session_consumed(lines, cuts[k], cuts[k + 1], outs[k])
}

/// Every session of the run consumed its own stretch of the script.
pub open spec fn sessions_chained(
    lines: Seq<String>,
    cuts: Seq<int>,
    outs: Seq<ReviewOutcome>,
) -> bool {
    forall|k: int| 0 <= k < outs.len() ==> #[trigger] session_ok(lines, cuts, outs, k)
}

/// Appending one more session keeps the chain: the new session starts where
/// the previous cut ended.
proof fn lemma_chain_extend(
    lines: Seq<String>,
    cuts0: Seq<int>,
    outs0: Seq<ReviewOutcome>,
    end: int,
    out: ReviewOutcome,
)
    requires
        sessions_chained(lines, cuts0, outs0),
        cuts0.len() == outs0.len() + 1,
        cuts0[cuts0.len() - 1] <= end <= lines.len(),
        session_consumed(lines, cuts0[cuts0.len() - 1], end, out),
    ensures
        sessions_chained(lines, cuts0.push(end), outs0.push(out)),
{
    let cuts = cuts0.push(end);
    let outs = outs0.push(out);
    assert forall|k: int| 0 <= k < outs.len() implies #[trigger] session_ok(
        lines,
        cuts,
        outs,
        k,
    ) by {
        if k < outs0.len() {
            assert(session_ok(lines, cuts0, outs0, k));
            assert(outs[k] == outs0[k]);
            assert(cuts[k] == cuts0[k]);
            assert(cuts[k + 1] == cuts0[k + 1]);
        } else {
            assert(outs[k] == out);
            assert(cuts[k] == cuts0[cuts0.len() - 1]);
            assert(cuts[k + 1] == end);
        }
    }
}

pub open spec fn batch_script(
    lines: Seq<String>,
    ds: Seq<Card>,
    cuts: Seq<int>,
    outs: Seq<ReviewOutcome>,
    applied: Seq<(ID, u32)>,
    failed: Seq<ID>,
    skipped: Seq<ID>,
    aborted: bool,
) -> bool {
    &&& outs.len() <= ds.len()
    &&& cuts.len() == outs.len() + 1
    &&& cuts[0] == 0
    &&& sessions_chained(lines, cuts, outs)
    &&& forall|k: int| 0 <= k < outs.len() - 1 ==> !((#[trigger] outs[k]) is Aborted)
    &&& aborted == (outs.len() > 0 && outs.last() is Aborted)
    &&& aborted || outs.len() == ds.len()
    &&& applied == applied_of(ds, outs)
    &&& failed == failed_of(ds, outs)
    &&& skipped == skipped_of(ds, outs)
}

/// `e` records the id and scheduling state of a card of the deck that is
/// due at `now`.
pub open spec fn due_entry_ok(cards: Seq<Card>, deck_id: ID, now: i64, e: (ID, SmValue)) -> bool {
    exists|i: int|
        0 <= i < cards.len() && (#[trigger] cards[i]).id == e.0 && cards[i].data == e.1
            && cards[i].deck_id == deck_id && cards[i].next_show_date <= now
}

/// Creation makes a card immediately due, and one passing review from the
/// initial state reschedules it to exactly one day later: the card stops
/// being due at every moment before that.
pub proof fn lemma_create_then_pass(c0: Card, c: Card, q: u32, now: i64, t: i64)
    requires
        c0.next_show_date == now,
        c0.data.repetitions == 0,
        3 <= q <= 5,
        card_rescheduled(
            c0,
            c,
            calc_spec(q, c0.data),
            now + calc_spec(q, c0.data).interval * 86400,
        ),
        now < t < now + 86400,
    ensures
        is_due(c0, now),
        calc_spec(q, c0.data).interval == 1,
        !is_due(c, t),
{
}

/// Whether a card belongs on a listing with these filters.
pub open spec fn keep_listed(c: Card, deck_id: Option<ID>, all: bool, now: i64) -> bool {
    &&& (deck_id matches Some(d) ==> c.deck_id == d)
    &&& (all || c.next_show_date <= now)
}

/// The cards a listing with these filters shows, in store order.
pub open spec fn listed_seq(cards: Seq<Card>, deck_id: Option<ID>, all: bool, now: i64) -> Seq<
    Card,
>
    decreases cards.len(),
{
    if cards.len() == 0 {
        Seq::empty()
    } else {
        let rest = listed_seq(cards.drop_last(), deck_id, all, now);
        if keep_listed(cards.last(), deck_id, all, now) {
            rest.push(cards.last())
        } else {
            rest
        }
    }
}

/// `c` is `c0` shown on a listing: the description cut to its first line,
/// everything else kept.
pub open spec fn card_listed(c0: Card, c: Card) -> bool {
    &&& c.id == c0.id
    &&& c.deck_id == c0.deck_id
    &&& c.deck@ == c0.deck@
    &&& c.desc@ == first_line_spec(c0.desc@)
    &&& c.next_show_date == c0.next_show_date
    &&& c.created_at == c0.created_at
    &&& c.data == c0.data
}

/// Drives review runs against a store: fetches due cards, feeds input lines
/// into the per-card session machine, applies the scheduling algorithm, and
/// persists the outcome.
pub struct Conductor<S: Store> {
    pub store: S,
}

impl<S: Store> Conductor<S> {
    pub open spec fn model(&self) -> StoreModel {
        self.store.model()
    }

    /// Wrap a store.
    pub fn new(store: S) -> (c: Conductor<S>)
        ensures
            c.store == store,
    {
        Conductor { store }
    }

    /// Create a deck.
    pub fn add_deck(&mut self, name: &str, now: i64) -> (r: ReviseResult<ID>)
        requires
            store_inv(old(self).model()),
        ensures
            store_inv(final(self).model()),
            add_deck_post(old(self).model(), final(self).model(), name@, now, r),
    {
        self.store.add_deck(name, now)
    }

    /// Every deck, in creation order; the store may refuse the read.
    pub fn list_decks(&self) -> (r: ReviseResult<&Vec<Deck>>)
        ensures
            match r {
                Ok(v) => v@ == self.model().decks,
                Err(ReviseError::PersistenceFailure) => true,
                Err(_) => false,
            },
    {
        self.store.list_decks()
    }

    /// Create a card in a deck; it is immediately due.
    pub fn add_card(&mut self, deck_id: ID, desc: &str, now: i64) -> (r: ReviseResult<ID>)
        requires
            store_inv(old(self).model()),
        ensures
            store_inv(final(self).model()),
            add_card_post(old(self).model(), final(self).model(), deck_id, desc@, now, r),
    {
        self.store.add_card(deck_id, desc, now)
    }

    /// Replace a card's description; its scheduling state stays untouched.
    pub fn edit_card(&mut self, id: ID, desc: &str) -> (r: ReviseResult<()>)
        requires
            store_inv(old(self).model()),
        ensures
            store_inv(final(self).model()),
            edit_card_post(old(self).model(), final(self).model(), id, desc@, r),
    {
        self.store.edit_card(id, desc)
    }

    /// The card of the given id.
    pub fn view_card(&self, id: ID) -> (r: ReviseResult<&Card>)
        requires
            store_inv(self.model()),
        ensures
            match r {
                Ok(c) => has_card(self.model().cards, id) && *c == card_by_id(
                    self.model().cards,
                    id,
                ),
                Err(ReviseError::NotFound(x)) => x == id && !has_card(self.model().cards, id),
                Err(ReviseError::PersistenceFailure) => true,
                Err(_) => false,
            },
    {
        self.store.get_card(id)
    }

    /// Remove a card; its review records stay as orphaned references.
    pub fn remove_card(&mut self, id: ID) -> (r: ReviseResult<()>)
        requires
            store_inv(old(self).model()),
        ensures
            store_inv(final(self).model()),
            remove_card_post(old(self).model(), final(self).model(), id, r),
    {
        self.store.remove_card(id)
    }

    /// The cards a listing shows: filtered to the deck if one is given, to
    /// the due ones unless `all`, each with its description cut to the first
    /// line. Nothing in the store moves; the store may refuse the read.
    pub fn list_cards(&self, deck_id: Option<ID>, all: bool, now: i64) -> (r: ReviseResult<
        Vec<Card>,
    >)
        ensures
            match r {
                Ok(v) => v@.len() == listed_seq(self.model().cards, deck_id, all, now).len()
                    && forall|k: int|
                    0 <= k < v@.len() ==> card_listed(
                        listed_seq(self.model().cards, deck_id, all, now)[k],
                        #[trigger] v@[k],
                    ),
                Err(ReviseError::PersistenceFailure) => true,
                Err(_) => false,
            },
    {
        let cards = match self.store.get_cards() {
            Ok(v) => v,
            Err(_) => {
                return Err(ReviseError::PersistenceFailure);
            },
        };
        let n = cards.len();
        let mut out: Vec<Card> = Vec::new();
        let mut i: usize = 0;
        while i < n
            invariant
                i <= n,
                n == cards@.len(),
                out@.len() == listed_seq(cards@.take(i as int), deck_id, all, now).len(),
                forall|k: int|
                    0 <= k < out@.len() ==> card_listed(
                        listed_seq(cards@.take(i as int), deck_id, all, now)[k],
                        #[trigger] out@[k],
                    ),
            decreases n - i,
        {
            let keep: bool = match deck_id {
                Some(d) => cards[i].deck_id == d,
                None => true,
            };
            let keep = keep && (all || cards[i].next_show_date <= now);
            if keep {
                let c = Card {
                    id: cards[i].id,
                    deck_id: cards[i].deck_id,
                    deck: cards[i].deck.clone(),
                    desc: get_first_line(cards[i].desc.as_str()),
                    next_show_date: cards[i].next_show_date,
                    created_at: cards[i].created_at,
                    data: cards[i].data,
                };
                out.push(c);
            }
            proof {
                assert(cards@.take(i + 1).drop_last() =~= cards@.take(i as int));
                assert(cards@.take(i + 1).last() == cards@[i as int]);
            }
            i += 1;
        }
        proof {
            assert(cards@.take(n as int) =~= cards@);
        }
        Ok(out)
    }

    /// Run one card's interactive review session: consume input lines until
    /// a token decides, then apply the interval/ease model and persist. The
    /// store moves exactly as `review_card_post` says; on a skip, an abort
    /// or a re-prompt it does not move at all.
    pub fn review_card(&mut self, card_id: ID, now: i64, inputs: &Vec<String>, ip: &mut usize) -> (
    out: ReviewOutcome)
        requires
            store_inv(old(self).model()),
            has_card(old(self).model().cards, card_id),
            sm_calc_safe(card_by_id(old(self).model().cards, card_id).data, now),
            now >= 0,
            *old(ip) <= inputs@.len(),
        ensures
            store_inv(final(self).model()),
            *old(ip) <= *final(ip) <= inputs@.len(),
            review_card_post(old(self).model(), final(self).model(), card_id, now, out),
            session_consumed(inputs@, *old(ip) as int, *final(ip) as int, out),
    {
        loop
            invariant
                self.store.model() == old(self).store.model(),
                store_inv(old(self).model()),
                has_card(old(self).model().cards, card_id),
                sm_calc_safe(card_by_id(old(self).model().cards, card_id).data, now),
                now >= 0,
                *old(ip) <= *ip <= inputs@.len(),
                forall|j: int|
                    *old(ip) <= j < *ip ==> token_of(#[trigger] inputs@[j]@, QUALITY_MAX) is Invalid,
            decreases inputs@.len() - *ip,
        {
            if *ip >= inputs.len() {
                return ReviewOutcome::Aborted;
            }
            let line: &String = &inputs[*ip];
            *ip = *ip + 1;
            let st = consume(SessionState::AwaitingInput, line.as_str(), QUALITY_MAX);
            match st {
                SessionState::AwaitingInput => {
                    // invalid input: re-prompt, nothing moved
                },
                SessionState::Aborted => {
                    return ReviewOutcome::Aborted;
                },
                SessionState::Skipped => {
                    return ReviewOutcome::Skipped;
                },
                SessionState::Applying(q) => {
                    let data0: SmValue = match self.store.get_card(card_id) {
                        Ok(c) => c.data,
                        Err(_) => {
                            // the card is held, so only a refused read lands here
                            return ReviewOutcome::Failed(q);
                        },
                    };
                    let next_data = crate::sm2::calc(q, data0);
                    let ivl: i64 = next_data.interval;
                    proof {
                        assert(now + ivl * 86400 <= i64::MAX);
                    }
                    let next_show: i64 = now + ivl * 86400;
                    match self.store.update_card(card_id, next_data, next_show) {
                        Err(_) => {
                            return ReviewOutcome::Failed(q);
                        },
                        Ok(()) => {},
                    }
                    let rec = Review {
                        id: 0,
                        card_id,
                        interval: 0,
                        last_interval: 0,
                        review_time: now,
                        stability: 0,
                        difficulty: 0,
                    };
                    match self.store.add_review(rec) {
                        Err(_) => {
                            return ReviewOutcome::Failed(q);
                        },
                        Ok(_) => {
                            return ReviewOutcome::Applied(q);
                        },
                    }
                },
                _ => {
                    // feeding a line from `AwaitingInput` never lands here
                    proof {
                        assert(false);
                    }
                },
            }
        }
    }

    /// Run one identified card through the review session, bypassing the
    /// due filter.
    pub fn review_by_id(&mut self, id: ID, now: i64, inputs: &Vec<String>) -> (r: ReviseResult<
        ReviewOutcome,
    >)
        requires
            store_inv(old(self).model()),
            now >= 0,
            has_card(old(self).model().cards, id) ==> sm_calc_safe(
                card_by_id(old(self).model().cards, id).data,
                now,
            ),
        ensures
            store_inv(final(self).model()),
            match r {
                Ok(out) => (exists|n: int| session_consumed(inputs@, 0, n, out)) && has_card(
                    old(self).model().cards,
                    id,
                ) && review_card_post(old(self).model(), final(self).model(), id, now, out),
                Err(ReviseError::NotFound(x)) => x == id && !has_card(old(self).model().cards, id)
                    && final(self).model() == old(self).model(),
                Err(ReviseError::PersistenceFailure) => final(self).model() == old(self).model(),
                Err(_) => false,
            },
    {
        match self.store.get_card(id) {
            Ok(_) => {},
            Err(ReviseError::NotFound(_)) => {
                return Err(ReviseError::NotFound(id));
            },
            Err(_) => {
                return Err(ReviseError::PersistenceFailure);
            },
        }
        let mut ip: usize = 0;
        Ok(self.review_card(id, now, inputs, &mut ip))
    }

    /// Run a batch review of every card of the deck that is due at `now`.
    ///
    /// The due set is fetched once at the start; a card that becomes due
    /// during the run is not picked up. Each due card is fed through the
    /// session machine in store order, consuming lines of `inputs`; `q` or
    /// the end of input aborts the rest of the run.
    #[verifier::rlimit(100)]
    pub fn review(&mut self, deck_id: ID, now: i64, inputs: &Vec<String>) -> (r: ReviseResult<
        BatchOutcome,
    >)
        requires
            store_inv(old(self).model()),
            now >= 0,
            forall|i: int|
                0 <= i < old(self).model().cards.len() && (#[trigger] old(
                    self,
                ).model().cards[i]).deck_id == deck_id && old(self).model().cards[i].next_show_date
                    <= now ==> sm_calc_safe(old(self).model().cards[i].data, now),
        ensures
            store_inv(final(self).model()),
            match r {
                Ok(out) => {
                    &&& batch_post(
                        old(self).model(),
                        final(self).model(),
                        deck_id,
                        now,
                        out.applied@,
                        out.failed@,
                    )
                    &&& batch_matches_script(
                        inputs@,
                        due_seq(old(self).model().cards, deck_id, now),
                        out.applied@,
                        out.failed@,
                        out.skipped@,
                        out.aborted,
                    )
                    &&& forall|k: int|
                        0 <= k < out.skipped@.len() ==> due_in(
                            old(self).model().cards,
                            deck_id,
                            now,
                            #[trigger] out.skipped@[k],
                        )
                    &&& !out.aborted ==> forall|i: int|
                        0 <= i < old(self).model().cards.len() && (#[trigger] old(
                            self,
                        ).model().cards[i]).deck_id == deck_id
                            && old(self).model().cards[i].next_show_date <= now ==> processed_in(
                            out.applied@,
                            out.failed@,
                            out.skipped@,
                            old(self).model().cards[i].id,
                        )
                },
                Err(ReviseError::PersistenceFailure) => final(self).model() == old(self).model(),
                Err(_) => false,
            },
    {
        let ghost m0 = self.store.model();
        let mut due: Vec<(ID, SmValue)> = Vec::new();
        {
            let cards = match self.store.get_cards() {
                Ok(v) => v,
                Err(_) => {
                    return Err(ReviseError::PersistenceFailure);
                },
            };
            let n = cards.len();
            let mut i: usize = 0;
            while i < n
                invariant
                    i <= n,
                    n == cards@.len(),
                    due@.len() == due_seq(cards@.take(i as int), deck_id, now).len(),
                    forall|k: int|
                        0 <= k < due@.len() ==> (#[trigger] due@[k]).0 == due_seq(
                            cards@.take(i as int),
                            deck_id,
                            now,
                        )[k].id && due@[k].1 == due_seq(cards@.take(i as int), deck_id, now)[k].data,
                decreases n - i,
            {
                if cards[i].deck_id == deck_id && cards[i].next_show_date <= now {
                    due.push((cards[i].id, cards[i].data));
                }
                proof {
                    assert(cards@.take(i + 1).drop_last() =~= cards@.take(i as int));
                    assert(cards@.take(i + 1).last() == cards@[i as int]);
                }
                i += 1;
            }
            proof {
                assert(cards@.take(n as int) =~= cards@);
            }
        }
        proof {
            lemma_due_seq_members(m0.cards, deck_id, now);
            lemma_due_seq_distinct(m0.cards, deck_id, now);
            let ds = due_seq(m0.cards, deck_id, now);
            assert forall|k: int| 0 <= k < due@.len() implies due_entry_ok(
                m0.cards,
                deck_id,
                now,
                #[trigger] due@[k],
            ) by {
                let d = ds[k];
                assert(m0.cards.contains(d));
                let i = choose|i: int| 0 <= i < m0.cards.len() && m0.cards[i] == d;
                assert(0 <= i < m0.cards.len() && m0.cards[i].id == due@[k].0
                    && m0.cards[i].data == due@[k].1);
            }
            assert(m0.reviews.take(m0.reviews.len() as int) =~= m0.reviews);
        }
        let mut applied: Vec<(ID, u32)> = Vec::new();
        let mut failed: Vec<ID> = Vec::new();
        let mut skipped: Vec<ID> = Vec::new();
        let mut aborted: bool = false;
        let mut ip: usize = 0;
        let dn = due.len();
        let mut k: usize = 0;
        let ghost ds = due_seq(m0.cards, deck_id, now);
        let ghost mut cuts: Seq<int> = seq![0];
        let ghost mut outs: Seq<ReviewOutcome> = Seq::empty();
        while k < dn && !aborted
            invariant
                k <= dn,
                dn == due@.len(),
                due@.len() == due_seq(m0.cards, deck_id, now).len(),
                forall|k1: int|
                    0 <= k1 < due@.len() ==> (#[trigger] due@[k1]).0 == due_seq(
                        m0.cards,
                        deck_id,
                        now,
                    )[k1].id,
                forall|k1: int|
                    0 <= k1 < skipped@.len() ==> due_in(m0.cards, deck_id, now, #[trigger] skipped@[k1]),
                !aborted ==> forall|k1: int|
                    0 <= k1 < k ==> processed_in(applied@, failed@, skipped@, (#[trigger] due@[k1]).0),
                ip <= inputs@.len(),
                now >= 0,
                m0 == old(self).store.model(),
                store_inv(m0),
                forall|i: int|
                    0 <= i < m0.cards.len() && (#[trigger] m0.cards[i]).deck_id == deck_id
                        && m0.cards[i].next_show_date <= now ==> sm_calc_safe(
                        m0.cards[i].data,
                        now,
                    ),
                forall|k1: int|
                    0 <= k1 < due@.len() ==> due_entry_ok(m0.cards, deck_id, now, #[trigger] due@[k1]),
                forall|k1: int, k2: int|
                    0 <= k1 < k2 < due@.len() ==> (#[trigger] due@[k1]).0 != (#[trigger] due@[k2]).0,
                store_inv(self.store.model()),
                batch_post(m0, self.store.model(), deck_id, now, applied@, failed@),
                forall|k1: int| k <= k1 < dn ==> untouched(applied@, failed@, (#[trigger] due@[k1]).0),
                ds == due_seq(m0.cards, deck_id, now),
                ds.len() == dn,
                outs.len() == k,
                cuts.len() == k + 1,
                cuts[0] == 0,
                cuts[cuts.len() - 1] == ip as int,
                sessions_chained(inputs@, cuts, outs),
                forall|k1: int| 0 <= k1 < outs.len() - 1 ==> !((#[trigger] outs[k1]) is Aborted),
                aborted == (outs.len() > 0 && outs.last() is Aborted),
                applied@ == applied_of(ds, outs),
                failed@ == failed_of(ds, outs),
                skipped@ == skipped_of(ds, outs),
            decreases dn - k,
        {
            let id: ID = due[k].0;
            let ghost m_prev = self.store.model();
            let ghost entry = due@[k as int];
            let ghost wi = choose|i: int|
                0 <= i < m0.cards.len() && m0.cards[i].id == entry.0 && m0.cards[i].data == entry.1
                    && m0.cards[i].deck_id == deck_id && m0.cards[i].next_show_date <= now;
            proof {
                assert(due_entry_ok(m0.cards, deck_id, now, due@[k as int]));
                assert(untouched(applied@, failed@, id));
                assert(m_prev.cards[wi] == m0.cards[wi]);
                assert(has_card(m_prev.cards, id));
                lemma_card_by_id(m_prev.cards, wi);
                assert(card_by_id(m_prev.cards, id) == m0.cards[wi]);
                assert(sm_calc_safe(card_by_id(m_prev.cards, id).data, now));
            }
            let ghost ip0 = ip as int;
            let out = self.review_card(id, now, inputs, &mut ip);
            let ghost m_new = self.store.model();
            let ghost cuts0 = cuts;
            let ghost outs0 = outs;
            proof {
                cuts = cuts.push(ip as int);
                outs = outs.push(out);
                assert(cuts.drop_last() =~= cuts0);
                assert(outs.drop_last() =~= outs0);
                assert(ds[outs.len() - 1].id == id);
                match out {
                    ReviewOutcome::Applied(q) => {
                        assert(applied_of(ds, outs) == applied_of(ds, outs0).push((id, q)));
                        assert(failed_of(ds, outs) == failed_of(ds, outs0));
                        assert(skipped_of(ds, outs) == skipped_of(ds, outs0));
                    },
                    ReviewOutcome::Failed(_) => {
                        assert(applied_of(ds, outs) == applied_of(ds, outs0));
                        assert(failed_of(ds, outs) == failed_of(ds, outs0).push(id));
                        assert(skipped_of(ds, outs) == skipped_of(ds, outs0));
                    },
                    ReviewOutcome::Skipped => {
                        assert(applied_of(ds, outs) == applied_of(ds, outs0));
                        assert(failed_of(ds, outs) == failed_of(ds, outs0));
                        assert(skipped_of(ds, outs) == skipped_of(ds, outs0).push(id));
                    },
                    ReviewOutcome::Aborted => {
                        assert(applied_of(ds, outs) == applied_of(ds, outs0));
                        assert(failed_of(ds, outs) == failed_of(ds, outs0));
                        assert(skipped_of(ds, outs) == skipped_of(ds, outs0));
                    },
                }
                assert(cuts0[cuts0.len() - 1] == ip0);
                assert(session_consumed(inputs@, ip0, ip as int, out));
                lemma_chain_extend(inputs@, cuts0, outs0, ip as int, out);
                assert(sessions_chained(inputs@, cuts, outs));
            }
            match out {
                ReviewOutcome::Applied(q) => {
                    let ghost al0 = applied@;
                    applied.push((id, q));
                    proof {
                        let al = applied@;
                        assert(al.drop_last() =~= al0);
                        assert(m_new.reviews.take(m_prev.reviews.len() as int) == m_prev.reviews);
                        assert(m_new.reviews.take(m0.reviews.len() as int) =~= m0.reviews);
                        assert(cards_updated(
                            m_prev.cards,
                            m_new.cards,
                            id,
                            calc_spec(q, m0.cards[wi].data),
                            now + calc_spec(q, m0.cards[wi].data).interval * 86400,
                        ));
                        assert forall|i: int|
                            0 <= i < m0.cards.len() && untouched(al, failed@, (#[trigger] m0.cards[i]).id)
                            implies m_new.cards[i] == m0.cards[i] by {
                            assert(untouched(al0, failed@, m0.cards[i].id));
                            assert(m_prev.cards[i] == m0.cards[i]);
                            assert(al[al.len() - 1].0 == id);
                            assert(m_prev.cards[i].id != id);
                        }
                        assert forall|i: int, k1: int|
                            0 <= i < m0.cards.len() && 0 <= k1 < al.len() && (#[trigger] m0.cards[i]).id == (
                            #[trigger] al[k1]).0 implies card_rescheduled(
                            m0.cards[i],
                            m_new.cards[i],
                            calc_spec(al[k1].1, m0.cards[i].data),
                            now + calc_spec(al[k1].1, m0.cards[i].data).interval * 86400,
                        ) by {
                            if k1 < al.len() - 1 {
                                assert(al[k1] == al0[k1]);
                                assert(al0[k1].0 != id);
                                assert(card_rescheduled(
                                    m0.cards[i],
                                    m_prev.cards[i],
                                    calc_spec(al0[k1].1, m0.cards[i].data),
                                    now + calc_spec(al0[k1].1, m0.cards[i].data).interval * 86400,
                                ));
                                assert(m_prev.cards[i].id == m0.cards[i].id);
                                assert(m_new.cards[i] == m_prev.cards[i]);
                            } else {
                                assert(al[k1] == (id, q));
                                assert(untouched(al0, failed@, m0.cards[i].id));
                                assert(m_prev.cards[i] == m0.cards[i]);
                                assert(m0.cards[i].id == m0.cards[wi].id);
                                assert(i == wi);
                            }
                        }
                        assert forall|j: int|
                            m0.reviews.len() <= j < m_new.reviews.len() implies (
                            #[trigger] m_new.reviews[j]).review_time == now && m_new.reviews[j].card_id
                                == al[j - m0.reviews.len()].0 by {
                            if j < m_prev.reviews.len() {
                                assert(m_new.reviews[j] == m_prev.reviews[j]);
                                assert(al[j - m0.reviews.len()] == al0[j - m0.reviews.len()]);
                            } else {
                                assert(m_new.reviews[j] == m_new.reviews.last());
                            }
                        }
                        assert forall|k1: int| 0 <= k1 < k + 1 implies processed_in(
                            al,
                            failed@,
                            skipped@,
                            (#[trigger] due@[k1]).0,
                        ) by {
                            if k1 < k {
                                assert(processed_in(al0, failed@, skipped@, due@[k1].0));
                                if exists|k2: int|
                                    0 <= k2 < al0.len() && (#[trigger] al0[k2]).0 == due@[k1].0 {
                                    let k2 = choose|k2: int|
                                        0 <= k2 < al0.len() && (#[trigger] al0[k2]).0 == due@[k1].0;
                                    assert(al[k2].0 == due@[k1].0);
                                }
                            } else {
                                assert(al[al.len() - 1].0 == id);
                            }
                        }
                    }
                },
                ReviewOutcome::Failed(q) => {
                    let ghost fl0 = failed@;
                    failed.push(id);
                    proof {
                        let fl = failed@;
                        assert(fl.drop_last() =~= fl0);
                        assert forall|i: int|
                            0 <= i < m0.cards.len() && untouched(applied@, fl, (#[trigger] m0.cards[i]).id)
                            implies m_new.cards[i] == m0.cards[i] by {
                            assert(untouched(applied@, fl0, m0.cards[i].id));
                            assert(m_prev.cards[i] == m0.cards[i]);
                            assert(fl[fl.len() - 1] == id);
                            assert(m_prev.cards[i].id != id);
                        }
                        assert forall|i: int, k1: int|
                            0 <= i < m0.cards.len() && 0 <= k1 < applied@.len() && (
                            #[trigger] m0.cards[i]).id == (#[trigger] applied@[k1]).0 implies card_rescheduled(
                            m0.cards[i],
                            m_new.cards[i],
                            calc_spec(applied@[k1].1, m0.cards[i].data),
                            now + calc_spec(applied@[k1].1, m0.cards[i].data).interval * 86400,
                        ) by {
                            assert(applied@[k1].0 != id);
                            assert(m_prev.cards[i].id == m0.cards[i].id);
                            assert(m_new.cards[i] == m_prev.cards[i]);
                        }
                        assert forall|k1: int| 0 <= k1 < k + 1 implies processed_in(
                            applied@,
                            fl,
                            skipped@,
                            (#[trigger] due@[k1]).0,
                        ) by {
                            if k1 < k {
                                assert(processed_in(applied@, fl0, skipped@, due@[k1].0));
                                if fl0.contains(due@[k1].0) {
                                    let k2 = choose|k2: int|
                                        0 <= k2 < fl0.len() && fl0[k2] == due@[k1].0;
                                    assert(fl[k2] == due@[k1].0);
                                }
                            } else {
                                assert(fl[fl.len() - 1] == id);
                            }
                        }
                    }
                },
                ReviewOutcome::Skipped => {
                    let ghost sk0 = skipped@;
                    skipped.push(id);
                    proof {
                        let sk = skipped@;
                        assert(sk.drop_last() =~= sk0);
                        assert(sk[sk.len() - 1] == id);
                        assert(due_in(m0.cards, deck_id, now, id));
                        assert forall|k1: int| 0 <= k1 < k + 1 implies processed_in(
                            applied@,
                            failed@,
                            sk,
                            (#[trigger] due@[k1]).0,
                        ) by {
                            if k1 < k {
                                assert(processed_in(applied@, failed@, sk0, due@[k1].0));
                                if sk0.contains(due@[k1].0) {
                                    let k2 = choose|k2: int|
                                        0 <= k2 < sk0.len() && sk0[k2] == due@[k1].0;
                                    assert(sk[k2] == due@[k1].0);
                                }
                            }
                        }
                    }
                },
                ReviewOutcome::Aborted => {
                    aborted = true;
                },
            }
            k += 1;
        }
        proof {
            if !aborted {
                lemma_due_seq_complete(m0.cards, deck_id, now);
                let ds = due_seq(m0.cards, deck_id, now);
                assert forall|i: int|
                    0 <= i < m0.cards.len() && (m0.cards[i]).deck_id == deck_id
                        && m0.cards[i].next_show_date <= now implies processed_in(
                    applied@,
                    failed@,
                    skipped@,
                    m0.cards[i].id,
                ) by {
                    let c = m0.cards[i];
                    assert(ds.contains(c));
                    let k1 = choose|k1: int| 0 <= k1 < ds.len() && ds[k1] == c;
                    assert(due@[k1].0 == c.id);
                    assert(processed_in(applied@, failed@, skipped@, due@[k1].0));
                }
            }
        }
        proof {
            assert(batch_script(
                inputs@,
                due_seq(m0.cards, deck_id, now),
                cuts,
                outs,
                applied@,
                failed@,
                skipped@,
                aborted,
            ));
            assert(batch_matches_script(
                inputs@,
                due_seq(m0.cards, deck_id, now),
                applied@,
                failed@,
                skipped@,
                aborted,
            ));
        }
        Ok(BatchOutcome { applied, failed, skipped, aborted })
    }
}

} // verus!
