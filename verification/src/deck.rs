//! The deck: the cards in their order, the cursor on the card being shown,
//! and the rules by which the cursor moves past cards that are mastered.

use vstd::prelude::*;
use crate::question::{
    all_mastered, cards_of_sources, lemma_cards_of_sources_unmastered, lemma_first_unmastered,
    next_unmastered, Card, QuestionT,
};

verus! {

/// Why no deck could be made.
#[derive(Clone, Copy, Debug, PartialEq, Eq, Structural)]
pub enum DeckError {
    /// There is no card to study.
    Empty,
}

/// The cards with the record of whether all of them are mastered.
#[derive(Debug)]
struct Pile {
    cards: Vec<QuestionT>,
    all_mastered: bool,
}

/// The cards of a study session with the cursor on the current one.
#[derive(Debug)]
pub struct Deck {
    pile: Pile,
    cursor: usize,
}

/// A deck as the contracts see it.
pub ghost struct DeckState {
    pub cards: Seq<Card>,
    pub cursor: int,
    /// The deck's own record of whether every card is mastered.
    pub all_mastered: bool,
}

/// One of the calls that change a deck.
pub ghost enum DeckOp {
    Advance,
    MarkCurrentMastered,
    Restart,
}

/// The card with its mastery set.
pub open spec fn with_mastery(card: Card, mastered: bool) -> Card {
    Card { mastered, ..card }
}

impl DeckState {
    /// What holds of every deck: it has a card, the cursor is on one of its
    /// cards, and its record of completion is true exactly when every card
    /// is mastered.
    pub open spec fn wf(self) -> bool {
        &&& self.cards.len() >= 1
        &&& 0 <= self.cursor < self.cards.len()
        &&& self.all_mastered == all_mastered(self.cards)
    }

    /// The card under the cursor.
    pub open spec fn current(self) -> Card {
        self.cards[self.cursor]
    }

    /// The deck with the cursor moved to the next card that is not mastered,
    /// or to the first card where all are mastered.
    pub open spec fn advance(self) -> DeckState {
        DeckState { cursor: next_unmastered(self.cards, self.cursor), ..self }
    }

    /// The deck with the current card mastered and completion worked out
    /// anew. The cursor stays.
    pub open spec fn mark_current_mastered(self) -> DeckState {
        let cards = self.cards.update(self.cursor, with_mastery(self.current(), true));
        DeckState { cards, all_mastered: all_mastered(cards), ..self }
    }

    /// The deck with no card mastered. Cards, order and cursor stay.
    pub open spec fn restart(self) -> DeckState {
        DeckState {
            cards: self.cards.map_values(|card: Card| with_mastery(card, false)),
            all_mastered: false,
            ..self
        }
    }

    /// The deck after one call.
    pub open spec fn apply(self, op: DeckOp) -> DeckState {
        match op {
            DeckOp::Advance => self.advance(),
            DeckOp::MarkCurrentMastered => self.mark_current_mastered(),
            DeckOp::Restart => self.restart(),
        }
    }

    /// The deck after a series of calls.
    pub open spec fn run(self, ops: Seq<DeckOp>) -> DeckState
        decreases ops.len(),
    {
        if ops.len() == 0 {
            self
        } else {
            self.run(ops.drop_last()).apply(ops.last())
        }
    }
}

/// Whether `k` comes strictly between `from` and `to` on the way round the
/// deck: forward from `from`, past the last card to the first, up to `to`.
pub open spec fn passed_over(from: int, to: int, k: int) -> bool {
    if from < to {
        from < k < to
    } else {
        k > from || k < to
    }
}

/// Where the cursor goes is a card of the deck. Unless every card is
/// mastered it is a card that is not, and the nearest such card on the way
/// round the deck: every card passed over is mastered. Where every card is
/// mastered it is the first card.
pub proof fn lemma_next_unmastered(cards: Seq<Card>, current: int)
    requires
        cards.len() >= 1,
        0 <= current < cards.len(),
    ensures
        0 <= next_unmastered(cards, current) < cards.len(),
        all_mastered(cards) <==> cards[next_unmastered(cards, current)].mastered,
        all_mastered(cards) ==> next_unmastered(cards, current) == 0,
        !all_mastered(cards) ==> forall|k: int|
            0 <= k < cards.len() && passed_over(current, next_unmastered(cards, current), k)
                ==> (#[trigger] cards[k]).mastered,
{
    lemma_first_unmastered(cards, current + 1, cards.len() as int);
    lemma_first_unmastered(cards, 0, current + 1);
}

/// No call breaks a deck: whatever is called, in whatever order, the deck
/// keeps at least one card, its cards keep their number, the cursor stays on
/// a card, and the record of completion stays true to the cards.
pub proof fn lemma_deck_stays_well_formed(deck: DeckState, ops: Seq<DeckOp>)
    requires
        deck.wf(),
    ensures
        deck.run(ops).wf(),
        deck.run(ops).cards.len() == deck.cards.len(),
    decreases ops.len(),
{
    if ops.len() > 0 {
        lemma_deck_stays_well_formed(deck, ops.drop_last());
        let before = deck.run(ops.drop_last());
        match ops.last() {
            DeckOp::Advance => {
                lemma_next_unmastered(before.cards, before.cursor);
            },
            DeckOp::MarkCurrentMastered => {},
            DeckOp::Restart => {
                assert(!before.restart().cards[0].mastered);
            },
        }
    }
}

/// A mastered card stays mastered, and its text stays, through every series
/// of calls that holds no restart.
pub proof fn lemma_mastery_lasts(deck: DeckState, ops: Seq<DeckOp>, i: int)
    requires
        deck.wf(),
        0 <= i < deck.cards.len(),
        deck.cards[i].mastered,
        forall|k: int| 0 <= k < ops.len() ==> ops[k] != DeckOp::Restart,
    ensures
        deck.run(ops).cards.len() == deck.cards.len(),
        deck.run(ops).cards[i] == deck.cards[i],
    decreases ops.len(),
{
    if ops.len() > 0 {
        let earlier = ops.drop_last();
        assert forall|k: int| 0 <= k < earlier.len() implies earlier[k] != DeckOp::Restart by {
            assert(earlier[k] == ops[k]);
        }
        lemma_mastery_lasts(deck, earlier, i);
        lemma_deck_stays_well_formed(deck, earlier);
        assert(ops.last() == ops[ops.len() - 1]);
    }
}

/// No call takes a card away, adds one, moves one or changes its text.
pub proof fn lemma_cards_keep_place_and_text(deck: DeckState, ops: Seq<DeckOp>, i: int)
    requires
        deck.wf(),
        0 <= i < deck.cards.len(),
    ensures
        deck.run(ops).cards.len() == deck.cards.len(),
        deck.run(ops).cards[i].question == deck.cards[i].question,
        deck.run(ops).cards[i].answer == deck.cards[i].answer,
    decreases ops.len(),
{
    if ops.len() > 0 {
        lemma_cards_keep_place_and_text(deck, ops.drop_last(), i);
        lemma_deck_stays_well_formed(deck, ops.drop_last());
    }
}

/// The card that was current when it was marked is mastered from then on,
/// until a restart.
pub proof fn lemma_marked_card_stays_mastered(deck: DeckState, ops: Seq<DeckOp>)
    requires
        deck.wf(),
        forall|k: int| 0 <= k < ops.len() ==> ops[k] != DeckOp::Restart,
    ensures
        deck.mark_current_mastered().run(ops).cards[deck.cursor] == with_mastery(
            deck.current(),
            true,
        ),
{
    lemma_mastery_lasts(deck.mark_current_mastered(), ops, deck.cursor);
}

/// After a restart no card is mastered and the deck does not count as
/// complete.
pub proof fn lemma_restart_clears(deck: DeckState)
    requires
        deck.wf(),
    ensures
        deck.restart().wf(),
        !deck.restart().all_mastered,
        forall|k: int| 0 <= k < deck.cards.len() ==> !(#[trigger] deck.restart().cards[k]).mastered,
{
    assert(!deck.restart().cards[0].mastered);
}

/// A second restart changes nothing.
pub proof fn lemma_restart_idempotent(deck: DeckState)
    ensures
        deck.restart().restart() == deck.restart(),
{
    assert(deck.restart().restart().cards =~= deck.restart().cards);
}

impl Pile {
    /// Whether there is a card and the record of completion is true to the
    /// cards.
    spec fn wf(&self) -> bool {
        self.cards.len() >= 1 && self.all_mastered == all_mastered(self.cards.deep_view())
    }

    /// Masters the card at `index` and works out completion anew.
    fn mark(&mut self, index: usize)
        requires
            old(self).wf(),
            index < old(self).cards.len(),
        ensures
            final(self).wf(),
            final(self).cards.deep_view() == old(self).cards.deep_view().update(
                index as int,
                with_mastery(old(self).cards.deep_view()[index as int], true),
            ),
        no_unwind
    {
        self.cards[index].mark_as_easy();
        self.all_mastered = QuestionT::check_if_all_questions_easy(&self.cards);
        assert(self.cards.deep_view() =~= old(self).cards.deep_view().update(
            index as int,
            with_mastery(old(self).cards.deep_view()[index as int], true),
        ));
    }

    /// Takes the mark off every card.
    fn clear(&mut self)
        requires
            old(self).wf(),
        ensures
            final(self).wf(),
            !final(self).all_mastered,
            final(self).cards.deep_view() == old(self).cards.deep_view().map_values(
                |card: Card| with_mastery(card, false),
            ),
        no_unwind
    {
        let ghost before = self.cards.deep_view();
        let mut i: usize = 0;
        while i < self.cards.len()
            invariant
                i <= self.cards.len(),
                self.cards.len() == before.len(),
                forall|k: int| 0 <= k < i ==> (#[trigger] self.cards[k])@ == with_mastery(before[k], false),
                forall|k: int| i <= k < before.len() ==> (#[trigger] self.cards[k])@ == before[k],
            decreases self.cards.len() - i,
        {
            self.cards[i].is_easy = false;
            i += 1;
        }
        self.all_mastered = false;
        assert(self.cards.deep_view() =~= before.map_values(|card: Card| with_mastery(card, false)));
        assert(!self.cards.deep_view()[0].mastered);
    }
}

impl View for Deck {
    type V = DeckState;

    closed spec fn view(&self) -> DeckState {
        DeckState {
            cards: self.pile.cards.deep_view(),
            cursor: self.cursor as int,
            all_mastered: self.pile.all_mastered,
        }
    }
}

impl Deck {
    /// A deck has a card, its cursor is on one of its cards, and its record
    /// of completion is true to the cards: at all times.
    #[verifier::type_invariant]
    spec fn in_order(&self) -> bool {
        self.pile.wf() && self.cursor < self.pile.cards.len()
    }

    /// A deck of the given cards in their order, the cursor on the first.
    /// A deck needs a card: without one there is nothing to make.
    pub fn new(cards: Vec<QuestionT>) -> (made: Result<Deck, DeckError>)
        ensures
            made is Err <==> cards.len() == 0,
            made matches Err(error) ==> error == DeckError::Empty,
            made matches Ok(deck) ==> deck@.wf() && deck@ == (DeckState {
                cards: cards.deep_view(),
                cursor: 0,
                all_mastered: all_mastered(cards.deep_view()),
            }),
    {
        if cards.len() == 0 {
            return Err(DeckError::Empty);
        }
        let all_mastered = QuestionT::check_if_all_questions_easy(&cards);
        Ok(Deck { pile: Pile { cards, all_mastered }, cursor: 0 })
    }

    /// A deck of the cards that the given sources hold, each source the
    /// content of one `;`-separated file.
    pub fn load(sources: &Vec<Vec<u8>>) -> (made: Result<Deck, DeckError>)
        ensures
            made is Err <==> cards_of_sources(sources.deep_view()).len() == 0,
            made matches Err(error) ==> error == DeckError::Empty,
            made matches Ok(deck) ==> deck@.wf() && deck@ == (DeckState {
                cards: cards_of_sources(sources.deep_view()),
                cursor: 0,
                all_mastered: false,
            }),
    {
        let cards = QuestionT::new(sources);
        proof {
            lemma_cards_of_sources_unmastered(sources.deep_view());
            if cards.len() > 0 {
                assert(!cards.deep_view()[0].mastered);
            }
        }
        Self::new(cards)
    }

    /// The number of cards.
    pub fn len(&self) -> (len: usize)
        ensures
            self@.wf(),
            len == self@.cards.len(),
    {
        proof {
            use_type_invariant(self);
        }
        self.pile.cards.len()
    }

    /// The position of the current card.
    pub fn cursor(&self) -> (cursor: usize)
        ensures
            self@.wf(),
            cursor == self@.cursor,
    {
        proof {
            use_type_invariant(self);
        }
        self.cursor
    }

    /// The current card.
    pub fn current(&self) -> (card: &QuestionT)
        ensures
            self@.wf(),
            card@ == self@.current(),
    {
        proof {
            use_type_invariant(self);
        }
        &self.pile.cards[self.cursor]
    }

    /// Whether every card is mastered.
    pub fn is_all_mastered(&self) -> (all: bool)
        ensures
            self@.wf(),
            all == self@.all_mastered,
            all == all_mastered(self@.cards),
    {
        proof {
            use_type_invariant(self);
        }
        self.pile.all_mastered
    }

    /// Moves the cursor to the next card that is not mastered: the nearest
    /// one after the current card or, if there is none, the nearest one from
    /// the start of the deck up to the current card. Where every card is
    /// mastered the cursor goes to the first card.
    pub fn advance_to_next_unmastered(&mut self)
        ensures
            final(self)@.wf(),
            final(self)@ == old(self)@.advance(),
    {
        proof {
            use_type_invariant(&*self);
            lemma_next_unmastered(self@.cards, self@.cursor);
        }
        let next = QuestionT::next(&mut self.pile.cards, self.cursor);
        match next {
            Some(index) => {
                self.cursor = index;
            },
            None => {},
        }
    }

    /// Marks the current card mastered and works out anew whether every
    /// card is. The cursor stays.
    pub fn mark_current_mastered(&mut self)
        ensures
            final(self)@.wf(),
            final(self)@ == old(self)@.mark_current_mastered(),
    {
        proof {
            use_type_invariant(&*self);
        }
        let cursor = self.cursor;
        self.pile.mark(cursor);
    }

    /// Starts over: no card is mastered any more. Cards, order and cursor
    /// stay.
    pub fn restart(&mut self)
        ensures
            final(self)@.wf(),
            final(self)@ == old(self)@.restart(),
    {
        proof {
            use_type_invariant(&*self);
        }
        self.pile.clear();
    }
}

} // verus!
