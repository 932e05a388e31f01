//! A study session: which card is shown, whether its answer is, and what
//! each action of the learner does to both.

use vstd::prelude::*;
use crate::deck::{lemma_next_unmastered, Deck, DeckState};
use crate::question::QuestionT;

verus! {

/// What the learner can ask for.
#[derive(Clone, Copy, Debug, PartialEq, Eq, Structural)]
pub enum Action {
    /// Show the answer, or hide it again.
    Reveal,
    /// Mark the current card mastered and go on.
    MarkEasy,
    /// Go on without marking.
    MarkOther,
    /// Study every card again.
    Restart,
    /// End the session.
    Quit,
}

/// Where a session stands.
#[derive(Clone, Copy, Debug, PartialEq, Eq, Structural)]
pub enum Phase {
    /// A card is shown.
    Studying,
    /// Every card is mastered; the learner restarts or quits.
    Completed,
    /// The learner has quit.
    Finished,
}

/// A deck being studied.
#[derive(Debug)]
pub struct Session {
    deck: Deck,
    answer_shown: bool,
    finished: bool,
}

/// A session as the contracts see it.
pub ghost struct SessionState {
    pub deck: DeckState,
    pub answer_shown: bool,
    pub finished: bool,
}

impl SessionState {
    /// What holds of every session: its deck is in order.
    pub open spec fn wf(self) -> bool {
        self.deck.wf()
    }

    /// Where the session stands.
    pub open spec fn phase(self) -> Phase {
        if self.finished {
            Phase::Finished
        } else if self.deck.all_mastered {
            Phase::Completed
        } else {
            Phase::Studying
        }
    }

    /// The session after an action.
    ///
    /// While studying, revealing turns the answer over; marking a card easy
    /// masters it and moves on; the other mark only moves on. Moving on hides
    /// the answer. Restart and quit do nothing yet.
    ///
    /// Once every card is mastered, only restart and quit do anything:
    /// restart clears every mark, quit ends the session. After that nothing
    /// does anything.
    pub open spec fn step(self, action: Action) -> SessionState {
        match self.phase() {
            Phase::Studying => match action {
                Action::Reveal => SessionState { answer_shown: !self.answer_shown, ..self },
                Action::MarkEasy => SessionState {
                    deck: self.deck.mark_current_mastered().advance(),
                    answer_shown: false,
                    ..self
                },
                Action::MarkOther => SessionState {
                    deck: self.deck.advance(),
                    answer_shown: false,
                    ..self
                },
                Action::Restart => self,
                Action::Quit => self,
            },
            Phase::Completed => match action {
                Action::Restart => SessionState {
                    deck: self.deck.restart(),
                    answer_shown: false,
                    ..self
                },
                Action::Quit => SessionState { finished: true, ..self },
                _ => self,
            },
            Phase::Finished => self,
        }
    }
}

/// A session turns complete exactly when the card marked easy was the last
/// one not yet mastered, and it is studied again as soon as it is restarted.
pub proof fn lemma_phase_changes(session: SessionState)
    requires
        session.wf(),
    ensures
        session.phase() == Phase::Studying ==> (session.step(Action::MarkEasy).phase()
            == Phase::Completed <==> forall|k: int|
            0 <= k < session.deck.cards.len() && k != session.deck.cursor
                ==> (#[trigger] session.deck.cards[k]).mastered),
        session.phase() == Phase::Studying ==> session.step(Action::MarkOther).phase()
            == Phase::Studying && session.step(Action::Reveal).phase() == Phase::Studying,
        session.phase() == Phase::Completed ==> session.step(Action::Restart).phase()
            == Phase::Studying && session.step(Action::Quit).phase() == Phase::Finished,
        forall|action: Action| session.step(action).wf(),
{
    let marked = session.deck.mark_current_mastered();
    assert(marked.cards[session.deck.cursor].mastered);
    if session.phase() == Phase::Studying {
        if marked.all_mastered {
            assert forall|k: int|
                0 <= k < session.deck.cards.len() && k != session.deck.cursor implies (
            #[trigger] session.deck.cards[k]).mastered by {
                assert(marked.cards[k].mastered);
            }
        }
    }
    assert forall|action: Action| session.step(action).wf() by {
        lemma_next_unmastered(session.deck.cards, session.deck.cursor);
        lemma_next_unmastered(marked.cards, marked.cursor);
        assert(!session.deck.restart().cards[0].mastered);
    }
}

impl View for Session {
    type V = SessionState;

    closed spec fn view(&self) -> SessionState {
        SessionState {
            deck: self.deck@,
            answer_shown: self.answer_shown,
            finished: self.finished,
        }
    }
}

impl Session {
    /// A session on the given deck, the answer hidden.
    pub fn new(deck: Deck) -> (session: Session)
        ensures
            session@.wf(),
            session@ == (SessionState { deck: deck@, answer_shown: false, finished: false }),
    {
        let _ = deck.cursor();
        Session { deck, answer_shown: false, finished: false }
    }

    /// Where the session stands.
    pub fn phase(&self) -> (phase: Phase)
        ensures
            self@.wf(),
            phase == self@.phase(),
    {
        let complete = self.deck.is_all_mastered();
        if self.finished {
            Phase::Finished
        } else if complete {
            Phase::Completed
        } else {
            Phase::Studying
        }
    }

    /// The deck being studied.
    pub fn deck(&self) -> (deck: &Deck)
        ensures
            deck@ == self@.deck,
    {
        &self.deck
    }

    /// The card to show.
    pub fn current(&self) -> (card: &QuestionT)
        ensures
            self@.wf(),
            card@ == self@.deck.current(),
    {
        self.deck.current()
    }

    /// Whether the answer of the current card is to be shown with it.
    pub fn answer_shown(&self) -> (shown: bool)
        ensures
            shown == self@.answer_shown,
    {
        self.answer_shown
    }

    /// Carries out an action of the learner.
    pub fn apply(&mut self, action: Action)
        ensures
            final(self)@.wf(),
            final(self)@ == old(self)@.step(action),
    {
        match self.phase() {
            Phase::Studying => match action {
                Action::Reveal => {
                    self.answer_shown = !self.answer_shown;
                },
                Action::MarkEasy => {
                    self.deck.mark_current_mastered();
                    self.deck.advance_to_next_unmastered();
                    self.answer_shown = false;
                },
                Action::MarkOther => {
                    self.deck.advance_to_next_unmastered();
                    self.answer_shown = false;
                },
                Action::Restart => {},
                Action::Quit => {},
            },
            Phase::Completed => match action {
                Action::Restart => {
                    self.deck.restart();
                    self.answer_shown = false;
                },
                Action::Quit => {
                    self.finished = true;
                },
                _ => {},
            },
            Phase::Finished => {},
        }
    }
}

/// Tells the moment a key goes down from the time it is held.
#[derive(Clone, Copy, Debug, PartialEq, Eq, Structural)]
pub struct KeyLatch {
    /// Whether the key was down when last looked at.
    pub held: bool,
}

impl KeyLatch {
    /// A latch for a key that is up.
    pub fn new() -> (latch: KeyLatch)
        ensures
            !latch.held,
    {
        KeyLatch { held: false }
    }

    /// Takes the key's state in this frame and tells whether the key has just
    /// gone down: it is down now and was not when last looked at.
    pub fn update(&mut self, down: bool) -> (pressed: bool)
        ensures
            pressed == (down && !old(self).held),
            final(self).held == down,
    {
        let pressed = down && !self.held;
        self.held = down;
        pressed
    }
}

} // verus!
