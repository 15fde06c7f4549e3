//! A fixed-priority policy for the turn: a cascade of rules, the first that
//! applies decides the next play. It serves as the baseline that the learners
//! are measured against.

use crate::card::Card;
use crate::seq_facts::lemma_swap_remove_to_multiset;
use crate::state::{
    lemma_in_hand, lemma_play_uses_up_cards, lemma_wf_outcome_fits, CombatError, GameState,
    GameView,
};
use vstd::prelude::*;

verus! {

/// What the policy does next.
#[derive(Debug, PartialEq, Eq, Clone, Copy, Structural)]
pub enum HeuristicMove {
    /// End the turn.
    Stop,
    /// Play the first card of this type in hand.
    Play(Card),
    /// Play the first `Defend` in hand, and then the first `Defend` of the
    /// hand that is left.
    DefendTwice,
}

/// The rule cascade. Each rule asks for a card in hand and the energy to play
/// it; the first rule that applies decides.
pub open spec fn plan(v: GameView) -> HeuristicMove {
    if v.hand.contains(Card::App) && v.energy >= 1 {
        HeuristicMove::Play(Card::App)
    } else if v.weak > 0 && v.count(Card::Defend) >= 2 && v.energy == 2 {
        // On a weak enemy two blocks with the last two energy beat a sweep.
        HeuristicMove::DefendTwice
    } else if v.hand.contains(Card::LegSweep) && v.energy >= 2 {
        HeuristicMove::Play(Card::LegSweep)
    } else if v.weak == 0 && v.hand.contains(Card::Neutralize) {
        HeuristicMove::Play(Card::Neutralize)
    } else if v.weak == 0 && v.energy >= 2 && v.hand.contains(Card::CC) {
        HeuristicMove::Play(Card::CC)
    } else if v.energy > 1 && v.hand.contains(Card::Defend) {
        HeuristicMove::Play(Card::Defend)
    } else if v.energy >= 1 && v.hand.contains(Card::DaggerThrow) {
        HeuristicMove::Play(Card::DaggerThrow)
    } else if v.hand.contains(Card::Neutralize) {
        HeuristicMove::Play(Card::Neutralize)
    } else if v.energy >= 1 && v.hand.contains(Card::Expertise) {
        HeuristicMove::Play(Card::Expertise)
    } else if v.energy >= 1 && v.attacks_played % 3 == 2 && v.hand.contains(Card::Cost1Attack) {
        HeuristicMove::Play(Card::Cost1Attack)
    } else {
        HeuristicMove::Stop
    }
}

/// The planned move cannot be carried out: it draws more cards than the deck
/// holds.
pub open spec fn blocked(v: GameView) -> bool {
    match plan(v) {
        HeuristicMove::Play(card) => v.draws_needed(v.in_hand(card)->0) > v.deck.len(),
        _ => false,
    }
}

/// The state after the planned move.
pub open spec fn after_move(v: GameView) -> GameView {
    match plan(v) {
        HeuristicMove::Stop => v,
        HeuristicMove::Play(card) => v.after_play(v.in_hand(card)->0),
        HeuristicMove::DefendTwice => {
            let once = v.after_play(v.in_hand(Card::Defend)->0);
            once.after_play(once.in_hand(Card::Defend)->0)
        },
    }
}

/// The state in which the policy stops: the first, move after move, in which
/// it plans to stop or its planned move is blocked.
pub open spec fn final_state(v: GameView) -> GameView
    decreases v.cards(),
    via final_state_decreases
{
    if plan(v) == HeuristicMove::Stop || blocked(v) {
        v
    } else {
        final_state(after_move(v))
    }
}

#[via_fn]
proof fn final_state_decreases(v: GameView) {
    if !(plan(v) == HeuristicMove::Stop || blocked(v)) {
        lemma_move_uses_up_cards(v);
    }
}

/// A move that is planned and not blocked is made of legal plays, uses up
/// cards, and keeps the state well-formed.
pub proof fn lemma_move_uses_up_cards(v: GameView)
    requires
        plan(v) != HeuristicMove::Stop,
        !blocked(v),
    ensures
        after_move(v).cards() < v.cards(),
        match plan(v) {
            HeuristicMove::Stop => false,
            HeuristicMove::Play(card) => v.holds_first(card, v.in_hand(card)->0),
            HeuristicMove::DefendTwice => {
                let first = v.in_hand(Card::Defend)->0;
                let once = v.after_play(first);
                &&& v.holds_first(Card::Defend, first)
                &&& v.draws_needed(first) == 0
                &&& once.holds_first(Card::Defend, once.in_hand(Card::Defend)->0)
                &&& once.draws_needed(once.in_hand(Card::Defend)->0) == 0
                &&& once.energy == v.energy - 1
            },
        },
{
    broadcast use vstd::seq_lib::group_to_multiset_ensures;
    match plan(v) {
        HeuristicMove::Stop => {},
        HeuristicMove::Play(card) => {
            lemma_in_hand(v, card);
            lemma_play_uses_up_cards(v, v.in_hand(card)->0);
        },
        HeuristicMove::DefendTwice => {
            assert(v.hand.contains(Card::Defend));
            lemma_in_hand(v, Card::Defend);
            let first = v.in_hand(Card::Defend)->0;
            lemma_play_uses_up_cards(v, first);
            let once = v.after_play(first);
            lemma_swap_remove_to_multiset(v.hand, first);
            assert(once.hand.to_multiset().count(Card::Defend) >= 1);
            assert(once.hand.contains(Card::Defend));
            lemma_in_hand(once, Card::Defend);
            lemma_play_uses_up_cards(once, once.in_hand(Card::Defend)->0);
        },
    }
}

/// The move that the rule cascade makes in the given state.
pub fn plan_move(state: &GameState) -> (planned: HeuristicMove)
    requires
        0 <= state@.attacks_played <= 2,
    ensures
        planned == plan(state@),
{
    if state.energy >= 1 && state.in_hand(Card::App).is_some() {
        return HeuristicMove::Play(Card::App);
    }
    if state.weak > 0 && state.energy == 2 && state.count(Card::Defend) >= 2 {
        return HeuristicMove::DefendTwice;
    }
    if state.energy >= 2 && state.in_hand(Card::LegSweep).is_some() {
        return HeuristicMove::Play(Card::LegSweep);
    }
    if state.weak == 0 && state.in_hand(Card::Neutralize).is_some() {
        return HeuristicMove::Play(Card::Neutralize);
    }
    if state.weak == 0 && state.energy >= 2 && state.in_hand(Card::CC).is_some() {
        return HeuristicMove::Play(Card::CC);
    }
    if state.energy > 1 && state.in_hand(Card::Defend).is_some() {
        return HeuristicMove::Play(Card::Defend);
    }
    if state.energy >= 1 && state.in_hand(Card::DaggerThrow).is_some() {
        return HeuristicMove::Play(Card::DaggerThrow);
    }
    if state.in_hand(Card::Neutralize).is_some() {
        return HeuristicMove::Play(Card::Neutralize);
    }
    if state.energy >= 1 && state.in_hand(Card::Expertise).is_some() {
        return HeuristicMove::Play(Card::Expertise);
    }
    if state.energy >= 1 && state.attacks_played == 2 && state.in_hand(Card::Cost1Attack).is_some() {
        return HeuristicMove::Play(Card::Cost1Attack);
    }
    HeuristicMove::Stop
}

/// Plays the turn by the rule cascade, move after move, until it plans to
/// stop, and says whether the enemy's attack is then survived.
///
/// A planned move that draws more cards than the deck holds ends the run with
/// the error `EmptyDeck`, the state being the one in which it was planned.
pub fn simulate(state: &mut GameState) -> (res: Result<bool, CombatError>)
    requires
        old(state)@.wf(),
    ensures
        final(state)@.wf(),
        final(state)@ == final_state(old(state)@),
        match res {
            Ok(survived) => !blocked(final(state)@) && survived == (final(state)@.survive() is Some),
            Err(e) => blocked(final(state)@) && e == CombatError::EmptyDeck,
        },
{
    loop
        invariant
            state@.wf(),
            final_state(state@) == final_state(old(state)@),
        decreases state@.cards(),
    {
        let planned = plan_move(state);
        let ghost before = state@;
        proof {
            if planned != HeuristicMove::Stop && !blocked(before) {
                lemma_move_uses_up_cards(before);
            }
        }
        match planned {
            HeuristicMove::Stop => {
                proof {
                    lemma_wf_outcome_fits(state@);
                }
                return Ok(state.survive().is_some());
            },
            HeuristicMove::Play(card) => {
                if let Some(i) = state.in_hand(card) {
                    match state.play_card(i) {
                        Ok(_) => {},
                        Err(e) => {
                            return Err(e);
                        },
                    }
                }
            },
            HeuristicMove::DefendTwice => {
                if let Some(i) = state.in_hand(Card::Defend) {
                    match state.play_card(i) {
                        Ok(_) => {},
                        Err(e) => {
                            return Err(e);
                        },
                    }
                }
                if let Some(i) = state.in_hand(Card::Defend) {
                    match state.play_card(i) {
                        Ok(_) => {},
                        Err(e) => {
                            return Err(e);
                        },
                    }
                }
            },
        }
    }
}

} // verus!
