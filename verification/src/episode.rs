//! How an episode begins: the starting resources, and the opening hand drawn
//! from a freshly shuffled deck.

use crate::card::Card;
use crate::deck::{composition, create_draw_pile, picks_needed, shuffled, DECK_SIZE};
use crate::state::{
    lemma_after_draws_sizes, CombatError, GameState, GameView, STARTING_ENERGY,
};
use rand::rngs::StdRng;
use vstd::multiset::Multiset;
use vstd::prelude::*;

verus! {

/// The resources that an episode starts with.
#[derive(Debug, Clone, Copy, PartialEq, Eq)]
pub struct EpisodeConfig {
    /// Starting life budget: hit points and block together.
    pub life: i32,
    /// Energy at the start of the turn.
    pub energy: i32,
    /// Damage of the enemy's attack, before modifiers.
    pub heart_dmg: i32,
    /// Cards drawn before the first decision.
    pub hand_size: usize,
}

impl EpisodeConfig {
    /// The state before the opening hand is drawn.
    pub open spec fn opening(self, deck: Seq<Card>) -> GameView {
        GameView {
            life: self.life as int,
            weak: 0,
            energy: self.energy as int,
            hand: Seq::empty(),
            deck,
            intangible: false,
            heart_dmg: self.heart_dmg as int,
            attacks_played: 0,
        }
    }

    /// The state in which the first decision is taken.
    pub open spec fn first_state(self, deck: Seq<Card>) -> GameView {
        self.opening(deck).after_draws(self.hand_size as nat)
    }

    /// The turn that follows a turn on which two energy were spent ahead:
    /// more life, less energy, a hand of four.
    pub open spec fn spec_dash() -> EpisodeConfig {
        EpisodeConfig { life: 51, energy: 3, heart_dmg: 46, hand_size: 4 }
    }

    #[verifier::when_used_as_spec(spec_dash)]
    pub fn dash() -> (config: EpisodeConfig)
        ensures
            config == Self::spec_dash(),
    {
        EpisodeConfig { life: 51, energy: STARTING_ENERGY - 2, heart_dmg: 46, hand_size: 4 }
    }

    /// The turn with full energy and a hand of five.
    pub open spec fn spec_gamble() -> EpisodeConfig {
        EpisodeConfig { life: 40, energy: 5, heart_dmg: 46, hand_size: 5 }
    }

    #[verifier::when_used_as_spec(spec_gamble)]
    pub fn gamble() -> (config: EpisodeConfig)
        ensures
            config == Self::spec_gamble(),
    {
        EpisodeConfig { life: 40, energy: STARTING_ENERGY, heart_dmg: 46, hand_size: 5 }
    }
}

/// Draws the opening hand from a deck that can fill it.
fn deal(config: &EpisodeConfig, deck: Vec<Card>) -> (state: GameState)
    requires
        config.hand_size <= deck@.len(),
    ensures
        state@ == config.first_state(deck@),
{
    let ghost cards = deck@;
    let mut state = GameState {
        life: config.life,
        weak: 0,
        energy: config.energy,
        hand: Vec::new(),
        deck,
        intangible: false,
        heart_dmg: config.heart_dmg,
        attacks_played: 0,
    };
    assert(state@ == config.opening(cards));
    let mut drawn: usize = 0;
    while drawn < config.hand_size
        invariant
            drawn <= config.hand_size <= cards.len(),
            state@ == config.opening(cards).after_draws(drawn as nat),
            state@.deck.len() == cards.len() - drawn,
        decreases config.hand_size - drawn,
    {
        let _ = state.draw();
        drawn += 1;
    }
    state
}

impl GameState {
    /// The state in which the first decision of an episode is taken: the
    /// configured resources, and an opening hand drawn from the top of `deck`.
    /// A deck with fewer cards than the opening hand gives `EmptyDeck`.
    pub fn start(config: &EpisodeConfig, deck: Vec<Card>) -> (res: Result<GameState, CombatError>)
        ensures
            match res {
                Ok(state) => {
                    &&& config.hand_size <= deck@.len()
                    &&& state@ == config.first_state(deck@)
                    &&& config.opening(deck@).wf() ==> state@.wf()
                },
                Err(e) => e == CombatError::EmptyDeck && deck@.len() < config.hand_size,
            },
    {
        if deck.len() < config.hand_size {
            return Err(CombatError::EmptyDeck);
        }
        proof {
            lemma_after_draws_sizes(config.opening(deck@), config.hand_size as nat);
        }
        Ok(deal(config, deck))
    }
}

/// A fresh episode of the turn `EpisodeConfig::dash`, its deck shuffled by
/// `rng`.
pub fn dash_state(rng: &mut StdRng) -> (state: GameState)
    ensures
        exists|picks: Seq<u64>|
            picks.len() == picks_needed(DECK_SIZE as nat) && state@
                == EpisodeConfig::spec_dash().first_state(#[trigger] shuffled(composition(), picks)),
        state@.wf(),
        state@.hand.len() == 4,
        state@.deck.len() == 14,
        state@.hand.to_multiset().add(state@.deck.to_multiset()) == composition().to_multiset(),
{
    let config = EpisodeConfig::dash();
    assert(composition().len() == DECK_SIZE);
    opening_state(&config, rng)
}

/// A fresh episode of the turn `EpisodeConfig::gamble`, its deck shuffled by
/// `rng`.
pub fn gamble_state(rng: &mut StdRng) -> (state: GameState)
    ensures
        exists|picks: Seq<u64>|
            picks.len() == picks_needed(DECK_SIZE as nat) && state@
                == EpisodeConfig::spec_gamble().first_state(
                #[trigger] shuffled(composition(), picks),
            ),
        state@.wf(),
        state@.hand.len() == 5,
        state@.deck.len() == 13,
        state@.hand.to_multiset().add(state@.deck.to_multiset()) == composition().to_multiset(),
{
    let config = EpisodeConfig::gamble();
    assert(composition().len() == DECK_SIZE);
    opening_state(&config, rng)
}

/// A fresh episode with the standard deck, shuffled by `rng`, for a
/// configuration whose opening hand the deck can fill.
fn opening_state(config: &EpisodeConfig, rng: &mut StdRng) -> (state: GameState)
    requires
        config.hand_size <= DECK_SIZE,
    ensures
        exists|picks: Seq<u64>|
            picks.len() == picks_needed(DECK_SIZE as nat) && state@ == config.first_state(
                #[trigger] shuffled(composition(), picks),
            ),
        state@.hand.len() == config.hand_size,
        state@.deck.len() == DECK_SIZE - config.hand_size,
        state@.hand.to_multiset().add(state@.deck.to_multiset()) == composition().to_multiset(),
        config.opening(composition()).wf() ==> state@.wf(),
{
    let deck: Vec<Card> = create_draw_pile(rng);
    let ghost cards = deck@;
    let state = deal(config, deck);
    proof {
        broadcast use vstd::seq_lib::group_to_multiset_ensures;
        lemma_after_draws_sizes(config.opening(cards), config.hand_size as nat);
        assert(config.opening(cards).hand.to_multiset() =~= Multiset::<Card>::empty());
        assert(config.opening(cards).hand.to_multiset().add(cards.to_multiset()) =~= cards.to_multiset());
        assert(composition().len() == DECK_SIZE);
        assert(config.opening(composition()).wf() ==> config.opening(cards).wf());
    }
    state
}

} // verus!
