//! The card catalog: the closed set of card types and their fixed attributes.

use vstd::prelude::*;

verus! {

/// One card type. The declaration order is the catalog order.
#[derive(Debug, PartialEq, Eq, Clone, Copy, Hash, Structural)]
pub enum Card {
    Defend,
    DaggerThrow,
    WLP,
    CC,
    HeelHook,
    LegSweep,
    Expertise,
    Cost1Attack,
    Neutralize,
    App,
    PWail,
    Slimed,
    Unplayable,
    Void,
}

/// Number of card types in the catalog.
pub const NUM_CARDS: usize = 14;

impl Card {
    /// Energy needed to play the card; `None` for a card that can never be played.
    pub open spec fn spec_energy(&self) -> Option<i32> {
        match self {
            Card::Defend => Some(1i32),
            Card::DaggerThrow => Some(1i32),
            Card::WLP => Some(1i32),
            Card::CC => Some(2i32),
            Card::HeelHook => Some(1i32),
            Card::LegSweep => Some(2i32),
            Card::Expertise => Some(1i32),
            Card::Cost1Attack => Some(1i32),
            Card::Neutralize => Some(0i32),
            Card::App => Some(1i32),
            Card::PWail => Some(1i32),
            Card::Slimed => Some(1i32),
            Card::Unplayable => None,
            Card::Void => None,
        }
    }

    #[verifier::when_used_as_spec(spec_energy)]
    pub fn energy(&self) -> (cost: Option<i32>)
        ensures
            cost == self.spec_energy(),
    {
        match self {
            Card::Defend => Some(1),
            Card::DaggerThrow => Some(1),
            Card::WLP => Some(1),
            Card::CC => Some(2),
            Card::HeelHook => Some(1),
            Card::LegSweep => Some(2),
            Card::Expertise => Some(1),
            Card::Cost1Attack => Some(1),
            Card::Neutralize => Some(0),
            Card::App => Some(1),
            Card::PWail => Some(1),
            Card::Slimed => Some(1),
            Card::Unplayable => None,
            Card::Void => None,
        }
    }

    /// Block the card adds to the life budget when played.
    pub open spec fn spec_block(&self) -> i32 {
        match self {
            Card::Defend => 9,
            Card::LegSweep => 13,
            _ => 0,
        }
    }

    #[verifier::when_used_as_spec(spec_block)]
    pub fn block(&self) -> (amount: i32)
        ensures
            amount == self.spec_block(),
    {
        match self {
            Card::Defend => 9,
            Card::LegSweep => 13,
            _ => 0,
        }
    }

    /// Whether playing the card counts towards the attack chain.
    pub open spec fn spec_is_attack(&self) -> bool {
        match self {
            Card::DaggerThrow => true,
            Card::HeelHook => true,
            Card::Cost1Attack => true,
            Card::Neutralize => true,
            _ => false,
        }
    }

    #[verifier::when_used_as_spec(spec_is_attack)]
    pub fn is_attack(&self) -> (attack: bool)
        ensures
            attack == self.spec_is_attack(),
    {
        match self {
            Card::Defend => false,
            Card::DaggerThrow => true,
            Card::WLP => false,
            Card::CC => false,
            Card::HeelHook => true,
            Card::LegSweep => false,
            Card::Expertise => false,
            Card::Cost1Attack => true,
            Card::Neutralize => true,
            Card::App => false,
            Card::PWail => false,
            Card::Slimed => false,
            Card::Unplayable => false,
            Card::Void => false,
        }
    }

    /// Weak stacks the card applies when played.
    pub open spec fn spec_weak(&self) -> i32 {
        match self {
            Card::CC => 2,
            Card::LegSweep => 2,
            Card::Neutralize => 1,
            _ => 0,
        }
    }

    #[verifier::when_used_as_spec(spec_weak)]
    pub fn weak(&self) -> (stacks: i32)
        ensures
            stacks == self.spec_weak(),
    {
        match self {
            Card::CC => 2,
            Card::LegSweep => 2,
            Card::Neutralize => 1,
            _ => 0,
        }
    }

    /// How much the hand wants to keep the card: a discard removes the card
    /// with the lowest score. Discarding is situational and this fixed ordering
    /// is sometimes a bad one.
    pub open spec fn spec_dont_discard_score(&self) -> i32 {
        match self {
            Card::Defend => 50,
            Card::DaggerThrow => 40,
            Card::WLP => 20,
            Card::CC => 30,
            Card::HeelHook => 10,
            Card::LegSweep => 70,
            Card::Expertise => 20,
            Card::Cost1Attack => 5,
            Card::Neutralize => 25,
            Card::App => 100,
            Card::PWail => 15,
            Card::Slimed => 2,
            Card::Unplayable => 1,
            Card::Void => 3,
        }
    }

    #[verifier::when_used_as_spec(spec_dont_discard_score)]
    pub fn dont_discard_score(&self) -> (score: i32)
        ensures
            score == self.spec_dont_discard_score(),
    {
        match self {
            Card::Defend => 50,
            Card::DaggerThrow => 40,
            Card::WLP => 20,
            Card::CC => 30,
            Card::HeelHook => 10,
            Card::LegSweep => 70,
            Card::Expertise => 20,
            Card::Cost1Attack => 5,
            Card::Neutralize => 25,
            Card::App => 100,
            Card::PWail => 15,
            Card::Slimed => 2,
            Card::Unplayable => 1,
            Card::Void => 3,
        }
    }

    /// Position of the card type in the catalog, from 0.
    pub open spec fn spec_position(&self) -> usize {
        match self {
            Card::Defend => 0,
            Card::DaggerThrow => 1,
            Card::WLP => 2,
            Card::CC => 3,
            Card::HeelHook => 4,
            Card::LegSweep => 5,
            Card::Expertise => 6,
            Card::Cost1Attack => 7,
            Card::Neutralize => 8,
            Card::App => 9,
            Card::PWail => 10,
            Card::Slimed => 11,
            Card::Unplayable => 12,
            Card::Void => 13,
        }
    }

    #[verifier::when_used_as_spec(spec_position)]
    pub fn index(&self) -> (i: usize)
        ensures
            i == self.spec_position(),
            i < NUM_CARDS,
    {
        match self {
            Card::Defend => 0,
            Card::DaggerThrow => 1,
            Card::WLP => 2,
            Card::CC => 3,
            Card::HeelHook => 4,
            Card::LegSweep => 5,
            Card::Expertise => 6,
            Card::Cost1Attack => 7,
            Card::Neutralize => 8,
            Card::App => 9,
            Card::PWail => 10,
            Card::Slimed => 11,
            Card::Unplayable => 12,
            Card::Void => 13,
        }
    }

    /// The card type at a catalog position; positions past the catalog's end
    /// name its last card.
    pub open spec fn at_position(i: int) -> Card {
        if i <= 0 {
            Card::Defend
        } else if i == 1 {
            Card::DaggerThrow
        } else if i == 2 {
            Card::WLP
        } else if i == 3 {
            Card::CC
        } else if i == 4 {
            Card::HeelHook
        } else if i == 5 {
            Card::LegSweep
        } else if i == 6 {
            Card::Expertise
        } else if i == 7 {
            Card::Cost1Attack
        } else if i == 8 {
            Card::Neutralize
        } else if i == 9 {
            Card::App
        } else if i == 10 {
            Card::PWail
        } else if i == 11 {
            Card::Slimed
        } else if i == 12 {
            Card::Unplayable
        } else {
            Card::Void
        }
    }

    /// The card type at catalog position `i`, or `None` past the catalog's end.
    pub fn from_index(i: usize) -> (card: Option<Card>)
        ensures
            i < NUM_CARDS ==> card == Some(Card::at_position(i as int)),
            i >= NUM_CARDS ==> card is None,
    {
        match i {
            0 => Some(Card::Defend),
            1 => Some(Card::DaggerThrow),
            2 => Some(Card::WLP),
            3 => Some(Card::CC),
            4 => Some(Card::HeelHook),
            5 => Some(Card::LegSweep),
            6 => Some(Card::Expertise),
            7 => Some(Card::Cost1Attack),
            8 => Some(Card::Neutralize),
            9 => Some(Card::App),
            10 => Some(Card::PWail),
            11 => Some(Card::Slimed),
            12 => Some(Card::Unplayable),
            13 => Some(Card::Void),
            _ => None,
        }
    }
}

/// Catalog positions and card types correspond one to one.
pub proof fn lemma_index_round_trip(card: Card, i: int)
    ensures
        Card::at_position(card.spec_position() as int) == card,
        0 <= i < NUM_CARDS ==> Card::at_position(i).spec_position() == i,
{
}

} // verus!
