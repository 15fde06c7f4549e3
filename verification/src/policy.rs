//! What the policy-gradient learner reads off a state: the features that its
//! weights are multiplied with, and the row of weights that belongs to each
//! action. The learner's arithmetic on weights is left to the caller.

use crate::card::NUM_CARDS;
use crate::state::{GameState, GameView, HAND_CAP, STARTING_ENERGY};
use vstd::prelude::*;

verus! {

/// Length of the feature vector: the scaled life, and the indicator flags.
pub const NUM_FEATURES: usize = 22;

/// The learner divides the predicted life by this to get its first feature.
pub const LIFE_SCALE: i32 = 30;

/// The row of weights that belongs to passing; the rows before it belong to
/// the card types, in catalog order.
pub const PASS_ROW: usize = NUM_CARDS;

/// The features of a state.
#[derive(Debug, Clone, PartialEq, Eq)]
pub struct Features {
    /// Life left if the turn ended now; the first feature is this divided by
    /// `LIFE_SCALE`.
    pub life_after_hit: i32,
    /// The other features, each 1 where its flag is set and 0 where not.
    pub flags: Vec<bool>,
}

/// The flags for the values 0 to `max`, set for the value `num` only.
pub open spec fn one_hot(num: int, max: int) -> Seq<bool> {
    Seq::new(
        if max >= 0 {
            (max + 1) as nat
        } else {
            0
        },
        |i: int| i == num,
    )
}

/// 1 for true, 0 for false.
pub open spec fn as_number(b: bool) -> int {
    if b {
        1
    } else {
        0
    }
}

/// The flags of a state: one that is always set, then one-hot groups for the
/// energy (0 to `STARTING_ENERGY`), the hand size (0 to `HAND_CAP`), whether
/// intangible, the attack chain (0 to 2), and whether the enemy is weak.
pub open spec fn feature_flags(v: GameView) -> Seq<bool> {
    seq![true] + one_hot(v.energy, STARTING_ENERGY as int) + one_hot(
        v.hand.len() as int,
        HAND_CAP as int,
    ) + one_hot(as_number(v.intangible), 1) + one_hot(v.attacks_played, 2) + one_hot(
        as_number(v.weak > 0),
        1,
    )
}

/// There is one flag for each feature but the first.
pub proof fn lemma_feature_count(v: GameView)
    ensures
        feature_flags(v).len() == NUM_FEATURES - 1,
{
}

/// Appends the flags for the values 0 to `max`, set for the value `num` only.
pub fn encode_1_hot(num: i32, max: i32, features: &mut Vec<bool>)
    ensures
        final(features)@ == old(features)@ + one_hot(num as int, max as int),
{
    let mut i: i64 = 0;
    while i <= max as i64
        invariant
            0 <= i,
            max >= 0 ==> i <= max + 1,
            max < 0 ==> i == 0,
            features@ == old(features)@ + one_hot(num as int, max as int).take(i as int),
        decreases max + 1 - i,
    {
        features.push(i == num as i64);
        assert(one_hot(num as int, max as int).take(i + 1) =~= one_hot(num as int, max as int).take(
            i as int,
        ).push(i == num));
        i += 1;
    }
    assert(one_hot(num as int, max as int).take(i as int) =~= one_hot(num as int, max as int));
}

impl GameState {
    /// The features of the state.
    pub fn features(&self) -> (res: Features)
        requires
            self@.outcome_fits(),
        ensures
            res.life_after_hit == self@.life_after_hit(),
            res.flags@ == feature_flags(self@),
            res.flags@.len() == NUM_FEATURES - 1,
    {
        let mut flags: Vec<bool> = Vec::new();
        flags.push(true);
        assert(flags@ =~= seq![true]);
        encode_1_hot(self.energy, STARTING_ENERGY, &mut flags);
        // A hand beyond the cap sets no flag, however large it is.
        let hand_size: usize = if self.hand.len() <= HAND_CAP {
            self.hand.len()
        } else {
            HAND_CAP + 1
        };
        proof {
            assert(one_hot(hand_size as int, HAND_CAP as int) =~= one_hot(
                self@.hand.len() as int,
                HAND_CAP as int,
            ));
        }
        encode_1_hot(hand_size as i32, HAND_CAP as i32, &mut flags);
        encode_1_hot(if self.intangible { 1 } else { 0 }, 1, &mut flags);
        encode_1_hot(self.attacks_played, 2, &mut flags);
        encode_1_hot(if self.weak > 0 { 1 } else { 0 }, 1, &mut flags);
        Features { life_after_hit: self.life_after_hit(), flags }
    }
}

/// The row of weights for each action that the learner scores: for each of
/// the hand positions in `actions` the catalog position of the card there,
/// and `PASS_ROW` at the end, for passing.
pub fn action_rows(state: &GameState, actions: &Vec<usize>) -> (rows: Vec<usize>)
    requires
        forall|k: int| 0 <= k < actions@.len() ==> actions@[k] < state@.hand.len(),
    ensures
        rows@.len() == actions@.len() + 1,
        forall|k: int|
            0 <= k < actions@.len() ==> rows@[k] == state@.hand[actions@[k] as int].spec_position(),
        rows@[actions@.len() as int] == PASS_ROW,
{
    let mut rows: Vec<usize> = Vec::new();
    let n: usize = actions.len();
    let mut k: usize = 0;
    while k < n
        invariant
            k <= n,
            n == actions@.len(),
            rows@.len() == k,
            forall|j: int| 0 <= j < actions@.len() ==> actions@[j] < state@.hand.len(),
            forall|j: int|
                0 <= j < k ==> rows@[j] == state@.hand[actions@[j] as int].spec_position(),
        decreases n - k,
    {
        rows.push(state.hand[actions[k]].index());
        k += 1;
    }
    rows.push(PASS_ROW);
    rows
}

/// The reward that the policy-gradient learner gives a finished turn: 1 if it
/// was survived, -1 if not.
pub fn signed_reward(survived: bool) -> (reward: i32)
    ensures
        reward == if survived {
            1int
        } else {
            -1int
        },
{
    if survived {
        1
    } else {
        -1
    }
}

} // verus!
