//! The combat state of one turn and the operations that change it.

use crate::card::Card;
use vstd::prelude::*;

verus! {

/// Energy at the start of a full turn.
pub const STARTING_ENERGY: i32 = 5;

/// Hand size that a refilling card draws up to.
pub const HAND_CAP: usize = 6;

/// Life gained by every third attack played.
pub const CHAIN_BONUS: i32 = 4;

/// How far one play lowers the incoming damage, for the card that does so.
pub const DAMAGE_CUT: i32 = 6;

/// Bound on the size of every counter of a state, see `GameView::wf`.
pub const RESOURCE_LIMIT: i32 = 500_000_000;

/// Why an operation on the state could not be carried out.
#[derive(Debug, PartialEq, Eq, Clone, Copy, Structural)]
pub enum CombatError {
    /// A card was to be drawn and the deck did not hold enough cards.
    EmptyDeck,
    /// The card to be played has no cost or costs more than the energy left.
    InsufficientEnergy,
    /// A card was to be discarded from an empty hand.
    EmptyHand,
}

/// The state of one turn. The top of the deck is its last card.
#[derive(Debug, Clone, PartialEq, Eq)]
pub struct GameState {
    /// Hit points and block together.
    pub life: i32,
    /// Stacks of weak on the enemy.
    pub weak: i32,
    pub energy: i32,
    pub hand: Vec<Card>,
    pub deck: Vec<Card>,
    pub intangible: bool,
    /// Damage of the enemy's attack at the end of the turn, before modifiers.
    pub heart_dmg: i32,
    /// Attacks played since the last chain bonus.
    pub attacks_played: i32,
}

/// A state as mathematics sees it.
pub struct GameView {
    pub life: int,
    pub weak: int,
    pub energy: int,
    pub hand: Seq<Card>,
    pub deck: Seq<Card>,
    pub intangible: bool,
    pub heart_dmg: int,
    pub attacks_played: int,
}

impl View for GameState {
    type V = GameView;

    open spec fn view(&self) -> GameView {
        GameView {
            life: self.life as int,
            weak: self.weak as int,
            energy: self.energy as int,
            hand: self.hand@,
            deck: self.deck@,
            intangible: self.intangible,
            heart_dmg: self.heart_dmg as int,
            attacks_played: self.attacks_played as int,
        }
    }
}

/// `a * num / den` rounded towards zero, for a positive `den`.
pub open spec fn scaled(a: int, num: int, den: int) -> int {
    if a >= 0 {
        (a * num) / den
    } else {
        -((-a * num) / den)
    }
}

/// Whether a discard takes `a` rather than `b`: the card that the hand wants
/// to keep less goes first, and of two that it wants to keep alike the one
/// that stands earlier in the catalog.
pub open spec fn goes_first(a: Card, b: Card) -> bool {
    ||| a.dont_discard_score() < b.dont_discard_score()
    ||| a.dont_discard_score() == b.dont_discard_score() && a.spec_position() < b.spec_position()
}

/// The hand without the card at position `i`: the last card takes its place.
pub open spec fn without(hand: Seq<Card>, i: int) -> Seq<Card>
    recommends
        0 <= i < hand.len(),
{
    hand.update(i, hand.last()).drop_last()
}

/// At most one hand position is the one a discard empties.
pub proof fn lemma_discard_index_unique(v: GameView, i: int, j: int)
    requires
        v.is_discard_index(i),
        v.is_discard_index(j),
    ensures
        i == j,
{
    let a = v.hand[i];
    let b = v.hand[j];
    assert(!goes_first(a, b) && !goes_first(b, a));
    assert(a.spec_position() == b.spec_position());
    crate::card::lemma_index_round_trip(a, 0);
    crate::card::lemma_index_round_trip(b, 0);
    assert(a == b);
}

impl GameView {
    /// Cards not yet played or discarded.
    pub open spec fn cards(self) -> nat {
        self.hand.len() + self.deck.len()
    }

    /// The state is one that a turn can be in: energy is not negative, the
    /// attack chain counts 0, 1 or 2, and every counter is within
    /// `RESOURCE_LIMIT` of zero with room left for what the cards still in hand
    /// and deck can add to it or take from it. Every operation keeps this, so
    /// no counter ever overflows.
    pub open spec fn wf(self) -> bool {
        &&& 0 <= self.energy <= RESOURCE_LIMIT - self.cards()
        &&& 0 <= self.attacks_played <= 2
        &&& -RESOURCE_LIMIT + self.cards() <= self.life <= RESOURCE_LIMIT - 17 * self.cards()
        &&& -RESOURCE_LIMIT <= self.weak <= RESOURCE_LIMIT - 2 * self.cards()
        &&& -RESOURCE_LIMIT + 6 * self.cards() <= self.heart_dmg <= RESOURCE_LIMIT
    }

    /// The card at hand position `i` can be played: it has a cost and the
    /// energy covers it.
    pub open spec fn legal(self, i: int) -> bool {
        &&& 0 <= i < self.hand.len()
        &&& self.hand[i].energy() is Some
        &&& self.hand[i].energy()->0 <= self.energy
    }

    /// Hand position `i` is the first to hold a card of the given type.
    pub open spec fn holds_first(self, card: Card, i: int) -> bool {
        &&& 0 <= i < self.hand.len()
        &&& self.hand[i] == card
        &&& forall|j: int| 0 <= j < i ==> self.hand[j] != card
    }

    /// The first hand position that holds a card of the given type, if the
    /// hand holds one.
    pub open spec fn in_hand(self, card: Card) -> Option<int> {
        if self.hand.contains(card) {
            Some(choose|i: int| self.holds_first(card, i))
        } else {
            None
        }
    }

    /// How many cards of the given type the hand holds.
    pub open spec fn count(self, card: Card) -> nat {
        self.hand.to_multiset().count(card)
    }

    /// Damage that the enemy's attack deals: one and a half times the incoming
    /// damage, and three quarters of that again if the enemy is weak, rounded
    /// towards zero once at the end.
    pub open spec fn modified_dmg(self) -> int {
        if self.weak > 0 {
            scaled(self.heart_dmg, 9, 8)
        } else {
            scaled(self.heart_dmg, 3, 2)
        }
    }

    /// Life left after the enemy's attack. While intangible the attack takes
    /// one life whatever its damage.
    pub open spec fn life_after_hit(self) -> int {
        if self.intangible {
            self.life - 1
        } else {
            self.life - self.modified_dmg()
        }
    }

    /// The life left after the enemy's attack is a number that a counter of
    /// the state can hold.
    pub open spec fn outcome_fits(self) -> bool {
        i32::MIN <= self.life_after_hit() <= i32::MAX
    }

    /// The life left if the turn ended now, if any is left.
    pub open spec fn survive(self) -> Option<int> {
        if self.life_after_hit() > 0 {
            Some(self.life_after_hit())
        } else {
            None
        }
    }

    /// The state after the top card of the deck went to the hand. Drawing the
    /// card `Void` costs one energy, as far as there is any.
    pub open spec fn after_draw(self) -> GameView
        recommends
            self.deck.len() > 0,
    {
        GameView {
            hand: self.hand.push(self.deck.last()),
            deck: self.deck.drop_last(),
            energy: if self.deck.last() == Card::Void && self.energy > 0 {
                self.energy - 1
            } else {
                self.energy
            },
            ..self
        }
    }

    /// The state after `n` draws.
    pub open spec fn after_draws(self, n: nat) -> GameView
        recommends
            n <= self.deck.len(),
        decreases n,
    {
        if n == 0 {
            self
        } else {
            self.after_draws((n - 1) as nat).after_draw()
        }
    }

    /// The hand position that a discard empties: it holds a card that no card
    /// in hand goes before, and is the first position to hold that card type.
    pub open spec fn is_discard_index(self, i: int) -> bool {
        &&& 0 <= i < self.hand.len()
        &&& forall|j: int| 0 <= j < self.hand.len() ==> !goes_first(self.hand[j], self.hand[i])
        &&& forall|j: int| 0 <= j < i ==> self.hand[j] != self.hand[i]
    }

    /// The one position that `is_discard_index` holds of, in a hand with cards.
    pub open spec fn discard_index(self) -> int {
        choose|i: int| self.is_discard_index(i)
    }

    /// The state after the discard: the last card of the hand takes the place
    /// of the discarded one.
    pub open spec fn after_discard(self) -> GameView
        recommends
            self.hand.len() > 0,
    {
        GameView { hand: without(self.hand, self.discard_index()), ..self }
    }

    /// How many cards the play of the card at hand position `i` draws.
    pub open spec fn draws_needed(self, i: int) -> nat
        recommends
            0 <= i < self.hand.len(),
    {
        match self.hand[i] {
            Card::HeelHook => if self.weak > 0 {
                1
            } else {
                0
            },
            Card::Expertise => if self.hand.len() - 1 < HAND_CAP {
                (HAND_CAP - (self.hand.len() - 1)) as nat
            } else {
                0
            },
            Card::DaggerThrow => 1,
            _ => 0,
        }
    }

    /// The state after the effects that every card has when played from hand
    /// position `i`: the card leaves the hand and its cost the energy; the card
    /// `App` makes intangible; one life is lost unless intangible; the card's
    /// block is added to life; an attack advances the chain, and the third
    /// attack of a chain resets it and adds `CHAIN_BONUS` to life; the card's
    /// weak is added to the enemy's.
    pub open spec fn after_common_effects(self, i: int) -> GameView
        recommends
            self.legal(i),
    {
        let card = self.hand[i];
        let intangible = self.intangible || card == Card::App;
        let attacks = self.attacks_played + if card.is_attack() {
            1int
        } else {
            0int
        };
        GameView {
            life: self.life - (if intangible {
                0int
            } else {
                1int
            }) + card.block() + (if attacks == 3 {
                CHAIN_BONUS as int
            } else {
                0int
            }),
            weak: self.weak + card.weak(),
            energy: self.energy - card.energy()->0,
            hand: without(self.hand, i),
            deck: self.deck,
            intangible,
            heart_dmg: self.heart_dmg,
            attacks_played: if attacks == 3 {
                0
            } else {
                attacks
            },
        }
    }

    /// The state after the card at hand position `i` was played: the common
    /// effects, then the card's own. `HeelHook` played on a weak enemy gives
    /// one energy and draws a card; `PWail` lowers the incoming damage by
    /// `DAMAGE_CUT`; `Expertise` draws until the hand holds `HAND_CAP` cards;
    /// `DaggerThrow` draws a card and then discards one.
    pub open spec fn after_play(self, i: int) -> GameView
        recommends
            self.legal(i),
            self.draws_needed(i) <= self.deck.len(),
    {
        let common = self.after_common_effects(i);
        match self.hand[i] {
            Card::HeelHook => if common.weak > 0 {
                GameView { energy: common.energy + 1, ..common }.after_draw()
            } else {
                common
            },
            Card::PWail => GameView { heart_dmg: common.heart_dmg - DAMAGE_CUT, ..common },
            Card::Expertise => common.after_draws(self.draws_needed(i)),
            Card::DaggerThrow => common.after_draw().after_discard(),
            _ => common,
        }
    }
}

impl GameView {
    /// The state after the cards at the hand positions `choices` were played
    /// one after the other, each position taken in the hand as it then is.
    pub open spec fn after_plays(self, choices: Seq<int>) -> GameView
        decreases choices.len(),
    {
        if choices.len() == 0 {
            self
        } else {
            self.after_plays(choices.drop_last()).after_play(choices.last())
        }
    }

    /// Every one of `choices` is a legal play in the state that the plays
    /// before it lead to.
    pub open spec fn all_legal(self, choices: Seq<int>) -> bool {
        forall|k: int|
            0 <= k < choices.len() ==> #[trigger] self.after_plays(choices.take(k)).legal(
                choices[k],
            )
    }
}

/// Draws never make the energy negative.
pub proof fn lemma_draws_keep_energy(v: GameView, n: nat)
    requires
        v.energy >= 0,
    ensures
        v.after_draws(n).energy >= 0,
    decreases n,
{
    if n > 0 {
        lemma_draws_keep_energy(v, (n - 1) as nat);
    }
}

/// A legal play never makes the energy negative.
pub proof fn lemma_play_keeps_energy(v: GameView, i: int)
    requires
        v.energy >= 0,
        v.legal(i),
    ensures
        v.after_play(i).energy >= 0,
{
    let common = v.after_common_effects(i);
    assert(common.energy >= 0);
    lemma_draws_keep_energy(common, v.draws_needed(i));
}

/// From a state with no negative energy, no sequence of legal plays leads to
/// one with negative energy.
pub proof fn lemma_legal_plays_keep_energy(v: GameView, choices: Seq<int>)
    requires
        v.energy >= 0,
        v.all_legal(choices),
    ensures
        v.after_plays(choices).energy >= 0,
    decreases choices.len(),
{
    if choices.len() > 0 {
        let earlier = choices.drop_last();
        assert forall|k: int| 0 <= k < earlier.len() implies #[trigger] v.after_plays(
            earlier.take(k),
        ).legal(earlier[k]) by {
            assert(earlier.take(k) == choices.take(k));
        }
        lemma_legal_plays_keep_energy(v, earlier);
        assert(choices.take(choices.len() - 1) == earlier);
        lemma_play_keeps_energy(v.after_plays(earlier), choices.last());
    }
}

/// In a well-formed state the life left after the enemy's attack is a number
/// that a counter can hold.
pub proof fn lemma_wf_outcome_fits(v: GameView)
    requires
        v.wf(),
    ensures
        v.outcome_fits(),
{
    let size = if v.heart_dmg >= 0 {
        v.heart_dmg
    } else {
        -v.heart_dmg
    };
    assert(0 <= (size * 9) / 8 <= 750_000_000 && 0 <= (size * 3) / 2 <= 750_000_000)
        by (nonlinear_arith)
        requires
            0 <= size <= 500_000_000,
    ;
}

/// Where the hand holds a card of the given type, `in_hand` names the first
/// position that does, and no other position is the first.
pub proof fn lemma_in_hand(v: GameView, card: Card)
    ensures
        v.hand.contains(card) <==> v.in_hand(card) is Some,
        v.in_hand(card) is Some ==> v.holds_first(card, v.in_hand(card)->0),
        forall|i: int| v.holds_first(card, i) ==> v.in_hand(card) == Some(i),
{
    if v.hand.contains(card) {
        let k = choose|k: int| 0 <= k < v.hand.len() && v.hand[k] == card;
        let first = lemma_first_upto(v, card, k);
        assert(v.holds_first(card, first));
    }
    assert forall|i: int| v.holds_first(card, i) implies v.in_hand(card) == Some(i) by {
        let j = v.in_hand(card)->0;
        assert(v.holds_first(card, j));
        if i < j {
            assert(v.hand[i] != card);
        }
        if j < i {
            assert(v.hand[j] != card);
        }
    }
}

/// A first position of the card type at or before a position that holds it.
proof fn lemma_first_upto(v: GameView, card: Card, k: int) -> (first: int)
    requires
        0 <= k < v.hand.len(),
        v.hand[k] == card,
    ensures
        v.holds_first(card, first),
    decreases k,
{
    if exists|j: int| 0 <= j < k && v.hand[j] == card {
        let j = choose|j: int| 0 <= j < k && v.hand[j] == card;
        lemma_first_upto(v, card, j)
    } else {
        k
    }
}

/// A hand with cards has a position that a discard empties.
pub proof fn lemma_discard_index_exists(v: GameView)
    requires
        v.hand.len() > 0,
    ensures
        v.is_discard_index(v.discard_index()),
{
    let w = lemma_lowest_upto(v.hand, v.hand.len() as int);
    assert(v.is_discard_index(w));
}

/// Among the first `n` hand positions, one that a discard of those cards
/// would empty.
proof fn lemma_lowest_upto(hand: Seq<Card>, n: int) -> (w: int)
    requires
        1 <= n <= hand.len(),
    ensures
        0 <= w < n,
        forall|j: int| 0 <= j < n ==> !goes_first(hand[j], hand[w]),
        forall|j: int| 0 <= j < w ==> hand[j] != hand[w],
    decreases n,
{
    if n == 1 {
        0
    } else {
        let w = lemma_lowest_upto(hand, n - 1);
        if goes_first(hand[n - 1], hand[w]) {
            n - 1
        } else {
            w
        }
    }
}

/// What `n` draws leave of a state whose deck holds at least `n` cards.
pub proof fn lemma_after_draws_sizes(v: GameView, n: nat)
    requires
        n <= v.deck.len(),
    ensures
        v.after_draws(n).hand.len() == v.hand.len() + n,
        v.after_draws(n).deck == v.deck.take(v.deck.len() - n),
        v.after_draws(n).hand.to_multiset().add(v.after_draws(n).deck.to_multiset())
            == v.hand.to_multiset().add(v.deck.to_multiset()),
        0 <= v.energy ==> 0 <= v.after_draws(n).energy <= v.energy,
        v.after_draws(n).life == v.life,
        v.after_draws(n).weak == v.weak,
        v.after_draws(n).intangible == v.intangible,
        v.after_draws(n).heart_dmg == v.heart_dmg,
        v.after_draws(n).attacks_played == v.attacks_played,
        v.wf() ==> v.after_draws(n).wf(),
    decreases n,
{
    broadcast use vstd::seq_lib::group_to_multiset_ensures;
    if n == 0 {
        assert(v.deck.take(v.deck.len() as int) =~= v.deck);
    } else {
        let before = v.after_draws((n - 1) as nat);
        lemma_after_draws_sizes(v, (n - 1) as nat);
        let after = before.after_draw();
        assert(after.deck =~= v.deck.take(v.deck.len() - n));
        assert(before.deck =~= after.deck.push(before.deck.last()));
        assert(after.hand.to_multiset().add(after.deck.to_multiset()) =~= before.hand.to_multiset().add(
            before.deck.to_multiset(),
        ));
    }
}


/// A play uses up at least the card played: fewer cards are left in hand and
/// deck together. The hand grows by no more than the play draws, and a hand
/// of at most `HAND_CAP` cards stays one.
pub proof fn lemma_play_uses_up_cards(v: GameView, i: int)
    requires
        0 <= i < v.hand.len(),
        v.draws_needed(i) <= v.deck.len(),
    ensures
        v.after_play(i).cards() < v.cards(),
        v.after_play(i).deck.len() == v.deck.len() - v.draws_needed(i),
        v.after_play(i).hand.len() <= v.hand.len() - 1 + v.draws_needed(i),
        v.hand.len() <= HAND_CAP ==> v.after_play(i).hand.len() <= HAND_CAP,
{
    let common = v.after_common_effects(i);
    lemma_after_draws_sizes(common, v.draws_needed(i));
    if v.hand[i] == Card::DaggerThrow {
        lemma_discard_index_exists(common.after_draw());
    }
}

impl GameState {
    /// Whether the state is one that the operations accept, see `GameView::wf`.
    pub fn is_wf(&self) -> (ok: bool)
        ensures
            ok == self@.wf(),
    {
        let hand: usize = self.hand.len();
        let deck: usize = self.deck.len();
        if hand > 500_000_000 || deck > 500_000_000 {
            return false;
        }
        let cards: i64 = hand as i64 + deck as i64;
        let limit: i64 = RESOURCE_LIMIT as i64;
        0 <= self.energy && self.energy as i64 <= limit - cards && 0 <= self.attacks_played
            && self.attacks_played <= 2 && -limit + cards <= self.life as i64 && self.life as i64
            <= limit - 17 * cards && -limit <= self.weak as i64 && self.weak as i64 <= limit - 2
            * cards && -limit + 6 * cards <= self.heart_dmg as i64 && self.heart_dmg as i64
            <= limit
    }

    /// The hand positions of the cards that can be played now, in rising
    /// order. Passing is always possible besides and is not among them.
    pub fn playable_actions(&self) -> (res: Vec<usize>)
        ensures
            forall|k: int| 0 <= k < res@.len() ==> self@.legal(#[trigger] res@[k] as int),
            forall|k: int, l: int| 0 <= k < l < res@.len() ==> res@[k] < res@[l],
            forall|i: int| self@.legal(i) ==> res@.contains(i as usize),
            res@.len() <= self@.hand.len(),
    {
        let mut res: Vec<usize> = Vec::new();
        let n: usize = self.hand.len();
        let mut i: usize = 0;
        while i < n
            invariant
                i <= n,
                n == self.hand@.len(),
                res@.len() <= i,
                forall|k: int| 0 <= k < res@.len() ==> self@.legal(#[trigger] res@[k] as int),
                forall|k: int| 0 <= k < res@.len() ==> #[trigger] res@[k] < i,
                forall|k: int, l: int| 0 <= k < l < res@.len() ==> res@[k] < res@[l],
                forall|j: int| 0 <= j < i && self@.legal(j) ==> res@.contains(j as usize),
            decreases n - i,
        {
            let playable: bool = match self.hand[i].energy() {
                Some(cost) => self.energy >= cost,
                None => false,
            };
            if playable {
                let ghost before = res@;
                res.push(i);
                assert forall|j: int| 0 <= j < i + 1 && self@.legal(j) implies res@.contains(
                    j as usize,
                ) by {
                    if j < i {
                        let k = choose|k: int| 0 <= k < before.len() && before[k] == j as usize;
                        assert(res@[k] == j as usize);
                    } else {
                        assert(res@[res@.len() - 1] == j as usize);
                    }
                }
            }
            i += 1;
        }
        res
    }

    /// How many cards of the given type the hand holds.
    pub fn count(&self, card: Card) -> (n: usize)
        ensures
            n == self@.count(card),
    {
        let mut n: usize = 0;
        let len: usize = self.hand.len();
        let mut i: usize = 0;
        assert(self.hand@.take(0).to_multiset().count(card) == 0) by {
            broadcast use vstd::seq_lib::group_to_multiset_ensures;
            assert(!self.hand@.take(0).contains(card));
        }
        while i < len
            invariant
                i <= len,
                len == self.hand@.len(),
                n <= i,
                n == self.hand@.take(i as int).to_multiset().count(card),
            decreases len - i,
        {
            proof {
                broadcast use vstd::seq_lib::group_to_multiset_ensures;
                assert(self.hand@.take(i + 1) =~= self.hand@.take(i as int).push(self.hand@[i as int]));
            }
            if self.hand[i] == card {
                n += 1;
            }
            i += 1;
        }
        assert(self.hand@.take(len as int) =~= self.hand@);
        n
    }

    /// The first hand position that holds a card of the given type, if the
    /// hand holds one.
    pub fn in_hand(&self, card: Card) -> (pos: Option<usize>)
        ensures
            match pos {
                Some(i) => self@.in_hand(card) == Some(i as int) && self@.holds_first(
                    card,
                    i as int,
                ),
                None => self@.in_hand(card) is None && !self@.hand.contains(card),
            },
    {
        let n: usize = self.hand.len();
        let mut i: usize = 0;
        while i < n
            invariant
                i <= n,
                n == self.hand@.len(),
                forall|j: int| 0 <= j < i ==> self@.hand[j] != card,
            decreases n - i,
        {
            if self.hand[i] == card {
                proof {
                    lemma_in_hand(self@, card);
                }
                return Some(i);
            }
            i += 1;
        }
        None
    }

    /// Moves the top card of the deck to the hand.
    fn take_top(&mut self)
        requires
            old(self)@.deck.len() > 0,
        ensures
            final(self)@ == old(self)@.after_draw(),
            old(self)@.wf() ==> final(self)@.wf(),
    {
        let card: Card = self.deck[self.deck.len() - 1];
        let _ = self.deck.pop();
        if card == Card::Void {
            if self.energy > 0 {
                self.energy = self.energy - 1;
            }
        }
        self.hand.push(card);
        assert(self.deck@ =~= old(self)@.deck.drop_last());
    }

    /// Draws the top card of the deck into the hand. The card `Void` costs one
    /// energy when drawn, as far as there is any. With an empty deck nothing
    /// changes and the error is `EmptyDeck`.
    pub fn draw(&mut self) -> (res: Result<(), CombatError>)
        ensures
            old(self)@.wf() ==> final(self)@.wf(),
            match res {
                Ok(_) => {
                    &&& old(self)@.deck.len() > 0
                    &&& final(self)@ == old(self)@.after_draw()
                    &&& final(self)@.hand.len() == old(self)@.hand.len() + 1
                    &&& final(self)@.deck.len() == old(self)@.deck.len() - 1
                    &&& final(self)@.energy == old(self)@.energy - if old(self)@.deck.last()
                        == Card::Void && old(self)@.energy > 0 {
                        1int
                    } else {
                        0int
                    }
                },
                Err(e) => {
                    &&& e == CombatError::EmptyDeck
                    &&& old(self)@.deck.len() == 0
                    &&& final(self)@ == old(self)@
                },
            },
    {
        if self.deck.len() == 0 {
            return Err(CombatError::EmptyDeck);
        }
        self.take_top();
        Ok(())
    }

    /// Removes the card that a discard takes from a hand with cards.
    fn drop_lowest(&mut self)
        requires
            old(self)@.hand.len() > 0,
        ensures
            old(self)@.is_discard_index(old(self)@.discard_index()),
            final(self)@ == old(self)@.after_discard(),
            old(self)@.wf() ==> final(self)@.wf(),
    {
        let n: usize = self.hand.len();
        let mut worst: usize = 0;
        let mut i: usize = 1;
        while i < n
            invariant
                1 <= i <= n,
                n == self.hand@.len(),
                *self == *old(self),
                worst < i,
                forall|j: int| 0 <= j < i ==> !goes_first(self@.hand[j], self@.hand[worst as int]),
                forall|j: int| 0 <= j < worst ==> self@.hand[j] != self@.hand[worst as int],
            decreases n - i,
        {
            let a: Card = self.hand[i];
            let b: Card = self.hand[worst];
            let a_score: i32 = a.dont_discard_score();
            let b_score: i32 = b.dont_discard_score();
            if a_score < b_score || (a_score == b_score && a.index() < b.index()) {
                worst = i;
            }
            i += 1;
        }
        proof {
            assert(self@.is_discard_index(worst as int));
            lemma_discard_index_unique(self@, worst as int, self@.discard_index());
        }
        let _ = self.hand.swap_remove(worst);
    }

    /// Discards the card that the hand wants to keep least: the one with the
    /// lowest `dont_discard_score`, and of several with that score the one
    /// whose type stands first in the catalog. With an empty hand nothing
    /// changes and the error is `EmptyHand`.
    pub fn discard(&mut self) -> (res: Result<(), CombatError>)
        ensures
            old(self)@.wf() ==> final(self)@.wf(),
            match res {
                Ok(_) => {
                    &&& old(self)@.hand.len() > 0
                    &&& old(self)@.is_discard_index(old(self)@.discard_index())
                    &&& final(self)@ == old(self)@.after_discard()
                },
                Err(e) => {
                    &&& e == CombatError::EmptyHand
                    &&& old(self)@.hand.len() == 0
                    &&& final(self)@ == old(self)@
                },
            },
    {
        if self.hand.len() == 0 {
            return Err(CombatError::EmptyHand);
        }
        self.drop_lowest();
        Ok(())
    }

    /// Plays the card at hand position `card_idx`.
    ///
    /// The play is refused, and nothing changes, if the card has no cost or
    /// costs more than the energy left (`InsufficientEnergy`), or if the deck
    /// holds fewer cards than the play draws (`EmptyDeck`). Otherwise the
    /// card's effects are applied as `GameView::after_play` describes.
    pub fn play_card(&mut self, card_idx: usize) -> (res: Result<(), CombatError>)
        requires
            old(self)@.wf(),
            card_idx < old(self)@.hand.len(),
        ensures
            final(self)@.wf(),
            final(self)@.energy >= 0,
            old(self)@.hand.len() <= HAND_CAP ==> final(self)@.hand.len() <= HAND_CAP,
            match res {
                Ok(_) => {
                    &&& old(self)@.legal(card_idx as int)
                    &&& old(self)@.draws_needed(card_idx as int) <= old(self)@.deck.len()
                    &&& final(self)@ == old(self)@.after_play(card_idx as int)
                },
                Err(e) => {
                    &&& final(self)@ == old(self)@
                    &&& e != CombatError::EmptyHand
                    &&& e == CombatError::InsufficientEnergy <==> !old(self)@.legal(
                        card_idx as int,
                    )
                    &&& e == CombatError::EmptyDeck ==> old(self)@.draws_needed(card_idx as int)
                        > old(self)@.deck.len()
                },
            },
    {
        proof {
            if old(self)@.draws_needed(card_idx as int) <= old(self)@.deck.len() {
                lemma_play_uses_up_cards(old(self)@, card_idx as int);
            }
        }
        let card: Card = self.hand[card_idx];
        let energy: i32 = match card.energy() {
            Some(cost) => cost,
            None => {
                return Err(CombatError::InsufficientEnergy);
            },
        };
        if energy > self.energy {
            return Err(CombatError::InsufficientEnergy);
        }
        let rest: usize = self.hand.len() - 1;
        let draws: usize = match card {
            Card::HeelHook => if self.weak > 0 {
                1
            } else {
                0
            },
            Card::Expertise => if rest < HAND_CAP {
                HAND_CAP - rest
            } else {
                0
            },
            Card::DaggerThrow => 1,
            _ => 0,
        };
        if self.deck.len() < draws {
            return Err(CombatError::EmptyDeck);
        }
        let _ = self.hand.swap_remove(card_idx);
        self.energy -= energy;
        self.intangible = self.intangible || card == Card::App;
        if !self.intangible {
            self.life -= 1;
        }
        self.life += card.block();
        if card.is_attack() {
            self.attacks_played += 1;
        }
        if self.attacks_played == 3 {
            self.attacks_played = 0;
            self.life += CHAIN_BONUS;
        }
        self.weak += card.weak();
        assert(self@ == old(self)@.after_common_effects(card_idx as int));
        if self.weak > 0 && card == Card::HeelHook {
            self.energy += 1;
            self.take_top();
        }
        if card == Card::PWail {
            self.heart_dmg -= DAMAGE_CUT;
        }
        if card == Card::Expertise {
            let ghost common = self@;
            let mut drawn: usize = 0;
            while self.hand.len() < HAND_CAP
                invariant
                    common.wf(),
                    self@.wf(),
                    drawn <= draws,
                    draws == if common.hand.len() < HAND_CAP {
                        HAND_CAP - common.hand.len()
                    } else {
                        0
                    },
                    draws <= common.deck.len(),
                    self@ == common.after_draws(drawn as nat),
                    self@.hand.len() == common.hand.len() + drawn,
                    self@.deck.len() == common.deck.len() - drawn,
                decreases HAND_CAP - self.hand.len(),
            {
                self.take_top();
                drawn += 1;
            }
            assert(drawn == draws);
        }
        if card == Card::DaggerThrow {
            self.take_top();
            self.drop_lowest();
        }
        Ok(())
    }

    /// Carries out the action that a learner chose among the playable hand
    /// positions `actions` followed by passing: for a position, the card
    /// there is played and the turn goes on (`true`); for the number after
    /// the last position, nothing happens and the turn is over (`false`).
    pub fn take_action(&mut self, actions: &Vec<usize>, chosen: usize) -> (res: Result<
        bool,
        CombatError,
    >)
        requires
            old(self)@.wf(),
            chosen <= actions@.len(),
            forall|k: int| 0 <= k < actions@.len() ==> actions@[k] < old(self)@.hand.len(),
        ensures
            final(self)@.wf(),
            chosen == actions@.len() ==> res == Ok::<bool, CombatError>(false) && final(self)@
                == old(self)@,
            chosen < actions@.len() ==> match res {
                Ok(goes_on) => {
                    &&& goes_on
                    &&& old(self)@.legal(actions@[chosen as int] as int)
                    &&& final(self)@ == old(self)@.after_play(actions@[chosen as int] as int)
                },
                Err(e) => {
                    &&& final(self)@ == old(self)@
                    &&& e == CombatError::InsufficientEnergy <==> !old(self)@.legal(
                        actions@[chosen as int] as int,
                    )
                    &&& e != CombatError::InsufficientEnergy ==> e == CombatError::EmptyDeck && old(
                        self,
                    )@.draws_needed(actions@[chosen as int] as int) > old(self)@.deck.len()
                },
            },
    {
        if chosen == actions.len() {
            return Ok(false);
        }
        match self.play_card(actions[chosen]) {
            Ok(_) => Ok(true),
            Err(e) => Err(e),
        }
    }

    /// Life left after the enemy's attack at the end of the turn.
    pub fn life_after_hit(&self) -> (life: i32)
        requires
            self@.outcome_fits(),
        ensures
            life == self@.life_after_hit(),
    {
        if self.intangible {
            self.life - 1
        } else {
            let dmg: i64 = self.heart_dmg as i64;
            let size: i64 = if dmg >= 0 {
                dmg
            } else {
                -dmg
            };
            assert(0 <= (size * 9) / 8 <= 0x1_0000_0000 && 0 <= (size * 3) / 2 <= 0x1_0000_0000)
                by (nonlinear_arith)
                requires
                    0 <= size <= 0x8000_0000,
            ;
            let cut: i64 = if self.weak > 0 {
                (size * 9) / 8
            } else {
                (size * 3) / 2
            };
            let modified: i64 = if dmg >= 0 {
                cut
            } else {
                -cut
            };
            (self.life as i64 - modified) as i32
        }
    }

    /// The life left if the turn ended now, or `None` if the enemy's attack
    /// would leave none. The state stays as it is.
    pub fn survive(&self) -> (left: Option<i32>)
        requires
            self@.outcome_fits(),
        ensures
            match left {
                Some(life) => self@.survive() == Some(life as int),
                None => self@.survive() is None,
            },
    {
        let life: i32 = self.life_after_hit();
        if life > 0 {
            Some(life)
        } else {
            None
        }
    }
}

} // verus!
