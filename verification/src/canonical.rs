//! The canonical form of a state: hand and deck put in catalog order, so that
//! states which differ only in the order of their cards become one key.

use crate::card::{lemma_index_round_trip, Card, NUM_CARDS};
use crate::state::{GameState, GameView};
use vstd::multiset::Multiset;
use vstd::prelude::*;

verus! {

/// `n` copies of one card.
pub open spec fn copies(card: Card, n: nat) -> Seq<Card> {
    Seq::new(n, |i: int| card)
}

/// The cards of `m` whose catalog position is below `upto`, in catalog order.
pub open spec fn sorted_upto(m: Multiset<Card>, upto: nat) -> Seq<Card>
    decreases upto,
{
    if upto == 0 {
        Seq::empty()
    } else {
        let card = Card::at_position(upto - 1);
        sorted_upto(m, (upto - 1) as nat) + copies(card, m.count(card))
    }
}

/// The cards of `m` in catalog order.
pub open spec fn sorted_cards(m: Multiset<Card>) -> Seq<Card> {
    sorted_upto(m, NUM_CARDS as nat)
}

/// A state with hand and deck in catalog order. It depends on the hand and
/// the deck only through how often each card type occurs in them.
pub open spec fn canonical(v: GameView) -> GameView {
    GameView {
        hand: sorted_cards(v.hand.to_multiset()),
        deck: sorted_cards(v.deck.to_multiset()),
        ..v
    }
}

/// States that agree in every counter and hold the same cards in hand and in
/// deck, in whatever order, have the same canonical form.
pub proof fn lemma_canonical_ignores_order(a: GameView, b: GameView)
    requires
        a.life == b.life,
        a.weak == b.weak,
        a.energy == b.energy,
        a.intangible == b.intangible,
        a.heart_dmg == b.heart_dmg,
        a.attacks_played == b.attacks_played,
        a.hand.to_multiset() == b.hand.to_multiset(),
        a.deck.to_multiset() == b.deck.to_multiset(),
    ensures
        canonical(a) == canonical(b),
{
}

/// How often a card occurs among copies of a card.
pub proof fn lemma_copies_count(card: Card, n: nat, other: Card)
    ensures
        copies(card, n).to_multiset().count(other) == if other == card {
            n
        } else {
            0
        },
    decreases n,
{
    broadcast use vstd::seq_lib::group_to_multiset_ensures;
    if n == 0 {
        assert(!copies(card, n).contains(other));
    } else {
        lemma_copies_count(card, (n - 1) as nat, other);
        assert(copies(card, n) =~= copies(card, (n - 1) as nat).push(card));
    }
}

/// How often a card occurs among the cards sorted so far: as often as in
/// `m` if its catalog position is below `upto`, else not at all.
pub proof fn lemma_sorted_upto_count(m: Multiset<Card>, upto: nat, other: Card)
    requires
        upto <= NUM_CARDS,
    ensures
        sorted_upto(m, upto).to_multiset().count(other) == if other.spec_position() < upto {
            m.count(other)
        } else {
            0
        },
    decreases upto,
{
    broadcast use vstd::seq_lib::group_to_multiset_ensures;
    if upto == 0 {
        assert(!sorted_upto(m, upto).contains(other));
    } else {
        let card = Card::at_position(upto - 1);
        let before = sorted_upto(m, (upto - 1) as nat);
        lemma_sorted_upto_count(m, (upto - 1) as nat, other);
        lemma_copies_count(card, m.count(card), other);
        vstd::seq_lib::lemma_multiset_commutative(before, copies(card, m.count(card)));
        lemma_index_round_trip(other, upto - 1);
    }
}

/// Sorting rearranges: the sorted cards of a sequence are the cards of the
/// sequence.
pub proof fn lemma_sorted_is_permutation(s: Seq<Card>)
    ensures
        sorted_cards(s.to_multiset()).to_multiset() == s.to_multiset(),
        sorted_cards(s.to_multiset()).len() == s.len(),
{
    broadcast use vstd::seq_lib::group_to_multiset_ensures;
    let sorted = sorted_cards(s.to_multiset());
    assert forall|card: Card| sorted.to_multiset().count(card) == s.to_multiset().count(card) by {
        lemma_sorted_upto_count(s.to_multiset(), NUM_CARDS as nat, card);
    }
    assert(sorted.to_multiset() =~= s.to_multiset());
    vstd::seq_lib::to_multiset_len(sorted);
    vstd::seq_lib::to_multiset_len(s);
}

/// Every card sorted so far has a catalog position below `upto`.
pub proof fn lemma_sorted_upto_positions(m: Multiset<Card>, upto: nat, i: int)
    requires
        upto <= NUM_CARDS,
        0 <= i < sorted_upto(m, upto).len(),
    ensures
        sorted_upto(m, upto)[i].spec_position() < upto,
    decreases upto,
{
    if upto > 0 {
        let before = sorted_upto(m, (upto - 1) as nat);
        if i < before.len() {
            lemma_sorted_upto_positions(m, (upto - 1) as nat, i);
        } else {
            lemma_index_round_trip(Card::Defend, upto - 1);
        }
    }
}

/// The sorted cards stand in catalog order.
pub proof fn lemma_sorted_upto_in_order(m: Multiset<Card>, upto: nat, i: int, j: int)
    requires
        upto <= NUM_CARDS,
        0 <= i <= j < sorted_upto(m, upto).len(),
    ensures
        sorted_upto(m, upto)[i].spec_position() <= sorted_upto(m, upto)[j].spec_position(),
    decreases upto,
{
    if upto > 0 {
        let before = sorted_upto(m, (upto - 1) as nat);
        if j < before.len() {
            lemma_sorted_upto_in_order(m, (upto - 1) as nat, i, j);
        } else if i < before.len() {
            lemma_sorted_upto_positions(m, (upto - 1) as nat, i);
            lemma_index_round_trip(Card::Defend, upto - 1);
        }
    }
}

/// A canonical form is its own canonical form, holds the cards of the state
/// it was made from, and has hand and deck in catalog order.
pub proof fn lemma_canonical_form(v: GameView)
    ensures
        canonical(canonical(v)) == canonical(v),
        canonical(v).hand.to_multiset() == v.hand.to_multiset(),
        canonical(v).deck.to_multiset() == v.deck.to_multiset(),
        forall|i: int, j: int|
            0 <= i <= j < canonical(v).hand.len() ==> canonical(v).hand[i].spec_position()
                <= canonical(v).hand[j].spec_position(),
        forall|i: int, j: int|
            0 <= i <= j < canonical(v).deck.len() ==> canonical(v).deck[i].spec_position()
                <= canonical(v).deck[j].spec_position(),
{
    lemma_sorted_is_permutation(v.hand);
    lemma_sorted_is_permutation(v.deck);
    assert forall|i: int, j: int| 0 <= i <= j < canonical(v).hand.len() implies canonical(
        v,
    ).hand[i].spec_position() <= canonical(v).hand[j].spec_position() by {
        lemma_sorted_upto_in_order(v.hand.to_multiset(), NUM_CARDS as nat, i, j);
    }
    assert forall|i: int, j: int| 0 <= i <= j < canonical(v).deck.len() implies canonical(
        v,
    ).deck[i].spec_position() <= canonical(v).deck[j].spec_position() by {
        lemma_sorted_upto_in_order(v.deck.to_multiset(), NUM_CARDS as nat, i, j);
    }
}

/// The cards in catalog order.
pub fn sort_cards(cards: &Vec<Card>) -> (sorted: Vec<Card>)
    ensures
        sorted@ == sorted_cards(cards@.to_multiset()),
{
    let ghost m = cards@.to_multiset();
    let mut counts: Vec<usize> = Vec::new();
    let mut k: usize = 0;
    while k < NUM_CARDS
        invariant
            k <= NUM_CARDS,
            counts@.len() == k,
            forall|p: int| 0 <= p < k ==> counts@[p] == 0,
        decreases NUM_CARDS - k,
    {
        counts.push(0);
        k += 1;
    }
    let n: usize = cards.len();
    let mut i: usize = 0;
    assert forall|p: int| 0 <= p < NUM_CARDS implies counts@[p] == cards@.take(0).to_multiset().count(
        Card::at_position(p),
    ) by {
        broadcast use vstd::seq_lib::group_to_multiset_ensures;
        assert(!cards@.take(0).contains(Card::at_position(p)));
    }
    while i < n
        invariant
            i <= n,
            n == cards@.len(),
            counts@.len() == NUM_CARDS,
            forall|p: int|
                0 <= p < NUM_CARDS ==> counts@[p] == cards@.take(i as int).to_multiset().count(
                    Card::at_position(p),
                ),
            forall|p: int| 0 <= p < NUM_CARDS ==> counts@[p] <= i,
        decreases n - i,
    {
        let card: Card = cards[i];
        let at: usize = card.index();
        let ghost before = counts@;
        counts.set(at, counts[at] + 1);
        proof {
            broadcast use vstd::seq_lib::group_to_multiset_ensures;
            assert(cards@.take(i + 1) =~= cards@.take(i as int).push(card));
            assert forall|p: int| 0 <= p < NUM_CARDS implies counts@[p] == cards@.take(
                i + 1,
            ).to_multiset().count(Card::at_position(p)) by {
                lemma_index_round_trip(card, p);
            }
        }
        i += 1;
    }
    assert(cards@.take(n as int) =~= cards@);
    let mut sorted: Vec<Card> = Vec::new();
    let mut k: usize = 0;
    while k < NUM_CARDS
        invariant
            k <= NUM_CARDS,
            counts@.len() == NUM_CARDS,
            forall|p: int| 0 <= p < NUM_CARDS ==> counts@[p] == m.count(Card::at_position(p)),
            sorted@ == sorted_upto(m, k as nat),
        decreases NUM_CARDS - k,
    {
        if let Some(card) = Card::from_index(k) {
            let copies_wanted: usize = counts[k];
            let mut j: usize = 0;
            while j < copies_wanted
                invariant
                    j <= copies_wanted,
                    card == Card::at_position(k as int),
                    sorted@ == sorted_upto(m, k as nat) + copies(card, j as nat),
                decreases copies_wanted - j,
            {
                sorted.push(card);
                assert(copies(card, (j + 1) as nat) =~= copies(card, j as nat).push(card));
                assert(sorted@ =~= sorted_upto(m, k as nat) + copies(card, (j + 1) as nat));
                j += 1;
            }
        }
        k += 1;
    }
    sorted
}

impl GameState {
    /// Puts the hand in catalog order. The search does so before it lists
    /// the playable positions, so that states with one key offer the same
    /// actions in the same order. For the game nothing changes: what a play
    /// does depends on the cards in hand, not on their order.
    pub fn sort_hand(&mut self)
        ensures
            final(self)@ == (GameView {
                hand: sorted_cards(old(self)@.hand.to_multiset()),
                ..old(self)@
            }),
            final(self)@.hand.to_multiset() == old(self)@.hand.to_multiset(),
            canonical(final(self)@) == canonical(old(self)@),
            old(self)@.wf() ==> final(self)@.wf(),
    {
        proof {
            lemma_sorted_is_permutation(self@.hand);
        }
        self.hand = sort_cards(&self.hand);
    }
}

/// A state in canonical form, the key under which the search keeps what it
/// has learnt of the state.
#[derive(Debug)]
pub struct CanonicalKey {
    state: GameState,
}

impl CanonicalKey {
    /// The state that a key holds is its own canonical form.
    #[verifier::type_invariant]
    spec fn is_canonical(self) -> bool {
        canonical(self.state@) == self.state@
    }
}

impl View for CanonicalKey {
    type V = GameView;

    closed spec fn view(&self) -> GameView {
        self.state@
    }
}

/// A copy of the cards.
fn copy_cards(cards: &Vec<Card>) -> (copy: Vec<Card>)
    ensures
        copy@ == cards@,
{
    let mut copy: Vec<Card> = Vec::new();
    let n: usize = cards.len();
    let mut i: usize = 0;
    while i < n
        invariant
            i <= n,
            n == cards@.len(),
            copy@ == cards@.take(i as int),
        decreases n - i,
    {
        copy.push(cards[i]);
        assert(cards@.take(i + 1) =~= cards@.take(i as int).push(cards@[i as int]));
        i += 1;
    }
    assert(cards@.take(n as int) =~= cards@);
    copy
}

/// Whether two hands or decks hold the same cards in the same order.
fn same_cards(a: &Vec<Card>, b: &Vec<Card>) -> (same: bool)
    ensures
        same == (a@ == b@),
{
    if a.len() != b.len() {
        return false;
    }
    let n: usize = a.len();
    let mut i: usize = 0;
    while i < n
        invariant
            i <= n,
            n == a@.len(),
            n == b@.len(),
            forall|j: int| 0 <= j < i ==> a@[j] == b@[j],
        decreases n - i,
    {
        if a[i] != b[i] {
            return false;
        }
        i += 1;
    }
    assert(a@ =~= b@);
    true
}

/// The key of a state: its canonical form.
pub fn canonical_key(state: &GameState) -> (key: CanonicalKey)
    ensures
        key@ == canonical(state@),
{
    proof {
        lemma_canonical_form(state@);
    }
    CanonicalKey {
        state: GameState {
            life: state.life,
            weak: state.weak,
            energy: state.energy,
            hand: sort_cards(&state.hand),
            deck: sort_cards(&state.deck),
            intangible: state.intangible,
            heart_dmg: state.heart_dmg,
            attacks_played: state.attacks_played,
        },
    }
}

/// Modulus of the hash of a key.
pub const HASH_MODULUS: u64 = 2_305_843_009_213_693_951;

/// The hash `h` with the number `x` mixed in.
pub open spec fn mixed(h: u64, x: u64) -> u64 {
    ((h * 31 + x) % (HASH_MODULUS as int)) as u64
}

/// The hash `h` with the catalog positions of the cards mixed in, one after
/// the other.
pub open spec fn mixed_cards(h: u64, cards: Seq<Card>) -> u64
    decreases cards.len(),
{
    if cards.len() == 0 {
        h
    } else {
        mixed(mixed_cards(h, cards.drop_last()), (cards.last().spec_position() + 1) as u64)
    }
}

/// A counter as a number that is not negative.
pub open spec fn lifted(x: int) -> u64 {
    (x + 0x8000_0000) as u64
}

/// The hash of a state: its counters, its hand and its deck mixed together.
/// States that are equal have the same hash.
pub open spec fn key_hash(v: GameView) -> u64 {
    let counters = mixed(
        mixed(
            mixed(
                mixed(mixed(mixed(0, lifted(v.life)), lifted(v.weak)), lifted(v.energy)),
                if v.intangible {
                    1
                } else {
                    0
                },
            ),
            lifted(v.heart_dmg),
        ),
        lifted(v.attacks_played),
    );
    mixed_cards(mixed(mixed_cards(counters, v.hand), 0), v.deck)
}

fn mix(h: u64, x: u64) -> (r: u64)
    ensures
        r == mixed(h, x),
{
    ((h as u128 * 31 + x as u128) % (HASH_MODULUS as u128)) as u64
}

fn mix_cards(h: u64, cards: &Vec<Card>) -> (r: u64)
    ensures
        r == mixed_cards(h, cards@),
{
    let mut r: u64 = h;
    let n: usize = cards.len();
    let mut i: usize = 0;
    assert(cards@.take(0) =~= Seq::<Card>::empty());
    while i < n
        invariant
            i <= n,
            n == cards@.len(),
            r == mixed_cards(h, cards@.take(i as int)),
        decreases n - i,
    {
        assert(cards@.take(i + 1).drop_last() =~= cards@.take(i as int));
        r = mix(r, cards[i].index() as u64 + 1);
        i += 1;
    }
    assert(cards@.take(n as int) =~= cards@);
    r
}

fn lift(x: i32) -> (r: u64)
    ensures
        r == lifted(x as int),
{
    (x as i64 + 0x8000_0000) as u64
}

impl Clone for CanonicalKey {
    /// Another key for the same state.
    fn clone(&self) -> (copy: CanonicalKey)
        ensures
            copy@ == self@,
    {
        proof {
            use_type_invariant(self);
        }
        CanonicalKey {
            state: GameState {
                life: self.state.life,
                weak: self.state.weak,
                energy: self.state.energy,
                hand: copy_cards(&self.state.hand),
                deck: copy_cards(&self.state.deck),
                intangible: self.state.intangible,
                heart_dmg: self.state.heart_dmg,
                attacks_played: self.state.attacks_played,
            },
        }
    }
}

impl CanonicalKey {
    /// The hash of the state that the key stands for.
    pub fn hash_code(&self) -> (h: u64)
        ensures
            h == key_hash(self@),
    {
        let h = mix(0, lift(self.state.life));
        let h = mix(h, lift(self.state.weak));
        let h = mix(h, lift(self.state.energy));
        let h = mix(h, if self.state.intangible { 1 } else { 0 });
        let h = mix(h, lift(self.state.heart_dmg));
        let h = mix(h, lift(self.state.attacks_played));
        let h = mix_cards(h, &self.state.hand);
        let h = mix(h, 0);
        mix_cards(h, &self.state.deck)
    }

    /// The state that the key stands for, hand and deck in catalog order.
    pub fn state(&self) -> (state: &GameState)
        ensures
            state@ == self@,
            canonical(state@) == state@,
    {
        proof {
            use_type_invariant(self);
        }
        &self.state
    }

    /// Whether the two keys stand for the same state.
    pub fn same(&self, other: &CanonicalKey) -> (same: bool)
        ensures
            same == (self@ == other@),
    {
        self.state.life == other.state.life && self.state.weak == other.state.weak
            && self.state.energy == other.state.energy && self.state.intangible
            == other.state.intangible && self.state.heart_dmg == other.state.heart_dmg
            && self.state.attacks_played == other.state.attacks_played && same_cards(
            &self.state.hand,
            &other.state.hand,
        ) && same_cards(&self.state.deck, &other.state.deck)
    }
}

} // verus!
