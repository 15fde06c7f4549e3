//! The episode deck: a fixed composition of cards, put in random order once
//! per episode and then consumed from its end.

use crate::card::Card;
use crate::seq_facts::lemma_update_to_multiset;
use rand::rngs::StdRng;
use rand::RngCore;
use vstd::prelude::*;

verus! {

/// The generator that every random choice of an episode is taken from. Its
/// state is not modelled.
#[verifier::external_type_specification]
#[verifier::external_body]
pub struct ExStdRng(StdRng);

/// The next 64 bits of the generator, by `RngCore::next_u64` on `StdRng`.
/// Nothing is claimed of the value: callers are proved for every `u64`.
#[verifier::external_body]
fn next_u64(rng: &mut StdRng) -> u64 {
    rng.next_u64()
}

/// Number of cards in the deck of one episode.
pub const DECK_SIZE: usize = 18;

/// The cards of one episode, before they are shuffled.
pub open spec fn composition() -> Seq<Card> {
    seq![
        Card::Defend,
        Card::DaggerThrow,
        Card::WLP,
        Card::CC,
        Card::HeelHook,
        Card::LegSweep,
        Card::Expertise,
        Card::Cost1Attack,
        Card::Neutralize,
        Card::Cost1Attack,
        Card::Defend,
        Card::Defend,
        Card::App,
        Card::PWail,
        Card::Slimed,
        Card::Unplayable,
        Card::Unplayable,
        Card::Void,
    ]
}

/// `s` with the items at positions `i` and `j` exchanged.
pub open spec fn swapped<T>(s: Seq<T>, i: int, j: int) -> Seq<T> {
    s.update(i, s[j]).update(j, s[i])
}

/// The order that a shuffle gives `s` when the generator hands out `picks`:
/// for each position `i` from 1 on, in turn, the item there changes places
/// with the one at `picks[i - 1] % (i + 1)`.
pub open spec fn shuffled<T>(s: Seq<T>, picks: Seq<u64>) -> Seq<T>
    decreases picks.len(),
{
    if picks.len() == 0 {
        s
    } else {
        let i = picks.len() as int;
        swapped(shuffled(s, picks.drop_last()), i, picks.last() as int % (i + 1))
    }
}

/// How many numbers a shuffle of `len` items takes from the generator.
pub open spec fn picks_needed(len: nat) -> nat {
    if len == 0 {
        0
    } else {
        (len - 1) as nat
    }
}

/// A shuffle rearranges: it keeps the length and, item by item, how often each
/// item occurs.
pub proof fn lemma_shuffled_is_permutation<T>(s: Seq<T>, picks: Seq<u64>)
    requires
        picks.len() <= picks_needed(s.len()),
    ensures
        shuffled(s, picks).len() == s.len(),
        shuffled(s, picks).to_multiset() == s.to_multiset(),
    decreases picks.len(),
{
    if picks.len() > 0 {
        let i = picks.len() as int;
        let j = picks.last() as int % (i + 1);
        let prev = shuffled(s, picks.drop_last());
        lemma_shuffled_is_permutation(s, picks.drop_last());
        lemma_swapped_is_permutation(prev, i, j);
    }
}

/// Exchanging two items keeps how often each item occurs.
pub proof fn lemma_swapped_is_permutation<T>(s: Seq<T>, i: int, j: int)
    requires
        0 <= i < s.len(),
        0 <= j < s.len(),
    ensures
        swapped(s, i, j).len() == s.len(),
        swapped(s, i, j).to_multiset() == s.to_multiset(),
{
    broadcast use vstd::seq_lib::group_to_multiset_ensures;
    let mid = s.update(i, s[j]);
    lemma_update_to_multiset(s, i, s[j]);
    lemma_update_to_multiset(mid, j, s[i]);
    assert(s.to_multiset().count(s[i]) > 0 && s.to_multiset().count(s[j]) > 0) by {
        assert(s.contains(s[i]) && s.contains(s[j]));
    }
    assert(swapped(s, i, j).to_multiset() =~= s.to_multiset());
}

/// Puts `deck` in the order that a shuffle gives it when the generator hands
/// out `picks`. Fewer numbers than a full shuffle takes leave the cards after
/// the last position that a number was taken for where they are.
pub fn shuffle_with(deck: &mut Vec<Card>, picks: &Vec<u64>)
    requires
        picks@.len() <= picks_needed(old(deck)@.len()),
    ensures
        final(deck)@ == shuffled(old(deck)@, picks@),
        final(deck)@.len() == old(deck)@.len(),
        final(deck)@.to_multiset() == old(deck)@.to_multiset(),
{
    let n: usize = picks.len();
    let len: usize = deck.len();
    let mut k: usize = 0;
    assert(picks@.take(0) =~= Seq::<u64>::empty());
    while k < n
        invariant
            k <= n,
            n == picks@.len(),
            n <= picks_needed(old(deck)@.len()),
            len == old(deck)@.len(),
            deck@.len() == old(deck)@.len(),
            deck@ == shuffled(old(deck)@, picks@.take(k as int)),
        decreases n - k,
    {
        let i: usize = k + 1;
        let j: usize = (picks[k] % (i as u64 + 1)) as usize;
        let a: Card = deck[i];
        let b: Card = deck[j];
        deck.set(i, b);
        deck.set(j, a);
        proof {
            assert(picks@.take(k + 1).drop_last() =~= picks@.take(k as int));
            assert(picks@.take(k + 1).last() == picks@[k as int]);
            assert(deck@ == swapped(
                shuffled(old(deck)@, picks@.take(k as int)),
                i as int,
                j as int,
            ));
        }
        k += 1;
    }
    proof {
        assert(picks@.take(n as int) =~= picks@);
        lemma_shuffled_is_permutation(old(deck)@, picks@);
    }
}

/// Shuffles `deck` with numbers that `rng` hands out, one for each position
/// after the first.
pub fn shuffle(deck: &mut Vec<Card>, rng: &mut StdRng)
    ensures
        exists|picks: Seq<u64>|
            picks.len() == picks_needed(old(deck)@.len()) && final(deck)@ == #[trigger] shuffled(
                old(deck)@,
                picks,
            ),
        final(deck)@.len() == old(deck)@.len(),
        final(deck)@.to_multiset() == old(deck)@.to_multiset(),
{
    let mut picks: Vec<u64> = Vec::new();
    let n: usize = deck.len();
    let mut i: usize = 1;
    while i < n
        invariant
            1 <= i,
            n == deck@.len(),
            deck@ == old(deck)@,
            picks@.len() + 1 == i,
            n > 0 ==> i <= n,
            n == 0 ==> i == 1,
        decreases n - i,
    {
        picks.push(next_u64(rng));
        i += 1;
    }
    shuffle_with(deck, &picks);
}

/// The cards of one episode in the order of `composition`.
pub fn standard_deck() -> (deck: Vec<Card>)
    ensures
        deck@ == composition(),
{
    let deck: Vec<Card> = vec![
        Card::Defend,
        Card::DaggerThrow,
        Card::WLP,
        Card::CC,
        Card::HeelHook,
        Card::LegSweep,
        Card::Expertise,
        Card::Cost1Attack,
        Card::Neutralize,
        Card::Cost1Attack,
        Card::Defend,
        Card::Defend,
        Card::App,
        Card::PWail,
        Card::Slimed,
        Card::Unplayable,
        Card::Unplayable,
        Card::Void,
    ];
    assert(deck@ =~= composition());
    deck
}

/// A fresh deck for one episode: the fixed composition in a random order.
pub fn create_draw_pile(rng: &mut StdRng) -> (draw_pile: Vec<Card>)
    ensures
        exists|picks: Seq<u64>|
            picks.len() == picks_needed(DECK_SIZE as nat) && draw_pile@ == #[trigger] shuffled(
                composition(),
                picks,
            ),
        draw_pile@.len() == DECK_SIZE,
        draw_pile@.to_multiset() == composition().to_multiset(),
{
    let mut draw_pile: Vec<Card> = standard_deck();
    shuffle(&mut draw_pile, rng);
    draw_pile
}

} // verus!
