use combat_sim::card::{Card, NUM_CARDS};
use combat_sim::deck::{create_draw_pile, shuffle, shuffle_with, standard_deck, DECK_SIZE};
use combat_sim::episode::{dash_state, gamble_state, EpisodeConfig};
use combat_sim::state::{CombatError, GameState};
use rand::rngs::StdRng;
use rand::SeedableRng;

const CATALOG: [Card; 14] = [
    Card::Defend,
    Card::DaggerThrow,
    Card::WLP,
    Card::CC,
    Card::HeelHook,
    Card::LegSweep,
    Card::Expertise,
    Card::Cost1Attack,
    Card::Neutralize,
    Card::App,
    Card::PWail,
    Card::Slimed,
    Card::Unplayable,
    Card::Void,
];

fn composition() -> Vec<Card> {
    vec![
        Card::Defend,
        Card::DaggerThrow,
        Card::WLP,
        Card::CC,
        Card::HeelHook,
        Card::LegSweep,
        Card::Expertise,
        Card::Cost1Attack,
        Card::Neutralize,
        Card::Cost1Attack,
        Card::Defend,
        Card::Defend,
        Card::App,
        Card::PWail,
        Card::Slimed,
        Card::Unplayable,
        Card::Unplayable,
        Card::Void,
    ]
}

fn counts(cards: &[Card]) -> Vec<usize> {
    let mut counts = vec![0; NUM_CARDS];
    for card in cards {
        counts[card.index()] += 1;
    }
    counts
}

#[test]
fn card_costs() {
    let costs: Vec<Option<i32>> = CATALOG.iter().map(|c| c.energy()).collect();
    assert_eq!(
        costs,
        vec![
            Some(1),
            Some(1),
            Some(1),
            Some(2),
            Some(1),
            Some(2),
            Some(1),
            Some(1),
            Some(0),
            Some(1),
            Some(1),
            Some(1),
            None,
            None
        ]
    );
}

#[test]
fn card_block_weak_and_attack() {
    let block: Vec<i32> = CATALOG.iter().map(|c| c.block()).collect();
    assert_eq!(block, vec![9, 0, 0, 0, 0, 13, 0, 0, 0, 0, 0, 0, 0, 0]);
    let weak: Vec<i32> = CATALOG.iter().map(|c| c.weak()).collect();
    assert_eq!(weak, vec![0, 0, 0, 2, 0, 2, 0, 0, 1, 0, 0, 0, 0, 0]);
    let attack: Vec<bool> = CATALOG.iter().map(|c| c.is_attack()).collect();
    assert_eq!(
        attack,
        vec![
            false, true, false, false, true, false, false, true, true, false, false, false, false,
            false
        ]
    );
}

#[test]
fn card_discard_scores() {
    let scores: Vec<i32> = CATALOG.iter().map(|c| c.dont_discard_score()).collect();
    assert_eq!(scores, vec![50, 40, 20, 30, 10, 70, 20, 5, 25, 100, 15, 2, 1, 3]);
}

#[test]
fn catalog_positions_round_trip() {
    for (i, card) in CATALOG.iter().enumerate() {
        assert_eq!(card.index(), i);
        assert_eq!(Card::from_index(i), Some(*card));
    }
    assert_eq!(Card::from_index(NUM_CARDS), None);
    assert_eq!(Card::from_index(usize::MAX), None);
}

#[test]
fn draw_pile_holds_the_composition() {
    let mut rng = StdRng::seed_from_u64(11);
    let pile = create_draw_pile(&mut rng);
    assert_eq!(pile.len(), DECK_SIZE);
    assert_eq!(counts(&pile), counts(&composition()));
}

#[test]
fn shuffle_rearranges_by_the_generator() {
    let mut a = composition();
    let mut b = composition();
    let mut c = composition();
    shuffle(&mut a, &mut StdRng::seed_from_u64(1));
    shuffle(&mut b, &mut StdRng::seed_from_u64(1));
    shuffle(&mut c, &mut StdRng::seed_from_u64(2));
    assert_eq!(a, b);
    assert_ne!(a, c);
    assert_ne!(a, composition());
    assert_eq!(counts(&a), counts(&composition()));
    assert_eq!(counts(&c), counts(&composition()));
}

#[test]
fn shuffle_of_nothing_and_of_one_card() {
    let mut rng = StdRng::seed_from_u64(3);
    let mut none: Vec<Card> = vec![];
    shuffle(&mut none, &mut rng);
    assert_eq!(none, vec![]);
    let mut one = vec![Card::App];
    shuffle(&mut one, &mut rng);
    assert_eq!(one, vec![Card::App]);
}

#[test]
fn start_draws_the_opening_hand_from_the_top() {
    let config = EpisodeConfig { life: 30, energy: 2, heart_dmg: 10, hand_size: 3 };
    let deck = vec![Card::Defend, Card::CC, Card::Void, Card::App, Card::Void];
    let s = GameState::start(&config, deck).unwrap();
    assert_eq!(s.hand, vec![Card::Void, Card::App, Card::Void]);
    assert_eq!(s.deck, vec![Card::Defend, Card::CC]);
    assert_eq!(s.energy, 0);
    assert_eq!(s.life, 30);
    assert_eq!(s.weak, 0);
    assert_eq!(s.heart_dmg, 10);
    assert_eq!(s.attacks_played, 0);
    assert!(!s.intangible);
    assert!(s.is_wf());
}

#[test]
fn start_with_too_small_a_deck_is_refused() {
    let config = EpisodeConfig { life: 30, energy: 2, heart_dmg: 10, hand_size: 3 };
    assert_eq!(GameState::start(&config, vec![Card::Defend, Card::CC]), Err(CombatError::EmptyDeck));
}

#[test]
fn the_two_configurations() {
    assert_eq!(
        EpisodeConfig::dash(),
        EpisodeConfig { life: 51, energy: 3, heart_dmg: 46, hand_size: 4 }
    );
    assert_eq!(
        EpisodeConfig::gamble(),
        EpisodeConfig { life: 40, energy: 5, heart_dmg: 46, hand_size: 5 }
    );
}

#[test]
fn dash_state_deals_four_cards() {
    for seed in 0..50 {
        let mut rng = StdRng::seed_from_u64(seed);
        let s = dash_state(&mut rng);
        assert_eq!(s.hand.len(), 4);
        assert_eq!(s.deck.len(), 14);
        assert_eq!(s.life, 51);
        assert_eq!(s.heart_dmg, 46);
        assert_eq!(s.weak, 0);
        let voids = s.hand.iter().filter(|c| **c == Card::Void).count() as i32;
        assert_eq!(s.energy, 3 - voids);
        let mut all = s.hand.clone();
        all.extend(s.deck.iter().copied());
        assert_eq!(counts(&all), counts(&composition()));
        assert!(s.is_wf());
    }
}

#[test]
fn gamble_state_deals_five_cards() {
    for seed in 0..50 {
        let mut rng = StdRng::seed_from_u64(seed);
        let s = gamble_state(&mut rng);
        assert_eq!(s.hand.len(), 5);
        assert_eq!(s.deck.len(), 13);
        assert_eq!(s.life, 40);
        let voids = s.hand.iter().filter(|c| **c == Card::Void).count() as i32;
        assert_eq!(s.energy, 5 - voids);
        assert!(s.is_wf());
    }
}

#[test]
fn episodes_differ_with_the_seed() {
    let a = gamble_state(&mut StdRng::seed_from_u64(5));
    let b = gamble_state(&mut StdRng::seed_from_u64(5));
    assert_eq!(a, b);
    let mut differs = false;
    for seed in 6..16 {
        if gamble_state(&mut StdRng::seed_from_u64(seed)) != a {
            differs = true;
        }
    }
    assert!(differs);
}

#[test]
fn shuffle_with_follows_the_numbers() {
    let start = vec![Card::Defend, Card::CC, Card::App, Card::Void];
    let mut deck = start.clone();
    shuffle_with(&mut deck, &vec![0, 1, 3]);
    assert_eq!(deck, vec![Card::CC, Card::App, Card::Defend, Card::Void]);
    let mut deck = start.clone();
    shuffle_with(&mut deck, &vec![1, 2, 3]);
    assert_eq!(deck, start);
    let mut deck = start.clone();
    shuffle_with(&mut deck, &vec![0, 0, 0]);
    assert_eq!(deck, vec![Card::Void, Card::Defend, Card::CC, Card::App]);
    let mut deck = start.clone();
    shuffle_with(&mut deck, &vec![u64::MAX, u64::MAX - 1, 10]);
    // The remainders are 1, 2 and 2.
    assert_eq!(deck, vec![Card::Defend, Card::CC, Card::Void, Card::App]);
}

#[test]
fn shuffle_with_fewer_numbers_stops_early() {
    let mut deck = vec![Card::Defend, Card::CC, Card::App, Card::Void];
    shuffle_with(&mut deck, &vec![5, 7]);
    assert_eq!(deck, vec![Card::Defend, Card::App, Card::CC, Card::Void]);
    shuffle_with(&mut deck, &vec![]);
    assert_eq!(deck, vec![Card::Defend, Card::App, Card::CC, Card::Void]);
    let mut none: Vec<Card> = vec![];
    shuffle_with(&mut none, &vec![]);
    assert_eq!(none, vec![]);
}

#[test]
fn standard_deck_is_the_composition() {
    assert_eq!(standard_deck(), composition());
    assert_eq!(standard_deck().len(), DECK_SIZE);
    let mut deck = standard_deck();
    shuffle(&mut deck, &mut StdRng::seed_from_u64(21));
    assert_eq!(deck, create_draw_pile(&mut StdRng::seed_from_u64(21)));
}
