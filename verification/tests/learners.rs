use combat_sim::canonical::{canonical_key, sort_cards};
use combat_sim::card::Card;
use combat_sim::episode::gamble_state;
use combat_sim::heuristic::{plan_move, simulate, HeuristicMove};
use combat_sim::mcts::{MctsTable, QEntry, Step, TableEntry};
use combat_sim::policy::{action_rows, encode_1_hot, signed_reward, NUM_FEATURES, PASS_ROW};
use combat_sim::state::{CombatError, GameState};
use rand::rngs::StdRng;
use rand::SeedableRng;

fn state(hand: Vec<Card>, deck: Vec<Card>) -> GameState {
    GameState {
        life: 40,
        weak: 0,
        energy: 5,
        hand,
        deck,
        intangible: false,
        heart_dmg: 46,
        attacks_played: 0,
    }
}

#[test]
fn heuristic_rules_in_order() {
    let mut s = state(vec![Card::LegSweep, Card::App, Card::Neutralize], vec![]);
    assert_eq!(plan_move(&s), HeuristicMove::Play(Card::App));
    s.energy = 0;
    assert_eq!(plan_move(&s), HeuristicMove::Play(Card::Neutralize));
    s.weak = 1;
    assert_eq!(plan_move(&s), HeuristicMove::Play(Card::Neutralize));
    s.hand = vec![Card::LegSweep, Card::Defend, Card::Defend];
    s.energy = 2;
    assert_eq!(plan_move(&s), HeuristicMove::DefendTwice);
    s.weak = 0;
    assert_eq!(plan_move(&s), HeuristicMove::Play(Card::LegSweep));
    s.hand = vec![Card::CC, Card::Defend, Card::DaggerThrow];
    assert_eq!(plan_move(&s), HeuristicMove::Play(Card::CC));
    s.weak = 2;
    assert_eq!(plan_move(&s), HeuristicMove::Play(Card::Defend));
    s.energy = 1;
    assert_eq!(plan_move(&s), HeuristicMove::Play(Card::DaggerThrow));
    s.hand = vec![Card::Expertise, Card::Cost1Attack];
    assert_eq!(plan_move(&s), HeuristicMove::Play(Card::Expertise));
    s.hand = vec![Card::Cost1Attack, Card::HeelHook, Card::WLP];
    assert_eq!(plan_move(&s), HeuristicMove::Stop);
    s.attacks_played = 2;
    assert_eq!(plan_move(&s), HeuristicMove::Play(Card::Cost1Attack));
    s.energy = 0;
    assert_eq!(plan_move(&s), HeuristicMove::Stop);
}

#[test]
fn heuristic_plays_a_turn_out() {
    // Neutralize, CC is skipped once weak, Defend while energy is above 1.
    let mut s = state(vec![Card::Defend, Card::Neutralize, Card::CC, Card::Defend], vec![Card::Void]);
    s.energy = 3;
    s.life = 60;
    assert_eq!(simulate(&mut s), Ok(true));
    assert_eq!(s.hand, vec![Card::CC]);
    assert_eq!(s.weak, 1);
    assert_eq!(s.energy, 1);
    // 60, three plays at one life each, two blocks of 9, and 51 damage.
    assert_eq!(s.life, 60 - 3 + 18);
    assert_eq!(s.survive(), Some(75 - 51));
}

#[test]
fn heuristic_blocks_twice_with_the_last_two_energy() {
    let mut s = state(vec![Card::Defend, Card::LegSweep, Card::Defend], vec![]);
    s.energy = 2;
    s.weak = 1;
    s.life = 30;
    assert_eq!(simulate(&mut s), Ok(false));
    assert_eq!(s.hand, vec![Card::LegSweep]);
    assert_eq!(s.energy, 0);
    assert_eq!(s.life, 30 - 2 + 18);
    assert_eq!(s.survive(), None);
}

#[test]
fn heuristic_stops_where_the_deck_runs_out() {
    let mut s = state(vec![Card::Expertise, Card::WLP], vec![Card::Slimed]);
    let before = s.clone();
    assert_eq!(simulate(&mut s), Err(CombatError::EmptyDeck));
    assert_eq!(s, before);
}

#[test]
fn heuristic_finishes_fresh_episodes() {
    let mut wins = 0;
    for seed in 0..200 {
        let mut s = gamble_state(&mut StdRng::seed_from_u64(seed));
        let outcome = simulate(&mut s);
        assert!(s.is_wf());
        assert!(s.energy >= 0);
        assert_eq!(plan_move(&s), HeuristicMove::Stop);
        if outcome == Ok(true) {
            wins += 1;
        }
        assert_eq!(outcome, Ok(s.survive().is_some()));
    }
    assert!(wins > 0);
}

#[test]
fn one_hot_sets_the_flag_of_the_value() {
    let mut flags = vec![true];
    encode_1_hot(2, 3, &mut flags);
    assert_eq!(flags, vec![true, false, false, true, false]);
    encode_1_hot(7, 1, &mut flags);
    assert_eq!(flags, vec![true, false, false, true, false, false, false]);
    encode_1_hot(0, -1, &mut flags);
    assert_eq!(flags.len(), 7);
    encode_1_hot(0, 0, &mut flags);
    assert_eq!(flags.len(), 8);
    assert!(flags[7]);
}

#[test]
fn features_of_a_state() {
    let mut s = state(vec![Card::Defend, Card::CC], vec![Card::App]);
    s.energy = 3;
    s.attacks_played = 1;
    s.life = 80;
    let f = s.features();
    assert_eq!(f.life_after_hit, 80 - 69);
    assert_eq!(f.flags.len(), NUM_FEATURES - 1);
    let mut expected = vec![true];
    expected.extend([false, false, false, true, false, false]);
    expected.extend([false, false, true, false, false, false, false]);
    expected.extend([true, false]);
    expected.extend([false, true, false]);
    expected.extend([true, false]);
    assert_eq!(f.flags, expected);
    s.intangible = true;
    s.weak = 2;
    s.energy = 6;
    let f = s.features();
    assert_eq!(f.life_after_hit, 79);
    assert_eq!(&f.flags[1..7], &[false; 6]);
    assert_eq!(&f.flags[14..16], &[false, true]);
    assert_eq!(&f.flags[19..21], &[false, true]);
}

#[test]
fn action_rows_follow_the_cards() {
    let s = state(vec![Card::CC, Card::Void, Card::Neutralize, Card::Defend], vec![]);
    let actions = s.playable_actions();
    assert_eq!(action_rows(&s, &actions), vec![3, 8, 0, PASS_ROW]);
    assert_eq!(action_rows(&s, &vec![]), vec![14]);
}

#[test]
fn rewards_of_the_learners() {
    assert_eq!(signed_reward(true), 1);
    assert_eq!(signed_reward(false), -1);
}

#[test]
fn sort_cards_puts_cards_in_catalog_order() {
    let cards = vec![Card::Void, Card::Defend, Card::App, Card::Defend, Card::CC, Card::App];
    assert_eq!(
        sort_cards(&cards),
        vec![Card::Defend, Card::Defend, Card::CC, Card::App, Card::App, Card::Void]
    );
    assert_eq!(sort_cards(&vec![]), Vec::<Card>::new());
}

#[test]
fn canonical_key_ignores_the_order_of_cards() {
    let a = state(vec![Card::CC, Card::Defend, Card::App], vec![Card::Void, Card::WLP]);
    let b = state(vec![Card::App, Card::CC, Card::Defend], vec![Card::WLP, Card::Void]);
    let ka = canonical_key(&a);
    let kb = canonical_key(&b);
    assert!(ka.same(&kb));
    assert_eq!(ka.state(), kb.state());
    assert_eq!(ka.state().hand, vec![Card::Defend, Card::CC, Card::App]);
    assert_eq!(ka.state().deck, vec![Card::WLP, Card::Void]);
    assert_eq!(ka.state().life, 40);
    let mut table = MctsTable::new();
    table.ensure_entry(ka, 4);
    table.ensure_entry(kb, 4);
    assert_eq!(table.len(), 1);
}

#[test]
fn equal_keys_have_equal_hashes() {
    let a = state(vec![Card::CC, Card::Defend, Card::App], vec![Card::Void, Card::WLP]);
    let b = state(vec![Card::App, Card::CC, Card::Defend], vec![Card::WLP, Card::Void]);
    assert_eq!(canonical_key(&a).hash_code(), canonical_key(&b).hash_code());
    assert_eq!(canonical_key(&a).hash_code(), canonical_key(&a).clone().hash_code());
    // Hand and deck are told apart, and so are the counters.
    let c = state(vec![Card::CC, Card::Defend], vec![Card::App, Card::Void, Card::WLP]);
    assert_ne!(canonical_key(&a).hash_code(), canonical_key(&c).hash_code());
    let mut d = a.clone();
    d.life = 41;
    assert_ne!(canonical_key(&a).hash_code(), canonical_key(&d).hash_code());
    // No cards at all and every counter at zero.
    let mut e = state(vec![], vec![]);
    e.life = 0;
    e.energy = 0;
    e.heart_dmg = 0;
    let lifted: u128 = 0x8000_0000;
    let modulus: u128 = 2_305_843_009_213_693_951;
    let mut h: u128 = 0;
    for x in [lifted, lifted, lifted, 0, lifted, lifted, 0] {
        h = (h * 31 + x) % modulus;
    }
    assert_eq!(canonical_key(&e).hash_code() as u128, h);
}

#[test]
fn table_holds_many_states() {
    let mut table = MctsTable::new();
    let mut keys = Vec::new();
    for life in 0..300 {
        let mut s = state(vec![Card::CC, Card::Defend], vec![Card::Void]);
        s.life = life;
        keys.push(canonical_key(&s));
    }
    for (i, key) in keys.iter().enumerate() {
        table.ensure_entry(key.clone(), i % 4 + 1);
    }
    assert_eq!(table.len(), 300);
    let trajectory: Vec<Step> =
        keys.iter().map(|key| Step { key: key.clone(), action: 0 }).collect();
    table.backup(&trajectory, true);
    for (i, key) in keys.iter().enumerate() {
        let e = table.get(key).unwrap();
        assert_eq!(e.visits, 1);
        assert_eq!(e.actions.len(), i % 4 + 1);
        assert_eq!(e.actions[0], QEntry { visits: 1, reward: 1 });
    }
    assert_eq!(table.len(), 300);
}

#[test]
fn sort_hand_orders_the_hand_only() {
    let mut s = state(vec![Card::Void, Card::CC, Card::Defend, Card::CC], vec![Card::Void, Card::App]);
    let key = canonical_key(&s);
    s.sort_hand();
    assert_eq!(s.hand, vec![Card::Defend, Card::CC, Card::CC, Card::Void]);
    assert_eq!(s.deck, vec![Card::Void, Card::App]);
    assert_eq!(s.life, 40);
    assert_eq!(s.energy, 5);
    assert!(key.same(&canonical_key(&s)));
    assert_eq!(s.playable_actions(), vec![0, 1, 2]);
}

#[test]
fn canonical_key_tells_states_apart() {
    let a = state(vec![Card::CC, Card::Defend], vec![Card::Void]);
    let key = canonical_key(&a);
    assert!(key.same(&key.clone()));
    let mut b = a.clone();
    b.energy = 4;
    assert!(!key.same(&canonical_key(&b)));
    let mut b = a.clone();
    b.intangible = true;
    assert!(!key.same(&canonical_key(&b)));
    let b = state(vec![Card::CC, Card::Void], vec![Card::Defend]);
    assert!(!key.same(&canonical_key(&b)));
    let b = state(vec![Card::CC, Card::Defend, Card::Defend], vec![Card::Void]);
    assert!(!key.same(&canonical_key(&b)));
}

fn entry(stats: &[(u64, u64)]) -> TableEntry {
    TableEntry {
        visits: stats.iter().map(|s| s.0).sum(),
        actions: stats.iter().map(|s| QEntry { visits: s.0, reward: s.1 }).collect(),
    }
}

#[test]
fn untried_actions_come_first() {
    let e = TableEntry::new(3);
    assert_eq!(e.visits, 0);
    assert_eq!(e.actions, vec![QEntry { visits: 0, reward: 0 }; 3]);
    assert_eq!(e.select_ucb1(&vec![]), Some(0));
    let e = entry(&[(2, 1), (0, 0), (0, 0)]);
    assert_eq!(e.select_ucb1(&vec![9, 1, 5]), Some(1));
    let e = entry(&[(2, 1), (1, 0), (0, 0)]);
    assert_eq!(e.select_ucb1(&vec![9, 1]), Some(2));
}

#[test]
fn tried_actions_go_by_the_first_highest_score() {
    let e = entry(&[(2, 1), (1, 0), (4, 4)]);
    assert_eq!(e.select_ucb1(&vec![3, 7, 5]), Some(1));
    assert_eq!(e.select_ucb1(&vec![7, 7, 5]), Some(0));
    assert_eq!(e.select_ucb1(&vec![1, 7, 7]), Some(1));
    assert_eq!(e.select_ucb1(&vec![0, 0, 0]), Some(0));
    assert_eq!(e.select_ucb1(&vec![0, 0, u64::MAX]), Some(2));
}

#[test]
fn no_choice_without_actions_or_scores() {
    assert_eq!(TableEntry::new(0).select_ucb1(&vec![]), None);
    let e = entry(&[(2, 1), (1, 0)]);
    assert_eq!(e.select_ucb1(&vec![3]), None);
    assert_eq!(e.select_ucb1(&vec![3, 4, 5]), None);
}

#[test]
fn table_keeps_one_entry_for_each_state() {
    let a = canonical_key(&state(vec![Card::CC], vec![]));
    let b = canonical_key(&state(vec![Card::Defend], vec![]));
    let mut table = MctsTable::new();
    assert_eq!(table.len(), 0);
    assert_eq!(table.get(&a), None);
    table.ensure_entry(a.clone(), 2);
    assert_eq!(table.len(), 1);
    assert_eq!(table.get(&a), Some(&TableEntry::new(2)));
    assert_eq!(table.get(&b), None);
    table.ensure_entry(b.clone(), 3);
    table.ensure_entry(a.clone(), 5);
    assert_eq!(table.len(), 2);
    assert_eq!(table.get(&a), Some(&TableEntry::new(2)));
    assert_eq!(table.get(&b), Some(&TableEntry::new(3)));
}

#[test]
fn backup_credits_every_decision() {
    let a = canonical_key(&state(vec![Card::CC], vec![]));
    let b = canonical_key(&state(vec![Card::Defend], vec![]));
    let c = canonical_key(&state(vec![Card::App], vec![]));
    let mut table = MctsTable::new();
    table.ensure_entry(a.clone(), 2);
    table.ensure_entry(b.clone(), 3);
    let won = vec![
        Step { key: a.clone(), action: 0 },
        Step { key: b.clone(), action: 2 },
    ];
    table.backup(&won, true);
    assert_eq!(table.get(&a), Some(&entry(&[(1, 1), (0, 0)])));
    assert_eq!(table.get(&b), Some(&entry(&[(0, 0), (0, 0), (1, 1)])));
    let lost = vec![
        Step { key: a.clone(), action: 1 },
        Step { key: c.clone(), action: 0 },
        Step { key: b.clone(), action: 2 },
        Step { key: b.clone(), action: 3 },
    ];
    table.backup(&lost, false);
    assert_eq!(table.get(&a), Some(&entry(&[(1, 1), (1, 0)])));
    assert_eq!(table.get(&b), Some(&entry(&[(0, 0), (0, 0), (2, 1)])));
    assert_eq!(table.get(&c), None);
    assert_eq!(table.len(), 2);
    table.backup(&vec![], true);
    assert_eq!(table.get(&a), Some(&entry(&[(1, 1), (1, 0)])));
}

#[test]
fn take_action_plays_or_passes() {
    let mut s = state(vec![Card::CC, Card::Void, Card::Defend], vec![]);
    let actions = s.playable_actions();
    assert_eq!(actions, vec![0, 2]);
    let before = s.clone();
    assert_eq!(s.take_action(&actions, 2), Ok(false));
    assert_eq!(s, before);
    assert_eq!(s.take_action(&actions, 1), Ok(true));
    assert_eq!(s.hand, vec![Card::CC, Card::Void]);
    assert_eq!(s.life, 48);
    s.energy = 0;
    let before = s.clone();
    assert_eq!(s.take_action(&vec![0], 0), Err(CombatError::InsufficientEnergy));
    assert_eq!(s, before);
}

#[test]
fn search_turn_by_hand() {
    // One turn of the search with every action untried: the first action is
    // taken in each state, and the result is credited to each decision.
    let mut table = MctsTable::new();
    let mut s = state(vec![Card::Defend, Card::Defend], vec![]);
    s.energy = 1;
    s.life = 62;
    let mut trajectory = Vec::new();
    loop {
        let actions = s.playable_actions();
        let key = canonical_key(&s);
        table.ensure_entry(key.clone(), actions.len() + 1);
        let chosen = table.get(&key).unwrap().select_ucb1(&vec![]).unwrap();
        trajectory.push(Step { key, action: chosen });
        if !s.take_action(&actions, chosen).unwrap() {
            break;
        }
    }
    assert_eq!(trajectory.len(), 2);
    assert_eq!(trajectory[0].action, 0);
    assert_eq!(trajectory[1].action, 0);
    let survived = s.survive().is_some();
    assert!(survived);
    table.backup(&trajectory, survived);
    assert_eq!(table.len(), 2);
    assert_eq!(table.get(&trajectory[0].key), Some(&entry(&[(1, 1), (0, 0), (0, 0)])));
    assert_eq!(table.get(&trajectory[1].key), Some(&entry(&[(1, 1)])));
}

#[test]
fn total_reward_adds_the_actions_up() {
    assert_eq!(TableEntry::new(4).total_reward(), 0);
    assert_eq!(TableEntry::new(0).total_reward(), 0);
    assert_eq!(entry(&[(2, 1), (1, 0), (4, 4)]).total_reward(), 5);
    assert_eq!(entry(&[(u64::MAX - 1, u64::MAX - 1), (1, 1)]).total_reward(), u64::MAX);
}

fn ucb_scores(e: &TableEntry, explore_factor: f64) -> Vec<u64> {
    if e.actions.iter().any(|q| q.visits == 0) {
        return vec![0; e.actions.len()];
    }
    let total = (e.visits as f64).ln();
    e.actions
        .iter()
        .map(|q| {
            let visits = q.visits as f64;
            ((q.reward as f64) / visits + (explore_factor * total / visits).sqrt()).to_bits()
        })
        .collect()
}

fn rollout(s: &mut GameState, table: &mut MctsTable) -> bool {
    let mut trajectory = Vec::new();
    loop {
        s.sort_hand();
        let actions = s.playable_actions();
        let key = canonical_key(s);
        table.ensure_entry(key.clone(), actions.len() + 1);
        let e = table.get(&key).unwrap();
        let chosen = e.select_ucb1(&ucb_scores(e, 2.0)).unwrap();
        trajectory.push(Step { key, action: chosen });
        if !s.take_action(&actions, chosen).unwrap() {
            break;
        }
    }
    let survived = s.survive().is_some();
    table.backup(&trajectory, survived);
    survived
}

fn search_from(start: &GameState, rollouts: u64) -> (u64, TableEntry) {
    let mut table = MctsTable::new();
    let mut wins = 0;
    for _ in 0..rollouts {
        let mut s = start.clone();
        if rollout(&mut s, &mut table) {
            wins += 1;
        }
    }
    let root = table.get(&canonical_key(start)).unwrap().clone();
    (wins, root)
}

#[test]
fn search_estimate_where_every_turn_is_survived() {
    let mut start = state(
        vec![Card::Defend, Card::CC, Card::Neutralize, Card::DaggerThrow],
        vec![Card::WLP, Card::Void, Card::Cost1Attack],
    );
    start.life = 200;
    let (wins, root) = search_from(&start, 300);
    assert_eq!(wins, 300);
    assert_eq!(root.visits, 300);
    assert_eq!(root.total_reward(), 300);
    assert_eq!(root.actions.len(), 5);
    assert_eq!(root.actions.iter().map(|q| q.visits).sum::<u64>(), 300);
    assert!(root.actions.iter().all(|q| q.visits > 0 && q.reward == q.visits));
    let mut s = start.clone();
    assert_eq!(simulate(&mut s), Ok(true));
}

#[test]
fn search_estimate_where_no_turn_is_survived() {
    let mut start = state(
        vec![Card::Defend, Card::CC, Card::Neutralize, Card::DaggerThrow],
        vec![Card::WLP, Card::Void, Card::Cost1Attack],
    );
    start.life = 5;
    let (wins, root) = search_from(&start, 300);
    assert_eq!(wins, 0);
    assert_eq!(root.visits, 300);
    assert_eq!(root.total_reward(), 0);
    assert!(root.actions.iter().all(|q| q.visits > 0 && q.reward == 0));
    let mut s = start.clone();
    assert_eq!(simulate(&mut s), Ok(false));
}

#[test]
fn search_finds_the_play_that_survives() {
    // Only the play of App survives: 10 life against 69 damage.
    let mut start = state(vec![Card::Defend, Card::App, Card::Slimed], vec![Card::WLP]);
    start.life = 10;
    start.energy = 1;
    let (wins, root) = search_from(&start, 400);
    assert_eq!(root.visits, 400);
    assert_eq!(root.total_reward(), wins);
    // Actions: Defend, App, Slimed, pass.
    assert_eq!(root.actions.len(), 4);
    assert_eq!(root.actions[1].reward, root.actions[1].visits);
    assert_eq!(root.actions[0].reward, 0);
    assert_eq!(root.actions[2].reward, 0);
    assert_eq!(root.actions[3].reward, 0);
    assert!(root.actions[1].visits > 300);
    let mut s = start.clone();
    assert_eq!(simulate(&mut s), Ok(true));
}
