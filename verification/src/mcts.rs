//! The bookkeeping of the tree search: what it has learnt of each canonical
//! state, which action it tries next, and how the result of a finished turn is
//! credited to the decisions that led to it.

use crate::canonical::{key_hash, CanonicalKey};
use crate::state::GameView;
use std::collections::HashMap;
use vstd::prelude::*;

verus! {

/// What the search has learnt of one action in one state.
#[derive(Debug, Clone, Copy, PartialEq, Eq)]
pub struct QEntry {
    /// How often the action was chosen.
    pub visits: u64,
    /// The rewards of the turns on which it was chosen, added up.
    pub reward: u64,
}

/// What the search has learnt of one state. The actions are the playable
/// hand positions in rising order, and passing as the last.
#[derive(Debug, Clone, PartialEq, Eq)]
pub struct TableEntry {
    /// How often a decision was taken in the state.
    pub visits: u64,
    pub actions: Vec<QEntry>,
}

/// One decision of a turn: the state it was taken in and the action chosen.
#[derive(Debug, Clone)]
pub struct Step {
    pub key: CanonicalKey,
    pub action: usize,
}

/// A `QEntry` as mathematics sees it.
pub struct QView {
    pub visits: nat,
    pub reward: nat,
}

/// A `TableEntry` as mathematics sees it.
pub struct EntryView {
    pub visits: nat,
    pub actions: Seq<QView>,
}

impl View for QEntry {
    type V = QView;

    open spec fn view(&self) -> QView {
        QView { visits: self.visits as nat, reward: self.reward as nat }
    }
}

impl View for TableEntry {
    type V = EntryView;

    open spec fn view(&self) -> EntryView {
        EntryView {
            visits: self.visits as nat,
            actions: Seq::new(self.actions@.len(), |a: int| self.actions@[a]@),
        }
    }
}

/// The visits of the actions, added up.
pub open spec fn total_visits(actions: Seq<QView>) -> nat
    decreases actions.len(),
{
    if actions.len() == 0 {
        0
    } else {
        total_visits(actions.drop_last()) + actions.last().visits
    }
}

/// The rewards of the actions, added up.
pub open spec fn total_reward(actions: Seq<QView>) -> nat
    decreases actions.len(),
{
    if actions.len() == 0 {
        0
    } else {
        total_reward(actions.drop_last()) + actions.last().reward
    }
}

/// Actions that were never chosen have no visits and no reward between them.
pub proof fn lemma_totals_of_fresh(n_actions: nat)
    ensures
        total_visits(EntryView::fresh(n_actions).actions) == 0,
        total_reward(EntryView::fresh(n_actions).actions) == 0,
    decreases n_actions,
{
    if n_actions > 0 {
        lemma_totals_of_fresh((n_actions - 1) as nat);
        assert(EntryView::fresh(n_actions).actions.drop_last() =~= EntryView::fresh(
            (n_actions - 1) as nat,
        ).actions);
    }
}

/// Replacing one action changes the totals by what the action changes.
pub proof fn lemma_totals_of_update(actions: Seq<QView>, a: int, q: QView)
    requires
        0 <= a < actions.len(),
    ensures
        total_visits(actions.update(a, q)) == total_visits(actions) - actions[a].visits + q.visits,
        total_reward(actions.update(a, q)) == total_reward(actions) - actions[a].reward + q.reward,
    decreases actions.len(),
{
    if a == actions.len() - 1 {
        assert(actions.update(a, q).drop_last() =~= actions.drop_last());
    } else {
        lemma_totals_of_update(actions.drop_last(), a, q);
        assert(actions.update(a, q).drop_last() =~= actions.drop_last().update(a, q));
    }
}

/// The totals of the first actions are no more than the totals of all, and
/// no more reward was collected than there were visits, where that holds
/// action by action.
pub proof fn lemma_totals_of_prefix(actions: Seq<QView>, n: int)
    requires
        0 <= n <= actions.len(),
    ensures
        total_visits(actions.take(n)) <= total_visits(actions),
        (forall|a: int| 0 <= a < actions.len() ==> (#[trigger] actions[a]).reward
            <= actions[a].visits) ==> total_reward(actions.take(n)) <= total_visits(
            actions.take(n),
        ),
    decreases actions.len() - n,
{
    if n == actions.len() {
        assert(actions.take(n) =~= actions);
        lemma_reward_within_visits(actions);
    } else {
        lemma_totals_of_prefix(actions, n + 1);
        assert(actions.take(n + 1).drop_last() =~= actions.take(n));
        if forall|a: int| 0 <= a < actions.len() ==> (#[trigger] actions[a]).reward
            <= actions[a].visits {
            assert forall|a: int| 0 <= a < actions.take(n).len() implies (#[trigger] actions.take(
                n,
            )[a]).reward <= actions.take(n)[a].visits by {
                assert(actions.take(n)[a] == actions[a]);
            }
            lemma_reward_within_visits(actions.take(n));
        }
    }
}

/// Where no action has more reward than visits, the actions together have
/// no more reward than visits.
pub proof fn lemma_reward_within_visits(actions: Seq<QView>)
    ensures
        (forall|a: int| 0 <= a < actions.len() ==> (#[trigger] actions[a]).reward
            <= actions[a].visits) ==> total_reward(actions) <= total_visits(actions),
    decreases actions.len(),
{
    if actions.len() > 0 {
        lemma_reward_within_visits(actions.drop_last());
        if forall|a: int| 0 <= a < actions.len() ==> (#[trigger] actions[a]).reward
            <= actions[a].visits {
            assert forall|a: int| 0 <= a < actions.drop_last().len() implies (
            #[trigger] actions.drop_last()[a]).reward <= actions.drop_last()[a].visits by {
                assert(actions.drop_last()[a] == actions[a]);
            }
        }
    }
}

impl EntryView {
    /// The entry of a state that no decision was taken in yet.
    pub open spec fn fresh(n_actions: nat) -> EntryView {
        EntryView { visits: 0, actions: Seq::new(n_actions, |a: int| QView { visits: 0, reward: 0 }) }
    }

    /// The visits of the state are those of its actions together, and no
    /// action has collected more reward than it has visits, nor more visits
    /// than the state.
    pub open spec fn wf(self) -> bool {
        &&& total_visits(self.actions) == self.visits
        &&& forall|a: int|
            0 <= a < self.actions.len() ==> (#[trigger] self.actions[a]).reward
                <= self.actions[a].visits <= self.visits
    }

    /// The entry after one more decision for `action` that earned `reward`.
    pub open spec fn credited(self, action: int, reward: nat) -> EntryView
        recommends
            0 <= action < self.actions.len(),
    {
        EntryView {
            visits: self.visits + 1,
            actions: self.actions.update(
                action,
                QView {
                    visits: self.actions[action].visits + 1,
                    reward: self.actions[action].reward + reward,
                },
            ),
        }
    }

    /// Action `a` has not been tried, and every action before it has.
    pub open spec fn first_untried(self, a: int) -> bool {
        &&& 0 <= a < self.actions.len()
        &&& self.actions[a].visits == 0
        &&& forall|b: int| 0 <= b < a ==> self.actions[b].visits > 0
    }

    /// Every action has been tried.
    pub open spec fn all_tried(self) -> bool {
        forall|a: int| 0 <= a < self.actions.len() ==> self.actions[a].visits > 0
    }
}

/// `a` is the first position with the highest score.
pub open spec fn first_highest(scores: Seq<u64>, a: int) -> bool {
    &&& 0 <= a < scores.len()
    &&& forall|b: int| 0 <= b < scores.len() ==> scores[b] <= scores[a]
    &&& forall|b: int| 0 <= b < a ==> scores[b] < scores[a]
}

/// The reward that the search gives a finished turn: 1 if it was survived, 0
/// if not.
pub open spec fn rollout_reward(survived: bool) -> nat {
    if survived {
        1
    } else {
        0
    }
}

/// The table after one decision was credited. A decision in a state that the
/// table does not hold, or for an action that the state's entry does not
/// have, changes nothing.
pub open spec fn credit_step(
    table: Map<GameView, EntryView>,
    key: GameView,
    action: int,
    reward: nat,
) -> Map<GameView, EntryView> {
    if table.contains_key(key) && 0 <= action < table[key].actions.len() {
        table.insert(key, table[key].credited(action, reward))
    } else {
        table
    }
}

/// The table after every decision of a turn was credited with the turn's
/// reward.
pub open spec fn backed_up(table: Map<GameView, EntryView>, steps: Seq<Step>, reward: nat) -> Map<
    GameView,
    EntryView,
>
    decreases steps.len(),
{
    if steps.len() == 0 {
        table
    } else {
        credit_step(
            backed_up(table, steps.drop_last(), reward),
            steps.last().key@,
            steps.last().action as int,
            reward,
        )
    }
}

impl TableEntry {
    /// The entry of a state with `n_actions` actions in which no decision was
    /// taken yet.
    pub fn new(n_actions: usize) -> (entry: TableEntry)
        ensures
            entry@ == EntryView::fresh(n_actions as nat),
            entry@.wf(),
    {
        let mut actions: Vec<QEntry> = Vec::new();
        let mut a: usize = 0;
        while a < n_actions
            invariant
                a <= n_actions,
                actions@.len() == a,
                forall|b: int| 0 <= b < a ==> actions@[b]@ == (QView { visits: 0, reward: 0 }),
            decreases n_actions - a,
        {
            actions.push(QEntry { visits: 0, reward: 0 });
            a += 1;
        }
        let entry = TableEntry { visits: 0, actions };
        proof {
            assert(entry@.actions =~= EntryView::fresh(n_actions as nat).actions);
            lemma_totals_of_fresh(n_actions as nat);
        }
        entry
    }

    /// The rewards that the actions of the state have collected, together:
    /// the number of survived turns among those that passed through the
    /// state. Divided by the state's visits it is the state's share of
    /// survived turns.
    pub fn total_reward(&self) -> (total: u64)
        requires
            self@.wf(),
        ensures
            total == total_reward(self@.actions),
            total <= self.visits,
    {
        let n: usize = self.actions.len();
        let mut total: u64 = 0;
        let mut a: usize = 0;
        assert(self@.actions.take(0) =~= Seq::<QView>::empty());
        while a < n
            invariant
                a <= n,
                n == self.actions@.len(),
                self@.wf(),
                total == total_reward(self@.actions.take(a as int)),
            decreases n - a,
        {
            proof {
                lemma_totals_of_prefix(self@.actions, a + 1);
                assert(self@.actions.take(a + 1).drop_last() =~= self@.actions.take(a as int));
                assert(self@.actions.take(a + 1).last() == self.actions@[a as int]@);
            }
            total = total + self.actions[a].reward;
            a += 1;
        }
        proof {
            lemma_totals_of_prefix(self@.actions, n as int);
            assert(self@.actions.take(n as int) =~= self@.actions);
        }
        total
    }

    /// The action that the search takes next in the state: the first that was
    /// never tried, or, once all were tried, the first with the highest score.
    /// `scores` ranks the actions by their upper confidence bounds, a higher
    /// number for a higher bound; it is read only once all actions were tried.
    /// There is no choice in an entry without actions, nor among tried
    /// actions that `scores` does not match in number.
    pub fn select_ucb1(&self, scores: &Vec<u64>) -> (choice: Option<usize>)
        ensures
            match choice {
                Some(a) => {
                    ||| self@.first_untried(a as int)
                    ||| self@.all_tried() && scores@.len() == self@.actions.len() && first_highest(
                        scores@,
                        a as int,
                    )
                },
                None => self@.all_tried() && (self@.actions.len() == 0 || scores@.len()
                    != self@.actions.len()),
            },
    {
        let n: usize = self.actions.len();
        let mut a: usize = 0;
        while a < n
            invariant
                a <= n,
                n == self.actions@.len(),
                forall|b: int| 0 <= b < a ==> self@.actions[b].visits > 0,
            decreases n - a,
        {
            if self.actions[a].visits == 0 {
                return Some(a);
            }
            a += 1;
        }
        if n == 0 || scores.len() != n {
            return None;
        }
        let mut best: usize = 0;
        let mut a: usize = 1;
        while a < n
            invariant
                1 <= a <= n,
                n == scores@.len(),
                best < a,
                forall|b: int| 0 <= b < a ==> scores@[b] <= scores@[best as int],
                forall|b: int| 0 <= b < best ==> scores@[b] < scores@[best as int],
            decreases n - a,
        {
            if scores[a] > scores[best] {
                best = a;
            }
            a += 1;
        }
        Some(best)
    }
}

/// The states that share one hash, each with its entry.
struct Bucket {
    keys: Vec<CanonicalKey>,
    entries: Vec<TableEntry>,
}

impl View for Bucket {
    type V = Map<GameView, EntryView>;

    closed spec fn view(&self) -> Map<GameView, EntryView> {
        Map::new(
            |key: GameView| self.holds(key),
            |key: GameView| self.entries@[self.slot(key)]@,
        )
    }
}

impl Bucket {
    /// Some slot holds the key.
    spec fn holds(&self, key: GameView) -> bool {
        exists|i: int| 0 <= i < self.keys@.len() && self.keys@[i]@ == key
    }

    /// A slot that holds the key.
    spec fn slot(&self, key: GameView) -> int {
        choose|i: int| 0 <= i < self.keys@.len() && self.keys@[i]@ == key
    }

    /// Each state has one slot, and each entry is well-formed.
    spec fn wf(&self) -> bool {
        &&& self.keys@.len() == self.entries@.len()
        &&& forall|i: int, j: int|
            0 <= i < j < self.keys@.len() ==> self.keys@[i]@ != self.keys@[j]@
        &&& forall|i: int| 0 <= i < self.entries@.len() ==> (#[trigger] self.entries@[i])@.wf()
    }

    /// What slot `i` holds is what the view maps its key to.
    proof fn lemma_slot(&self, i: int)
        requires
            self.wf(),
            0 <= i < self.keys@.len(),
        ensures
            self@.contains_key(self.keys@[i]@),
            self.slot(self.keys@[i]@) == i,
            self@[self.keys@[i]@] == self.entries@[i]@,
    {
        let key = self.keys@[i]@;
        assert(self.holds(key));
        let j = self.slot(key);
        assert(0 <= j < self.keys@.len() && self.keys@[j]@ == key);
        if i < j {
            assert(self.keys@[i]@ != self.keys@[j]@);
        }
        if j < i {
            assert(self.keys@[j]@ != self.keys@[i]@);
        }
    }

    /// Every entry of a well-formed bucket is well-formed.
    proof fn lemma_entries_wf(&self, key: GameView)
        requires
            self.wf(),
            self@.contains_key(key),
        ensures
            self@[key].wf(),
    {
        let i = self.slot(key);
        assert(self.holds(key));
        assert(self.entries@[i]@.wf());
    }

    fn new() -> (bucket: Bucket)
        ensures
            bucket.wf(),
            bucket@ == Map::<GameView, EntryView>::empty(),
    {
        let bucket = Bucket { keys: Vec::new(), entries: Vec::new() };
        assert(bucket@ =~= Map::<GameView, EntryView>::empty());
        bucket
    }

    /// The slot that holds the key, if one does.
    fn find(&self, key: &CanonicalKey) -> (found: Option<usize>)
        requires
            self.wf(),
        ensures
            match found {
                Some(i) => i < self.keys@.len() && self.keys@[i as int]@ == key@
                    && self@.contains_key(key@) && self@[key@] == self.entries@[i as int]@,
                None => !self@.contains_key(key@),
            },
    {
        let n: usize = self.keys.len();
        let mut i: usize = 0;
        while i < n
            invariant
                i <= n,
                n == self.keys@.len(),
                self.wf(),
                forall|j: int| 0 <= j < i ==> self.keys@[j]@ != key@,
            decreases n - i,
        {
            if self.keys[i].same(key) {
                proof {
                    self.lemma_slot(i as int);
                }
                return Some(i);
            }
            i += 1;
        }
        None
    }

    fn get(&self, key: &CanonicalKey) -> (entry: Option<&TableEntry>)
        requires
            self.wf(),
        ensures
            match entry {
                Some(e) => self@.contains_key(key@) && e@ == self@[key@] && e@.wf(),
                None => !self@.contains_key(key@),
            },
    {
        match self.find(key) {
            Some(i) => Some(&self.entries[i]),
            None => None,
        }
    }

    /// Gives the state a fresh entry unless it has one, and says whether it
    /// did.
    fn ensure_entry(&mut self, key: CanonicalKey, n_actions: usize) -> (added: bool)
        requires
            old(self).wf(),
        ensures
            final(self).wf(),
            added == !old(self)@.contains_key(key@),
            final(self)@ == if old(self)@.contains_key(key@) {
                old(self)@
            } else {
                old(self)@.insert(key@, EntryView::fresh(n_actions as nat))
            },
    {
        if self.find(&key).is_some() {
            return false;
        }
        let entry = TableEntry::new(n_actions);
        let ghost old_table = *self;
        let ghost k = key@;
        self.keys.push(key);
        self.entries.push(entry);
        proof {
            let last = old_table.keys@.len() as int;
            assert forall|i: int, j: int| 0 <= i < j < self.keys@.len() implies self.keys@[i]@
                != self.keys@[j]@ by {
                if j == last {
                    assert(old_table.keys@[i]@ == self.keys@[i]@);
                    if self.keys@[i]@ == k {
                        assert(old_table.holds(k));
                    }
                } else {
                    assert(old_table.keys@[i]@ == self.keys@[i]@);
                    assert(old_table.keys@[j]@ == self.keys@[j]@);
                }
            }
            assert(self.wf());
            assert forall|other: GameView| #[trigger]
                self@.contains_key(other) == old_table@.insert(
                    k,
                    EntryView::fresh(n_actions as nat),
                ).contains_key(other) by {
                if old_table.holds(other) {
                    let i = old_table.slot(other);
                    assert(self.keys@[i]@ == other);
                }
                if self.holds(other) {
                    let i = self.slot(other);
                    if i < last {
                        assert(old_table.keys@[i]@ == other);
                    }
                }
                self.lemma_slot(last);
            }
            assert forall|other: GameView| #[trigger] self@.contains_key(other) implies self@[other]
                == old_table@.insert(k, EntryView::fresh(n_actions as nat))[other] by {
                let i = self.slot(other);
                assert(self.holds(other));
                self.lemma_slot(i);
                if i < last {
                    assert(old_table.keys@[i]@ == other);
                    old_table.lemma_slot(i);
                    assert(old_table.entries@[i] == self.entries@[i]);
                }
            }
            assert(self@ =~= old_table@.insert(k, EntryView::fresh(n_actions as nat)));
        }
        true
    }

    /// Credits one decision with the reward of its turn.
    fn credit(&mut self, key: &CanonicalKey, action: usize, reward: u64)
        requires
            old(self).wf(),
            reward <= 1,
            old(self)@.contains_key(key@) ==> old(self)@[key@].visits < u64::MAX,
        ensures
            final(self).wf(),
            final(self)@ == credit_step(old(self)@, key@, action as int, reward as nat),
    {
        let found = self.find(key);
        if let Some(i) = found {
            if action < self.entries[i].actions.len() {
                let ghost old_table = *self;
                let ghost old_entry = self.entries@[i as int];
                let q: QEntry = self.entries[i].actions[action];
                assert(old_entry@.wf());
                assert(old_entry@.actions[action as int] == q@);
                let mut entry = TableEntry::new(0);
                std::mem::swap(&mut entry, &mut self.entries[i]);
                entry.visits = entry.visits + 1;
                entry.actions.set(
                    action,
                    QEntry { visits: q.visits + 1, reward: q.reward + reward },
                );
                assert(entry@.actions =~= old_entry@.credited(action as int, reward as nat).actions);
                assert(entry@ == old_entry@.credited(action as int, reward as nat));
                assert(entry@.wf()) by {
                    assert forall|a: int| 0 <= a < entry@.actions.len() implies (
                    #[trigger] entry@.actions[a]).reward <= entry@.actions[a].visits
                        <= entry@.visits by {
                        if a != action {
                            assert(entry@.actions[a] == old_entry@.actions[a]);
                        }
                    }
                    lemma_totals_of_update(
                        old_entry@.actions,
                        action as int,
                        entry@.actions[action as int],
                    );
                }
                self.entries.set(i, entry);
                proof {
                    assert(self.keys == old_table.keys);
                    assert(self.wf());
                    let target = old_table@.insert(
                        key@,
                        old_entry@.credited(action as int, reward as nat),
                    );
                    old_table.lemma_slot(i as int);
                    assert forall|other: GameView| #[trigger]
                        self@.contains_key(other) == target.contains_key(other) by {
                        assert(self.holds(other) == old_table.holds(other));
                    }
                    assert forall|other: GameView| #[trigger]
                        self@.contains_key(other) implies self@[other] == target[other] by {
                        let j = self.slot(other);
                        assert(self.holds(other));
                        self.lemma_slot(j);
                        old_table.lemma_slot(j);
                    }
                    assert(self@ =~= target);
                }
            }
        }
    }
}

/// What the search has learnt, state by state. Its view maps each canonical
/// state that the search has met to the state's entry.
pub struct MctsTable {
    /// The states by their hash.
    buckets: HashMap<u64, Bucket>,
    /// Number of states.
    states: usize,
}

impl View for MctsTable {
    type V = Map<GameView, EntryView>;

    closed spec fn view(&self) -> Map<GameView, EntryView> {
        Map::new(
            |key: GameView|
                self.buckets@.contains_key(key_hash(key)) && self.buckets@[key_hash(
                    key,
                )]@.contains_key(key),
            |key: GameView| self.buckets@[key_hash(key)]@[key],
        )
    }
}

impl MctsTable {
    /// The table is in order within, its states are finitely many, and it has
    /// their number at hand.
    pub closed spec fn wf(&self) -> bool {
        &&& forall|h: u64| self.buckets@.contains_key(h) ==> (#[trigger] self.buckets@[h]).wf()
        &&& self@.dom().finite()
        &&& self.states == self@.dom().len()
    }

    /// Every entry of a well-formed table is well-formed.
    pub proof fn lemma_entries_wf(&self, key: GameView)
        requires
            self.wf(),
            self@.contains_key(key),
        ensures
            self@[key].wf(),
    {
        self.buckets@[key_hash(key)].lemma_entries_wf(key);
    }

    /// What the table maps a state to once the bucket of the hash `h` was
    /// exchanged: states with that hash are looked up in the new bucket,
    /// the others as before.
    proof fn lemma_bucket_exchanged(&self, before: &MctsTable, h: u64, bucket: Bucket)
        requires
            self.buckets@ == before.buckets@.insert(h, bucket),
        ensures
            forall|key: GameView|
                key_hash(key) == h ==> #[trigger] self@.contains_key(key) == bucket@.contains_key(
                    key,
                ),
            forall|key: GameView|
                key_hash(key) == h && bucket@.contains_key(key) ==> #[trigger] self@[key]
                    == bucket@[key],
            forall|key: GameView|
                key_hash(key) != h ==> #[trigger] self@.contains_key(key)
                    == before@.contains_key(key),
            forall|key: GameView|
                key_hash(key) != h && before@.contains_key(key) ==> #[trigger] self@[key]
                    == before@[key],
    {
    }

    /// What the bucket of the hash `h` holds of a state with that hash is
    /// what the table holds of it.
    proof fn lemma_bucket_of(&self, h: u64, key: GameView)
        requires
            key_hash(key) == h,
        ensures
            self@.contains_key(key) == (self.buckets@.contains_key(h)
                && self.buckets@[h]@.contains_key(key)),
            self@.contains_key(key) ==> self@[key] == self.buckets@[h]@[key],
    {
    }

    /// A table that holds no state.
    pub fn new() -> (table: MctsTable)
        ensures
            table.wf(),
            table@ == Map::<GameView, EntryView>::empty(),
    {
        let table = MctsTable { buckets: HashMap::new(), states: 0 };
        assert(table@ =~= Map::<GameView, EntryView>::empty());
        table
    }

    /// Number of states that the table holds.
    pub fn len(&self) -> (n: usize)
        requires
            self.wf(),
        ensures
            n == self@.dom().len(),
    {
        self.states
    }

    /// What the table holds of the state, if it holds the state.
    pub fn get(&self, key: &CanonicalKey) -> (entry: Option<&TableEntry>)
        requires
            self.wf(),
        ensures
            match entry {
                Some(e) => self@.contains_key(key@) && e@ == self@[key@] && e@.wf(),
                None => !self@.contains_key(key@),
            },
    {
        broadcast use vstd::std_specs::hash::group_hash_axioms;
        let h: u64 = key.hash_code();
        match self.buckets.get(&h) {
            Some(bucket) => bucket.get(key),
            None => None,
        }
    }

    /// Makes sure that the table holds the state: a state that it does not
    /// hold yet gets a fresh entry with `n_actions` actions, one that it holds
    /// keeps its entry.
    pub fn ensure_entry(&mut self, key: CanonicalKey, n_actions: usize)
        requires
            old(self).wf(),
            old(self)@.dom().len() < usize::MAX,
        ensures
            final(self).wf(),
            final(self)@ == if old(self)@.contains_key(key@) {
                old(self)@
            } else {
                old(self)@.insert(key@, EntryView::fresh(n_actions as nat))
            },
    {
        broadcast use vstd::std_specs::hash::group_hash_axioms;
        let h: u64 = key.hash_code();
        let ghost k = key@;
        let ghost old_table = *self;
        let mut bucket = match self.buckets.remove(&h) {
            Some(bucket) => bucket,
            None => Bucket::new(),
        };
        proof {
            old_table.lemma_bucket_of(h, k);
        }
        let ghost old_bucket = bucket;
        let added = bucket.ensure_entry(key, n_actions);
        self.buckets.insert(h, bucket);
        if added {
            self.states = self.states + 1;
        }
        proof {
            assert(self.buckets@ =~= old_table.buckets@.insert(h, bucket));
            self.lemma_bucket_exchanged(&old_table, h, bucket);
            let target = if old_table@.contains_key(k) {
                old_table@
            } else {
                old_table@.insert(k, EntryView::fresh(n_actions as nat))
            };
            assert forall|other: GameView| #[trigger]
                self@.contains_key(other) == target.contains_key(other) by {
                if key_hash(other) == h {
                    old_table.lemma_bucket_of(h, other);
                }
            }
            assert forall|other: GameView| #[trigger] self@.contains_key(other) implies self@[other]
                == target[other] by {
                if key_hash(other) == h {
                    old_table.lemma_bucket_of(h, other);
                }
            }
            assert(self@ =~= target);
            assert(self@.dom() =~= if added {
                old_table@.dom().insert(k)
            } else {
                old_table@.dom()
            });
        }
    }

    /// Credits one decision with the reward of its turn.
    fn credit(&mut self, key: &CanonicalKey, action: usize, reward: u64)
        requires
            old(self).wf(),
            reward <= 1,
            old(self)@.contains_key(key@) ==> old(self)@[key@].visits < u64::MAX,
        ensures
            final(self).wf(),
            final(self)@ == credit_step(old(self)@, key@, action as int, reward as nat),
            final(self)@.dom() == old(self)@.dom(),
    {
        broadcast use vstd::std_specs::hash::group_hash_axioms;
        let h: u64 = key.hash_code();
        let ghost old_table = *self;
        proof {
            old_table.lemma_bucket_of(h, key@);
        }
        match self.buckets.remove(&h) {
            None => {
                assert(self.buckets@ =~= old_table.buckets@);
            },
            Some(mut bucket) => {
                let ghost old_bucket = bucket;
                bucket.credit(key, action, reward);
                self.buckets.insert(h, bucket);
                proof {
                    assert(self.buckets@ =~= old_table.buckets@.insert(h, bucket));
                    self.lemma_bucket_exchanged(&old_table, h, bucket);
                    let target = credit_step(old_table@, key@, action as int, reward as nat);
                    assert forall|other: GameView| #[trigger]
                        self@.contains_key(other) == target.contains_key(other) by {
                        if key_hash(other) == h {
                            old_table.lemma_bucket_of(h, other);
                        }
                    }
                    assert forall|other: GameView| #[trigger]
                        self@.contains_key(other) implies self@[other] == target[other] by {
                        if key_hash(other) == h {
                            old_table.lemma_bucket_of(h, other);
                        }
                    }
                    assert(self@ =~= target);
                    assert(self@.dom() =~= old_table@.dom());
                }
            },
        }
    }

    /// Credits every decision of a finished turn with the turn's reward: the
    /// state's visits and the action's visits go up by one, the action's
    /// reward by 1 if the turn was survived. A decision in a state that the
    /// table does not hold, or for an action that the state's entry does not
    /// have, is passed over.
    pub fn backup(&mut self, trajectory: &Vec<Step>, survived: bool)
        requires
            old(self).wf(),
            forall|s: int|
                0 <= s < trajectory@.len() && old(self)@.contains_key(
                    (#[trigger] trajectory@[s]).key@,
                ) ==> old(self)@[trajectory@[s].key@].visits + trajectory@.len() <= u64::MAX,
        ensures
            final(self).wf(),
            final(self)@ == backed_up(old(self)@, trajectory@, rollout_reward(survived)),
            final(self)@.dom() == old(self)@.dom(),
    {
        let reward: u64 = if survived {
            1
        } else {
            0
        };
        let n: usize = trajectory.len();
        let mut done: usize = 0;
        assert(trajectory@.take(0) =~= Seq::<Step>::empty());
        while done < n
            invariant
                done <= n,
                n == trajectory@.len(),
                reward == rollout_reward(survived),
                self.wf(),
                self@ == backed_up(old(self)@, trajectory@.take(done as int), reward as nat),
                self@.dom() == old(self)@.dom(),
                forall|s: int|
                    0 <= s < trajectory@.len() && old(self)@.contains_key(
                        (#[trigger] trajectory@[s]).key@,
                    ) ==> old(self)@[trajectory@[s].key@].visits + trajectory@.len() <= u64::MAX,
                forall|key: GameView| #[trigger]
                    self@.contains_key(key) ==> self@[key].visits <= old(self)@[key].visits + done,
            decreases n - done,
        {
            let step: &Step = &trajectory[done];
            let ghost before = self@;
            assert(trajectory@.take(done + 1).drop_last() =~= trajectory@.take(done as int));
            assert(trajectory@.take(done + 1).last() == trajectory@[done as int]);
            self.credit(&step.key, step.action, reward);
            proof {
                assert(self@.dom() =~= before.dom());
                assert forall|key: GameView| #[trigger] self@.contains_key(key) implies self@[key].visits
                    <= old(self)@[key].visits + done + 1 by {
                    assert(before.contains_key(key));
                }
            }
            done += 1;
        }
        assert(trajectory@.take(n as int) =~= trajectory@);
    }
}

} // verus!
