//! The graph of the actions of a job, and the batches in which its nodes run.

use crate::action::{
    Action, ActionError, MoveAction, RebalanceAction, ReloadDatasetAction, ReloadPartitionAction,
    RemoveObjectAction, RemovePartitionAction,
};
use crate::state::{CatalogView, State};
use crate::store::Store;
use std::collections::{HashMap, HashSet};
use vstd::prelude::*;

verus! {

/// The name of a node: nodes are numbered from 1 in the order in which they were added.
pub type Key = usize;

/// A set of nodes.
pub type Keys = HashSet<Key>;

/// The action that changes nothing. It stands for the actions of another kind in a graph
/// that holds none.
#[derive(Debug, Clone, Copy, PartialEq, Eq, Structural)]
pub struct NoCustom;

impl Action for NoCustom {
    open spec fn spec_key(&self) -> Seq<char> {
        Seq::empty()
    }

    /// The catalog comes back as it was handed in.
    open spec fn permits(&self, catalog: CatalogView, result: Result<State, ActionError>) -> bool {
        result matches Ok(next) && next@ == catalog
    }

    fn key(&self) -> (r: String) {
        String::new()
    }

    fn execute(&self, store: &dyn Store, state: &State) -> (r: Result<State, ActionError>) {
        Ok(state.clone())
    }
}

/// An action of a kind that is not among the kinds of this crate, on its way into a graph.
pub struct Custom<C>(pub C);

impl<C: Action> Custom<C> {
    pub fn new(action: C) -> (r: Custom<C>)
        ensures
            r.0 == action,
            r.spec_key() == action.spec_key(),
            forall|catalog: CatalogView, result: Result<State, ActionError>|
                r.permits(catalog, result) == action.permits(catalog, result),
    {
        Custom(action)
    }
}

impl<C: Action> Action for Custom<C> {
    open spec fn spec_key(&self) -> Seq<char> {
        self.0.spec_key()
    }

    /// What the action inside permits.
    open spec fn permits(&self, catalog: CatalogView, result: Result<State, ActionError>) -> bool {
        self.0.permits(catalog, result)
    }

    fn key(&self) -> (r: String) {
        self.0.key()
    }

    fn execute(&self, store: &dyn Store, state: &State) -> (r: Result<State, ActionError>) {
        self.0.execute(store, state)
    }
}

/// An action as a node holds it: one of the kinds of this crate, or one of the kind `C`.
pub enum Step<C = NoCustom> {
    ReloadDataset(ReloadDatasetAction),
    ReloadPartition(ReloadPartitionAction),
    RemovePartition(RemovePartitionAction),
    RemoveObject(RemoveObjectAction),
    Move(MoveAction),
    Rebalance(RebalanceAction),
    Custom(C),
}

impl<C: Action> Action for Step<C> {
    /// The key of a step is the key of its action.
    open spec fn spec_key(&self) -> Seq<char> {
        match self {
            Step::ReloadDataset(action) => action.spec_key(),
            Step::ReloadPartition(action) => action.spec_key(),
            Step::RemovePartition(action) => action.spec_key(),
            Step::RemoveObject(action) => action.spec_key(),
            Step::Move(action) => action.spec_key(),
            Step::Rebalance(action) => action.spec_key(),
            Step::Custom(action) => action.spec_key(),
        }
    }

    /// A step permits what its action permits.
    open spec fn permits(&self, catalog: CatalogView, result: Result<State, ActionError>) -> bool {
        match self {
            Step::ReloadDataset(action) => action.permits(catalog, result),
            Step::ReloadPartition(action) => action.permits(catalog, result),
            Step::RemovePartition(action) => action.permits(catalog, result),
            Step::RemoveObject(action) => action.permits(catalog, result),
            Step::Move(action) => action.permits(catalog, result),
            Step::Rebalance(action) => action.permits(catalog, result),
            Step::Custom(action) => action.permits(catalog, result),
        }
    }

    fn key(&self) -> (r: String) {
        match self {
            Step::ReloadDataset(action) => action.key(),
            Step::ReloadPartition(action) => action.key(),
            Step::RemovePartition(action) => action.key(),
            Step::RemoveObject(action) => action.key(),
            Step::Move(action) => action.key(),
            Step::Rebalance(action) => action.key(),
            Step::Custom(action) => action.key(),
        }
    }

    fn execute(&self, store: &dyn Store, state: &State) -> (r: Result<State, ActionError>) {
        match self {
            Step::ReloadDataset(action) => action.execute(store, state),
            Step::ReloadPartition(action) => action.execute(store, state),
            Step::RemovePartition(action) => action.execute(store, state),
            Step::RemoveObject(action) => action.execute(store, state),
            Step::Move(action) => action.execute(store, state),
            Step::Rebalance(action) => action.execute(store, state),
            Step::Custom(action) => action.execute(store, state),
        }
    }
}

/// An action that can be made a step of a graph whose other kind of action is `C`: it says
/// which step it becomes, and as a step it has the key of the action and permits what the
/// action permits.
pub trait IntoStep<C: Action>: Action + Sized {
    /// The step that the action becomes.
    spec fn spec_step(self) -> Step<C>;

    fn into_step(self) -> (r: Step<C>)
        ensures
            r == self.spec_step(),
            r.spec_key() == self.spec_key(),
            forall|catalog: CatalogView, result: Result<State, ActionError>|
                r.permits(catalog, result) == self.permits(catalog, result),
    ;
}

impl<C: Action> IntoStep<C> for ReloadDatasetAction {
    open spec fn spec_step(self) -> Step<C> {
        Step::ReloadDataset(self)
    }

    fn into_step(self) -> (r: Step<C>) {
        Step::ReloadDataset(self)
    }
}

impl<C: Action> IntoStep<C> for ReloadPartitionAction {
    open spec fn spec_step(self) -> Step<C> {
        Step::ReloadPartition(self)
    }

    fn into_step(self) -> (r: Step<C>) {
        Step::ReloadPartition(self)
    }
}

impl<C: Action> IntoStep<C> for RemovePartitionAction {
    open spec fn spec_step(self) -> Step<C> {
        Step::RemovePartition(self)
    }

    fn into_step(self) -> (r: Step<C>) {
        Step::RemovePartition(self)
    }
}

impl<C: Action> IntoStep<C> for RemoveObjectAction {
    open spec fn spec_step(self) -> Step<C> {
        Step::RemoveObject(self)
    }

    fn into_step(self) -> (r: Step<C>) {
        Step::RemoveObject(self)
    }
}

impl<C: Action> IntoStep<C> for MoveAction {
    open spec fn spec_step(self) -> Step<C> {
        Step::Move(self)
    }

    fn into_step(self) -> (r: Step<C>) {
        Step::Move(self)
    }
}

impl<C: Action> IntoStep<C> for RebalanceAction {
    open spec fn spec_step(self) -> Step<C> {
        Step::Rebalance(self)
    }

    fn into_step(self) -> (r: Step<C>) {
        Step::Rebalance(self)
    }
}

impl<C: Action> IntoStep<C> for Custom<C> {
    open spec fn spec_step(self) -> Step<C> {
        Step::Custom(self.0)
    }

    fn into_step(self) -> (r: Step<C>) {
        Step::Custom(self.0)
    }
}

impl<C: Action> IntoStep<C> for Step<C> {
    open spec fn spec_step(self) -> Step<C> {
        self
    }

    fn into_step(self) -> (r: Step<C>) {
        self
    }
}

impl<C: Action> Step<C> {
    /// The step that `action` becomes.
    pub fn new<A: IntoStep<C>>(action: A) -> (r: Step<C>)
        ensures
            r == action.spec_step(),
            r.spec_key() == action.spec_key(),
            forall|catalog: CatalogView, result: Result<State, ActionError>|
                r.permits(catalog, result) == action.permits(catalog, result),
    {
        action.into_step()
    }
}

/// The actions of a job, grouped into nodes that depend on one another. A graph of the
/// crate's own actions is an `ActionTree`; one that also holds actions of a kind `C` is an
/// `ActionTree<C>`.
pub struct ActionTree<C = NoCustom> {
    next_key: Key,
    roots: Keys,
    upstream: HashMap<Key, Keys>,
    actions: HashMap<Key, Vec<Step<C>>>,
}

/// The keys of a list of steps, in order.
pub open spec fn keys_of<C: Action>(steps: Seq<Step<C>>) -> Seq<Seq<char>> {
    Seq::new(steps.len(), |i: int| steps[i].spec_key())
}

/// The steps that a list refers to, in order.
pub open spec fn steps_of<C>(steps: Seq<&Step<C>>) -> Seq<Step<C>> {
    Seq::new(steps.len(), |i: int| *steps[i])
}

/// The nodes of a batch, in the order of the batch.
pub open spec fn batch_nodes<C>(batch: Seq<(Key, Vec<&Step<C>>)>) -> Seq<Key> {
    Seq::new(batch.len(), |i: int| batch[i].0)
}

/// The set of the keys of a list.
fn keys_from(keys: &[Key]) -> (r: Keys)
    ensures
        r@ == keys@.to_set(),
{
    let mut set: Keys = HashSet::new();
    let mut i: usize = 0;
    assert(keys@.take(0).to_set() =~= Set::empty());
    while i < keys.len()
        invariant
            i <= keys.len(),
            set@ == keys@.take(i as int).to_set(),
        decreases keys.len() - i,
    {
        set.insert(keys[i]);
        proof {
            keys@.lemma_take_succ_push(i as int);
            keys@.take(i as int).lemma_push_to_set_commute(keys@[i as int]);
        }
        i += 1;
    }
    assert(keys@.take(i as int) =~= keys@);
    set
}

impl<C: Action> ActionTree<C> {
    /// The number of nodes.
    pub closed spec fn spec_size(&self) -> nat {
        (self.next_key - 1) as nat
    }

    /// The nodes that `key` waits for.
    pub closed spec fn spec_upstream(&self, key: Key) -> Set<Key> {
        if self.upstream@.contains_key(key) {
            self.upstream@[key]@
        } else {
            Set::empty()
        }
    }

    /// The steps of node `key`, in the order in which they were added.
    pub closed spec fn spec_steps(&self, key: Key) -> Seq<Step<C>> {
        if self.actions@.contains_key(key) {
            self.actions@[key]@
        } else {
            Seq::empty()
        }
    }

    /// The keys of the actions of node `key`, in the order in which they were added.
    pub open spec fn spec_actions(&self, key: Key) -> Seq<Seq<char>> {
        keys_of(self.spec_steps(key))
    }

    /// Whether `key` names a node of the graph.
    pub open spec fn is_node(&self, key: Key) -> bool {
        1 <= key <= self.spec_size()
    }

    /// The nodes of the graph.
    pub open spec fn nodes(&self) -> Set<Key> {
        Set::new(|key: Key| self.is_node(key))
    }

    /// Whether `key` is a node that waits for nothing.
    pub open spec fn is_root(&self, key: Key) -> bool {
        self.is_node(key) && self.spec_upstream(key).is_empty()
    }

    /// The nodes to run next when the nodes in `completed` have run: at the start the roots,
    /// later every node that has not run and waits for nothing that has not run.
    pub open spec fn ready(&self, completed: Set<Key>) -> Set<Key> {
        Set::new(
            |key: Key|
                if completed.is_empty() {
                    self.is_root(key)
                } else {
                    self.is_node(key) && !completed.contains(key) && self.spec_upstream(
                        key,
                    ).subset_of(completed)
                },
        )
    }

    /// What the fields owe one another: the roots are the nodes without an upstream entry,
    /// and an upstream entry is never empty.
    pub closed spec fn wf(&self) -> bool {
        &&& 1 <= self.next_key <= usize::MAX
        &&& forall|key: Key|
            self.roots@.contains(key) <==> (1 <= key < self.next_key
                && !self.upstream@.contains_key(key))
        &&& forall|key: Key| #[trigger]
            self.upstream@.contains_key(key) ==> 1 <= key < self.next_key
                && !self.upstream@[key]@.is_empty()
    }

    /// The number of nodes of a well-formed graph fits the machine's integers.
    pub proof fn lemma_size_fits(self)
        requires
            self.wf(),
        ensures
            self.spec_size() <= usize::MAX,
    {
    }

    /// A graph without nodes, for actions of this crate and of the kind `C`.
    pub fn with_custom() -> (r: ActionTree<C>)
        ensures
            r.wf(),
            r.spec_size() == 0,
            r.is_ordered(),
            forall|key: Key| r.spec_upstream(key).is_empty(),
            forall|key: Key| r.spec_steps(key).len() == 0,
    {
        ActionTree {
            next_key: 1,
            roots: HashSet::new(),
            upstream: HashMap::new(),
            actions: HashMap::new(),
        }
    }

    pub fn size(&self) -> (r: usize)
        requires
            self.wf(),
        ensures
            r == self.spec_size(),
    {
        self.next_key - 1
    }

    pub fn add_node(&mut self, dependencies: &[Key]) -> (key: Key)
        requires
            old(self).wf(),
            old(self).spec_size() + 1 < usize::MAX,
        ensures
            final(self).wf(),
            key == old(self).spec_size() + 1,
            final(self).spec_size() == key,
            final(self).spec_upstream(key) == dependencies@.to_set(),
            forall|other: Key|
                other != key ==> final(self).spec_upstream(other) == old(self).spec_upstream(other),
            forall|other: Key| final(self).spec_steps(other) == old(self).spec_steps(other),
            old(self).is_ordered() && (forall|i: int|
                0 <= i < dependencies@.len() ==> 1 <= #[trigger] dependencies@[i] < key)
                ==> final(self).is_ordered(),
    {
        let key = self.next_key;
        self.next_key = self.next_key + 1;
        if dependencies.len() == 0 {
            self.roots.insert(key);
            assert(dependencies@.to_set() =~= Set::empty());
        } else {
            let waits_for = keys_from(dependencies);
            assert(waits_for@.contains(dependencies@[0]));
            self.upstream.insert(key, waits_for);
        }
        proof {
            if old(self).is_ordered() && (forall|i: int|
                0 <= i < dependencies@.len() ==> 1 <= #[trigger] dependencies@[i] < key) {
                assert forall|node: Key, dependency: Key|
                    self.is_node(node) && #[trigger] self.spec_upstream(node).contains(
                        dependency,
                    ) implies 1 <= dependency < node by {
                    if node == key {
                        let i = choose|i: int|
                            0 <= i < dependencies@.len() && dependencies@[i] == dependency;
                        assert(1 <= dependencies@[i] < key);
                    } else {
                        assert(old(self).spec_upstream(node).contains(dependency));
                    }
                }
            }
        }
        key
    }

    pub fn add_action<A: IntoStep<C>>(&mut self, key: Key, action: A)
        requires
            old(self).wf(),
        ensures
            final(self).wf(),
            final(self).spec_size() == old(self).spec_size(),
            forall|other: Key| final(self).spec_upstream(other) == old(self).spec_upstream(other),
            final(self).spec_steps(key) == old(self).spec_steps(key).push(action.spec_step()),
            forall|other: Key|
                other != key ==> final(self).spec_steps(other) == old(self).spec_steps(other),
    {
        let mut list = match self.actions.remove(&key) {
            Some(list) => list,
            None => Vec::new(),
        };
        list.push(Step::new(action));
        self.actions.insert(key, list);
    }

}

impl ActionTree<NoCustom> {
    /// A graph without nodes, for actions of this crate.
    pub fn new() -> (r: ActionTree)
        ensures
            r.wf(),
            r.spec_size() == 0,
            r.is_ordered(),
            forall|key: Key| r.spec_upstream(key).is_empty(),
            forall|key: Key| r.spec_steps(key).len() == 0,
    {
        ActionTree::with_custom()
    }

    /// A graph of one node, which holds `action`.
    pub fn single<A: IntoStep<NoCustom>>(action: A) -> (r: ActionTree)
        ensures
            r.wf(),
            r.spec_size() == 1,
            r.is_root(1),
            r.is_ordered(),
            r.spec_steps(1) == seq![action.spec_step()],
    {
        let mut tree = ActionTree::new();
        let ghost empty = tree.spec_steps(1);
        let none: Vec<Key> = Vec::new();
        let key = tree.add_node(none.as_slice());
        tree.add_action(key, action);
        assert(empty.push(action.spec_step()) =~= seq![action.spec_step()]);
        tree
    }
}

impl<C: Action> ActionTree<C> {
    /// The steps of node `key`, in the order in which they were added.
    pub fn get_actions(&self, key: Key) -> (r: Vec<&Step<C>>)
        ensures
            steps_of(r@) == self.spec_steps(key),
    {
        let mut steps: Vec<&Step<C>> = Vec::new();
        match self.actions.get(&key) {
            Some(list) => {
                let mut i: usize = 0;
                while i < list.len()
                    invariant
                        i <= list.len(),
                        steps@.len() == i,
                        forall|j: int| 0 <= j < i ==> *steps@[j] == list@[j],
                    decreases list.len() - i,
                {
                    steps.push(&list[i]);
                    i += 1;
                }
                assert(steps_of(steps@) =~= list@);
            },
            None => {
                assert(steps_of(steps@) =~= Seq::empty());
            },
        }
        steps
    }

    /// Whether everything that node `key` waits for is in `completed`.
    fn upstream_done(&self, key: Key, completed: &Keys) -> (r: bool)
        ensures
            r == self.spec_upstream(key).subset_of(completed@),
    {
        match self.upstream.get(&key) {
            Some(waits_for) => {
                for dependency in iter: waits_for.iter()
                    invariant
                        self.spec_upstream(key) == waits_for@,
                        forall|j: int|
                            0 <= j < iter.index() ==> completed@.contains(*iter.seq()[j]),
                {
                    if !completed.contains(dependency) {
                        assert(waits_for@.contains(*dependency));
                        return false;
                    }
                }
                true
            },
            None => true,
        }
    }

    /// The nodes to run next, each with its steps. The nodes come in the order of their
    /// keys.
    pub fn next_batch(&self, completed: &Keys) -> (r: Vec<(Key, Vec<&Step<C>>)>)
        requires
            self.wf(),
        ensures
            batch_nodes(r@).no_duplicates(),
            batch_nodes(r@).to_set() == self.ready(completed@),
            forall|i: int|
                0 <= i < r@.len() ==> steps_of((#[trigger] r@[i]).1@) == self.spec_steps(
                    r@[i].0,
                ),
    {
        let from_roots = completed.is_empty();
        let mut batch: Vec<(Key, Vec<&Step<C>>)> = Vec::new();
        let mut key: Key = 1;
        while key < self.next_key
            invariant
                self.wf(),
                1 <= key <= self.next_key,
                from_roots == completed@.is_empty(),
                forall|i: int|
                    0 <= i < batch@.len() ==> 1 <= (#[trigger] batch@[i]).0 < key
                        && self.ready(completed@).contains(batch@[i].0),
                forall|i: int, j: int|
                    0 <= i < j < batch@.len() ==> (#[trigger] batch@[i]).0 < (
                    #[trigger] batch@[j]).0,
                forall|node: Key|
                    1 <= node < key && self.ready(completed@).contains(node) ==> exists|i: int|
                        0 <= i < batch@.len() && (#[trigger] batch@[i]).0 == node,
                forall|i: int|
                    0 <= i < batch@.len() ==> steps_of((#[trigger] batch@[i]).1@) == self.spec_steps(
                        batch@[i].0,
                    ),
            decreases self.next_key - key,
        {
            let is_ready = if from_roots {
                self.roots.contains(&key)
            } else {
                !completed.contains(&key) && self.upstream_done(key, completed)
            };
            assert(is_ready == self.ready(completed@).contains(key));
            if is_ready {
                let ghost before = batch@;
                let steps = self.get_actions(key);
                batch.push((key, steps));
                assert forall|node: Key|
                    1 <= node < key + 1 && self.ready(completed@).contains(node) implies exists|
                    i: int,
                |
                    0 <= i < batch@.len() && (#[trigger] batch@[i]).0 == node by {
                    if node == key {
                        assert(batch@[before.len() as int].0 == key);
                    } else {
                        let i = choose|i: int| 0 <= i < before.len() && (#[trigger] before[i]).0 == node;
                        assert(batch@[i].0 == node);
                    }
                }
            }
            key += 1;
        }
        proof {
            let nodes = batch_nodes(batch@);
            assert forall|i: int, j: int| 0 <= i < nodes.len() && 0 <= j < nodes.len() && i != j implies nodes[i] != nodes[j] by {
                if i < j {
                    assert(batch@[i].0 < batch@[j].0);
                } else {
                    assert(batch@[j].0 < batch@[i].0);
                }
            }
            assert forall|node: Key| nodes.to_set().contains(node) == self.ready(completed@).contains(node) by {
                if nodes.to_set().contains(node) {
                    let i = choose|i: int| 0 <= i < nodes.len() && nodes[i] == node;
                    assert(batch@[i].0 == node);
                }
                if self.ready(completed@).contains(node) {
                    let i = choose|i: int| 0 <= i < batch@.len() && (#[trigger] batch@[i]).0 == node;
                    assert(nodes[i] == node);
                }
            }
            assert(nodes.to_set() =~= self.ready(completed@));
        }
        batch
    }
}

impl<C: Action> ActionTree<C> {
    /// Whether `rank` orders the graph: what a node waits for is a node, of lower rank.
    pub open spec fn ranked_by(&self, rank: spec_fn(Key) -> nat) -> bool {
        forall|node: Key, dependency: Key|
            self.is_node(node) && #[trigger] self.spec_upstream(node).contains(dependency)
                ==> self.is_node(dependency) && rank(dependency) < rank(node)
    }

    /// Whether the graph has no cycle and no edge to a node that does not exist: some rank
    /// orders it.
    pub open spec fn is_dag(&self) -> bool {
        exists|rank: spec_fn(Key) -> nat| self.ranked_by(rank)
    }

    /// Whether every node waits for nodes that were added before it only.
    pub open spec fn is_ordered(&self) -> bool {
        forall|node: Key, dependency: Key|
            self.is_node(node) && #[trigger] self.spec_upstream(node).contains(dependency) ==> 1
                <= dependency < node
    }

    /// The nodes that have run after `rounds` batches, each batch being what is ready once
    /// the batches before it have run.
    pub open spec fn completed_after(&self, rounds: nat) -> Set<Key>
        decreases rounds,
    {
        if rounds == 0 {
            Set::empty()
        } else {
            let before = self.completed_after((rounds - 1) as nat);
            before.union(self.ready(before))
        }
    }
}

/// A list of one key names the set of that key.
pub proof fn lemma_single_key(keys: Seq<Key>, key: Key)
    requires
        keys == seq![key],
    ensures
        keys.to_set() == set![key],
{
    assert(keys[0] == key);
    assert(keys.to_set() =~= set![key]);
}

/// The keys from 1 to `count`.
pub open spec fn keys_upto(count: nat) -> Set<Key> {
    Set::new(|key: Key| 1 <= key <= count)
}

/// There are `count` keys from 1 to `count`.
pub proof fn lemma_keys_upto(count: nat)
    requires
        count <= usize::MAX,
    ensures
        keys_upto(count).finite(),
        keys_upto(count).len() == count,
    decreases count,
{
    if count == 0 {
        assert(keys_upto(count) =~= Set::empty());
    } else {
        lemma_keys_upto((count - 1) as nat);
        assert(keys_upto(count) =~= keys_upto((count - 1) as nat).insert(count as usize));
    }
}

/// A graph whose nodes wait for earlier nodes only has no cycle.
pub proof fn lemma_ordered_is_dag<C: Action>(tree: ActionTree<C>)
    requires
        tree.is_ordered(),
    ensures
        tree.is_dag(),
{
    let rank = |key: Key| key as nat;
    assert(tree.ranked_by(rank));
}

/// In a graph without cycles no node waits for itself, and no two nodes wait for one another.
pub proof fn lemma_dag_has_no_short_cycle<C: Action>(tree: ActionTree<C>, a: Key, b: Key)
    requires
        tree.is_dag(),
        tree.is_node(a),
        tree.is_node(b),
    ensures
        !tree.spec_upstream(a).contains(a),
        !(tree.spec_upstream(a).contains(b) && tree.spec_upstream(b).contains(a)),
{
    let rank = choose|rank: spec_fn(Key) -> nat| tree.ranked_by(rank);
    if tree.spec_upstream(a).contains(a) {
        assert(rank(a) < rank(a));
    }
    if tree.spec_upstream(a).contains(b) && tree.spec_upstream(b).contains(a) {
        assert(rank(b) < rank(a));
        assert(rank(a) < rank(b));
    }
}

/// With nothing completed, the batch is the roots.
pub proof fn lemma_first_batch<C: Action>(tree: ActionTree<C>)
    ensures
        tree.ready(Set::empty()) == Set::new(|key: Key| tree.is_root(key)),
{
    assert(tree.ready(Set::empty()) =~= Set::new(|key: Key| tree.is_root(key)));
}

/// With every node completed, the batch is empty.
pub proof fn lemma_last_batch<C: Action>(tree: ActionTree<C>)
    ensures
        tree.ready(tree.nodes()).is_empty(),
{
    if tree.nodes().is_empty() {
        assert forall|key: Key| !tree.ready(tree.nodes()).contains(key) by {
            if tree.is_root(key) {
                assert(tree.nodes().contains(key));
            }
        }
    }
    assert(tree.ready(tree.nodes()) =~= Set::empty());
}

/// In a graph without cycles, below every node that has not run there is one that is ready.
proof fn lemma_descend<C: Action>(tree: ActionTree<C>, rank: spec_fn(Key) -> nat, completed: Set<Key>, node: Key) -> (found:
    Key)
    requires
        tree.ranked_by(rank),
        tree.is_node(node),
        !completed.contains(node),
    ensures
        tree.is_node(found),
        !completed.contains(found),
        tree.spec_upstream(found).subset_of(completed),
    decreases rank(node),
{
    if tree.spec_upstream(node).subset_of(completed) {
        node
    } else {
        let dependency = choose|dependency: Key|
            tree.spec_upstream(node).contains(dependency) && !completed.contains(dependency);
        lemma_descend(tree, rank, completed, dependency)
    }
}

/// In a graph without cycles, as long as a node has not run, the next batch holds a node
/// that has not run.
pub proof fn lemma_progress<C: Action>(tree: ActionTree<C>, completed: Set<Key>)
    requires
        tree.is_dag(),
        exists|node: Key| tree.is_node(node) && !completed.contains(node),
    ensures
        exists|node: Key| tree.ready(completed).contains(node) && !completed.contains(node),
        tree.ready(completed).subset_of(tree.nodes()),
{
    let rank = choose|rank: spec_fn(Key) -> nat| tree.ranked_by(rank);
    let node = choose|node: Key| tree.is_node(node) && !completed.contains(node);
    let found = lemma_descend(tree, rank, completed, node);
    if completed.is_empty() {
        assert(tree.spec_upstream(found) =~= Set::empty());
    }
    assert(tree.ready(completed).contains(found));
}

/// In a graph without cycles, `rounds` batches complete at least `rounds` nodes, as long as
/// there are that many; and nothing but nodes.
pub proof fn lemma_rounds<C: Action>(tree: ActionTree<C>, rounds: nat)
    requires
        tree.wf(),
        tree.is_dag(),
    ensures
        tree.completed_after(rounds).subset_of(tree.nodes()),
        tree.completed_after(rounds).finite(),
        tree.completed_after(rounds).len() >= rounds || tree.completed_after(rounds)
            == tree.nodes(),
    decreases rounds,
{
    tree.lemma_size_fits();
    lemma_keys_upto(tree.spec_size());
    assert(tree.nodes() =~= keys_upto(tree.spec_size()));
    if rounds > 0 {
        let before = tree.completed_after((rounds - 1) as nat);
        let after = tree.completed_after(rounds);
        lemma_rounds(tree, (rounds - 1) as nat);
        assert(tree.ready(before).subset_of(tree.nodes()));
        vstd::set_lib::lemma_len_subset(after, tree.nodes());
        if before == tree.nodes() {
            assert(after =~= tree.nodes());
        } else {
            assert(exists|node: Key| tree.is_node(node) && !before.contains(node)) by {
                if forall|node: Key| tree.is_node(node) ==> before.contains(node) {
                    assert(before =~= tree.nodes());
                }
            }
            lemma_progress(tree, before);
            let node = choose|node: Key| tree.ready(before).contains(node) && !before.contains(node);
            assert(before.insert(node).subset_of(after));
            vstd::set_lib::lemma_len_subset(before.insert(node), after);
        }
    }
}

/// In a graph without cycles, running batch after batch completes every node, in no more
/// batches than there are nodes; and then nothing is left to run.
pub proof fn lemma_batches_complete<C: Action>(tree: ActionTree<C>)
    requires
        tree.wf(),
        tree.is_dag(),
    ensures
        tree.completed_after(tree.spec_size()) == tree.nodes(),
        tree.nodes().finite(),
        tree.nodes().len() == tree.spec_size(),
        tree.ready(tree.nodes()).is_empty(),
{
    tree.lemma_size_fits();
    lemma_keys_upto(tree.spec_size());
    assert(tree.nodes() =~= keys_upto(tree.spec_size()));
    lemma_rounds(tree, tree.spec_size());
    let done = tree.completed_after(tree.spec_size());
    if done != tree.nodes() {
        vstd::set_lib::lemma_len_subset(done, tree.nodes());
        vstd::set_lib::lemma_subset_equality(done, tree.nodes());
    }
    lemma_last_batch(tree);
}

} // verus!
