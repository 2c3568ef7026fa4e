//! The runtime, which runs the actions of a job against a store, batch after batch.

use crate::action::{Action, ActionError};
use crate::dag::{
    batch_nodes, keys_upto, lemma_keys_upto, lemma_progress, steps_of, ActionTree, Key, Keys, Step,
};
use crate::state::State;
use crate::store::Store;
use std::collections::HashSet;
use vstd::prelude::*;

verus! {

/// The texts of a list of strings.
pub open spec fn texts(strings: Seq<String>) -> Seq<Seq<char>> {
    Seq::new(strings.len(), |i: int| strings[i]@)
}

/// A list of failures, each with the text of its key.
pub open spec fn failures_of(failed: Seq<(String, ActionError)>) -> Seq<(Seq<char>, ActionError)> {
    Seq::new(failed.len(), |i: int| (failed[i].0@, failed[i].1))
}

/// The steps of the nodes `visited`, node after node.
pub open spec fn attempted<C: Action>(tree: &ActionTree<C>, visited: Seq<Key>) -> Seq<Step<C>>
    decreases visited.len(),
{
    if visited.len() == 0 {
        Seq::empty()
    } else {
        attempted(tree, visited.drop_last()) + tree.spec_steps(visited.last())
    }
}

/// The steps of the first `count` nodes of a run are the first steps of the run.
pub proof fn lemma_attempted_prefix<C: Action>(
    tree: &ActionTree<C>,
    visited: Seq<Key>,
    count: int,
)
    requires
        0 <= count <= visited.len(),
    ensures
        attempted(tree, visited.take(count)).len() <= attempted(tree, visited).len(),
        forall|k: int|
            0 <= k < attempted(tree, visited.take(count)).len() ==> attempted(
                tree,
                visited.take(count),
            )[k] == attempted(tree, visited)[k],
    decreases visited.len() - count,
{
    if count < visited.len() {
        lemma_attempted_prefix(tree, visited, count + 1);
        assert(visited.take(count + 1).drop_last() =~= visited.take(count));
    } else {
        assert(visited.take(count) =~= visited);
    }
}

/// The catalog after the results `results`, one after the other, starting from `state`: a
/// result that is a catalog takes the place of the catalog before it, an error leaves it.
pub open spec fn state_after(state: State, results: Seq<Result<State, ActionError>>) -> State
    decreases results.len(),
{
    if results.len() == 0 {
        state
    } else {
        match results.last() {
            Ok(next) => next,
            Err(_) => state_after(state, results.drop_last()),
        }
    }
}

/// The keys of those of `steps` whose result is a catalog, in order.
pub open spec fn passed_keys<C: Action>(
    steps: Seq<Step<C>>,
    results: Seq<Result<State, ActionError>>,
) -> Seq<Seq<char>>
    decreases results.len(),
{
    if results.len() == 0 || steps.len() != results.len() {
        Seq::empty()
    } else {
        let before = passed_keys(steps.drop_last(), results.drop_last());
        match results.last() {
            Ok(_) => before.push(steps.last().spec_key()),
            Err(_) => before,
        }
    }
}

/// Those of `steps` whose result is an error, each by its key and with its error, in order.
pub open spec fn failures<C: Action>(
    steps: Seq<Step<C>>,
    results: Seq<Result<State, ActionError>>,
) -> Seq<(Seq<char>, ActionError)>
    decreases results.len(),
{
    if results.len() == 0 || steps.len() != results.len() {
        Seq::empty()
    } else {
        let before = failures(steps.drop_last(), results.drop_last());
        match results.last() {
            Ok(_) => before,
            Err(error) => before.push((steps.last().spec_key(), error)),
        }
    }
}

/// Where no step failed, every result is a catalog and every key is among the passed; and
/// where every result is a catalog, no step failed.
pub proof fn lemma_no_failures<C: Action>(
    steps: Seq<Step<C>>,
    results: Seq<Result<State, ActionError>>,
)
    requires
        steps.len() == results.len(),
    ensures
        failures(steps, results).len() == 0 <==> (forall|k: int|
            0 <= k < results.len() ==> results[k] is Ok),
        failures(steps, results).len() == 0 ==> passed_keys(steps, results) == Seq::new(
            steps.len(),
            |i: int| steps[i].spec_key(),
        ),
    decreases results.len(),
{
    if results.len() > 0 {
        lemma_no_failures(steps.drop_last(), results.drop_last());
        if failures(steps, results).len() == 0 {
            assert forall|k: int| 0 <= k < results.len() implies results[k] is Ok by {
                if k < results.len() - 1 {
                    assert(results.drop_last()[k] == results[k]);
                }
            }
            assert(passed_keys(steps, results) =~= Seq::new(
                steps.len(),
                |i: int| steps[i].spec_key(),
            ));
        }
        if forall|k: int| 0 <= k < results.len() ==> results[k] is Ok {
            assert forall|k: int| 0 <= k < results.drop_last().len() implies results.drop_last()[k] is Ok by {
                assert(results.drop_last()[k] == results[k]);
            }
        }
    }
}

/// Whether `visited` is an order in which the nodes of `tree` may run: each is a node, none
/// comes twice, and each comes after the nodes that it waits for.
pub open spec fn is_run<C: Action>(tree: &ActionTree<C>, visited: Seq<Key>) -> bool {
    &&& visited.no_duplicates()
    &&& forall|i: int|
        0 <= i < visited.len() ==> tree.is_node(#[trigger] visited[i]) && tree.spec_upstream(
            visited[i],
        ).subset_of(visited.take(i).to_set())
}

/// What a run of a job gave: the catalog at its end, the keys of the actions that passed,
/// and the keys and errors of those that failed.
pub struct Execution {
    pub state: State,
    passed: Vec<String>,
    failed: Vec<(String, ActionError)>,
}

impl Execution {
    /// The keys of the actions that passed, in the order in which they ran.
    pub closed spec fn spec_passed(&self) -> Seq<Seq<char>> {
        texts(self.passed@)
    }

    /// The actions that failed, in the order in which they ran.
    pub closed spec fn spec_failed(&self) -> Seq<(String, ActionError)> {
        self.failed@
    }

    /// The catalog at the end of the run.
    pub closed spec fn spec_state(&self) -> State {
        self.state
    }

    fn new(state: State, passed: Vec<String>, failed: Vec<(String, ActionError)>) -> (r:
        Execution)
        ensures
            r.spec_state() == state,
            r.spec_passed() == texts(passed@),
            r.spec_failed() == failed@,
    {
        Execution { state, passed, failed }
    }

    /// Takes in what the action of key `key` gave: a catalog becomes the catalog of the run
    /// and the key goes to the passed; an error leaves the catalog and goes, with the key, to
    /// the failed.
    pub fn record(&mut self, key: String, result: Result<State, ActionError>)
        ensures
            match result {
                Ok(next) => {
                    &&& final(self).spec_state() == next
                    &&& final(self).spec_passed() == old(self).spec_passed().push(key@)
                    &&& final(self).spec_failed() == old(self).spec_failed()
                },
                Err(error) => {
                    &&& final(self).spec_state() == old(self).spec_state()
                    &&& final(self).spec_passed() == old(self).spec_passed()
                    &&& final(self).spec_failed() == old(self).spec_failed().push((key, error))
                },
            },
    {
        let ghost before = self.passed@;
        match result {
            Ok(next) => {
                self.passed.push(key);
                self.state = next;
                assert(texts(self.passed@) =~= texts(before).push(key@));
            },
            Err(error) => {
                self.failed.push((key, error));
            },
        }
    }

    /// The catalog at the end of the run.
    pub fn state(&self) -> (r: &State)
        ensures
            *r == self.spec_state(),
    {
        &self.state
    }

    /// The catalog at the end of the run, taken out of the record.
    pub fn into_state(self) -> (r: State)
        ensures
            r == self.spec_state(),
    {
        self.state
    }

    pub fn has_errors(&self) -> (r: bool)
        ensures
            r == (self.spec_failed().len() > 0),
    {
        self.failed.len() > 0
    }

    /// The keys of the actions that passed.
    pub fn passed(&self) -> (r: &Vec<String>)
        ensures
            texts(r@) == self.spec_passed(),
    {
        &self.passed
    }

    /// The actions that failed, each with its error.
    pub fn failed(&self) -> (r: &Vec<(String, ActionError)>)
        ensures
            r@ == self.spec_failed(),
    {
        &self.failed
    }

    /// The errors of the actions that failed, in the order in which they ran.
    pub fn errors(self) -> (r: Vec<ActionError>)
        ensures
            r@.len() == self.spec_failed().len(),
            forall|i: int| 0 <= i < r@.len() ==> r@[i] == self.spec_failed()[i].1,
    {
        let Execution { state: _, passed: _, failed } = self;
        let ghost all = failed@;
        let mut failed = failed;
        let mut reversed: Vec<ActionError> = Vec::new();
        while failed.len() > 0
            invariant
                failed@.len() + reversed@.len() == all.len(),
                forall|i: int| 0 <= i < failed@.len() ==> failed@[i] == all[i],
                forall|i: int|
                    0 <= i < reversed@.len() ==> reversed@[i] == all[all.len() - 1 - i].1,
            decreases failed@.len(),
        {
            match failed.pop() {
                Some(entry) => reversed.push(entry.1),
                None => {},
            }
        }
        let mut errors: Vec<ActionError> = Vec::new();
        while reversed.len() > 0
            invariant
                reversed@.len() + errors@.len() == all.len(),
                forall|i: int|
                    0 <= i < reversed@.len() ==> reversed@[i] == all[all.len() - 1 - i].1,
                forall|i: int| 0 <= i < errors@.len() ==> errors@[i] == all[i].1,
            decreases reversed@.len(),
        {
            match reversed.pop() {
                Some(error) => errors.push(error),
                None => {},
            }
        }
        errors
    }
}

/// Runs the actions of a job against a store.
pub struct Runtime<S: Store> {
    store: S,
}

/// Whether `execution` is the record of a run of `tree` from the catalog `state`. The run
/// took `rounds` batches and visited the nodes `visited`, of which the first `first` came
/// before the last batch; `results` holds what each step gave, in the order of the run.
///
/// Every step was run once, on the catalog that the results before it left, and gave a
/// result that it permits. The record holds the catalog that the results leave, the keys of
/// the steps that gave a catalog, and the keys and errors of the others. No step failed
/// before the last batch, and a run without failures has visited every node.
pub open spec fn records<C: Action>(
    execution: Execution,
    tree: &ActionTree<C>,
    state: State,
    visited: Seq<Key>,
    results: Seq<Result<State, ActionError>>,
    rounds: nat,
    first: nat,
) -> bool {
    let steps = attempted(tree, visited);
    &&& is_run(tree, visited)
    &&& rounds <= tree.spec_size()
    &&& visited.to_set() == tree.completed_after(rounds)
    &&& first <= visited.len()
    &&& rounds == 0 ==> visited.len() == 0
    &&& rounds > 0 ==> visited.take(first as int).to_set() == tree.completed_after(
        (rounds - 1) as nat,
    )
    &&& results.len() == steps.len()
    &&& forall|k: int|
        0 <= k < steps.len() ==> (#[trigger] steps[k]).permits(
            state_after(state, results.take(k))@,
            results[k],
        )
    &&& attempted(tree, visited.take(first as int)).len() <= steps.len()
    &&& forall|k: int|
        0 <= k < attempted(tree, visited.take(first as int)).len() ==> (#[trigger] results[k])
            is Ok
    &&& execution.spec_state() == state_after(state, results)
    &&& execution.spec_passed() == passed_keys(steps, results)
    &&& failures_of(execution.spec_failed()) == failures(steps, results)
    &&& execution.spec_failed().len() == 0 ==> visited.to_set() == tree.nodes()
}

impl<S: Store> Runtime<S> {
    /// The store that the runtime runs actions against.
    pub closed spec fn spec_store(&self) -> S {
        self.store
    }

    /// A runtime that runs actions against `store`.
    pub fn new(store: S) -> (r: Runtime<S>)
        ensures
            r.spec_store() == store,
    {
        Runtime { store }
    }

    pub fn store(&self) -> (r: &S)
        ensures
            *r == self.spec_store(),
    {
        &self.store
    }

    /// Runs batch after batch until every node has run or a batch has had a failure. Within
    /// a batch every action is tried: one that passes hands its catalog on to the next, one
    /// that fails leaves the catalog as it was.
    pub fn execute<C: Action>(&self, state: &State, actions: ActionTree<C>) -> (r: Execution)
        requires
            actions.wf(),
            actions.is_dag(),
        ensures
            exists|
                visited: Seq<Key>,
                results: Seq<Result<State, ActionError>>,
                rounds: nat,
                first: nat,
            |
                records(r, &actions, *state, visited, results, rounds, first),
    {
        let mut execution = Execution::new(state.clone(), Vec::new(), Vec::new());
        let mut completed: Keys = HashSet::new();
        let ghost mut visited: Seq<Key> = Seq::empty();
        let ghost mut results: Seq<Result<State, ActionError>> = Seq::empty();
        let ghost mut rounds: nat = 0;
        let ghost mut first: nat = 0;
        proof {
            actions.lemma_size_fits();
            lemma_keys_upto(actions.spec_size());
            assert(actions.nodes() =~= keys_upto(actions.spec_size()));
            assert(visited.to_set() =~= completed@);
            assert(execution.spec_passed() =~= passed_keys(attempted(&actions, visited), results));
            assert(failures_of(execution.spec_failed()) =~= failures(
                attempted(&actions, visited),
                results,
            ));
        }
        while completed.len() != actions.size()
            invariant
                actions.wf(),
                actions.is_dag(),
                actions.nodes().finite(),
                actions.nodes().len() == actions.spec_size(),
                completed@ == visited.to_set(),
                completed@ == actions.completed_after(rounds),
                completed@.subset_of(actions.nodes()),
                rounds <= completed@.len(),
                is_run(&actions, visited),
                first <= visited.len(),
                rounds == 0 ==> visited.len() == 0,
                rounds > 0 ==> visited.take(first as int).to_set() == actions.completed_after(
                    (rounds - 1) as nat,
                ),
                attempted(&actions, visited.take(first as int)).len() <= results.len(),
                execution.spec_failed().len() == 0,
                results.len() == attempted(&actions, visited).len(),
                forall|k: int| 0 <= k < results.len() ==> (#[trigger] results[k]) is Ok,
                forall|k: int|
                    0 <= k < results.len() ==> (#[trigger] attempted(&actions, visited)[k]).permits(
                        state_after(*state, results.take(k))@,
                        results[k],
                    ),
                execution.spec_state() == state_after(*state, results),
                execution.spec_passed() == passed_keys(attempted(&actions, visited), results),
                failures_of(execution.spec_failed()) == failures(
                    attempted(&actions, visited),
                    results,
                ),
            decreases actions.spec_size() - completed@.len(),
        {
            let ghost before = completed@;
            let ghost visited_before = visited;
            let ghost clean = results.len();
            proof {
                vstd::set_lib::lemma_len_subset(before, actions.nodes());
                assert(exists|node: Key| actions.is_node(node) && !before.contains(node)) by {
                    if forall|node: Key| actions.is_node(node) ==> before.contains(node) {
                        assert(before =~= actions.nodes());
                    }
                }
                lemma_progress(actions, before);
            }
            let batch = actions.next_batch(&completed);
            let ghost nodes = batch_nodes(batch@);
            let mut i: usize = 0;
            assert(nodes.take(0) =~= Seq::empty());
            assert(visited + nodes.take(0) =~= visited);
            while i < batch.len()
                invariant
                    i <= batch.len(),
                    actions.wf(),
                    nodes == batch_nodes(batch@),
                    nodes.no_duplicates(),
                    nodes.to_set() == actions.ready(before),
                    actions.ready(before).subset_of(actions.nodes()),
                    before == visited_before.to_set(),
                    before.subset_of(actions.nodes()),
                    forall|k: int|
                        0 <= k < batch@.len() ==> steps_of((#[trigger] batch@[k]).1@)
                            == actions.spec_steps(batch@[k].0),
                    visited == visited_before + nodes.take(i as int),
                    completed@ == visited.to_set(),
                    is_run(&actions, visited),
                    clean == attempted(&actions, visited_before).len(),
                    clean <= results.len(),
                    results.len() == attempted(&actions, visited).len(),
                    forall|k: int| 0 <= k < clean ==> (#[trigger] results[k]) is Ok,
                    forall|k: int|
                        0 <= k < results.len() ==> (#[trigger] attempted(
                            &actions,
                            visited,
                        )[k]).permits(state_after(*state, results.take(k))@, results[k]),
                    execution.spec_state() == state_after(*state, results),
                    execution.spec_passed() == passed_keys(attempted(&actions, visited), results),
                    failures_of(execution.spec_failed()) == failures(
                        attempted(&actions, visited),
                        results,
                    ),
                decreases batch.len() - i,
            {
                let key = batch[i].0;
                let steps = &batch[i].1;
                let ghost node_steps = actions.spec_steps(key);
                let ghost log_before = attempted(&actions, visited);
                let mut j: usize = 0;
                assert(node_steps.take(0) =~= Seq::empty());
                assert(log_before + node_steps.take(0) =~= log_before);
                while j < steps.len()
                    invariant
                        j <= steps.len(),
                        node_steps == steps_of(steps@),
                        clean <= log_before.len(),
                        results.len() == log_before.len() + j,
                        forall|k: int| 0 <= k < clean ==> (#[trigger] results[k]) is Ok,
                        forall|k: int|
                            0 <= k < results.len() ==> (#[trigger] (log_before + node_steps.take(
                                j as int,
                            ))[k]).permits(state_after(*state, results.take(k))@, results[k]),
                        execution.spec_state() == state_after(*state, results),
                        execution.spec_passed() == passed_keys(
                            log_before + node_steps.take(j as int),
                            results,
                        ),
                        failures_of(execution.spec_failed()) == failures(
                            log_before + node_steps.take(j as int),
                            results,
                        ),
                    decreases steps.len() - j,
                {
                    let step = steps[j];
                    let ghost log = log_before + node_steps.take(j as int);
                    let ghost log_next = log_before + node_steps.take(j as int + 1);
                    let ghost failed_then = execution.spec_failed();
                    let result = step.execute(&self.store, &execution.state);
                    let ghost given = result;
                    let ghost results_next = results.push(result);
                    proof {
                        assert(*step == node_steps[j as int]);
                        assert(log_next =~= log.push(*step));
                        assert(log_next.drop_last() =~= log);
                        assert(results_next.drop_last() =~= results);
                        assert(results_next.take(results.len() as int) =~= results);
                        assert forall|k: int| 0 <= k < results_next.len() implies (
                        #[trigger] log_next[k]).permits(
                            state_after(*state, results_next.take(k))@,
                            results_next[k],
                        ) by {
                            if k < results.len() {
                                assert(results_next.take(k) =~= results.take(k));
                                assert(log_next[k] == log[k]);
                            }
                        }
                    }
                    execution.record(step.key(), result);
                    proof {
                        if given is Err {
                            assert(failures_of(execution.spec_failed()) =~= failures_of(
                                failed_then,
                            ).push((step.spec_key(), given->Err_0)));
                        }
                        results = results_next;
                    }
                    j += 1;
                }
                completed.insert(key);
                proof {
                    let next = visited.push(key);
                    assert(nodes.take(i as int + 1) =~= nodes.take(i as int).push(key));
                    assert(next =~= visited_before + nodes.take(i as int + 1));
                    assert(next.drop_last() =~= visited);
                    assert(node_steps.take(j as int) =~= node_steps);
                    assert(nodes[i as int] == key);
                    assert(nodes.to_set().contains(key));
                    assert(actions.ready(before).contains(key));
                    assert(!visited.contains(key)) by {
                        if visited.contains(key) {
                            let at = choose|at: int| 0 <= at < visited.len() && visited[at] == key;
                            if at < visited_before.len() {
                                assert(visited_before.to_set().contains(key));
                                assert(!before.is_empty());
                            } else {
                                assert(nodes[at - visited_before.len()] == nodes[i as int]);
                            }
                        }
                    }
                    assert(actions.spec_upstream(key).subset_of(visited.to_set())) by {
                        if before.is_empty() {
                            assert(actions.spec_upstream(key).is_empty());
                        } else {
                            assert forall|dependency: Key|
                                actions.spec_upstream(key).contains(
                                    dependency,
                                ) implies visited.to_set().contains(dependency) by {
                                assert(before.contains(dependency));
                                let at = choose|at: int|
                                    0 <= at < visited_before.len() && visited_before[at]
                                        == dependency;
                                assert(visited[at] == dependency);
                            }
                        }
                    }
                    assert forall|k: int| 0 <= k < next.len() implies actions.is_node(
                        #[trigger] next[k],
                    ) && actions.spec_upstream(next[k]).subset_of(next.take(k).to_set()) by {
                        if k < visited.len() {
                            assert(next.take(k) =~= visited.take(k));
                        } else {
                            assert(next.take(k) =~= visited);
                        }
                    }
                    assert(next.to_set() =~= visited.to_set().insert(key)) by {
                        visited.lemma_push_to_set_commute(key);
                    }
                    visited = next;
                }
                i += 1;
            }
            proof {
                assert(nodes.take(i as int) =~= nodes);
                vstd::seq_lib::seq_to_set_distributes_over_add(visited_before, nodes);
                assert(completed@ =~= before.union(actions.ready(before)));
                let node = choose|node: Key|
                    actions.ready(before).contains(node) && !before.contains(node);
                assert(before.insert(node).subset_of(completed@));
                vstd::set_lib::lemma_len_subset(completed@, actions.nodes());
                vstd::set_lib::lemma_len_subset(before.insert(node), completed@);
                rounds = rounds + 1;
                first = visited_before.len();
                assert(visited.take(first as int) =~= visited_before);
                lemma_no_failures(attempted(&actions, visited), results);
                assert(failures_of(execution.spec_failed()).len() == execution.spec_failed().len());
            }
            if execution.has_errors() {
                assert(records(execution, &actions, *state, visited, results, rounds, first));
                return execution;
            }
        }
        proof {
            vstd::set_lib::lemma_subset_equality(completed@, actions.nodes());
            assert(records(execution, &actions, *state, visited, results, rounds, first));
        }
        execution
    }
}

} // verus!
