use dataset_catalog::action::{Action, RemovePartitionAction};
use dataset_catalog::base::{Bucket, Partition, Protocol};
use dataset_catalog::dag::{ActionTree, Custom, IntoStep, Key, Keys, NoCustom, Step};
use dataset_catalog::path::{DatasetPath, PartitionPath};

fn partition(value: &str) -> PartitionPath {
    DatasetPath::new(Bucket::new(Protocol::File, "bucket".to_string()), "ds".to_string())
        .partition_path(&Partition::new("date", value))
}

fn remove(value: &str) -> RemovePartitionAction {
    RemovePartitionAction::new(partition(value))
}

fn done(keys: &[Key]) -> Keys {
    keys.iter().copied().collect()
}

fn nodes_of(batch: &Vec<(Key, Vec<&Step>)>) -> Vec<Key> {
    let mut nodes: Vec<Key> = batch.iter().map(|entry| entry.0).collect();
    nodes.sort();
    nodes
}

fn keys_of(steps: &Vec<&Step>) -> Vec<String> {
    steps.iter().map(|step| step.key()).collect()
}

/// Runs batch after batch and gives the batches, as the runtime would see them.
fn batches(tree: &ActionTree) -> Vec<Vec<Key>> {
    let mut completed = Keys::new();
    let mut rounds = Vec::new();
    while completed.len() != tree.size() {
        let batch = nodes_of(&tree.next_batch(&completed));
        assert!(!batch.is_empty());
        for node in &batch {
            assert!(completed.insert(*node));
        }
        rounds.push(batch);
        assert!(rounds.len() <= tree.size());
    }
    rounds
}

#[test]
fn new_tree_is_empty() {
    let tree = ActionTree::new();
    assert_eq!(tree.size(), 0);
    assert!(tree.next_batch(&Keys::new()).is_empty());
    assert!(tree.get_actions(1).is_empty());
    assert!(batches(&tree).is_empty());
}

#[test]
fn single_has_one_root_with_one_action() {
    let tree = ActionTree::single(remove("2020-01"));
    assert_eq!(tree.size(), 1);
    let batch = tree.next_batch(&Keys::new());
    assert_eq!(batch.len(), 1);
    assert_eq!(batch[0].0, 1);
    assert_eq!(keys_of(&batch[0].1), vec!["rm(file://bucket/ds/date=2020-01/)".to_string()]);
    assert!(tree.next_batch(&done(&[1])).is_empty());
}

#[test]
fn keys_are_dense_from_one() {
    let mut tree = ActionTree::new();
    assert_eq!(tree.add_node(&[]), 1);
    assert_eq!(tree.add_node(&[1]), 2);
    assert_eq!(tree.add_node(&[]), 3);
    assert_eq!(tree.add_node(&[1, 3]), 4);
    assert_eq!(tree.size(), 4);
}

#[test]
fn first_batch_is_the_roots() {
    let mut tree = ActionTree::new();
    tree.add_node(&[]);
    tree.add_node(&[1]);
    tree.add_node(&[]);
    tree.add_node(&[2, 3]);
    assert_eq!(nodes_of(&tree.next_batch(&Keys::new())), vec![1, 3]);
}

#[test]
fn last_batch_is_empty() {
    let mut tree = ActionTree::new();
    tree.add_node(&[]);
    tree.add_node(&[1]);
    tree.add_node(&[]);
    tree.add_node(&[2, 3]);
    assert!(tree.next_batch(&done(&[1, 2, 3, 4])).is_empty());
}

#[test]
fn a_node_is_ready_when_its_upstream_has_run() {
    let mut tree = ActionTree::new();
    tree.add_node(&[]);
    tree.add_node(&[1]);
    tree.add_node(&[]);
    tree.add_node(&[2, 3]);
    assert_eq!(nodes_of(&tree.next_batch(&done(&[1, 3]))), vec![2]);
    assert_eq!(nodes_of(&tree.next_batch(&done(&[1, 2, 3]))), vec![4]);
    assert_eq!(nodes_of(&tree.next_batch(&done(&[1, 2]))), vec![3]);
    assert_eq!(nodes_of(&tree.next_batch(&done(&[3]))), vec![1]);
    assert!(tree.next_batch(&done(&[1, 2, 3, 4])).is_empty());
}

#[test]
fn a_root_that_has_not_run_is_ready() {
    let mut tree = ActionTree::new();
    tree.add_node(&[]);
    tree.add_node(&[]);
    tree.add_node(&[1]);
    assert_eq!(nodes_of(&tree.next_batch(&done(&[1]))), vec![2, 3]);
}

#[test]
fn repeated_dependencies_count_once() {
    let mut tree = ActionTree::new();
    tree.add_node(&[]);
    tree.add_node(&[1, 1, 1]);
    assert_eq!(nodes_of(&tree.next_batch(&Keys::new())), vec![1]);
    assert_eq!(nodes_of(&tree.next_batch(&done(&[1]))), vec![2]);
}

#[test]
fn a_chain_runs_one_node_per_batch() {
    let mut tree = ActionTree::new();
    tree.add_node(&[]);
    tree.add_node(&[1]);
    tree.add_node(&[2]);
    assert_eq!(batches(&tree), vec![vec![1], vec![2], vec![3]]);
}

#[test]
fn a_diamond_runs_in_three_batches() {
    let mut tree = ActionTree::new();
    tree.add_node(&[]);
    tree.add_node(&[1]);
    tree.add_node(&[1]);
    tree.add_node(&[2, 3]);
    assert_eq!(batches(&tree), vec![vec![1], vec![2, 3], vec![4]]);
}

#[test]
fn independent_roots_run_in_one_batch() {
    let mut tree = ActionTree::new();
    tree.add_node(&[]);
    tree.add_node(&[]);
    tree.add_node(&[]);
    assert_eq!(batches(&tree), vec![vec![1, 2, 3]]);
}

#[test]
fn a_node_may_wait_for_a_later_node() {
    let mut tree = ActionTree::new();
    tree.add_node(&[2]);
    tree.add_node(&[]);
    assert_eq!(batches(&tree), vec![vec![2], vec![1]]);
}

#[test]
fn actions_keep_their_order_within_a_node() {
    let mut tree = ActionTree::new();
    let node = tree.add_node(&[]);
    tree.add_action(node, remove("a"));
    tree.add_action(node, remove("b"));
    tree.add_action(node, remove("c"));
    let other = tree.add_node(&[node]);
    tree.add_action(other, remove("d"));
    let batch = tree.next_batch(&Keys::new());
    assert_eq!(batch.len(), 1);
    assert_eq!(
        keys_of(&batch[0].1),
        vec![
            "rm(file://bucket/ds/date=a/)".to_string(),
            "rm(file://bucket/ds/date=b/)".to_string(),
            "rm(file://bucket/ds/date=c/)".to_string(),
        ]
    );
    assert_eq!(keys_of(&tree.get_actions(other)), vec!["rm(file://bucket/ds/date=d/)".to_string()]);
    assert_eq!(tree.size(), 2);
}

#[test]
fn a_node_without_actions_has_an_empty_list() {
    let mut tree = ActionTree::new();
    tree.add_node(&[]);
    let batch = tree.next_batch(&Keys::new());
    assert_eq!(batch.len(), 1);
    assert!(batch[0].1.is_empty());
}

#[test]
fn a_step_keeps_the_key_of_its_action() {
    let step: Step = Step::new(remove("2020-01"));
    assert_eq!(step.key(), remove("2020-01").key());
    assert!(matches!(step, Step::RemovePartition(_)));
    let made: Step = remove("2020-01").into_step();
    assert!(matches!(made, Step::RemovePartition(_)));
    let same: Step = Step::new(step);
    assert_eq!(same.key(), "rm(file://bucket/ds/date=2020-01/)");
}

#[test]
fn an_action_of_another_kind_is_a_custom_step() {
    let custom = Custom::new(remove("a"));
    assert_eq!(custom.key(), "rm(file://bucket/ds/date=a/)");
    let step: Step<RemovePartitionAction> = Step::new(custom);
    assert!(matches!(step, Step::Custom(_)));
    assert_eq!(step.key(), "rm(file://bucket/ds/date=a/)");
    let mut tree = ActionTree::<RemovePartitionAction>::with_custom();
    assert_eq!(tree.size(), 0);
    let node = tree.add_node(&[]);
    tree.add_action(node, Custom::new(remove("b")));
    tree.add_action(node, remove("c"));
    let steps = tree.get_actions(node);
    let keys: Vec<String> = steps.iter().map(|step| step.key()).collect();
    assert_eq!(
        keys,
        vec!["rm(file://bucket/ds/date=b/)".to_string(), "rm(file://bucket/ds/date=c/)".to_string()]
    );
    assert!(matches!(steps[0], Step::Custom(_)));
    assert!(matches!(steps[1], Step::RemovePartition(_)));
    assert_eq!(tree.next_batch(&Keys::new()).len(), 1);
}

#[test]
fn the_action_that_stands_for_no_other_kind_changes_nothing() {
    assert_eq!(NoCustom.key(), "");
    let step: Step = Step::new(Custom::new(NoCustom));
    assert!(matches!(step, Step::Custom(NoCustom)));
    assert_eq!(step.key(), "");
}
