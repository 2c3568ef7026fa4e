//! The jobs. A job reads the catalog and plans the actions that carry it out.

use crate::action::{
    MoveAction, RebalanceAction, ReloadDatasetAction, RemoveObjectAction, RemovePartitionAction,
};
use crate::base::Bytes;
use crate::dag::{lemma_single_key, ActionTree, Key, Step};
use crate::path::{
    DatasetPath, DatasetPathView, ObjectPath, ObjectPathView, PartitionPath, PartitionPathView,
};
use crate::state::{
    find_partition, lists_objects, total_size, CatalogView, Missing, ObjectsView, State,
    StateError,
};
use vstd::prelude::*;

verus! {

/// A plan: the actions that bring the store and the catalog from one state to another. A
/// job reads the catalog and never touches the store.
pub trait Job {
    /// What the machine's integers ask of the job and the catalog.
    spec fn plannable(&self, catalog: CatalogView) -> bool;

    /// The actions of the job against `state`, in nodes that wait for earlier nodes only.
    fn actions(&self, state: &State) -> (r: Result<ActionTree, StateError>)
        requires
            self.plannable(state@),
        ensures
            r matches Ok(tree) ==> tree.wf() && tree.is_ordered(),
    ;
}

/// Reloads a dataset from the store.
#[derive(Debug)]
pub struct ReloadDataset {
    path: DatasetPath,
}

impl ReloadDataset {
    pub closed spec fn spec_path(&self) -> DatasetPathView {
        self.path@
    }

    pub fn new(path: DatasetPath) -> (r: ReloadDataset)
        ensures
            r.spec_path() == path@,
    {
        ReloadDataset { path }
    }
}

impl Job for ReloadDataset {
    open spec fn plannable(&self, catalog: CatalogView) -> bool {
        true
    }

    /// One node with one action, which reloads the dataset.
    fn actions(&self, state: &State) -> (r: Result<ActionTree, StateError>)
        ensures
            r matches Ok(tree) && tree.spec_size() == 1 && tree.is_root(1) && tree.spec_steps(
                1,
            ).len() == 1 && (tree.spec_steps(1)[0] matches Step::ReloadDataset(action)
                && action.spec_path() == self.spec_path()),
    {
        let reload = ReloadDatasetAction::new(self.path.clone());
        Ok(ActionTree::single(reload))
    }
}

/// The place of `object` once it has moved to the partition `partition` of its dataset.
pub open spec fn moved_to(object: ObjectPathView, partition: Seq<(Seq<char>, Seq<char>)>) -> ObjectPathView {
    ObjectPathView {
        partition: PartitionPathView { dataset: object.partition.dataset, partition },
        key: object.key,
    }
}

/// Whether `steps` removes the objects at `paths`, one after the other.
pub open spec fn removes(steps: Seq<Step>, paths: Seq<ObjectPathView>) -> bool {
    &&& steps.len() == paths.len()
    &&& forall|i: int|
        0 <= i < steps.len() ==> ((#[trigger] steps[i]) matches Step::RemoveObject(action)
            && action.spec_path() == paths[i])
}

/// Whether `steps` moves the objects at `paths`, one after the other, each to the partition
/// `partition` of its dataset.
pub open spec fn moves(
    steps: Seq<Step>,
    paths: Seq<ObjectPathView>,
    partition: Seq<(Seq<char>, Seq<char>)>,
) -> bool {
    &&& steps.len() == paths.len()
    &&& forall|i: int|
        0 <= i < steps.len() ==> ((#[trigger] steps[i]) matches Step::Move(action)
            && action.spec_source() == paths[i] && action.spec_target() == moved_to(
            paths[i],
            partition,
        ))
}

/// Moves the objects of a partition to another partition, whose own objects go first.
#[derive(Debug)]
pub struct MovePartition {
    source: PartitionPath,
    target: PartitionPath,
}

impl MovePartition {
    pub closed spec fn spec_source(&self) -> PartitionPathView {
        self.source@
    }

    pub closed spec fn spec_target(&self) -> PartitionPathView {
        self.target@
    }

    pub fn new(source: PartitionPath, target: PartitionPath) -> (r: MovePartition)
        ensures
            r.spec_source() == source@,
            r.spec_target() == target@,
    {
        MovePartition { source, target }
    }

    /// Whether `tree` is the plan of the move against `catalog`: three nodes in a chain. The
    /// first removes the objects in `removed`, the second moves the objects in `moved`, the
    /// third removes the source partition.
    pub open spec fn is_plan(
        &self,
        tree: ActionTree,
        catalog: CatalogView,
        removed: Seq<ObjectPathView>,
        moved: Seq<ObjectPathView>,
    ) -> bool {
        &&& tree.spec_size() == 3
        &&& tree.spec_upstream(1).is_empty()
        &&& tree.spec_upstream(2) == set![1usize]
        &&& tree.spec_upstream(3) == set![2usize]
        &&& match find_partition(catalog, self.spec_target()) {
            Ok(objects) => lists_objects(removed, self.spec_target(), objects),
            Err(_) => removed.len() == 0,
        }
        &&& removes(tree.spec_steps(1), removed)
        &&& find_partition(catalog, self.spec_source()) is Ok
        &&& lists_objects(moved, self.spec_source(), find_partition(catalog, self.spec_source())->Ok_0)
        &&& moves(tree.spec_steps(2), moved, self.spec_target().partition)
        &&& tree.spec_steps(3).len() == 1
        &&& tree.spec_steps(3)[0] matches Step::RemovePartition(action) && action.spec_path()
            == self.spec_source()
    }
}

impl Job for MovePartition {
    open spec fn plannable(&self, catalog: CatalogView) -> bool {
        true
    }

    /// The plan fails where the catalog does not hold the source partition, and only there.
    fn actions(&self, state: &State) -> (r: Result<ActionTree, StateError>)
        ensures
            match r {
                Ok(tree) => exists|removed: Seq<ObjectPathView>, moved: Seq<ObjectPathView>|
                    self.is_plan(tree, state@, removed, moved),
                Err(error) => find_partition(state@, self.spec_source()) == Err::<
                    ObjectsView,
                    Missing,
                >(error@),
            },
    {
        let mut actions = ActionTree::new();
        let none: Vec<Key> = Vec::new();
        let remove_target_node = actions.add_node(none.as_slice());
        let ghost mut removed: Seq<ObjectPathView> = Seq::empty();
        if state.contains_partition(&self.target) {
            let objects = match state.list_objects(&self.target) {
                Ok(objects) => objects,
                Err(error) => return Err(error),
            };
            proof {
                removed = objects@.map_values(|p: ObjectPath| p@);
            }
            let mut i: usize = 0;
            while i < objects.len()
                invariant
                    i <= objects.len(),
                    removed == objects@.map_values(|p: ObjectPath| p@),
                    actions.wf(),
                    actions.spec_size() == 1,
                    actions.spec_upstream(1).is_empty(),
                    remove_target_node == 1,
                    removes(actions.spec_steps(1), removed.take(i as int)),
                    forall|other: Key| other != 1 ==> actions.spec_steps(other).len() == 0,
                decreases objects.len() - i,
            {
                let ghost before = actions.spec_steps(1);
                let action = RemoveObjectAction::new(objects[i].clone());
                actions.add_action(remove_target_node, action);
                proof {
                    let after = actions.spec_steps(1);
                    assert(after == before.push(Step::RemoveObject(action)));
                    assert forall|k: int| 0 <= k < after.len() implies ((
                    #[trigger] after[k]) matches Step::RemoveObject(a) && a.spec_path()
                        == removed.take(i as int + 1)[k]) by {
                        if k < i {
                            assert(after[k] == before[k]);
                            assert(removed.take(i as int + 1)[k] == removed.take(i as int)[k]);
                        }
                    }
                }
                i += 1;
            }
            assert(removed.take(i as int) =~= removed);
        }
        let mut chain: Vec<Key> = Vec::new();
        chain.push(remove_target_node);
        let copy_node = actions.add_node(chain.as_slice());
        proof {
            assert(chain@ =~= seq![1usize]);
            lemma_single_key(chain@, 1usize);
        }
        let objects = match state.list_objects(&self.source) {
            Ok(objects) => objects,
            Err(error) => return Err(error),
        };
        let ghost moved = objects@.map_values(|p: ObjectPath| p@);
        let ghost first = actions.spec_steps(1);
        let mut i: usize = 0;
        while i < objects.len()
            invariant
                i <= objects.len(),
                moved == objects@.map_values(|p: ObjectPath| p@),
                actions.wf(),
                actions.spec_size() == 2,
                actions.spec_upstream(1).is_empty(),
                actions.spec_upstream(2) == set![1usize],
                copy_node == 2,
                actions.spec_steps(1) == first,
                moves(actions.spec_steps(2), moved.take(i as int), self.spec_target().partition),
                forall|other: Key| other > 2 ==> actions.spec_steps(other).len() == 0,
            decreases objects.len() - i,
        {
            let ghost before = actions.spec_steps(2);
            let target = objects[i].update_partition(&self.target.partition);
            let action = MoveAction::new(objects[i].clone(), target);
            actions.add_action(copy_node, action);
            proof {
                let after = actions.spec_steps(2);
                assert(after == before.push(Step::Move(action)));
                assert forall|k: int| 0 <= k < after.len() implies ((
                #[trigger] after[k]) matches Step::Move(a) && a.spec_source() == moved.take(
                    i as int + 1,
                )[k] && a.spec_target() == moved_to(
                    moved.take(i as int + 1)[k],
                    self.spec_target().partition,
                )) by {
                    if k < i {
                        assert(after[k] == before[k]);
                        assert(moved.take(i as int + 1)[k] == moved.take(i as int)[k]);
                    }
                }
            }
            i += 1;
        }
        assert(moved.take(i as int) =~= moved);
        let mut chain: Vec<Key> = Vec::new();
        chain.push(copy_node);
        let remove_partition_node = actions.add_node(chain.as_slice());
        proof {
            assert(chain@ =~= seq![2usize]);
            lemma_single_key(chain@, 2usize);
        }
        let ghost empty = actions.spec_steps(3);
        let last = RemovePartitionAction::new(self.source.clone());
        actions.add_action(remove_partition_node, last);
        assert(actions.spec_steps(3) == empty.push(Step::RemovePartition(last)));
        let r: Result<ActionTree, StateError> = Ok(actions);
        assert(r matches Ok(tree) && self.is_plan(tree, state@, removed, moved));
        r
    }
}

/// Merges the objects of a partition into objects of about a given size, where the partition
/// is large enough for that to be worth it.
#[derive(Debug)]
pub struct RebalanceObjects {
    path: PartitionPath,
    target_size: Bytes,
}

impl RebalanceObjects {
    pub closed spec fn spec_path(&self) -> PartitionPathView {
        self.path@
    }

    pub closed spec fn spec_target_size(&self) -> Bytes {
        self.target_size
    }

    pub fn new(path: PartitionPath, target_size: Bytes) -> (r: RebalanceObjects)
        ensures
            r.spec_path() == path@,
            r.spec_target_size() == target_size,
    {
        RebalanceObjects { path, target_size }
    }

    /// Whether a partition of `size` bytes is too small to rebalance: smaller than one and a
    /// half times the target size.
    pub open spec fn is_small(&self, size: nat) -> bool {
        2 * size < 3 * self.spec_target_size()@
    }

    /// Whether `tree` is the plan of the rebalance of `objects`: nothing where the partition
    /// is small, else two roots. The first merges the objects in `inputs` towards the target
    /// size, into as many objects as the target size goes into the partition's size; the
    /// second removes them.
    pub open spec fn is_plan(
        &self,
        tree: ActionTree,
        objects: ObjectsView,
        inputs: Seq<ObjectPathView>,
    ) -> bool {
        if self.is_small(total_size(objects)) {
            tree.spec_size() == 0
        } else {
            &&& tree.spec_size() == 2
            &&& tree.spec_upstream(1).is_empty()
            &&& tree.spec_upstream(2).is_empty()
            &&& lists_objects(inputs, self.spec_path(), objects)
            &&& tree.spec_steps(1).len() == 1
            &&& tree.spec_steps(1)[0] matches Step::Rebalance(action) && action.spec_paths()
                == inputs && action.spec_size() == self.spec_target_size() && action.spec_count()
                == total_size(objects) / self.spec_target_size()@
            &&& removes(tree.spec_steps(2), inputs)
        }
    }
}

/// A partition whose objects have a size holds an object.
pub proof fn lemma_sized_partition_has_objects(objects: ObjectsView)
    requires
        objects.dom().finite(),
        total_size(objects) > 0,
    ensures
        objects.dom().len() > 0,
{
}

impl Job for RebalanceObjects {
    open spec fn plannable(&self, catalog: CatalogView) -> bool {
        &&& self.spec_target_size()@ > 0
        &&& find_partition(catalog, self.spec_path()) matches Ok(objects) ==> total_size(objects)
            <= usize::MAX
    }

    /// The plan fails where the catalog does not hold the partition, and only there.
    fn actions(&self, state: &State) -> (r: Result<ActionTree, StateError>)
        ensures
            match r {
                Ok(tree) => find_partition(state@, self.spec_path()) is Ok && exists|
                    inputs: Seq<ObjectPathView>,
                |
                    self.is_plan(tree, find_partition(state@, self.spec_path())->Ok_0, inputs),
                Err(error) => find_partition(state@, self.spec_path()) == Err::<
                    ObjectsView,
                    Missing,
                >(error@),
            },
    {
        let mut actions = ActionTree::new();
        let partition = match state.get_partition(&self.path) {
            Ok(partition) => partition,
            Err(error) => return Err(error),
        };
        let ghost content = partition@;
        let partition_size = partition.size().as_usize();
        let target_size = self.target_size.as_usize();
        if 2 * (partition_size as u128) < 3 * (target_size as u128) {
            let r: Result<ActionTree, StateError> = Ok(actions);
            assert(r matches Ok(tree) && self.is_plan(tree, content, Seq::empty()));
            return r;
        }
        let objects = match state.list_objects(&self.path) {
            Ok(objects) => objects,
            Err(error) => return Err(error),
        };
        let ghost inputs = objects@.map_values(|p: ObjectPath| p@);
        let target_count = partition_size / target_size;
        proof {
            let names = inputs.map_values(|path: ObjectPathView| path.key);
            vstd::seq_lib::seq_to_set_is_finite(names);
            lemma_sized_partition_has_objects(content);
            if objects@.len() == 0 {
                assert(names.to_set() =~= Set::empty());
            }
            assert(target_count >= 1) by (nonlinear_arith)
                requires
                    2 * partition_size >= 3 * target_size,
                    target_size > 0,
                    target_count == partition_size / target_size,
            ;
        }
        let none: Vec<Key> = Vec::new();
        let rebalance_node = actions.add_node(none.as_slice());
        let delete_node = actions.add_node(none.as_slice());
        assert(none@.to_set() =~= Set::empty());
        let mut i: usize = 0;
        while i < objects.len()
            invariant
                i <= objects.len(),
                inputs == objects@.map_values(|p: ObjectPath| p@),
                actions.wf(),
                actions.spec_size() == 2,
                actions.spec_upstream(1).is_empty(),
                actions.spec_upstream(2).is_empty(),
                delete_node == 2,
                actions.spec_steps(1).len() == 0,
                removes(actions.spec_steps(2), inputs.take(i as int)),
            decreases objects.len() - i,
        {
            let ghost before = actions.spec_steps(2);
            let action = RemoveObjectAction::new(objects[i].clone());
            actions.add_action(delete_node, action);
            proof {
                let after = actions.spec_steps(2);
                assert(after == before.push(Step::RemoveObject(action)));
                assert forall|k: int| 0 <= k < after.len() implies ((
                #[trigger] after[k]) matches Step::RemoveObject(a) && a.spec_path()
                    == inputs.take(i as int + 1)[k]) by {
                    if k < i {
                        assert(after[k] == before[k]);
                        assert(inputs.take(i as int + 1)[k] == inputs.take(i as int)[k]);
                    }
                }
            }
            i += 1;
        }
        assert(inputs.take(i as int) =~= inputs);
        let ghost empty = actions.spec_steps(1);
        let rebalance = RebalanceAction::new(objects, self.target_size, target_count);
        actions.add_action(rebalance_node, rebalance);
        assert(actions.spec_steps(1) == empty.push(Step::Rebalance(rebalance)));
        let r: Result<ActionTree, StateError> = Ok(actions);
        assert(r matches Ok(tree) && self.is_plan(tree, content, inputs));
        r
    }
}

} // verus!
