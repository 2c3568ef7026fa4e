//! The actions of jobs. An action changes the store and gives the catalog that mirrors the
//! change.

use crate::base::{Bytes, Format, ObjectKey, Partition};
use crate::path::{
    dataset_text, object_text, partition_text, DatasetPath, DatasetPathView, ObjectPath,
    ObjectPathView, PartitionPath, PartitionPathView,
};
use crate::state::{
    find_dataset, find_object, with_dataset, with_moved_object, with_objects, with_partition,
    lemma_collected_objects_names, lemma_collected_partitions_names, without_object,
    without_partition, CatalogView, DatasetState, Missing, ObjectState,
    ObjectsView, PartitionState, PartitionsView, State, StateError,
};
use crate::store::{RebalanceTarget, Store, StoreError};
use crate::text::{decimal, joined, usize_to_string};
use vstd::prelude::*;

verus! {

/// Why an action failed: the catalog refused the change, or the store did.
#[derive(Debug)]
pub enum ActionError {
    State(StateError),
    Store(StoreError),
}

/// One step of a job: a change to the store together with the change to the catalog that
/// mirrors it.
pub trait Action {
    /// The text that names the action in reports.
    spec fn spec_key(&self) -> Seq<char>;

    fn key(&self) -> (r: String)
        ensures
            r@ == self.spec_key(),
    ;

    /// Whether `result` is something that the action may give when it is run on `catalog`:
    /// the catalog that mirrors its change to the store, or an error.
    spec fn permits(&self, catalog: CatalogView, result: Result<State, ActionError>) -> bool;

    /// Changes the store and gives the catalog that mirrors the change. The catalog handed
    /// in is not touched; after an error it is still the one to go on with.
    fn execute(&self, store: &dyn Store, state: &State) -> (r: Result<State, ActionError>)
        ensures
            self.permits(state@, r),
    ;
}

/// An action in a box is the action in it.
impl<A: Action + ?Sized> Action for Box<A> {
    open spec fn spec_key(&self) -> Seq<char> {
        (**self).spec_key()
    }

    open spec fn permits(&self, catalog: CatalogView, result: Result<State, ActionError>) -> bool {
        (**self).permits(catalog, result)
    }

    fn key(&self) -> (r: String) {
        (**self).key()
    }

    fn execute(&self, store: &dyn Store, state: &State) -> (r: Result<State, ActionError>) {
        (**self).execute(store, state)
    }
}

/// Whether `result` is what an action gives whose change to the catalog is `expected`: the
/// changed catalog, or the catalog's own error, or, where the catalog allows the change, an
/// error of the store.
pub open spec fn follows(
    result: Result<State, ActionError>,
    expected: Result<CatalogView, Missing>,
) -> bool {
    match result {
        Ok(state) => expected == Ok::<CatalogView, Missing>(state@),
        Err(ActionError::State(error)) => expected == Err::<CatalogView, Missing>(error@),
        Err(ActionError::Store(_)) => expected is Ok,
    }
}

/// Ends an action whose change to the catalog is `next`: the store's answer decides whether
/// the change stands.
pub fn conclude(next: State, effect: Result<(), StoreError>) -> (r: Result<State, ActionError>)
    ensures
        match effect {
            Ok(_) => r == Ok::<State, ActionError>(next),
            Err(error) => r == Err::<State, ActionError>(ActionError::Store(error)),
        },
{
    match effect {
        Ok(_) => Ok(next),
        Err(error) => Err(ActionError::Store(error)),
    }
}

/// The key of an action that reloads what lies at `place`.
pub open spec fn reload_key(place: Seq<char>) -> Seq<char> {
    "reload("@ + place + ")"@
}

/// The key of the action that removes the partition at `path`.
pub open spec fn remove_partition_key(path: PartitionPathView) -> Seq<char> {
    "rm("@ + partition_text(path) + "/)"@
}

/// The key of the action that removes the object at `path`.
pub open spec fn remove_object_key(path: ObjectPathView) -> Seq<char> {
    "remove("@ + object_text(path) + ")"@
}

/// The key of the action that moves the object at `source` to `target`.
pub open spec fn move_key(source: ObjectPathView, target: ObjectPathView) -> Seq<char> {
    "move("@ + object_text(source) + ", "@ + object_text(target) + ")"@
}

/// The key of the action that rebalances the objects at `paths` into `count` objects.
pub open spec fn rebalance_key(paths: Seq<ObjectPathView>, count: nat) -> Seq<char> {
    "rebalance("@ + joined(paths.map_values(|path: ObjectPathView| object_text(path)), ", "@)
        + ", "@ + decimal(count) + ")"@
}

/// Loads a dataset from the store and makes it the catalog's dataset at its path.
#[derive(Debug)]
pub struct ReloadDatasetAction {
    path: DatasetPath,
}

impl ReloadDatasetAction {
    pub closed spec fn spec_path(&self) -> DatasetPathView {
        self.path@
    }

    pub fn new(path: DatasetPath) -> (r: ReloadDatasetAction)
        ensures
            r.spec_path() == path@,
    {
        ReloadDatasetAction { path }
    }

    /// Reads the dataset from the store: its partitions, and each partition's objects.
    fn load_dataset(&self, store: &dyn Store) -> (r: Result<DatasetState, StoreError>) {
        let partitions = match store.list_partitions(&self.path) {
            Ok(partitions) => partitions,
            Err(error) => return Err(error),
        };
        self.load_listed(store, &partitions)
    }

    /// Reads the partitions `partitions` of the dataset from the store. The dataset that
    /// comes back holds each of them, and no other. Where nothing is listed the store is not
    /// asked, and the dataset is empty.
    pub fn load_listed(&self, store: &dyn Store, partitions: &Vec<Partition>) -> (r: Result<
        DatasetState,
        StoreError,
    >)
        ensures
            partitions@.len() == 0 ==> r is Ok,
            r matches Ok(dataset) ==> dataset@.dom() == partitions@.map_values(
                |p: Partition| p@,
            ).to_set(),
    {
        let mut entries: Vec<(Partition, PartitionState)> = Vec::new();
        let mut i: usize = 0;
        while i < partitions.len()
            invariant
                i <= partitions.len(),
                entries@.len() == i,
                forall|j: int| 0 <= j < i ==> (#[trigger] entries@[j]).0@ == partitions@[j]@,
            decreases partitions.len() - i,
        {
            let action = ReloadPartitionAction::new(self.path.partition_path(&partitions[i]));
            match action.load_partition(store) {
                Ok(state) => entries.push((partitions[i].clone(), state)),
                Err(error) => return Err(error),
            }
            i += 1;
        }
        proof {
            lemma_collected_partitions_names(entries@);
            assert(Seq::new(entries@.len(), |i: int| entries@[i].0@) =~= partitions@.map_values(
                |p: Partition| p@,
            ));
        }
        Ok(DatasetState::from_partitions(&entries))
    }
}

impl Action for ReloadDatasetAction {
    open spec fn spec_key(&self) -> Seq<char> {
        reload_key(dataset_text(self.spec_path()))
    }

    fn key(&self) -> (r: String) {
        let mut out = "reload(".to_owned();
        let place = self.path.to_string();
        out.append(place.as_str());
        out.append(")");
        out
    }

    /// The dataset at the action's path is replaced by what the store holds; the rest of the
    /// catalog stays. Only the store can fail.
    open spec fn permits(&self, catalog: CatalogView, result: Result<State, ActionError>) -> bool {
        match result {
            Ok(next) => exists|partitions: PartitionsView|
                next@ == with_dataset(catalog, self.spec_path(), partitions),
            Err(error) => error is Store,
        }
    }

    fn execute(&self, store: &dyn Store, state: &State) -> (r: Result<State, ActionError>) {
        let dataset = match self.load_dataset(store) {
            Ok(dataset) => dataset,
            Err(error) => return Err(ActionError::Store(error)),
        };
        match state.insert_dataset(&self.path, dataset) {
            Ok(next) => {
                assert(next@ == with_dataset(state@, self.spec_path(), dataset@));
                Ok(next)
            },
            Err(error) => Err(ActionError::State(error)),
        }
    }
}

/// Loads a partition from the store and makes it the catalog's partition at its path.
#[derive(Debug)]
pub struct ReloadPartitionAction {
    path: PartitionPath,
}

impl ReloadPartitionAction {
    pub closed spec fn spec_path(&self) -> PartitionPathView {
        self.path@
    }

    pub fn new(path: PartitionPath) -> (r: ReloadPartitionAction)
        ensures
            r.spec_path() == path@,
    {
        ReloadPartitionAction { path }
    }

    /// Reads the partition from the store: its objects, and each object's metadata.
    fn load_partition(&self, store: &dyn Store) -> (r: Result<PartitionState, StoreError>) {
        let keys = match store.list_objects(&self.path) {
            Ok(keys) => keys,
            Err(error) => return Err(error),
        };
        self.load_listed(store, &keys)
    }

    /// Reads the objects `keys` of the partition from the store. The partition that comes
    /// back holds each of them, and no other. Where nothing is listed the store is not asked,
    /// and the partition is empty.
    pub fn load_listed(&self, store: &dyn Store, keys: &Vec<ObjectKey>) -> (r: Result<
        PartitionState,
        StoreError,
    >)
        ensures
            keys@.len() == 0 ==> r is Ok,
            r matches Ok(partition) ==> partition@.dom() == keys@.map_values(
                |k: ObjectKey| k@,
            ).to_set(),
    {
        let mut entries: Vec<(ObjectKey, ObjectState)> = Vec::new();
        let mut i: usize = 0;
        while i < keys.len()
            invariant
                i <= keys.len(),
                entries@.len() == i,
                forall|j: int| 0 <= j < i ==> (#[trigger] entries@[j]).0@ == keys@[j]@,
            decreases keys.len() - i,
        {
            let path = self.path.object_path(&keys[i]);
            match store.read_object(&path) {
                Ok(state) => entries.push((keys[i].clone(), state)),
                Err(error) => return Err(error),
            }
            i += 1;
        }
        proof {
            lemma_collected_objects_names(entries@);
            assert(Seq::new(entries@.len(), |i: int| entries@[i].0@) =~= keys@.map_values(
                |k: ObjectKey| k@,
            ));
        }
        Ok(PartitionState::from_objects(&entries))
    }
}

impl Action for ReloadPartitionAction {
    open spec fn spec_key(&self) -> Seq<char> {
        reload_key(partition_text(self.spec_path()))
    }

    fn key(&self) -> (r: String) {
        let mut out = "reload(".to_owned();
        let place = self.path.to_string();
        out.append(place.as_str());
        out.append(")");
        out
    }

    /// The partition at the action's path is replaced, or made, by what the store holds;
    /// the rest of the catalog stays. The dataset has to be in the catalog.
    open spec fn permits(&self, catalog: CatalogView, result: Result<State, ActionError>) -> bool {
        match result {
            Ok(next) => exists|objects: ObjectsView|
                with_partition(catalog, self.spec_path(), objects) == Ok::<CatalogView, Missing>(
                    next@,
                ),
            Err(ActionError::State(error)) => find_dataset(catalog, self.spec_path().dataset)
                == Err::<PartitionsView, Missing>(error@),
            Err(ActionError::Store(_)) => true,
        }
    }

    fn execute(&self, store: &dyn Store, state: &State) -> (r: Result<State, ActionError>) {
        let partition = match self.load_partition(store) {
            Ok(partition) => partition,
            Err(error) => return Err(ActionError::Store(error)),
        };
        match state.insert_partition(&self.path, partition) {
            Ok(next) => {
                assert(with_partition(state@, self.spec_path(), partition@) == Ok::<
                    CatalogView,
                    Missing,
                >(next@));
                Ok(next)
            },
            Err(error) => Err(ActionError::State(error)),
        }
    }
}

/// Removes a partition from the store and from the catalog.
#[derive(Debug)]
pub struct RemovePartitionAction {
    path: PartitionPath,
}

impl RemovePartitionAction {
    pub closed spec fn spec_path(&self) -> PartitionPathView {
        self.path@
    }

    pub fn new(path: PartitionPath) -> (r: RemovePartitionAction)
        ensures
            r.spec_path() == path@,
    {
        RemovePartitionAction { path }
    }
}

impl Action for RemovePartitionAction {
    open spec fn spec_key(&self) -> Seq<char> {
        remove_partition_key(self.spec_path())
    }

    fn key(&self) -> (r: String) {
        let mut out = "rm(".to_owned();
        let place = self.path.to_string();
        out.append(place.as_str());
        out.append("/)");
        out
    }

    /// The partition is taken out of the catalog, which has to hold it.
    open spec fn permits(&self, catalog: CatalogView, result: Result<State, ActionError>) -> bool {
        follows(result, without_partition(catalog, self.spec_path()))
    }

    fn execute(&self, store: &dyn Store, state: &State) -> (r: Result<State, ActionError>) {
        let next = match state.remove_partition(&self.path) {
            Ok(next) => next,
            Err(error) => return Err(ActionError::State(error)),
        };
        conclude(next, store.remove_partition(&self.path))
    }
}

/// Removes an object from the store and from the catalog.
#[derive(Debug)]
pub struct RemoveObjectAction {
    path: ObjectPath,
}

impl RemoveObjectAction {
    pub closed spec fn spec_path(&self) -> ObjectPathView {
        self.path@
    }

    pub fn new(path: ObjectPath) -> (r: RemoveObjectAction)
        ensures
            r.spec_path() == path@,
    {
        RemoveObjectAction { path }
    }
}

impl Action for RemoveObjectAction {
    open spec fn spec_key(&self) -> Seq<char> {
        remove_object_key(self.spec_path())
    }

    fn key(&self) -> (r: String) {
        let mut out = "remove(".to_owned();
        let place = self.path.to_string();
        out.append(place.as_str());
        out.append(")");
        out
    }

    /// The object is taken out of the catalog, which has to hold it.
    open spec fn permits(&self, catalog: CatalogView, result: Result<State, ActionError>) -> bool {
        follows(result, without_object(catalog, self.spec_path()))
    }

    fn execute(&self, store: &dyn Store, state: &State) -> (r: Result<State, ActionError>) {
        let next = match state.remove_object(&self.path) {
            Ok(next) => next,
            Err(error) => return Err(ActionError::State(error)),
        };
        conclude(next, store.remove_object(&self.path))
    }
}

/// Moves an object in the store and in the catalog.
#[derive(Debug)]
pub struct MoveAction {
    source: ObjectPath,
    target: ObjectPath,
}

impl MoveAction {
    pub closed spec fn spec_source(&self) -> ObjectPathView {
        self.source@
    }

    pub closed spec fn spec_target(&self) -> ObjectPathView {
        self.target@
    }

    pub fn new(source: ObjectPath, target: ObjectPath) -> (r: MoveAction)
        ensures
            r.spec_source() == source@,
            r.spec_target() == target@,
    {
        MoveAction { source, target }
    }
}

impl Action for MoveAction {
    open spec fn spec_key(&self) -> Seq<char> {
        move_key(self.spec_source(), self.spec_target())
    }

    fn key(&self) -> (r: String) {
        let mut out = "move(".to_owned();
        let source = self.source.to_string();
        out.append(source.as_str());
        out.append(", ");
        let target = self.target.to_string();
        out.append(target.as_str());
        out.append(")");
        out
    }

    /// The object is moved in the catalog, which has to hold the source and the target's
    /// dataset.
    open spec fn permits(&self, catalog: CatalogView, result: Result<State, ActionError>) -> bool {
        follows(result, with_moved_object(catalog, self.spec_source(), self.spec_target()))
    }

    fn execute(&self, store: &dyn Store, state: &State) -> (r: Result<State, ActionError>) {
        let next = match state.move_object(&self.source, &self.target) {
            Ok(next) => next,
            Err(error) => return Err(ActionError::State(error)),
        };
        conclude(next, store.move_object(&self.source, &self.target))
    }
}

/// The sum of the row counts of the objects at `paths`, if the catalog holds each of them
/// and records a row count for each.
pub open spec fn spec_rows_sum(catalog: CatalogView, paths: Seq<ObjectPathView>) -> Option<nat>
    decreases paths.len(),
{
    if paths.len() == 0 {
        Some(0nat)
    } else {
        match (spec_rows_sum(catalog, paths.drop_last()), find_object(catalog, paths.last())) {
            (Some(sum), Ok(object)) => match object.spec_num_rows() {
                Some(rows) => Some(sum + rows as nat),
                None => None,
            },
            _ => None,
        }
    }
}

/// The key of the output number `index` of a rebalance: the number, a dot, the format's name.
pub open spec fn output_key(index: nat, format: Format) -> Seq<char> {
    decimal(index) + seq!['.'] + format.spec_name()
}

/// The outputs of a rebalance into `count` objects of `format` in `partition`.
pub open spec fn spec_outputs(partition: PartitionPathView, format: Format, count: nat) -> Seq<
    ObjectPathView,
> {
    Seq::new(count, |i: int| ObjectPathView { partition, key: output_key(i as nat, format) })
}

/// The sum of the row counts of the objects at `paths`: `None` where an object is missing or
/// has no row count, and where the sum does not fit.
pub fn total_rows(state: &State, paths: &Vec<ObjectPath>) -> (r: Option<usize>)
    ensures
        match r {
            Some(sum) => spec_rows_sum(state@, paths@.map_values(|p: ObjectPath| p@)) == Some(
                sum as nat,
            ),
            None => match spec_rows_sum(state@, paths@.map_values(|p: ObjectPath| p@)) {
                Some(sum) => sum > usize::MAX,
                None => true,
            },
        },
{
    let ghost views = paths@.map_values(|p: ObjectPath| p@);
    let mut sum: Option<u128> = Some(0);
    let mut i: usize = 0;
    assert(views.take(0) =~= Seq::empty());
    while i < paths.len()
        invariant
            i <= paths.len(),
            views == paths@.map_values(|p: ObjectPath| p@),
            match sum {
                Some(known) => spec_rows_sum(state@, views.take(i as int)) == Some(known as nat)
                    && known <= i * usize::MAX,
                None => spec_rows_sum(state@, views.take(i as int)) is None,
            },
        decreases paths.len() - i,
    {
        proof {
            assert(views.take(i as int + 1).drop_last() =~= views.take(i as int));
            assert(views.take(i as int + 1).last() == paths@[i as int]@);
            assert(i * usize::MAX + usize::MAX == (i + 1) * usize::MAX) by (nonlinear_arith);
            assert((i + 1) * usize::MAX <= usize::MAX * usize::MAX) by (nonlinear_arith)
                requires
                    i + 1 <= usize::MAX,
            ;
            assert(usize::MAX * usize::MAX <= u128::MAX) by (nonlinear_arith)
                requires
                    usize::MAX <= u64::MAX,
            ;
        }
        sum = match (sum, state.get_object(&paths[i])) {
            (Some(known), Ok(object)) => match object.num_rows() {
                Some(rows) => Some(known + rows as u128),
                None => None,
            },
            _ => None,
        };
        i += 1;
    }
    assert(views.take(i as int) =~= views);
    match sum {
        Some(known) => if known <= usize::MAX as u128 {
            Some(known as usize)
        } else {
            None
        },
        None => None,
    }
}

/// The target of a rebalance into `count` outputs, given the sum of the inputs' rows.
pub fn rebalance_target(rows: Option<usize>, size: Bytes, count: usize) -> (r: RebalanceTarget)
    requires
        count > 0,
    ensures
        r == match rows {
            Some(sum) => RebalanceTarget::Rows(sum / count),
            None => RebalanceTarget::Size(size),
        },
{
    match rows {
        Some(sum) => RebalanceTarget::Rows(sum / count),
        None => RebalanceTarget::Size(size),
    }
}

/// The paths of the outputs of a rebalance into `count` objects of `format` in `partition`.
pub fn output_paths(partition: &PartitionPath, format: Format, count: usize) -> (r: Vec<
    ObjectPath,
>)
    ensures
        r@.map_values(|p: ObjectPath| p@) == spec_outputs(partition@, format, count as nat),
{
    proof {
        reveal_strlit(".");
    }
    let mut paths: Vec<ObjectPath> = Vec::new();
    let mut i: usize = 0;
    while i < count
        invariant
            i <= count,
            "."@ == seq!['.'],
            paths@.len() == i,
            forall|j: int|
                0 <= j < i ==> (#[trigger] paths@[j])@ == (ObjectPathView {
                    partition: partition@,
                    key: output_key(j as nat, format),
                }),
        decreases count - i,
    {
        let mut name = usize_to_string(i);
        name.append(".");
        name.append(format.name());
        assert(name@ =~= output_key(i as nat, format));
        paths.push(partition.object_path(&ObjectKey::new(name)));
        i += 1;
    }
    assert(paths@.map_values(|p: ObjectPath| p@) =~= spec_outputs(
        partition@,
        format,
        count as nat,
    ));
    paths
}

/// Merges the objects of a partition into a given number of objects.
#[derive(Debug)]
pub struct RebalanceAction {
    paths: Vec<ObjectPath>,
    size: Bytes,
    count: usize,
}

impl RebalanceAction {
    #[verifier::type_invariant]
    spec fn has_work(self) -> bool {
        self.paths@.len() > 0 && self.count > 0
    }

    pub closed spec fn spec_paths(&self) -> Seq<ObjectPathView> {
        self.paths@.map_values(|p: ObjectPath| p@)
    }

    pub closed spec fn spec_size(&self) -> Bytes {
        self.size
    }

    pub closed spec fn spec_count(&self) -> nat {
        self.count as nat
    }

    /// The outputs of the rebalance, if the first input selects a format.
    pub open spec fn spec_outputs(&self) -> Option<Seq<ObjectPathView>> {
        match ObjectPath::spec_format(self.spec_paths()[0]) {
            Some(format) => Some(
                spec_outputs(self.spec_paths()[0].partition, format, self.spec_count()),
            ),
            None => None,
        }
    }

    pub fn new(paths: Vec<ObjectPath>, size: Bytes, count: usize) -> (r: RebalanceAction)
        requires
            paths@.len() > 0,
            count > 0,
        ensures
            r.spec_paths() == paths@.map_values(|p: ObjectPath| p@),
            r.spec_size() == size,
            r.spec_count() == count,
    {
        RebalanceAction { paths, size, count }
    }

    /// What the rebalance aims at against `catalog`: an equal share of the inputs' rows for
    /// each output where their sum is known and fits the machine's integers, else the size.
    pub open spec fn spec_target(&self, catalog: CatalogView) -> RebalanceTarget {
        match spec_rows_sum(catalog, self.spec_paths()) {
            Some(sum) => if sum <= usize::MAX {
                RebalanceTarget::Rows((sum / self.spec_count()) as usize)
            } else {
                RebalanceTarget::Size(self.spec_size())
            },
            None => RebalanceTarget::Size(self.spec_size()),
        }
    }

    /// What the store is asked for: the outputs to write and the target to fill them to. An
    /// input whose key selects no format is an error.
    pub fn plan(&self, state: &State) -> (r: Result<(Vec<ObjectPath>, RebalanceTarget), StoreError>)
        ensures
            match r {
                Ok((outputs, target)) => self.spec_outputs() == Some(
                    outputs@.map_values(|p: ObjectPath| p@),
                ) && target == self.spec_target(state@),
                Err(error) => self.spec_outputs() is None && (error matches StoreError::CannotInferSchema(
                    path,
                ) && path@ == self.spec_paths()[0]),
            },
    {
        proof {
            use_type_invariant(self);
        }
        let rows = total_rows(state, &self.paths);
        let target = rebalance_target(rows, self.size, self.count);
        let format = match self.paths[0].format() {
            Ok(format) => format,
            Err(error) => return Err(error),
        };
        let outputs = output_paths(self.paths[0].partition_path(), format, self.count);
        Ok((outputs, target))
    }

    /// The format of the inputs, as the first of them selects it.
    pub fn format(&self) -> (r: Option<Format>)
        ensures
            r == ObjectPath::spec_format(self.spec_paths()[0]),
    {
        proof {
            use_type_invariant(self);
        }
        self.paths[0].infer_format()
    }
}

impl Action for RebalanceAction {
    open spec fn spec_key(&self) -> Seq<char> {
        rebalance_key(self.spec_paths(), self.spec_count())
    }

    fn key(&self) -> (r: String) {
        proof {
            use_type_invariant(self);
        }
        let ghost texts = self.spec_paths().map_values(|path: ObjectPathView| object_text(path));
        let mut list = String::new();
        let mut i: usize = 0;
        assert(texts.take(0) =~= Seq::empty());
        while i < self.paths.len()
            invariant
                i <= self.paths.len(),
                texts == self.spec_paths().map_values(|path: ObjectPathView| object_text(path)),
                list@ == joined(texts.take(i as int), ", "@),
            decreases self.paths.len() - i,
        {
            if i > 0 {
                list.append(", ");
            }
            let text = self.paths[i].to_string();
            list.append(text.as_str());
            proof {
                let next = texts.take(i as int + 1);
                assert(next.drop_last() =~= texts.take(i as int));
                assert(next.last() == object_text(self.paths@[i as int]@));
                assert(list@ =~= joined(next, ", "@));
            }
            i += 1;
        }
        assert(texts.take(i as int) =~= texts);
        let mut out = "rebalance(".to_owned();
        out.append(list.as_str());
        out.append(", ");
        let count = usize_to_string(self.count);
        out.append(count.as_str());
        out.append(")");
        out
    }

    /// The store merges the inputs into the outputs and reports one object for each output;
    /// the catalog gets each at its output's path. An input whose key selects no format ends
    /// the action before the store is asked.
    open spec fn permits(&self, catalog: CatalogView, result: Result<State, ActionError>) -> bool {
        match result {
            Ok(next) => self.spec_outputs() is Some && exists|objects: Seq<ObjectState>|
                objects.len() == self.spec_count() && with_objects(
                    catalog,
                    self.spec_outputs()->Some_0,
                    objects,
                ) == Ok::<CatalogView, Missing>(next@),
            Err(ActionError::State(error)) => self.spec_outputs() is Some && exists|
                objects: Seq<ObjectState>,
            |
                objects.len() == self.spec_count() && with_objects(
                    catalog,
                    self.spec_outputs()->Some_0,
                    objects,
                ) == Err::<CatalogView, Missing>(error@),
            Err(ActionError::Store(error)) => self.spec_outputs() is None ==> (error matches StoreError::CannotInferSchema(
                path,
            ) && path@ == self.spec_paths()[0]),
        }
    }

    fn execute(&self, store: &dyn Store, state: &State) -> (r: Result<State, ActionError>) {
        let (outputs, target) = match self.plan(state) {
            Ok(plan) => plan,
            Err(error) => return Err(ActionError::Store(error)),
        };
        let objects = match store.rebalance_objects(
            self.paths.as_slice(),
            outputs.as_slice(),
            &target,
        ) {
            Ok(objects) => objects,
            Err(error) => return Err(ActionError::Store(error)),
        };
        match state.insert_objects(&outputs, &objects) {
            Ok(next) => {
                assert(objects@.len() == self.spec_count() && with_objects(
                    state@,
                    self.spec_outputs()->Some_0,
                    objects@,
                ) == Ok::<CatalogView, Missing>(next@));
                Ok(next)
            },
            Err(error) => {
                assert(objects@.len() == self.spec_count() && with_objects(
                    state@,
                    self.spec_outputs()->Some_0,
                    objects@,
                ) == Err::<CatalogView, Missing>(error@));
                Err(ActionError::State(error))
            },
        }
    }
}

} // verus!
