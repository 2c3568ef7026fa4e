use dataset_catalog::action::{
    conclude, output_paths, rebalance_target, total_rows, Action, ActionError, MoveAction,
    RebalanceAction, ReloadDatasetAction, ReloadPartitionAction, RemoveObjectAction,
    RemovePartitionAction,
};
use dataset_catalog::base::{Bucket, Bytes, Format, ObjectKey, Partition, Protocol, MIB};
use dataset_catalog::dag::{ActionTree, Custom, Key, Keys, NoCustom, Step};
use dataset_catalog::job::{Job, MovePartition, RebalanceObjects, ReloadDataset};
use dataset_catalog::path::{DatasetPath, ObjectPath, PartitionPath};
use dataset_catalog::rebalance::OutputCursor;
use dataset_catalog::runtime::{Execution, Runtime};
use dataset_catalog::state::{
    CsvFormatState, DatasetState, ObjectState, ParquetFormatState, PartitionState,
    State, StateError,
};
use dataset_catalog::store::{RebalanceTarget, Store, StoreError};
use parquet::schema::types::Type;
use std::cell::RefCell;
use std::rc::Rc;

fn dataset() -> DatasetPath {
    DatasetPath::new(Bucket::new(Protocol::File, "bucket".to_string()), "ds".to_string())
}

fn partition(value: &str) -> PartitionPath {
    dataset().partition_path(&Partition::new("date", value))
}

fn object(value: &str, name: &str) -> ObjectPath {
    partition(value).object_path(&ObjectKey::new(name.to_string()))
}

fn parquet_object(rows: usize, size: usize) -> ObjectState {
    ObjectState::new_parquet(
        ParquetFormatState::new(Type::group_type_builder("schema").build().unwrap(), rows),
        Bytes::new(size),
    )
}

fn csv_object(size: usize) -> ObjectState {
    ObjectState::new_csv(
        CsvFormatState::new(arrow::datatypes::Schema::empty(), ",".to_string()),
        Bytes::new(size),
    )
}

fn missing(what: &str) -> StoreError {
    StoreError::Io(std::io::Error::new(std::io::ErrorKind::NotFound, what.to_string()))
}

/// What the store in memory holds.
struct Shelves {
    datasets: Vec<DatasetPath>,
    partitions: Vec<PartitionPath>,
    objects: Vec<(ObjectPath, ObjectState)>,
    batch_rows: usize,
    calls: Vec<String>,
}

/// A store in memory, which behaves as a directory tree would.
#[derive(Clone)]
struct MemoryStore {
    shelves: Rc<RefCell<Shelves>>,
}

impl MemoryStore {
    fn new() -> Self {
        MemoryStore {
            shelves: Rc::new(RefCell::new(Shelves {
                datasets: vec![dataset()],
                partitions: Vec::new(),
                objects: Vec::new(),
                batch_rows: 100,
                calls: Vec::new(),
            })),
        }
    }

    fn put(&self, path: &ObjectPath, state: ObjectState) {
        let mut shelves = self.shelves.borrow_mut();
        if !shelves.partitions.contains(path.partition_path()) {
            shelves.partitions.push(path.partition_path().clone());
        }
        shelves.objects.retain(|(held, _)| held != path);
        shelves.objects.push((path.clone(), state));
    }

    fn paths(&self) -> Vec<String> {
        let mut paths: Vec<String> =
            self.shelves.borrow().objects.iter().map(|(path, _)| path.to_string()).collect();
        paths.sort();
        paths
    }

    fn partitions(&self) -> Vec<String> {
        let mut paths: Vec<String> =
            self.shelves.borrow().partitions.iter().map(|path| path.to_string()).collect();
        paths.sort();
        paths
    }

    fn calls(&self) -> Vec<String> {
        self.shelves.borrow().calls.clone()
    }
}

impl Store for MemoryStore {
    fn read_object(&self, path: &ObjectPath) -> Result<ObjectState, StoreError> {
        let shelves = self.shelves.borrow();
        match shelves.objects.iter().find(|(held, _)| held == path) {
            Some((_, state)) => Ok(state.clone()),
            None => Err(missing("object")),
        }
    }

    fn move_object(&self, source: &ObjectPath, target: &ObjectPath) -> Result<(), StoreError> {
        self.shelves.borrow_mut().calls.push(format!("move {} {}", source.to_string(), target.to_string()));
        let state = self.read_object(source)?;
        self.shelves.borrow_mut().objects.retain(|(held, _)| held != source);
        self.put(target, state);
        Ok(())
    }

    fn list_partitions(&self, path: &DatasetPath) -> Result<Vec<Partition>, StoreError> {
        let shelves = self.shelves.borrow();
        if !shelves.datasets.contains(path) {
            return Err(missing("dataset"));
        }
        Ok(shelves
            .partitions
            .iter()
            .filter(|held| &held.dataset == path)
            .map(|held| held.partition.clone())
            .collect())
    }

    fn list_objects(&self, path: &PartitionPath) -> Result<Vec<ObjectKey>, StoreError> {
        let shelves = self.shelves.borrow();
        if !shelves.partitions.contains(path) {
            return Err(missing("partition"));
        }
        Ok(shelves
            .objects
            .iter()
            .filter(|(held, _)| held.partition_path() == path)
            .map(|(held, _)| held.key().clone())
            .collect())
    }

    fn remove_partition(&self, path: &PartitionPath) -> Result<(), StoreError> {
        let mut shelves = self.shelves.borrow_mut();
        shelves.calls.push(format!("rmdir {}", path.to_string()));
        if !shelves.partitions.contains(path) {
            return Err(missing("partition"));
        }
        if shelves.objects.iter().any(|(held, _)| held.partition_path() == path) {
            return Err(StoreError::Io(std::io::Error::new(
                std::io::ErrorKind::Other,
                "partition is not empty".to_string(),
            )));
        }
        shelves.partitions.retain(|held| held != path);
        Ok(())
    }

    fn remove_object(&self, path: &ObjectPath) -> Result<(), StoreError> {
        let mut shelves = self.shelves.borrow_mut();
        shelves.calls.push(format!("rm {}", path.to_string()));
        let before = shelves.objects.len();
        shelves.objects.retain(|(held, _)| held != path);
        if shelves.objects.len() == before {
            return Err(missing("object"));
        }
        Ok(())
    }

    fn rebalance_objects(
        &self,
        input_paths: &[ObjectPath],
        output_paths: &[ObjectPath],
        target: &RebalanceTarget,
    ) -> Result<Vec<ObjectState>, StoreError> {
        self.shelves.borrow_mut().calls.push(format!(
            "rebalance {} into {} towards {:?}",
            input_paths.len(),
            output_paths.len(),
            target
        ));
        target.plan_for(&input_paths[0])?;
        let batch_rows = self.shelves.borrow().batch_rows;
        let mut rows = vec![0; output_paths.len()];
        let mut cursor = OutputCursor::new(output_paths.len());
        for path in input_paths {
            let mut left = self.read_object(path)?.num_rows().unwrap_or(0);
            while left > 0 {
                let batch = left.min(batch_rows);
                let index = cursor.place_for(target, Bytes::new(rows[cursor.index()]), batch);
                rows[index] += batch;
                left -= batch;
            }
        }
        let mut states = Vec::new();
        for (path, written) in output_paths.iter().zip(rows) {
            let state = match path.format()? {
                Format::Parquet => parquet_object(written, written * 10),
                Format::Csv => csv_object(written),
            };
            self.put(path, state.clone());
            states.push(state);
        }
        Ok(states)
    }
}

fn reload(store: &MemoryStore) -> State {
    let runtime = Runtime::new(store.clone());
    let state = State::new();
    let actions = ReloadDataset::new(dataset()).actions(&state).unwrap();
    let execution = runtime.execute(&state, actions);
    assert!(!execution.has_errors());
    execution.state
}

fn run(store: &MemoryStore, state: &State, job: &dyn Job) -> Execution {
    let runtime = Runtime::new(store.clone());
    runtime.execute(state, job.actions(state).unwrap())
}

fn listing(state: &State) -> Vec<(String, Option<usize>, usize)> {
    let mut seen = Vec::new();
    if let Ok(partitions) = state.list_partitions(&dataset()) {
        for partition in partitions {
            seen.push((partition.to_string(), None, 0));
            for path in state.list_objects(&partition).unwrap() {
                let found = state.get_object(&path).unwrap();
                seen.push((path.to_string(), found.num_rows(), found.size.as_usize()));
            }
        }
    }
    seen.sort();
    seen
}

fn batch_keys(tree: &ActionTree, completed: &[Key]) -> Vec<(Key, Vec<String>)> {
    let completed: Keys = completed.iter().copied().collect();
    let mut batch: Vec<(Key, Vec<String>)> = tree
        .next_batch(&completed)
        .iter()
        .map(|(node, steps)| (*node, steps.iter().map(|step: &&Step| step.key()).collect()))
        .collect();
    batch.sort();
    batch
}

#[test]
fn action_keys() {
    assert_eq!(ReloadDatasetAction::new(dataset()).key(), "reload(file://bucket/ds)");
    assert_eq!(
        ReloadPartitionAction::new(partition("2020-01")).key(),
        "reload(file://bucket/ds/date=2020-01)"
    );
    assert_eq!(
        RemovePartitionAction::new(partition("2020-01")).key(),
        "rm(file://bucket/ds/date=2020-01/)"
    );
    assert_eq!(
        RemoveObjectAction::new(object("2020-01", "a.parquet")).key(),
        "remove(file://bucket/ds/date=2020-01/a.parquet)"
    );
    assert_eq!(
        MoveAction::new(object("2020-01", "a.parquet"), object("2021-01", "a.parquet")).key(),
        "move(file://bucket/ds/date=2020-01/a.parquet, file://bucket/ds/date=2021-01/a.parquet)"
    );
    assert_eq!(
        RebalanceAction::new(
            vec![object("2020-01", "a.parquet"), object("2020-01", "b.parquet")],
            Bytes::new(10),
            5
        )
        .key(),
        "rebalance(file://bucket/ds/date=2020-01/a.parquet, file://bucket/ds/date=2020-01/b.parquet, 5)"
    );
    assert_eq!(
        RebalanceAction::new(vec![object("2020-01", "a.parquet")], Bytes::new(10), 12).key(),
        "rebalance(file://bucket/ds/date=2020-01/a.parquet, 12)"
    );
}

#[test]
fn conclude_goes_by_the_store() {
    let state = State::new().insert_dataset(&dataset(), DatasetState::default()).unwrap();
    let kept = conclude(state.clone(), Ok(())).unwrap();
    assert!(kept.list_partitions(&dataset()).unwrap().is_empty());
    assert!(matches!(
        conclude(state, Err(missing("object"))),
        Err(ActionError::Store(StoreError::Io(_)))
    ));
}

#[test]
fn rebalance_action_format_is_that_of_the_first_input() {
    let action = RebalanceAction::new(
        vec![object("2020-01", "a.parquet"), object("2020-01", "b.csv")],
        Bytes::new(10),
        2,
    );
    assert_eq!(action.format(), Some(Format::Parquet));
    let action = RebalanceAction::new(vec![object("2020-01", "a")], Bytes::new(10), 2);
    assert_eq!(action.format(), None);
}

#[test]
fn total_rows_needs_every_row_count() {
    let store = MemoryStore::new();
    store.put(&object("2020-01", "a.parquet"), parquet_object(100, 1024));
    store.put(&object("2020-01", "b.parquet"), parquet_object(23, 512));
    store.put(&object("2020-01", "c.csv"), csv_object(10));
    let state = reload(&store);
    let a = object("2020-01", "a.parquet");
    let b = object("2020-01", "b.parquet");
    assert_eq!(total_rows(&state, &vec![a.clone(), b.clone()]), Some(123));
    assert_eq!(total_rows(&state, &vec![a.clone(), a.clone()]), Some(200));
    assert_eq!(total_rows(&state, &vec![]), Some(0));
    assert_eq!(total_rows(&state, &vec![a.clone(), object("2020-01", "c.csv")]), None);
    assert_eq!(total_rows(&state, &vec![object("2020-01", "z.parquet"), b.clone()]), None);
}

#[test]
fn total_rows_that_do_not_fit_are_unknown() {
    let store = MemoryStore::new();
    store.put(&object("2020-01", "a.parquet"), parquet_object(usize::MAX, 1));
    store.put(&object("2020-01", "b.parquet"), parquet_object(1, 1));
    let state = reload(&store);
    let a = object("2020-01", "a.parquet");
    let b = object("2020-01", "b.parquet");
    assert_eq!(total_rows(&state, &vec![a.clone()]), Some(usize::MAX));
    assert_eq!(total_rows(&state, &vec![a, b]), None);
}

#[test]
fn rebalance_target_is_a_share_of_the_rows_or_the_size() {
    assert_eq!(rebalance_target(Some(100), Bytes::new(7), 3), RebalanceTarget::Rows(33));
    assert_eq!(rebalance_target(Some(2), Bytes::new(7), 5), RebalanceTarget::Rows(0));
    assert_eq!(rebalance_target(None, Bytes::new(7), 3), RebalanceTarget::Size(Bytes::new(7)));
}

#[test]
fn output_paths_are_numbered_from_zero() {
    let paths = output_paths(&partition("2020-01"), Format::Parquet, 3);
    let names: Vec<String> = paths.iter().map(|path| path.to_string()).collect();
    assert_eq!(
        names,
        vec![
            "file://bucket/ds/date=2020-01/0.parquet".to_string(),
            "file://bucket/ds/date=2020-01/1.parquet".to_string(),
            "file://bucket/ds/date=2020-01/2.parquet".to_string(),
        ]
    );
    let paths = output_paths(&partition("2020-01"), Format::Csv, 11);
    assert_eq!(paths.len(), 11);
    assert_eq!(paths[10].key().as_str(), "10.csv");
    assert!(output_paths(&partition("2020-01"), Format::Csv, 0).is_empty());
}

#[test]
fn reload_dataset_mirrors_the_store() {
    let store = MemoryStore::new();
    store.put(&object("2020-01", "a.parquet"), parquet_object(100, 1024));
    store.put(&object("2020-02", "b.csv"), csv_object(77));
    let state = reload(&store);
    assert_eq!(
        listing(&state),
        vec![
            ("file://bucket/ds/date=2020-01".to_string(), None, 0),
            ("file://bucket/ds/date=2020-01/a.parquet".to_string(), Some(100), 1024),
            ("file://bucket/ds/date=2020-02".to_string(), None, 0),
            ("file://bucket/ds/date=2020-02/b.csv".to_string(), None, 77),
        ]
    );
}

#[test]
fn reload_dataset_twice_gives_the_same_catalog() {
    let store = MemoryStore::new();
    store.put(&object("2020-01", "a.parquet"), parquet_object(100, 1024));
    store.put(&object("2020-02", "b.csv"), csv_object(77));
    let once = reload(&store);
    let twice = run(&store, &once, &ReloadDataset::new(dataset()));
    assert!(!twice.has_errors());
    assert_eq!(listing(&twice.state), listing(&once));
}

#[test]
fn reload_dataset_replaces_what_the_catalog_held() {
    let store = MemoryStore::new();
    store.put(&object("2020-01", "a.parquet"), parquet_object(100, 1024));
    let stale = State::new()
        .insert_dataset(&dataset(), DatasetState::default())
        .unwrap()
        .insert_partition(&partition("1999-01"), PartitionState::default())
        .unwrap();
    let action = ReloadDatasetAction::new(dataset());
    let state = action.execute(&store, &stale).unwrap();
    assert!(!state.contains_partition(&partition("1999-01")));
    assert!(state.contains_object(&object("2020-01", "a.parquet")));
    assert!(stale.contains_partition(&partition("1999-01")));
}

#[test]
fn reload_dataset_fails_with_the_store() {
    let store = MemoryStore::new();
    let elsewhere =
        DatasetPath::new(Bucket::new(Protocol::File, "bucket".to_string()), "none".to_string());
    let action = ReloadDatasetAction::new(elsewhere);
    assert!(matches!(
        action.execute(&store, &State::new()),
        Err(ActionError::Store(StoreError::Io(_)))
    ));
}

#[test]
fn reload_partition_upserts_the_partition() {
    let store = MemoryStore::new();
    store.put(&object("2020-01", "a.parquet"), parquet_object(100, 1024));
    let state = State::new().insert_dataset(&dataset(), DatasetState::default()).unwrap();
    let action = ReloadPartitionAction::new(partition("2020-01"));
    let loaded = action.execute(&store, &state).unwrap();
    assert_eq!(loaded.list_objects(&partition("2020-01")).unwrap().len(), 1);
    assert_eq!(loaded.get_partition(&partition("2020-01")).unwrap().size(), Bytes::new(1024));
    store.put(&object("2020-01", "b.parquet"), parquet_object(1, 1));
    let again = action.execute(&store, &loaded).unwrap();
    assert_eq!(again.list_objects(&partition("2020-01")).unwrap().len(), 2);
    assert_eq!(loaded.list_objects(&partition("2020-01")).unwrap().len(), 1);
}

#[test]
fn load_listed_holds_what_was_listed_and_no_more() {
    let store = MemoryStore::new();
    store.put(&object("2020-01", "a.parquet"), parquet_object(100, 1024));
    store.put(&object("2020-01", "b.parquet"), parquet_object(1, 1));
    store.put(&object("2020-02", "c.parquet"), parquet_object(2, 2));
    let action = ReloadPartitionAction::new(partition("2020-01"));
    let a = ObjectKey::new("a.parquet".to_string());
    let loaded = action.load_listed(&store, &vec![a.clone()]).unwrap();
    assert_eq!(loaded.keys(), vec![a.clone()]);
    assert_eq!(loaded.get(&a).unwrap().num_rows(), Some(100));
    assert!(action.load_listed(&store, &Vec::new()).unwrap().keys().is_empty());
    assert!(action.load_listed(&MemoryStore::new(), &Vec::new()).unwrap().keys().is_empty());
    let twice = action.load_listed(&store, &vec![a.clone(), a.clone()]).unwrap();
    assert_eq!(twice.keys(), vec![a.clone()]);
    let gone = ObjectKey::new("z.parquet".to_string());
    assert!(matches!(action.load_listed(&store, &vec![a, gone]), Err(StoreError::Io(_))));

    let action = ReloadDatasetAction::new(dataset());
    let first = Partition::new("date", "2020-01");
    let loaded = action.load_listed(&store, &vec![first.clone()]).unwrap();
    assert_eq!(loaded.keys(), vec![first.clone()]);
    assert_eq!(loaded.get(&first).unwrap().keys().len(), 2);
    assert!(action.load_listed(&store, &Vec::new()).unwrap().keys().is_empty());
    let unknown = Partition::new("date", "1999-01");
    assert!(matches!(action.load_listed(&store, &vec![first, unknown]), Err(StoreError::Io(_))));
}

#[test]
fn a_record_takes_in_one_result_after_the_other() {
    let store = MemoryStore::new();
    store.put(&object("2020-01", "a.parquet"), parquet_object(100, 1024));
    let state = reload(&store);
    let runtime = Runtime::new(store.clone());
    let mut execution = runtime.execute(&state, ActionTree::new());
    let emptied = state.remove_object(&object("2020-01", "a.parquet")).unwrap();
    execution.record("first".to_string(), Ok(emptied));
    assert_eq!(execution.passed(), &vec!["first".to_string()]);
    assert!(execution.failed().is_empty());
    assert!(!execution.state.contains_object(&object("2020-01", "a.parquet")));
    execution.record("second".to_string(), Err(ActionError::Store(missing("object"))));
    assert_eq!(execution.passed(), &vec!["first".to_string()]);
    assert_eq!(execution.failed().len(), 1);
    assert_eq!(execution.failed()[0].0, "second");
    assert!(matches!(&execution.failed()[0].1, ActionError::Store(StoreError::Io(_))));
    assert!(!execution.state.contains_object(&object("2020-01", "a.parquet")));
    assert!(execution.state.contains_partition(&partition("2020-01")));
    assert!(execution.has_errors());
}

#[test]
fn within_a_batch_each_action_runs_on_what_the_one_before_left() {
    let store = MemoryStore::new();
    store.put(&object("2020-01", "a.parquet"), parquet_object(100, 1024));
    let state = reload(&store);
    let mut tree = ActionTree::new();
    let node = tree.add_node(&[]);
    tree.add_action(
        node,
        MoveAction::new(object("2020-01", "a.parquet"), object("2020-01", "b.parquet")),
    );
    tree.add_action(
        node,
        MoveAction::new(object("2020-01", "b.parquet"), object("2020-01", "c.parquet")),
    );
    tree.add_action(node, RemoveObjectAction::new(object("2020-01", "a.parquet")));
    tree.add_action(node, RemoveObjectAction::new(object("2020-01", "c.parquet")));
    let runtime = Runtime::new(store.clone());
    let execution = runtime.execute(&state, tree);
    assert_eq!(execution.passed().len(), 3);
    assert_eq!(execution.failed().len(), 1);
    assert_eq!(execution.failed()[0].0, "remove(file://bucket/ds/date=2020-01/a.parquet)");
    assert!(execution.state.list_objects(&partition("2020-01")).unwrap().is_empty());
    assert!(store.paths().is_empty());
}

#[test]
fn reload_partition_needs_the_dataset_in_the_catalog() {
    let store = MemoryStore::new();
    store.put(&object("2020-01", "a.parquet"), parquet_object(100, 1024));
    let action = ReloadPartitionAction::new(partition("2020-01"));
    assert!(matches!(
        action.execute(&store, &State::new()),
        Err(ActionError::State(StateError::MissingDataset(path))) if path == dataset()
    ));
    let missing_partition = ReloadPartitionAction::new(partition("2020-09"));
    assert!(matches!(
        missing_partition.execute(&store, &State::new()),
        Err(ActionError::Store(StoreError::Io(_)))
    ));
}

#[test]
fn remove_object_action_changes_store_and_catalog() {
    let store = MemoryStore::new();
    store.put(&object("2020-01", "a.parquet"), parquet_object(100, 1024));
    store.put(&object("2020-01", "b.parquet"), parquet_object(1, 1));
    let state = reload(&store);
    let action = RemoveObjectAction::new(object("2020-01", "a.parquet"));
    let after = action.execute(&store, &state).unwrap();
    assert!(!after.contains_object(&object("2020-01", "a.parquet")));
    assert!(after.contains_object(&object("2020-01", "b.parquet")));
    assert_eq!(store.paths(), vec!["file://bucket/ds/date=2020-01/b.parquet".to_string()]);
    assert!(state.contains_object(&object("2020-01", "a.parquet")));
}

#[test]
fn an_action_that_the_catalog_refuses_does_not_touch_the_store() {
    let store = MemoryStore::new();
    store.put(&object("2020-01", "a.parquet"), parquet_object(100, 1024));
    let state = State::new().insert_dataset(&dataset(), DatasetState::default()).unwrap();
    assert!(matches!(
        RemoveObjectAction::new(object("2020-01", "a.parquet")).execute(&store, &state),
        Err(ActionError::State(StateError::MissingPartition(_)))
    ));
    assert!(matches!(
        RemovePartitionAction::new(partition("2020-01")).execute(&store, &state),
        Err(ActionError::State(StateError::MissingPartition(_)))
    ));
    assert!(matches!(
        MoveAction::new(object("2020-01", "a.parquet"), object("2020-02", "a.parquet"))
            .execute(&store, &state),
        Err(ActionError::State(StateError::MissingPartition(_)))
    ));
    assert!(store.calls().is_empty());
    assert_eq!(store.paths(), vec!["file://bucket/ds/date=2020-01/a.parquet".to_string()]);
}

#[test]
fn an_action_that_the_store_refuses_gives_the_stores_error() {
    let store = MemoryStore::new();
    store.put(&object("2020-01", "a.parquet"), parquet_object(100, 1024));
    let state = reload(&store);
    let empty = MemoryStore::new();
    assert!(matches!(
        RemoveObjectAction::new(object("2020-01", "a.parquet")).execute(&empty, &state),
        Err(ActionError::Store(StoreError::Io(_)))
    ));
    assert!(matches!(
        RemovePartitionAction::new(partition("2020-01")).execute(&store, &state),
        Err(ActionError::Store(StoreError::Io(_)))
    ));
    assert!(matches!(
        MoveAction::new(object("2020-01", "a.parquet"), object("2020-02", "a.parquet"))
            .execute(&empty, &state),
        Err(ActionError::Store(StoreError::Io(_)))
    ));
    assert!(state.contains_object(&object("2020-01", "a.parquet")));
}

#[test]
fn move_action_changes_store_and_catalog() {
    let store = MemoryStore::new();
    store.put(&object("2020-01", "a.parquet"), parquet_object(100, 1024));
    let state = reload(&store);
    let action = MoveAction::new(object("2020-01", "a.parquet"), object("2021-01", "a.parquet"));
    let after = action.execute(&store, &state).unwrap();
    assert!(!after.contains_object(&object("2020-01", "a.parquet")));
    assert_eq!(after.get_object(&object("2021-01", "a.parquet")).unwrap().num_rows(), Some(100));
    assert_eq!(store.paths(), vec!["file://bucket/ds/date=2021-01/a.parquet".to_string()]);
}

#[test]
fn remove_partition_action_changes_store_and_catalog() {
    let store = MemoryStore::new();
    store.put(&object("2020-01", "a.parquet"), parquet_object(100, 1024));
    store.remove_object(&object("2020-01", "a.parquet")).unwrap();
    let state = reload(&store);
    assert!(state.contains_partition(&partition("2020-01")));
    let after = RemovePartitionAction::new(partition("2020-01")).execute(&store, &state).unwrap();
    assert!(!after.contains_partition(&partition("2020-01")));
    assert!(store.partitions().is_empty());
}

#[test]
fn rebalance_action_inserts_the_outputs() {
    let store = MemoryStore::new();
    store.put(&object("2020-01", "a.parquet"), parquet_object(300, 3000));
    store.put(&object("2020-01", "b.parquet"), parquet_object(300, 3000));
    let state = reload(&store);
    let action = RebalanceAction::new(
        vec![object("2020-01", "a.parquet"), object("2020-01", "b.parquet")],
        Bytes::new(2000),
        3,
    );
    let after = action.execute(&store, &state).unwrap();
    assert_eq!(store.calls(), vec!["rebalance 2 into 3 towards Rows(200)".to_string()]);
    for (name, rows) in [("0.parquet", 200), ("1.parquet", 200), ("2.parquet", 200)] {
        let found = after.get_object(&object("2020-01", name)).unwrap();
        assert_eq!(found.num_rows(), Some(rows));
        assert_eq!(found.size, Bytes::new(rows * 10));
    }
    assert!(after.contains_object(&object("2020-01", "a.parquet")));
    assert!(!state.contains_object(&object("2020-01", "0.parquet")));
}

#[test]
fn rebalance_action_of_csv_goes_by_size() {
    let store = MemoryStore::new();
    store.put(&object("2020-01", "a.csv"), csv_object(3000));
    let state = reload(&store);
    let action = RebalanceAction::new(vec![object("2020-01", "a.csv")], Bytes::new(2000), 2);
    let after = action.execute(&store, &state).unwrap();
    assert_eq!(store.calls(), vec!["rebalance 1 into 2 towards Size(Bytes(2000))".to_string()]);
    assert!(after.contains_object(&object("2020-01", "0.csv")));
    assert!(after.contains_object(&object("2020-01", "1.csv")));
}

#[test]
fn rebalance_action_plan_names_outputs_and_target() {
    let store = MemoryStore::new();
    store.put(&object("2020-01", "a.parquet"), parquet_object(300, 3000));
    store.put(&object("2020-01", "b.parquet"), parquet_object(301, 3000));
    store.put(&object("2020-01", "c.csv"), csv_object(10));
    let state = reload(&store);
    let a = object("2020-01", "a.parquet");
    let b = object("2020-01", "b.parquet");
    let action = RebalanceAction::new(vec![a.clone(), b], Bytes::new(2000), 3);
    let (outputs, target) = action.plan(&state).unwrap();
    assert_eq!(target, RebalanceTarget::Rows(200));
    assert_eq!(
        outputs,
        vec![
            object("2020-01", "0.parquet"),
            object("2020-01", "1.parquet"),
            object("2020-01", "2.parquet")
        ]
    );
    let mixed = RebalanceAction::new(vec![a, object("2020-01", "c.csv")], Bytes::new(2000), 1);
    let (outputs, target) = mixed.plan(&state).unwrap();
    assert_eq!(target, RebalanceTarget::Size(Bytes::new(2000)));
    assert_eq!(outputs, vec![object("2020-01", "0.parquet")]);
    let unknown = RebalanceAction::new(vec![object("2020-01", "a.txt")], Bytes::new(2000), 1);
    assert!(matches!(
        unknown.plan(&state),
        Err(StoreError::CannotInferSchema(path)) if path == object("2020-01", "a.txt")
    ));
}

#[test]
fn rebalance_action_refuses_an_unknown_format() {
    let store = MemoryStore::new();
    let state = reload(&store);
    let action = RebalanceAction::new(vec![object("2020-01", "a.txt")], Bytes::new(2000), 2);
    match action.execute(&store, &state) {
        Err(ActionError::Store(StoreError::CannotInferSchema(path))) => {
            assert_eq!(path, object("2020-01", "a.txt"))
        }
        other => panic!("unexpected: {:?}", other.map(|_| ())),
    }
    assert!(store.calls().is_empty());
}

#[test]
fn rebalance_action_fails_where_the_partition_is_not_in_the_catalog() {
    let store = MemoryStore::new();
    store.put(&object("2020-01", "a.csv"), csv_object(3000));
    let state = State::new().insert_dataset(&dataset(), DatasetState::default()).unwrap();
    let action = RebalanceAction::new(vec![object("2020-01", "a.csv")], Bytes::new(2000), 2);
    assert!(matches!(
        action.execute(&store, &state),
        Err(ActionError::State(StateError::MissingPartition(_)))
    ));
}

#[test]
fn rebalance_action_of_parquet_without_row_counts_is_refused_by_the_store() {
    let store = MemoryStore::new();
    store.put(&object("2020-01", "a.parquet"), parquet_object(300, 3000));
    let state = State::new().insert_dataset(&dataset(), DatasetState::default()).unwrap();
    let action = RebalanceAction::new(vec![object("2020-01", "a.parquet")], Bytes::new(2000), 2);
    assert!(matches!(
        action.execute(&store, &state),
        Err(ActionError::Store(StoreError::CannotCombineFormatAndTarget(
            Format::Parquet,
            RebalanceTarget::Size(_)
        )))
    ));
}

#[test]
fn reload_dataset_job_is_one_node_with_one_action() {
    let tree = ReloadDataset::new(dataset()).actions(&State::new()).unwrap();
    assert_eq!(tree.size(), 1);
    assert_eq!(batch_keys(&tree, &[]), vec![(1, vec!["reload(file://bucket/ds)".to_string()])]);
}

#[test]
fn move_partition_job_is_a_chain_of_three_nodes() {
    let store = MemoryStore::new();
    store.put(&object("2020-01", "y.parquet"), parquet_object(100, 1024));
    store.put(&object("2021-01", "x.parquet"), parquet_object(5, 50));
    let state = reload(&store);
    let tree =
        MovePartition::new(partition("2020-01"), partition("2021-01")).actions(&state).unwrap();
    assert_eq!(tree.size(), 3);
    assert_eq!(
        batch_keys(&tree, &[]),
        vec![(1, vec!["remove(file://bucket/ds/date=2021-01/x.parquet)".to_string()])]
    );
    assert_eq!(
        batch_keys(&tree, &[1]),
        vec![(
            2,
            vec!["move(file://bucket/ds/date=2020-01/y.parquet, file://bucket/ds/date=2021-01/y.parquet)"
                .to_string()]
        )]
    );
    assert_eq!(
        batch_keys(&tree, &[1, 2]),
        vec![(3, vec!["rm(file://bucket/ds/date=2020-01/)".to_string()])]
    );
    assert!(batch_keys(&tree, &[1, 2, 3]).is_empty());
}

#[test]
fn move_partition_job_without_target_removes_nothing_first() {
    let store = MemoryStore::new();
    store.put(&object("2020-01", "a.parquet"), parquet_object(100, 1024));
    let state = reload(&store);
    let tree =
        MovePartition::new(partition("2020-01"), partition("2021-01")).actions(&state).unwrap();
    assert_eq!(batch_keys(&tree, &[]), vec![(1, Vec::<String>::new())]);
}

#[test]
fn move_partition_job_needs_the_source() {
    let store = MemoryStore::new();
    store.put(&object("2020-01", "a.parquet"), parquet_object(100, 1024));
    let state = reload(&store);
    let job = MovePartition::new(partition("2019-01"), partition("2021-01"));
    assert!(matches!(
        job.actions(&state).map(|_| ()),
        Err(StateError::MissingPartition(p)) if p == Partition::new("date", "2019-01")
    ));
    assert!(matches!(
        job.actions(&State::new()).map(|_| ()),
        Err(StateError::MissingDataset(path)) if path == dataset()
    ));
}

#[test]
fn rebalance_job_below_one_and_a_half_targets_is_empty() {
    let store = MemoryStore::new();
    store.put(&object("2020-03", "a.parquet"), parquet_object(100, 10 * MIB));
    let state = reload(&store);
    let job = RebalanceObjects::new(partition("2020-03"), Bytes::new_in_mib(15));
    let tree = job.actions(&state).unwrap();
    assert_eq!(tree.size(), 0);
    let execution = run(&store, &state, &job);
    assert!(execution.passed().is_empty());
    assert!(execution.failed().is_empty());
    assert!(!execution.has_errors());
    assert_eq!(listing(&execution.state), listing(&state));
    assert!(store.calls().is_empty());
}

#[test]
fn rebalance_job_threshold_is_exact() {
    let store = MemoryStore::new();
    store.put(&object("2020-03", "a.parquet"), parquet_object(100, 14));
    let state = reload(&store);
    let tree = RebalanceObjects::new(partition("2020-03"), Bytes::new(10)).actions(&state).unwrap();
    assert_eq!(tree.size(), 0);
    store.put(&object("2020-03", "a.parquet"), parquet_object(100, 15));
    let state = reload(&store);
    let tree = RebalanceObjects::new(partition("2020-03"), Bytes::new(10)).actions(&state).unwrap();
    assert_eq!(tree.size(), 2);
    let tree = RebalanceObjects::new(partition("2020-03"), Bytes::new(11)).actions(&state).unwrap();
    assert_eq!(tree.size(), 0);
}

#[test]
fn rebalance_job_has_two_roots() {
    let store = MemoryStore::new();
    store.put(&object("2020-03", "a.parquet"), parquet_object(100, 40));
    let state = reload(&store);
    let tree = RebalanceObjects::new(partition("2020-03"), Bytes::new(15)).actions(&state).unwrap();
    assert_eq!(tree.size(), 2);
    assert_eq!(
        batch_keys(&tree, &[]),
        vec![
            (1, vec!["rebalance(file://bucket/ds/date=2020-03/a.parquet, 2)".to_string()]),
            (2, vec!["remove(file://bucket/ds/date=2020-03/a.parquet)".to_string()]),
        ]
    );
}

#[test]
fn rebalance_job_needs_the_partition() {
    let state = State::new().insert_dataset(&dataset(), DatasetState::default()).unwrap();
    let job = RebalanceObjects::new(partition("2020-03"), Bytes::new(15));
    assert!(matches!(
        job.actions(&state).map(|_| ()),
        Err(StateError::MissingPartition(p)) if p == Partition::new("date", "2020-03")
    ));
}

#[test]
fn moving_a_partition_moves_its_objects() {
    let store = MemoryStore::new();
    store.put(&object("2020-01", "a.parquet"), parquet_object(100, 1024));
    let state = reload(&store);
    let job = MovePartition::new(partition("2020-01"), partition("2021-01"));
    let execution = run(&store, &state, &job);
    assert!(!execution.has_errors());
    assert_eq!(
        execution.passed(),
        &vec![
            "move(file://bucket/ds/date=2020-01/a.parquet, file://bucket/ds/date=2021-01/a.parquet)"
                .to_string(),
            "rm(file://bucket/ds/date=2020-01/)".to_string(),
        ]
    );
    assert_eq!(
        listing(&execution.state),
        vec![
            ("file://bucket/ds/date=2021-01".to_string(), None, 0),
            ("file://bucket/ds/date=2021-01/a.parquet".to_string(), Some(100), 1024),
        ]
    );
    assert!(!execution.state.contains_partition(&partition("2020-01")));
    assert_eq!(store.paths(), vec!["file://bucket/ds/date=2021-01/a.parquet".to_string()]);
    assert_eq!(store.partitions(), vec!["file://bucket/ds/date=2021-01".to_string()]);
}

#[test]
fn moving_a_partition_overwrites_the_target() {
    let store = MemoryStore::new();
    store.put(&object("2021-01", "x.parquet"), parquet_object(5, 50));
    store.put(&object("2020-01", "y.parquet"), parquet_object(100, 1024));
    let state = reload(&store);
    let job = MovePartition::new(partition("2020-01"), partition("2021-01"));
    let execution = run(&store, &state, &job);
    assert!(!execution.has_errors());
    assert_eq!(execution.passed().len(), 3);
    assert_eq!(
        listing(&execution.state),
        vec![
            ("file://bucket/ds/date=2021-01".to_string(), None, 0),
            ("file://bucket/ds/date=2021-01/y.parquet".to_string(), Some(100), 1024),
        ]
    );
    assert_eq!(store.paths(), vec!["file://bucket/ds/date=2021-01/y.parquet".to_string()]);
    assert_eq!(listing(&reload(&store)), listing(&execution.state));
}

#[test]
fn rebalancing_four_objects_into_five() {
    let store = MemoryStore::new();
    for name in ["a.parquet", "b.parquet", "c.parquet", "d.parquet"] {
        store.put(&object("2020-03", name), parquet_object(1000, 20 * MIB));
    }
    let state = reload(&store);
    let job = RebalanceObjects::new(partition("2020-03"), Bytes::new_in_mib(15));
    let execution = run(&store, &state, &job);
    assert!(!execution.has_errors());
    assert_eq!(execution.passed().len(), 5);
    let mut total = 0;
    for index in 0..5 {
        let path = object("2020-03", &format!("{}.parquet", index));
        let rows = execution.state.get_object(&path).unwrap().num_rows().unwrap();
        if index < 4 {
            assert!(rows >= 4000 / 5);
        }
        total += rows;
    }
    assert_eq!(total, 4000);
    assert_eq!(execution.state.list_objects(&partition("2020-03")).unwrap().len(), 5);
    assert_eq!(
        store.paths(),
        vec![
            "file://bucket/ds/date=2020-03/0.parquet".to_string(),
            "file://bucket/ds/date=2020-03/1.parquet".to_string(),
            "file://bucket/ds/date=2020-03/2.parquet".to_string(),
            "file://bucket/ds/date=2020-03/3.parquet".to_string(),
            "file://bucket/ds/date=2020-03/4.parquet".to_string(),
        ]
    );
    assert_eq!(store.calls()[0], "rebalance 4 into 5 towards Rows(800)".to_string());
}

#[test]
fn a_failure_stops_the_run_after_its_batch() {
    let store = MemoryStore::new();
    store.put(&object("2020-01", "a.parquet"), parquet_object(100, 1024));
    let state = reload(&store);
    let mut tree = ActionTree::new();
    let first = tree.add_node(&[]);
    tree.add_action(first, RemovePartitionAction::new(partition("1999-01")));
    let second = tree.add_node(&[first]);
    tree.add_action(second, RemoveObjectAction::new(object("2020-01", "a.parquet")));
    let runtime = Runtime::new(store.clone());
    let execution = runtime.execute(&state, tree);
    assert!(execution.has_errors());
    assert!(execution.passed().is_empty());
    assert_eq!(execution.failed().len(), 1);
    assert_eq!(execution.failed()[0].0, "rm(file://bucket/ds/date=1999-01/)");
    assert!(matches!(
        &execution.failed()[0].1,
        ActionError::State(StateError::MissingPartition(_))
    ));
    assert_eq!(listing(&execution.state), listing(&state));
    assert_eq!(store.paths(), vec!["file://bucket/ds/date=2020-01/a.parquet".to_string()]);
    let errors = execution.errors();
    assert_eq!(errors.len(), 1);
    assert!(matches!(&errors[0], ActionError::State(StateError::MissingPartition(_))));
}

#[test]
fn a_batch_goes_on_after_a_failure() {
    let store = MemoryStore::new();
    store.put(&object("2020-01", "a.parquet"), parquet_object(100, 1024));
    store.put(&object("2020-01", "b.parquet"), parquet_object(1, 1));
    let state = reload(&store);
    let mut tree = ActionTree::new();
    let first = tree.add_node(&[]);
    tree.add_action(first, RemoveObjectAction::new(object("2020-01", "z.parquet")));
    tree.add_action(first, RemoveObjectAction::new(object("2020-01", "a.parquet")));
    let second = tree.add_node(&[]);
    tree.add_action(second, RemovePartitionAction::new(partition("1999-01")));
    tree.add_action(second, RemoveObjectAction::new(object("2020-01", "b.parquet")));
    let third = tree.add_node(&[first, second]);
    tree.add_action(third, RemovePartitionAction::new(partition("2020-01")));
    let runtime = Runtime::new(store.clone());
    let execution = runtime.execute(&state, tree);
    assert!(execution.has_errors());
    assert_eq!(
        execution.passed(),
        &vec![
            "remove(file://bucket/ds/date=2020-01/a.parquet)".to_string(),
            "remove(file://bucket/ds/date=2020-01/b.parquet)".to_string(),
        ]
    );
    let failed: Vec<&str> = execution.failed().iter().map(|(key, _)| key.as_str()).collect();
    assert_eq!(
        failed,
        vec!["remove(file://bucket/ds/date=2020-01/z.parquet)", "rm(file://bucket/ds/date=1999-01/)"]
    );
    assert!(execution.state.contains_partition(&partition("2020-01")));
    assert!(execution.state.list_objects(&partition("2020-01")).unwrap().is_empty());
    let errors = execution.errors();
    assert!(matches!(&errors[0], ActionError::State(StateError::MissingObject(_))));
    assert!(matches!(&errors[1], ActionError::State(StateError::MissingPartition(_))));
}

#[test]
fn a_runtime_takes_a_store_in_a_box() {
    let store = MemoryStore::new();
    store.put(&object("2020-01", "a.parquet"), parquet_object(100, 1024));
    let boxed: Box<dyn Store> = Box::new(store.clone());
    let runtime = Runtime::new(boxed);
    let state = State::new();
    let tree = ReloadDataset::new(dataset()).actions(&state).unwrap();
    let execution = runtime.execute(&state, tree);
    assert!(!execution.has_errors());
    assert!(execution.state().contains_object(&object("2020-01", "a.parquet")));
    let mut tree = ActionTree::new();
    let node = tree.add_node(&[]);
    tree.add_action(node, RemoveObjectAction::new(object("2020-01", "a.parquet")));
    let execution = Runtime::new(Box::new(store.clone())).execute(execution.state(), tree);
    assert!(!execution.has_errors());
    assert!(store.paths().is_empty());
    let state = execution.into_state();
    assert!(state.list_objects(&partition("2020-01")).unwrap().is_empty());
}

#[test]
fn a_store_in_a_box_is_the_store_in_it() {
    let store = MemoryStore::new();
    store.put(&object("2020-01", "a.parquet"), parquet_object(100, 1024));
    let boxed: Box<dyn Store> = Box::new(store.clone());
    assert_eq!(boxed.list_partitions(&dataset()).unwrap(), vec![Partition::new("date", "2020-01")]);
    assert_eq!(
        boxed.list_objects(&partition("2020-01")).unwrap(),
        vec![ObjectKey::new("a.parquet".to_string())]
    );
    assert_eq!(boxed.read_object(&object("2020-01", "a.parquet")).unwrap().num_rows(), Some(100));
    boxed.move_object(&object("2020-01", "a.parquet"), &object("2020-02", "b.parquet")).unwrap();
    assert_eq!(store.paths(), vec!["file://bucket/ds/date=2020-02/b.parquet".to_string()]);
    let states = boxed
        .rebalance_objects(
            &[object("2020-02", "b.parquet")],
            &[object("2020-02", "0.parquet"), object("2020-02", "1.parquet")],
            &RebalanceTarget::Rows(50),
        )
        .unwrap();
    assert_eq!(states.len(), 2);
    boxed.remove_object(&object("2020-02", "b.parquet")).unwrap();
    boxed.remove_partition(&partition("2020-01")).unwrap();
    assert!(matches!(boxed.remove_partition(&partition("2020-01")), Err(StoreError::Io(_))));
    assert_eq!(store.partitions(), vec!["file://bucket/ds/date=2020-02".to_string()]);
}

#[test]
fn a_runtime_holds_the_store_it_was_given() {
    let store = MemoryStore::new();
    store.put(&object("2020-01", "a.parquet"), parquet_object(100, 1024));
    let runtime = Runtime::new(store.clone());
    assert_eq!(runtime.store().paths(), store.paths());
    let state = reload(&store);
    let mut tree = ActionTree::new();
    let node = tree.add_node(&[]);
    tree.add_action(node, RemoveObjectAction::new(object("2020-01", "a.parquet")));
    let execution = runtime.execute(&state, tree);
    assert!(!execution.has_errors());
    assert!(runtime.store().paths().is_empty());
    assert_eq!(runtime.store().calls(), vec!["rm file://bucket/ds/date=2020-01/a.parquet".to_string()]);
}

#[test]
fn a_custom_step_gives_what_its_action_gives() {
    let store = MemoryStore::new();
    store.put(&object("2020-01", "a.parquet"), parquet_object(100, 1024));
    let state = reload(&store);
    let custom = Custom::new(RemoveObjectAction::new(object("2020-01", "a.parquet")));
    let after = custom.execute(&store, &state).unwrap();
    assert!(!after.contains_object(&object("2020-01", "a.parquet")));
    let step: Step<RemoveObjectAction> =
        Step::new(Custom::new(RemoveObjectAction::new(object("2020-01", "a.parquet"))));
    assert!(matches!(
        step.execute(&store, &after),
        Err(ActionError::State(StateError::MissingObject(_)))
    ));
    let idle: Step = Step::new(Custom::new(NoCustom));
    let same = idle.execute(&store, &state).unwrap();
    assert_eq!(listing(&same), listing(&state));
}

#[test]
fn a_run_takes_actions_of_another_kind() {
    let store = MemoryStore::new();
    store.put(&object("2020-01", "a.parquet"), parquet_object(100, 1024));
    store.put(&object("2020-01", "b.parquet"), parquet_object(1, 1));
    let state = reload(&store);
    let mut tree = ActionTree::<RemoveObjectAction>::with_custom();
    let first = tree.add_node(&[]);
    tree.add_action(first, Custom::new(RemoveObjectAction::new(object("2020-01", "a.parquet"))));
    let second = tree.add_node(&[first]);
    tree.add_action(second, RemoveObjectAction::new(object("2020-01", "b.parquet")));
    tree.add_action(second, RemovePartitionAction::new(partition("2020-01")));
    let execution = Runtime::new(store.clone()).execute(&state, tree);
    assert!(!execution.has_errors());
    assert_eq!(execution.passed().len(), 3);
    assert!(!execution.state().contains_partition(&partition("2020-01")));
    assert!(store.paths().is_empty());
}

#[test]
fn a_run_takes_actions_in_boxes() {
    let store = MemoryStore::new();
    store.put(&object("2020-01", "a.parquet"), parquet_object(100, 1024));
    store.put(&object("2020-01", "b.parquet"), parquet_object(1, 1));
    let state = reload(&store);
    let remove: Box<dyn Action> =
        Box::new(RemoveObjectAction::new(object("2020-01", "a.parquet")));
    let go: Box<dyn Action> = Box::new(MoveAction::new(
        object("2020-01", "b.parquet"),
        object("2020-02", "b.parquet"),
    ));
    assert_eq!(remove.key(), "remove(file://bucket/ds/date=2020-01/a.parquet)");
    let mut tree = ActionTree::<Box<dyn Action>>::with_custom();
    let node = tree.add_node(&[]);
    tree.add_action(node, Custom::new(remove));
    tree.add_action(node, Custom::new(go));
    tree.add_action(node, RemovePartitionAction::new(partition("2020-01")));
    let execution = Runtime::new(store.clone()).execute(&state, tree);
    assert!(!execution.has_errors());
    assert_eq!(
        execution.passed(),
        &vec![
            "remove(file://bucket/ds/date=2020-01/a.parquet)".to_string(),
            "move(file://bucket/ds/date=2020-01/b.parquet, file://bucket/ds/date=2020-02/b.parquet)"
                .to_string(),
            "rm(file://bucket/ds/date=2020-01/)".to_string(),
        ]
    );
    assert_eq!(store.paths(), vec!["file://bucket/ds/date=2020-02/b.parquet".to_string()]);
}

#[test]
fn a_step_gives_what_its_action_gives() {
    let store = MemoryStore::new();
    store.put(&object("2020-01", "a.parquet"), parquet_object(100, 1024));
    let state = reload(&store);
    let step: Step = Step::new(RemoveObjectAction::new(object("2020-01", "a.parquet")));
    let after = step.execute(&store, &state).unwrap();
    assert!(!after.contains_object(&object("2020-01", "a.parquet")));
    assert!(store.paths().is_empty());
    assert!(matches!(
        step.execute(&store, &after),
        Err(ActionError::State(StateError::MissingObject(_)))
    ));
    let refused: Step = Step::new(RemovePartitionAction::new(partition("1999-01")));
    assert!(matches!(
        refused.execute(&store, &state),
        Err(ActionError::State(StateError::MissingPartition(_)))
    ));
}

#[test]
fn a_run_without_nodes_changes_nothing() {
    let store = MemoryStore::new();
    store.put(&object("2020-01", "a.parquet"), parquet_object(100, 1024));
    let state = reload(&store);
    let runtime = Runtime::new(store.clone());
    let execution = runtime.execute(&state, ActionTree::new());
    assert!(!execution.has_errors());
    assert!(execution.passed().is_empty());
    assert!(execution.failed().is_empty());
    assert_eq!(listing(&execution.state), listing(&state));
    assert!(execution.errors().is_empty());
}

#[test]
fn a_run_visits_every_node_once() {
    let store = MemoryStore::new();
    for name in ["a", "b", "c", "d"] {
        store.put(&object("2020-01", name), parquet_object(1, 1));
    }
    let state = reload(&store);
    let mut tree = ActionTree::new();
    let a = tree.add_node(&[]);
    let b = tree.add_node(&[a]);
    let c = tree.add_node(&[a]);
    let d = tree.add_node(&[b, c]);
    tree.add_action(d, RemoveObjectAction::new(object("2020-01", "d")));
    tree.add_action(c, RemoveObjectAction::new(object("2020-01", "c")));
    tree.add_action(b, RemoveObjectAction::new(object("2020-01", "b")));
    tree.add_action(a, RemoveObjectAction::new(object("2020-01", "a")));
    let runtime = Runtime::new(store.clone());
    let execution = runtime.execute(&state, tree);
    assert!(!execution.has_errors());
    assert_eq!(
        execution.passed(),
        &vec![
            "remove(file://bucket/ds/date=2020-01/a)".to_string(),
            "remove(file://bucket/ds/date=2020-01/b)".to_string(),
            "remove(file://bucket/ds/date=2020-01/c)".to_string(),
            "remove(file://bucket/ds/date=2020-01/d)".to_string(),
        ]
    );
    assert!(store.paths().is_empty());
    assert!(execution.state.list_objects(&partition("2020-01")).unwrap().is_empty());
}
