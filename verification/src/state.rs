//! The catalog: which datasets, partitions and objects there are, and what is known of each
//! object. A change to the catalog gives a new catalog and leaves the old one as it was.

use crate::base::{pairs_text, Bytes, Compression, ObjectKey, Partition};
use crate::path::{
    dataset_text, DatasetPath, DatasetPathView, ObjectPath, ObjectPathView, PartitionPath,
    PartitionPathView,
};
use crate::tables::{
    datasets_get, datasets_keys, datasets_new, datasets_of, datasets_update, lemma_lists_step,
    lists,
    objects_get, objects_keys, objects_new, objects_of, objects_update, objects_without,
    partitions_get, partitions_keys, partitions_new, partitions_of, partitions_update,
    partitions_without,
};
use crate::text::{decimal, usize_to_string};
use vstd::prelude::*;

verus! {

/// The objects of a partition, by the text of their keys.
pub type ObjectsView = Map<Seq<char>, ObjectState>;

/// The partitions of a dataset, by their `key=value` pairs.
pub type PartitionsView = Map<Seq<(Seq<char>, Seq<char>)>, ObjectsView>;

/// The datasets of a catalog, by their paths.
pub type CatalogView = Map<DatasetPathView, PartitionsView>;

/// What a lookup in the catalog did not find.
pub enum Missing {
    Dataset(DatasetPathView),
    Partition(Seq<(Seq<char>, Seq<char>)>),
    Object(Seq<char>),
}

/// The error of a catalog operation on a path that the catalog does not hold.
#[derive(Debug)]
pub enum StateError {
    MissingDataset(DatasetPath),
    MissingPartition(Partition),
    MissingObject(ObjectKey),
}

impl View for StateError {
    type V = Missing;

    open spec fn view(&self) -> Missing {
        match self {
            StateError::MissingDataset(dataset) => Missing::Dataset(dataset@),
            StateError::MissingPartition(partition) => Missing::Partition(partition@),
            StateError::MissingObject(key) => Missing::Object(key@),
        }
    }
}

/// The message of a catalog error.
pub open spec fn missing_text(missing: Missing) -> Seq<char> {
    match missing {
        Missing::Dataset(dataset) => "Missing dataset: "@ + dataset_text(dataset),
        Missing::Partition(partition) => "Missing partition: "@ + pairs_text(partition),
        Missing::Object(key) => "Missing object: "@ + key,
    }
}

impl StateError {
    pub fn to_string(&self) -> (r: String)
        ensures
            r@ == missing_text(self@),
    {
        match self {
            StateError::MissingDataset(dataset) => {
                let mut out = "Missing dataset: ".to_owned();
                let text = dataset.to_string();
                out.append(text.as_str());
                out
            },
            StateError::MissingPartition(partition) => {
                let mut out = "Missing partition: ".to_owned();
                let text = partition.to_string();
                out.append(text.as_str());
                out
            },
            StateError::MissingObject(key) => {
                let mut out = "Missing object: ".to_owned();
                out.append(key.as_str());
                out
            },
        }
    }
}

/// The metadata of a CSV object.
#[derive(Debug)]
pub struct CsvFormatState {
    schema: arrow::datatypes::Schema,
    delimiter: String,
    compression: Compression,
}

impl Clone for CsvFormatState {
    fn clone(&self) -> (r: Self)
        ensures
            r == *self,
    {
        CsvFormatState {
            schema: self.schema.clone(),
            delimiter: self.delimiter.clone(),
            compression: self.compression,
        }
    }
}

impl CsvFormatState {
    pub closed spec fn spec_schema(&self) -> arrow::datatypes::Schema {
        self.schema
    }

    pub closed spec fn spec_delimiter(&self) -> Seq<char> {
        self.delimiter@
    }

    pub closed spec fn spec_compression(&self) -> Compression {
        self.compression
    }

    /// The metadata of an uncompressed CSV object.
    pub fn new(schema: arrow::datatypes::Schema, delimiter: String) -> (r: CsvFormatState)
        ensures
            r.spec_schema() == schema,
            r.spec_delimiter() == delimiter@,
            r.spec_compression() == Compression::Uncompressed,
    {
        CsvFormatState { schema, delimiter, compression: Compression::Uncompressed }
    }

    /// The metadata of an uncompressed CSV object whose fields a comma separates.
    pub fn with_schema(schema: arrow::datatypes::Schema) -> (r: CsvFormatState)
        ensures
            r.spec_schema() == schema,
            r.spec_delimiter() == seq![','],
            r.spec_compression() == Compression::Uncompressed,
    {
        proof {
            reveal_strlit(",");
        }
        let delimiter = ",".to_owned();
        assert(delimiter@ =~= seq![',']);
        CsvFormatState { schema, delimiter, compression: Compression::Uncompressed }
    }

    /// The same metadata, for an object compressed with `compression`.
    pub fn with_compression(self, compression: Compression) -> (r: CsvFormatState)
        ensures
            r.spec_schema() == self.spec_schema(),
            r.spec_delimiter() == self.spec_delimiter(),
            r.spec_compression() == compression,
    {
        CsvFormatState { schema: self.schema, delimiter: self.delimiter, compression }
    }

    pub fn schema(&self) -> (r: &arrow::datatypes::Schema)
        ensures
            *r == self.spec_schema(),
    {
        &self.schema
    }

    pub fn delimiter(&self) -> (r: &str)
        ensures
            r@ == self.spec_delimiter(),
    {
        self.delimiter.as_str()
    }

    pub fn compression(&self) -> (r: Compression)
        ensures
            r == self.spec_compression(),
    {
        self.compression
    }
}

/// The metadata of a Parquet object.
#[derive(Debug)]
pub struct ParquetFormatState {
    schema: parquet::schema::types::Type,
    num_rows: usize,
}

impl Clone for ParquetFormatState {
    fn clone(&self) -> (r: Self)
        ensures
            r == *self,
    {
        ParquetFormatState { schema: self.schema.clone(), num_rows: self.num_rows }
    }
}

impl ParquetFormatState {
    pub closed spec fn spec_schema(&self) -> parquet::schema::types::Type {
        self.schema
    }

    pub closed spec fn spec_num_rows(&self) -> usize {
        self.num_rows
    }

    pub fn new(schema: parquet::schema::types::Type, num_rows: usize) -> (r: ParquetFormatState)
        ensures
            r.spec_schema() == schema,
            r.spec_num_rows() == num_rows,
    {
        ParquetFormatState { schema, num_rows }
    }

    pub fn schema(&self) -> (r: &parquet::schema::types::Type)
        ensures
            *r == self.spec_schema(),
    {
        &self.schema
    }

    pub fn num_rows(&self) -> (r: usize)
        ensures
            r == self.spec_num_rows(),
    {
        self.num_rows
    }
}

/// The metadata of an object, by format.
#[derive(Debug)]
pub enum FormatState {
    Csv(CsvFormatState),
    Parquet(ParquetFormatState),
}

impl Clone for FormatState {
    fn clone(&self) -> (r: Self)
        ensures
            r == *self,
    {
        match self {
            FormatState::Csv(state) => FormatState::Csv(state.clone()),
            FormatState::Parquet(state) => FormatState::Parquet(state.clone()),
        }
    }
}

impl FormatState {
    /// The number of rows, which only Parquet metadata records.
    pub open spec fn spec_num_rows(&self) -> Option<usize> {
        match self {
            FormatState::Parquet(state) => Some(state.spec_num_rows()),
            FormatState::Csv(_) => None,
        }
    }

    pub fn num_rows(&self) -> (r: Option<usize>)
        ensures
            r == self.spec_num_rows(),
    {
        match self {
            FormatState::Parquet(state) => Some(state.num_rows()),
            FormatState::Csv(_) => None,
        }
    }

    /// The text of the metadata: the format and what tells its objects apart.
    pub open spec fn spec_text(&self) -> Seq<char> {
        match self {
            FormatState::Csv(state) => "Csv(delimiter: "@ + state.spec_delimiter() + ")"@,
            FormatState::Parquet(state) => "Parquet(num_rows: "@ + decimal(
                state.spec_num_rows() as nat,
            ) + ")"@,
        }
    }

    pub fn to_string(&self) -> (r: String)
        ensures
            r@ == self.spec_text(),
    {
        match self {
            FormatState::Csv(state) => {
                let mut out = "Csv(delimiter: ".to_owned();
                out.append(state.delimiter());
                out.append(")");
                out
            },
            FormatState::Parquet(state) => {
                let mut out = "Parquet(num_rows: ".to_owned();
                let rows = usize_to_string(state.num_rows());
                out.append(rows.as_str());
                out.append(")");
                out
            },
        }
    }
}

/// What the catalog records of one object: its metadata and its size.
#[derive(Debug)]
pub struct ObjectState {
    pub format: FormatState,
    pub size: Bytes,
}

impl Clone for ObjectState {
    fn clone(&self) -> (r: Self)
        ensures
            r == *self,
    {
        ObjectState { format: self.format.clone(), size: self.size }
    }
}

impl ObjectState {
    pub open spec fn spec_num_rows(&self) -> Option<usize> {
        self.format.spec_num_rows()
    }

    pub fn new_csv(format: CsvFormatState, size: Bytes) -> (r: ObjectState)
        ensures
            r == (ObjectState { format: FormatState::Csv(format), size }),
    {
        ObjectState { format: FormatState::Csv(format), size }
    }

    pub fn new_parquet(format: ParquetFormatState, size: Bytes) -> (r: ObjectState)
        ensures
            r == (ObjectState { format: FormatState::Parquet(format), size }),
    {
        ObjectState { format: FormatState::Parquet(format), size }
    }

    pub fn num_rows(&self) -> (r: Option<usize>)
        ensures
            r == self.spec_num_rows(),
    {
        self.format.num_rows()
    }
}

/// The sum of the sizes of the objects of a partition.
pub open spec fn total_size(objects: ObjectsView) -> nat
    decreases objects.dom().len(),
    when objects.dom().finite()
{
    if objects.dom().len() == 0 {
        0
    } else {
        let key = objects.dom().choose();
        objects[key].size@ + total_size(objects.remove(key))
    }
}

/// The sum of sizes does not depend on which object is taken out first.
pub proof fn lemma_total_size_remove(objects: ObjectsView, key: Seq<char>)
    requires
        objects.dom().finite(),
        objects.contains_key(key),
    ensures
        total_size(objects) == objects[key].size@ + total_size(objects.remove(key)),
    decreases objects.dom().len(),
{
    let chosen = objects.dom().choose();
    assert(objects.dom().len() != 0) by {
        if objects.dom().len() == 0 {
            assert(objects.dom() =~= Set::empty());
        }
    }
    if chosen != key {
        vstd::set_lib::lemma_set_empty_equivalency_len(objects.dom());
        assert(objects.dom().contains(chosen));
        lemma_total_size_remove(objects.remove(chosen), key);
        lemma_total_size_remove(objects.remove(key), chosen);
        assert(objects.remove(chosen).remove(key) =~= objects.remove(key).remove(chosen));
    }
}

/// The objects that a list of entries makes: a later entry replaces an earlier one of the
/// same key.
pub open spec fn collected_objects(entries: Seq<(ObjectKey, ObjectState)>) -> ObjectsView
    decreases entries.len(),
{
    if entries.len() == 0 {
        Map::empty()
    } else {
        collected_objects(entries.drop_last()).insert(entries.last().0@, entries.last().1)
    }
}

/// The partitions that a list of entries makes: a later entry replaces an earlier one of
/// the same partition.
pub open spec fn collected_partitions(entries: Seq<(Partition, PartitionState)>) -> PartitionsView
    decreases entries.len(),
{
    if entries.len() == 0 {
        Map::empty()
    } else {
        collected_partitions(entries.drop_last()).insert(entries.last().0@, entries.last().1@)
    }
}

/// The objects that a list of entries makes are those that the entries name.
pub proof fn lemma_collected_objects_names(entries: Seq<(ObjectKey, ObjectState)>)
    ensures
        collected_objects(entries).dom() == Seq::new(
            entries.len(),
            |i: int| entries[i].0@,
        ).to_set(),
    decreases entries.len(),
{
    let names = Seq::new(entries.len(), |i: int| entries[i].0@);
    if entries.len() == 0 {
        assert(collected_objects(entries).dom() =~= names.to_set());
    } else {
        let before = entries.drop_last();
        let names_before = Seq::new(before.len(), |i: int| before[i].0@);
        lemma_collected_objects_names(before);
        assert(names =~= names_before.push(entries.last().0@));
        names_before.lemma_push_to_set_commute(entries.last().0@);
        assert(collected_objects(entries).dom() =~= names.to_set());
    }
}

/// The partitions that a list of entries makes are those that the entries name.
pub proof fn lemma_collected_partitions_names(entries: Seq<(Partition, PartitionState)>)
    ensures
        collected_partitions(entries).dom() == Seq::new(
            entries.len(),
            |i: int| entries[i].0@,
        ).to_set(),
    decreases entries.len(),
{
    let names = Seq::new(entries.len(), |i: int| entries[i].0@);
    if entries.len() == 0 {
        assert(collected_partitions(entries).dom() =~= names.to_set());
    } else {
        let before = entries.drop_last();
        let names_before = Seq::new(before.len(), |i: int| before[i].0@);
        lemma_collected_partitions_names(before);
        assert(names =~= names_before.push(entries.last().0@));
        names_before.lemma_push_to_set_commute(entries.last().0@);
        assert(collected_partitions(entries).dom() =~= names.to_set());
    }
}

/// The objects of one partition.
#[derive(Debug)]
pub struct PartitionState {
    objects: im::HashMap<ObjectKey, ObjectState>,
}

impl View for PartitionState {
    type V = ObjectsView;

    closed spec fn view(&self) -> ObjectsView {
        objects_of(self.objects)
    }
}

impl Clone for PartitionState {
    fn clone(&self) -> (r: Self)
        ensures
            r == *self,
    {
        PartitionState { objects: self.objects.clone() }
    }
}

impl Default for PartitionState {
    fn default() -> (r: Self)
        ensures
            r@.is_empty(),
    {
        PartitionState { objects: objects_new() }
    }
}

impl PartitionState {
    pub fn new(objects: im::HashMap<ObjectKey, ObjectState>) -> (r: PartitionState)
        ensures
            r@ == objects_of(objects),
    {
        PartitionState { objects }
    }

    /// The partition that holds the objects of `entries`.
    pub fn from_objects(entries: &Vec<(ObjectKey, ObjectState)>) -> (r: PartitionState)
        ensures
            r@ == collected_objects(entries@),
    {
        let mut partition = PartitionState::default();
        assert(partition@ =~= collected_objects(entries@.take(0)));
        let mut i: usize = 0;
        while i < entries.len()
            invariant
                i <= entries.len(),
                partition@ == collected_objects(entries@.take(i as int)),
            decreases entries.len() - i,
        {
            partition = partition.insert_object(entries[i].0.clone(), entries[i].1.clone());
            proof {
                let next = entries@.take(i as int + 1);
                assert(next.drop_last() =~= entries@.take(i as int));
            }
            i += 1;
        }
        assert(entries@.take(i as int) =~= entries@);
        partition
    }

    pub fn get(&self, key: &ObjectKey) -> (r: Result<&ObjectState, StateError>)
        ensures
            match r {
                Ok(object) => self@.contains_key(key@) && *object == self@[key@],
                Err(error) => !self@.contains_key(key@) && error@ == Missing::Object(key@),
            },
    {
        match objects_get(&self.objects, key) {
            Some(object) => Ok(object),
            None => Err(StateError::MissingObject(key.clone())),
        }
    }

    /// The keys of the partition's objects, each once, in no particular order.
    pub fn keys(&self) -> (r: Vec<ObjectKey>)
        ensures
            lists(r@.map_values(|k: ObjectKey| k@), self@.dom()),
    {
        objects_keys(&self.objects)
    }

    pub fn size(&self) -> (r: Bytes)
        requires
            total_size(self@) <= usize::MAX,
        ensures
            r@ == total_size(self@),
    {
        match self.checked_size() {
            Some(size) => size,
            None => Bytes::new(0),
        }
    }

    /// The sum of the sizes of the partition's objects, where it fits.
    pub fn checked_size(&self) -> (r: Option<Bytes>)
        ensures
            self@.dom().finite(),
            match r {
                Some(size) => size@ == total_size(self@) && total_size(self@) <= usize::MAX,
                None => total_size(self@) > usize::MAX,
            },
    {
        let keys = self.keys();
        let ghost names = keys@.map_values(|k: ObjectKey| k@);
        let ghost all = self@;
        proof {
            vstd::seq_lib::seq_to_set_is_finite(names);
            assert(names.take(0).to_set() =~= Set::empty());
            assert(all.remove_keys(names.take(0).to_set()) =~= all);
        }
        let mut sum: usize = 0;
        let mut i: usize = 0;
        while i < keys.len()
            invariant
                i <= keys.len(),
                names == keys@.map_values(|k: ObjectKey| k@),
                lists(names, all.dom()),
                all == self@,
                all.dom().finite(),
                sum + total_size(all.remove_keys(names.take(i as int).to_set())) == total_size(
                    all,
                ),
            decreases keys.len() - i,
        {
            proof {
                let name = names[i as int];
                let before = all.remove_keys(names.take(i as int).to_set());
                let after = all.remove_keys(names.take(i as int + 1).to_set());
                lemma_lists_step(names, i as int);
                assert(names.to_set().contains(name));
                assert(before.dom() =~= all.dom().difference(names.take(i as int).to_set()));
                assert(after =~= before.remove(name));
                lemma_total_size_remove(before, name);
            }
            let size = match self.get(&keys[i]) {
                Ok(object) => object.size.as_usize(),
                Err(_) => 0,
            };
            if size > usize::MAX - sum {
                return None;
            }
            sum = sum + size;
            i += 1;
        }
        proof {
            assert(names.take(i as int) =~= names);
            let rest = all.remove_keys(names.to_set());
            assert(rest.dom() =~= Set::empty());
            assert(total_size(rest) == 0);
        }
        Some(Bytes::new(sum))
    }

    /// The partition with `state` stored under `key`, in place of what was there.
    pub fn insert_object(&self, key: ObjectKey, state: ObjectState) -> (r: PartitionState)
        ensures
            r@ == self@.insert(key@, state),
    {
        PartitionState { objects: objects_update(&self.objects, key, state) }
    }

    /// The partition without the object stored under `key`.
    pub fn remove_object(&self, key: &ObjectKey) -> (r: Result<PartitionState, StateError>)
        ensures
            match r {
                Ok(partition) => self@.contains_key(key@) && partition@ == self@.remove(key@),
                Err(error) => !self@.contains_key(key@) && error@ == Missing::Object(key@),
            },
    {
        match objects_get(&self.objects, key) {
            Some(_) => Ok(PartitionState { objects: objects_without(&self.objects, key) }),
            None => Err(StateError::MissingObject(key.clone())),
        }
    }
}

/// The partitions of one dataset.
#[derive(Debug)]
pub struct DatasetState {
    partitions: im::HashMap<Partition, PartitionState>,
}

impl View for DatasetState {
    type V = PartitionsView;

    closed spec fn view(&self) -> PartitionsView {
        partitions_of(self.partitions).map_values(|partition: PartitionState| partition@)
    }
}

impl Clone for DatasetState {
    fn clone(&self) -> (r: Self)
        ensures
            r == *self,
    {
        DatasetState { partitions: self.partitions.clone() }
    }
}

impl Default for DatasetState {
    fn default() -> (r: Self)
        ensures
            r@.is_empty(),
    {
        DatasetState { partitions: partitions_new() }
    }
}

impl DatasetState {
    /// What a table of partitions holds, each partition by its objects.
    pub open spec fn spec_new(
        partitions: im::HashMap<Partition, PartitionState>,
    ) -> PartitionsView {
        partitions_of(partitions).map_values(|partition: PartitionState| partition@)
    }

    pub fn new(partitions: im::HashMap<Partition, PartitionState>) -> (r: DatasetState)
        ensures
            r@ == DatasetState::spec_new(partitions),
    {
        DatasetState { partitions }
    }

    /// The dataset that holds the partitions of `entries`.
    pub fn from_partitions(entries: &Vec<(Partition, PartitionState)>) -> (r: DatasetState)
        ensures
            r@ == collected_partitions(entries@),
    {
        let mut dataset = DatasetState::default();
        assert(dataset@ =~= collected_partitions(entries@.take(0)));
        let mut i: usize = 0;
        while i < entries.len()
            invariant
                i <= entries.len(),
                dataset@ == collected_partitions(entries@.take(i as int)),
            decreases entries.len() - i,
        {
            dataset = dataset.insert_partition(&entries[i].0, entries[i].1.clone());
            proof {
                let next = entries@.take(i as int + 1);
                assert(next.drop_last() =~= entries@.take(i as int));
            }
            i += 1;
        }
        assert(entries@.take(i as int) =~= entries@);
        dataset
    }

    pub fn get(&self, partition: &Partition) -> (r: Result<&PartitionState, StateError>)
        ensures
            match r {
                Ok(state) => self@.contains_key(partition@) && state@ == self@[partition@],
                Err(error) => !self@.contains_key(partition@) && error@ == Missing::Partition(
                    partition@,
                ),
            },
    {
        match partitions_get(&self.partitions, partition) {
            Some(state) => Ok(state),
            None => Err(StateError::MissingPartition(partition.clone())),
        }
    }

    /// The dataset's partitions, each once, in no particular order.
    pub fn keys(&self) -> (r: Vec<Partition>)
        ensures
            lists(r@.map_values(|k: Partition| k@), self@.dom()),
    {
        let keys = partitions_keys(&self.partitions);
        assert(self@.dom() =~= partitions_of(self.partitions).dom());
        keys
    }

    /// The keys of the objects of one partition, each once, in no particular order.
    pub fn list_objects(&self, partition: &Partition) -> (r: Result<Vec<ObjectKey>, StateError>)
        ensures
            match r {
                Ok(keys) => self@.contains_key(partition@) && lists(
                    keys@.map_values(|k: ObjectKey| k@),
                    self@[partition@].dom(),
                ),
                Err(error) => !self@.contains_key(partition@) && error@ == Missing::Partition(
                    partition@,
                ),
            },
    {
        match self.get(partition) {
            Ok(state) => Ok(state.keys()),
            Err(error) => Err(error),
        }
    }

    /// The dataset with `state` stored as `partition`, in place of what was there.
    pub fn insert_partition(&self, partition: &Partition, state: PartitionState) -> (r:
        DatasetState)
        ensures
            r@ == self@.insert(partition@, state@),
    {
        let r = DatasetState {
            partitions: partitions_update(&self.partitions, partition.clone(), state),
        };
        assert(r@ =~= self@.insert(partition@, state@));
        r
    }

    /// The dataset without `partition`.
    pub fn remove_partition(&self, partition: &Partition) -> (r: Result<DatasetState, StateError>)
        ensures
            match r {
                Ok(dataset) => self@.contains_key(partition@) && dataset@ == self@.remove(
                    partition@,
                ),
                Err(error) => !self@.contains_key(partition@) && error@ == Missing::Partition(
                    partition@,
                ),
            },
    {
        match partitions_get(&self.partitions, partition) {
            Some(_) => {
                let r = DatasetState {
                    partitions: partitions_without(&self.partitions, partition),
                };
                assert(r@ =~= self@.remove(partition@));
                Ok(r)
            },
            None => Err(StateError::MissingPartition(partition.clone())),
        }
    }

    /// The dataset without the object `key` of `partition`.
    pub fn remove_object(&self, partition: &Partition, key: &ObjectKey) -> (r: Result<
        DatasetState,
        StateError,
    >)
        ensures
            match r {
                Ok(dataset) => self@.contains_key(partition@) && self@[partition@].contains_key(
                    key@,
                ) && dataset@ == self@.insert(partition@, self@[partition@].remove(key@)),
                Err(error) => if self@.contains_key(partition@) {
                    !self@[partition@].contains_key(key@) && error@ == Missing::Object(key@)
                } else {
                    error@ == Missing::Partition(partition@)
                },
            },
    {
        let state = match self.get(partition) {
            Ok(state) => state,
            Err(error) => return Err(error),
        };
        match state.remove_object(key) {
            Ok(reduced) => Ok(self.insert_partition(partition, reduced)),
            Err(error) => Err(error),
        }
    }
}

/// The partitions of `dataset`, or which dataset is missing.
pub open spec fn find_dataset(catalog: CatalogView, dataset: DatasetPathView) -> Result<
    PartitionsView,
    Missing,
> {
    if catalog.contains_key(dataset) {
        Ok(catalog[dataset])
    } else {
        Err(Missing::Dataset(dataset))
    }
}

/// The objects of the partition at `path`, or what is missing: the dataset first.
pub open spec fn find_partition(catalog: CatalogView, path: PartitionPathView) -> Result<
    ObjectsView,
    Missing,
> {
    match find_dataset(catalog, path.dataset) {
        Ok(partitions) => if partitions.contains_key(path.partition) {
            Ok(partitions[path.partition])
        } else {
            Err(Missing::Partition(path.partition))
        },
        Err(missing) => Err(missing),
    }
}

/// The object at `path`, or what is missing: the dataset first, then the partition.
pub open spec fn find_object(catalog: CatalogView, path: ObjectPathView) -> Result<
    ObjectState,
    Missing,
> {
    match find_partition(catalog, path.partition) {
        Ok(objects) => if objects.contains_key(path.key) {
            Ok(objects[path.key])
        } else {
            Err(Missing::Object(path.key))
        },
        Err(missing) => Err(missing),
    }
}

/// The catalog with `partitions` as the dataset at `dataset`, in place of what was there.
pub open spec fn with_dataset(
    catalog: CatalogView,
    dataset: DatasetPathView,
    partitions: PartitionsView,
) -> CatalogView {
    catalog.insert(dataset, partitions)
}

/// The catalog with `objects` as the partition at `path`, in place of what was there. The
/// dataset has to exist.
pub open spec fn with_partition(
    catalog: CatalogView,
    path: PartitionPathView,
    objects: ObjectsView,
) -> Result<CatalogView, Missing> {
    match find_dataset(catalog, path.dataset) {
        Ok(partitions) => Ok(catalog.insert(path.dataset, partitions.insert(path.partition, objects))),
        Err(missing) => Err(missing),
    }
}

/// The catalog with `object` at `path`, in place of what was there. The dataset and the
/// partition have to exist.
pub open spec fn with_object(
    catalog: CatalogView,
    path: ObjectPathView,
    object: ObjectState,
) -> Result<CatalogView, Missing> {
    match find_partition(catalog, path.partition) {
        Ok(objects) => with_partition(catalog, path.partition, objects.insert(path.key, object)),
        Err(missing) => Err(missing),
    }
}

/// The catalog without the partition at `path`, which has to exist.
pub open spec fn without_partition(catalog: CatalogView, path: PartitionPathView) -> Result<
    CatalogView,
    Missing,
> {
    match find_partition(catalog, path) {
        Ok(_) => Ok(catalog.insert(path.dataset, catalog[path.dataset].remove(path.partition))),
        Err(missing) => Err(missing),
    }
}

/// The catalog without the object at `path`, which has to exist. Its partition stays, even
/// when it is left empty.
pub open spec fn without_object(catalog: CatalogView, path: ObjectPathView) -> Result<
    CatalogView,
    Missing,
> {
    match find_object(catalog, path) {
        Ok(_) => with_partition(
            catalog,
            path.partition,
            catalog[path.partition.dataset][path.partition.partition].remove(path.key),
        ),
        Err(missing) => Err(missing),
    }
}

/// The catalog with the object at `source` taken out and stored at `target`. The source has
/// to exist, and so has the target's dataset; the target's partition is made if it is
/// missing.
pub open spec fn with_moved_object(
    catalog: CatalogView,
    source: ObjectPathView,
    target: ObjectPathView,
) -> Result<CatalogView, Missing> {
    match find_object(catalog, source) {
        Ok(object) => {
            let reduced = without_object(catalog, source)->Ok_0;
            match find_dataset(reduced, target.partition.dataset) {
                Ok(partitions) => {
                    let objects = if partitions.contains_key(target.partition.partition) {
                        partitions[target.partition.partition]
                    } else {
                        Map::empty()
                    };
                    Ok(
                        reduced.insert(
                            target.partition.dataset,
                            partitions.insert(
                                target.partition.partition,
                                objects.insert(target.key, object),
                            ),
                        ),
                    )
                },
                Err(missing) => Err(missing),
            }
        },
        Err(missing) => Err(missing),
    }
}

/// The catalog with the first `count` of `objects` stored at the first `count` of `paths`,
/// one after the other; the first insertion that fails decides the error.
pub open spec fn with_objects_upto(
    catalog: CatalogView,
    paths: Seq<ObjectPathView>,
    objects: Seq<ObjectState>,
    count: nat,
) -> Result<CatalogView, Missing>
    decreases count,
{
    if count == 0 {
        Ok(catalog)
    } else {
        match with_objects_upto(catalog, paths, objects, (count - 1) as nat) {
            Ok(before) => with_object(before, paths[count - 1], objects[count - 1]),
            Err(missing) => Err(missing),
        }
    }
}

/// The catalog with each of `objects` stored at the path of `paths` that stands at the same
/// place, as far as both lists go.
pub open spec fn with_objects(
    catalog: CatalogView,
    paths: Seq<ObjectPathView>,
    objects: Seq<ObjectState>,
) -> Result<CatalogView, Missing> {
    with_objects_upto(
        catalog,
        paths,
        objects,
        if paths.len() <= objects.len() {
            paths.len()
        } else {
            objects.len()
        },
    )
}

/// `paths` names every partition of the dataset at `dataset` exactly once.
pub open spec fn lists_partitions(
    paths: Seq<PartitionPathView>,
    dataset: DatasetPathView,
    partitions: PartitionsView,
) -> bool {
    &&& lists(paths.map_values(|path: PartitionPathView| path.partition), partitions.dom())
    &&& forall|i: int| 0 <= i < paths.len() ==> (#[trigger] paths[i]).dataset == dataset
}

/// `paths` names every object of the partition at `partition` exactly once.
pub open spec fn lists_objects(
    paths: Seq<ObjectPathView>,
    partition: PartitionPathView,
    objects: ObjectsView,
) -> bool {
    &&& lists(paths.map_values(|path: ObjectPathView| path.key), objects.dom())
    &&& forall|i: int| 0 <= i < paths.len() ==> (#[trigger] paths[i]).partition == partition
}

/// The catalog: every dataset with its partitions and their objects.
#[derive(Debug)]
pub struct State {
    datasets: im::HashMap<DatasetPath, DatasetState>,
}

impl View for State {
    type V = CatalogView;

    closed spec fn view(&self) -> CatalogView {
        datasets_of(self.datasets).map_values(|dataset: DatasetState| dataset@)
    }
}

impl Clone for State {
    fn clone(&self) -> (r: Self)
        ensures
            r == *self,
    {
        State { datasets: self.datasets.clone() }
    }
}

/// What a catalog operation gave, as plain values.
pub open spec fn outcome(result: Result<State, StateError>) -> Result<CatalogView, Missing> {
    match result {
        Ok(state) => Ok(state@),
        Err(error) => Err(error@),
    }
}

impl State {
    pub fn new() -> (r: State)
        ensures
            r@.is_empty(),
    {
        let r = State { datasets: datasets_new() };
        assert(r@.dom() =~= datasets_of(r.datasets).dom());
        r
    }

    pub fn get(&self, path: &DatasetPath) -> (r: Result<&DatasetState, StateError>)
        ensures
            match r {
                Ok(dataset) => find_dataset(self@, path@) == Ok::<PartitionsView, Missing>(dataset@),
                Err(error) => find_dataset(self@, path@) == Err::<PartitionsView, Missing>(error@),
            },
    {
        match datasets_get(&self.datasets, path) {
            Some(dataset) => Ok(dataset),
            None => Err(StateError::MissingDataset(path.clone())),
        }
    }

    /// The datasets of the catalog, each once, in no particular order.
    pub fn list_datasets(&self) -> (r: Vec<DatasetPath>)
        ensures
            lists(r@.map_values(|p: DatasetPath| p@), self@.dom()),
    {
        let keys = datasets_keys(&self.datasets);
        assert(self@.dom() =~= datasets_of(self.datasets).dom());
        keys
    }

    pub fn get_partition(&self, path: &PartitionPath) -> (r: Result<&PartitionState, StateError>)
        ensures
            match r {
                Ok(partition) => find_partition(self@, path@) == Ok::<ObjectsView, Missing>(
                    partition@,
                ),
                Err(error) => find_partition(self@, path@) == Err::<ObjectsView, Missing>(error@),
            },
    {
        match self.get(&path.dataset) {
            Ok(dataset) => dataset.get(&path.partition),
            Err(error) => Err(error),
        }
    }

    pub fn get_object(&self, path: &ObjectPath) -> (r: Result<&ObjectState, StateError>)
        ensures
            match r {
                Ok(object) => find_object(self@, path@) == Ok::<ObjectState, Missing>(*object),
                Err(error) => find_object(self@, path@) == Err::<ObjectState, Missing>(error@),
            },
    {
        match self.get_partition(path.partition_path()) {
            Ok(partition) => partition.get(path.key()),
            Err(error) => Err(error),
        }
    }

    pub fn contains_partition(&self, path: &PartitionPath) -> (r: bool)
        ensures
            r == find_partition(self@, path@) is Ok,
    {
        match self.get_partition(path) {
            Ok(_) => true,
            Err(_) => false,
        }
    }

    pub fn contains_object(&self, path: &ObjectPath) -> (r: bool)
        ensures
            r == find_object(self@, path@) is Ok,
    {
        match self.get_object(path) {
            Ok(_) => true,
            Err(_) => false,
        }
    }

    pub fn list_partitions(&self, path: &DatasetPath) -> (r: Result<Vec<PartitionPath>, StateError>)
        ensures
            match r {
                Ok(paths) => find_dataset(self@, path@) is Ok && lists_partitions(
                    paths@.map_values(|p: PartitionPath| p@),
                    path@,
                    find_dataset(self@, path@)->Ok_0,
                ),
                Err(error) => find_dataset(self@, path@) == Err::<PartitionsView, Missing>(error@),
            },
    {
        let dataset = match self.get(path) {
            Ok(dataset) => dataset,
            Err(error) => return Err(error),
        };
        let keys = dataset.keys();
        let mut paths: Vec<PartitionPath> = Vec::new();
        let mut i: usize = 0;
        while i < keys.len()
            invariant
                i <= keys.len(),
                paths@.len() == i,
                forall|j: int|
                    0 <= j < i ==> (#[trigger] paths@[j])@ == (PartitionPathView {
                        dataset: path@,
                        partition: keys@[j]@,
                    }),
            decreases keys.len() - i,
        {
            paths.push(path.partition_path(&keys[i]));
            i += 1;
        }
        proof {
            let views = paths@.map_values(|p: PartitionPath| p@);
            assert(views.map_values(|p: PartitionPathView| p.partition) =~= keys@.map_values(
                |k: Partition| k@,
            ));
        }
        Ok(paths)
    }

    pub fn list_objects(&self, path: &PartitionPath) -> (r: Result<Vec<ObjectPath>, StateError>)
        ensures
            match r {
                Ok(paths) => find_partition(self@, path@) is Ok && lists_objects(
                    paths@.map_values(|p: ObjectPath| p@),
                    path@,
                    find_partition(self@, path@)->Ok_0,
                ),
                Err(error) => find_partition(self@, path@) == Err::<ObjectsView, Missing>(error@),
            },
    {
        let partition = match self.get_partition(path) {
            Ok(partition) => partition,
            Err(error) => return Err(error),
        };
        let keys = partition.keys();
        let mut paths: Vec<ObjectPath> = Vec::new();
        let mut i: usize = 0;
        while i < keys.len()
            invariant
                i <= keys.len(),
                paths@.len() == i,
                forall|j: int|
                    0 <= j < i ==> (#[trigger] paths@[j])@ == (ObjectPathView {
                        partition: path@,
                        key: keys@[j]@,
                    }),
            decreases keys.len() - i,
        {
            paths.push(path.object_path(&keys[i]));
            i += 1;
        }
        proof {
            let views = paths@.map_values(|p: ObjectPath| p@);
            assert(views.map_values(|p: ObjectPathView| p.key) =~= keys@.map_values(
                |k: ObjectKey| k@,
            ));
        }
        Ok(paths)
    }

    pub fn insert_dataset(&self, path: &DatasetPath, state: DatasetState) -> (r: Result<
        State,
        StateError,
    >)
        ensures
            outcome(r) == Ok::<CatalogView, Missing>(with_dataset(self@, path@, state@)),
    {
        let r = State { datasets: datasets_update(&self.datasets, path.clone(), state) };
        assert(r@ =~= self@.insert(path@, state@));
        Ok(r)
    }

    pub fn insert_partition(&self, path: &PartitionPath, state: PartitionState) -> (r: Result<
        State,
        StateError,
    >)
        ensures
            outcome(r) == with_partition(self@, path@, state@),
    {
        let dataset = match self.get(&path.dataset) {
            Ok(dataset) => dataset,
            Err(error) => return Err(error),
        };
        self.insert_dataset(&path.dataset, dataset.insert_partition(&path.partition, state))
    }

    pub fn insert_object(&self, path: &ObjectPath, state: ObjectState) -> (r: Result<
        State,
        StateError,
    >)
        ensures
            outcome(r) == with_object(self@, path@, state),
    {
        let partition = match self.get_partition(path.partition_path()) {
            Ok(partition) => partition,
            Err(error) => return Err(error),
        };
        self.insert_partition(path.partition_path(), partition.insert_object(path.key().clone(), state))
    }

    /// Stores each of `objects` at the path of `paths` that stands at the same place.
    pub fn insert_objects(&self, paths: &Vec<ObjectPath>, objects: &Vec<ObjectState>) -> (r:
        Result<State, StateError>)
        ensures
            outcome(r) == with_objects(
                self@,
                paths@.map_values(|p: ObjectPath| p@),
                objects@,
            ),
    {
        let ghost views = paths@.map_values(|p: ObjectPath| p@);
        let count = if paths.len() <= objects.len() {
            paths.len()
        } else {
            objects.len()
        };
        let mut state = self.clone();
        let mut i: usize = 0;
        while i < count
            invariant
                i <= count,
                count <= paths.len(),
                count <= objects.len(),
                count == paths.len() || count == objects.len(),
                views == paths@.map_values(|p: ObjectPath| p@),
                with_objects_upto(self@, views, objects@, i as nat) == Ok::<CatalogView, Missing>(
                    state@,
                ),
            decreases count - i,
        {
            match state.insert_object(&paths[i], objects[i].clone()) {
                Ok(next) => {
                    assert(views[i as int] == paths@[i as int]@);
                    state = next;
                },
                Err(error) => {
                    proof {
                        assert(views[i as int] == paths@[i as int]@);
                        assert(with_objects_upto(self@, views, objects@, i as nat + 1) == Err::<
                            CatalogView,
                            Missing,
                        >(error@));
                        lemma_with_objects_fails(self@, views, objects@, i as nat + 1, count as nat);
                    }
                    return Err(error);
                },
            }
            i += 1;
        }
        Ok(state)
    }

    pub fn remove_partition(&self, path: &PartitionPath) -> (r: Result<State, StateError>)
        ensures
            outcome(r) == without_partition(self@, path@),
    {
        let dataset = match self.get(&path.dataset) {
            Ok(dataset) => dataset,
            Err(error) => return Err(error),
        };
        match dataset.remove_partition(&path.partition) {
            Ok(reduced) => self.insert_dataset(&path.dataset, reduced),
            Err(error) => Err(error),
        }
    }

    pub fn remove_object(&self, path: &ObjectPath) -> (r: Result<State, StateError>)
        ensures
            outcome(r) == without_object(self@, path@),
    {
        let dataset = match self.get(path.dataset_path()) {
            Ok(dataset) => dataset,
            Err(error) => return Err(error),
        };
        match dataset.remove_object(path.get_partition(), path.key()) {
            Ok(reduced) => self.insert_dataset(path.dataset_path(), reduced),
            Err(error) => Err(error),
        }
    }

    pub fn move_object(&self, source: &ObjectPath, target: &ObjectPath) -> (r: Result<
        State,
        StateError,
    >)
        ensures
            outcome(r) == with_moved_object(self@, source@, target@),
    {
        let object = match self.get_object(source) {
            Ok(object) => object.clone(),
            Err(error) => return Err(error),
        };
        let reduced = match self.remove_object(source) {
            Ok(reduced) => reduced,
            Err(error) => return Err(error),
        };
        let dataset = match reduced.get(target.dataset_path()) {
            Ok(dataset) => dataset,
            Err(error) => return Err(error),
        };
        let partition = match dataset.get(target.get_partition()) {
            Ok(partition) => partition.insert_object(target.key().clone(), object),
            Err(_) => {
                let fresh = PartitionState::default();
                assert(fresh@ =~= Map::<Seq<char>, ObjectState>::empty());
                fresh.insert_object(target.key().clone(), object)
            },
        };
        reduced.insert_dataset(
            target.dataset_path(),
            dataset.insert_partition(target.get_partition(), partition),
        )
    }
}

/// Once an insertion of a list has failed, the rest of the list changes nothing.
pub proof fn lemma_with_objects_fails(
    catalog: CatalogView,
    paths: Seq<ObjectPathView>,
    objects: Seq<ObjectState>,
    failed: nat,
    count: nat,
)
    requires
        with_objects_upto(catalog, paths, objects, failed) is Err,
        failed <= count,
    ensures
        with_objects_upto(catalog, paths, objects, count) == with_objects_upto(
            catalog,
            paths,
            objects,
            failed,
        ),
    decreases count,
{
    if failed < count {
        lemma_with_objects_fails(catalog, paths, objects, failed, (count - 1) as nat);
    }
}

/// An object that was inserted is the object found at its path.
pub proof fn lemma_insert_then_get(catalog: CatalogView, path: ObjectPathView, object: ObjectState)
    requires
        with_object(catalog, path, object) is Ok,
    ensures
        find_object(with_object(catalog, path, object)->Ok_0, path) == Ok::<ObjectState, Missing>(
            object,
        ),
{
}

/// Inserting an object changes the catalog, unless the catalog already held that very
/// object at that path: then, and only then, the result is the catalog itself.
pub proof fn lemma_insert_changes(catalog: CatalogView, path: ObjectPathView, object: ObjectState)
    requires
        with_object(catalog, path, object) is Ok,
    ensures
        (with_object(catalog, path, object)->Ok_0 == catalog) <==> (find_object(catalog, path)
            == Ok::<ObjectState, Missing>(object)),
{
    let next = with_object(catalog, path, object)->Ok_0;
    let partitions = catalog[path.partition.dataset];
    let objects = partitions[path.partition.partition];
    if find_object(catalog, path) == Ok::<ObjectState, Missing>(object) {
        assert(objects.insert(path.key, object) =~= objects);
        assert(partitions.insert(path.partition.partition, objects) =~= partitions);
        assert(next =~= catalog);
    } else {
        assert(find_object(next, path) == Ok::<ObjectState, Missing>(object));
    }
}

/// Removing an object and inserting it again, with the same state and at the same path,
/// gives back the catalog that held it.
pub proof fn lemma_remove_then_insert(
    catalog: CatalogView,
    path: ObjectPathView,
    object: ObjectState,
)
    requires
        find_object(catalog, path) == Ok::<ObjectState, Missing>(object),
    ensures
        without_object(catalog, path) is Ok,
        with_object(without_object(catalog, path)->Ok_0, path, object) == Ok::<
            CatalogView,
            Missing,
        >(catalog),
{
    let partitions = catalog[path.partition.dataset];
    let objects = partitions[path.partition.partition];
    let reduced = without_object(catalog, path)->Ok_0;
    let partitions_reduced = partitions.insert(path.partition.partition, objects.remove(path.key));
    assert(reduced == catalog.insert(path.partition.dataset, partitions_reduced));
    assert(objects.remove(path.key).insert(path.key, object) =~= objects);
    assert(partitions_reduced.insert(path.partition.partition, objects) =~= partitions);
    assert(reduced.insert(path.partition.dataset, partitions) =~= catalog);
}

/// After a move, the target holds what the source held.
pub proof fn lemma_move_fills_target(
    catalog: CatalogView,
    source: ObjectPathView,
    target: ObjectPathView,
)
    requires
        with_moved_object(catalog, source, target) is Ok,
    ensures
        find_object(catalog, source) is Ok,
        find_object(with_moved_object(catalog, source, target)->Ok_0, target) == find_object(
            catalog,
            source,
        ),
{
}

/// After a move to another path, the source is gone. (A move of an object onto itself
/// leaves it where it is.)
pub proof fn lemma_move_empties_source(
    catalog: CatalogView,
    source: ObjectPathView,
    target: ObjectPathView,
)
    requires
        with_moved_object(catalog, source, target) is Ok,
        source != target,
    ensures
        find_object(with_moved_object(catalog, source, target)->Ok_0, source) is Err,
{
}

/// Replacing a dataset twice by the same partitions is replacing it once.
pub proof fn lemma_replace_dataset_twice(
    catalog: CatalogView,
    dataset: DatasetPathView,
    partitions: PartitionsView,
)
    ensures
        with_dataset(with_dataset(catalog, dataset, partitions), dataset, partitions)
            == with_dataset(catalog, dataset, partitions),
        find_dataset(with_dataset(catalog, dataset, partitions), dataset) == Ok::<
            PartitionsView,
            Missing,
        >(partitions),
{
    assert(catalog.insert(dataset, partitions).insert(dataset, partitions) =~= catalog.insert(
        dataset,
        partitions,
    ));
}

} // verus!
