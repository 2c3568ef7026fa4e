//! The paths of datasets, partitions and objects.

use crate::base::{bucket_text, pairs_text, Bucket, BucketView, Format, ObjectKey, Partition};
use vstd::prelude::*;
use vstd::std_specs::cmp::PartialEqSpecImpl;

verus! {

/// What a dataset path is, as plain values.
pub struct DatasetPathView {
    pub bucket: BucketView,
    pub path: Seq<char>,
}

/// What a partition path is, as plain values.
pub struct PartitionPathView {
    pub dataset: DatasetPathView,
    pub partition: Seq<(Seq<char>, Seq<char>)>,
}

/// What an object path is, as plain values.
pub struct ObjectPathView {
    pub partition: PartitionPathView,
    pub key: Seq<char>,
}

/// The text of a dataset path: bucket, `/`, relative path.
pub open spec fn dataset_text(dataset: DatasetPathView) -> Seq<char> {
    bucket_text(dataset.bucket) + seq!['/'] + dataset.path
}

/// The text of a partition path: dataset, `/`, partition.
pub open spec fn partition_text(partition: PartitionPathView) -> Seq<char> {
    dataset_text(partition.dataset) + seq!['/'] + pairs_text(partition.partition)
}

/// The text of an object path: partition path, `/`, key.
pub open spec fn object_text(object: ObjectPathView) -> Seq<char> {
    partition_text(object.partition) + seq!['/'] + object.key
}

/// The place of a dataset: a bucket and a path relative to it.
#[derive(Debug, Eq, Hash)]
pub struct DatasetPath {
    bucket: Bucket,
    path: String,
}

impl PartialEq for DatasetPath {
    fn eq(&self, other: &Self) -> (r: bool) {
        self.bucket == other.bucket && self.path == other.path
    }
}

impl PartialEqSpecImpl for DatasetPath {
    open spec fn obeys_eq_spec() -> bool {
        true
    }

    open spec fn eq_spec(&self, other: &Self) -> bool {
        self@ == other@
    }
}

impl View for DatasetPath {
    type V = DatasetPathView;

    closed spec fn view(&self) -> DatasetPathView {
        DatasetPathView { bucket: self.bucket@, path: self.path@ }
    }
}

impl Clone for DatasetPath {
    fn clone(&self) -> (r: Self)
        ensures
            r@ == self@,
    {
        DatasetPath { bucket: self.bucket.clone(), path: self.path.clone() }
    }
}

impl DatasetPath {
    pub fn new(bucket: Bucket, path: String) -> (r: DatasetPath)
        ensures
            r@ == (DatasetPathView { bucket: bucket@, path: path@ }),
    {
        DatasetPath { bucket, path }
    }

    pub fn bucket(&self) -> (r: &Bucket)
        ensures
            r@ == self@.bucket,
    {
        &self.bucket
    }

    pub fn path(&self) -> (r: &str)
        ensures
            r@ == self@.path,
    {
        self.path.as_str()
    }

    pub fn partition_path(&self, partition: &Partition) -> (r: PartitionPath)
        ensures
            r@ == (PartitionPathView { dataset: self@, partition: partition@ }),
    {
        PartitionPath { dataset: self.clone(), partition: partition.clone() }
    }

    pub fn object_path(&self, partition: &Partition, key: &ObjectKey) -> (r: ObjectPath)
        ensures
            r@ == (ObjectPathView {
                partition: PartitionPathView { dataset: self@, partition: partition@ },
                key: key@,
            }),
    {
        ObjectPath {
            partition: PartitionPath { dataset: self.clone(), partition: partition.clone() },
            key: key.clone(),
        }
    }

    pub fn to_string(&self) -> (r: String)
        ensures
            r@ == dataset_text(self@),
    {
        proof {
            reveal_strlit("/");
        }
        let mut out = self.bucket.to_string();
        out.append("/");
        out.append(self.path.as_str());
        assert(out@ =~= dataset_text(self@));
        out
    }
}

/// The place of a partition: a dataset and a partition inside it.
#[derive(Debug, Eq, Hash)]
pub struct PartitionPath {
    pub dataset: DatasetPath,
    pub partition: Partition,
}

impl PartialEq for PartitionPath {
    fn eq(&self, other: &Self) -> (r: bool) {
        self.dataset == other.dataset && self.partition == other.partition
    }
}

impl PartialEqSpecImpl for PartitionPath {
    open spec fn obeys_eq_spec() -> bool {
        true
    }

    open spec fn eq_spec(&self, other: &Self) -> bool {
        self@ == other@
    }
}

impl View for PartitionPath {
    type V = PartitionPathView;

    open spec fn view(&self) -> PartitionPathView {
        PartitionPathView { dataset: self.dataset@, partition: self.partition@ }
    }
}

impl Clone for PartitionPath {
    fn clone(&self) -> (r: Self)
        ensures
            r@ == self@,
    {
        PartitionPath { dataset: self.dataset.clone(), partition: self.partition.clone() }
    }
}

impl PartitionPath {
    pub fn new(dataset: DatasetPath, partition: Partition) -> (r: PartitionPath)
        ensures
            r.dataset == dataset,
            r.partition == partition,
    {
        PartitionPath { dataset, partition }
    }

    pub fn object_path(&self, key: &ObjectKey) -> (r: ObjectPath)
        ensures
            r@ == (ObjectPathView { partition: self@, key: key@ }),
    {
        ObjectPath { partition: self.clone(), key: key.clone() }
    }

    pub fn to_string(&self) -> (r: String)
        ensures
            r@ == partition_text(self@),
    {
        proof {
            reveal_strlit("/");
        }
        let mut out = self.dataset.to_string();
        out.append("/");
        let tail = self.partition.to_string();
        out.append(tail.as_str());
        assert(out@ =~= partition_text(self@));
        out
    }
}

/// The place of an object: a partition path and a key inside it.
#[derive(Debug, Eq, Hash)]
pub struct ObjectPath {
    partition: PartitionPath,
    pub key: ObjectKey,
}

impl PartialEq for ObjectPath {
    fn eq(&self, other: &Self) -> (r: bool) {
        self.partition == other.partition && self.key == other.key
    }
}

impl PartialEqSpecImpl for ObjectPath {
    open spec fn obeys_eq_spec() -> bool {
        true
    }

    open spec fn eq_spec(&self, other: &Self) -> bool {
        self@ == other@
    }
}

impl View for ObjectPath {
    type V = ObjectPathView;

    closed spec fn view(&self) -> ObjectPathView {
        ObjectPathView { partition: self.partition@, key: self.key@ }
    }
}

impl Clone for ObjectPath {
    fn clone(&self) -> (r: Self)
        ensures
            r@ == self@,
    {
        ObjectPath { partition: self.partition.clone(), key: self.key.clone() }
    }
}

impl ObjectPath {
    /// The format that the key's extension selects, if any.
    pub open spec fn spec_format(object: ObjectPathView) -> Option<Format> {
        match ObjectKey::spec_extension(object.key) {
            Some(extension) => Format::spec_from_extension(extension),
            None => None,
        }
    }

    pub fn dataset_path(&self) -> (r: &DatasetPath)
        ensures
            r@ == self@.partition.dataset,
    {
        &self.partition.dataset
    }

    pub fn partition_path(&self) -> (r: &PartitionPath)
        ensures
            r@ == self@.partition,
    {
        &self.partition
    }

    pub fn key(&self) -> (r: &ObjectKey)
        ensures
            r@ == self@.key,
    {
        &self.key
    }

    pub fn get_partition(&self) -> (r: &Partition)
        ensures
            r@ == self@.partition.partition,
    {
        &self.partition.partition
    }

    pub fn update_partition(&self, partition: &Partition) -> (r: ObjectPath)
        ensures
            r@ == (ObjectPathView {
                partition: PartitionPathView {
                    dataset: self@.partition.dataset,
                    partition: partition@,
                },
                key: self@.key,
            }),
    {
        ObjectPath {
            partition: PartitionPath::new(self.partition.dataset.clone(), partition.clone()),
            key: self.key.clone(),
        }
    }

    pub fn infer_format(&self) -> (r: Option<Format>)
        ensures
            r == ObjectPath::spec_format(self@),
    {
        match self.key.extension() {
            Some(extension) => Format::from_extension(extension),
            None => None,
        }
    }

    pub fn to_string(&self) -> (r: String)
        ensures
            r@ == object_text(self@),
    {
        proof {
            reveal_strlit("/");
        }
        let mut out = self.partition.to_string();
        out.append("/");
        out.append(self.key.as_str());
        assert(out@ =~= object_text(self@));
        out
    }
}

} // verus!
