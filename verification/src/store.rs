//! The store as the jobs see it, its errors, and the rules that a store shares with the
//! catalog: how a directory names a partition, and which objects can be merged towards which
//! target.

use crate::base::{Bytes, Format, ObjectKey, Partition};
use crate::path::{DatasetPath, ObjectPath, ObjectPathView, PartitionPath};
use crate::state::ObjectState;
use crate::text::{find_char, first_index_of, lemma_first_index_of};
use vstd::prelude::*;

verus! {

/// When an output of a rebalance counts as full.
#[derive(Debug, Clone, Copy, PartialEq, Eq)]
pub enum RebalanceTarget {
    /// The output holds at least this many rows.
    Rows(usize),
    /// The output's file has reached nine tenths of this size.
    Size(Bytes),
}

/// The error of a store operation.
#[derive(Debug)]
pub enum StoreError {
    Io(std::io::Error),
    Parquet(parquet::errors::ParquetError),
    Arrow(arrow::error::ArrowError),
    CannotInferSchema(ObjectPath),
    CannotCombineFormatAndTarget(Format, RebalanceTarget),
    InvalidPartition(String),
}

/// The object store that holds the datasets. The catalog mirrors what a store holds; the
/// actions of a job change both.
pub trait Store {
    /// Opens the object and reads its metadata.
    fn read_object(&self, path: &ObjectPath) -> Result<ObjectState, StoreError>;

    /// Renames `source` to `target`, after making the target's partition if it is missing.
    fn move_object(&self, source: &ObjectPath, target: &ObjectPath) -> Result<(), StoreError>;

    /// The partitions directly under the dataset.
    fn list_partitions(&self, path: &DatasetPath) -> Result<Vec<Partition>, StoreError>;

    /// The objects of the partition.
    fn list_objects(&self, path: &PartitionPath) -> Result<Vec<ObjectKey>, StoreError>;

    /// Deletes the partition, which has to be empty.
    fn remove_partition(&self, path: &PartitionPath) -> Result<(), StoreError>;

    /// Deletes the object.
    fn remove_object(&self, path: &ObjectPath) -> Result<(), StoreError>;

    /// Merges the inputs into the outputs, filling one output after the other, and reads the
    /// metadata of each output back: one object for each output, in the order of the outputs.
    /// That there are as many objects as outputs is asked of every store and taken on its
    /// word.
    fn rebalance_objects(
        &self,
        input_paths: &[ObjectPath],
        output_paths: &[ObjectPath],
        target: &RebalanceTarget,
    ) -> (r: Result<Vec<ObjectState>, StoreError>)
        ensures
            r matches Ok(objects) ==> objects@.len() == output_paths@.len(),
    ;
}

/// A store in a box is the store in it.
impl<S: Store + ?Sized> Store for Box<S> {
    fn read_object(&self, path: &ObjectPath) -> Result<ObjectState, StoreError> {
        (**self).read_object(path)
    }

    fn move_object(&self, source: &ObjectPath, target: &ObjectPath) -> Result<(), StoreError> {
        (**self).move_object(source, target)
    }

    fn list_partitions(&self, path: &DatasetPath) -> Result<Vec<Partition>, StoreError> {
        (**self).list_partitions(path)
    }

    fn list_objects(&self, path: &PartitionPath) -> Result<Vec<ObjectKey>, StoreError> {
        (**self).list_objects(path)
    }

    fn remove_partition(&self, path: &PartitionPath) -> Result<(), StoreError> {
        (**self).remove_partition(path)
    }

    fn remove_object(&self, path: &ObjectPath) -> Result<(), StoreError> {
        (**self).remove_object(path)
    }

    fn rebalance_objects(
        &self,
        input_paths: &[ObjectPath],
        output_paths: &[ObjectPath],
        target: &RebalanceTarget,
    ) -> (r: Result<Vec<ObjectState>, StoreError>) {
        (**self).rebalance_objects(input_paths, output_paths, target)
    }
}

/// How a store merges objects of one format towards a target.
#[derive(Debug, Clone, Copy, PartialEq, Eq)]
pub enum CombinePlan {
    /// CSV objects, each output closed at nine tenths of this size.
    CsvBySize(Bytes),
    /// Parquet objects, each output closed at this many rows.
    ParquetByRows(usize),
}

/// The key and the value of a partition segment: what stands before and after the first `=`.
/// A segment without `=`, or one that ends in `=`, is no partition.
pub open spec fn spec_parse_segment(segment: Seq<char>) -> Option<(Seq<char>, Seq<char>)> {
    let split = first_index_of(segment, '=');
    if split < segment.len() && segment.last() != '=' {
        Some((segment.subrange(0, split), segment.subrange(split + 1, segment.len() as int)))
    } else {
        None
    }
}

/// The plan for merging objects like `first_input` towards `target`: sizes go with CSV, rows
/// with Parquet.
pub open spec fn spec_combine_plan(first_input: ObjectPathView, target: RebalanceTarget) -> Option<
    CombinePlan,
> {
    match (ObjectPath::spec_format(first_input), target) {
        (Some(Format::Csv), RebalanceTarget::Size(size)) => Some(CombinePlan::CsvBySize(size)),
        (Some(Format::Parquet), RebalanceTarget::Rows(rows)) => Some(
            CombinePlan::ParquetByRows(rows),
        ),
        _ => None,
    }
}

impl Partition {
    /// Reads a partition from the name of its directory.
    pub fn parse(segment: &str) -> (r: Result<Partition, StoreError>)
        ensures
            match r {
                Ok(partition) => spec_parse_segment(segment@) is Some && partition@
                    == seq![spec_parse_segment(segment@)->Some_0],
                Err(error) => spec_parse_segment(segment@) is None && (error matches StoreError::InvalidPartition(
                    name,
                ) && name@ == segment@),
            },
    {
        proof {
            lemma_first_index_of(segment@, '=');
        }
        let length = segment.unicode_len();
        match find_char(segment, '=') {
            Some(split) => {
                if segment.get_char(length - 1) == '=' {
                    Err(StoreError::InvalidPartition(segment.to_owned()))
                } else {
                    Ok(
                        Partition::new(
                            segment.substring_char(0, split),
                            segment.substring_char(split + 1, length),
                        ),
                    )
                }
            },
            None => Err(StoreError::InvalidPartition(segment.to_owned())),
        }
    }
}

impl ObjectPath {
    /// The format of the object, or the error of a path that selects none.
    pub fn format(&self) -> (r: Result<Format, StoreError>)
        ensures
            match r {
                Ok(format) => ObjectPath::spec_format(self@) == Some(format),
                Err(error) => ObjectPath::spec_format(self@) is None && (error matches StoreError::CannotInferSchema(
                    path,
                ) && path@ == self@),
            },
    {
        match self.infer_format() {
            Some(format) => Ok(format),
            None => Err(StoreError::CannotInferSchema(self.clone())),
        }
    }
}

impl RebalanceTarget {
    /// How to merge objects like `first_input` towards this target, or why they cannot be.
    pub fn plan_for(&self, first_input: &ObjectPath) -> (r: Result<CombinePlan, StoreError>)
        ensures
            match r {
                Ok(plan) => spec_combine_plan(first_input@, *self) == Some(plan),
                Err(StoreError::CannotInferSchema(path)) => ObjectPath::spec_format(first_input@)
                    is None && path@ == first_input@,
                Err(StoreError::CannotCombineFormatAndTarget(format, target)) => {
                    &&& ObjectPath::spec_format(first_input@) == Some(format)
                    &&& target == *self
                    &&& spec_combine_plan(first_input@, *self) is None
                },
                Err(_) => false,
            },
    {
        let format = match first_input.format() {
            Ok(format) => format,
            Err(error) => return Err(error),
        };
        match (format, *self) {
            (Format::Csv, RebalanceTarget::Size(size)) => Ok(CombinePlan::CsvBySize(size)),
            (Format::Parquet, RebalanceTarget::Rows(rows)) => Ok(CombinePlan::ParquetByRows(rows)),
            (format, target) => Err(StoreError::CannotCombineFormatAndTarget(format, target)),
        }
    }
}

} // verus!
