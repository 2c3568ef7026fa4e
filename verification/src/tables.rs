//! The maps of the `im` crate that hold the catalog: what a map holds, and what each
//! operation does to that. The contracts here are stated of `im`, not proved.

use crate::base::{ObjectKey, Partition};
use crate::path::{DatasetPath, DatasetPathView};
use crate::state::{DatasetState, ObjectState, PartitionState};
use vstd::prelude::*;

verus! {

/// The objects that a table of objects holds, by the text of their keys. The map tells keys
/// apart by `==` and `Hash`: the `==` of `ObjectKey` compares the text, which is proved where
/// it is written, and the derived `Hash` hashes that text.
pub uninterp spec fn objects_of(table: im::HashMap<ObjectKey, ObjectState>) -> Map<
    Seq<char>,
    ObjectState,
>;

/// The partitions that a table of partitions holds, by their `key=value` pairs. The map tells
/// keys apart by `==` and `Hash`: the `==` of `Partition` compares the pairs, which is proved
/// where it is written, and the derived `Hash` hashes those pairs.
pub uninterp spec fn partitions_of(table: im::HashMap<Partition, PartitionState>) -> Map<
    Seq<(Seq<char>, Seq<char>)>,
    PartitionState,
>;

/// The datasets that a table of datasets holds, by their paths. The map tells keys apart by
/// `==` and `Hash`: the `==` of `DatasetPath` compares bucket and path, which is proved where
/// it is written, and the derived `Hash` hashes the same fields.
pub uninterp spec fn datasets_of(table: im::HashMap<DatasetPath, DatasetState>) -> Map<
    DatasetPathView,
    DatasetState,
>;

/// `keys` names every key of `domain` exactly once.
pub open spec fn lists<K>(keys: Seq<K>, domain: Set<K>) -> bool {
    keys.no_duplicates() && keys.to_set() == domain
}

/// Walking a list without repetitions: the first `i + 1` keys are the first `i` keys and one
/// key that is not among them.
pub proof fn lemma_lists_step<K>(keys: Seq<K>, i: int)
    requires
        keys.no_duplicates(),
        0 <= i < keys.len(),
    ensures
        keys.take(i + 1).to_set() == keys.take(i).to_set().insert(keys[i]),
        !keys.take(i).to_set().contains(keys[i]),
{
    let head = keys.take(i);
    keys.lemma_take_succ_push(i);
    head.lemma_push_to_set_commute(keys[i]);
    if head.to_set().contains(keys[i]) {
        let j = choose|j: int| 0 <= j < head.len() && head[j] == keys[i];
        assert(keys[j] == keys[i]);
    }
}

/// `im::HashMap::new`: a map without entries.
#[verifier::external_body]
pub(crate) fn objects_new() -> (table: im::HashMap<ObjectKey, ObjectState>)
    ensures
        objects_of(table).is_empty(),
{
    im::HashMap::new()
}

/// `im::HashMap::get`: the value stored under a key equal to `key`, if there is one.
#[verifier::external_body]
pub(crate) fn objects_get<'a>(
    table: &'a im::HashMap<ObjectKey, ObjectState>,
    key: &ObjectKey,
) -> (found: Option<&'a ObjectState>)
    ensures
        found == (if objects_of(*table).contains_key(key@) {
            Some(&objects_of(*table)[key@])
        } else {
            None
        }),
{
    table.get(key)
}

/// `im::HashMap::update`: a copy of the map in which `key` maps to `value`, whatever it
/// mapped to before; the other entries are unchanged.
#[verifier::external_body]
pub(crate) fn objects_update(
    table: &im::HashMap<ObjectKey, ObjectState>,
    key: ObjectKey,
    value: ObjectState,
) -> (updated: im::HashMap<ObjectKey, ObjectState>)
    ensures
        objects_of(updated) == objects_of(*table).insert(key@, value),
{
    table.update(key, value)
}

/// `im::HashMap::without`: a copy of the map that has no entry for `key`; the other entries
/// are unchanged.
#[verifier::external_body]
pub(crate) fn objects_without(
    table: &im::HashMap<ObjectKey, ObjectState>,
    key: &ObjectKey,
) -> (reduced: im::HashMap<ObjectKey, ObjectState>)
    ensures
        objects_of(reduced) == objects_of(*table).remove(key@),
{
    table.without(key)
}

/// `im::HashMap::keys`: every key of the map, each once, in an order that is not specified.
#[verifier::external_body]
pub(crate) fn objects_keys(table: &im::HashMap<ObjectKey, ObjectState>) -> (keys: Vec<ObjectKey>)
    ensures
        lists(keys@.map_values(|k: ObjectKey| k@), objects_of(*table).dom()),
{
    table.keys().cloned().collect()
}

/// `im::HashMap::new`: a map without entries.
#[verifier::external_body]
pub(crate) fn partitions_new() -> (table: im::HashMap<Partition, PartitionState>)
    ensures
        partitions_of(table).is_empty(),
{
    im::HashMap::new()
}

/// `im::HashMap::get`: the value stored under a key equal to `key`, if there is one.
#[verifier::external_body]
pub(crate) fn partitions_get<'a>(
    table: &'a im::HashMap<Partition, PartitionState>,
    key: &Partition,
) -> (found: Option<&'a PartitionState>)
    ensures
        found == (if partitions_of(*table).contains_key(key@) {
            Some(&partitions_of(*table)[key@])
        } else {
            None
        }),
{
    table.get(key)
}

/// `im::HashMap::update`: a copy of the map in which `key` maps to `value`, whatever it
/// mapped to before; the other entries are unchanged.
#[verifier::external_body]
pub(crate) fn partitions_update(
    table: &im::HashMap<Partition, PartitionState>,
    key: Partition,
    value: PartitionState,
) -> (updated: im::HashMap<Partition, PartitionState>)
    ensures
        partitions_of(updated) == partitions_of(*table).insert(key@, value),
{
    table.update(key, value)
}

/// `im::HashMap::without`: a copy of the map that has no entry for `key`; the other entries
/// are unchanged.
#[verifier::external_body]
pub(crate) fn partitions_without(
    table: &im::HashMap<Partition, PartitionState>,
    key: &Partition,
) -> (reduced: im::HashMap<Partition, PartitionState>)
    ensures
        partitions_of(reduced) == partitions_of(*table).remove(key@),
{
    table.without(key)
}

/// `im::HashMap::keys`: every key of the map, each once, in an order that is not specified.
#[verifier::external_body]
pub(crate) fn partitions_keys(table: &im::HashMap<Partition, PartitionState>) -> (keys: Vec<
    Partition,
>)
    ensures
        lists(keys@.map_values(|k: Partition| k@), partitions_of(*table).dom()),
{
    table.keys().cloned().collect()
}

/// `im::HashMap::new`: a map without entries.
#[verifier::external_body]
pub(crate) fn datasets_new() -> (table: im::HashMap<DatasetPath, DatasetState>)
    ensures
        datasets_of(table).is_empty(),
{
    im::HashMap::new()
}

/// `im::HashMap::get`: the value stored under a key equal to `key`, if there is one.
#[verifier::external_body]
pub(crate) fn datasets_get<'a>(
    table: &'a im::HashMap<DatasetPath, DatasetState>,
    key: &DatasetPath,
) -> (found: Option<&'a DatasetState>)
    ensures
        found == (if datasets_of(*table).contains_key(key@) {
            Some(&datasets_of(*table)[key@])
        } else {
            None
        }),
{
    table.get(key)
}

/// `im::HashMap::update`: a copy of the map in which `key` maps to `value`, whatever it
/// mapped to before; the other entries are unchanged.
#[verifier::external_body]
pub(crate) fn datasets_update(
    table: &im::HashMap<DatasetPath, DatasetState>,
    key: DatasetPath,
    value: DatasetState,
) -> (updated: im::HashMap<DatasetPath, DatasetState>)
    ensures
        datasets_of(updated) == datasets_of(*table).insert(key@, value),
{
    table.update(key, value)
}

/// `im::HashMap::keys`: every key of the map, each once, in an order that is not specified.
#[verifier::external_body]
pub(crate) fn datasets_keys(table: &im::HashMap<DatasetPath, DatasetState>) -> (keys: Vec<
    DatasetPath,
>)
    ensures
        lists(keys@.map_values(|k: DatasetPath| k@), datasets_of(*table).dom()),
{
    table.keys().cloned().collect()
}

} // verus!
