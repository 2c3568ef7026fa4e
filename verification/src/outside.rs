//! The types of other crates that values of this crate hold. They are carried as they
//! are: nothing here looks inside one, and a copy equals what it was copied from.

use vstd::prelude::*;

verus! {

/// The persistent hash map of the `im` crate, which holds the catalog.
#[verifier::external_type_specification]
#[verifier::external_body]
#[verifier::reject_recursive_types(K)]
#[verifier::reject_recursive_types(V)]
#[verifier::reject_recursive_types(S)]
pub struct ExImHashMap<K, V, S>(im::HashMap<K, V, S>);

/// The schema of an Arrow record batch, which a CSV object's metadata carries.
#[verifier::external_type_specification]
#[verifier::external_body]
pub struct ExArrowSchema(arrow::datatypes::Schema);

/// The root schema of a Parquet file, which a Parquet object's metadata carries.
#[verifier::external_type_specification]
#[verifier::external_body]
pub struct ExParquetType(parquet::schema::types::Type);

/// The error of a failed I/O operation.
#[verifier::external_type_specification]
#[verifier::external_body]
pub struct ExIoError(std::io::Error);

/// The error of the Parquet codec.
#[verifier::external_type_specification]
#[verifier::external_body]
pub struct ExParquetError(parquet::errors::ParquetError);

/// The error of the Arrow CSV codec.
#[verifier::external_type_specification]
#[verifier::external_body]
pub struct ExArrowError(arrow::error::ArrowError);

/// `Clone::clone` of `im::HashMap`: the copy shares the nodes and the hasher of the map, so it is
/// the same map in every respect that can be observed.
pub assume_specification<K: Clone, V: Clone, S>[ <im::HashMap<K, V, S> as Clone>::clone ](
    map: &im::HashMap<K, V, S>,
) -> (copy: im::HashMap<K, V, S>)
    ensures
        copy == *map,
;

/// `Clone::clone` of an Arrow schema: the derived field-by-field copy.
pub assume_specification[ <arrow::datatypes::Schema as Clone>::clone ](
    schema: &arrow::datatypes::Schema,
) -> (copy: arrow::datatypes::Schema)
    ensures
        copy == *schema,
;

/// `Clone::clone` of a Parquet schema type: the derived field-by-field copy.
pub assume_specification[ <parquet::schema::types::Type as Clone>::clone ](
    schema: &parquet::schema::types::Type,
) -> (copy: parquet::schema::types::Type)
    ensures
        copy == *schema,
;

} // verus!
