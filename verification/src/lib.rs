//! Turns a nested JSON document into relational tables linked by synthetic
//! keys, and the tables into typed columns.
//!
//! A document ([`json`]) is taken apart by the [`normalizer`]: every object
//! becomes a row with an id of its own, what is nested in it becomes rows of
//! a child table that point back to it, and everything else becomes a cell
//! ([`dtype`]) of the row. The [`database_builder`] then turns the rows of
//! each table into columns and infers one type for each column
//! ([`series`]), falling back to text where the values of a column are of
//! mixed kinds.
//!
//! What the two steps compute is defined in [`model`] and [`columns`]. What
//! holds of the result whatever the document is proved in [`laws`],
//! [`shape`], [`identity`] and [`integrity`]. The maps of rows and tables
//! are those of the `indexmap` crate and the ids those of the `uuid` crate;
//! [`ordered`] and [`ids`] say what is taken for granted of them.

pub mod columns;
pub mod database_builder;
pub mod dtype;
pub mod error;
pub mod identity;
pub mod ids;
pub mod integrity;
pub mod json;
pub mod laws;
pub mod model;
pub mod normalizer;
pub mod ordered;
pub mod series;
pub mod shape;
pub mod text;

use vstd::prelude::*;
use crate::error::NormalizationError;
use crate::json::Json;
use crate::model::demand_root;
use crate::model::drawn;
use crate::model::normalize;
use crate::model::root_error;
use crate::model::root_table;
use crate::normalizer::Normifier;

verus! {

/// Normalizes a document into a table set whose root table is named `root`.
/// Either the whole document is laid out in tables, or it is refused and
/// nothing is handed out.
pub fn from_value(root_value: &Json) -> (tables: Result<Normifier, NormalizationError>)
    ensures
        tables is Err <==> root_error(root_value@) is Some,
        tables matches Err(e) ==> root_error(root_value@) == Some(e),
        tables matches Ok(context) ==> exists|ids: Seq<Seq<char>>|
            #[trigger] drawn(ids, demand_root(root_value@)) && context@ == normalize(
                root_value@,
                root_table(),
                ids,
            ),
{
    Normifier::from_value(root_value)
}

/// Normalizes a document into a table set whose root table has the given
/// name.
pub fn from_value_with_name(root_value: &Json, root_name: &str) -> (tables: Result<
    Normifier,
    NormalizationError,
>)
    ensures
        tables is Err <==> root_error(root_value@) is Some,
        tables matches Err(e) ==> root_error(root_value@) == Some(e),
        tables matches Ok(context) ==> exists|ids: Seq<Seq<char>>|
            #[trigger] drawn(ids, demand_root(root_value@)) && context@ == normalize(
                root_value@,
                root_name@,
                ids,
            ),
{
    let mut norm_context: Normifier = Normifier::new();
    match norm_context.process_root(root_value, String::from_str(root_name)) {
        Ok(()) => Ok(norm_context),
        Err(e) => Err(e),
    }
}

} // verus!
