//! The per-call description of the store schema: table identifier, primary
//! partition key, and the attributes that back single-attribute secondary
//! indexes. Built once at call entry from external input, immutable after.

use vstd::prelude::*;

use crate::values::name_pair_views;

verus! {

/// Mathematical image of a schema context.
#[verifier::ext_equal]
pub struct SchemaModel {
    pub table_name: Seq<char>,
    pub primary_key: Seq<char>,
    pub index_data: Seq<(Seq<char>, Seq<char>)>,
}

/// Immutable schema description: `index_data` maps an indexable attribute
/// name to the identifier of the index that covers it.
pub struct SchemaContext {
    pub table_name: String,
    pub primary_key: String,
    pub index_data: Vec<(String, String)>,
}

impl View for SchemaContext {
    type V = SchemaModel;

    open spec fn view(&self) -> SchemaModel {
        SchemaModel {
            table_name: self.table_name@,
            primary_key: self.primary_key@,
            index_data: name_pair_views(self.index_data@),
        }
    }
}

impl SchemaContext {
    /// Builds a schema context. Minimal validation: a usable schema names a
    /// table and a primary key, which the caller has checked.
    pub fn new(table_name: String, primary_key: String, index_data: Vec<(String, String)>) -> (r:
        SchemaContext)
        requires
            table_name@.len() > 0,
            primary_key@.len() > 0,
        ensures
            r.table_name == table_name,
            r.primary_key == primary_key,
            r.index_data == index_data,
    {
        SchemaContext { table_name, primary_key, index_data }
    }
}

} // verus!
