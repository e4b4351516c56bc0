//! `SqlTable`: the table name, the field names and the `SELECT`-list
//! entries, as associated functions.

use vstd::prelude::*;
use crate::model::{Column, TableModel};

verus! {

/// What the `SqlTable` impl returns.
#[derive(Debug)]
pub struct TableInfo {
    pub name: String,
    pub fields: Vec<String>,
    pub sql_columns: Vec<String>,
}

/// The `SqlTable` data of the model: its table name, each column's name,
/// and each column's `SELECT`-list entry.
pub fn expand(model: &TableModel) -> (r: TableInfo)
    ensures
        r.name@ == model.table_name@,
        r.fields@.map_values(|f: String| f@) == model.names(),
        r.sql_columns@.map_values(|f: String| f@) == model.columns@.map_values(|c: Column| c.sql_select_expr@),
{
    let mut fields: Vec<String> = Vec::new();
    let mut sql_columns: Vec<String> = Vec::new();
    let mut i: usize = 0;
    while i < model.columns.len()
        invariant
            i <= model.columns@.len(),
            fields@.len() == i,
            sql_columns@.len() == i,
            forall|k: int| 0 <= k < i ==> (#[trigger] fields@[k])@ == model.columns@[k].ident@,
            forall|k: int| 0 <= k < i ==> (#[trigger] sql_columns@[k])@ == model.columns@[k].sql_select_expr@,
        decreases model.columns.len() - i,
    {
        fields.push(model.columns[i].ident.clone());
        sql_columns.push(model.columns[i].sql_select_expr.clone());
        i = i + 1;
    }
    proof {
        assert(fields@.map_values(|f: String| f@) =~= model.names());
        assert(sql_columns@.map_values(|f: String| f@) =~= model.columns@.map_values(|c: Column| c.sql_select_expr@));
    }
    TableInfo { name: model.table_name.clone(), fields, sql_columns }
}

} // verus!
