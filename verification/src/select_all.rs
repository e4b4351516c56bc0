//! `SqlSelectAll`: a `select_all` method returning every row.

use vstd::prelude::*;
use crate::model::TableModel;
use crate::select::select_list;

verus! {

/// `SELECT <columns> FROM <table>`.
pub open spec fn select_all_query(model: TableModel) -> Seq<char> {
    "SELECT "@ + select_list(model) + " FROM "@ + model.table_name@
}

/// The query of `select_all`.
pub fn expand(model: &TableModel) -> (r: String)
    ensures
        r@ == select_all_query(*model),
{
    let mut query = String::from_str("SELECT ");
    let columns = model.sql_columns();
    query.append(columns.as_str());
    query.append(" FROM ");
    query.append(model.table_name.as_str());
    query
}

} // verus!
