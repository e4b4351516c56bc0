//! `SqlDelete`: one `delete_by_<field>` method per operator of each field
//! marked `#[table(delete)]`, and one per custom `delete = name(...)` method.

use vstd::prelude::*;
use crate::model::{diagnostics_are, resolve_errors, Diagnostic, MethodKind, TableModel};
use crate::select::{filter_methods, filter_methods_are, QueryMethod};

verus! {

/// The `SqlDelete` methods.
pub fn expand(model: &TableModel) -> (r: Result<Vec<QueryMethod>, Vec<Diagnostic>>)
    ensures
        r is Err <==> resolve_errors(*model, MethodKind::Delete, model.custom_delete@, model.custom_delete@.len()).len() > 0,
        r matches Ok(ms) ==> filter_methods_are(*model, MethodKind::Delete, ms@),
        r matches Err(ds) ==> diagnostics_are(ds@, resolve_errors(*model, MethodKind::Delete, model.custom_delete@, model.custom_delete@.len())),
{
    filter_methods(model, MethodKind::Delete)
}

} // verus!
