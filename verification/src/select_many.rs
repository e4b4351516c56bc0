//! `SqlSelectMany`: one `select_many_by_<field>` method per operator of each
//! field marked `#[table(select_many)]`, and one per custom
//! `select_many = name(...)` method; each fetches every matching row.

use vstd::prelude::*;
use crate::model::{diagnostics_are, resolve_errors, Diagnostic, MethodKind, TableModel};
use crate::select::{filter_methods, filter_methods_are, QueryMethod};

verus! {

/// The `SqlSelectMany` methods.
pub fn expand(model: &TableModel) -> (r: Result<Vec<QueryMethod>, Vec<Diagnostic>>)
    ensures
        r is Err <==> resolve_errors(*model, MethodKind::SelectMany, model.custom_select_many@, model.custom_select_many@.len()).len() > 0,
        r matches Ok(ms) ==> filter_methods_are(*model, MethodKind::SelectMany, ms@),
        r matches Err(ds) ==> diagnostics_are(ds@, resolve_errors(*model, MethodKind::SelectMany, model.custom_select_many@, model.custom_select_many@.len())),
{
    filter_methods(model, MethodKind::SelectMany)
}

} // verus!
