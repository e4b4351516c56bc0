//! `SqlInsertMany`: a batch `insert_many(items, conn)` whose
//! `VALUES (...), (...), ...` list is built at run time with
//! `sqlx::QueryBuilder`, one bound value per field per row.

use vstd::prelude::*;
use crate::insert::{all_and_targets, all_columns, model_upsert, returning_of};
use crate::model::{comma_list, option_text, upsert_clause, Column, TableModel};
use crate::text::join;

verus! {

/// The generated `insert_many` method: the statement's fixed start, the
/// `ON CONFLICT` clause pushed after the rows, the `RETURNING` list when
/// there is a `return_type`, the method's doc text, and the columns bound
/// for every row.
#[derive(Debug)]
pub struct InsertManyPlan {
    pub insert_prefix: String,
    pub upsert_clause: Option<String>,
    pub returning: Option<String>,
    pub doc: String,
    pub binds: Vec<usize>,
}

/// `INSERT INTO t (a, b) `.
pub open spec fn insert_prefix_of(model: TableModel) -> Seq<char> {
    "INSERT INTO "@ + model.table_name@ + " ("@ + comma_list(model.names()) + ") "@
}

/// The batch statement starts `INSERT INTO <table> (a, b, ...) ` with the
/// plain field names, never the `SELECT` list with its `AS` annotations; its
/// documented shape lists the same names, adds the `ON CONFLICT` clause when
/// a field is marked `upsert`, and ` RETURNING ` with `return_fields`, or
/// `*`, exactly when the model has a `return_type`.
pub proof fn lemma_insert_many_text(model: TableModel)
    ensures
        insert_prefix_of(model) == "INSERT INTO "@ + model.table_name@ + " ("@
            + join(model.columns@.map_values(|c: Column| c.ident@), ", "@) + ") "@,
        ({
            let base = "INSERT INTO "@ + model.table_name@ + " ("@
                + join(model.columns@.map_values(|c: Column| c.ident@), ", "@) + ") VALUES (...), (...), ..."@
                + match model_upsert(model) {
                    Some(c) => c,
                    None => Seq::empty(),
                };
            &&& model.return_type is Some ==> insert_many_doc(model) == base + " RETURNING "@ + match model.return_fields {
                Some(f) => f@,
                None => "*"@,
            }
            &&& model.return_type is None ==> insert_many_doc(model) == base
        }),
{
}

/// The documented shape of the batch statement.
pub open spec fn insert_many_doc(model: TableModel) -> Seq<char> {
    let base = "INSERT INTO "@ + model.table_name@ + " ("@ + comma_list(model.names())
        + ") VALUES (...), (...), ..."@ + match model_upsert(model) {
            Some(c) => c,
            None => Seq::empty(),
        };
    if model.return_type is Some {
        base + " RETURNING "@ + returning_of(model)
    } else {
        base
    }
}

/// The `insert_many` method of the model.
pub fn expand(model: &TableModel) -> (r: InsertManyPlan)
    ensures
        r.insert_prefix@ == insert_prefix_of(*model),
        option_text(r.upsert_clause) == model_upsert(*model),
        option_text(r.returning) == if model.return_type is Some {
            Some(returning_of(*model))
        } else {
            None::<Seq<char>>
        },
        r.doc@ == insert_many_doc(*model),
        r.binds@ == all_columns(model.columns@.len()),
{
    let column_names = model.column_names();
    let (all, targets) = all_and_targets(&model.columns);
    let mut insert_prefix = String::from_str("INSERT INTO ");
    insert_prefix.append(model.table_name.as_str());
    insert_prefix.append(" (");
    insert_prefix.append(column_names.as_str());
    insert_prefix.append(") ");
    let upsert = upsert_clause(&model.columns, &all, &targets);
    let mut doc = String::from_str("INSERT INTO ");
    doc.append(model.table_name.as_str());
    doc.append(" (");
    doc.append(column_names.as_str());
    doc.append(") VALUES (...), (...), ...");
    match &upsert {
        Some(c) => doc.append(c.as_str()),
        None => {},
    }
    let returning = if model.return_type.is_some() {
        let r = match &model.return_fields {
            Some(f) => f.clone(),
            None => String::from_str("*"),
        };
        doc.append(" RETURNING ");
        doc.append(r.as_str());
        Some(r)
    } else {
        None
    };
    InsertManyPlan { insert_prefix, upsert_clause: upsert, returning, doc, binds: all }
}

} // verus!
