//! `SqlInsert`: a single-row `insert(&self, conn)` method. Fields marked
//! `#[table(upsert)]` become the `ON CONFLICT (...)` target; every other
//! field becomes a `DO UPDATE SET col=EXCLUDED.col` assignment, or the
//! clause is `DO NOTHING` when every field is part of the target.

use vstd::prelude::*;
use crate::model::{
    binds_of, comma_list, names_at, option_text, self_bind_tokens, upsert_clause, upsert_text,
    Bind, Column, TableModel,
};
use crate::text::{decimal, join, join_strings, push_decimal};

verus! {

/// The positions `0..n`.
pub open spec fn all_columns(n: nat) -> Seq<usize> {
    Seq::new(n, |i: int| i as usize)
}

/// The positions below `n` of the columns marked `upsert`, in order.
pub open spec fn upsert_targets(cols: Seq<Column>, n: nat) -> Seq<usize>
    decreases n,
{
    if n == 0 {
        Seq::empty()
    } else {
        let rest = upsert_targets(cols, (n - 1) as nat);
        if cols[n - 1].is_upsert_target {
            rest.push((n - 1) as usize)
        } else {
            rest
        }
    }
}

/// The conflict target of an insert is every column marked `upsert`, each
/// once, in field order; the columns it assigns on conflict come from all
/// the fields, in field order.
pub proof fn lemma_upsert_targets(cols: Seq<Column>, n: nat)
    requires
        n <= cols.len(),
        cols.len() <= usize::MAX,
    ensures
        forall|k: usize| #[trigger] upsert_targets(cols, n).contains(k) <==> (k < n && cols[k as int].is_upsert_target),
        forall|a: int, b: int| 0 <= a < b < upsert_targets(cols, n).len()
            ==> upsert_targets(cols, n)[a] < upsert_targets(cols, n)[b],
        names_at(cols, all_columns(cols.len())) == cols.map_values(|c: Column| c.ident@),
    decreases n,
{
    assert(names_at(cols, all_columns(cols.len())) =~= cols.map_values(|c: Column| c.ident@)) by {
        assert forall|k: int| 0 <= k < cols.len() implies names_at(cols, all_columns(cols.len()))[k] == cols[k].ident@ by {
            assert(all_columns(cols.len())[k] as int == k);
        }
    }
    if n > 0 {
        lemma_upsert_targets(cols, (n - 1) as nat);
        let r = upsert_targets(cols, (n - 1) as nat);
        let last = (n - 1) as usize;
        assert forall|k: usize| #[trigger] upsert_targets(cols, n).contains(k) <==> (k < n && cols[k as int].is_upsert_target) by {
            if cols[n - 1].is_upsert_target {
                let t = r.push(last);
                if t.contains(k) && !r.contains(k) {
                    let w = choose|w: int| 0 <= w < t.len() && t[w] == k;
                    if w < r.len() {
                        assert(r[w] == k);
                    }
                }
                if r.contains(k) {
                    let w = choose|w: int| 0 <= w < r.len() && r[w] == k;
                    assert(t[w] == k);
                }
                if k == last {
                    assert(t[r.len() as int] == k);
                }
            } else {
                if r.contains(k) {
                    assert(k < n - 1);
                }
            }
        }
        if cols[n - 1].is_upsert_target {
            let t = r.push(last);
            assert forall|a: int, b: int| 0 <= a < b < t.len() implies t[a] < t[b] by {
                if b == r.len() {
                    assert(r.contains(r[a]));
                    assert(t[a] == r[a]);
                } else {
                    assert(t[a] == r[a] && t[b] == r[b]);
                }
            }
        }
    } else {
        assert(upsert_targets(cols, 0) =~= Seq::<usize>::empty());
    }
}

/// `$1,$2,...,$n`.
pub open spec fn value_placeholders(n: nat) -> Seq<char> {
    join(Seq::new(n, |i: int| "$"@ + decimal((i + 1) as nat)), ","@)
}

/// `return_fields`, or `*`.
pub open spec fn returning_of(model: TableModel) -> Seq<char> {
    match model.return_fields {
        Some(f) => f@,
        None => "*"@,
    }
}

/// The `ON CONFLICT` clause of the model's inserts, if any field is marked `upsert`.
pub open spec fn model_upsert(model: TableModel) -> Option<Seq<char>> {
    let n = model.columns@.len();
    upsert_text(names_at(model.columns@, all_columns(n)), names_at(model.columns@, upsert_targets(model.columns@, n)))
}

/// `INSERT INTO t (a, b) VALUES ($1,$2)` plus the `ON CONFLICT` clause, if any.
pub open spec fn insert_statement(model: TableModel) -> Seq<char> {
    let base = "INSERT INTO "@ + model.table_name@ + " ("@ + comma_list(model.names()) + ") VALUES ("@
        + value_placeholders(model.columns@.len()) + ")"@;
    match model_upsert(model) {
        Some(c) => base + c,
        None => base,
    }
}

/// The query of `insert`: the statement, with `RETURNING` when there is a `return_type`.
pub open spec fn insert_query(model: TableModel) -> Seq<char> {
    if model.return_type is Some {
        insert_statement(model) + " RETURNING "@ + returning_of(model)
    } else {
        insert_statement(model)
    }
}

/// The `insert` query is `INSERT INTO <table> (a, b, ...) VALUES ($1,$2,...)`
/// over the plain field names (never the `SELECT` list), one placeholder per
/// field, then the `ON CONFLICT` clause when a field is marked `upsert`, and,
/// exactly when the model has a `return_type`, ` RETURNING ` and
/// `return_fields`, or `*` without them.
pub proof fn lemma_insert_query_text(model: TableModel)
    ensures
        ({
            let n = model.columns@.len();
            let base = "INSERT INTO "@ + model.table_name@ + " ("@
                + join(model.columns@.map_values(|c: Column| c.ident@), ", "@) + ") VALUES ("@
                + join(Seq::new(n, |i: int| "$"@ + decimal((i + 1) as nat)), ","@) + ")"@
                + match model_upsert(model) {
                    Some(c) => c,
                    None => Seq::empty(),
                };
            &&& model.return_type is Some ==> insert_query(model) == base + " RETURNING "@ + match model.return_fields {
                Some(f) => f@,
                None => "*"@,
            }
            &&& model.return_type is None ==> insert_query(model) == base
        }),
{
}

/// The generated `insert` method: its query, whether it yields
/// `return_type` rows, and its bind arguments (every field, in order).
#[derive(Debug)]
pub struct InsertPlan {
    pub query: String,
    pub has_returning: bool,
    pub binds: Vec<Bind>,
}

/// `$1,$2,...,$n`.
pub fn placeholders(n: usize) -> (r: String)
    ensures
        r@ == value_placeholders(n as nat),
{
    let mut parts: Vec<String> = Vec::new();
    let mut i: usize = 0;
    while i < n
        invariant
            i <= n,
            parts@.len() == i,
            forall|k: int| 0 <= k < i ==> (#[trigger] parts@[k])@ == "$"@ + decimal((k + 1) as nat),
        decreases n - i,
    {
        let mut p = String::from_str("$");
        push_decimal(&mut p, i + 1);
        parts.push(p);
        i = i + 1;
    }
    proof {
        assert(parts@.map_values(|p: String| p@) =~= Seq::new(n as nat, |i: int| "$"@ + decimal((i + 1) as nat)));
    }
    join_strings(&parts, ",")
}

/// The positions of every column, and of the columns marked `upsert`.
pub fn all_and_targets(columns: &Vec<Column>) -> (r: (Vec<usize>, Vec<usize>))
    ensures
        r.0@ == all_columns(columns@.len()),
        r.1@ == upsert_targets(columns@, columns@.len()),
        forall|k: int| 0 <= k < r.1@.len() ==> (#[trigger] r.1@[k]) < columns@.len(),
{
    let mut all: Vec<usize> = Vec::new();
    let mut targets: Vec<usize> = Vec::new();
    let mut i: usize = 0;
    while i < columns.len()
        invariant
            i <= columns@.len(),
            all@ == all_columns(i as nat),
            targets@ == upsert_targets(columns@, i as nat),
            forall|k: int| 0 <= k < targets@.len() ==> (#[trigger] targets@[k]) < i,
        decreases columns.len() - i,
    {
        all.push(i);
        if columns[i].is_upsert_target {
            targets.push(i);
        }
        proof {
            assert(all@ =~= all_columns((i + 1) as nat));
        }
        i = i + 1;
    }
    (all, targets)
}

/// The `insert` method of the model.
pub fn expand(model: &TableModel) -> (r: InsertPlan)
    ensures
        r.query@ == insert_query(*model),
        r.has_returning == model.return_type is Some,
        r.binds@ == binds_of(model.columns@, all_columns(model.columns@.len())),
{
    let column_names = model.column_names();
    let (all, targets) = all_and_targets(&model.columns);
    let mut query = String::from_str("INSERT INTO ");
    query.append(model.table_name.as_str());
    query.append(" (");
    query.append(column_names.as_str());
    query.append(") VALUES (");
    let values = placeholders(model.columns.len());
    query.append(values.as_str());
    query.append(")");
    match upsert_clause(&model.columns, &all, &targets) {
        Some(clause) => query.append(clause.as_str()),
        None => {},
    }
    let has_returning = model.return_type.is_some();
    if has_returning {
        query.append(" RETURNING ");
        match &model.return_fields {
            Some(f) => query.append(f.as_str()),
            None => query.append("*"),
        }
    }
    let binds = self_bind_tokens(&model.columns, &all);
    InsertPlan { query, has_returning, binds }
}

} // verus!
