//! `SqlSelect`: one `select_by_<field>` method per operator of each field
//! marked `#[table(select)]`, and one per custom `select = name(...)` method.
//! The same expansion serves `SqlSelectMany` and `SqlDelete`.

use vstd::prelude::*;
use crate::text::join;
use crate::attrs::{lemma_operator_word_roundtrip, operator_named, MethodSpec, Operator, word_of};
use crate::model::{
    and_list, choice_comparisons, comma_list, comparison, custom_filters_of, custom_where,
    custom_where_of, lemma_resolution_renders, params_of, params_tokens_for_choices,
    render_custom_where, resolve_errors, resolves_to, sql_condition_for_choices, diagnostics_are,
    Column, CustomMethod, Diagnostic, FilterChoice, MethodKind, Param, TableModel,
};

verus! {

/// A generated query method: its name, its SQL, its parameters, and the
/// columns bound as its arguments, in placeholder order.
#[derive(Debug)]
pub struct QueryMethod {
    pub method_name: String,
    pub query: String,
    pub params: Vec<Param>,
    pub args: Vec<usize>,
}

/// The column is a filter of the kind's single-field methods.
pub open spec fn is_filter_for(c: Column, kind: MethodKind) -> bool {
    match kind {
        MethodKind::Select => c.is_select_filter,
        MethodKind::SelectMany => c.is_select_many_filter,
        MethodKind::Delete => c.is_delete_filter,
        MethodKind::Update => c.is_update_filter,
    }
}

/// `select_by_`, `select_many_by_`, `delete_by_`, `update_by_`.
pub open spec fn method_prefix(kind: MethodKind) -> Seq<char> {
    match kind {
        MethodKind::Select => "select_by_"@,
        MethodKind::SelectMany => "select_many_by_"@,
        MethodKind::Delete => "delete_by_"@,
        MethodKind::Update => "update_by_"@,
    }
}

/// `select_by_age` for `=`, `select_by_age_gt` for any other operator.
pub open spec fn method_name_for(prefix: Seq<char>, ident: Seq<char>, op: Operator) -> Seq<char> {
    if op == Operator::Eq {
        prefix + ident
    } else {
        prefix + ident + "_"@ + word_of(op)
    }
}

/// A select method runs `SELECT <a, b, ...> FROM <table> WHERE <filters>`,
/// listing every column's `SELECT`-list entry separated by `, `; a delete
/// method runs `DELETE FROM <table> WHERE <filters>`.
pub proof fn lemma_query_text(model: TableModel, kind: MethodKind, filters: Seq<char>)
    ensures
        select_list(model) == join(model.columns@.map_values(|c: Column| c.sql_select_expr@), ", "@),
        kind == MethodKind::Delete ==> filter_query(model, kind, filters)
            == "DELETE FROM "@ + model.table_name@ + " WHERE "@ + filters,
        kind != MethodKind::Delete ==> filter_query(model, kind, filters)
            == "SELECT "@ + join(model.columns@.map_values(|c: Column| c.sql_select_expr@), ", "@) + " FROM "@
                + model.table_name@ + " WHERE "@ + filters,
{
}

/// The single-field method names: `<prefix><field>` for `eq`, and
/// `<prefix><field>_gt`, `_lt`, `_gte`, `_lte`, `_like`, `_ilike`, `_in`,
/// `_not_in` for the other operators.
pub proof fn lemma_method_name_text(prefix: Seq<char>, ident: Seq<char>)
    ensures
        method_name_for(prefix, ident, Operator::Eq) == prefix + ident,
        method_name_for(prefix, ident, Operator::Gt) == prefix + ident + "_gt"@,
        method_name_for(prefix, ident, Operator::Lt) == prefix + ident + "_lt"@,
        method_name_for(prefix, ident, Operator::Gte) == prefix + ident + "_gte"@,
        method_name_for(prefix, ident, Operator::Lte) == prefix + ident + "_lte"@,
        method_name_for(prefix, ident, Operator::Like) == prefix + ident + "_like"@,
        method_name_for(prefix, ident, Operator::Ilike) == prefix + ident + "_ilike"@,
        method_name_for(prefix, ident, Operator::In) == prefix + ident + "_in"@,
        method_name_for(prefix, ident, Operator::NotIn) == prefix + ident + "_not_in"@,
{
    reveal_strlit("_");
    reveal_strlit("gt");
    reveal_strlit("lt");
    reveal_strlit("gte");
    reveal_strlit("lte");
    reveal_strlit("like");
    reveal_strlit("ilike");
    reveal_strlit("in");
    reveal_strlit("not_in");
    reveal_strlit("_gt");
    reveal_strlit("_lt");
    reveal_strlit("_gte");
    reveal_strlit("_lte");
    reveal_strlit("_like");
    reveal_strlit("_ilike");
    reveal_strlit("_in");
    reveal_strlit("_not_in");
    let b = prefix + ident;
    assert(b + "_"@ + "gt"@ =~= b + "_gt"@);
    assert(b + "_"@ + "lt"@ =~= b + "_lt"@);
    assert(b + "_"@ + "gte"@ =~= b + "_gte"@);
    assert(b + "_"@ + "lte"@ =~= b + "_lte"@);
    assert(b + "_"@ + "like"@ =~= b + "_like"@);
    assert(b + "_"@ + "ilike"@ =~= b + "_ilike"@);
    assert(b + "_"@ + "in"@ =~= b + "_in"@);
    assert(b + "_"@ + "not_in"@ =~= b + "_not_in"@);
}

/// The operators of one field's `op` list give its methods different names:
/// two variants for the same field are named alike only for the same operator.
pub proof fn lemma_method_names_distinct(prefix: Seq<char>, ident: Seq<char>, a: Operator, b: Operator)
    requires
        method_name_for(prefix, ident, a) == method_name_for(prefix, ident, b),
    ensures
        a == b,
{
    reveal_strlit("_");
    let base = prefix + ident;
    if a != Operator::Eq && b != Operator::Eq {
        let na = method_name_for(prefix, ident, a);
        assert(na == base + "_"@ + word_of(a));
        assert(na == base + "_"@ + word_of(b));
        assert(word_of(a) =~= na.subrange((base.len() + 1) as int, na.len() as int));
        assert(word_of(b) =~= na.subrange((base.len() + 1) as int, na.len() as int));
        lemma_operator_word_roundtrip(a);
        lemma_operator_word_roundtrip(b);
        assert(operator_named(word_of(a)) == operator_named(word_of(b)));
    } else if a != Operator::Eq {
        assert(method_name_for(prefix, ident, a).len() > base.len());
    } else if b != Operator::Eq {
        assert(method_name_for(prefix, ident, b).len() > base.len());
    }
}

/// The single-field method variants of the first `n` columns: for each
/// column that is a filter of `kind`, one choice per operator, in order.
pub open spec fn single_field_choices(cols: Seq<Column>, kind: MethodKind, n: nat) -> Seq<FilterChoice>
    decreases n,
{
    if n == 0 {
        Seq::empty()
    } else {
        let rest = single_field_choices(cols, kind, (n - 1) as nat);
        let c = cols[n - 1];
        if is_filter_for(c, kind) {
            rest + Seq::new(c.ops@.len(), |k: int| FilterChoice { column: (n - 1) as usize, op: c.ops@[k] })
        } else {
            rest
        }
    }
}

/// The custom method specs of a kind.
pub open spec fn custom_specs(model: TableModel, kind: MethodKind) -> Seq<MethodSpec> {
    match kind {
        MethodKind::Select => model.custom_select@,
        MethodKind::SelectMany => model.custom_select_many@,
        MethodKind::Delete => model.custom_delete@,
        MethodKind::Update => model.custom_update@,
    }
}

/// `SELECT <columns> FROM <table> WHERE <filters>`.
pub open spec fn select_query(columns: Seq<char>, table: Seq<char>, filters: Seq<char>) -> Seq<char> {
    "SELECT "@ + columns + " FROM "@ + table + " WHERE "@ + filters
}

/// `DELETE FROM <table> WHERE <filters>`.
pub open spec fn delete_query(table: Seq<char>, filters: Seq<char>) -> Seq<char> {
    "DELETE FROM "@ + table + " WHERE "@ + filters
}

/// The `SELECT` list of the model.
pub open spec fn select_list(model: TableModel) -> Seq<char> {
    comma_list(model.columns@.map_values(|c: Column| c.sql_select_expr@))
}

/// The query of a method of `kind` with `filters` as its `WHERE` text.
pub open spec fn filter_query(model: TableModel, kind: MethodKind, filters: Seq<char>) -> Seq<char> {
    match kind {
        MethodKind::Delete => delete_query(model.table_name@, filters),
        _ => select_query(select_list(model), model.table_name@, filters),
    }
}

/// `m` is the single-field method for choice `ch`.
pub open spec fn single_method_is(model: TableModel, kind: MethodKind, ch: FilterChoice, m: QueryMethod) -> bool {
    let name = model.columns@[ch.column as int].ident@;
    &&& m.method_name@ == method_name_for(method_prefix(kind), name, ch.op)
    &&& m.query@ == filter_query(model, kind, comparison(name, ch.op, 1))
    &&& m.params@ == params_of(seq![ch])
    &&& m.args@ == seq![ch.column]
}

/// The `=` choices of the columns `picks`.
pub open spec fn eq_choices(picks: Seq<usize>) -> Seq<FilterChoice> {
    picks.map_values(|c: usize| FilterChoice { column: c, op: Operator::Eq })
}

/// `m` is the custom method that `spec` describes.
pub open spec fn custom_method_is(model: TableModel, kind: MethodKind, spec: MethodSpec, m: QueryMethod) -> bool {
    let filters = custom_filters_of(model, spec);
    &&& m.method_name@ == spec.method_name@
    &&& m.query@ == filter_query(model, kind, custom_where_of(model, spec, 0))
    &&& m.params@ == params_of(eq_choices(filters))
    &&& m.args@ == filters
}

/// The methods of `kind` that the model generates: single-field variants
/// first, then custom methods, each in declaration order.
pub open spec fn filter_methods_are(model: TableModel, kind: MethodKind, ms: Seq<QueryMethod>) -> bool {
    let singles = single_field_choices(model.columns@, kind, model.columns@.len());
    let customs = custom_specs(model, kind);
    &&& ms.len() == singles.len() + customs.len()
    &&& forall|i: int| 0 <= i < singles.len() ==> single_method_is(model, kind, singles[i], #[trigger] ms[i])
    &&& forall|j: int| 0 <= j < customs.len() ==> custom_method_is(model, kind, customs[j], #[trigger] ms[singles.len() + j])
}

fn prefix_text(kind: MethodKind) -> (r: &'static str)
    ensures
        r@ == method_prefix(kind),
{
    match kind {
        MethodKind::Select => "select_by_",
        MethodKind::SelectMany => "select_many_by_",
        MethodKind::Delete => "delete_by_",
        MethodKind::Update => "update_by_",
    }
}

/// The name of the single-field method of column `ident` with operator `op`.
pub fn method_name(kind: MethodKind, ident: &str, op: Operator) -> (r: String)
    ensures
        r@ == method_name_for(method_prefix(kind), ident@, op),
{
    let mut name = String::from_str(prefix_text(kind));
    name.append(ident);
    if op != Operator::Eq {
        name.append("_");
        name.append(crate::model::op_word(op));
    }
    name
}

/// A `SELECT` method with `sql_filters` as its `WHERE` text, taking one
/// parameter per choice and binding them in order.
pub fn generate_method(
    method_name: String,
    sql_columns: &str,
    table_name: &str,
    sql_filters: &str,
    choices: &Vec<FilterChoice>,
) -> (m: QueryMethod)
    ensures
        m.method_name == method_name,
        m.query@ == select_query(sql_columns@, table_name@, sql_filters@),
        m.params@ == params_of(choices@),
        m.args@ == choices@.map_values(|c: FilterChoice| c.column),
{
    let params = params_tokens_for_choices(choices);
    let mut query = String::from_str("SELECT ");
    query.append(sql_columns);
    query.append(" FROM ");
    query.append(table_name);
    query.append(" WHERE ");
    query.append(sql_filters);
    QueryMethod { method_name, query, params, args: choice_columns(choices) }
}

/// A `DELETE` method with `sql_filters` as its `WHERE` text.
pub fn generate_delete_method(
    method_name: String,
    table_name: &str,
    sql_filters: &str,
    choices: &Vec<FilterChoice>,
) -> (m: QueryMethod)
    ensures
        m.method_name == method_name,
        m.query@ == delete_query(table_name@, sql_filters@),
        m.params@ == params_of(choices@),
        m.args@ == choices@.map_values(|c: FilterChoice| c.column),
{
    let params = params_tokens_for_choices(choices);
    let mut query = String::from_str("DELETE FROM ");
    query.append(table_name);
    query.append(" WHERE ");
    query.append(sql_filters);
    QueryMethod { method_name, query, params, args: choice_columns(choices) }
}

fn choice_columns(choices: &Vec<FilterChoice>) -> (r: Vec<usize>)
    ensures
        r@ == choices@.map_values(|c: FilterChoice| c.column),
{
    let mut out: Vec<usize> = Vec::new();
    let mut k: usize = 0;
    while k < choices.len()
        invariant
            k <= choices@.len(),
            out@ == choices@.map_values(|c: FilterChoice| c.column).take(k as int),
        decreases choices.len() - k,
    {
        out.push(choices[k].column);
        proof {
            assert(choices@.map_values(|c: FilterChoice| c.column).take(k + 1)
                =~= choices@.map_values(|c: FilterChoice| c.column).take(k as int).push(choices@[k as int].column));
        }
        k = k + 1;
    }
    proof {
        assert(choices@.map_values(|c: FilterChoice| c.column).take(choices@.len() as int)
            =~= choices@.map_values(|c: FilterChoice| c.column));
    }
    out
}

fn query_method(
    model: &TableModel,
    kind: MethodKind,
    sql_columns: &String,
    method_name: String,
    sql_filters: &str,
    choices: &Vec<FilterChoice>,
) -> (m: QueryMethod)
    requires
        kind != MethodKind::Update,
        sql_columns@ == select_list(*model),
    ensures
        m.method_name == method_name,
        m.query@ == filter_query(*model, kind, sql_filters@),
        m.params@ == params_of(choices@),
        m.args@ == choices@.map_values(|c: FilterChoice| c.column),
{
    match kind {
        MethodKind::Delete => generate_delete_method(method_name, model.table_name.as_str(), sql_filters, choices),
        _ => generate_method(method_name, sql_columns.as_str(), model.table_name.as_str(), sql_filters, choices),
    }
}

/// Every method of `kind` (select, select-many or delete) that the model
/// generates; a custom method naming an unknown field fails the whole set.
pub fn filter_methods(model: &TableModel, kind: MethodKind) -> (r: Result<Vec<QueryMethod>, Vec<Diagnostic>>)
    requires
        kind != MethodKind::Update,
    ensures
        r is Err <==> resolve_errors(*model, kind, custom_specs(*model, kind), custom_specs(*model, kind).len()).len() > 0,
        r matches Ok(ms) ==> filter_methods_are(*model, kind, ms@),
        r matches Err(ds) ==> diagnostics_are(ds@, resolve_errors(*model, kind, custom_specs(*model, kind), custom_specs(*model, kind).len())),
{
    let sql_columns = model.sql_columns();
    let mut methods: Vec<QueryMethod> = Vec::new();
    let ghost cols = model.columns@;
    let mut i: usize = 0;
    while i < model.columns.len()
        invariant
            i <= cols.len(),
            cols == model.columns@,
            kind != MethodKind::Update,
            sql_columns@ == select_list(*model),
            methods@.len() == single_field_choices(cols, kind, i as nat).len(),
            forall|x: int| 0 <= x < methods@.len()
                ==> single_method_is(*model, kind, single_field_choices(cols, kind, i as nat)[x], #[trigger] methods@[x]),
        decreases model.columns.len() - i,
    {
        let column = &model.columns[i];
        let ghost before = single_field_choices(cols, kind, i as nat);
        let flagged = match kind {
            MethodKind::Select => column.is_select_filter,
            MethodKind::SelectMany => column.is_select_many_filter,
            MethodKind::Delete => column.is_delete_filter,
            MethodKind::Update => column.is_update_filter,
        };
        if flagged {
            let ghost added = Seq::new(column.ops@.len(), |k: int| FilterChoice { column: i, op: column.ops@[k] });
            let mut k: usize = 0;
            while k < column.ops.len()
                invariant
                    i < cols.len(),
                    cols == model.columns@,
                    *column == cols[i as int],
                    kind != MethodKind::Update,
                    sql_columns@ == select_list(*model),
                    k <= column.ops@.len(),
                    added == Seq::new(column.ops@.len(), |k: int| FilterChoice { column: i, op: column.ops@[k] }),
                    methods@.len() == before.len() + k,
                    forall|x: int| 0 <= x < methods@.len()
                        ==> single_method_is(*model, kind, (before + added)[x], #[trigger] methods@[x]),
                decreases column.ops.len() - k,
            {
                let op = column.ops[k];
                let name = method_name(kind, column.ident.as_str(), op);
                let ch = FilterChoice { column: i, op };
                let mut choices: Vec<FilterChoice> = Vec::new();
                choices.push(ch);
                let sql_filters = sql_condition_for_choices(&model.columns, &choices, 0);
                proof {
                    assert(choices@ == seq![ch]);
                    assert(choice_comparisons(cols, choices@, 0) =~= seq![comparison(cols[i as int].ident@, op, 1)]);
                    assert(and_list(seq![comparison(cols[i as int].ident@, op, 1)]) == comparison(cols[i as int].ident@, op, 1));
                    assert(choices@.map_values(|c: FilterChoice| c.column) =~= seq![i]);
                    assert((before + added)[before.len() + k] == ch);
                }
                let m = query_method(model, kind, &sql_columns, name, sql_filters.as_str(), &choices);
                methods.push(m);
                k = k + 1;
            }
            proof {
                assert(single_field_choices(cols, kind, (i + 1) as nat) == before + added);
            }
        } else {
            proof {
                assert(single_field_choices(cols, kind, (i + 1) as nat) == before);
            }
        }
        i = i + 1;
    }
    let ghost singles = single_field_choices(cols, kind, cols.len());
    let customs = match kind {
        MethodKind::Select => model.custom_select_methods(),
        MethodKind::SelectMany => model.custom_select_many_methods(),
        MethodKind::Delete => model.custom_delete_methods(),
        MethodKind::Update => model.custom_update_methods(),
    };
    let customs = match customs {
        Ok(c) => c,
        Err(ds) => {
            return Err(ds);
        },
    };
    let ghost specs = custom_specs(*model, kind);
    let mut j: usize = 0;
    while j < customs.len()
        invariant
            j <= customs@.len(),
            customs@.len() == specs.len(),
            specs == custom_specs(*model, kind),
            forall|x: int| 0 <= x < specs.len() ==> resolves_to(*model, specs[x], #[trigger] customs@[x]),
            kind != MethodKind::Update,
            sql_columns@ == select_list(*model),
            singles == single_field_choices(model.columns@, kind, model.columns@.len()),
            methods@.len() == singles.len() + j,
            forall|x: int| 0 <= x < singles.len() ==> single_method_is(*model, kind, singles[x], #[trigger] methods@[x]),
            forall|x: int| 0 <= x < j ==> custom_method_is(*model, kind, specs[x], #[trigger] methods@[singles.len() + x]),
        decreases customs.len() - j,
    {
        let custom = &customs[j];
        proof {
            assert(resolves_to(*model, specs[j as int], customs@[j as int]));
            lemma_resolution_renders(*model, specs[j as int], *custom, 0);
            assert(custom.filters@.len() == custom.filters.len());
        }
        let sql_filters = render_custom_where(&model.columns, custom, 0);
        let choices = eq_choice_list(&custom.filters);
        let m = query_method(model, kind, &sql_columns, custom.method_name.clone(), sql_filters.as_str(), &choices);
        proof {
            assert(choices@.map_values(|c: FilterChoice| c.column) =~= custom.filters@);
        }
        methods.push(m);
        proof {
            assert(methods@[singles.len() + j] == m);
        }
        j = j + 1;
    }
    Ok(methods)
}

/// The `=` choices of the columns `picks`.
pub fn eq_choice_list(picks: &Vec<usize>) -> (r: Vec<FilterChoice>)
    ensures
        r@ == eq_choices(picks@),
{
    let mut out: Vec<FilterChoice> = Vec::new();
    let mut k: usize = 0;
    while k < picks.len()
        invariant
            k <= picks@.len(),
            out@ == eq_choices(picks@).take(k as int),
        decreases picks.len() - k,
    {
        out.push(FilterChoice { column: picks[k], op: Operator::Eq });
        proof {
            assert(eq_choices(picks@).take(k + 1) =~= eq_choices(picks@).take(k as int).push(
                FilterChoice { column: picks@[k as int], op: Operator::Eq }));
        }
        k = k + 1;
    }
    proof {
        assert(eq_choices(picks@).take(picks@.len() as int) =~= eq_choices(picks@));
    }
    out
}

/// The `SqlSelect` methods: `select_by_<field>` variants and custom `select` methods.
pub fn expand(model: &TableModel) -> (r: Result<Vec<QueryMethod>, Vec<Diagnostic>>)
    ensures
        r is Err <==> resolve_errors(*model, MethodKind::Select, model.custom_select@, model.custom_select@.len()).len() > 0,
        r matches Ok(ms) ==> filter_methods_are(*model, MethodKind::Select, ms@),
        r matches Err(ds) ==> diagnostics_are(ds@, resolve_errors(*model, MethodKind::Select, model.custom_select@, model.custom_select@.len())),
{
    filter_methods(model, MethodKind::Select)
}

} // verus!
