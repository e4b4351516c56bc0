//! `SqlUpdate`: one `update_by_<field>` method per operator of each field
//! marked `#[table(update)]` (that field alone is the `WHERE` filter, every
//! other field a `SET` column), and one per custom `update = name(...)`
//! method (its fields are the filters, every other field a `SET` column).
//! `WHERE` placeholders are numbered after the `SET` ones.

use vstd::prelude::*;
use crate::attrs::MethodSpec;
use crate::insert::returning_of;
use crate::model::{
    binds_of, comma_list, comparison, custom_filters_of, custom_where, custom_where_of, diagnostic,
    diagnostics_are, lemma_resolution_renders, names_at, picks_valid, render_custom_where,
    resolve_errors, resolves_to, self_bind_tokens, set_assignments, sql_condition_for_choices,
    sql_set_clause, and_list, choice_comparisons, Bind, Column, Diagnostic, FilterChoice,
    MethodKind, Site, TableModel,
};
use crate::text::{decimal, join};
use crate::select::{method_name, method_name_for, method_prefix, single_field_choices};

verus! {

/// A generated update method: its name, its query, whether it yields
/// `return_type` rows, and the bind arguments of its `SET` columns and of
/// its `WHERE` filters, in placeholder order.
#[derive(Debug)]
pub struct UpdateMethod {
    pub method_name: String,
    pub query: String,
    pub has_returning: bool,
    pub column_binds: Vec<Bind>,
    pub filter_binds: Vec<Bind>,
}

/// The positions below `n` of the columns whose name is not the name of
/// any column in `filters`.
pub open spec fn columns_outside(cols: Seq<Column>, filters: Seq<usize>, n: nat) -> Seq<usize>
    decreases n,
{
    if n == 0 {
        Seq::empty()
    } else {
        let rest = columns_outside(cols, filters, (n - 1) as nat);
        if names_at(cols, filters).contains(cols[n - 1].ident@) {
            rest
        } else {
            rest.push((n - 1) as usize)
        }
    }
}

/// The `SET` columns of a method filtering on `filters`.
pub open spec fn set_columns_of(cols: Seq<Column>, filters: Seq<usize>) -> Seq<usize> {
    columns_outside(cols, filters, cols.len())
}

/// `, <spec_columns>` when the model has `spec_columns`.
pub open spec fn spec_columns_clause(model: TableModel) -> Seq<char> {
    match model.spec_columns {
        Some(s) => ", "@ + s@,
        None => Seq::empty(),
    }
}

/// `UPDATE t SET a=$1, b=$2<, spec columns> WHERE <filters>`, with
/// `RETURNING` when there is a `return_type`.
pub open spec fn update_query(model: TableModel, set: Seq<usize>, filters: Seq<char>) -> Seq<char> {
    let q = "UPDATE "@ + model.table_name@ + " SET "@ + comma_list(set_assignments(model.columns@, set, 0))
        + spec_columns_clause(model) + " WHERE "@ + filters;
    if model.return_type is Some {
        q + " RETURNING "@ + returning_of(model)
    } else {
        q
    }
}

pub open spec fn msg_no_set_columns(name: Seq<char>) -> Seq<char> {
    "`"@ + name + "` has no columns left to SET: every field is used as a WHERE filter"@
}

/// `m` is the update method named `name` with `SET` columns `set`, `WHERE`
/// text `filters` and `WHERE` columns `filter_cols`.
pub open spec fn update_method_is(
    model: TableModel,
    name: Seq<char>,
    set: Seq<usize>,
    filters: Seq<char>,
    filter_cols: Seq<usize>,
    m: UpdateMethod,
) -> bool {
    &&& m.method_name@ == name
    &&& m.query@ == update_query(model, set, filters)
    &&& m.has_returning == model.return_type is Some
    &&& m.column_binds@ == binds_of(model.columns@, set)
    &&& m.filter_binds@ == binds_of(model.columns@, filter_cols)
}

/// An update method runs `UPDATE <table> SET a=$1, b=$2, ...` over its `SET`
/// columns (one assignment each, separated by `, `), then `, <spec_columns>`
/// when given, then ` WHERE ` and its filter text; it yields rows exactly
/// when the model has a `return_type`, and then, and only then, the query
/// ends with ` RETURNING ` and `return_fields`, or `*` without them.
pub proof fn lemma_update_query_text(
    model: TableModel,
    name: Seq<char>,
    set: Seq<usize>,
    filters: Seq<char>,
    filter_cols: Seq<usize>,
    m: UpdateMethod,
)
    requires
        update_method_is(model, name, set, filters, filter_cols, m),
    ensures
        m.has_returning <==> model.return_type is Some,
        ({
            let base = "UPDATE "@ + model.table_name@ + " SET "@
                + join(Seq::new(set.len(), |k: int| model.columns@[set[k] as int].ident@ + "=$"@ + decimal((k + 1) as nat)), ", "@)
                + match model.spec_columns {
                    Some(c) => ", "@ + c@,
                    None => Seq::empty(),
                } + " WHERE "@ + filters;
            &&& model.return_type is Some ==> m.query@ == base + " RETURNING "@ + match model.return_fields {
                Some(f) => f@,
                None => "*"@,
            }
            &&& model.return_type is None ==> m.query@ == base
        }),
{
    assert(Seq::new(set.len(), |k: int| model.columns@[set[k] as int].ident@ + "=$"@ + decimal((k + 1) as nat))
        =~= set_assignments(model.columns@, set, 0));
}

/// The name of the single-field update method for `ch`.
pub open spec fn single_update_name(model: TableModel, ch: FilterChoice) -> Seq<char> {
    method_name_for(method_prefix(MethodKind::Update), model.columns@[ch.column as int].ident@, ch.op)
}

/// `m` is the single-field update method for `ch`.
pub open spec fn single_update_is(model: TableModel, ch: FilterChoice, m: UpdateMethod) -> bool {
    let set = set_columns_of(model.columns@, seq![ch.column]);
    update_method_is(
        model,
        single_update_name(model, ch),
        set,
        comparison(model.columns@[ch.column as int].ident@, ch.op, (set.len() + 1) as nat),
        seq![ch.column],
        m,
    )
}

/// `m` is the custom update method that `spec` describes.
pub open spec fn custom_update_is(model: TableModel, spec: MethodSpec, m: UpdateMethod) -> bool {
    let filters = custom_filters_of(model, spec);
    let set = set_columns_of(model.columns@, filters);
    update_method_is(model, spec.method_name@, set, custom_where_of(model, spec, set.len()), filters, m)
}

/// The error of the single-field update method for `ch`, if it has nothing to `SET`.
pub open spec fn single_update_error(model: TableModel, ch: FilterChoice) -> Seq<(Seq<char>, Site)> {
    if set_columns_of(model.columns@, seq![ch.column]).len() == 0 {
        seq![(msg_no_set_columns(single_update_name(model, ch)), Site::Column(ch.column))]
    } else {
        Seq::empty()
    }
}

/// The errors of the single-field update methods for `singles`, in order.
pub open spec fn single_update_errors(model: TableModel, singles: Seq<FilterChoice>) -> Seq<(Seq<char>, Site)>
    decreases singles.len(),
{
    if singles.len() == 0 {
        Seq::empty()
    } else {
        single_update_errors(model, singles.drop_last()) + single_update_error(model, singles.last())
    }
}

/// The errors of the custom update methods `specs` (the first `n`), once resolved.
pub open spec fn custom_update_errors(model: TableModel, specs: Seq<MethodSpec>, n: nat) -> Seq<(Seq<char>, Site)>
    decreases n,
{
    if n == 0 {
        Seq::empty()
    } else {
        let rest = custom_update_errors(model, specs, (n - 1) as nat);
        if set_columns_of(model.columns@, custom_filters_of(model, specs[n - 1])).len() == 0 {
            rest.push((msg_no_set_columns(specs[n - 1].method_name@), Site::Method(MethodKind::Update, (n - 1) as usize)))
        } else {
            rest
        }
    }
}

/// Every error of the `SqlUpdate` expansion, in order: single-field
/// methods, then the custom methods' resolution errors or, when they all
/// resolve, their own errors.
pub open spec fn update_errors(model: TableModel) -> Seq<(Seq<char>, Site)> {
    let singles = single_field_choices(model.columns@, MethodKind::Update, model.columns@.len());
    let specs = model.custom_update@;
    let resolution = resolve_errors(model, MethodKind::Update, specs, specs.len());
    single_update_errors(model, singles) + if resolution.len() > 0 {
        resolution
    } else {
        custom_update_errors(model, specs, specs.len())
    }
}

/// The update methods the model generates, when none fails: single-field
/// variants first, then custom methods, each in declaration order.
pub open spec fn update_methods_are(model: TableModel, ms: Seq<UpdateMethod>) -> bool {
    let singles = single_field_choices(model.columns@, MethodKind::Update, model.columns@.len());
    let specs = model.custom_update@;
    &&& ms.len() == singles.len() + specs.len()
    &&& forall|i: int| 0 <= i < singles.len() ==> single_update_is(model, singles[i], #[trigger] ms[i])
    &&& forall|j: int| 0 <= j < specs.len() ==> custom_update_is(model, specs[j], #[trigger] ms[singles.len() + j])
}

proof fn lemma_columns_outside_bounds(cols: Seq<Column>, filters: Seq<usize>, n: nat)
    requires
        n <= cols.len(),
    ensures
        columns_outside(cols, filters, n).len() <= n,
        forall|k: int| 0 <= k < columns_outside(cols, filters, n).len()
            ==> (#[trigger] columns_outside(cols, filters, n)[k]) < n,
    decreases n,
{
    if n > 0 {
        lemma_columns_outside_bounds(cols, filters, (n - 1) as nat);
    }
}

/// The `SET` columns of a method filtering on `filters`: every column not
/// named like one of them.
pub fn set_columns(columns: &Vec<Column>, filters: &Vec<usize>) -> (r: Vec<usize>)
    requires
        picks_valid(columns@, filters@),
    ensures
        r@ == set_columns_of(columns@, filters@),
        r@.len() <= columns@.len(),
        picks_valid(columns@, r@),
{
    let filter_names = crate::model::idents(columns, filters);
    let ghost fv = names_at(columns@, filters@);
    let mut out: Vec<usize> = Vec::new();
    let mut i: usize = 0;
    while i < columns.len()
        invariant
            i <= columns@.len(),
            filter_names@.map_values(|p: String| p@) == fv,
            fv == names_at(columns@, filters@),
            out@ == columns_outside(columns@, filters@, i as nat),
        decreases columns.len() - i,
    {
        if !contains_text(&filter_names, &columns[i].ident) {
            out.push(i);
        }
        i = i + 1;
    }
    proof {
        lemma_columns_outside_bounds(columns@, filters@, columns@.len());
    }
    out
}

fn contains_text(names: &Vec<String>, name: &String) -> (r: bool)
    ensures
        r == names@.map_values(|p: String| p@).contains(name@),
{
    let ghost views = names@.map_values(|p: String| p@);
    let mut k: usize = 0;
    while k < names.len()
        invariant
            k <= names@.len(),
            views == names@.map_values(|p: String| p@),
            forall|j: int| 0 <= j < k ==> views[j] != name@,
        decreases names.len() - k,
    {
        if names[k] == *name {
            proof {
                assert(views[k as int] == name@);
            }
            return true;
        }
        k = k + 1;
    }
    false
}

/// One update method: `SET` columns `set`, `WHERE` text `sql_where` over
/// the columns `filter_cols`. A method with nothing left to `SET` is an
/// error at `site`.
pub fn generate_method(
    model: &TableModel,
    method_name: String,
    site: Site,
    set: &Vec<usize>,
    filter_cols: &Vec<usize>,
    sql_where: &str,
) -> (r: Result<UpdateMethod, Diagnostic>)
    requires
        picks_valid(model.columns@, set@),
        picks_valid(model.columns@, filter_cols@),
    ensures
        r is Err <==> set@.len() == 0,
        r matches Ok(m) ==> update_method_is(*model, method_name@, set@, sql_where@, filter_cols@, m),
        r matches Err(d) ==> d.is(msg_no_set_columns(method_name@), site),
{
    if set.len() == 0 {
        let mut m = String::from_str("`");
        m.append(method_name.as_str());
        m.append("` has no columns left to SET: every field is used as a WHERE filter");
        return Err(diagnostic(m, site));
    }
    let column_binds = self_bind_tokens(&model.columns, set);
    let filter_binds = self_bind_tokens(&model.columns, filter_cols);
    let sql_set = sql_set_clause(&model.columns, set, 0);
    let mut query = String::from_str("UPDATE ");
    query.append(model.table_name.as_str());
    query.append(" SET ");
    query.append(sql_set.as_str());
    let spec_clause = match &model.spec_columns {
        Some(s) => {
            let mut c = String::from_str(", ");
            c.append(s.as_str());
            c
        },
        None => String::new(),
    };
    query.append(spec_clause.as_str());
    query.append(" WHERE ");
    query.append(sql_where);
    let has_returning = model.return_type.is_some();
    if has_returning {
        query.append(" RETURNING ");
        match &model.return_fields {
            Some(f) => query.append(f.as_str()),
            None => query.append("*"),
        }
    }
    Ok(UpdateMethod { method_name, query, has_returning, column_binds, filter_binds })
}

fn push_diagnostic(errors: &mut Vec<Diagnostic>, d: Diagnostic, Ghost(es): Ghost<Seq<(Seq<char>, Site)>>, Ghost(e): Ghost<(Seq<char>, Site)>)
    requires
        diagnostics_are(old(errors)@, es),
        d.is(e.0, e.1),
    ensures
        diagnostics_are(final(errors)@, es.push(e)),
{
    errors.push(d);
    proof {
        assert forall|k: int| 0 <= k < errors@.len() implies (#[trigger] errors@[k]).is(es.push(e)[k].0, es.push(e)[k].1) by {
            if k < es.len() {
                assert(errors@[k] == old(errors)@[k]);
            }
        }
    }
}

/// The `SqlUpdate` methods; every method's error is reported, in order.
pub fn expand(model: &TableModel) -> (r: Result<Vec<UpdateMethod>, Vec<Diagnostic>>)
    requires
        model.columns@.len() < usize::MAX,
        forall|j: int| 0 <= j < model.custom_update@.len()
            ==> model.columns@.len() + custom_filters_of(*model, #[trigger] model.custom_update@[j]).len() <= usize::MAX,
    ensures
        r is Err <==> update_errors(*model).len() > 0,
        r matches Err(ds) ==> diagnostics_are(ds@, update_errors(*model)),
        r matches Ok(ms) ==> update_methods_are(*model, ms@),
{
    let ghost cols = model.columns@;
    let mut errors: Vec<Diagnostic> = Vec::new();
    let mut methods: Vec<UpdateMethod> = Vec::new();
    let mut i: usize = 0;
    while i < model.columns.len()
        invariant
            i <= cols.len(),
            cols == model.columns@,
            cols.len() < usize::MAX,
            diagnostics_are(errors@, single_update_errors(*model, single_field_choices(cols, MethodKind::Update, i as nat))),
            errors@.len() == 0 ==> methods@.len() == single_field_choices(cols, MethodKind::Update, i as nat).len()
                && forall|x: int| 0 <= x < methods@.len()
                    ==> single_update_is(*model, single_field_choices(cols, MethodKind::Update, i as nat)[x], #[trigger] methods@[x]),
        decreases model.columns.len() - i,
    {
        let column = &model.columns[i];
        let ghost before = single_field_choices(cols, MethodKind::Update, i as nat);
        if column.is_update_filter {
            let ghost added = Seq::new(column.ops@.len(), |k: int| FilterChoice { column: i, op: column.ops@[k] });
            let mut just: Vec<usize> = Vec::new();
            just.push(i);
            let set = set_columns(&model.columns, &just);
            let mut k: usize = 0;
            while k < column.ops.len()
                invariant
                    i < cols.len(),
                    cols == model.columns@,
                    cols.len() < usize::MAX,
                    *column == cols[i as int],
                    just@ == seq![i],
                    set@ == set_columns_of(cols, seq![i]),
                    set@.len() <= cols.len(),
                    picks_valid(cols, set@),
                    k <= column.ops@.len(),
                    added == Seq::new(column.ops@.len(), |k: int| FilterChoice { column: i, op: column.ops@[k] }),
                    diagnostics_are(errors@, single_update_errors(*model, before + added.take(k as int))),
                    errors@.len() == 0 ==> methods@.len() == before.len() + k
                        && forall|x: int| 0 <= x < methods@.len()
                            ==> single_update_is(*model, (before + added)[x], #[trigger] methods@[x]),
                decreases column.ops.len() - k,
            {
                let op = column.ops[k];
                let ch = FilterChoice { column: i, op };
                let name = method_name(MethodKind::Update, column.ident.as_str(), op);
                let mut choices: Vec<FilterChoice> = Vec::new();
                choices.push(ch);
                let sql_where = sql_condition_for_choices(&model.columns, &choices, set.len());
                proof {
                    assert(choices@ == seq![ch]);
                    assert(choice_comparisons(cols, choices@, set@.len()) =~= seq![comparison(cols[i as int].ident@, op, (set@.len() + 1) as nat)]);
                    assert(and_list(seq![comparison(cols[i as int].ident@, op, (set@.len() + 1) as nat)])
                        == comparison(cols[i as int].ident@, op, (set@.len() + 1) as nat));
                    assert(added.take(k + 1) == added.take(k as int).push(ch));
                    assert(before + added.take(k + 1) == (before + added.take(k as int)).push(ch));
                    assert((before + added.take(k + 1)).drop_last() == before + added.take(k as int));
                    assert((before + added)[before.len() + k] == ch);
                }
                let ghost es = single_update_errors(*model, before + added.take(k as int));
                match generate_method(model, name, Site::Column(i), &set, &just, sql_where.as_str()) {
                    Ok(m) => {
                        methods.push(m);
                    },
                    Err(d) => {
                        push_diagnostic(&mut errors, d, Ghost(es), Ghost(single_update_error(*model, ch)[0]));
                        proof {
                            assert(es.push(single_update_error(*model, ch)[0]) == es + single_update_error(*model, ch));
                        }
                    },
                }
                proof {
                    if set@.len() > 0 {
                        assert(single_update_error(*model, ch) == Seq::<(Seq<char>, Site)>::empty());
                        assert(es + single_update_error(*model, ch) == es);
                    }
                }
                k = k + 1;
            }
            proof {
                assert(added.take(added.len() as int) == added);
                assert(single_field_choices(cols, MethodKind::Update, (i + 1) as nat) == before + added);
            }
        } else {
            proof {
                assert(single_field_choices(cols, MethodKind::Update, (i + 1) as nat) == before);
            }
        }
        i = i + 1;
    }
    let ghost singles = single_field_choices(cols, MethodKind::Update, cols.len());
    let ghost specs = model.custom_update@;
    let ghost single_errs = single_update_errors(*model, singles);
    match model.custom_update_methods() {
        Err(ds) => {
            let ghost res = resolve_errors(*model, MethodKind::Update, specs, specs.len());
            let mut k: usize = 0;
            while k < ds.len()
                invariant
                    k <= ds@.len(),
                    diagnostics_are(ds@, res),
                    diagnostics_are(errors@, single_errs + res.take(k as int)),
                decreases ds.len() - k,
            {
                let ghost es = single_errs + res.take(k as int);
                let d = ds[k].clone_diagnostic();
                push_diagnostic(&mut errors, d, Ghost(es), Ghost(res[k as int]));
                proof {
                    assert(es.push(res[k as int]) == single_errs + res.take(k + 1));
                }
                k = k + 1;
            }
            proof {
                assert(res.take(res.len() as int) == res);
            }
            Err(errors)
        },
        Ok(customs) => {
            let mut j: usize = 0;
            while j < customs.len()
                invariant
                    j <= customs@.len(),
                    customs@.len() == specs.len(),
                    specs == model.custom_update@,
                    cols == model.columns@,
                    forall|x: int| 0 <= x < specs.len() ==> resolves_to(*model, specs[x], #[trigger] customs@[x]),
                    forall|x: int| 0 <= x < specs.len()
                        ==> cols.len() + custom_filters_of(*model, #[trigger] specs[x]).len() <= usize::MAX,
                    resolve_errors(*model, MethodKind::Update, specs, specs.len()).len() == 0,
                    singles == single_field_choices(cols, MethodKind::Update, cols.len()),
                    single_errs == single_update_errors(*model, singles),
                    diagnostics_are(errors@, single_errs + custom_update_errors(*model, specs, j as nat)),
                    errors@.len() == 0 ==> methods@.len() == singles.len() + j
                        && (forall|x: int| 0 <= x < singles.len() ==> single_update_is(*model, singles[x], #[trigger] methods@[x]))
                        && (forall|x: int| 0 <= x < j ==> custom_update_is(*model, specs[x], #[trigger] methods@[singles.len() + x])),
                decreases customs.len() - j,
            {
                let custom = &customs[j];
                proof {
                    assert(resolves_to(*model, specs[j as int], customs@[j as int]));
                    lemma_resolution_renders(*model, specs[j as int], *custom, 0);
                }
                let set = set_columns(&model.columns, &custom.filters);
                proof {
                    lemma_resolution_renders(*model, specs[j as int], *custom, set@.len());
                    assert(cols.len() + custom_filters_of(*model, specs[j as int]).len() <= usize::MAX);
                }
                let sql_where = render_custom_where(&model.columns, custom, set.len());
                let ghost es = single_errs + custom_update_errors(*model, specs, j as nat);
                match generate_method(model, custom.method_name.clone(), Site::Method(MethodKind::Update, j), &set, &custom.filters, sql_where.as_str()) {
                    Ok(m) => {
                        methods.push(m);
                        proof {
                            assert(custom_update_errors(*model, specs, (j + 1) as nat) == custom_update_errors(*model, specs, j as nat));
                        }
                    },
                    Err(d) => {
                        let ghost e = (msg_no_set_columns(specs[j as int].method_name@), Site::Method(MethodKind::Update, j));
                        push_diagnostic(&mut errors, d, Ghost(es), Ghost(e));
                        proof {
                            assert(custom_update_errors(*model, specs, (j + 1) as nat) == custom_update_errors(*model, specs, j as nat).push(e));
                            assert(es.push(e) == single_errs + custom_update_errors(*model, specs, (j + 1) as nat));
                        }
                    },
                }
                j = j + 1;
            }
            if errors.len() > 0 {
                Err(errors)
            } else {
                Ok(methods)
            }
        },
    }
}

} // verus!
