use quote::ToTokens;
use sql_macros_derive::attrs::{
    FieldAttrs, MetaAtom, MetaExpr, MetaSite, MethodFilterSpec, MethodSpec, Operator, OperatorList,
    QuotedString, TableAttrs,
};
use sql_macros_derive::model::{
    params_tokens_for_choices, render_custom_where, sql_condition, sql_condition_for_choices,
    FilterChoice, Site, TableModel,
};

fn ty(text: &str) -> syn::Type {
    syn::parse_str::<syn::Type>(text).expect("a type")
}

fn field(name: &str) -> FieldAttrs {
    FieldAttrs {
        ident: Some(name.to_string()),
        ty: ty("i32"),
        select: false,
        select_many: false,
        update: false,
        delete: false,
        upsert: false,
        as_type: None,
        op: None,
    }
}

fn table(name: &str, data: Vec<FieldAttrs>) -> TableAttrs {
    TableAttrs {
        ident: name.to_string(),
        data,
        name: None,
        spec_columns: None,
        return_type: None,
        return_fields: None,
        custom_select: Vec::new(),
        custom_select_many: Vec::new(),
        custom_delete: Vec::new(),
        custom_update: Vec::new(),
    }
}

fn fields_spec(name: &str, fields: &[&str]) -> MethodSpec {
    MethodSpec {
        method_name: name.to_string(),
        filter: MethodFilterSpec::Fields(fields.iter().map(|f| f.to_string()).collect()),
    }
}

fn raw_spec(name: &str, template: &str) -> MethodSpec {
    MethodSpec { method_name: name.to_string(), filter: MethodFilterSpec::Raw(template.to_string()) }
}

fn ops(words: &[&str]) -> OperatorList {
    let elems = words.iter().map(|w| MetaAtom::Str(w.to_string())).collect();
    OperatorList::from_meta(&MetaExpr::Array(elems)).expect("operators")
}

fn model(attrs: TableAttrs) -> TableModel {
    TableModel::from_attrs(attrs).expect("a model")
}

#[test]
fn table_name_defaults_to_pluralized_lowercase_struct_name() {
    let m = model(table("User", vec![field("id")]));
    assert_eq!(m.table_name, "users");
}

#[test]
fn table_name_requires_quotes_now() {
    let err = QuotedString::from_meta(&MetaExpr::Atom(MetaAtom::Path(Some("users".to_string())))).unwrap_err();
    assert!(err.message.contains("quoted string"));
}

#[test]
fn table_name_splits_camel_case_struct_name_into_snake_case() {
    let m = model(table("UserTodo", vec![field("id")]));
    assert_eq!(m.table_name, "user_todos");
}

#[test]
fn table_name_can_be_overridden_with_quotes() {
    let name = QuotedString::from_meta(&MetaExpr::Atom(MetaAtom::Str("app_users".to_string()))).unwrap();
    let mut attrs = table("User", vec![field("id")]);
    attrs.name = Some(name);
    let m = model(attrs);
    assert_eq!(m.table_name, "app_users");
}

#[test]
fn sql_columns_handles_as_type_annotation() {
    let mut role = field("role");
    role.as_type = Some("role!: Role".to_string());
    let m = model(table("User", vec![field("id"), role]));
    assert_eq!(m.sql_columns(), "id, role AS \"role!: Role\"");
}

#[test]
fn field_types_with_multiple_generic_args_are_preserved() {
    let mut data = field("data");
    data.ty = ty("std::collections::HashMap<String, i32>");
    data.select = true;
    let m = model(table("Payload", vec![data]));
    let ty0 = &m.columns[0].ty;
    assert_eq!(
        ty0.to_token_stream().to_string(),
        ty("std::collections::HashMap<String, i32>").to_token_stream().to_string()
    );
}

#[test]
fn custom_select_method_resolves_named_fields() {
    let mut attrs = table("User", vec![field("id"), field("is_active"), field("is_removed")]);
    attrs.custom_select = vec![fields_spec("get_active_user", &["is_active", "is_removed"])];
    let m = model(attrs);
    let methods = m.custom_select_methods().unwrap();
    assert_eq!(methods.len(), 1);
    assert_eq!(methods[0].method_name, "get_active_user");
    let names: Vec<String> = methods[0].filters.iter().map(|&c| m.columns[c].ident.clone()).collect();
    assert_eq!(names, vec!["is_active", "is_removed"]);
}

#[test]
fn custom_method_referencing_unknown_field_is_a_spanned_error() {
    let mut attrs = table("User", vec![field("id")]);
    attrs.custom_select = vec![fields_spec("get_by_x", &["nonexistent"])];
    let m = model(attrs);
    let errs = m.custom_select_methods().unwrap_err();
    let text = errs[0].message.clone();
    assert!(text.contains("nonexistent"));
    assert!(text.contains("not a field"));
}

#[test]
fn repeated_select_attributes_all_collected() {
    let mut attrs = table("User", vec![field("id")]);
    attrs.custom_select = vec![fields_spec("a", &["id"]), fields_spec("b", &["id"])];
    let m = model(attrs);
    let methods = m.custom_select_methods().unwrap();
    let names: Vec<String> = methods.iter().map(|m| m.method_name.clone()).collect();
    assert_eq!(names, vec!["a", "b"]);
}

#[test]
fn sql_condition_numbers_placeholders_from_offset() {
    let m = model(table("User", vec![field("id"), field("email")]));
    assert_eq!(sql_condition(&m.columns, &vec![0, 1], 2), "id=$3 AND email=$4");
}

#[test]
fn custom_method_field_list_ignores_a_fields_own_op() {
    let mut age = field("age");
    age.select_many = true;
    age.op = Some(ops(&["gt"]));
    let mut attrs = table("User", vec![age]);
    attrs.custom_select = vec![fields_spec("get_by_age", &["age"])];
    let m = model(attrs);
    let methods = m.custom_select_methods().unwrap();
    assert_eq!(render_custom_where(&m.columns, &methods[0], 0), "age=$1");
}

#[test]
fn op_defaults_to_a_single_eq() {
    let m = model(table("User", vec![field("id")]));
    assert_eq!(m.columns[0].ops, vec![Operator::Eq]);
}

#[test]
fn op_list_generates_one_choice_per_operator() {
    let mut age = field("age");
    age.select_many = true;
    age.op = Some(ops(&["gt", "lt"]));
    let m = model(table("User", vec![age]));
    assert_eq!(m.columns[0].ops, vec![Operator::Gt, Operator::Lt]);
    let choices: Vec<String> = m.columns[0]
        .ops
        .iter()
        .map(|&op| sql_condition_for_choices(&m.columns, &vec![FilterChoice { column: 0, op }], 0))
        .collect();
    assert_eq!(choices, vec!["age>$1", "age<$1"]);
}

#[test]
fn op_ilike_renders_as_case_insensitive_like() {
    let mut email = field("email");
    email.select_many = true;
    email.op = Some(ops(&["ilike"]));
    let m = model(table("User", vec![email]));
    let choice = FilterChoice { column: 0, op: m.columns[0].ops[0] };
    assert_eq!(sql_condition_for_choices(&m.columns, &vec![choice], 0), "email ILIKE $1");
}

#[test]
fn op_in_widens_the_param_type_to_a_slice() {
    let mut id = field("id");
    id.select_many = true;
    id.op = Some(ops(&["in"]));
    let m = model(table("User", vec![id]));
    let choice = FilterChoice { column: 0, op: m.columns[0].ops[0] };
    assert_eq!(sql_condition_for_choices(&m.columns, &vec![choice], 0), "id = ANY($1)");
    let params = params_tokens_for_choices(&vec![choice]);
    assert_eq!(params.len(), 1);
    assert!(params[0].slice);
    assert_eq!(m.columns[params[0].column].ident, "id");
}

#[test]
fn op_not_in_widens_the_param_type_to_a_slice() {
    let mut id = field("id");
    id.select_many = true;
    id.op = Some(ops(&["not_in"]));
    let m = model(table("User", vec![id]));
    let choice = FilterChoice { column: 0, op: m.columns[0].ops[0] };
    assert_eq!(sql_condition_for_choices(&m.columns, &vec![choice], 0), "id != ALL($1)");
    let params = params_tokens_for_choices(&vec![choice]);
    assert!(params[0].slice);
    assert_eq!(m.columns[params[0].column].ident, "id");
}

#[test]
fn unknown_op_is_a_spanned_error() {
    let err = OperatorList::from_meta(&MetaExpr::Atom(MetaAtom::Str("nope".to_string()))).unwrap_err();
    assert!(err.message.contains("unknown operator"));
}

#[test]
fn empty_op_list_is_a_spanned_error() {
    let err = OperatorList::from_meta(&MetaExpr::Array(Vec::new())).unwrap_err();
    assert!(err.message.contains("at least one operator"));
}

fn user_with(names: &[&str], spec: MethodSpec) -> TableModel {
    let mut attrs = table("User", names.iter().map(|n| field(n)).collect());
    attrs.custom_select_many = vec![spec];
    model(attrs)
}

#[test]
fn raw_filter_template_is_a_bare_placeholder_not_a_whole_comparison() {
    let m = user_with(
        &["id", "email", "phone", "is_removed"],
        raw_spec("search_users", "email=$email OR (phone=$phone AND NOT is_removed=$is_removed)"),
    );
    let methods = m.custom_select_many_methods().unwrap();
    assert_eq!(methods.len(), 1);
    assert_eq!(
        render_custom_where(&m.columns, &methods[0], 0),
        "email=$1 OR (phone=$2 AND NOT is_removed=$3)"
    );
}

#[test]
fn raw_filter_template_ignores_a_fields_own_op() {
    let mut age = field("age");
    age.op = Some(ops(&["gt"]));
    let mut attrs = table("User", vec![field("id"), field("email"), age]);
    attrs.custom_select_many = vec![raw_spec("search_users", "email=$email OR age>$age")];
    let m = model(attrs);
    let methods = m.custom_select_many_methods().unwrap();
    assert_eq!(render_custom_where(&m.columns, &methods[0], 0), "email=$1 OR age>$2");
}

#[test]
fn raw_filter_template_collects_referenced_fields_in_first_occurrence_order() {
    let m = user_with(&["id", "email", "phone"], raw_spec("search_users", "$email OR $phone"));
    let methods = m.custom_select_many_methods().unwrap();
    let names: Vec<String> = methods[0].filters.iter().map(|&c| m.columns[c].ident.clone()).collect();
    assert_eq!(names, vec!["email", "phone"]);
}

#[test]
fn raw_filter_template_reuses_the_same_placeholder_for_a_repeated_field() {
    let m = user_with(&["id", "age"], raw_spec("search_users", "$age OR $age"));
    let methods = m.custom_select_many_methods().unwrap();
    assert_eq!(render_custom_where(&m.columns, &methods[0], 0), "$1 OR $1");
    let names: Vec<String> = methods[0].filters.iter().map(|&c| m.columns[c].ident.clone()).collect();
    assert_eq!(names, vec!["age"]);
}

#[test]
fn raw_filter_template_offset_shifts_every_placeholder() {
    let m = user_with(&["id", "email", "phone"], raw_spec("search_users", "$email OR $phone"));
    let methods = m.custom_select_many_methods().unwrap();
    assert_eq!(render_custom_where(&m.columns, &methods[0], 2), "$3 OR $4");
}

#[test]
fn raw_filter_template_unknown_field_is_a_spanned_error() {
    let m = user_with(&["id"], raw_spec("search_users", "$nonexistent"));
    let errs = m.custom_select_many_methods().unwrap_err();
    assert!(errs[0].message.contains("nonexistent"));
    assert!(errs[0].message.contains("not a field"));
    assert_eq!(errs[0].site, Site::Method(sql_macros_derive::model::MethodKind::SelectMany, 0));
}

#[test]
fn struct_without_fields_is_refused() {
    let err = TableModel::from_attrs(table("User", Vec::new())).err().unwrap();
    assert_eq!(err.message, "struct must have at least one field");
    assert_eq!(err.site, Site::Struct);
}

#[test]
fn meta_site_of_a_bad_list_element_is_that_element() {
    let elems = vec![MetaAtom::Str("gt".to_string()), MetaAtom::Other];
    let err = OperatorList::from_meta(&MetaExpr::Array(elems)).unwrap_err();
    assert_eq!(err.site, MetaSite::Arg(1));
    assert_eq!(err.message, "expected a quoted operator, e.g. `op = \"gt\"`");
}

#[test]
fn idents_of_choices_are_the_column_names() {
    let m = model(table("User", vec![field("id"), field("email")]));
    let names = sql_macros_derive::model::idents_for_choices(
        &m.columns,
        &vec![FilterChoice { column: 1, op: Operator::Eq }, FilterChoice { column: 0, op: Operator::Gt }],
    );
    assert_eq!(names, vec!["email", "id"]);
}
