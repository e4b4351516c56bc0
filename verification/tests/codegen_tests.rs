use sql_macros_derive::attrs::{FieldAttrs, MetaAtom, MetaExpr, MethodFilterSpec, MethodSpec, OperatorList, TableAttrs};
use sql_macros_derive::model::{MethodKind, Site, TableModel};
use sql_macros_derive::{delete, insert, insert_many, select, select_all, select_many, table, update};

fn ty(text: &str) -> syn::Type {
    syn::parse_str::<syn::Type>(text).expect("a type")
}

fn field(name: &str) -> FieldAttrs {
    FieldAttrs {
        ident: Some(name.to_string()),
        ty: ty("i32"),
        select: false,
        select_many: false,
        update: false,
        delete: false,
        upsert: false,
        as_type: None,
        op: None,
    }
}

fn table_attrs(name: &str, data: Vec<FieldAttrs>) -> TableAttrs {
    TableAttrs {
        ident: name.to_string(),
        data,
        name: None,
        spec_columns: None,
        return_type: None,
        return_fields: None,
        custom_select: Vec::new(),
        custom_select_many: Vec::new(),
        custom_delete: Vec::new(),
        custom_update: Vec::new(),
    }
}

fn ops(words: &[&str]) -> OperatorList {
    let elems = words.iter().map(|w| MetaAtom::Str(w.to_string())).collect();
    OperatorList::from_meta(&MetaExpr::Array(elems)).expect("operators")
}

fn fields_spec(name: &str, fields: &[&str]) -> MethodSpec {
    MethodSpec {
        method_name: name.to_string(),
        filter: MethodFilterSpec::Fields(fields.iter().map(|f| f.to_string()).collect()),
    }
}

fn raw_spec(name: &str, template: &str) -> MethodSpec {
    MethodSpec { method_name: name.to_string(), filter: MethodFilterSpec::Raw(template.to_string()) }
}

fn model(attrs: TableAttrs) -> TableModel {
    TableModel::from_attrs(attrs).expect("a model")
}

fn with_upsert(mut f: FieldAttrs) -> FieldAttrs {
    f.upsert = true;
    f
}

fn with_update(mut f: FieldAttrs) -> FieldAttrs {
    f.update = true;
    f
}

fn with_as_type(mut f: FieldAttrs, t: &str) -> FieldAttrs {
    f.as_type = Some(t.to_string());
    f
}

// --- insert ---------------------------------------------------------------

#[test]
fn plain_insert_has_no_on_conflict_clause() {
    let m = model(table_attrs("CreateUser", vec![field("email")]));
    let plan = insert::expand(&m);
    assert!(!plan.query.contains("ON CONFLICT"));
}

#[test]
fn plain_columns_bind_without_a_cast() {
    let m = model(table_attrs("CreateUser", vec![field("email"), field("is_active")]));
    let plan = insert::expand(&m);
    assert!(plan.binds.iter().all(|b| !b.cast));
}

#[test]
fn as_type_column_binds_with_a_cast_others_do_not() {
    let m = model(table_attrs("CreateUser", vec![field("email"), with_as_type(field("role"), "role!: Role")]));
    let plan = insert::expand(&m);
    assert_eq!(m.columns[plan.binds[0].column].ident, "email");
    assert!(!plan.binds[0].cast);
    assert_eq!(m.columns[plan.binds[1].column].ident, "role");
    assert!(plan.binds[1].cast);
}

#[test]
fn insert_column_list_has_no_as_annotation() {
    let m = model(table_attrs("CreateUser", vec![with_as_type(field("role"), "role!: Role")]));
    let plan = insert::expand(&m);
    assert!(plan.query.contains("INSERT INTO create_users (role)"));
}

#[test]
fn insert_upsert_target_generates_on_conflict_do_update() {
    let m = model(table_attrs("CreateUser", vec![with_upsert(field("email")), field("is_active")]));
    let plan = insert::expand(&m);
    assert!(plan.query.contains("ON CONFLICT (email) DO UPDATE SET is_active=EXCLUDED.is_active"));
}

#[test]
fn upsert_with_every_field_as_target_does_nothing_on_conflict() {
    let m = model(table_attrs("CreateUser", vec![with_upsert(field("email"))]));
    let plan = insert::expand(&m);
    assert!(plan.query.contains("ON CONFLICT (email) DO NOTHING"));
}

#[test]
fn insert_query_with_return_fields() {
    let mut attrs = table_attrs("UpsertUser", vec![with_upsert(field("email")), field("is_active")]);
    attrs.name = Some(sql_macros_derive::attrs::QuotedString("users".to_string()));
    attrs.return_type = Some(sql_macros_derive::attrs::TypeExpr(ty("User")));
    attrs.return_fields = Some(sql_macros_derive::attrs::QuotedString("id, email".to_string()));
    let m = model(attrs);
    let plan = insert::expand(&m);
    assert!(plan.has_returning);
    assert_eq!(
        plan.query,
        "INSERT INTO users (email, is_active) VALUES ($1,$2) ON CONFLICT (email) DO UPDATE SET is_active=EXCLUDED.is_active RETURNING id, email"
    );
}

#[test]
fn insert_without_return_type_has_no_returning() {
    let mut attrs = table_attrs("CreateUser", vec![field("email")]);
    attrs.name = Some(sql_macros_derive::attrs::QuotedString("users".to_string()));
    let m = model(attrs);
    let plan = insert::expand(&m);
    assert!(!plan.has_returning);
    assert_eq!(plan.query, "INSERT INTO users (email) VALUES ($1)");
}

#[test]
fn insert_with_return_type_returns_everything_by_default() {
    let mut attrs = table_attrs("CreateUser", vec![field("email")]);
    attrs.name = Some(sql_macros_derive::attrs::QuotedString("users".to_string()));
    attrs.return_type = Some(sql_macros_derive::attrs::TypeExpr(ty("User")));
    let m = model(attrs);
    assert_eq!(insert::expand(&m).query, "INSERT INTO users (email) VALUES ($1) RETURNING *");
}

#[test]
fn eleven_columns_number_placeholders_in_decimal() {
    let names: Vec<String> = (0..11).map(|i| format!("c{i}")).collect();
    let m = model(table_attrs("Wide", names.iter().map(|n| field(n)).collect()));
    assert!(insert::expand(&m).query.ends_with("VALUES ($1,$2,$3,$4,$5,$6,$7,$8,$9,$10,$11)"));
}

// --- insert_many ----------------------------------------------------------

#[test]
fn plain_insert_many_has_no_on_conflict_clause() {
    let m = model(table_attrs("CreateUser", vec![field("email")]));
    let plan = insert_many::expand(&m);
    assert!(plan.upsert_clause.is_none());
    assert!(!plan.doc.contains("ON CONFLICT"));
}

#[test]
fn insert_many_upsert_target_generates_on_conflict_do_update() {
    let m = model(table_attrs("CreateUser", vec![with_upsert(field("email")), field("is_active")]));
    let plan = insert_many::expand(&m);
    assert!(plan
        .upsert_clause
        .unwrap()
        .contains("ON CONFLICT (email) DO UPDATE SET is_active=EXCLUDED.is_active"));
}

#[test]
fn insert_many_plan_with_returning() {
    let mut attrs = table_attrs("CreateUser", vec![field("email")]);
    attrs.name = Some(sql_macros_derive::attrs::QuotedString("users".to_string()));
    attrs.return_type = Some(sql_macros_derive::attrs::TypeExpr(ty("User")));
    let m = model(attrs);
    let plan = insert_many::expand(&m);
    assert_eq!(plan.insert_prefix, "INSERT INTO users (email) ");
    assert_eq!(plan.returning.as_deref(), Some("*"));
    assert_eq!(plan.doc, "INSERT INTO users (email) VALUES (...), (...), ... RETURNING *");
    assert_eq!(plan.binds, vec![0]);
}

// --- update ---------------------------------------------------------------

#[test]
fn custom_update_with_all_fields_as_filters_is_an_error() {
    let mut attrs = table_attrs("User", vec![field("id")]);
    attrs.custom_update = vec![fields_spec("touch", &["id"])];
    let m = model(attrs);
    let errs = update::expand(&m).unwrap_err();
    assert!(errs[0].message.contains("no columns left to SET"));
    assert_eq!(errs[0].site, Site::Method(MethodKind::Update, 0));
}

#[test]
fn set_clause_with_multiple_columns_is_comma_joined_not_and_joined() {
    let m = model(table_attrs("User", vec![with_update(field("id")), field("email"), field("is_active")]));
    let methods = update::expand(&m).unwrap();
    assert!(methods[0].query.contains("SET email=$1, is_active=$2"));
}

#[test]
fn only_as_type_columns_bind_with_a_cast() {
    let m = model(table_attrs(
        "User",
        vec![with_update(field("id")), field("email"), with_as_type(field("role"), "role!: Role")],
    ));
    let methods = update::expand(&m).unwrap();
    let method = &methods[0];
    let set: Vec<(String, bool)> =
        method.column_binds.iter().map(|b| (m.columns[b.column].ident.clone(), b.cast)).collect();
    assert_eq!(set, vec![("email".to_string(), false), ("role".to_string(), true)]);
    let filters: Vec<(String, bool)> =
        method.filter_binds.iter().map(|b| (m.columns[b.column].ident.clone(), b.cast)).collect();
    assert_eq!(filters, vec![("id".to_string(), false)]);
}

#[test]
fn raw_filter_where_placeholders_are_numbered_after_the_set_columns() {
    let mut attrs = table_attrs("RestoreUser", vec![with_update(field("id")), field("email"), field("is_removed")]);
    attrs.custom_update = vec![raw_spec("restore_by_id_if_removed", "id=$id AND is_removed=$is_removed")];
    let m = model(attrs);
    let methods = update::expand(&m).unwrap();
    assert!(methods
        .iter()
        .any(|x| x.query.contains("UPDATE restore_users SET email=$1 WHERE id=$2 AND is_removed=$3")));
}

#[test]
fn no_update_filter_marked_generates_no_default_method() {
    let m = model(table_attrs("User", vec![field("id"), field("email")]));
    let methods = update::expand(&m).unwrap();
    assert!(methods.iter().all(|x| !x.method_name.starts_with("update")));
    assert!(methods.is_empty());
}

#[test]
fn two_update_filter_fields_generate_two_independent_methods() {
    let m = model(table_attrs(
        "User",
        vec![with_update(field("id")), with_update(field("email")), field("is_active")],
    ));
    let methods = update::expand(&m).unwrap();
    assert_eq!(methods[0].method_name, "update_by_id");
    assert!(methods[0].query.contains("SET email=$1, is_active=$2 WHERE id=$3"));
    assert_eq!(methods[1].method_name, "update_by_email");
    assert!(methods[1].query.contains("SET id=$1, is_active=$2 WHERE email=$3"));
}

#[test]
fn op_list_on_an_update_filter_generates_one_method_per_operator() {
    let mut age = with_update(field("age"));
    age.op = Some(ops(&["gt", "lt"]));
    let m = model(table_attrs("User", vec![age, field("email")]));
    let methods = update::expand(&m).unwrap();
    assert_eq!(methods[0].method_name, "update_by_age_gt");
    assert!(methods[0].query.contains("WHERE age>$2"));
    assert_eq!(methods[1].method_name, "update_by_age_lt");
    assert!(methods[1].query.contains("WHERE age<$2"));
}

#[test]
fn custom_update_method_field_list_ignores_a_fields_own_op() {
    let mut age = with_update(field("age"));
    age.op = Some(ops(&["gt"]));
    let mut attrs = table_attrs("User", vec![age, field("email")]);
    attrs.custom_update = vec![fields_spec("touch_age", &["age"])];
    let m = model(attrs);
    let methods = update::expand(&m).unwrap();
    let touch = methods.iter().find(|x| x.method_name == "touch_age").unwrap();
    assert!(touch.query.contains("WHERE age=$2"));
}

#[test]
fn update_with_spec_columns_and_return_fields() {
    let mut attrs = table_attrs("UpdateUser", vec![with_update(field("id")), field("email")]);
    attrs.name = Some(sql_macros_derive::attrs::QuotedString("users".to_string()));
    attrs.spec_columns = Some(sql_macros_derive::attrs::QuotedString("updated_at=NOW()".to_string()));
    attrs.return_type = Some(sql_macros_derive::attrs::TypeExpr(ty("UpdateUserResponse")));
    attrs.return_fields = Some(sql_macros_derive::attrs::QuotedString("id".to_string()));
    let m = model(attrs);
    let methods = update::expand(&m).unwrap();
    assert_eq!(methods[0].query, "UPDATE users SET email=$1, updated_at=NOW() WHERE id=$2 RETURNING id");
    assert!(methods[0].has_returning);
}

#[test]
fn update_single_field_struct_has_nothing_to_set() {
    let m = model(table_attrs("User", vec![with_update(field("id"))]));
    let errs = update::expand(&m).unwrap_err();
    assert_eq!(errs[0].message, "`update_by_id` has no columns left to SET: every field is used as a WHERE filter");
    assert_eq!(errs[0].site, Site::Column(0));
}

#[test]
fn custom_update_by_email_sets_every_other_field() {
    let mut attrs = table_attrs("User", vec![field("id"), field("email"), field("is_active"), field("is_removed")]);
    attrs.custom_update = vec![fields_spec("update_by_email", &["email"])];
    let m = model(attrs);
    let methods = update::expand(&m).unwrap();
    assert_eq!(methods[0].query, "UPDATE users SET id=$1, is_active=$2, is_removed=$3 WHERE email=$4");
}

// --- select / select_many / delete / select_all / table ---------------------

#[test]
fn select_by_id_query() {
    let mut id = field("id");
    id.select = true;
    let m = model(table_attrs("User", vec![id, field("email")]));
    let methods = select::expand(&m).unwrap();
    assert_eq!(methods.len(), 1);
    assert_eq!(methods[0].method_name, "select_by_id");
    assert_eq!(methods[0].query, "SELECT id, email FROM users WHERE id=$1");
    assert_eq!(methods[0].args, vec![0]);
}

#[test]
fn select_with_enum_column_uses_its_annotation() {
    let mut id = field("id");
    id.select = true;
    let m = model(table_attrs("User", vec![id, field("email"), with_as_type(field("role"), "role!: Role")]));
    let methods = select::expand(&m).unwrap();
    assert_eq!(methods[0].query, "SELECT id, email, role AS \"role!: Role\" FROM users WHERE id=$1");
}

#[test]
fn select_many_operator_variants_are_suffixed() {
    let mut id = field("id");
    id.select_many = true;
    id.op = Some(ops(&["gt", "lt"]));
    let m = model(table_attrs("User", vec![field("email"), id]));
    let methods = select_many::expand(&m).unwrap();
    assert_eq!(methods[0].method_name, "select_many_by_id_gt");
    assert_eq!(methods[0].query, "SELECT email, id FROM users WHERE id>$1");
    assert_eq!(methods[1].method_name, "select_many_by_id_lt");
    assert_eq!(methods[1].query, "SELECT email, id FROM users WHERE id<$1");
}

#[test]
fn select_many_in_takes_a_slice() {
    let mut id = field("id");
    id.select_many = true;
    id.op = Some(ops(&["in"]));
    let m = model(table_attrs("User", vec![field("email"), id]));
    let methods = select_many::expand(&m).unwrap();
    assert_eq!(methods[0].method_name, "select_many_by_id_in");
    assert_eq!(methods[0].query, "SELECT email, id FROM users WHERE id = ANY($1)");
    assert!(methods[0].params[0].slice);
}

#[test]
fn custom_select_many_with_raw_template() {
    let mut attrs = table_attrs("User", vec![field("id"), field("email"), field("is_active"), field("is_removed")]);
    attrs.custom_select_many =
        vec![raw_spec("search_users", "email=$email OR (is_active=$is_active AND NOT is_removed=$is_removed)")];
    let m = model(attrs);
    let methods = select_many::expand(&m).unwrap();
    assert_eq!(methods[0].method_name, "search_users");
    assert_eq!(
        methods[0].query,
        "SELECT id, email, is_active, is_removed FROM users WHERE email=$1 OR (is_active=$2 AND NOT is_removed=$3)"
    );
    assert_eq!(methods[0].args, vec![1, 2, 3]);
    assert!(methods[0].params.iter().all(|p| !p.slice));
}

#[test]
fn custom_select_with_two_fields() {
    let mut attrs = table_attrs("User", vec![field("id"), field("email"), field("is_active"), field("is_removed")]);
    attrs.custom_select = vec![fields_spec("get_active_user", &["is_active", "is_removed"])];
    let m = model(attrs);
    let methods = select::expand(&m).unwrap();
    assert_eq!(
        methods[0].query,
        "SELECT id, email, is_active, is_removed FROM users WHERE is_active=$1 AND is_removed=$2"
    );
}

#[test]
fn select_reports_every_bad_custom_method() {
    let mut attrs = table_attrs("User", vec![field("id")]);
    attrs.custom_select = vec![fields_spec("a", &["id", "x"]), fields_spec("b", &["id"]), raw_spec("c", "$y")];
    let m = model(attrs);
    let errs = select::expand(&m).unwrap_err();
    assert_eq!(errs.len(), 2);
    assert_eq!(errs[0].message, "`x` is not a field of `User`");
    assert_eq!(errs[0].site, Site::MethodField(MethodKind::Select, 0, 1));
    assert_eq!(errs[1].message, "`y` is not a field of `User`");
    assert_eq!(errs[1].site, Site::Method(MethodKind::Select, 2));
}

#[test]
fn delete_by_id_query() {
    let mut id = field("id");
    id.delete = true;
    let mut attrs = table_attrs("User", vec![id, field("is_active"), field("is_removed")]);
    attrs.custom_delete = vec![fields_spec("delete_inactive", &["is_active", "is_removed"])];
    let m = model(attrs);
    let methods = delete::expand(&m).unwrap();
    assert_eq!(methods[0].method_name, "delete_by_id");
    assert_eq!(methods[0].query, "DELETE FROM users WHERE id=$1");
    assert_eq!(methods[1].method_name, "delete_inactive");
    assert_eq!(methods[1].query, "DELETE FROM users WHERE is_active=$1 AND is_removed=$2");
}

#[test]
fn select_all_query() {
    let m = model(table_attrs("User", vec![field("id"), field("email")]));
    assert_eq!(select_all::expand(&m), "SELECT id, email FROM users");
}

#[test]
fn table_info_of_user_todo() {
    let m = model(table_attrs("UserTodo", vec![field("id"), field("user_id"), field("todo_id")]));
    let info = table::expand(&m);
    assert_eq!(info.name, "user_todos");
    assert_eq!(info.fields, vec!["id", "user_id", "todo_id"]);
    assert_eq!(info.sql_columns, vec!["id", "user_id", "todo_id"]);
}
