use quote::ToTokens;
use sql_macros_derive::attrs::{MetaAtom, MetaExpr, MetaSite, MethodFilterSpec, MethodSpec, Operator, OperatorList, QuotedString};
use sql_macros_derive::model::{op_word, render_comparison, to_snake_case};

fn s(text: &str) -> MetaAtom {
    MetaAtom::Str(text.to_string())
}

fn ident(text: &str) -> MetaAtom {
    MetaAtom::Path(Some(text.to_string()))
}

#[test]
fn every_operator_word_parses_back_to_its_operator() {
    let all = [
        Operator::Eq,
        Operator::Gt,
        Operator::Lt,
        Operator::Gte,
        Operator::Lte,
        Operator::Like,
        Operator::Ilike,
        Operator::In,
        Operator::NotIn,
    ];
    for op in all {
        let parsed = Operator::from_meta(&MetaExpr::Atom(s(op_word(op)))).unwrap();
        assert_eq!(parsed, op);
    }
}

#[test]
fn sql_symbols_of_infix_operators() {
    assert_eq!(Operator::Eq.sql_symbol(), "=");
    assert_eq!(Operator::Gt.sql_symbol(), ">");
    assert_eq!(Operator::Lt.sql_symbol(), "<");
    assert_eq!(Operator::Gte.sql_symbol(), ">=");
    assert_eq!(Operator::Lte.sql_symbol(), "<=");
    assert_eq!(Operator::Like.sql_symbol(), "LIKE");
    assert_eq!(Operator::Ilike.sql_symbol(), "ILIKE");
}

#[test]
fn comparisons_render_each_operator() {
    assert_eq!(render_comparison("age", Operator::Gte, 12), "age>=$12");
    assert_eq!(render_comparison("age", Operator::Lte, 3), "age<=$3");
    assert_eq!(render_comparison("email", Operator::Like, 1), "email LIKE $1");
    assert_eq!(render_comparison("id", Operator::NotIn, 100), "id != ALL($100)");
}

#[test]
fn unknown_operator_message_lists_the_choices() {
    let err = Operator::from_meta(&MetaExpr::Atom(s("nope"))).unwrap_err();
    assert_eq!(
        err.message,
        "unknown operator `nope`; expected one of: eq, gt, lt, gte, lte, like, ilike, in, not_in"
    );
    assert_eq!(err.site, MetaSite::Whole);
}

#[test]
fn unquoted_operator_is_refused() {
    let err = OperatorList::from_meta(&MetaExpr::Atom(ident("gt"))).unwrap_err();
    assert_eq!(err.message, "expected a quoted operator, e.g. `op = \"gt\"`");
}

#[test]
fn single_operator_is_a_list_of_one() {
    let list = OperatorList::from_meta(&MetaExpr::Atom(s("like"))).unwrap();
    assert_eq!(list, OperatorList(vec![Operator::Like]));
}

#[test]
fn bare_identifier_table_name_is_shown_quoted() {
    let err = QuotedString::from_meta(&MetaExpr::Atom(ident("users"))).unwrap_err();
    assert_eq!(err.message, "expected a quoted string; write `\"users\"` instead of `users`");
    let err = QuotedString::from_meta(&MetaExpr::Atom(MetaAtom::Other)).unwrap_err();
    assert_eq!(err.message, "expected a quoted string, e.g. `\"users\"`");
}

#[test]
fn method_spec_with_field_list() {
    let expr = MetaExpr::Call(ident("get_active_user"), vec![ident("is_active"), ident("is_removed")]);
    let spec = MethodSpec::from_meta(&expr).unwrap();
    assert_eq!(spec.method_name, "get_active_user");
    assert_eq!(
        spec.filter,
        MethodFilterSpec::Fields(vec!["is_active".to_string(), "is_removed".to_string()])
    );
}

#[test]
fn method_spec_with_raw_template() {
    let expr = MetaExpr::Call(ident("search_users"), vec![s("$email OR $phone")]);
    let spec = MethodSpec::from_meta(&expr).unwrap();
    assert_eq!(spec.filter, MethodFilterSpec::Raw("$email OR $phone".to_string()));
}

#[test]
fn method_spec_errors() {
    let err = MethodSpec::from_meta(&MetaExpr::Atom(ident("x"))).unwrap_err();
    assert_eq!(err.message, "expected `method_name(field1, field2, ...)`");
    let err = MethodSpec::from_meta(&MetaExpr::Call(MetaAtom::Other, vec![ident("a")])).unwrap_err();
    assert_eq!((err.message.as_str(), err.site), ("expected a method name here", MetaSite::Func));
    let err = MethodSpec::from_meta(&MetaExpr::Call(MetaAtom::Path(None), vec![ident("a")])).unwrap_err();
    assert_eq!(err.message, "method name must be a plain identifier");
    let err = MethodSpec::from_meta(&MetaExpr::Call(ident("m"), vec![ident("a"), s("b")])).unwrap_err();
    assert_eq!((err.message.as_str(), err.site), ("expected a field name", MetaSite::Arg(1)));
    let err = MethodSpec::from_meta(&MetaExpr::Call(ident("m"), vec![MetaAtom::Path(None)])).unwrap_err();
    assert_eq!((err.message.as_str(), err.site), ("field name must be a plain identifier", MetaSite::Arg(0)));
    let err = MethodSpec::from_meta(&MetaExpr::Call(ident("m"), Vec::new())).unwrap_err();
    assert_eq!(err.message, "expected at least one field name in parentheses");
}

#[test]
fn snake_case_splits_words() {
    assert_eq!(to_snake_case("OrganizationMember"), "organization_member");
    assert_eq!(to_snake_case("HTTPServer"), "http_server");
    assert_eq!(to_snake_case("User2Fa"), "user2_fa");
    assert_eq!(to_snake_case("user"), "user");
    assert_eq!(to_snake_case("ÜberUser"), "über_user");
}

#[test]
fn return_type_parses_a_path_as_a_type() {
    let expr = syn::parse_str::<syn::Expr>("crate::User").unwrap();
    let t = sql_macros_derive::attrs::TypeExpr::from_expr(&expr).ok().unwrap();
    assert_eq!(t.0.to_token_stream().to_string(), "crate :: User");
}

#[test]
fn return_type_that_is_not_a_type_is_refused() {
    let expr = syn::parse_str::<syn::Expr>("1 + 2").unwrap();
    let err = sql_macros_derive::attrs::TypeExpr::from_expr(&expr).err().unwrap();
    assert!(err.message.starts_with("expected a type here: "));
    assert_eq!(err.site, MetaSite::Whole);
    let err = sql_macros_derive::attrs::TypeExpr::from_parse_result(Err("boom".to_string())).err().unwrap();
    assert_eq!(err.message, "expected a type here: boom");
}
