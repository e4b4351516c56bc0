use sql_macros_derive::attrs::{FieldAttrs, MethodFilterSpec, MethodSpec, Operator, TableAttrs};
use sql_macros_derive::model::{render_custom_where, upsert_clause, MethodKind, RawSegment, TableModel};
use sql_macros_derive::select::method_name;

fn field(name: &str) -> FieldAttrs {
    FieldAttrs {
        ident: Some(name.to_string()),
        ty: syn::parse_str::<syn::Type>("i32").unwrap(),
        select: false,
        select_many: false,
        update: false,
        delete: false,
        upsert: false,
        as_type: None,
        op: None,
    }
}

fn model(names: &[&str]) -> TableModel {
    TableModel::from_attrs(TableAttrs {
        ident: "Thing".to_string(),
        data: names.iter().map(|n| field(n)).collect(),
        name: None,
        spec_columns: None,
        return_type: None,
        return_fields: None,
        custom_select: Vec::new(),
        custom_select_many: Vec::new(),
        custom_delete: Vec::new(),
        custom_update: Vec::new(),
    })
    .expect("a model")
}

fn source_of(m: &TableModel, segments: &[RawSegment]) -> String {
    segments
        .iter()
        .map(|s| match s {
            RawSegment::Text(t) => t.clone(),
            RawSegment::Field(c) => format!("${}", m.columns[*c].ident),
        })
        .collect()
}

#[test]
fn raw_template_pieces_write_back_to_the_template() {
    let m = model(&["id", "email", "a_b"]);
    for template in ["$email OR $$id", "x$ $1 $email$id", "(a_b=$a_b)", "$", "plain text"] {
        let (_, segments) = m.parse_raw_template(sql_macros_derive::model::Site::Struct, template).unwrap();
        assert_eq!(source_of(&m, &segments), template);
    }
}

#[test]
fn raw_template_text_runs_are_maximal() {
    let m = model(&["id"]);
    let (filters, segments) = m.parse_raw_template(sql_macros_derive::model::Site::Struct, "a $1 b $id c $id").unwrap();
    assert_eq!(
        segments,
        vec![
            RawSegment::Text("a $1 b ".to_string()),
            RawSegment::Field(0),
            RawSegment::Text(" c ".to_string()),
            RawSegment::Field(0),
        ]
    );
    assert_eq!(filters, vec![0]);
}

#[test]
fn upsert_clause_without_targets_is_absent() {
    let m = model(&["email", "is_active"]);
    assert_eq!(upsert_clause(&m.columns, &vec![0, 1], &Vec::new()), None);
    assert_eq!(
        upsert_clause(&m.columns, &vec![0, 1], &vec![0, 1]).as_deref(),
        Some(" ON CONFLICT (email, is_active) DO NOTHING")
    );
}

#[test]
fn every_operator_variant_of_a_field_has_its_own_method_name() {
    let ops = [
        Operator::Eq,
        Operator::Gt,
        Operator::Lt,
        Operator::Gte,
        Operator::Lte,
        Operator::Like,
        Operator::Ilike,
        Operator::In,
        Operator::NotIn,
    ];
    let names: Vec<String> = ops.iter().map(|&op| method_name(MethodKind::Select, "age", op)).collect();
    assert_eq!(names[0], "select_by_age");
    assert_eq!(names[8], "select_by_age_not_in");
    for a in 0..names.len() {
        for b in 0..names.len() {
            assert_eq!(names[a] == names[b], a == b);
        }
    }
}

#[test]
fn raw_template_placeholders_match_exactly_when_the_column_does() {
    let mut m = model(&["a", "b", "c", "d", "e", "f", "g", "h", "i", "j", "k"]);
    m.custom_select_many = vec![MethodSpec {
        method_name: "search".to_string(),
        filter: MethodFilterSpec::Raw("$k $a $k $b $c $d $e $f $g $h $i $j $a".to_string()),
    }];
    let methods = m.resolve_all(MethodKind::SelectMany, &m.custom_select_many).unwrap();
    assert_eq!(
        render_custom_where(&m.columns, &methods[0], 0),
        "$1 $2 $1 $3 $4 $5 $6 $7 $8 $9 $10 $11 $2"
    );
}

#[test]
fn snake_case_of_ascii_names_has_no_uppercase_and_is_stable() {
    for name in ["HTTPServer", "OrganizationMember", "UserTodo2Fa", "already_snake", "ABC", "aB1C_d"] {
        let r = sql_macros_derive::model::to_snake_case(name);
        assert!(!r.chars().any(|c| c.is_ascii_uppercase()));
        assert_eq!(sql_macros_derive::model::to_snake_case(&r), r);
    }
}

#[test]
fn std_case_tables_agree_on_ascii() {
    assert!(sql_macros_derive::model::ascii_case_agrees());
    assert_eq!(model(&["id"]).table_name, "things");
    assert_eq!(sql_macros_derive::model::to_snake_case("User"), "user");
}

#[test]
fn raw_template_renders_with_first_reference_ranks_and_keeps_other_text() {
    let mut m = model(&["email", "phone", "age"]);
    m.custom_select = vec![MethodSpec {
        method_name: "find".to_string(),
        filter: MethodFilterSpec::Raw("(phone=$phone OR email=$email) AND $1 < $phone$".to_string()),
    }];
    let methods = m.resolve_all(MethodKind::Select, &m.custom_select).unwrap();
    assert_eq!(
        render_custom_where(&m.columns, &methods[0], 4),
        "(phone=$5 OR email=$6) AND $1 < $5$"
    );
}
