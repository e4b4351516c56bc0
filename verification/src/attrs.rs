//! Plain values of the `#[table(...)]` attribute and their parsing rules.

use vstd::prelude::*;

verus! {

/// The comparison operator a filter field uses in its own single-field methods.
#[derive(Debug, Clone, Copy, PartialEq, Eq, Structural)]
pub enum Operator {
    Eq,
    Gt,
    Lt,
    Gte,
    Lte,
    Like,
    /// Postgres-specific case-insensitive `LIKE`.
    Ilike,
    /// `field = ANY($n)`, compared against a slice.
    In,
    /// `field != ALL($n)`, compared against a slice.
    NotIn,
}

/// The SQL text of an infix operator; `In` and `NotIn` have none.
pub open spec fn symbol_of(op: Operator) -> Seq<char> {
    match op {
        Operator::Eq => seq!['='],
        Operator::Gt => seq!['>'],
        Operator::Lt => seq!['<'],
        Operator::Gte => seq!['>', '='],
        Operator::Lte => seq!['<', '='],
        Operator::Like => seq!['L', 'I', 'K', 'E'],
        Operator::Ilike => seq!['I', 'L', 'I', 'K', 'E'],
        _ => Seq::empty(),
    }
}

impl Operator {
    /// The infix symbol; `In`/`NotIn` are rendered as `= ANY`/`!= ALL` instead.
    pub fn sql_symbol(self) -> (r: &'static str)
        requires
            !(self is In || self is NotIn),
        ensures
            r@ == symbol_of(self),
    {
        proof {
            reveal_strlit("=");
            reveal_strlit(">");
            reveal_strlit("<");
            reveal_strlit(">=");
            reveal_strlit("<=");
            reveal_strlit("LIKE");
            reveal_strlit("ILIKE");
        }
        match self {
            Operator::Eq => "=",
            Operator::Gt => ">",
            Operator::Lt => "<",
            Operator::Gte => ">=",
            Operator::Lte => "<=",
            Operator::Like => "LIKE",
            Operator::Ilike => "ILIKE",
            Operator::In => "",
            Operator::NotIn => "",
        }
    }
}


/// The word naming an operator in `op = "..."` and in generated method names.
pub open spec fn word_of(op: Operator) -> Seq<char> {
    match op {
        Operator::Eq => "eq"@,
        Operator::Gt => "gt"@,
        Operator::Lt => "lt"@,
        Operator::Gte => "gte"@,
        Operator::Lte => "lte"@,
        Operator::Like => "like"@,
        Operator::Ilike => "ilike"@,
        Operator::In => "in"@,
        Operator::NotIn => "not_in"@,
    }
}

/// The operator that `op = "<name>"` selects, if any.
pub open spec fn operator_named(name: Seq<char>) -> Option<Operator> {
    if name == "eq"@ {
        Some(Operator::Eq)
    } else if name == "gt"@ {
        Some(Operator::Gt)
    } else if name == "lt"@ {
        Some(Operator::Lt)
    } else if name == "gte"@ {
        Some(Operator::Gte)
    } else if name == "lte"@ {
        Some(Operator::Lte)
    } else if name == "like"@ {
        Some(Operator::Like)
    } else if name == "ilike"@ {
        Some(Operator::Ilike)
    } else if name == "in"@ {
        Some(Operator::In)
    } else if name == "not_in"@ {
        Some(Operator::NotIn)
    } else {
        None
    }
}

/// Every operator's word selects that operator again: the names used in
/// `op = "..."` and the suffixes of generated method names are the same words.
pub proof fn lemma_operator_word_roundtrip(op: Operator)
    ensures
        operator_named(word_of(op)) == Some(op),
{
    reveal_strlit("eq");
    reveal_strlit("gt");
    reveal_strlit("lt");
    reveal_strlit("gte");
    reveal_strlit("lte");
    reveal_strlit("like");
    reveal_strlit("ilike");
    reveal_strlit("in");
    reveal_strlit("not_in");
    assert("eq"@[0] == 'e' && "gt"@[0] == 'g' && "lt"@[0] == 'l' && "in"@[0] == 'i');
    assert("gte"@[0] == 'g' && "lte"@[0] == 'l' && "like"@[0] == 'l' && "ilike"@[0] == 'i');
    assert("not_in"@[0] == 'n' && "eq"@[1] == 'q' && "in"@[1] == 'n' && "ilike"@[1] == 'l');
    assert("gte"@.len() == 3 && "lte"@.len() == 3 && "like"@.len() == 4 && "gt"@.len() == 2);
    assert("lt"@.len() == 2 && "ilike"@.len() == 5 && "in"@.len() == 2 && "eq"@.len() == 2);
}

/// `op = "<word>"` with the word of an operator (the suffix of that
/// operator's generated method names) parses back to that operator, alone
/// or as a one-element list.
pub proof fn lemma_operator_word_parses(op: Operator, word: String)
    requires
        word@ == word_of(op),
    ensures
        operator_from_atom(MetaAtom::Str(word), MetaSite::Whole) == Ok::<Operator, (Seq<char>, MetaSite)>(op),
        operator_list_from(MetaExpr::Atom(MetaAtom::Str(word))) == Ok::<Seq<Operator>, (Seq<char>, MetaSite)>(seq![op]),
{
    lemma_operator_word_roundtrip(op);
}

/// The documented words of `op = "..."`: each of `eq`, `gt`, `lt`, `gte`,
/// `lte`, `like`, `ilike`, `in`, `not_in` selects its own operator, and any
/// other string is refused as an unknown operator.
pub proof fn lemma_operator_keywords(s: String, site: MetaSite)
    ensures
        s@ == "eq"@ <==> operator_from_atom(MetaAtom::Str(s), site) == Ok::<Operator, (Seq<char>, MetaSite)>(Operator::Eq),
        s@ == "gt"@ <==> operator_from_atom(MetaAtom::Str(s), site) == Ok::<Operator, (Seq<char>, MetaSite)>(Operator::Gt),
        s@ == "lt"@ <==> operator_from_atom(MetaAtom::Str(s), site) == Ok::<Operator, (Seq<char>, MetaSite)>(Operator::Lt),
        s@ == "gte"@ <==> operator_from_atom(MetaAtom::Str(s), site) == Ok::<Operator, (Seq<char>, MetaSite)>(Operator::Gte),
        s@ == "lte"@ <==> operator_from_atom(MetaAtom::Str(s), site) == Ok::<Operator, (Seq<char>, MetaSite)>(Operator::Lte),
        s@ == "like"@ <==> operator_from_atom(MetaAtom::Str(s), site) == Ok::<Operator, (Seq<char>, MetaSite)>(Operator::Like),
        s@ == "ilike"@ <==> operator_from_atom(MetaAtom::Str(s), site) == Ok::<Operator, (Seq<char>, MetaSite)>(Operator::Ilike),
        s@ == "in"@ <==> operator_from_atom(MetaAtom::Str(s), site) == Ok::<Operator, (Seq<char>, MetaSite)>(Operator::In),
        s@ == "not_in"@ <==> operator_from_atom(MetaAtom::Str(s), site) == Ok::<Operator, (Seq<char>, MetaSite)>(Operator::NotIn),
        !(s@ == "eq"@ || s@ == "gt"@ || s@ == "lt"@ || s@ == "gte"@ || s@ == "lte"@ || s@ == "like"@
            || s@ == "ilike"@ || s@ == "in"@ || s@ == "not_in"@) ==> operator_from_atom(MetaAtom::Str(s), site)
            == Err::<Operator, (Seq<char>, MetaSite)>((msg_unknown_op(s@), site)),
{
    reveal_strlit("eq");
    reveal_strlit("gt");
    reveal_strlit("lt");
    reveal_strlit("gte");
    reveal_strlit("lte");
    reveal_strlit("like");
    reveal_strlit("ilike");
    reveal_strlit("in");
    reveal_strlit("not_in");
    assert("eq"@[0] == 'e' && "gt"@[0] == 'g' && "lt"@[0] == 'l' && "in"@[0] == 'i');
    assert("gte"@[0] == 'g' && "lte"@[0] == 'l' && "like"@[0] == 'l' && "ilike"@[0] == 'i');
    assert("not_in"@[0] == 'n' && "eq"@[1] == 'q' && "in"@[1] == 'n' && "ilike"@[1] == 'l');
    assert("gte"@.len() == 3 && "lte"@.len() == 3 && "like"@.len() == 4 && "gt"@.len() == 2);
    assert("lt"@.len() == 2 && "ilike"@.len() == 5 && "in"@.len() == 2 && "eq"@.len() == 2);
    assert("not_in"@.len() == 6);
}

/// The word naming each operator, as written in `op = "..."` and in the
/// suffix of generated method names.
pub proof fn lemma_operator_word_text()
    ensures
        word_of(Operator::Eq) == "eq"@,
        word_of(Operator::Gt) == "gt"@,
        word_of(Operator::Lt) == "lt"@,
        word_of(Operator::Gte) == "gte"@,
        word_of(Operator::Lte) == "lte"@,
        word_of(Operator::Like) == "like"@,
        word_of(Operator::Ilike) == "ilike"@,
        word_of(Operator::In) == "in"@,
        word_of(Operator::NotIn) == "not_in"@,
{
}

/// An attribute value expression that is not a list or a call, as far as
/// the attribute rules read it.
#[derive(Debug, PartialEq, Eq)]
pub enum MetaAtom {
    /// A string literal, with its value.
    Str(String),
    /// A path; `Some(name)` when the path is a single identifier.
    Path(Option<String>),
    /// Any other expression.
    Other,
}

/// An attribute value expression: `"users"`, `users`, `["gt", "lt"]`, or
/// `name(field1, field2)`.
#[derive(Debug, PartialEq, Eq)]
pub enum MetaExpr {
    Atom(MetaAtom),
    /// An array literal and its elements.
    Array(Vec<MetaAtom>),
    /// A call expression: the callee and its arguments.
    Call(MetaAtom, Vec<MetaAtom>),
}

/// Which part of an attribute value an error points at.
#[derive(Debug, Clone, Copy, PartialEq, Eq, Structural)]
pub enum MetaSite {
    /// The whole value expression.
    Whole,
    /// The callee of a call expression.
    Func,
    /// An argument of a call, or an element of an array, by position.
    Arg(usize),
}

/// A rejected attribute value: the message and the part it points at.
#[derive(Debug, PartialEq, Eq)]
pub struct MetaError {
    pub message: String,
    pub site: MetaSite,
}

impl MetaError {
    pub open spec fn is(self, message: Seq<char>, site: MetaSite) -> bool {
        self.message@ == message && self.site == site
    }
}

fn meta_error(message: String, site: MetaSite) -> (e: MetaError)
    ensures
        e.message == message,
        e.site == site,
{
    MetaError { message, site }
}

fn text(s: &str) -> (r: String)
    ensures
        r@ == s@,
{
    String::from_str(s)
}

/// A string given as a quoted literal (`name = "users"`).
#[derive(Debug, PartialEq, Eq)]
pub struct QuotedString(pub String);

pub open spec fn msg_bare_ident(id: Seq<char>) -> Seq<char> {
    "expected a quoted string; write `\""@ + id + "\"` instead of `"@ + id + "`"@
}

pub open spec fn msg_not_quoted() -> Seq<char> {
    "expected a quoted string, e.g. `\"users\"`"@
}

impl QuotedString {
    /// A string literal is accepted as is; a bare identifier is refused with
    /// a message that shows it quoted; anything else is refused.
    pub fn from_meta(expr: &MetaExpr) -> (r: Result<QuotedString, MetaError>)
        ensures
            match expr {
                MetaExpr::Atom(MetaAtom::Str(s)) => r == Ok::<QuotedString, MetaError>(QuotedString(*s)),
                MetaExpr::Atom(MetaAtom::Path(Some(id))) => r matches Err(e) && e.is(
                    msg_bare_ident(id@),
                    MetaSite::Whole,
                ),
                _ => r matches Err(e) && e.is(msg_not_quoted(), MetaSite::Whole),
            },
    {
        match expr {
            MetaExpr::Atom(MetaAtom::Str(s)) => Ok(QuotedString(s.clone())),
            MetaExpr::Atom(MetaAtom::Path(Some(id))) => {
                let mut m = text("expected a quoted string; write `\"");
                m.append(id.as_str());
                m.append("\"` instead of `");
                m.append(id.as_str());
                m.append("`");
                Err(meta_error(m, MetaSite::Whole))
            },
            _ => Err(meta_error(text("expected a quoted string, e.g. `\"users\"`"), MetaSite::Whole)),
        }
    }
}

pub open spec fn msg_not_quoted_op() -> Seq<char> {
    "expected a quoted operator, e.g. `op = \"gt\"`"@
}

pub open spec fn msg_unknown_op(name: Seq<char>) -> Seq<char> {
    "unknown operator `"@ + name
        + "`; expected one of: eq, gt, lt, gte, lte, like, ilike, in, not_in"@
}

/// What `op = <atom>` yields, with `site` for an error.
pub open spec fn operator_from_atom(atom: MetaAtom, site: MetaSite) -> Result<Operator, (Seq<char>, MetaSite)> {
    match atom {
        MetaAtom::Str(s) => match operator_named(s@) {
            Some(op) => Ok(op),
            None => Err((msg_unknown_op(s@), site)),
        },
        _ => Err((msg_not_quoted_op(), site)),
    }
}

pub open spec fn error_matches<T>(r: Result<T, MetaError>, e: Result<T, (Seq<char>, MetaSite)>) -> bool {
    match (r, e) {
        (Ok(a), Ok(b)) => a == b,
        (Err(a), Err(b)) => a.is(b.0, b.1),
        _ => false,
    }
}

fn same_as(s: &String, lit: &str) -> (r: bool)
    ensures
        r == (s@ == lit@),
{
    let l = text(lit);
    *s == l
}

impl Operator {
    fn from_atom(atom: &MetaAtom, site: MetaSite) -> (r: Result<Operator, MetaError>)
        ensures
            error_matches(r, operator_from_atom(*atom, site)),
    {
        match atom {
            MetaAtom::Str(s) => {
                if same_as(s, "eq") {
                    Ok(Operator::Eq)
                } else if same_as(s, "gt") {
                    Ok(Operator::Gt)
                } else if same_as(s, "lt") {
                    Ok(Operator::Lt)
                } else if same_as(s, "gte") {
                    Ok(Operator::Gte)
                } else if same_as(s, "lte") {
                    Ok(Operator::Lte)
                } else if same_as(s, "like") {
                    Ok(Operator::Like)
                } else if same_as(s, "ilike") {
                    Ok(Operator::Ilike)
                } else if same_as(s, "in") {
                    Ok(Operator::In)
                } else if same_as(s, "not_in") {
                    Ok(Operator::NotIn)
                } else {
                    let mut m = text("unknown operator `");
                    m.append(s.as_str());
                    m.append("`; expected one of: eq, gt, lt, gte, lte, like, ilike, in, not_in");
                    Err(meta_error(m, site))
                }
            },
            _ => Err(meta_error(text("expected a quoted operator, e.g. `op = \"gt\"`"), site)),
        }
    }

    /// `op = "<word>"`: the operator that the quoted word names.
    pub fn from_meta(expr: &MetaExpr) -> (r: Result<Operator, MetaError>)
        ensures
            match expr {
                MetaExpr::Atom(a) => error_matches(r, operator_from_atom(*a, MetaSite::Whole)),
                _ => r matches Err(e) && e.is(msg_not_quoted_op(), MetaSite::Whole),
            },
    {
        match expr {
            MetaExpr::Atom(a) => Operator::from_atom(a, MetaSite::Whole),
            _ => Err(meta_error(text("expected a quoted operator, e.g. `op = \"gt\"`"), MetaSite::Whole)),
        }
    }
}

/// `op = "gt"` or `op = ["gt", "lt"]`: one method variant per operator.
#[derive(Debug, PartialEq, Eq)]
pub struct OperatorList(pub Vec<Operator>);

pub open spec fn msg_empty_op_list() -> Seq<char> {
    "expected at least one operator in the list"@
}

/// The operators that the first `n` array elements name, or the first
/// element's error.
pub open spec fn operators_from_atoms(elems: Seq<MetaAtom>, n: nat) -> Result<Seq<Operator>, (Seq<char>, MetaSite)>
    decreases n,
{
    if n == 0 {
        Ok(Seq::empty())
    } else {
        match operators_from_atoms(elems, (n - 1) as nat) {
            Ok(ops) => match operator_from_atom(elems[n - 1], MetaSite::Arg((n - 1) as usize)) {
                Ok(op) => Ok(ops.push(op)),
                Err(e) => Err(e),
            },
            Err(e) => Err(e),
        }
    }
}

/// What `op = <expr>` yields.
pub open spec fn operator_list_from(expr: MetaExpr) -> Result<Seq<Operator>, (Seq<char>, MetaSite)> {
    match expr {
        MetaExpr::Array(elems) => match operators_from_atoms(elems@, elems@.len()) {
            Ok(ops) => if ops.len() == 0 {
                Err((msg_empty_op_list(), MetaSite::Whole))
            } else {
                Ok(ops)
            },
            Err(e) => Err(e),
        },
        MetaExpr::Atom(a) => match operator_from_atom(a, MetaSite::Whole) {
            Ok(op) => Ok(seq![op]),
            Err(e) => Err(e),
        },
        MetaExpr::Call(..) => Err((msg_not_quoted_op(), MetaSite::Whole)),
    }
}

impl OperatorList {
    /// A single operator, or a non-empty array of them; the first element
    /// that is not an operator is the error.
    pub fn from_meta(expr: &MetaExpr) -> (r: Result<OperatorList, MetaError>)
        ensures
            match (r, operator_list_from(*expr)) {
                (Ok(list), Ok(ops)) => list.0@ == ops,
                (Err(e), Err(x)) => e.is(x.0, x.1),
                _ => false,
            },
    {
        match expr {
            MetaExpr::Array(elems) => {
                let mut ops: Vec<Operator> = Vec::new();
                let mut i: usize = 0;
                while i < elems.len()
                    invariant
                        i <= elems@.len(),
                        *expr == MetaExpr::Array(*elems),
                        operators_from_atoms(elems@, i as nat) == Ok::<Seq<Operator>, (Seq<char>, MetaSite)>(ops@),
                    decreases elems.len() - i,
                {
                    let op = Operator::from_atom(&elems[i], MetaSite::Arg(i));
                    match op {
                        Ok(op) => ops.push(op),
                        Err(e) => {
                            proof {
                                let n = (i + 1) as nat;
                                assert(operators_from_atoms(elems@, n)
                                    == Err::<Seq<Operator>, (Seq<char>, MetaSite)>((e.message@, e.site)));
                                lemma_first_error_sticks(elems@, n, elems@.len());
                                assert(operator_list_from(*expr)
                                    == Err::<Seq<Operator>, (Seq<char>, MetaSite)>((e.message@, e.site)));
                            }
                            return Err(e);
                        },
                    }
                    i = i + 1;
                }
                if ops.len() == 0 {
                    return Err(meta_error(text("expected at least one operator in the list"), MetaSite::Whole));
                }
                Ok(OperatorList(ops))
            },
            MetaExpr::Atom(a) => match Operator::from_atom(a, MetaSite::Whole) {
                Ok(op) => Ok(OperatorList(vec![op])),
                Err(e) => Err(e),
            },
            MetaExpr::Call(..) => Err(meta_error(text("expected a quoted operator, e.g. `op = \"gt\"`"), MetaSite::Whole)),
        }
    }
}

proof fn lemma_first_error_sticks(elems: Seq<MetaAtom>, n: nat, m: nat)
    requires
        n <= m,
        operators_from_atoms(elems, n) is Err,
    ensures
        operators_from_atoms(elems, m) == operators_from_atoms(elems, n),
    decreases m - n,
{
    if n < m {
        lemma_first_error_sticks(elems, n, (m - 1) as nat);
    }
}

/// The filter side of a custom method: a field list (always `=`,
/// `AND`-joined) or a raw filter template whose `$field` references are
/// the bound-value placeholders.
#[derive(Debug, PartialEq, Eq)]
pub enum MethodFilterSpec {
    Fields(Vec<String>),
    Raw(String),
}

/// `method_name(field1, field2, ...)` or `method_name("$field OR ...")`.
#[derive(Debug, PartialEq, Eq)]
pub struct MethodSpec {
    pub method_name: String,
    pub filter: MethodFilterSpec,
}

/// The plain meaning of a method's filter side.
pub enum FilterShape {
    Fields(Seq<Seq<char>>),
    Raw(Seq<char>),
}

impl MethodFilterSpec {
    pub open spec fn shape(self) -> FilterShape {
        match self {
            MethodFilterSpec::Fields(v) => FilterShape::Fields(v@.map_values(|f: String| f@)),
            MethodFilterSpec::Raw(s) => FilterShape::Raw(s@),
        }
    }
}

pub open spec fn msg_not_a_call() -> Seq<char> {
    "expected `method_name(field1, field2, ...)`"@
}

pub open spec fn msg_no_method_name() -> Seq<char> {
    "expected a method name here"@
}

pub open spec fn msg_method_name_not_ident() -> Seq<char> {
    "method name must be a plain identifier"@
}

pub open spec fn msg_not_a_field() -> Seq<char> {
    "expected a field name"@
}

pub open spec fn msg_field_not_ident() -> Seq<char> {
    "field name must be a plain identifier"@
}

pub open spec fn msg_no_fields() -> Seq<char> {
    "expected at least one field name in parentheses"@
}

/// The field names of the first `n` call arguments, or the first bad one.
pub open spec fn fields_from_args(args: Seq<MetaAtom>, n: nat) -> Result<Seq<Seq<char>>, (Seq<char>, MetaSite)>
    decreases n,
{
    if n == 0 {
        Ok(Seq::empty())
    } else {
        match fields_from_args(args, (n - 1) as nat) {
            Ok(fields) => match args[n - 1] {
                MetaAtom::Path(Some(name)) => Ok(fields.push(name@)),
                MetaAtom::Path(None) => Err((msg_field_not_ident(), MetaSite::Arg((n - 1) as usize))),
                _ => Err((msg_not_a_field(), MetaSite::Arg((n - 1) as usize))),
            },
            Err(e) => Err(e),
        }
    }
}

/// What `select = <expr>` (and the other custom-method keys) yields.
pub open spec fn method_spec_from(expr: MetaExpr) -> Result<(Seq<char>, FilterShape), (Seq<char>, MetaSite)> {
    match expr {
        MetaExpr::Call(func, args) => match func {
            MetaAtom::Path(Some(name)) => {
                if args@.len() == 1 && args@[0] is Str {
                    Ok((name@, FilterShape::Raw(args@[0]->Str_0@)))
                } else {
                    match fields_from_args(args@, args@.len()) {
                        Ok(fields) => if fields.len() == 0 {
                            Err((msg_no_fields(), MetaSite::Whole))
                        } else {
                            Ok((name@, FilterShape::Fields(fields)))
                        },
                        Err(e) => Err(e),
                    }
                }
            },
            MetaAtom::Path(None) => Err((msg_method_name_not_ident(), MetaSite::Func)),
            _ => Err((msg_no_method_name(), MetaSite::Func)),
        },
        _ => Err((msg_not_a_call(), MetaSite::Whole)),
    }
}

proof fn lemma_first_bad_field_sticks(args: Seq<MetaAtom>, n: nat, m: nat)
    requires
        n <= m,
        fields_from_args(args, n) is Err,
    ensures
        fields_from_args(args, m) == fields_from_args(args, n),
    decreases m - n,
{
    if n < m {
        lemma_first_bad_field_sticks(args, n, (m - 1) as nat);
    }
}

impl MethodSpec {
    /// Reads a call-shaped attribute value: a single string argument is a
    /// raw filter template, otherwise every argument must be a field name.
    pub fn from_meta(expr: &MetaExpr) -> (r: Result<MethodSpec, MetaError>)
        ensures
            match (r, method_spec_from(*expr)) {
                (Ok(m), Ok(v)) => m.method_name@ == v.0 && m.filter.shape() == v.1,
                (Err(e), Err(x)) => e.is(x.0, x.1),
                _ => false,
            },
    {
        match expr {
            MetaExpr::Call(func, args) => {
                let method_name = match func {
                    MetaAtom::Path(Some(name)) => name.clone(),
                    MetaAtom::Path(None) => {
                        return Err(meta_error(text("method name must be a plain identifier"), MetaSite::Func));
                    },
                    _ => {
                        return Err(meta_error(text("expected a method name here"), MetaSite::Func));
                    },
                };
                if args.len() == 1 {
                    if let MetaAtom::Str(s) = &args[0] {
                        return Ok(MethodSpec { method_name, filter: MethodFilterSpec::Raw(s.clone()) });
                    }
                }
                let mut fields: Vec<String> = Vec::new();
                let mut i: usize = 0;
                proof {
                    assert(fields@.map_values(|f: String| f@) =~= Seq::<Seq<char>>::empty());
                }
                while i < args.len()
                    invariant
                        i <= args@.len(),
                        *expr == MetaExpr::Call(*func, *args),
                        *func == MetaAtom::Path(Some(method_name)),
                        !(args@.len() == 1 && args@[0] is Str),
                        fields_from_args(args@, i as nat) == Ok::<Seq<Seq<char>>, (Seq<char>, MetaSite)>(
                            fields@.map_values(|f: String| f@)),
                    decreases args.len() - i,
                {
                    match &args[i] {
                        MetaAtom::Path(Some(name)) => {
                            let ghost before = fields@;
                            fields.push(name.clone());
                            proof {
                                assert(fields@.map_values(|f: String| f@) =~= before.map_values(|f: String| f@).push(name@));
                            }
                        },
                        MetaAtom::Path(None) => {
                            proof {
                                assert(fields_from_args(args@, (i + 1) as nat) == Err::<Seq<Seq<char>>, (Seq<char>, MetaSite)>(
                                    (msg_field_not_ident(), MetaSite::Arg(i))));
                                lemma_first_bad_field_sticks(args@, (i + 1) as nat, args@.len());
                            }
                            return Err(meta_error(text("field name must be a plain identifier"), MetaSite::Arg(i)));
                        },
                        _ => {
                            proof {
                                assert(fields_from_args(args@, (i + 1) as nat) == Err::<Seq<Seq<char>>, (Seq<char>, MetaSite)>(
                                    (msg_not_a_field(), MetaSite::Arg(i))));
                                lemma_first_bad_field_sticks(args@, (i + 1) as nat, args@.len());
                            }
                            return Err(meta_error(text("expected a field name"), MetaSite::Arg(i)));
                        },
                    }
                    i = i + 1;
                }
                if fields.len() == 0 {
                    return Err(meta_error(text("expected at least one field name in parentheses"), MetaSite::Whole));
                }
                Ok(MethodSpec { method_name, filter: MethodFilterSpec::Fields(fields) })
            },
            _ => Err(meta_error(text("expected `method_name(field1, field2, ...)`"), MetaSite::Whole)),
        }
    }
}

/// A Rust type as written on a field or in `return_type = ...`, carried
/// through to the generated code unchanged.
#[verifier::external_type_specification]
#[verifier::external_body]
pub struct ExType(syn::Type);

/// Field-level `#[table(...)]`: the field, its filter flags, and its
/// optional `as_type` and `op`.
pub struct FieldAttrs {
    pub ident: Option<String>,
    pub ty: syn::Type,
    pub select: bool,
    pub select_many: bool,
    pub update: bool,
    pub delete: bool,
    /// Part of the `ON CONFLICT (...)` target of an insert.
    pub upsert: bool,
    pub as_type: Option<String>,
    pub op: Option<OperatorList>,
}

/// Struct-level `#[table(...)]`, with the struct's name and its fields.
pub struct TableAttrs {
    pub ident: String,
    pub data: Vec<FieldAttrs>,
    pub name: Option<QuotedString>,
    pub spec_columns: Option<QuotedString>,
    pub return_type: Option<TypeExpr>,
    pub return_fields: Option<QuotedString>,
    pub custom_select: Vec<MethodSpec>,
    pub custom_select_many: Vec<MethodSpec>,
    pub custom_delete: Vec<MethodSpec>,
    pub custom_update: Vec<MethodSpec>,
}

/// An attribute value expression as written, for parsing as a type.
#[verifier::external_type_specification]
#[verifier::external_body]
pub struct ExExpr(syn::Expr);

/// What `syn::parse2::<syn::Type>` gives for the tokens of an attribute
/// value expression: the type, or the parse error's message.
pub uninterp spec fn type_tokens_parse(e: syn::Expr) -> Result<syn::Type, Seq<char>>;

/// Calls `syn::parse2::<syn::Type>` on the tokens of `expr` (from
/// `quote::ToTokens::to_token_stream`). Its result depends on those tokens
/// alone; it is named `type_tokens_parse`, with the error taken as its
/// message text. Which expressions parse as types is not stated.
#[verifier::external_body]
fn parse_type(expr: &syn::Expr) -> (r: Result<syn::Type, String>)
    ensures
        match r {
            Ok(t) => type_tokens_parse(*expr) == Ok::<syn::Type, Seq<char>>(t),
            Err(m) => type_tokens_parse(*expr) == Err::<syn::Type, Seq<char>>(m@),
        },
{
    match syn::parse2::<syn::Type>(quote::ToTokens::to_token_stream(expr)) {
        Ok(t) => Ok(t),
        Err(e) => Err(e.to_string()),
    }
}

/// A type given unquoted: `return_type = User` or `return_type = crate::User`.
pub struct TypeExpr(pub syn::Type);

pub open spec fn msg_not_a_type(reason: Seq<char>) -> Seq<char> {
    "expected a type here: "@ + reason
}

impl TypeExpr {
    /// What `return_type = <expr>` yields once its tokens were parsed as a
    /// type: the type, or the parser's message behind `expected a type here: `.
    pub fn from_parse_result(parsed: Result<syn::Type, String>) -> (r: Result<TypeExpr, MetaError>)
        ensures
            match parsed {
                Ok(t) => r matches Ok(x) && x.0 == t,
                Err(m) => r matches Err(e) && e.is(msg_not_a_type(m@), MetaSite::Whole),
            },
    {
        match parsed {
            Ok(t) => Ok(TypeExpr(t)),
            Err(m) => {
                let mut message = text("expected a type here: ");
                message.append(m.as_str());
                Err(meta_error(message, MetaSite::Whole))
            },
        }
    }

    /// Parses the tokens of an attribute value as a type: the type, or the
    /// parser's message behind `expected a type here: `.
    pub fn from_expr(expr: &syn::Expr) -> (r: Result<TypeExpr, MetaError>)
        ensures
            match type_tokens_parse(*expr) {
                Ok(t) => r matches Ok(x) && x.0 == t,
                Err(m) => r matches Err(e) && e.is(msg_not_a_type(m), MetaSite::Whole),
            },
    {
        let parsed = parse_type(expr);
        TypeExpr::from_parse_result(parsed)
    }
}

} // verus!
