//! The table model every derive reads: columns, the table name, and the
//! custom methods resolved against the columns; and the SQL fragments
//! built from it.

use vstd::prelude::*;
use crate::attrs::{FieldAttrs, MethodSpec, MethodFilterSpec, Operator, OperatorList, QuotedString, TableAttrs};
use crate::text::{chars_of, char_is_alpha, char_is_lower, char_is_numeric, char_is_upper, char_to_lower, is_alpha, is_lower, is_numeric, is_upper, join, join_strings, lower_of, push_char, push_decimal, decimal, concat, lemma_decimal_injective};
use crate::attrs::{symbol_of, word_of};

verus! {

/// One field of the annotated struct, after attribute parsing.
pub struct Column {
    pub ident: String,
    pub ty: syn::Type,
    /// The `SELECT`-list entry: `email`, or `role AS "role!: Role"` with `as_type`.
    pub sql_select_expr: String,
    pub is_select_filter: bool,
    pub is_select_many_filter: bool,
    pub is_update_filter: bool,
    pub is_delete_filter: bool,
    pub is_upsert_target: bool,
    /// Set by `as_type`: the column's bind expression gets an `as _` cast.
    pub has_as_type: bool,
    /// The operators of the column's own single-field methods; `[Eq]` by default.
    pub ops: Vec<Operator>,
}

/// The `SELECT`-list entry of a column named `ident`.
pub open spec fn select_expr_of(ident: Seq<char>, as_type: Option<String>) -> Seq<char> {
    match as_type {
        Some(t) => ident + " AS \""@ + t@ + "\""@,
        None => ident,
    }
}

/// The operators a field's own methods use: its `op` list, or `[Eq]`.
pub open spec fn ops_of(op: Option<OperatorList>) -> Seq<Operator> {
    match op {
        Some(list) => list.0@,
        None => seq![Operator::Eq],
    }
}

/// `c` is the column that field `f` becomes.
pub open spec fn column_from(f: FieldAttrs, c: Column) -> bool {
    &&& f.ident is Some
    &&& c.ident@ == f.ident->0@
    &&& c.ty == f.ty
    &&& c.sql_select_expr@ == select_expr_of(f.ident->0@, f.as_type)
    &&& c.is_select_filter == f.select
    &&& c.is_select_many_filter == f.select_many
    &&& c.is_update_filter == f.update
    &&& c.is_delete_filter == f.delete
    &&& c.is_upsert_target == f.upsert
    &&& c.has_as_type == f.as_type is Some
    &&& c.ops@ == ops_of(f.op)
}

impl Column {
    /// The column for a named field.
    pub fn from_attrs(f: FieldAttrs) -> (c: Column)
        requires
            f.ident is Some,
        ensures
            column_from(f, c),
    {
        let ghost f0 = f;
        let FieldAttrs { ident, ty, select, select_many, update, delete, upsert, as_type, op } = f;
        let ident = match ident {
            Some(i) => i,
            None => String::new(),
        };
        let has_as_type = as_type.is_some();
        let sql_select_expr = match &as_type {
            Some(t) => {
                let mut e = ident.clone();
                e.append(" AS \"");
                e.append(t.as_str());
                e.append("\"");
                e
            },
            None => ident.clone(),
        };
        let ops = match op {
            Some(list) => list.0,
            None => {
                let mut v: Vec<Operator> = Vec::new();
                v.push(Operator::Eq);
                v
            },
        };
        Column {
            ident,
            ty,
            sql_select_expr,
            is_select_filter: select,
            is_select_many_filter: select_many,
            is_update_filter: update,
            is_delete_filter: delete,
            is_upsert_target: upsert,
            has_as_type,
            ops,
        }
    }
}

/// The kind of custom method a diagnostic belongs to.
#[derive(Debug, Clone, Copy, PartialEq, Eq, Structural)]
pub enum MethodKind {
    Select,
    SelectMany,
    Delete,
    Update,
}

/// What a diagnostic points at.
#[derive(Debug, Clone, Copy, PartialEq, Eq, Structural)]
pub enum Site {
    /// The struct's name.
    Struct,
    /// A column (by position) whose own generated method is at fault.
    Column(usize),
    /// The name of a custom method (kind, position among its kind).
    Method(MethodKind, usize),
    /// A field name listed in a custom method (kind, method position, field position).
    MethodField(MethodKind, usize, usize),
}

/// A rejected model or method: the message and what it points at.
#[derive(Debug)]
pub struct Diagnostic {
    pub message: String,
    pub site: Site,
}

impl Diagnostic {
    pub open spec fn is(self, message: Seq<char>, site: Site) -> bool {
        self.message@ == message && self.site == site
    }

    /// A copy of the diagnostic.
    pub fn clone_diagnostic(&self) -> (r: Diagnostic)
        ensures
            r.message@ == self.message@,
            r.site == self.site,
    {
        Diagnostic { message: self.message.clone(), site: self.site }
    }
}

pub(crate) fn diagnostic(message: String, site: Site) -> (d: Diagnostic)
    ensures
        d.message == message,
        d.site == site,
{
    Diagnostic { message, site }
}

// ---------------------------------------------------------------------------
// Table names

/// Where `to_snake_case` puts an underscore before position `i`: an
/// uppercase letter after a lowercase letter or a digit, or an uppercase
/// letter after another uppercase letter and before a lowercase one.
pub open spec fn snake_boundary(s: Seq<char>, i: int) -> bool {
    &&& is_upper(s[i])
    &&& i > 0
    &&& (is_lower(s[i - 1]) || is_numeric(s[i - 1])
        || (is_upper(s[i - 1]) && i + 1 < s.len() && is_lower(s[i + 1])))
}

/// What character `i` of `s` becomes in snake case.
pub open spec fn snake_piece(s: Seq<char>, i: int) -> Seq<char> {
    if is_upper(s[i]) {
        (if snake_boundary(s, i) { seq!['_'] } else { Seq::empty() }) + lower_of(s[i])
    } else {
        seq![s[i]]
    }
}

/// The snake case of the first `n` characters of `s`.
pub open spec fn snake_prefix(s: Seq<char>, n: int) -> Seq<char>
    decreases n,
{
    if n <= 0 {
        Seq::empty()
    } else {
        snake_prefix(s, n - 1) + snake_piece(s, n - 1)
    }
}

/// `OrganizationMember` -> `organization_member`, `HTTPServer` -> `http_server`.
pub open spec fn snake_case(s: Seq<char>) -> Seq<char> {
    snake_prefix(s, s.len() as int)
}

/// Splits a PascalCase name into lowercase words joined by `_`.
pub fn to_snake_case(s: &str) -> (r: String)
    ensures
        r@ == snake_case(s@),
{
    let chars = chars_of(s);
    let mut result = String::new();
    let mut i: usize = 0;
    while i < chars.len()
        invariant
            i <= chars@.len(),
            chars@ == s@,
            result@ == snake_prefix(s@, i as int),
        decreases chars.len() - i,
    {
        let c = chars[i];
        if char_is_upper(c) {
            let boundary = if i > 0 {
                let p = chars[i - 1];
                char_is_lower(p) || char_is_numeric(p) || (char_is_upper(p) && i + 1 < chars.len()
                    && char_is_lower(chars[i + 1]))
            } else {
                false
            };
            if boundary {
                push_char(&mut result, '_');
            }
            let lower = char_to_lower(c);
            let ghost before = result@;
            let mut k: usize = 0;
            while k < lower.len()
                invariant
                    k <= lower@.len(),
                    result@ == before + lower@.take(k as int),
                decreases lower.len() - k,
            {
                push_char(&mut result, lower[k]);
                proof {
                    assert(lower@.take(k + 1) == lower@.take(k as int).push(lower@[k as int]));
                }
                k = k + 1;
            }
            proof {
                assert(lower@.take(lower@.len() as int) == lower@);
            }
        } else {
            push_char(&mut result, c);
        }
        proof {
            assert(snake_prefix(s@, i + 1) == snake_prefix(s@, i as int) + snake_piece(s@, i as int));
        }
        i = i + 1;
    }
    result
}

/// The table name used without `name = "..."`: the struct name in snake
/// case, plus `s`.
pub open spec fn default_table_name(struct_name: Seq<char>) -> Seq<char> {
    snake_case(struct_name) + "s"@
}

/// An ASCII character.
pub open spec fn ascii(c: char) -> bool {
    (c as u32) < 128
}

/// An ASCII uppercase letter, `A` to `Z`.
pub open spec fn ascii_upper(c: char) -> bool {
    65 <= (c as u32) <= 90
}

/// An ASCII lowercase letter, `a` to `z`.
pub open spec fn ascii_lower(c: char) -> bool {
    97 <= (c as u32) <= 122
}

/// `c` with an ASCII uppercase letter turned into its lowercase letter.
pub open spec fn lowered(c: char) -> char {
    if ascii_upper(c) {
        ((c as u32) + 32) as char
    } else {
        c
    }
}

/// What std's case tables say of one ASCII character: it is uppercase
/// exactly when it is `A` to `Z`, and then it lowercases to its letter.
pub open spec fn ascii_case_fact(c: char) -> bool {
    &&& (is_upper(c) <==> ascii_upper(c))
    &&& ascii_upper(c) ==> lower_of(c) == seq![lowered(c)]
}

/// `ascii_case_fact` holds of every ASCII character.
pub open spec fn ascii_case_facts() -> bool {
    forall|c: char| ascii(c) ==> #[trigger] ascii_case_fact(c)
}

/// Asks std, through the same calls `to_snake_case` makes, for the case of
/// each of the 128 ASCII characters; `true` exactly when every answer is the
/// one `ascii_case_facts` states.
pub fn ascii_case_agrees() -> (r: bool)
    ensures
        r == ascii_case_facts(),
{
    let mut k: u8 = 0;
    while k < 128
        invariant
            k <= 128,
            forall|c: char| ascii(c) && (c as u32) < (k as u32) ==> #[trigger] ascii_case_fact(c),
        decreases 128 - k,
    {
        let c = k as char;
        proof {
            assert(c as u32 == k as u32);
        }
        let is_az = 65 <= k && k <= 90;
        let up = char_is_upper(c);
        if up != is_az {
            proof {
                assert(ascii(c) && !ascii_case_fact(c));
            }
            return false;
        }
        if is_az {
            let l = char_to_lower(c);
            let want = (k + 32) as char;
            proof {
                assert(want == lowered(c));
            }
            if l.len() != 1 || l[0] != want {
                proof {
                    assert(ascii(c) && !ascii_case_fact(c)) by {
                        if lower_of(c) == seq![lowered(c)] {
                            assert(l@.len() == 1 && l@[0] == want);
                        }
                    }
                }
                return false;
            }
            proof {
                assert(l@ =~= seq![lowered(c)]);
            }
        }
        proof {
            assert forall|d: char| ascii(d) && (d as u32) < (k as u32) + 1 implies #[trigger] ascii_case_fact(d) by {
                if (d as u32) == (k as u32) {
                    vstd::utf8::char_u32_cast(d, d as u32);
                    vstd::utf8::char_u32_cast(c, c as u32);
                    assert(d == c);
                }
            }
        }
        k = k + 1;
    }
    proof {
        assert forall|d: char| ascii(d) implies #[trigger] ascii_case_fact(d) by {}
    }
    true
}

/// An ASCII digit, `0` to `9`.
pub open spec fn ascii_digit(c: char) -> bool {
    48 <= (c as u32) <= 57
}

/// What std's tables say of one ASCII character's other classes: it is
/// lowercase exactly when it is `a` to `z`, and numeric exactly when it is
/// `0` to `9`.
pub open spec fn ascii_class_fact(c: char) -> bool {
    &&& (is_lower(c) <==> ascii_lower(c))
    &&& (is_numeric(c) <==> ascii_digit(c))
}

/// `ascii_class_fact` holds of every ASCII character.
pub open spec fn ascii_class_facts() -> bool {
    forall|c: char| ascii(c) ==> #[trigger] ascii_class_fact(c)
}

/// Asks std, through the calls `to_snake_case` makes, whether each of the
/// 128 ASCII characters is lowercase and whether it is numeric; `true`
/// exactly when every answer is the one `ascii_class_facts` states.
pub fn ascii_classes_agree() -> (r: bool)
    ensures
        r == ascii_class_facts(),
{
    let mut k: u8 = 0;
    while k < 128
        invariant
            k <= 128,
            forall|c: char| ascii(c) && (c as u32) < (k as u32) ==> #[trigger] ascii_class_fact(c),
        decreases 128 - k,
    {
        let c = k as char;
        proof {
            assert(c as u32 == k as u32);
        }
        let lower = char_is_lower(c);
        let numeric = char_is_numeric(c);
        if lower != (97 <= k && k <= 122) || numeric != (48 <= k && k <= 57) {
            proof {
                assert(ascii(c) && !ascii_class_fact(c));
            }
            return false;
        }
        proof {
            assert forall|d: char| ascii(d) && (d as u32) < (k as u32) + 1 implies #[trigger] ascii_class_fact(d) by {
                if (d as u32) == (k as u32) {
                    vstd::utf8::char_u32_cast(d, d as u32);
                    vstd::utf8::char_u32_cast(c, c as u32);
                    assert(d == c);
                }
            }
        }
        k = k + 1;
    }
    proof {
        assert forall|d: char| ascii(d) implies #[trigger] ascii_class_fact(d) by {}
    }
    true
}

/// Where `to_snake_case` puts an underscore in an ASCII name, under std's
/// ASCII tables: before an uppercase letter that is not first and follows a
/// lowercase letter or a digit, or follows an uppercase letter and precedes
/// a lowercase one (`HTTPServer` splits before the `S`).
pub proof fn lemma_snake_boundary_ascii(s: Seq<char>, i: int)
    requires
        ascii_case_facts(),
        ascii_class_facts(),
        all_ascii(s),
        0 <= i < s.len(),
    ensures
        snake_boundary(s, i) <==> {
            &&& ascii_upper(s[i])
            &&& i > 0
            &&& (ascii_lower(s[i - 1]) || ascii_digit(s[i - 1])
                || (ascii_upper(s[i - 1]) && i + 1 < s.len() && ascii_lower(s[i + 1])))
        },
{
    assert(ascii_case_fact(s[i]));
    if i > 0 {
        assert(ascii(s[i - 1]));
        assert(ascii_case_fact(s[i - 1]) && ascii_class_fact(s[i - 1]));
    }
    if i + 1 < s.len() {
        assert(ascii(s[i + 1]));
        assert(ascii_class_fact(s[i + 1]));
    }
}

/// Every character of `s` is ASCII and none is an uppercase letter.
pub open spec fn ascii_no_upper(s: Seq<char>) -> bool {
    forall|i: int| 0 <= i < s.len() ==> ascii(#[trigger] s[i]) && !ascii_upper(s[i])
}

/// Every character of `s` is ASCII.
pub open spec fn all_ascii(s: Seq<char>) -> bool {
    forall|i: int| 0 <= i < s.len() ==> ascii(#[trigger] s[i])
}

/// `s` without its underscores.
pub open spec fn drop_underscores(s: Seq<char>) -> Seq<char>
    decreases s.len(),
{
    if s.len() == 0 {
        Seq::empty()
    } else if s.last() == '_' {
        drop_underscores(s.drop_last())
    } else {
        drop_underscores(s.drop_last()).push(s.last())
    }
}

proof fn lemma_drop_underscores_add(a: Seq<char>, b: Seq<char>)
    ensures
        drop_underscores(a + b) == drop_underscores(a) + drop_underscores(b),
    decreases b.len(),
{
    if b.len() == 0 {
        assert(a + b =~= a);
    } else {
        assert((a + b).drop_last() =~= a + b.drop_last());
        assert((a + b).last() == b.last());
        lemma_drop_underscores_add(a, b.drop_last());
    }
}

/// Where the snake-case text of character `i` of `s` starts.
pub open spec fn snake_pos(s: Seq<char>, i: int) -> int {
    snake_prefix(s, i).len() as int
}

/// What a piece of snake-case text is under std's ASCII facts.
proof fn lemma_snake_piece_ascii(s: Seq<char>, i: int)
    requires
        ascii_case_facts(),
        0 <= i < s.len(),
        ascii(s[i]),
    ensures
        snake_boundary(s, i) ==> ascii_upper(s[i]) && i > 0 && snake_piece(s, i) == seq!['_', lowered(s[i])],
        !snake_boundary(s, i) ==> snake_piece(s, i) == seq![lowered(s[i])],
        ascii(lowered(s[i])) && !ascii_upper(lowered(s[i])),
        lowered(s[i]) == '_' <==> s[i] == '_',
{
    let c = s[i];
    assert(ascii_case_fact(c));
    if is_upper(c) {
        if snake_boundary(s, i) {
            assert(snake_piece(s, i) =~= seq!['_', lowered(c)]);
        }
    }
}

proof fn lemma_snake_prefix_ascii(s: Seq<char>, n: int)
    requires
        ascii_case_facts(),
        0 <= n <= s.len(),
        all_ascii(s),
    ensures
        ascii_no_upper(snake_prefix(s, n)),
        drop_underscores(snake_prefix(s, n)) == drop_underscores(s.take(n).map_values(|c: char| lowered(c))),
        forall|j: int| 0 <= j < snake_prefix(s, n).len() && #[trigger] snake_prefix(s, n)[j] == '_' ==> exists|i: int| {
            &&& 0 <= i < n
            &&& #[trigger] snake_pos(s, i) == j
            &&& (s[i] == '_' || {
                &&& snake_boundary(s, i)
                &&& j > 0
                &&& ascii_upper(s[i])
                &&& j + 1 < snake_prefix(s, n).len()
                &&& snake_prefix(s, n)[j + 1] == lowered(s[i])
            })
        },
    decreases n,
{
    if n > 0 {
        let m = n - 1;
        lemma_snake_prefix_ascii(s, m);
        lemma_snake_piece_ascii(s, m);
        let a = snake_prefix(s, m);
        let p = snake_piece(s, m);
        let r = snake_prefix(s, n);
        assert(r == a + p);
        assert forall|i: int| 0 <= i < r.len() implies ascii(#[trigger] r[i]) && !ascii_upper(r[i]) by {
            if i < a.len() {
                assert(r[i] == a[i]);
            } else {
                assert(r[i] == p[i - a.len()]);
            }
        }
        let lw = s.take(n).map_values(|c: char| lowered(c));
        let lw0 = s.take(m).map_values(|c: char| lowered(c));
        assert(lw =~= lw0 + seq![lowered(s[m])]);
        lemma_drop_underscores_add(a, p);
        lemma_drop_underscores_add(lw0, seq![lowered(s[m])]);
        if snake_boundary(s, m) {
            assert(drop_underscores(p) == drop_underscores(seq![lowered(s[m])])) by {
                let l = lowered(s[m]);
                assert(l != '_');
                assert(p.drop_last() =~= seq!['_']);
                assert(p.last() == l);
                assert(seq!['_'].drop_last() =~= Seq::<char>::empty());
                assert(seq![l].drop_last() =~= Seq::<char>::empty());
                assert(drop_underscores(Seq::<char>::empty()) =~= Seq::<char>::empty());
                assert(drop_underscores(seq!['_']) =~= Seq::<char>::empty());
                assert(drop_underscores(seq![l]) =~= seq![l]);
                assert(drop_underscores(p) =~= seq![l]);
            }
        }
        assert forall|j: int| 0 <= j < r.len() && #[trigger] r[j] == '_' implies exists|i: int| {
            &&& 0 <= i < n
            &&& #[trigger] snake_pos(s, i) == j
            &&& (s[i] == '_' || {
                &&& snake_boundary(s, i)
                &&& j > 0
                &&& ascii_upper(s[i])
                &&& j + 1 < r.len()
                &&& r[j + 1] == lowered(s[i])
            })
        } by {
            if j < a.len() {
                assert(a[j] == r[j]);
                let i = choose|i: int| {
                    &&& 0 <= i < m
                    &&& #[trigger] snake_pos(s, i) == j
                    &&& (s[i] == '_' || {
                        &&& snake_boundary(s, i)
                        &&& j > 0
                        &&& ascii_upper(s[i])
                        &&& j + 1 < a.len()
                        &&& a[j + 1] == lowered(s[i])
                    })
                };
                if s[i] != '_' {
                    assert(r[j + 1] == a[j + 1]);
                }
                assert(0 <= i < n && snake_pos(s, i) == j && (s[i] == '_' || {
                    &&& snake_boundary(s, i)
                    &&& j > 0
                    &&& ascii_upper(s[i])
                    &&& j + 1 < r.len()
                    &&& r[j + 1] == lowered(s[i])
                }));
            } else {
                assert(r[j] == p[j - a.len()]);
                assert(snake_pos(s, m) == a.len());
                if snake_boundary(s, m) {
                    assert(a.len() > 0) by {
                        lemma_snake_piece_ascii(s, m - 1);
                        assert(a == snake_prefix(s, m - 1) + snake_piece(s, m - 1));
                    }
                    if j == a.len() {
                        assert(r[j + 1] == p[1]);
                    } else {
                        assert(j == a.len() + 1);
                        assert(p[1] == lowered(s[m]));
                        assert(false);
                    }
                    assert(0 <= m < n && snake_pos(s, m) == j && {
                        &&& snake_boundary(s, m)
                        &&& j > 0
                        &&& ascii_upper(s[m])
                        &&& j + 1 < r.len()
                        &&& r[j + 1] == lowered(s[m])
                    });
                } else {
                    assert(j == a.len());
                    assert(lowered(s[m]) == '_');
                    assert(s[m] == '_');
                    assert(0 <= m < n && snake_pos(s, m) == j && s[m] == '_');
                }
            }
        }
    } else {
        assert(s.take(0).map_values(|c: char| lowered(c)) =~= Seq::<char>::empty());
    }
}

proof fn lemma_snake_prefix_lower(r: Seq<char>, n: int)
    requires
        ascii_case_facts(),
        0 <= n <= r.len(),
        ascii_no_upper(r),
    ensures
        snake_prefix(r, n) == r.take(n),
    decreases n,
{
    if n > 0 {
        lemma_snake_prefix_lower(r, n - 1);
        assert(ascii(r[n - 1]) && !ascii_upper(r[n - 1]));
        assert(ascii_case_fact(r[n - 1]));
        assert(r.take(n) =~= r.take(n - 1) + seq![r[n - 1]]);
    }
}

/// On an ASCII name, under std's ASCII case tables (`ascii_case_agrees`
/// tests them): the snake case has no uppercase letter and only ASCII
/// characters; without underscores it is the name lowercased, without
/// underscores; every underscore it has that is not one of the name's sits
/// where an uppercase letter of the name begins, never at the start, and is
/// followed by that letter lowercased; and applying it again changes nothing.
pub proof fn lemma_snake_case_ascii(s: Seq<char>)
    requires
        ascii_case_facts(),
        all_ascii(s),
    ensures
        ascii_no_upper(snake_case(s)),
        drop_underscores(snake_case(s)) == drop_underscores(s.map_values(|c: char| lowered(c))),
        forall|j: int| 0 <= j < snake_case(s).len() && #[trigger] snake_case(s)[j] == '_' ==> exists|i: int| {
            &&& 0 <= i < s.len()
            &&& #[trigger] snake_pos(s, i) == j
            &&& (s[i] == '_' || {
                &&& j > 0
                &&& ascii_upper(s[i])
                &&& j + 1 < snake_case(s).len()
                &&& snake_case(s)[j + 1] == lowered(s[i])
            })
        },
        snake_case(snake_case(s)) == snake_case(s),
{
    lemma_snake_prefix_ascii(s, s.len() as int);
    assert(s.take(s.len() as int) =~= s);
    let r = snake_case(s);
    lemma_snake_prefix_lower(r, r.len() as int);
    assert(r.take(r.len() as int) =~= r);
}

// ---------------------------------------------------------------------------
// The model

/// Everything the derives read about one annotated struct.
pub struct TableModel {
    pub struct_name: String,
    pub table_name: String,
    pub columns: Vec<Column>,
    pub spec_columns: Option<String>,
    pub return_type: Option<syn::Type>,
    pub return_fields: Option<String>,
    pub custom_select: Vec<MethodSpec>,
    pub custom_select_many: Vec<MethodSpec>,
    pub custom_delete: Vec<MethodSpec>,
    pub custom_update: Vec<MethodSpec>,
}

pub open spec fn quoted_text(q: Option<QuotedString>) -> Option<Seq<char>> {
    match q {
        Some(q) => Some(q.0@),
        None => None,
    }
}

pub open spec fn string_text(s: Option<String>) -> Option<Seq<char>> {
    match s {
        Some(s) => Some(s@),
        None => None,
    }
}

pub open spec fn msg_no_fields_in_struct() -> Seq<char> {
    "struct must have at least one field"@
}

/// The column names of `cols`, in order.
pub open spec fn names_of(cols: Seq<Column>) -> Seq<Seq<char>> {
    cols.map_values(|c: Column| c.ident@)
}

impl TableModel {
    /// The names of the columns, in field order.
    pub open spec fn names(self) -> Seq<Seq<char>> {
        names_of(self.columns@)
    }

    /// `model` is what `attrs` describes.
    pub open spec fn built_from(self, attrs: TableAttrs) -> bool {
        &&& self.struct_name@ == attrs.ident@
        &&& self.table_name@ == match attrs.name {
            Some(q) => q.0@,
            None => default_table_name(attrs.ident@),
        }
        &&& self.columns@.len() == attrs.data@.len()
        &&& forall|i: int| 0 <= i < attrs.data@.len() ==> column_from(attrs.data@[i], #[trigger] self.columns@[i])
        &&& string_text(self.spec_columns) == quoted_text(attrs.spec_columns)
        &&& self.return_type == match attrs.return_type {
            Some(t) => Some(t.0),
            None => None,
        }
        &&& string_text(self.return_fields) == quoted_text(attrs.return_fields)
        &&& self.custom_select == attrs.custom_select
        &&& self.custom_select_many == attrs.custom_select_many
        &&& self.custom_delete == attrs.custom_delete
        &&& self.custom_update == attrs.custom_update
    }

    /// Builds the model: the table name is `name = "..."` or the struct name
    /// in snake case plus `s`; a struct without fields is refused.
    pub fn from_attrs(attrs: TableAttrs) -> (r: Result<TableModel, Diagnostic>)
        requires
            forall|i: int| 0 <= i < attrs.data@.len() ==> (#[trigger] attrs.data@[i]).ident is Some,
        ensures
            r is Ok <==> attrs.data@.len() > 0,
            r matches Ok(m) ==> m.built_from(attrs),
            r matches Err(d) ==> d.is(msg_no_fields_in_struct(), Site::Struct),
    {
        let ghost a0 = attrs;
        let TableAttrs {
            ident,
            data,
            name,
            spec_columns,
            return_type,
            return_fields,
            custom_select,
            custom_select_many,
            custom_delete,
            custom_update,
        } = attrs;
        let table_name = match name {
            Some(q) => q.0,
            None => {
                let mut t = to_snake_case(ident.as_str());
                t.append("s");
                t
            },
        };
        if data.len() == 0 {
            return Err(diagnostic(String::from_str("struct must have at least one field"), Site::Struct));
        }
        let mut rest = data;
        let mut columns: Vec<Column> = Vec::new();
        while rest.len() > 0
            invariant
                columns@.len() + rest@.len() == a0.data@.len(),
                forall|k: int| 0 <= k < rest@.len() ==> rest@[k] == a0.data@[columns@.len() + k],
                forall|k: int| 0 <= k < columns@.len() ==> column_from(a0.data@[k], #[trigger] columns@[k]),
                forall|i: int| 0 <= i < a0.data@.len() ==> (#[trigger] a0.data@[i]).ident is Some,
            decreases rest.len(),
        {
            let f = rest.remove(0);
            proof {
                assert(f == a0.data@[columns@.len() as int]);
            }
            let c = Column::from_attrs(f);
            columns.push(c);
        }
        let spec_columns = match spec_columns {
            Some(q) => Some(q.0),
            None => None,
        };
        let return_type = match return_type {
            Some(t) => Some(t.0),
            None => None,
        };
        let return_fields = match return_fields {
            Some(q) => Some(q.0),
            None => None,
        };
        Ok(TableModel {
            struct_name: ident,
            table_name,
            columns,
            spec_columns,
            return_type,
            return_fields,
            custom_select,
            custom_select_many,
            custom_delete,
            custom_update,
        })
    }
}

/// The position of the first entry of `names` equal to `name`, or -1.
pub open spec fn index_named(names: Seq<Seq<char>>, name: Seq<char>) -> int
    decreases names.len(),
{
    if names.len() == 0 {
        -1
    } else if names[0] == name {
        0
    } else {
        let r = index_named(names.drop_first(), name);
        if r < 0 {
            -1
        } else {
            r + 1
        }
    }
}

/// `index_named` is the first position holding `name`, and -1 only when
/// no position does.
pub proof fn lemma_index_named(names: Seq<Seq<char>>, name: Seq<char>)
    ensures
        -1 <= index_named(names, name) < names.len(),
        index_named(names, name) >= 0 ==> names[index_named(names, name)] == name,
        forall|j: int| 0 <= j < index_named(names, name) ==> names[j] != name,
        index_named(names, name) < 0 ==> forall|j: int| 0 <= j < names.len() ==> names[j] != name,
    decreases names.len(),
{
    if names.len() > 0 && names[0] != name {
        lemma_index_named(names.drop_first(), name);
        assert forall|j: int| 0 < j < names.len() implies names[j] == names.drop_first()[j - 1] by {}
    }
}

pub open spec fn msg_not_a_field_of(name: Seq<char>, struct_name: Seq<char>) -> Seq<char> {
    "`"@ + name + "` is not a field of `"@ + struct_name + "`"@
}

/// `a, b, c`: the entries of `parts` joined by `, `.
pub open spec fn comma_list(parts: Seq<Seq<char>>) -> Seq<char> {
    join(parts, ", "@)
}

impl TableModel {
    /// The `SELECT` list: each column's name, or `col AS "..."` with `as_type`.
    pub fn sql_columns(&self) -> (r: String)
        ensures
            r@ == comma_list(self.columns@.map_values(|c: Column| c.sql_select_expr@)),
    {
        let mut parts: Vec<String> = Vec::new();
        let mut i: usize = 0;
        while i < self.columns.len()
            invariant
                i <= self.columns@.len(),
                parts@.len() == i,
                forall|k: int| 0 <= k < i ==> (#[trigger] parts@[k])@ == self.columns@[k].sql_select_expr@,
            decreases self.columns.len() - i,
        {
            parts.push(self.columns[i].sql_select_expr.clone());
            i = i + 1;
        }
        proof {
            assert(parts@.map_values(|p: String| p@) =~= self.columns@.map_values(|c: Column| c.sql_select_expr@));
        }
        join_strings(&parts, ", ")
    }

    /// Plain comma-joined column names, for an `INSERT INTO t (...)` list.
    pub fn column_names(&self) -> (r: String)
        ensures
            r@ == comma_list(self.names()),
    {
        let mut parts: Vec<String> = Vec::new();
        let mut i: usize = 0;
        while i < self.columns.len()
            invariant
                i <= self.columns@.len(),
                parts@.len() == i,
                forall|k: int| 0 <= k < i ==> (#[trigger] parts@[k])@ == self.columns@[k].ident@,
            decreases self.columns.len() - i,
        {
            parts.push(self.columns[i].ident.clone());
            i = i + 1;
        }
        proof {
            assert(parts@.map_values(|p: String| p@) =~= self.names());
        }
        join_strings(&parts, ", ")
    }

    /// The first column named `name`; otherwise an error at `site`.
    pub fn find_column(&self, name: &str, site: Site) -> (r: Result<usize, Diagnostic>)
        ensures
            match r {
                Ok(i) => i == index_named(self.names(), name@),
                Err(d) => index_named(self.names(), name@) < 0
                    && d.is(msg_not_a_field_of(name@, self.struct_name@), site),
            },
    {
        proof {
            lemma_index_named(self.names(), name@);
        }
        let wanted = String::from_str(name);
        let mut i: usize = 0;
        while i < self.columns.len()
            invariant
                i <= self.columns@.len(),
                wanted@ == name@,
                forall|j: int| 0 <= j < i ==> self.names()[j] != name@,
                -1 <= index_named(self.names(), name@) < self.names().len(),
                index_named(self.names(), name@) >= 0 ==> self.names()[index_named(self.names(), name@)] == name@,
                forall|j: int| 0 <= j < index_named(self.names(), name@) ==> self.names()[j] != name@,
                index_named(self.names(), name@) < 0 ==> forall|j: int| 0 <= j < self.names().len() ==> self.names()[j] != name@,
            decreases self.columns.len() - i,
        {
            proof {
                assert(self.names()[i as int] == self.columns@[i as int].ident@);
            }
            if self.columns[i].ident == wanted {
                proof {
                    assert(self.names()[i as int] == self.columns@[i as int].ident@);
                }
                return Ok(i);
            }
            i = i + 1;
        }
        let mut m = String::from_str("`");
        m.append(name);
        m.append("` is not a field of `");
        m.append(self.struct_name.as_str());
        m.append("`");
        Err(diagnostic(m, site))
    }
}

// ---------------------------------------------------------------------------
// Raw filter templates

/// A character that can continue a `$field` reference.
pub open spec fn ident_char(c: char) -> bool {
    is_alpha(c) || is_numeric(c) || c == '_'
}

/// A `$field` reference starts at `i`: a `$` followed by a letter or `_`.
pub open spec fn starts_field(t: Seq<char>, i: int) -> bool {
    &&& 0 <= i
    &&& i + 1 < t.len()
    &&& t[i] == '$'
    &&& (is_alpha(t[i + 1]) || t[i + 1] == '_')
}

/// The end of the run of identifier characters that starts at `j`.
pub open spec fn name_end(t: Seq<char>, j: int) -> int
    decreases t.len() - j,
{
    if 0 <= j < t.len() && ident_char(t[j]) {
        name_end(t, j + 1)
    } else {
        j
    }
}

/// The first position at or after `i` where a `$field` reference starts,
/// or the end of the template.
pub open spec fn text_end(t: Seq<char>, i: int) -> int
    decreases t.len() - i,
{
    if i < 0 || i >= t.len() {
        t.len() as int
    } else if starts_field(t, i) {
        i
    } else {
        text_end(t, i + 1)
    }
}

pub proof fn lemma_name_end(t: Seq<char>, j: int)
    requires
        0 <= j <= t.len(),
    ensures
        j <= name_end(t, j) <= t.len(),
        forall|k: int| j <= k < name_end(t, j) ==> ident_char(#[trigger] t[k]),
        name_end(t, j) < t.len() ==> !ident_char(t[name_end(t, j)]),
    decreases t.len() - j,
{
    if j < t.len() && ident_char(t[j]) {
        lemma_name_end(t, j + 1);
    }
}

pub proof fn lemma_text_end(t: Seq<char>, i: int)
    requires
        0 <= i <= t.len(),
    ensures
        i <= text_end(t, i) <= t.len(),
        forall|k: int| i <= k < text_end(t, i) ==> !starts_field(t, k),
        text_end(t, i) < t.len() ==> starts_field(t, text_end(t, i)),
    decreases t.len() - i,
{
    if i < t.len() && !starts_field(t, i) {
        lemma_text_end(t, i + 1);
    }
}

/// A piece of a raw template: literal text, or a `$name` reference.
pub enum Piece {
    Text(Seq<char>),
    Field(Seq<char>),
}

/// How a raw template splits into pieces from position `i` on: maximal
/// runs of literal text, and `$name` references whose name is the longest
/// run of identifier characters after the `$`.
pub open spec fn pieces_from(t: Seq<char>, i: int) -> Seq<Piece>
    decreases t.len() - i,
{
    if i < 0 || i >= t.len() {
        Seq::empty()
    } else if starts_field(t, i) {
        let e = name_end(t, i + 1);
        proof {
            lemma_name_end(t, i + 1);
        }
        seq![Piece::Field(t.subrange(i + 1, e))] + pieces_from(t, e)
    } else {
        let e = text_end(t, i);
        proof {
            lemma_text_end(t, i);
            lemma_text_end(t, i + 1);
        }
        seq![Piece::Text(t.subrange(i, e))] + pieces_from(t, e)
    }
}

/// The pieces of a whole raw template.
pub open spec fn pieces(t: Seq<char>) -> Seq<Piece> {
    pieces_from(t, 0)
}

/// The text a piece was read from.
pub open spec fn piece_source(p: Piece) -> Seq<char> {
    match p {
        Piece::Text(s) => s,
        Piece::Field(n) => seq!['$'] + n,
    }
}

/// The texts the pieces were read from, concatenated.
pub open spec fn source_of(ps: Seq<Piece>) -> Seq<char>
    decreases ps.len(),
{
    if ps.len() == 0 {
        Seq::empty()
    } else {
        piece_source(ps[0]) + source_of(ps.drop_first())
    }
}

proof fn lemma_source_from(t: Seq<char>, i: int)
    requires
        0 <= i <= t.len(),
    ensures
        source_of(pieces_from(t, i)) == t.subrange(i, t.len() as int),
    decreases t.len() - i,
{
    if i < t.len() {
        if starts_field(t, i) {
            let e = name_end(t, i + 1);
            lemma_name_end(t, i + 1);
            lemma_source_from(t, e);
            let ps = pieces_from(t, i);
            assert(ps.drop_first() == pieces_from(t, e));
            assert(t.subrange(i, t.len() as int) =~= seq!['$'] + t.subrange(i + 1, e) + t.subrange(e, t.len() as int));
        } else {
            let e = text_end(t, i);
            lemma_text_end(t, i);
            lemma_text_end(t, i + 1);
            lemma_source_from(t, e);
            let ps = pieces_from(t, i);
            assert(ps.drop_first() == pieces_from(t, e));
            assert(t.subrange(i, t.len() as int) =~= t.subrange(i, e) + t.subrange(e, t.len() as int));
        }
    } else {
        assert(t.subrange(i, t.len() as int) =~= Seq::<char>::empty());
    }
}

/// Splitting a raw template into literal text and `$field` references loses
/// nothing: the pieces, written back, are the template again.
pub proof fn lemma_pieces_roundtrip(t: Seq<char>)
    ensures
        source_of(pieces(t)) == t,
{
    lemma_source_from(t, 0);
    assert(t.subrange(0, t.len() as int) =~= t);
}

/// Where piece `k` of `ps` begins in the text the pieces were read from.
pub open spec fn piece_start(ps: Seq<Piece>, k: int) -> int {
    source_of(ps.take(k)).len() as int
}

proof fn lemma_pieces_from_at(t: Seq<char>, i: int, k: int)
    requires
        0 <= i <= t.len(),
        0 <= k < pieces_from(t, i).len(),
    ensures
        ({
            let ps = pieces_from(t, i);
            let p = i + piece_start(ps, k);
            &&& i <= p < t.len()
            &&& match ps[k] {
                Piece::Field(n) => starts_field(t, p) && n == t.subrange(p + 1, name_end(t, p + 1)),
                Piece::Text(x) => !starts_field(t, p) && x == t.subrange(p, text_end(t, p)),
            }
        }),
    decreases t.len() - i,
{
    let ps = pieces_from(t, i);
    assert(i < t.len());
    let e = if starts_field(t, i) { name_end(t, i + 1) } else { text_end(t, i) };
    if starts_field(t, i) {
        lemma_name_end(t, i + 1);
    } else {
        lemma_text_end(t, i);
        lemma_text_end(t, i + 1);
    }
    let rest = pieces_from(t, e);
    assert(ps == seq![ps[0]] + rest);
    assert(ps.drop_first() =~= rest);
    assert(piece_source(ps[0]).len() == e - i) by {
        if starts_field(t, i) {
            assert(ps[0] == Piece::Field(t.subrange(i + 1, e)));
        } else {
            assert(ps[0] == Piece::Text(t.subrange(i, e)));
        }
    }
    if k == 0 {
        assert(ps.take(0) =~= Seq::<Piece>::empty());
    } else {
        lemma_pieces_from_at(t, e, k - 1);
        assert(ps.take(k)[0] == ps[0]);
        assert(ps.take(k).drop_first() =~= rest.take(k - 1));
        assert(source_of(ps.take(k)) == piece_source(ps[0]) + source_of(rest.take(k - 1)));
        assert(ps[k] == rest[k - 1]);
    }
}

/// How a raw template is read: a `$field` piece begins at a `$` that is
/// followed by a letter or `_`, and its name is the longest run of letters,
/// digits and `_` after the `$` (the character after the name, if any, is
/// none of these); a text piece is the template's own text, and no `$field`
/// reference begins inside it.
pub proof fn lemma_field_reference(t: Seq<char>, k: int)
    requires
        0 <= k < pieces(t).len(),
    ensures
        ({
            let p = piece_start(pieces(t), k);
            match pieces(t)[k] {
                Piece::Field(n) => {
                    &&& 0 <= p
                    &&& p + 1 + n.len() <= t.len()
                    &&& t[p] == '$'
                    &&& n.len() >= 1
                    &&& (is_alpha(n[0]) || n[0] == '_')
                    &&& t.subrange(p + 1, p + 1 + n.len()) == n
                    &&& forall|j: int| 0 <= j < n.len() ==> is_alpha(#[trigger] n[j]) || is_numeric(n[j]) || n[j] == '_'
                    &&& p + 1 + n.len() < t.len() ==> !(is_alpha(t[p + 1 + n.len()]) || is_numeric(t[p + 1 + n.len()])
                        || t[p + 1 + n.len()] == '_')
                },
                Piece::Text(x) => {
                    &&& 0 <= p
                    &&& p + x.len() <= t.len()
                    &&& x.len() >= 1
                    &&& t.subrange(p, p + x.len()) == x
                    &&& forall|q: int| p <= q < p + x.len() ==> !(t[q] == '$' && q + 1 < t.len()
                        && (is_alpha(#[trigger] t[q + 1]) || t[q + 1] == '_'))
                },
            }
        }),
{
    lemma_pieces_from_at(t, 0, k);
    let ps = pieces(t);
    let p = piece_start(ps, k);
    match ps[k] {
        Piece::Field(n) => {
            lemma_name_end(t, p + 1);
            let e = name_end(t, p + 1);
            assert(n.len() == e - (p + 1));
            assert(n[0] == t[p + 1]);
            assert forall|j: int| 0 <= j < n.len() implies is_alpha(#[trigger] n[j]) || is_numeric(n[j]) || n[j] == '_' by {
                assert(n[j] == t[p + 1 + j]);
                assert(ident_char(t[p + 1 + j]));
            }
        },
        Piece::Text(x) => {
            lemma_text_end(t, p);
            lemma_text_end(t, p + 1);
            let e = text_end(t, p);
            assert(e > p);
            assert forall|q: int| p <= q < p + x.len() implies !(t[q] == '$' && q + 1 < t.len()
                && (is_alpha(#[trigger] t[q + 1]) || t[q + 1] == '_')) by {
                assert(!starts_field(t, q));
            }
        },
    }
}

/// A piece of a resolved raw template: literal text, or a column (by position).
#[derive(Debug, PartialEq, Eq)]
pub enum RawSegment {
    Text(String),
    Field(usize),
}

/// How a custom method's `WHERE` text is built: `=`, `AND`-joined over its
/// filters, or the user's raw template.
#[derive(Debug, PartialEq, Eq)]
pub enum FilterTemplate {
    Fields,
    Raw(Vec<RawSegment>),
}

/// A custom method resolved against the struct's columns. `filters` lists
/// the referenced columns in placeholder order.
#[derive(Debug, PartialEq, Eq)]
pub struct CustomMethod {
    pub method_name: String,
    pub filters: Vec<usize>,
    pub template: FilterTemplate,
}

/// A resolved segment stands for a piece: the same text, or the first
/// column bearing the referenced name.
pub open spec fn segment_is(seg: RawSegment, p: Piece, names: Seq<Seq<char>>) -> bool {
    match seg {
        RawSegment::Text(s) => p matches Piece::Text(x) && s@ == x,
        RawSegment::Field(c) => p matches Piece::Field(n) && c as int == index_named(names, n),
    }
}

pub open spec fn segments_are(segs: Seq<RawSegment>, ps: Seq<Piece>, names: Seq<Seq<char>>) -> bool {
    &&& segs.len() == ps.len()
    &&& forall|k: int| 0 <= k < segs.len() ==> segment_is(#[trigger] segs[k], ps[k], names)
}

/// The first `$name` among `ps` that names no column.
pub open spec fn unknown_field(ps: Seq<Piece>, names: Seq<Seq<char>>) -> Option<Seq<char>>
    decreases ps.len(),
{
    if ps.len() == 0 {
        None
    } else if ps[0] is Field && index_named(names, ps[0]->Field_0) < 0 {
        Some(ps[0]->Field_0)
    } else {
        unknown_field(ps.drop_first(), names)
    }
}

/// The columns referenced by `segs`, in order, repeats included.
pub open spec fn field_indices(segs: Seq<RawSegment>) -> Seq<usize>
    decreases segs.len(),
{
    if segs.len() == 0 {
        Seq::empty()
    } else {
        let rest = field_indices(segs.drop_last());
        match segs.last() {
            RawSegment::Field(c) => rest.push(c),
            RawSegment::Text(_) => rest,
        }
    }
}

/// `s` with every repeat of an earlier entry removed.
pub open spec fn first_occurrences(s: Seq<usize>) -> Seq<usize>
    decreases s.len(),
{
    if s.len() == 0 {
        Seq::empty()
    } else {
        let r = first_occurrences(s.drop_last());
        if r.contains(s.last()) {
            r
        } else {
            r.push(s.last())
        }
    }
}

proof fn lemma_unknown_field_append(a: Seq<Piece>, b: Seq<Piece>, names: Seq<Seq<char>>)
    ensures
        unknown_field(a + b, names) == match unknown_field(a, names) {
            Some(n) => Some(n),
            None => unknown_field(b, names),
        },
    decreases a.len(),
{
    if a.len() > 0 {
        assert((a + b).drop_first() == a.drop_first() + b);
        assert((a + b)[0] == a[0]);
        lemma_unknown_field_append(a.drop_first(), b, names);
    } else {
        assert(a + b == b);
    }
}

fn is_ident_char(c: char) -> (r: bool)
    ensures
        r == ident_char(c),
{
    char_is_alpha(c) || char_is_numeric(c) || c == '_'
}

fn starts_field_at(chars: &Vec<char>, i: usize) -> (r: bool)
    ensures
        r == starts_field(chars@, i as int),
{
    i < chars.len() && chars.len() - i > 1 && chars[i] == '$' && (char_is_alpha(chars[i + 1]) || chars[i + 1] == '_')
}

fn contains_index(v: &Vec<usize>, x: usize) -> (r: bool)
    ensures
        r == v@.contains(x),
{
    let mut k: usize = 0;
    while k < v.len()
        invariant
            k <= v@.len(),
            forall|j: int| 0 <= j < k ==> v@[j] != x,
        decreases v.len() - k,
    {
        if v[k] == x {
            return true;
        }
        k = k + 1;
    }
    false
}

impl TableModel {
    /// Splits a raw filter template into literal text and `$field`
    /// references, each resolved against the columns; the referenced columns
    /// are collected once each, in order of first reference. An unknown
    /// field is an error at `site`.
    pub fn parse_raw_template(&self, site: Site, template: &str) -> (r: Result<(Vec<usize>, Vec<RawSegment>), Diagnostic>)
        ensures
            match r {
                Ok((filters, segs)) => {
                    &&& unknown_field(pieces(template@), self.names()) is None
                    &&& segments_are(segs@, pieces(template@), self.names())
                    &&& filters@ == first_occurrences(field_indices(segs@))
                },
                Err(d) => unknown_field(pieces(template@), self.names()) matches Some(n)
                    && d.is(msg_not_a_field_of(n, self.struct_name@), site),
            },
    {
        let chars = chars_of(template);
        let ghost t = template@;
        let ghost names = self.names();
        let mut filters: Vec<usize> = Vec::new();
        let mut segments: Vec<RawSegment> = Vec::new();
        let ghost mut done: Seq<Piece> = Seq::empty();
        let mut i: usize = 0;
        proof {
            assert(pieces(t) == done + pieces_from(t, 0));
        }
        while i < chars.len()
            invariant
                chars@ == t,
                t == template@,
                names == self.names(),
                i <= chars@.len(),
                pieces(t) == done + pieces_from(t, i as int),
                unknown_field(done, names) is None,
                segments_are(segments@, done, names),
                filters@ == first_occurrences(field_indices(segments@)),
            decreases chars.len() - i,
        {
            let ghost rest = pieces_from(t, i as int);
            if starts_field_at(&chars, i) {
                let start = i + 1;
                let mut end = start;
                proof {
                    lemma_name_end(t, start as int);
                }
                while end < chars.len() && is_ident_char(chars[end])
                    invariant
                        chars@ == t,
                        start <= end <= chars@.len(),
                        name_end(t, start as int) == name_end(t, end as int),
                    decreases chars.len() - end,
                {
                    end = end + 1;
                }
                let mut name = String::new();
                let mut k = start;
                while k < end
                    invariant
                        chars@ == t,
                        start <= k <= end <= chars@.len(),
                        name@ == t.subrange(start as int, k as int),
                    decreases end - k,
                {
                    push_char(&mut name, chars[k]);
                    proof {
                        assert(t.subrange(start as int, k + 1) == t.subrange(start as int, k as int).push(t[k as int]));
                    }
                    k = k + 1;
                }
                let ghost piece = Piece::Field(name@);
                proof {
                    assert(rest == seq![piece] + pieces_from(t, end as int));
                    assert(done + rest == done.push(piece) + pieces_from(t, end as int));
                    lemma_unknown_field_append(done, rest, names);
                    assert(rest[0] == piece);
                    assert(rest.drop_first() == pieces_from(t, end as int));
                }
                let column = match self.find_column(name.as_str(), site) {
                    Ok(c) => c,
                    Err(d) => {
                        proof {
                            assert(unknown_field(rest, names) == Some(name@));
                        }
                        return Err(d);
                    },
                };
                let ghost before = segments@;
                let ghost idx_before = field_indices(before);
                if !contains_index(&filters, column) {
                    filters.push(column);
                }
                segments.push(RawSegment::Field(column));
                proof {
                    assert(segments@.drop_last() == before);
                    assert(segments@.last() == RawSegment::Field(column));
                    assert(field_indices(segments@) == idx_before.push(column));
                    assert(idx_before.push(column).drop_last() == idx_before);
                    assert(done.push(piece) == done + seq![piece]);
                    assert(seq![piece][0] == piece);
                    assert(unknown_field(seq![piece].drop_first(), names) is None);
                    lemma_unknown_field_append(done, seq![piece], names);
                    assert(seq![piece].drop_first() =~= Seq::<Piece>::empty());
                    done = done.push(piece);
                }
                i = end;
            } else {
                let mut text = String::new();
                push_char(&mut text, chars[i]);
                let mut k = i + 1;
                proof {
                    lemma_text_end(t, i as int);
                    assert(text@ =~= t.subrange(i as int, k as int));
                }
                while k < chars.len() && !starts_field_at(&chars, k)
                    invariant
                        chars@ == t,
                        i < k <= chars@.len(),
                        text@ == t.subrange(i as int, k as int),
                        text_end(t, i as int) == text_end(t, k as int),
                    decreases chars.len() - k,
                {
                    push_char(&mut text, chars[k]);
                    proof {
                        assert(t.subrange(i as int, k + 1) == t.subrange(i as int, k as int).push(t[k as int]));
                    }
                    k = k + 1;
                }
                let ghost piece = Piece::Text(text@);
                proof {
                    assert(text_end(t, k as int) == k);
                    assert(rest == seq![piece] + pieces_from(t, k as int));
                    assert(done + rest == done.push(piece) + pieces_from(t, k as int));
                    lemma_unknown_field_append(done, seq![piece], names);
                    assert(seq![piece].drop_first() =~= Seq::<Piece>::empty());
                }
                let ghost before = segments@;
                segments.push(RawSegment::Text(text));
                proof {
                    assert(segments@.drop_last() == before);
                    assert(field_indices(segments@) == field_indices(before));
                    assert(done.push(piece) == done + seq![piece]);
                    assert(seq![piece][0] == piece);
                    assert(unknown_field(seq![piece].drop_first(), names) is None);
                    done = done.push(piece);
                }
                i = k;
            }
        }
        proof {
            assert(done == pieces(t));
        }
        Ok((filters, segments))
    }
}

// ---------------------------------------------------------------------------
// Custom methods

/// The position of the first of `fields` that names no column, or -1.
pub open spec fn first_unknown(names: Seq<Seq<char>>, fields: Seq<Seq<char>>) -> int
    decreases fields.len(),
{
    if fields.len() == 0 {
        -1
    } else if index_named(names, fields[0]) < 0 {
        0
    } else {
        let r = first_unknown(names, fields.drop_first());
        if r < 0 {
            -1
        } else {
            r + 1
        }
    }
}

proof fn lemma_first_unknown(names: Seq<Seq<char>>, fields: Seq<Seq<char>>)
    ensures
        -1 <= first_unknown(names, fields) < fields.len(),
        first_unknown(names, fields) >= 0 ==> index_named(names, fields[first_unknown(names, fields)]) < 0,
        forall|j: int| 0 <= j < fields.len() && (first_unknown(names, fields) < 0 || j < first_unknown(names, fields))
            ==> index_named(names, #[trigger] fields[j]) >= 0,
    decreases fields.len(),
{
    if fields.len() > 0 && index_named(names, fields[0]) >= 0 {
        lemma_first_unknown(names, fields.drop_first());
        assert forall|j: int| 0 < j < fields.len() implies fields[j] == fields.drop_first()[j - 1] by {}
    }
}

/// The message and site of resolving a custom method, if it fails.
pub open spec fn resolve_error(model: TableModel, kind: MethodKind, index: usize, spec: MethodSpec) -> Option<(Seq<char>, Site)> {
    match spec.filter {
        MethodFilterSpec::Fields(fs) => {
            let fields = fs@.map_values(|f: String| f@);
            let j = first_unknown(model.names(), fields);
            if j < 0 {
                None
            } else {
                Some((msg_not_a_field_of(fields[j], model.struct_name@), Site::MethodField(kind, index, j as usize)))
            }
        },
        MethodFilterSpec::Raw(t) => match unknown_field(pieces(t@), model.names()) {
            Some(n) => Some((msg_not_a_field_of(n, model.struct_name@), Site::Method(kind, index))),
            None => None,
        },
    }
}

/// `m` is the successful resolution of `spec` against `model`.
pub open spec fn resolves_to(model: TableModel, spec: MethodSpec, m: CustomMethod) -> bool {
    &&& m.method_name@ == spec.method_name@
    &&& match spec.filter {
        MethodFilterSpec::Fields(fs) => {
            &&& m.template == FilterTemplate::Fields
            &&& m.filters@.len() == fs@.len()
            &&& forall|j: int| 0 <= j < fs@.len() ==> (#[trigger] m.filters@[j]) as int == index_named(model.names(), fs@[j]@)
        },
        MethodFilterSpec::Raw(t) => m.template matches FilterTemplate::Raw(segs) && {
            &&& segments_are(segs@, pieces(t@), model.names())
            &&& m.filters@ == first_occurrences(field_indices(segs@))
        },
    }
}

/// The errors of resolving the first `n` of `specs`, in order.
pub open spec fn resolve_errors(model: TableModel, kind: MethodKind, specs: Seq<MethodSpec>, n: nat) -> Seq<(Seq<char>, Site)>
    decreases n,
{
    if n == 0 {
        Seq::empty()
    } else {
        let rest = resolve_errors(model, kind, specs, (n - 1) as nat);
        match resolve_error(model, kind, (n - 1) as usize, specs[n - 1]) {
            Some(e) => rest.push(e),
            None => rest,
        }
    }
}

pub open spec fn diagnostics_are(ds: Seq<Diagnostic>, es: Seq<(Seq<char>, Site)>) -> bool {
    &&& ds.len() == es.len()
    &&& forall|k: int| 0 <= k < ds.len() ==> (#[trigger] ds[k]).is(es[k].0, es[k].1)
}

impl TableModel {
    /// Resolves one custom method spec (the `index`-th of its `kind`).
    pub fn resolve(&self, kind: MethodKind, index: usize, spec: &MethodSpec) -> (r: Result<CustomMethod, Diagnostic>)
        ensures
            match r {
                Ok(m) => resolve_error(*self, kind, index, *spec) is None && resolves_to(*self, *spec, m),
                Err(d) => resolve_error(*self, kind, index, *spec) matches Some(e) && d.is(e.0, e.1),
            },
    {
        match &spec.filter {
            MethodFilterSpec::Fields(field_idents) => {
                let ghost fields = field_idents@.map_values(|f: String| f@);
                proof {
                    lemma_first_unknown(self.names(), fields);
                }
                let mut filters: Vec<usize> = Vec::new();
                let mut j: usize = 0;
                while j < field_idents.len()
                    invariant
                        j <= field_idents@.len(),
                        spec.filter == MethodFilterSpec::Fields(*field_idents),
                        fields == field_idents@.map_values(|f: String| f@),
                        filters@.len() == j,
                        forall|k: int| 0 <= k < j ==> (#[trigger] filters@[k]) as int == index_named(self.names(), fields[k]),
                        forall|k: int| 0 <= k < j ==> index_named(self.names(), #[trigger] fields[k]) >= 0,
                        -1 <= first_unknown(self.names(), fields) < fields.len(),
                        first_unknown(self.names(), fields) >= 0 ==> index_named(self.names(), fields[first_unknown(self.names(), fields)]) < 0,
                        forall|k: int| 0 <= k < fields.len() && (first_unknown(self.names(), fields) < 0 || k < first_unknown(self.names(), fields))
                            ==> index_named(self.names(), #[trigger] fields[k]) >= 0,
                    decreases field_idents.len() - j,
                {
                    let c = self.find_column(field_idents[j].as_str(), Site::MethodField(kind, index, j));
                    match c {
                        Ok(c) => {
                            filters.push(c);
                        },
                        Err(d) => {
                            proof {
                                assert(fields[j as int] == field_idents@[j as int]@);
                                assert(first_unknown(self.names(), fields) == j);
                            }
                            return Err(d);
                        },
                    }
                    j = j + 1;
                }
                proof {
                    assert(first_unknown(self.names(), fields) < 0);
                }
                Ok(CustomMethod { method_name: spec.method_name.clone(), filters, template: FilterTemplate::Fields })
            },
            MethodFilterSpec::Raw(raw) => {
                let (filters, segments) = self.parse_raw_template(Site::Method(kind, index), raw.as_str())?;
                Ok(CustomMethod {
                    method_name: spec.method_name.clone(),
                    filters,
                    template: FilterTemplate::Raw(segments),
                })
            },
        }
    }

    /// Resolves every spec of one kind; fails with every spec's error, in order.
    pub fn resolve_all(&self, kind: MethodKind, specs: &Vec<MethodSpec>) -> (r: Result<Vec<CustomMethod>, Vec<Diagnostic>>)
        ensures
            r is Err <==> resolve_errors(*self, kind, specs@, specs@.len()).len() > 0,
            r matches Ok(ms) ==> ms@.len() == specs@.len()
                && forall|i: int| 0 <= i < specs@.len() ==> resolves_to(*self, specs@[i], #[trigger] ms@[i]),
            r matches Err(ds) ==> diagnostics_are(ds@, resolve_errors(*self, kind, specs@, specs@.len())),
    {
        let mut errors: Vec<Diagnostic> = Vec::new();
        let mut methods: Vec<CustomMethod> = Vec::new();
        let mut i: usize = 0;
        while i < specs.len()
            invariant
                i <= specs@.len(),
                diagnostics_are(errors@, resolve_errors(*self, kind, specs@, i as nat)),
                errors@.len() == 0 ==> methods@.len() == i
                    && forall|k: int| 0 <= k < i ==> resolves_to(*self, specs@[k], #[trigger] methods@[k]),
            decreases specs.len() - i,
        {
            match self.resolve(kind, i, &specs[i]) {
                Ok(m) => {
                    methods.push(m);
                },
                Err(d) => {
                    errors.push(d);
                },
            }
            i = i + 1;
        }
        if errors.len() > 0 {
            Err(errors)
        } else {
            Ok(methods)
        }
    }

    pub fn custom_select_methods(&self) -> (r: Result<Vec<CustomMethod>, Vec<Diagnostic>>)
        ensures
            r is Err <==> resolve_errors(*self, MethodKind::Select, self.custom_select@, self.custom_select@.len()).len() > 0,
            r matches Ok(ms) ==> ms@.len() == self.custom_select@.len()
                && forall|i: int| 0 <= i < ms@.len() ==> resolves_to(*self, self.custom_select@[i], #[trigger] ms@[i]),
            r matches Err(ds) ==> diagnostics_are(ds@, resolve_errors(*self, MethodKind::Select, self.custom_select@, self.custom_select@.len())),
    {
        self.resolve_all(MethodKind::Select, &self.custom_select)
    }

    pub fn custom_select_many_methods(&self) -> (r: Result<Vec<CustomMethod>, Vec<Diagnostic>>)
        ensures
            r is Err <==> resolve_errors(*self, MethodKind::SelectMany, self.custom_select_many@, self.custom_select_many@.len()).len() > 0,
            r matches Ok(ms) ==> ms@.len() == self.custom_select_many@.len()
                && forall|i: int| 0 <= i < ms@.len() ==> resolves_to(*self, self.custom_select_many@[i], #[trigger] ms@[i]),
            r matches Err(ds) ==> diagnostics_are(ds@, resolve_errors(*self, MethodKind::SelectMany, self.custom_select_many@, self.custom_select_many@.len())),
    {
        self.resolve_all(MethodKind::SelectMany, &self.custom_select_many)
    }

    pub fn custom_delete_methods(&self) -> (r: Result<Vec<CustomMethod>, Vec<Diagnostic>>)
        ensures
            r is Err <==> resolve_errors(*self, MethodKind::Delete, self.custom_delete@, self.custom_delete@.len()).len() > 0,
            r matches Ok(ms) ==> ms@.len() == self.custom_delete@.len()
                && forall|i: int| 0 <= i < ms@.len() ==> resolves_to(*self, self.custom_delete@[i], #[trigger] ms@[i]),
            r matches Err(ds) ==> diagnostics_are(ds@, resolve_errors(*self, MethodKind::Delete, self.custom_delete@, self.custom_delete@.len())),
    {
        self.resolve_all(MethodKind::Delete, &self.custom_delete)
    }

    pub fn custom_update_methods(&self) -> (r: Result<Vec<CustomMethod>, Vec<Diagnostic>>)
        ensures
            r is Err <==> resolve_errors(*self, MethodKind::Update, self.custom_update@, self.custom_update@.len()).len() > 0,
            r matches Ok(ms) ==> ms@.len() == self.custom_update@.len()
                && forall|i: int| 0 <= i < ms@.len() ==> resolves_to(*self, self.custom_update@[i], #[trigger] ms@[i]),
            r matches Err(ds) ==> diagnostics_are(ds@, resolve_errors(*self, MethodKind::Update, self.custom_update@, self.custom_update@.len())),
    {
        self.resolve_all(MethodKind::Update, &self.custom_update)
    }
}

// ---------------------------------------------------------------------------
// SQL fragments

/// One `(column, operator)` assignment of a generated method variant.
#[derive(Debug, Clone, Copy, PartialEq, Eq)]
pub struct FilterChoice {
    pub column: usize,
    pub op: Operator,
}

/// The word for `op` in a generated method name: `select_by_age_gt`.
pub fn op_word(op: Operator) -> (r: &'static str)
    ensures
        r@ == word_of(op),
{
    match op {
        Operator::Eq => "eq",
        Operator::Gt => "gt",
        Operator::Lt => "lt",
        Operator::Gte => "gte",
        Operator::Lte => "lte",
        Operator::Like => "like",
        Operator::Ilike => "ilike",
        Operator::In => "in",
        Operator::NotIn => "not_in",
    }
}

/// One column's comparison at placeholder `$n`: `id=$1`, `age>$2`,
/// `email LIKE $3`, `id = ANY($4)`, `id != ALL($5)`.
pub open spec fn comparison(name: Seq<char>, op: Operator, n: nat) -> Seq<char> {
    match op {
        Operator::In => name + " = ANY($"@ + decimal(n) + ")"@,
        Operator::NotIn => name + " != ALL($"@ + decimal(n) + ")"@,
        Operator::Like => name + " LIKE $"@ + decimal(n),
        Operator::Ilike => name + " ILIKE $"@ + decimal(n),
        _ => name + symbol_of(op) + "$"@ + decimal(n),
    }
}

/// `WHERE` conditions are joined by ` AND `; column lists, `SET` lists and
/// conflict targets by `, `.
pub proof fn lemma_separators(parts: Seq<Seq<char>>)
    ensures
        and_list(parts) == join(parts, " AND "@),
        comma_list(parts) == join(parts, ", "@),
{
}

/// The comparison text of each operator: `name=$n`, `name>$n`, `name<$n`,
/// `name>=$n`, `name<=$n`, `name LIKE $n`, `name ILIKE $n`,
/// `name = ANY($n)` and `name != ALL($n)`.
pub proof fn lemma_comparison_text(name: Seq<char>, n: nat)
    ensures
        comparison(name, Operator::Eq, n) == name + "=$"@ + decimal(n),
        comparison(name, Operator::Gt, n) == name + ">$"@ + decimal(n),
        comparison(name, Operator::Lt, n) == name + "<$"@ + decimal(n),
        comparison(name, Operator::Gte, n) == name + ">=$"@ + decimal(n),
        comparison(name, Operator::Lte, n) == name + "<=$"@ + decimal(n),
        comparison(name, Operator::Like, n) == name + " LIKE $"@ + decimal(n),
        comparison(name, Operator::Ilike, n) == name + " ILIKE $"@ + decimal(n),
        comparison(name, Operator::In, n) == name + " = ANY($"@ + decimal(n) + ")"@,
        comparison(name, Operator::NotIn, n) == name + " != ALL($"@ + decimal(n) + ")"@,
{
    reveal_strlit("$");
    reveal_strlit("=$");
    reveal_strlit(">$");
    reveal_strlit("<$");
    reveal_strlit(">=$");
    reveal_strlit("<=$");
    assert(seq!['='] + "$"@ =~= "=$"@);
    assert(seq!['>'] + "$"@ =~= ">$"@);
    assert(seq!['<'] + "$"@ =~= "<$"@);
    assert(seq!['>', '='] + "$"@ =~= ">=$"@);
    assert(seq!['<', '='] + "$"@ =~= "<=$"@);
    assert(name + seq!['='] + "$"@ + decimal(n) =~= name + (seq!['='] + "$"@) + decimal(n));
    assert(name + seq!['>'] + "$"@ + decimal(n) =~= name + (seq!['>'] + "$"@) + decimal(n));
    assert(name + seq!['<'] + "$"@ + decimal(n) =~= name + (seq!['<'] + "$"@) + decimal(n));
    assert(name + seq!['>', '='] + "$"@ + decimal(n) =~= name + (seq!['>', '='] + "$"@) + decimal(n));
    assert(name + seq!['<', '='] + "$"@ + decimal(n) =~= name + (seq!['<', '='] + "$"@) + decimal(n));
}

/// `a AND b AND c`.
pub open spec fn and_list(parts: Seq<Seq<char>>) -> Seq<char> {
    join(parts, " AND "@)
}

/// The comparisons of `choices`, placeholders numbered from `offset + 1`.
pub open spec fn choice_comparisons(cols: Seq<Column>, choices: Seq<FilterChoice>, offset: nat) -> Seq<Seq<char>> {
    Seq::new(choices.len(), |k: int| comparison(cols[choices[k].column as int].ident@, choices[k].op, (offset + k + 1) as nat))
}

/// The `=` comparisons of the columns `picks`, placeholders numbered from `offset + 1`.
pub open spec fn eq_comparisons(cols: Seq<Column>, picks: Seq<usize>, offset: nat) -> Seq<Seq<char>> {
    Seq::new(picks.len(), |k: int| comparison(cols[picks[k] as int].ident@, Operator::Eq, (offset + k + 1) as nat))
}

/// The `SET` assignments of the columns `picks`, placeholders numbered from `offset + 1`.
pub open spec fn set_assignments(cols: Seq<Column>, picks: Seq<usize>, offset: nat) -> Seq<Seq<char>> {
    Seq::new(picks.len(), |k: int| cols[picks[k] as int].ident@ + "=$"@ + decimal((offset + k + 1) as nat))
}

pub open spec fn picks_valid(cols: Seq<Column>, picks: Seq<usize>) -> bool {
    forall|k: int| 0 <= k < picks.len() ==> (#[trigger] picks[k]) < cols.len()
}

pub open spec fn choices_valid(cols: Seq<Column>, choices: Seq<FilterChoice>) -> bool {
    forall|k: int| 0 <= k < choices.len() ==> (#[trigger] choices[k]).column < cols.len()
}

/// `id=$1`-style comparison text for one column and operator.
pub fn render_comparison(ident: &str, op: Operator, placeholder: usize) -> (r: String)
    ensures
        r@ == comparison(ident@, op, placeholder as nat),
{
    let mut out = String::from_str(ident);
    match op {
        Operator::In => {
            out.append(" = ANY($");
            push_decimal(&mut out, placeholder);
            out.append(")");
        },
        Operator::NotIn => {
            out.append(" != ALL($");
            push_decimal(&mut out, placeholder);
            out.append(")");
        },
        Operator::Like => {
            out.append(" LIKE $");
            push_decimal(&mut out, placeholder);
        },
        Operator::Ilike => {
            out.append(" ILIKE $");
            push_decimal(&mut out, placeholder);
        },
        _ => {
            out.append(op.sql_symbol());
            out.append("$");
            push_decimal(&mut out, placeholder);
        },
    }
    out
}

/// `id=$1 AND is_removed=$2`: always `=`, placeholders from `offset + 1`.
pub fn sql_condition(columns: &Vec<Column>, picks: &Vec<usize>, offset: usize) -> (r: String)
    requires
        picks_valid(columns@, picks@),
        offset + picks@.len() <= usize::MAX,
    ensures
        r@ == and_list(eq_comparisons(columns@, picks@, offset as nat)),
{
    let mut parts: Vec<String> = Vec::new();
    let mut k: usize = 0;
    while k < picks.len()
        invariant
            k <= picks@.len(),
            picks_valid(columns@, picks@),
            offset + picks@.len() <= usize::MAX,
            parts@.len() == k,
            forall|j: int| 0 <= j < k ==> (#[trigger] parts@[j])@ == eq_comparisons(columns@, picks@, offset as nat)[j],
        decreases picks.len() - k,
    {
        let c = &columns[picks[k]];
        parts.push(render_comparison(c.ident.as_str(), Operator::Eq, offset + k + 1));
        k = k + 1;
    }
    proof {
        assert(parts@.map_values(|p: String| p@) =~= eq_comparisons(columns@, picks@, offset as nat));
    }
    join_strings(&parts, " AND ")
}

/// Like `sql_condition`, with each choice's own operator.
pub fn sql_condition_for_choices(columns: &Vec<Column>, choices: &Vec<FilterChoice>, offset: usize) -> (r: String)
    requires
        choices_valid(columns@, choices@),
        offset + choices@.len() <= usize::MAX,
    ensures
        r@ == and_list(choice_comparisons(columns@, choices@, offset as nat)),
{
    let mut parts: Vec<String> = Vec::new();
    let mut k: usize = 0;
    while k < choices.len()
        invariant
            k <= choices@.len(),
            choices_valid(columns@, choices@),
            offset + choices@.len() <= usize::MAX,
            parts@.len() == k,
            forall|j: int| 0 <= j < k ==> (#[trigger] parts@[j])@ == choice_comparisons(columns@, choices@, offset as nat)[j],
        decreases choices.len() - k,
    {
        let ch = choices[k];
        let c = &columns[ch.column];
        parts.push(render_comparison(c.ident.as_str(), ch.op, offset + k + 1));
        k = k + 1;
    }
    proof {
        assert(parts@.map_values(|p: String| p@) =~= choice_comparisons(columns@, choices@, offset as nat));
    }
    join_strings(&parts, " AND ")
}

/// `email=$1, is_active=$2`: comma-joined `SET` assignments from `offset + 1`.
pub fn sql_set_clause(columns: &Vec<Column>, picks: &Vec<usize>, offset: usize) -> (r: String)
    requires
        picks_valid(columns@, picks@),
        offset + picks@.len() <= usize::MAX,
    ensures
        r@ == comma_list(set_assignments(columns@, picks@, offset as nat)),
{
    let mut parts: Vec<String> = Vec::new();
    let mut k: usize = 0;
    while k < picks.len()
        invariant
            k <= picks@.len(),
            picks_valid(columns@, picks@),
            offset + picks@.len() <= usize::MAX,
            parts@.len() == k,
            forall|j: int| 0 <= j < k ==> (#[trigger] parts@[j])@ == set_assignments(columns@, picks@, offset as nat)[j],
        decreases picks.len() - k,
    {
        let mut part = columns[picks[k]].ident.clone();
        part.append("=$");
        push_decimal(&mut part, offset + k + 1);
        parts.push(part);
        k = k + 1;
    }
    proof {
        assert(parts@.map_values(|p: String| p@) =~= set_assignments(columns@, picks@, offset as nat));
    }
    join_strings(&parts, ", ")
}

/// The position of the first entry of `s` equal to `x`, or -1.
pub open spec fn position_of(s: Seq<usize>, x: usize) -> int
    decreases s.len(),
{
    if s.len() == 0 {
        -1
    } else if s[0] == x {
        0
    } else {
        let r = position_of(s.drop_first(), x);
        if r < 0 {
            -1
        } else {
            r + 1
        }
    }
}

proof fn lemma_position_of(s: Seq<usize>, x: usize)
    ensures
        -1 <= position_of(s, x) < s.len(),
        position_of(s, x) >= 0 ==> s[position_of(s, x)] == x,
        forall|j: int| 0 <= j < position_of(s, x) ==> s[j] != x,
        position_of(s, x) < 0 ==> !s.contains(x),
    decreases s.len(),
{
    if s.len() > 0 && s[0] != x {
        lemma_position_of(s.drop_first(), x);
        assert forall|j: int| 0 < j < s.len() implies s[j] == s.drop_first()[j - 1] by {}
        if position_of(s, x) < 0 {
            assert forall|j: int| 0 <= j < s.len() implies s[j] != x by {
                if j > 0 {
                    assert(s.drop_first()[j - 1] == s[j]);
                }
            }
        }
    }
}

/// The text a resolved raw segment renders as: its literal text, or the
/// placeholder of its column's first reference.
pub open spec fn segment_text(seg: RawSegment, filters: Seq<usize>, offset: nat) -> Seq<char> {
    match seg {
        RawSegment::Text(s) => s@,
        RawSegment::Field(c) => seq!['$'] + decimal((offset + position_of(filters, c) + 1) as nat),
    }
}

/// A custom method's `WHERE` text at placeholder `offset`.
pub open spec fn custom_where(cols: Seq<Column>, m: CustomMethod, offset: nat) -> Seq<char> {
    match m.template {
        FilterTemplate::Fields => and_list(eq_comparisons(cols, m.filters@, offset)),
        FilterTemplate::Raw(segs) => concat(segs@.map_values(|g: RawSegment| segment_text(g, m.filters@, offset))),
    }
}

/// The method's filters are columns, and every column a raw template
/// references is among its filters.
pub open spec fn method_wf(cols: Seq<Column>, m: CustomMethod) -> bool {
    &&& picks_valid(cols, m.filters@)
    &&& m.template matches FilterTemplate::Raw(segs) ==> forall|k: int| 0 <= k < segs@.len()
        ==> ((#[trigger] segs@[k]) matches RawSegment::Field(c) ==> m.filters@.contains(c))
}

fn position_in(v: &Vec<usize>, x: usize) -> (r: usize)
    requires
        v@.contains(x),
    ensures
        r as int == position_of(v@, x),
{
    proof {
        lemma_position_of(v@, x);
    }
    let mut k: usize = 0;
    while k < v.len()
        invariant
            k <= v@.len(),
            forall|j: int| 0 <= j < k ==> v@[j] != x,
            position_of(v@, x) >= 0,
            v@[position_of(v@, x)] == x,
            forall|j: int| 0 <= j < position_of(v@, x) ==> v@[j] != x,
            position_of(v@, x) < v@.len(),
        decreases v.len() - k,
    {
        if v[k] == x {
            return k;
        }
        k = k + 1;
    }
    0
}

/// Renders a custom method's `WHERE` text at placeholder `offset`: `=`,
/// `AND`-joined over a field list, or the raw template with each `$field`
/// replaced by the placeholder of that field's first reference.
pub fn render_custom_where(columns: &Vec<Column>, method: &CustomMethod, offset: usize) -> (r: String)
    requires
        method_wf(columns@, *method),
        offset + method.filters@.len() <= usize::MAX,
    ensures
        r@ == custom_where(columns@, *method, offset as nat),
{
    match &method.template {
        FilterTemplate::Fields => sql_condition(columns, &method.filters, offset),
        FilterTemplate::Raw(segments) => {
            let ghost texts = segments@.map_values(|g: RawSegment| segment_text(g, method.filters@, offset as nat));
            let mut out = String::new();
            let mut k: usize = 0;
            while k < segments.len()
                invariant
                    k <= segments@.len(),
                    method.template == FilterTemplate::Raw(*segments),
                    method_wf(columns@, *method),
                    offset + method.filters@.len() <= usize::MAX,
                    texts == segments@.map_values(|g: RawSegment| segment_text(g, method.filters@, offset as nat)),
                    out@ == concat(texts.take(k as int)),
                decreases segments.len() - k,
            {
                match &segments[k] {
                    RawSegment::Text(t) => {
                        out.append(t.as_str());
                    },
                    RawSegment::Field(c) => {
                        proof {
                            assert(method.filters@.contains(*c));
                            lemma_position_of(method.filters@, *c);
                        }
                        let position = position_in(&method.filters, *c);
                        push_char(&mut out, '$');
                        push_decimal(&mut out, offset + position + 1);
                    },
                }
                proof {
                    assert(texts.take(k + 1).drop_last() == texts.take(k as int));
                }
                k = k + 1;
            }
            proof {
                assert(texts.take(segments@.len() as int) == texts);
            }
            out
        },
    }
}

/// The names of the columns `picks`, in order.
pub open spec fn names_at(cols: Seq<Column>, picks: Seq<usize>) -> Seq<Seq<char>> {
    Seq::new(picks.len(), |k: int| cols[picks[k] as int].ident@)
}

/// The entries of `names` not in `excluded`, in order.
pub open spec fn without(names: Seq<Seq<char>>, excluded: Seq<Seq<char>>) -> Seq<Seq<char>>
    decreases names.len(),
{
    if names.len() == 0 {
        Seq::empty()
    } else {
        let rest = without(names.drop_last(), excluded);
        if excluded.contains(names.last()) {
            rest
        } else {
            rest.push(names.last())
        }
    }
}

/// The `ON CONFLICT` clause for conflict target `targets` over columns `all`.
pub open spec fn upsert_text(all: Seq<Seq<char>>, targets: Seq<Seq<char>>) -> Option<Seq<char>> {
    if targets.len() == 0 {
        None
    } else {
        let set = without(all, targets);
        if set.len() == 0 {
            Some(" ON CONFLICT ("@ + comma_list(targets) + ") DO NOTHING"@)
        } else {
            Some(" ON CONFLICT ("@ + comma_list(targets) + ") DO UPDATE SET "@
                + comma_list(set.map_values(|n: Seq<char>| n + "=EXCLUDED."@ + n)))
        }
    }
}

proof fn lemma_without_contains(names: Seq<Seq<char>>, excluded: Seq<Seq<char>>, x: Seq<char>)
    ensures
        without(names, excluded).contains(x) <==> names.contains(x) && !excluded.contains(x),
    decreases names.len(),
{
    if names.len() > 0 {
        let d = names.drop_last();
        lemma_without_contains(d, excluded, x);
        let r = without(d, excluded);
        if d.contains(x) {
            let k = choose|k: int| 0 <= k < d.len() && d[k] == x;
            assert(names[k] == x);
        }
        if names.contains(x) && !d.contains(x) {
            let k = choose|k: int| 0 <= k < names.len() && names[k] == x;
            if k < d.len() {
                assert(d[k] == x);
            }
            assert(names.last() == x);
        }
        if !excluded.contains(names.last()) {
            assert(r.push(names.last())[r.len() as int] == names.last());
            if r.push(names.last()).contains(x) && !r.contains(x) {
                let k = choose|k: int| 0 <= k < r.push(names.last()).len() && r.push(names.last())[k] == x;
                if k < r.len() {
                    assert(r[k] == x);
                }
            }
            if r.contains(x) {
                let k = choose|k: int| 0 <= k < r.len() && r[k] == x;
                assert(r.push(names.last())[k] == x);
            }
        }
    }
}

/// The `ON CONFLICT` clause: none without conflict targets; otherwise
/// ` ON CONFLICT (t1, t2, ...)` with the targets separated by `, `, then
/// ` DO NOTHING` when every column is a target, or ` DO UPDATE SET ` and one
/// `c=EXCLUDED.c` assignment per column that is not a target, in column
/// order, separated by `, `. The columns assigned are exactly those of
/// `all` that are not targets.
pub proof fn lemma_upsert_text_shape(all: Seq<Seq<char>>, targets: Seq<Seq<char>>)
    ensures
        targets.len() == 0 ==> upsert_text(all, targets) is None,
        forall|x: Seq<char>| #[trigger] without(all, targets).contains(x) <==> all.contains(x) && !targets.contains(x),
        targets.len() > 0 && without(all, targets).len() == 0 ==> upsert_text(all, targets)
            == Some(" ON CONFLICT ("@ + join(targets, ", "@) + ") DO NOTHING"@),
        targets.len() > 0 && without(all, targets).len() > 0 ==> upsert_text(all, targets)
            == Some(" ON CONFLICT ("@ + join(targets, ", "@) + ") DO UPDATE SET "@
                + join(Seq::new(without(all, targets).len(), |k: int| without(all, targets)[k] + "=EXCLUDED."@ + without(all, targets)[k]), ", "@)),
{
    assert forall|x: Seq<char>| #[trigger] without(all, targets).contains(x) <==> all.contains(x) && !targets.contains(x) by {
        lemma_without_contains(all, targets, x);
    }
    let w = without(all, targets);
    assert(Seq::new(w.len(), |k: int| w[k] + "=EXCLUDED."@ + w[k]) =~= w.map_values(|n: Seq<char>| n + "=EXCLUDED."@ + n));
}

pub open spec fn option_text(o: Option<String>) -> Option<Seq<char>> {
    match o {
        Some(s) => Some(s@),
        None => None,
    }
}

fn names_of_picks(columns: &Vec<Column>, picks: &Vec<usize>) -> (r: Vec<String>)
    requires
        picks_valid(columns@, picks@),
    ensures
        r@.map_values(|p: String| p@) == names_at(columns@, picks@),
{
    let mut out: Vec<String> = Vec::new();
    let mut k: usize = 0;
    while k < picks.len()
        invariant
            k <= picks@.len(),
            picks_valid(columns@, picks@),
            out@.len() == k,
            forall|j: int| 0 <= j < k ==> (#[trigger] out@[j])@ == columns@[picks@[j] as int].ident@,
        decreases picks.len() - k,
    {
        out.push(columns[picks[k]].ident.clone());
        k = k + 1;
    }
    proof {
        assert(out@.map_values(|p: String| p@) =~= names_at(columns@, picks@));
    }
    out
}

fn contains_name(names: &Vec<String>, name: &String) -> (r: bool)
    ensures
        r == names@.map_values(|p: String| p@).contains(name@),
{
    let ghost views = names@.map_values(|p: String| p@);
    let mut k: usize = 0;
    while k < names.len()
        invariant
            k <= names@.len(),
            views == names@.map_values(|p: String| p@),
            forall|j: int| 0 <= j < k ==> views[j] != name@,
        decreases names.len() - k,
    {
        if names[k] == *name {
            proof {
                assert(views[k as int] == name@);
            }
            return true;
        }
        k = k + 1;
    }
    false
}

/// `ON CONFLICT (email) DO UPDATE SET is_active=EXCLUDED.is_active` for the
/// conflict target `targets`; `DO NOTHING` when every column of `all` is a
/// target; nothing without targets.
pub fn upsert_clause(columns: &Vec<Column>, all: &Vec<usize>, targets: &Vec<usize>) -> (r: Option<String>)
    requires
        picks_valid(columns@, all@),
        picks_valid(columns@, targets@),
    ensures
        option_text(r) == upsert_text(names_at(columns@, all@), names_at(columns@, targets@)),
{
    if targets.len() == 0 {
        return None;
    }
    let target_names = names_of_picks(columns, targets);
    let all_names = names_of_picks(columns, all);
    let ghost tv = names_at(columns@, targets@);
    let ghost av = names_at(columns@, all@);
    let target_list = join_strings(&target_names, ", ");
    let mut set: Vec<String> = Vec::new();
    let mut k: usize = 0;
    while k < all_names.len()
        invariant
            k <= all_names@.len(),
            all_names@.map_values(|p: String| p@) == av,
            target_names@.map_values(|p: String| p@) == tv,
            set@.map_values(|p: String| p@) == without(av.take(k as int), tv),
        decreases all_names.len() - k,
    {
        let ghost before = set@;
        if !contains_name(&target_names, &all_names[k]) {
            set.push(all_names[k].clone());
            proof {
                assert(set@.map_values(|p: String| p@) =~= before.map_values(|p: String| p@).push(av[k as int]));
            }
        }
        proof {
            assert(av.take(k + 1).drop_last() == av.take(k as int));
            assert(av.take(k + 1).last() == av[k as int]);
        }
        k = k + 1;
    }
    proof {
        assert(av.take(all_names@.len() as int) == av);
    }
    let mut out = String::from_str(" ON CONFLICT (");
    out.append(target_list.as_str());
    if set.len() == 0 {
        out.append(") DO NOTHING");
        return Some(out);
    }
    let ghost sv = set@.map_values(|p: String| p@);
    let mut parts: Vec<String> = Vec::new();
    let mut j: usize = 0;
    while j < set.len()
        invariant
            j <= set@.len(),
            sv == set@.map_values(|p: String| p@),
            parts@.len() == j,
            forall|i: int| 0 <= i < j ==> (#[trigger] parts@[i])@ == sv[i] + "=EXCLUDED."@ + sv[i],
        decreases set.len() - j,
    {
        let mut part = set[j].clone();
        part.append("=EXCLUDED.");
        part.append(set[j].as_str());
        parts.push(part);
        j = j + 1;
    }
    proof {
        assert(parts@.map_values(|p: String| p@) =~= sv.map_values(|n: Seq<char>| n + "=EXCLUDED."@ + n));
    }
    out.append(") DO UPDATE SET ");
    let list = join_strings(&parts, ", ");
    out.append(list.as_str());
    Some(out)
}

// ---------------------------------------------------------------------------
// What a custom method spec renders as, stated over the model alone

/// The columns the `$field` pieces reference, in order, repeats included.
pub open spec fn piece_indices(ps: Seq<Piece>, names: Seq<Seq<char>>) -> Seq<usize>
    decreases ps.len(),
{
    if ps.len() == 0 {
        Seq::empty()
    } else {
        let rest = piece_indices(ps.drop_last(), names);
        match ps.last() {
            Piece::Field(n) => rest.push(index_named(names, n) as usize),
            Piece::Text(_) => rest,
        }
    }
}

/// The columns a custom method filters on, in placeholder order.
pub open spec fn custom_filters_of(model: TableModel, spec: MethodSpec) -> Seq<usize> {
    match spec.filter {
        MethodFilterSpec::Fields(fs) => Seq::new(fs@.len(), |j: int| index_named(model.names(), fs@[j]@) as usize),
        MethodFilterSpec::Raw(t) => first_occurrences(piece_indices(pieces(t@), model.names())),
    }
}

/// The text a raw-template piece renders as.
pub open spec fn piece_text(p: Piece, names: Seq<Seq<char>>, filters: Seq<usize>, offset: nat) -> Seq<char> {
    match p {
        Piece::Text(s) => s,
        Piece::Field(n) => seq!['$'] + decimal((offset + position_of(filters, index_named(names, n) as usize) + 1) as nat),
    }
}

/// A custom method's `WHERE` text at placeholder `offset`: `=`, `AND`-joined
/// over a field list; or the raw template with each `$field` replaced by
/// the placeholder of that field's first reference.
pub open spec fn custom_where_of(model: TableModel, spec: MethodSpec, offset: nat) -> Seq<char> {
    let filters = custom_filters_of(model, spec);
    match spec.filter {
        MethodFilterSpec::Fields(_) => and_list(eq_comparisons(model.columns@, filters, offset)),
        MethodFilterSpec::Raw(t) => concat(pieces(t@).map_values(|p: Piece| piece_text(p, model.names(), filters, offset))),
    }
}

proof fn lemma_segment_indices(segs: Seq<RawSegment>, ps: Seq<Piece>, names: Seq<Seq<char>>)
    requires
        segments_are(segs, ps, names),
    ensures
        field_indices(segs) == piece_indices(ps, names),
    decreases segs.len(),
{
    if segs.len() > 0 {
        let n = (segs.len() - 1) as int;
        assert(segment_is(segs[n], ps[n], names));
        assert(segments_are(segs.drop_last(), ps.drop_last(), names)) by {
            assert forall|k: int| 0 <= k < segs.drop_last().len() implies segment_is(#[trigger] segs.drop_last()[k], ps.drop_last()[k], names) by {
                assert(segment_is(segs[k], ps[k], names));
            }
        }
        lemma_segment_indices(segs.drop_last(), ps.drop_last(), names);
    }
}

proof fn lemma_field_indices_source(segs: Seq<RawSegment>, w: int)
    requires
        0 <= w < field_indices(segs).len(),
    ensures
        exists|k: int| 0 <= k < segs.len() && segs[k] == RawSegment::Field(field_indices(segs)[w]),
    decreases segs.len(),
{
    let n = segs.len() - 1;
    let d = field_indices(segs.drop_last());
    if w < d.len() {
        lemma_field_indices_source(segs.drop_last(), w);
        let k = choose|k: int| 0 <= k < segs.drop_last().len() && segs.drop_last()[k] == RawSegment::Field(d[w]);
        assert(segs[k] == RawSegment::Field(field_indices(segs)[w]));
    } else {
        assert(segs[n] == RawSegment::Field(field_indices(segs)[w]));
    }
}

proof fn lemma_field_indices_in(segs: Seq<RawSegment>, k: int)
    requires
        0 <= k < segs.len(),
        segs[k] is Field,
    ensures
        field_indices(segs).contains(segs[k]->Field_0),
    decreases segs.len(),
{
    let n = segs.len() - 1;
    if k == n {
        assert(field_indices(segs).last() == segs[k]->Field_0);
    } else {
        lemma_field_indices_in(segs.drop_last(), k);
        let x = segs[k]->Field_0;
        let w = choose|w: int| 0 <= w < field_indices(segs.drop_last()).len() && field_indices(segs.drop_last())[w] == x;
        assert(field_indices(segs)[w] == x);
    }
}

proof fn lemma_first_occurrences_contains(s: Seq<usize>, x: usize)
    ensures
        first_occurrences(s).contains(x) <==> s.contains(x),
    decreases s.len(),
{
    if s.len() > 0 {
        let d = s.drop_last();
        lemma_first_occurrences_contains(d, x);
        let r = first_occurrences(d);
        if s.contains(x) && !d.contains(x) {
            assert(s.last() == x) by {
                let w = choose|w: int| 0 <= w < s.len() && s[w] == x;
                if w < s.len() - 1 {
                    assert(d[w] == x);
                }
            }
            if !r.contains(x) {
                assert(r.push(x)[r.len() as int] == x);
            }
        }
        if d.contains(x) {
            let w = choose|w: int| 0 <= w < d.len() && d[w] == x;
            assert(s[w] == x);
        }
        if first_occurrences(s).contains(x) && !r.contains(x) {
            let w = choose|w: int| 0 <= w < first_occurrences(s).len() && first_occurrences(s)[w] == x;
            assert(s.last() == x);
            assert(s[s.len() - 1] == x);
        }
        if r.contains(x) {
            let w = choose|w: int| 0 <= w < r.len() && r[w] == x;
            if !r.contains(s.last()) {
                assert(r.push(s.last())[w] == x);
            }
        }
    }
}

/// A resolved custom method's filters and `WHERE` text are the ones its spec
/// states over the model.
pub proof fn lemma_resolution_renders(model: TableModel, spec: MethodSpec, m: CustomMethod, offset: nat)
    requires
        resolves_to(model, spec, m),
    ensures
        m.filters@ == custom_filters_of(model, spec),
        picks_valid(model.columns@, m.filters@),
        custom_where(model.columns@, m, offset) == custom_where_of(model, spec, offset),
        m.template matches FilterTemplate::Raw(segs) ==> forall|k: int| 0 <= k < segs@.len()
            ==> ((#[trigger] segs@[k]) matches RawSegment::Field(c) ==> m.filters@.contains(c)),
{
    match spec.filter {
        MethodFilterSpec::Fields(fs) => {
            assert(m.filters@ =~= custom_filters_of(model, spec));
            assert forall|j: int| 0 <= j < m.filters@.len() implies (#[trigger] m.filters@[j]) < model.columns@.len() by {
                lemma_index_named(model.names(), fs@[j]@);
            }
        },
        MethodFilterSpec::Raw(t) => {
            let segs = m.template->Raw_0;
            let ps = pieces(t@);
            lemma_segment_indices(segs@, ps, model.names());
            let a = segs@.map_values(|g: RawSegment| segment_text(g, m.filters@, offset));
            let b = ps.map_values(|p: Piece| piece_text(p, model.names(), m.filters@, offset));
            assert forall|k: int| 0 <= k < a.len() implies a[k] == b[k] by {
                assert(segment_is(segs@[k], ps[k], model.names()));
            }
            assert(a =~= b);
            assert forall|j: int| 0 <= j < m.filters@.len() implies (#[trigger] m.filters@[j]) < model.columns@.len() by {
                let x = m.filters@[j];
                lemma_first_occurrences_contains(field_indices(segs@), x);
                assert(field_indices(segs@).contains(x));
                let w = choose|w: int| 0 <= w < field_indices(segs@).len() && field_indices(segs@)[w] == x;
                lemma_field_indices_source(segs@, w);
                let k = choose|k: int| 0 <= k < segs@.len() && segs@[k] == RawSegment::Field(x);
                assert(segment_is(segs@[k], ps[k], model.names()));
                lemma_index_named(model.names(), ps[k]->Field_0);
            }
            assert forall|k: int| 0 <= k < segs@.len()
                implies ((#[trigger] segs@[k]) matches RawSegment::Field(c) ==> m.filters@.contains(c)) by {
                if segs@[k] is Field {
                    lemma_field_indices_in(segs@, k);
                    lemma_first_occurrences_contains(field_indices(segs@), segs@[k]->Field_0);
                }
            }
        },
    }
}

/// The names the `$field` pieces reference, in order, repeats included.
pub open spec fn field_names(ps: Seq<Piece>) -> Seq<Seq<char>>
    decreases ps.len(),
{
    if ps.len() == 0 {
        Seq::empty()
    } else {
        let rest = field_names(ps.drop_last());
        match ps.last() {
            Piece::Field(n) => rest.push(n),
            Piece::Text(_) => rest,
        }
    }
}

/// `ns` with every repeat of an earlier name removed.
pub open spec fn distinct_names(ns: Seq<Seq<char>>) -> Seq<Seq<char>>
    decreases ns.len(),
{
    if ns.len() == 0 {
        Seq::empty()
    } else {
        let r = distinct_names(ns.drop_last());
        if r.contains(ns.last()) {
            r
        } else {
            r.push(ns.last())
        }
    }
}

/// The text a raw-template piece renders as, given the distinct names in
/// order of first reference: literal text as it is, and `$name` as `$`
/// followed by `offset` plus the name's 1-based rank.
pub open spec fn ranked_piece_text(p: Piece, ranks: Seq<Seq<char>>, offset: nat) -> Seq<char> {
    match p {
        Piece::Text(s) => s,
        Piece::Field(n) => seq!['$'] + decimal((offset + index_named(ranks, n) + 1) as nat),
    }
}

/// A raw template with each `$name` replaced by its placeholder.
pub open spec fn rendered_template(t: Seq<char>, offset: nat) -> Seq<char> {
    let ps = pieces(t);
    concat(ps.map_values(|p: Piece| ranked_piece_text(p, distinct_names(field_names(ps)), offset)))
}

/// The columns named by `ns`.
pub open spec fn columns_named(names: Seq<Seq<char>>, ns: Seq<Seq<char>>) -> Seq<usize> {
    Seq::new(ns.len(), |k: int| index_named(names, ns[k]) as usize)
}

/// Every name of `ns` names a column.
pub open spec fn all_known(names: Seq<Seq<char>>, ns: Seq<Seq<char>>) -> bool {
    forall|k: int| 0 <= k < ns.len() ==> index_named(names, #[trigger] ns[k]) >= 0
}

proof fn lemma_known_distinct(names: Seq<Seq<char>>, a: Seq<char>, b: Seq<char>)
    requires
        names.len() <= usize::MAX,
        index_named(names, a) >= 0,
        index_named(names, b) >= 0,
        index_named(names, a) as usize == index_named(names, b) as usize,
    ensures
        a == b,
{
    lemma_index_named(names, a);
    lemma_index_named(names, b);
}

proof fn lemma_piece_indices_named(ps: Seq<Piece>, names: Seq<Seq<char>>)
    ensures
        piece_indices(ps, names) == columns_named(names, field_names(ps)),
    decreases ps.len(),
{
    if ps.len() > 0 {
        lemma_piece_indices_named(ps.drop_last(), names);
        let rest = field_names(ps.drop_last());
        match ps.last() {
            Piece::Field(n) => {
                assert(columns_named(names, rest.push(n)) =~= columns_named(names, rest).push(index_named(names, n) as usize));
            },
            Piece::Text(_) => {},
        }
    } else {
        assert(columns_named(names, Seq::empty()) =~= Seq::<usize>::empty());
    }
}

proof fn lemma_field_names_known(ps: Seq<Piece>, names: Seq<Seq<char>>)
    requires
        forall|k: int| 0 <= k < ps.len() && (#[trigger] ps[k]) is Field ==> index_named(names, ps[k]->Field_0) >= 0,
    ensures
        all_known(names, field_names(ps)),
    decreases ps.len(),
{
    if ps.len() > 0 {
        assert forall|k: int| 0 <= k < ps.drop_last().len() && (#[trigger] ps.drop_last()[k]) is Field
            implies index_named(names, ps.drop_last()[k]->Field_0) >= 0 by {
            assert(ps.drop_last()[k] == ps[k]);
        }
        lemma_field_names_known(ps.drop_last(), names);
        let n = ps.len() - 1;
        assert(ps.last() == ps[n]);
    }
}

proof fn lemma_distinct_names_columns(ns: Seq<Seq<char>>, names: Seq<Seq<char>>)
    requires
        names.len() <= usize::MAX,
        all_known(names, ns),
    ensures
        first_occurrences(columns_named(names, ns)) == columns_named(names, distinct_names(ns)),
        all_known(names, distinct_names(ns)),
    decreases ns.len(),
{
    if ns.len() > 0 {
        let d = ns.drop_last();
        let x = ns.last();
        assert(all_known(names, d)) by {
            assert forall|k: int| 0 <= k < d.len() implies index_named(names, #[trigger] d[k]) >= 0 by {
                assert(d[k] == ns[k]);
            }
        }
        assert(index_named(names, x) >= 0) by {
            assert(x == ns[ns.len() - 1]);
        }
        lemma_distinct_names_columns(d, names);
        let g = distinct_names(d);
        let r = first_occurrences(columns_named(names, d));
        let fx = index_named(names, x) as usize;
        assert(columns_named(names, ns).drop_last() =~= columns_named(names, d));
        assert(columns_named(names, ns).last() == fx);
        assert(r == columns_named(names, g));
        assert(r.contains(fx) <==> g.contains(x)) by {
            if r.contains(fx) {
                let k = choose|k: int| 0 <= k < r.len() && r[k] == fx;
                assert(r[k] == index_named(names, g[k]) as usize);
                lemma_known_distinct(names, g[k], x);
            }
            if g.contains(x) {
                let k = choose|k: int| 0 <= k < g.len() && g[k] == x;
                assert(r[k] == fx);
            }
        }
        if !g.contains(x) {
            assert(columns_named(names, g.push(x)) =~= columns_named(names, g).push(fx));
            assert(all_known(names, g.push(x))) by {
                assert forall|k: int| 0 <= k < g.push(x).len() implies index_named(names, #[trigger] g.push(x)[k]) >= 0 by {
                    if k < g.len() {
                        assert(g.push(x)[k] == g[k]);
                    }
                }
            }
        }
    } else {
        assert(columns_named(names, Seq::empty()) =~= Seq::<usize>::empty());
    }
}

proof fn lemma_position_is_rank(g: Seq<Seq<char>>, names: Seq<Seq<char>>, n: Seq<char>)
    requires
        names.len() <= usize::MAX,
        all_known(names, g),
        index_named(names, n) >= 0,
    ensures
        position_of(columns_named(names, g), index_named(names, n) as usize) == index_named(g, n),
    decreases g.len(),
{
    if g.len() > 0 {
        let cg = columns_named(names, g);
        assert(cg.drop_first() =~= columns_named(names, g.drop_first()));
        assert(cg[0] == index_named(names, g[0]) as usize);
        assert(index_named(names, g[0]) >= 0);
        if cg[0] == index_named(names, n) as usize {
            lemma_known_distinct(names, g[0], n);
        } else {
            assert(all_known(names, g.drop_first())) by {
                assert forall|k: int| 0 <= k < g.drop_first().len() implies index_named(names, #[trigger] g.drop_first()[k]) >= 0 by {
                    assert(g.drop_first()[k] == g[k + 1]);
                }
            }
            lemma_position_is_rank(g.drop_first(), names, n);
        }
    }
}

/// A custom method resolved from a raw template renders as that template
/// with every `$name` replaced by `$` and `offset` plus the name's 1-based
/// rank among the distinct names referenced, in order of first reference;
/// every other character, any other `$` among them, is kept, since the
/// pieces the template splits into write back to the template.
pub proof fn lemma_raw_template_renders(model: TableModel, spec: MethodSpec, m: CustomMethod, offset: nat)
    requires
        resolves_to(model, spec, m),
        spec.filter is Raw,
    ensures
        custom_where(model.columns@, m, offset) == rendered_template(spec.filter->Raw_0@, offset),
        source_of(pieces(spec.filter->Raw_0@)) == spec.filter->Raw_0@,
{
    let t = spec.filter->Raw_0@;
    let ps = pieces(t);
    let names = model.names();
    let segs = m.template->Raw_0@;
    assert(names.len() == model.columns.len());
    lemma_resolution_renders(model, spec, m, offset);
    lemma_pieces_roundtrip(t);
    assert forall|k: int| 0 <= k < ps.len() && (#[trigger] ps[k]) is Field implies index_named(names, ps[k]->Field_0) >= 0 by {
        assert(segment_is(segs[k], ps[k], names));
    }
    lemma_field_names_known(ps, names);
    lemma_piece_indices_named(ps, names);
    lemma_distinct_names_columns(field_names(ps), names);
    let g = distinct_names(field_names(ps));
    let filters = first_occurrences(piece_indices(ps, names));
    assert(filters == columns_named(names, g));
    let a = ps.map_values(|p: Piece| piece_text(p, names, filters, offset));
    let b = ps.map_values(|p: Piece| ranked_piece_text(p, g, offset));
    assert forall|k: int| 0 <= k < a.len() implies a[k] == b[k] by {
        if ps[k] is Field {
            lemma_position_is_rank(g, names, ps[k]->Field_0);
        }
    }
    assert(a =~= b);
}

// ---------------------------------------------------------------------------
// Parameters and bind arguments of generated methods

/// A parameter of a generated method: the column it is named and typed
/// after, and whether it takes `&[FieldType]` instead of `FieldType`.
#[derive(Debug, Clone, Copy, PartialEq, Eq, Structural)]
pub struct Param {
    pub column: usize,
    pub slice: bool,
}

/// A bind argument `self.<field>` of a generated method, cast with `as _`
/// when the column has `as_type`.
#[derive(Debug, Clone, Copy, PartialEq, Eq, Structural)]
pub struct Bind {
    pub column: usize,
    pub cast: bool,
}

/// The parameters of a method filtering on `choices`: `In`/`NotIn` take a slice.
pub open spec fn params_of(choices: Seq<FilterChoice>) -> Seq<Param> {
    Seq::new(choices.len(), |k: int| Param {
        column: choices[k].column,
        slice: choices[k].op is In || choices[k].op is NotIn,
    })
}

/// The bind arguments for the columns `picks`: only `as_type` columns are cast.
pub open spec fn binds_of(cols: Seq<Column>, picks: Seq<usize>) -> Seq<Bind> {
    Seq::new(picks.len(), |k: int| Bind { column: picks[k], cast: cols[picks[k] as int].has_as_type })
}

/// `id: i32, ids: &[i32]`: one parameter per choice.
pub fn params_tokens_for_choices(choices: &Vec<FilterChoice>) -> (r: Vec<Param>)
    ensures
        r@ == params_of(choices@),
{
    let mut out: Vec<Param> = Vec::new();
    let mut k: usize = 0;
    while k < choices.len()
        invariant
            k <= choices@.len(),
            out@ == params_of(choices@).take(k as int),
        decreases choices.len() - k,
    {
        let c = choices[k];
        let slice = match c.op {
            Operator::In | Operator::NotIn => true,
            _ => false,
        };
        out.push(Param { column: c.column, slice });
        proof {
            assert(params_of(choices@).take(k + 1) =~= params_of(choices@).take(k as int).push(Param { column: c.column, slice }));
        }
        k = k + 1;
    }
    proof {
        assert(params_of(choices@).take(choices@.len() as int) =~= params_of(choices@));
    }
    out
}

/// `self.email, self.role as _`: one bind per column, cast only for `as_type`.
pub fn self_bind_tokens(columns: &Vec<Column>, picks: &Vec<usize>) -> (r: Vec<Bind>)
    requires
        picks_valid(columns@, picks@),
    ensures
        r@ == binds_of(columns@, picks@),
{
    let mut out: Vec<Bind> = Vec::new();
    let mut k: usize = 0;
    while k < picks.len()
        invariant
            k <= picks@.len(),
            picks_valid(columns@, picks@),
            out@ == binds_of(columns@, picks@).take(k as int),
        decreases picks.len() - k,
    {
        let b = Bind { column: picks[k], cast: columns[picks[k]].has_as_type };
        out.push(b);
        proof {
            assert(binds_of(columns@, picks@).take(k + 1) =~= binds_of(columns@, picks@).take(k as int).push(b));
        }
        k = k + 1;
    }
    proof {
        assert(binds_of(columns@, picks@).take(picks@.len() as int) =~= binds_of(columns@, picks@));
    }
    out
}

/// The names of the columns `picks`.
pub fn idents(columns: &Vec<Column>, picks: &Vec<usize>) -> (r: Vec<String>)
    requires
        picks_valid(columns@, picks@),
    ensures
        r@.map_values(|p: String| p@) == names_at(columns@, picks@),
{
    names_of_picks(columns, picks)
}

// ---------------------------------------------------------------------------
// Laws of raw filter templates

/// The columns a raw template filters on are listed once each.
pub proof fn lemma_first_occurrences_no_duplicates(s: Seq<usize>)
    ensures
        first_occurrences(s).no_duplicates(),
    decreases s.len(),
{
    if s.len() > 0 {
        lemma_first_occurrences_no_duplicates(s.drop_last());
        let r = first_occurrences(s.drop_last());
        if !r.contains(s.last()) {
            let t = r.push(s.last());
            assert forall|a: int, b: int| 0 <= a < t.len() && 0 <= b < t.len() && a != b implies t[a] != t[b] by {
                if a == r.len() {
                    assert(t[b] == r[b]);
                } else if b == r.len() {
                    assert(t[a] == r[a]);
                }
            }
        }
    }
}

/// In a raw filter template whose fields all exist, two `$field`
/// references render as the same placeholder exactly when they name the same
/// column, and every placeholder is one of `$offset+1 ..= $offset+n` for the
/// `n` distinct columns referenced.
pub proof fn lemma_raw_placeholders(model: TableModel, t: Seq<char>, offset: nat, a: int, b: int)
    requires
        unknown_field(pieces(t), model.names()) is None,
        0 <= a < pieces(t).len(),
        0 <= b < pieces(t).len(),
        pieces(t)[a] is Field,
        pieces(t)[b] is Field,
    ensures
        ({
            let filters = first_occurrences(piece_indices(pieces(t), model.names()));
            piece_text(pieces(t)[a], model.names(), filters, offset)
                == piece_text(pieces(t)[b], model.names(), filters, offset)
            <==> index_named(model.names(), pieces(t)[a]->Field_0)
                == index_named(model.names(), pieces(t)[b]->Field_0)
        }),
        ({
            let filters = first_occurrences(piece_indices(pieces(t), model.names()));
            let p = position_of(filters, index_named(model.names(), pieces(t)[a]->Field_0) as usize);
            0 <= p < filters.len()
        }),
{
    let ps = pieces(t);
    let names = model.names();
    let idx = piece_indices(ps, names);
    let filters = first_occurrences(idx);
    let ia = index_named(names, ps[a]->Field_0);
    let ib = index_named(names, ps[b]->Field_0);
    lemma_unknown_field_none(ps, names, a);
    lemma_unknown_field_none(ps, names, b);
    lemma_index_named(names, ps[a]->Field_0);
    lemma_index_named(names, ps[b]->Field_0);
    assert(names.len() == model.columns.len());
    let x = ia as usize;
    let y = ib as usize;
    lemma_piece_indices_contains(ps, names, a);
    lemma_piece_indices_contains(ps, names, b);
    lemma_first_occurrences_contains(idx, x);
    lemma_first_occurrences_contains(idx, y);
    lemma_position_of(filters, x);
    lemma_position_of(filters, y);
    let ta = piece_text(ps[a], names, filters, offset);
    let tb = piece_text(ps[b], names, filters, offset);
    if ta == tb {
        let pa = position_of(filters, x);
        let pb = position_of(filters, y);
        assert(ta.drop_first() == decimal((offset + pa + 1) as nat));
        assert(tb.drop_first() == decimal((offset + pb + 1) as nat));
        lemma_decimal_injective((offset + pa + 1) as nat, (offset + pb + 1) as nat);
        assert(filters[pa] == x && filters[pb] == y);
    }
}

proof fn lemma_unknown_field_none(ps: Seq<Piece>, names: Seq<Seq<char>>, a: int)
    requires
        unknown_field(ps, names) is None,
        0 <= a < ps.len(),
        ps[a] is Field,
    ensures
        index_named(names, ps[a]->Field_0) >= 0,
    decreases ps.len(),
{
    if a > 0 {
        assert(ps.drop_first()[a - 1] == ps[a]);
        lemma_unknown_field_none(ps.drop_first(), names, a - 1);
    }
}

proof fn lemma_piece_indices_contains(ps: Seq<Piece>, names: Seq<Seq<char>>, a: int)
    requires
        0 <= a < ps.len(),
        ps[a] is Field,
    ensures
        piece_indices(ps, names).contains(index_named(names, ps[a]->Field_0) as usize),
    decreases ps.len(),
{
    let n = ps.len() - 1;
    if a == n {
        assert(piece_indices(ps, names).last() == index_named(names, ps[a]->Field_0) as usize);
    } else {
        lemma_piece_indices_contains(ps.drop_last(), names, a);
        let x = index_named(names, ps[a]->Field_0) as usize;
        let d = piece_indices(ps.drop_last(), names);
        let w = choose|w: int| 0 <= w < d.len() && d[w] == x;
        assert(piece_indices(ps, names)[w] == x);
    }
}

/// The names of the columns `choices` filter on.
pub fn idents_for_choices(columns: &Vec<Column>, choices: &Vec<FilterChoice>) -> (r: Vec<String>)
    requires
        choices_valid(columns@, choices@),
    ensures
        r@.len() == choices@.len(),
        forall|k: int| 0 <= k < choices@.len() ==> (#[trigger] r@[k])@ == columns@[choices@[k].column as int].ident@,
{
    let mut out: Vec<String> = Vec::new();
    let mut k: usize = 0;
    while k < choices.len()
        invariant
            k <= choices@.len(),
            choices_valid(columns@, choices@),
            out@.len() == k,
            forall|j: int| 0 <= j < k ==> (#[trigger] out@[j])@ == columns@[choices@[j].column as int].ident@,
        decreases choices.len() - k,
    {
        out.push(columns[choices[k].column].ident.clone());
        k = k + 1;
    }
    out
}

} // verus!
