//! Character classification and string building shared by every module.

use vstd::prelude::*;

verus! {

/// Unicode `Uppercase` property of a character, as `char::is_uppercase` reports it.
pub uninterp spec fn is_upper(c: char) -> bool;

/// Unicode `Lowercase` property of a character, as `char::is_lowercase` reports it.
pub uninterp spec fn is_lower(c: char) -> bool;

/// Unicode numeric property of a character, as `char::is_numeric` reports it.
pub uninterp spec fn is_numeric(c: char) -> bool;

/// Unicode `Alphabetic` property of a character, as `char::is_alphabetic` reports it.
pub uninterp spec fn is_alpha(c: char) -> bool;

/// The lowercase mapping of a character, as `char::to_lowercase` yields it.
pub uninterp spec fn lower_of(c: char) -> Seq<char>;

/// Calls `char::is_uppercase`; the result is the named property `is_upper`.
#[verifier::external_body]
pub(crate) fn char_is_upper(c: char) -> (r: bool)
    ensures
        r == is_upper(c),
{
    c.is_uppercase()
}

/// Calls `char::is_lowercase`; the result is the named property `is_lower`.
#[verifier::external_body]
pub(crate) fn char_is_lower(c: char) -> (r: bool)
    ensures
        r == is_lower(c),
{
    c.is_lowercase()
}

/// Calls `char::is_numeric`; the result is the named property `is_numeric`.
#[verifier::external_body]
pub(crate) fn char_is_numeric(c: char) -> (r: bool)
    ensures
        r == is_numeric(c),
{
    c.is_numeric()
}

/// Calls `char::is_alphabetic`; the result is the named property `is_alpha`.
#[verifier::external_body]
pub(crate) fn char_is_alpha(c: char) -> (r: bool)
    ensures
        r == is_alpha(c),
{
    c.is_alphabetic()
}

/// Calls `char::to_lowercase` and collects the mapping it yields, which std
/// documents as one or more characters.
#[verifier::external_body]
pub(crate) fn char_to_lower(c: char) -> (r: Vec<char>)
    ensures
        r@ == lower_of(c),
        r@.len() >= 1,
{
    c.to_lowercase().collect()
}

/// The characters of `s`, in order.
pub(crate) fn chars_of(s: &str) -> (r: Vec<char>)
    ensures
        r@ == s@,
{
    let mut out: Vec<char> = Vec::new();
    for c in it: s.chars()
        invariant
            out@ == it.seq().take(it.index()),
    {
        out.push(c);
        proof {
            assert(it.seq().take(it.index() + 1) == it.seq().take(it.index()).push(c));
        }
    }
    out
}

/// Calls `String::push`, which appends one character.
#[verifier::external_body]
pub(crate) fn push_char(s: &mut String, c: char)
    ensures
        final(s)@ == old(s)@.push(c),
{
    s.push(c)
}

/// The decimal digit character for `d < 10`.
pub open spec fn digit_of(d: nat) -> char {
    if d == 0 { '0' } else if d == 1 { '1' } else if d == 2 { '2' } else if d == 3 { '3' }
    else if d == 4 { '4' } else if d == 5 { '5' } else if d == 6 { '6' } else if d == 7 { '7' }
    else if d == 8 { '8' } else { '9' }
}

/// Decimal notation of a natural number, without leading zeros.
pub open spec fn decimal(n: nat) -> Seq<char>
    decreases n,
{
    if n < 10 {
        seq![digit_of(n)]
    } else {
        decimal(n / 10).push(digit_of(n % 10))
    }
}

/// Different numbers have different decimal notations.
pub proof fn lemma_decimal_injective(n: nat, m: nat)
    requires
        decimal(n) == decimal(m),
    ensures
        n == m,
    decreases n,
{
    if n >= 10 && m >= 10 {
        let dn = decimal(n);
        let dm = decimal(m);
        assert(dn.last() == digit_of(n % 10) && dm.last() == digit_of(m % 10));
        assert(n % 10 == m % 10);
        assert(dn.drop_last() == decimal(n / 10) && dm.drop_last() == decimal(m / 10));
        lemma_decimal_injective(n / 10, m / 10);
    } else if n >= 10 {
        assert(decimal(n).len() == decimal(n / 10).len() + 1);
        assert(decimal(n / 10).len() >= 1) by {
            reveal_with_fuel(decimal, 2);
        }
    } else if m >= 10 {
        assert(decimal(m).len() == decimal(m / 10).len() + 1);
        assert(decimal(m / 10).len() >= 1) by {
            reveal_with_fuel(decimal, 2);
        }
    } else {
        assert(decimal(n)[0] == digit_of(n) && decimal(m)[0] == digit_of(m));
    }
}

/// Joins `parts` with `sep` between consecutive elements.
pub open spec fn join(parts: Seq<Seq<char>>, sep: Seq<char>) -> Seq<char>
    decreases parts.len(),
{
    if parts.len() == 0 {
        Seq::empty()
    } else if parts.len() == 1 {
        parts[0]
    } else {
        join(parts.drop_last(), sep) + sep + parts.last()
    }
}

/// Concatenation of `parts`, in order.
pub open spec fn concat(parts: Seq<Seq<char>>) -> Seq<char>
    decreases parts.len(),
{
    if parts.len() == 0 {
        Seq::empty()
    } else {
        concat(parts.drop_last()) + parts.last()
    }
}

fn digit_char(d: usize) -> (c: char)
    requires
        d < 10,
    ensures
        c == digit_of(d as nat),
{
    if d == 0 { '0' } else if d == 1 { '1' } else if d == 2 { '2' } else if d == 3 { '3' }
    else if d == 4 { '4' } else if d == 5 { '5' } else if d == 6 { '6' } else if d == 7 { '7' }
    else if d == 8 { '8' } else { '9' }
}

/// Appends the decimal notation of `n` to `out`.
pub fn push_decimal(out: &mut String, n: usize)
    ensures
        final(out)@ == old(out)@ + decimal(n as nat),
    decreases n,
{
    if n >= 10 {
        push_decimal(out, n / 10);
    }
    let c = digit_char(n % 10);
    push_char(out, c);
    proof {
        if n < 10 {
            assert(n % 10 == n);
        }
    }
}

/// Joins the strings of `parts` with `sep` between consecutive elements.
pub fn join_strings(parts: &Vec<String>, sep: &str) -> (r: String)
    ensures
        r@ == join(parts@.map_values(|p: String| p@), sep@),
{
    let ghost views = parts@.map_values(|p: String| p@);
    let mut out = String::new();
    let mut i: usize = 0;
    while i < parts.len()
        invariant
            i <= parts.len(),
            views == parts@.map_values(|p: String| p@),
            out@ == join(views.take(i as int), sep@),
        decreases parts.len() - i,
    {
        if i > 0 {
            out.append(sep);
        }
        out.append(parts[i].as_str());
        proof {
            assert(views.take(i + 1).drop_last() == views.take(i as int));
            if i == 0 {
                assert(out@ == views.take(1)[0]);
            }
        }
        i = i + 1;
    }
    proof {
        assert(views.take(parts.len() as int) == views);
    }
    out
}

} // verus!
