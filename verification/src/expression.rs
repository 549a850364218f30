use crate::codec::{
    float_of_i64, float_of_u64, i64_as_float, is_finite_float, json_text, json_text_of,
    literal_view, number_literal, parse_number_literal, u64_as_float,
};
use crate::context::{
    context_well_formed, lemma_lookup_is_well_formed, lookup_spec, BindingContext, ContextView,
};
use crate::json::{
    float_equal, floats_equal, lemma_array_view, lemma_object_view,
    lemma_same_is_reflexive, lemma_same_is_symmetric, number_nonzero, number_well_formed, option_view, same_json,
    well_formed, Json, JsonNumber, JsonView, NumberValue,
};
use crate::text::{
    chars_of, equals_ignoring_case, is_sigil, lemma_trim_len, same_ignoring_case, trim, trim_str,
};
use vstd::prelude::*;

verus! {

/// The bracket depth after `c`, coming from `depth`: `(` and `{` open,
/// `)` and `}` close, and a close at depth zero stays at zero.
pub open spec fn depth_step(depth: nat, c: char) -> nat {
    if c == '(' || c == '{' {
        depth + 1
    } else if c == ')' || c == '}' {
        if depth > 0 {
            (depth - 1) as nat
        } else {
            0
        }
    } else {
        depth
    }
}

/// The bracket depth after the first `n` characters of `s`.
pub open spec fn depth_after(s: Seq<char>, n: int) -> nat
    decreases n,
{
    if n <= 0 || n > s.len() {
        0
    } else {
        depth_step(depth_after(s, n - 1), s[n - 1])
    }
}

/// The first index at or after `from` that holds `sep` at depth zero.
pub open spec fn top_level_from(s: Seq<char>, sep: char, from: int) -> Option<int>
    decreases s.len() - from,
{
    if from < 0 || from >= s.len() {
        None
    } else if depth_after(s, from + 1) == 0 && s[from] == sep {
        Some(from)
    } else {
        top_level_from(s, sep, from + 1)
    }
}

/// The two sides of the first `sep` at depth zero.
pub open spec fn top_level_split(s: Seq<char>, sep: char) -> Option<(Seq<char>, Seq<char>)> {
    match top_level_from(s, sep, 0) {
        Some(i) => Some((s.subrange(0, i), s.subrange(i + 1, s.len() as int))),
        None => None,
    }
}

/// The first index at or after `from` where `==` stands at depth zero.
pub open spec fn equality_from(s: Seq<char>, from: int) -> Option<int>
    decreases s.len() - from,
{
    if from < 0 || from + 1 >= s.len() {
        None
    } else if s[from] == '=' && s[from + 1] == '=' && depth_after(s, from) == 0 {
        Some(from)
    } else {
        equality_from(s, from + 1)
    }
}

/// The two sides of the first `==` at depth zero.
pub open spec fn equality_split(s: Seq<char>) -> Option<(Seq<char>, Seq<char>)> {
    match equality_from(s, 0) {
        Some(i) => Some((s.subrange(0, i), s.subrange(i + 2, s.len() as int))),
        None => None,
    }
}

/// Where a separator is found, it lies in the text at or after `from`.
pub proof fn lemma_top_level_from(s: Seq<char>, sep: char, from: int)
    requires
        0 <= from,
    ensures
        top_level_from(s, sep, from) matches Some(i) ==> from <= i < s.len() && s[i] == sep
            && depth_after(s, i + 1) == 0,
    decreases s.len() - from,
{
    if from < s.len() && !(depth_after(s, from + 1) == 0 && s[from] == sep) {
        lemma_top_level_from(s, sep, from + 1);
    }
}

/// The texts of a pair of string slices.
pub open spec fn pair_view(r: Option<(&str, &str)>) -> Option<(Seq<char>, Seq<char>)> {
    match r {
        Some((a, b)) => Some((a@, b@)),
        None => None,
    }
}

fn next_depth(depth: usize, c: char) -> (r: usize)
    requires
        depth < usize::MAX,
    ensures
        r == depth_step(depth as nat, c),
{
    if c == '(' || c == '{' {
        depth + 1
    } else if c == ')' || c == '}' {
        if depth > 0 {
            depth - 1
        } else {
            0
        }
    } else {
        depth
    }
}

/// Splits `expr` at the first `separator` that stands outside every
/// bracket: the text before it and the text after it.
pub fn split_top_level<'a>(expr: &'a str, separator: char) -> (r: Option<(&'a str, &'a str)>)
    ensures
        pair_view(r) == top_level_split(expr@, separator),
{
    let chars = chars_of(expr);
    let n = chars.len();
    let mut depth: usize = 0;
    let mut i: usize = 0;
    while i < n
        invariant
            i <= n,
            n == expr@.len(),
            chars@ == expr@,
            depth == depth_after(expr@, i as int),
            depth <= i,
            top_level_from(expr@, separator, 0) == top_level_from(expr@, separator, i as int),
        decreases n - i,
    {
        let c = chars[i];
        depth = next_depth(depth, c);
        if depth == 0 && c == separator {
            return Some((expr.substring_char(0, i), expr.substring_char(i + 1, n)));
        }
        i += 1;
    }
    None
}

/// Splits `expr` at the first `==` that stands outside every bracket.
pub fn split_equality<'a>(expr: &'a str) -> (r: Option<(&'a str, &'a str)>)
    ensures
        pair_view(r) == equality_split(expr@),
{
    let chars = chars_of(expr);
    let n = chars.len();
    let mut depth: usize = 0;
    let mut i: usize = 0;
    while i < n && i + 1 < n
        invariant
            i <= n,
            n == expr@.len(),
            chars@ == expr@,
            depth == depth_after(expr@, i as int),
            depth <= i,
            equality_from(expr@, 0) == equality_from(expr@, i as int),
        decreases n - i,
    {
        let c = chars[i];
        if c == '=' && depth == 0 && chars[i + 1] == '=' {
            return Some((expr.substring_char(0, i), expr.substring_char(i + 2, n)));
        }
        depth = next_depth(depth, c);
        i += 1;
    }
    None
}

/// Whether a value counts as true in a condition: `false`, zero, the empty
/// string, `null`, the empty array and the empty object do not.
pub open spec fn truthy_spec(v: JsonView) -> bool {
    match v {
        JsonView::Null => false,
        JsonView::Bool(b) => b,
        JsonView::Number(n, _) => number_nonzero(n),
        JsonView::String(s) => s.len() > 0,
        JsonView::Array(items) => items.len() > 0,
        JsonView::Object(fields) => fields.len() > 0,
    }
}

/// The 64-bit float that stands for a number when two numbers are
/// compared.
pub open spec fn number_as_float(n: NumberValue) -> Option<u64> {
    match n {
        NumberValue::PosInt(u) => float_of_u64(u),
        NumberValue::NegInt(i) => float_of_i64(i),
        NumberValue::Float(bits) => Some(bits),
    }
}

/// Equality of two optional floats: both absent, or both present and
/// equal as numbers.
pub open spec fn optional_float_equal(a: Option<u64>, b: Option<u64>) -> bool {
    match (a, b) {
        (Some(x), Some(y)) => float_equal(x, y),
        (None, None) => true,
        _ => false,
    }
}

/// Loose equality: two numbers by their value as floats, any other pair
/// structurally.
pub open spec fn loosely_equal(a: JsonView, b: JsonView) -> bool {
    match (a, b) {
        (JsonView::Number(x, _), JsonView::Number(y, _)) => optional_float_equal(
            number_as_float(x),
            number_as_float(y),
        ),
        _ => same_json(a, b),
    }
}

/// The text that stands for a value inside a string: a string is its own
/// text, a number its decimal text, a boolean `true` or `false`, null
/// `null`, an array or object its compact JSON.
pub open spec fn stringify_spec(v: JsonView) -> Seq<char> {
    match v {
        JsonView::String(s) => s,
        JsonView::Number(_, text) => text,
        JsonView::Bool(b) => if b {
            "true"@
        } else {
            "false"@
        },
        JsonView::Null => "null"@,
        _ => json_text_of(v),
    }
}

/// Whether a value counts as true in a condition.
pub fn truthy(v: &Json) -> (r: bool)
    ensures
        r == truthy_spec(v@),
{
    match v {
        Json::Null => false,
        Json::Bool(b) => *b,
        Json::Number(n) => match n.value {
            NumberValue::PosInt(u) => u != 0,
            NumberValue::NegInt(i) => i != 0,
            NumberValue::Float(bits) => (bits & 0x7FFF_FFFF_FFFF_FFFF) != 0,
        },
        Json::String(s) => {
            let chars = chars_of(s.as_str());
            chars.len() > 0
        },
        Json::Array(items) => {
            proof {
                lemma_array_view(*v);
            }
            items.len() > 0
        },
        Json::Object(fields) => {
            proof {
                lemma_object_view(*v);
            }
            fields.len() > 0
        },
    }
}

/// Whether two optional floats are equal: both absent, or both present
/// and equal as numbers.
pub fn optional_floats_equal(a: Option<u64>, b: Option<u64>) -> (r: bool)
    ensures
        r == optional_float_equal(a, b),
{
    match (a, b) {
        (Some(x), Some(y)) => floats_equal(x, y),
        (None, None) => true,
        _ => false,
    }
}

/// The 64-bit float that stands for a number when two numbers are
/// compared.
pub fn as_float(n: &NumberValue) -> (r: Option<u64>)
    ensures
        r == number_as_float(*n),
        number_well_formed(*n) ==> is_finite_float(r),
{
    match n {
        NumberValue::PosInt(u) => u64_as_float(*u),
        NumberValue::NegInt(i) => i64_as_float(*i),
        NumberValue::Float(bits) => Some(*bits),
    }
}

/// Loose equality of two values: numbers by their value as floats, any
/// other pair structurally.
pub fn equals(a: &Json, b: &Json) -> (r: bool)
    ensures
        r == loosely_equal(a@, b@),
        a@ == b@ && well_formed(a@) ==> r,
{
    proof {
        if a@ == b@ && well_formed(a@) {
            lemma_same_is_reflexive(a@);
        }
    }
    match (a, b) {
        (Json::Number(x), Json::Number(y)) => optional_floats_equal(
            as_float(&x.value),
            as_float(&y.value),
        ),
        _ => a.same(b),
    }
}

/// The text that stands for a value inside a string.
pub fn stringify_value(v: &Json) -> (r: String)
    ensures
        r@ == stringify_spec(v@),
{
    match v {
        Json::String(s) => s.clone(),
        Json::Number(n) => n.text.clone(),
        Json::Bool(b) => if *b {
            "true".to_owned()
        } else {
            "false".to_owned()
        },
        Json::Null => "null".to_owned(),
        _ => json_text(v),
    }
}

/// The text between `sigil`, `{` and a closing `}` at the end of `e`.
pub open spec fn braced_inner(e: Seq<char>, sigil: char) -> Option<Seq<char>> {
    if e.len() >= 3 && e[0] == sigil && e[1] == '{' && e.last() == '}' {
        Some(e.subrange(2, e.len() - 1))
    } else {
        None
    }
}

/// The path that an atom of a path form names: the trimmed inside of
/// `@{..}` or `${..}`, or what follows the leading sigil of a bare
/// `@path` or `$path`.
pub open spec fn reference_path(e: Seq<char>) -> Option<Seq<char>> {
    match braced_inner(e, '@') {
        Some(inner) => Some(trim(inner)),
        None => match braced_inner(e, '$') {
            Some(inner) => Some(trim(inner)),
            None => if e.len() > 0 && is_sigil(e[0]) {
                Some(e.subrange(1, e.len() as int))
            } else {
                None
            },
        },
    }
}

/// The value of an atom that is no path form, given what reading it as a
/// number gave: that number; else a boolean or null keyword, whatever its
/// case; else, for a text wrapped in double quotes, what stands between
/// the first and the last of them, as it is; else the value at the atom
/// read as a bare path.
pub open spec fn literal_value(
    e: Seq<char>,
    number: Option<Option<(NumberValue, Seq<char>)>>,
    ctx: ContextView,
) -> Option<JsonView> {
    match number {
        Some(Some((value, text))) => Some(JsonView::Number(value, text)),
        Some(None) => None,
        None => if same_ignoring_case(e, "true"@) {
            Some(JsonView::Bool(true))
        } else if same_ignoring_case(e, "false"@) {
            Some(JsonView::Bool(false))
        } else if same_ignoring_case(e, "null"@) {
            Some(JsonView::Null)
        } else if e.len() >= 2 && e[0] == '"' && e.last() == '"' {
            Some(JsonView::String(e.subrange(1, e.len() - 1)))
        } else {
            lookup_spec(ctx, trim(e))
        },
    }
}

/// The value of an atom: a path form, or a literal, or a bare path.
pub open spec fn atom_spec(e: Seq<char>, ctx: ContextView) -> Option<JsonView> {
    match reference_path(e) {
        Some(path) => lookup_spec(ctx, path),
        None => literal_value(e, number_literal(e), ctx),
    }
}

/// The value of an expression: a ternary where `?` stands at depth zero,
/// else an equality where `==` does, else an atom.
pub open spec fn eval_spec(expr: Seq<char>, ctx: ContextView) -> Option<JsonView>
    decreases expr.len(),
{
    let t = trim(expr);
    match top_level_split(t, '?') {
        Some((cond, rest)) => match top_level_split(rest, ':') {
            Some((then_part, else_part)) => {
                proof {
                    lemma_trim_len(expr);
                    lemma_top_level_from(t, '?', 0);
                    lemma_top_level_from(rest, ':', 0);
                }
                match eval_spec(cond, ctx) {
                    Some(c) => if truthy_spec(c) {
                        eval_spec(then_part, ctx)
                    } else {
                        eval_spec(else_part, ctx)
                    },
                    None => None,
                }
            },
            None => None,
        },
        None => match equality_split(t) {
            Some((left, right)) => match atom_spec(trim(left), ctx) {
                Some(l) => match atom_spec(trim(right), ctx) {
                    Some(r) => Some(JsonView::Bool(loosely_equal(l, r))),
                    None => None,
                },
                None => None,
            },
            None => atom_spec(t, ctx),
        },
    }
}

/// Whether the value, where there is one, is a JSON value.
pub open spec fn well_formed_value(r: Option<Json>) -> bool {
    r matches Some(v) ==> well_formed(v@)
}

/// The inside of `e` where it is `sigil`, `{`, some text and `}`.
fn braced<'a>(e: &'a str, sigil: char) -> (r: Option<&'a str>)
    ensures
        match r {
            Some(inner) => braced_inner(e@, sigil) == Some(inner@),
            None => braced_inner(e@, sigil) is None,
        },
{
    let chars = chars_of(e);
    let n = chars.len();
    if n >= 3 && chars[0] == sigil && chars[1] == '{' && chars[n - 1] == '}' {
        Some(e.substring_char(2, n - 1))
    } else {
        None
    }
}

/// The path that an atom of a path form names.
pub fn path_of_reference<'a>(e: &'a str) -> (r: Option<&'a str>)
    ensures
        match r {
            Some(path) => reference_path(e@) == Some(path@),
            None => reference_path(e@) is None,
        },
{
    if let Some(inner) = braced(e, '@') {
        return Some(trim_str(inner));
    }
    if let Some(inner) = braced(e, '$') {
        return Some(trim_str(inner));
    }
    let chars = chars_of(e);
    if chars.len() > 0 && (chars[0] == '@' || chars[0] == '$') {
        Some(e.substring_char(1, chars.len()))
    } else {
        None
    }
}

/// The value of an atom that is no path form, given what reading it as a
/// number gave.
pub fn literal_atom(e: &str, number: Option<Option<JsonNumber>>, ctx: &BindingContext) -> (r:
    Option<Json>)
    ensures
        option_view(r) == literal_value(e@, literal_view(number), ctx@),
        context_well_formed(ctx@) && (number matches Some(Some(n)) ==> number_well_formed(n.value))
            ==> well_formed_value(r),
{
    proof {
        if context_well_formed(ctx@) {
            lemma_lookup_is_well_formed(ctx@, trim(e@));
        }
    }
    match number {
        Some(Some(n)) => Some(Json::Number(n)),
        Some(None) => None,
        None => {
            if equals_ignoring_case(e, "true") {
                return Some(Json::Bool(true));
            }
            if equals_ignoring_case(e, "false") {
                return Some(Json::Bool(false));
            }
            if equals_ignoring_case(e, "null") {
                return Some(Json::Null);
            }
            let chars = chars_of(e);
            let n = chars.len();
            if n >= 2 && chars[0] == '"' && chars[n - 1] == '"' {
                return Some(Json::String(e.substring_char(1, n - 1).to_owned()));
            }
            ctx.lookup(trim_str(e))
        },
    }
}

/// The value of an atom: a path form, a literal or a bare path.
pub fn eval_atom(expr: &str, ctx: &BindingContext) -> (r: Option<Json>)
    ensures
        option_view(r) == atom_spec(expr@, ctx@),
        context_well_formed(ctx@) ==> well_formed_value(r),
{
    match path_of_reference(expr) {
        Some(path) => {
            proof {
                if context_well_formed(ctx@) {
                    lemma_lookup_is_well_formed(ctx@, path@);
                }
            }
            ctx.lookup(path)
        },
        None => literal_atom(expr, parse_number_literal(expr), ctx),
    }
}

/// An engine that gives a value to an expression, or none where the
/// expression cannot be resolved.
pub trait ExpressionEngine: Send + Sync {
    /// The value of `expr` in `ctx`, or `None` where it has none.
    fn eval(&self, expr: &str, ctx: &BindingContext) -> Option<Json>;
}

/// The engine of this library: paths, literals, `==` and `? :`.
pub struct SimpleExpressionEngine;

impl Default for SimpleExpressionEngine {
    fn default() -> (r: Self)
        ensures
            r == SimpleExpressionEngine,
    {
        SimpleExpressionEngine
    }
}

/// The value of `expr` in `ctx`; `None` where a path is missing or the
/// expression is malformed.
pub fn evaluate(expr: &str, ctx: &BindingContext) -> (r: Option<Json>)
    ensures
        option_view(r) == eval_spec(expr@, ctx@),
        context_well_formed(ctx@) ==> well_formed_value(r),
    decreases expr@.len(),
{
    let trimmed = trim_str(expr);
    proof {
        lemma_trim_len(expr@);
        lemma_top_level_from(trimmed@, '?', 0);
    }
    if let Some((cond_raw, rest)) = split_top_level(trimmed, '?') {
        proof {
            lemma_top_level_from(rest@, ':', 0);
        }
        let (then_raw, else_raw) = match split_top_level(rest, ':') {
            Some(parts) => parts,
            None => {
                return None;
            },
        };
        let cond_val = match evaluate(cond_raw, ctx) {
            Some(v) => v,
            None => {
                return None;
            },
        };
        return if truthy(&cond_val) {
            evaluate(then_raw, ctx)
        } else {
            evaluate(else_raw, ctx)
        };
    }
    if let Some((left, right)) = split_equality(trimmed) {
        let l = match eval_atom(trim_str(left), ctx) {
            Some(v) => v,
            None => {
                return None;
            },
        };
        let r = match eval_atom(trim_str(right), ctx) {
            Some(v) => v,
            None => {
                return None;
            },
        };
        return Some(Json::Bool(equals(&l, &r)));
    }
    eval_atom(trimmed, ctx)
}

impl ExpressionEngine for SimpleExpressionEngine {
    fn eval(&self, expr: &str, ctx: &BindingContext) -> (r: Option<Json>)
        ensures
            option_view(r) == eval_spec(expr@, ctx@),
            context_well_formed(ctx@) ==> well_formed_value(r),
    {
        evaluate(expr, ctx)
    }
}


/// A ternary has the value of the branch that its condition selects, and
/// of that branch alone: where the condition counts as true, the value of
/// the text between `?` and `:`, whatever stands after the `:`; where it
/// does not, the value of the text after the `:`.
pub proof fn lemma_ternary_selects(
    expr: Seq<char>,
    ctx: ContextView,
    cond: Seq<char>,
    rest: Seq<char>,
    then_part: Seq<char>,
    else_part: Seq<char>,
    c: JsonView,
)
    requires
        top_level_split(trim(expr), '?') == Some((cond, rest)),
        top_level_split(rest, ':') == Some((then_part, else_part)),
        eval_spec(cond, ctx) == Some(c),
    ensures
        truthy_spec(c) ==> eval_spec(expr, ctx) == eval_spec(then_part, ctx),
        !truthy_spec(c) ==> eval_spec(expr, ctx) == eval_spec(else_part, ctx),
{
}

/// An expression whose condition has no value, or that has `?` without
/// `:`, has no value.
pub proof fn lemma_malformed_ternary_has_no_value(
    expr: Seq<char>,
    ctx: ContextView,
    cond: Seq<char>,
    rest: Seq<char>,
)
    requires
        top_level_split(trim(expr), '?') == Some((cond, rest)),
        top_level_split(rest, ':') is None || eval_spec(cond, ctx) is None,
    ensures
        eval_spec(expr, ctx) is None,
{
}


/// Loose equality is symmetric on JSON values: of two well-formed values
/// the first equals the second loosely exactly where the second equals
/// the first.
pub proof fn lemma_loosely_equal_is_symmetric(a: JsonView, b: JsonView)
    requires
        well_formed(a),
        well_formed(b),
    ensures
        loosely_equal(a, b) == loosely_equal(b, a),
{
    if !(a is Number && b is Number) {
        if same_json(a, b) {
            lemma_same_is_symmetric(a, b);
        }
        if same_json(b, a) {
            lemma_same_is_symmetric(b, a);
        }
    }
}

/// Loose equality of two values of different kinds is false, where one of
/// them is no number.
pub proof fn lemma_unlike_kinds_are_not_equal(a: JsonView, b: JsonView)
    requires
        (a is Null) != (b is Null) || (a is Bool) != (b is Bool) || (a is Number) != (b is Number)
            || (a is String) != (b is String) || (a is Array) != (b is Array) || (a is Object) != (
        b is Object),
    ensures
        !loosely_equal(a, b),
{
}

} // verus!
