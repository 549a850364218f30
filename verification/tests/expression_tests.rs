use component_adaptive_card::context::BindingContext;
use component_adaptive_card::expression::{
    equals, eval_atom, evaluate, literal_atom, optional_floats_equal, path_of_reference,
    split_equality, split_top_level, stringify_value, truthy, ExpressionEngine,
    SimpleExpressionEngine,
};
use component_adaptive_card::json::{Json, JsonNumber, NumberValue};

fn float(value: f64, text: &str) -> Json {
    Json::Number(JsonNumber { value: NumberValue::Float(value.to_bits()), text: text.to_string() })
}

fn whole(value: u64) -> Json {
    Json::Number(JsonNumber { value: NumberValue::PosInt(value), text: value.to_string() })
}

fn negative(value: i64) -> Json {
    Json::Number(JsonNumber { value: NumberValue::NegInt(value), text: value.to_string() })
}

fn text(value: &str) -> Json {
    Json::String(value.to_string())
}

fn object(fields: Vec<(&str, Json)>) -> Json {
    Json::Object(fields.into_iter().map(|(k, v)| (k.to_string(), v)).collect())
}

fn eval_in(payload: &Json, expr: &str) -> Option<Json> {
    let null = Json::Null;
    let ctx = BindingContext { payload, session: &null, state: &null, params: &null };
    evaluate(expr, &ctx)
}

#[test]
fn ternary_picks_the_then_branch() {
    assert_eq!(eval_in(&Json::Null, "true ? 1 : 2"), Some(float(1.0, "1.0")));
}

#[test]
fn ternary_picks_the_else_branch() {
    assert_eq!(eval_in(&Json::Null, "false ? 1 : 2"), Some(float(2.0, "2.0")));
}

#[test]
fn ternary_does_not_evaluate_the_other_branch() {
    assert_eq!(eval_in(&Json::Null, "false ? @{missing.x} : 5"), Some(float(5.0, "5.0")));
    assert_eq!(eval_in(&Json::Null, "true ? 7 : @{missing.x}"), Some(float(7.0, "7.0")));
}

#[test]
fn ternary_without_colon_has_no_value() {
    assert_eq!(eval_in(&Json::Null, "true ? 1"), None);
}

#[test]
fn ternary_with_unresolved_condition_has_no_value() {
    assert_eq!(eval_in(&Json::Null, "@{payload.flag} ? 1 : 2"), None);
}

#[test]
fn ternary_uses_truthiness_of_the_condition() {
    let payload = object(vec![("n", whole(0)), ("s", text("x")), ("list", Json::Array(vec![]))]);
    assert_eq!(eval_in(&payload, "@{payload.n} ? 1 : 2"), Some(float(2.0, "2.0")));
    assert_eq!(eval_in(&payload, "@{payload.s} ? 1 : 2"), Some(float(1.0, "1.0")));
    assert_eq!(eval_in(&payload, "@{payload.list} ? 1 : 2"), Some(float(2.0, "2.0")));
}

#[test]
fn nested_ternary_in_the_else_branch() {
    assert_eq!(eval_in(&Json::Null, "false ? 1 : true ? 2 : 3"), Some(float(2.0, "2.0")));
}

#[test]
fn integer_equals_float_loosely() {
    let payload = object(vec![("a", whole(1)), ("b", float(1.0, "1.0"))]);
    assert_eq!(eval_in(&payload, "@{payload.a} == @{payload.b}"), Some(Json::Bool(true)));
}

#[test]
fn negative_integer_equals_float_loosely() {
    assert!(equals(&negative(-3), &float(-3.0, "-3.0")));
    assert!(!equals(&negative(-3), &float(3.0, "3.0")));
}

#[test]
fn equality_of_different_values_is_false() {
    let payload = object(vec![("a", whole(1)), ("b", whole(2))]);
    assert_eq!(eval_in(&payload, "@{payload.a} == @{payload.b}"), Some(Json::Bool(false)));
}

#[test]
fn equality_with_a_missing_side_has_no_value() {
    let payload = object(vec![("a", whole(1))]);
    assert_eq!(eval_in(&payload, "@{payload.a} == @{payload.zzz}"), None);
}

#[test]
fn equality_of_number_and_string_is_false() {
    assert!(!equals(&whole(1), &text("1")));
}

#[test]
fn equality_of_objects_ignores_field_order() {
    let a = object(vec![("x", whole(1)), ("y", text("t"))]);
    let b = object(vec![("y", text("t")), ("x", whole(1))]);
    let c = object(vec![("y", text("t")), ("x", whole(2))]);
    assert!(equals(&a, &b));
    assert!(!equals(&a, &c));
}

#[test]
fn equality_inside_arrays_is_structural() {
    let a = Json::Array(vec![whole(1)]);
    let b = Json::Array(vec![float(1.0, "1.0")]);
    assert!(!equals(&a, &b));
    assert!(equals(&a, &Json::Array(vec![whole(1)])));
}

#[test]
fn the_two_zeros_are_equal_floats() {
    assert!(optional_floats_equal(Some(0.0f64.to_bits()), Some((-0.0f64).to_bits())));
    assert!(!optional_floats_equal(Some(f64::NAN.to_bits()), Some(f64::NAN.to_bits())));
    assert!(optional_floats_equal(None, None));
    assert!(!optional_floats_equal(None, Some(0)));
}

#[test]
fn missing_path_has_no_value() {
    assert_eq!(eval_in(&Json::Null, "@{nope.missing}"), None);
}

#[test]
fn braced_paths_are_trimmed_and_resolved() {
    let payload = object(vec![("user", object(vec![("name", text("Ada"))]))]);
    assert_eq!(eval_in(&payload, "@{ payload.user.name }"), Some(text("Ada")));
    assert_eq!(eval_in(&payload, "${payload.user.name}"), Some(text("Ada")));
    assert_eq!(eval_in(&payload, "  @{payload.user}  "), Some(object(vec![("name", text("Ada"))])));
}

#[test]
fn bare_sigil_paths_are_resolved() {
    let payload = object(vec![("n", whole(4))]);
    assert_eq!(eval_in(&payload, "@payload.n"), Some(whole(4)));
    assert_eq!(eval_in(&payload, "$payload.n"), Some(whole(4)));
    assert_eq!(eval_in(&payload, "$@payload.n"), None);
    assert_eq!(eval_in(&payload, "@@payload.n"), None);
}

#[test]
fn bare_paths_are_the_fallback() {
    let payload = object(vec![("n", whole(4))]);
    assert_eq!(eval_in(&payload, "payload.n"), Some(whole(4)));
    assert_eq!(eval_in(&payload, "payload"), Some(payload.clone()));
    assert_eq!(eval_in(&payload, "other.n"), None);
}

#[test]
fn the_four_scopes_are_addressed_by_name() {
    let a = object(vec![("k", text("p"))]);
    let b = object(vec![("k", text("s"))]);
    let c = object(vec![("k", text("t"))]);
    let d = object(vec![("k", text("q"))]);
    let ctx = BindingContext { payload: &a, session: &b, state: &c, params: &d };
    assert_eq!(ctx.lookup("payload.k"), Some(text("p")));
    assert_eq!(ctx.lookup("session.k"), Some(text("s")));
    assert_eq!(ctx.lookup("state.k"), Some(text("t")));
    assert_eq!(ctx.lookup("params.k"), Some(text("q")));
    assert_eq!(ctx.lookup("k"), None);
    assert_eq!(ctx.lookup(""), None);
    assert_eq!(ctx.lookup("payload.k.deeper"), None);
    assert_eq!(ctx.lookup("payload."), None);
}

#[test]
fn lookup_finds_a_null_member() {
    let a = object(vec![("k", Json::Null)]);
    let null = Json::Null;
    let ctx = BindingContext { payload: &a, session: &null, state: &null, params: &null };
    assert_eq!(ctx.lookup("payload.k"), Some(Json::Null));
}

#[test]
fn keyword_literals_ignore_case() {
    assert_eq!(eval_in(&Json::Null, "TRUE"), Some(Json::Bool(true)));
    assert_eq!(eval_in(&Json::Null, "False"), Some(Json::Bool(false)));
    assert_eq!(eval_in(&Json::Null, "NULL"), Some(Json::Null));
}

#[test]
fn quoted_literal_is_taken_verbatim() {
    assert_eq!(eval_in(&Json::Null, "\"a\\nb\""), Some(text("a\\nb")));
    assert_eq!(eval_in(&Json::Null, "\"\""), Some(text("")));
    assert_eq!(eval_in(&Json::Null, "\"\"a\"\""), Some(text("\"a\"")));
    assert_eq!(eval_in(&Json::Null, "\"\"a\"b\"\""), Some(text("\"a\"b\"")));
    assert_eq!(eval_in(&Json::Null, "\"\"\""), Some(text("\"")));
    assert_eq!(eval_in(&Json::Null, "\""), None);
}

#[test]
fn numeric_literals_are_floats() {
    assert_eq!(eval_in(&Json::Null, "2.5"), Some(float(2.5, "2.5")));
    assert_eq!(eval_in(&Json::Null, "-3"), Some(float(-3.0, "-3.0")));
    assert_eq!(eval_in(&Json::Null, "1e3"), Some(float(1000.0, "1000.0")));
}

#[test]
fn literals_that_are_not_finite_have_no_value() {
    assert_eq!(eval_in(&Json::Null, "inf"), None);
    assert_eq!(eval_in(&Json::Null, "NaN"), None);
}

#[test]
fn literal_atom_follows_the_number_it_is_given() {
    let null = Json::Null;
    let ctx = BindingContext { payload: &null, session: &null, state: &null, params: &null };
    let seven = JsonNumber { value: NumberValue::Float(7.0f64.to_bits()), text: "7.0".to_string() };
    assert_eq!(literal_atom("7", Some(Some(seven)), &ctx), Some(float(7.0, "7.0")));
    assert_eq!(literal_atom("inf", Some(None), &ctx), None);
    assert_eq!(literal_atom("true", None, &ctx), Some(Json::Bool(true)));
    assert_eq!(literal_atom("\"q\"", None, &ctx), Some(text("q")));
    assert_eq!(literal_atom("nothing", None, &ctx), None);
}

#[test]
fn eval_atom_does_not_split() {
    assert_eq!(
        {
            let null = Json::Null;
            let ctx =
                BindingContext { payload: &null, session: &null, state: &null, params: &null };
            eval_atom("true ? 1 : 2", &ctx)
        },
        None
    );
}

#[test]
fn path_of_reference_reads_the_three_forms() {
    assert_eq!(path_of_reference("@{ a.b }"), Some("a.b"));
    assert_eq!(path_of_reference("${a}"), Some("a"));
    assert_eq!(path_of_reference("@{}"), Some(""));
    assert_eq!(path_of_reference("@@$a.b"), Some("@$a.b"));
    assert_eq!(path_of_reference("$a.b"), Some("a.b"));
    assert_eq!(path_of_reference("@"), Some(""));
    assert_eq!(path_of_reference("@{"), Some("{"));
    assert_eq!(path_of_reference("a.b"), None);
    assert_eq!(path_of_reference(""), None);
}

#[test]
fn split_top_level_skips_brackets() {
    assert_eq!(split_top_level("(a?b)?c", '?'), Some(("(a?b)", "c")));
    assert_eq!(split_top_level("{a?b}", '?'), None);
    assert_eq!(split_top_level("a?b?c", '?'), Some(("a", "b?c")));
    assert_eq!(split_top_level("", '?'), None);
    assert_eq!(split_top_level("?", '?'), Some(("", "")));
}

#[test]
fn split_top_level_clamps_depth_at_zero() {
    assert_eq!(split_top_level(")) ? a", '?'), Some((")) ", " a")));
    assert_eq!(split_top_level("}(?)?x", '?'), Some(("}(?)", "x")));
}

#[test]
fn split_top_level_counts_characters_not_bytes() {
    assert_eq!(split_top_level("é?ü", '?'), Some(("é", "ü")));
}

#[test]
fn split_equality_finds_the_first_pair() {
    assert_eq!(split_equality("a == b"), Some(("a ", " b")));
    assert_eq!(split_equality("a = b"), None);
    assert_eq!(split_equality("(a==b)==c"), Some(("(a==b)", "c")));
    assert_eq!(split_equality("=="), Some(("", "")));
    assert_eq!(split_equality("a==="), Some(("a", "=")));
    assert_eq!(split_equality("="), None);
}

#[test]
fn truthiness_of_each_kind() {
    assert!(!truthy(&Json::Bool(false)));
    assert!(truthy(&Json::Bool(true)));
    assert!(!truthy(&whole(0)));
    assert!(truthy(&whole(3)));
    assert!(truthy(&negative(-1)));
    assert!(!truthy(&float(0.0, "0.0")));
    assert!(!truthy(&float(-0.0, "-0.0")));
    assert!(truthy(&float(0.5, "0.5")));
    assert!(!truthy(&text("")));
    assert!(truthy(&text("0")));
    assert!(!truthy(&Json::Null));
    assert!(!truthy(&Json::Array(vec![])));
    assert!(truthy(&Json::Array(vec![Json::Null])));
    assert!(!truthy(&object(vec![])));
    assert!(truthy(&object(vec![("a", Json::Null)])));
}

#[test]
fn stringify_of_each_kind() {
    assert_eq!(stringify_value(&text("plain")), "plain");
    assert_eq!(stringify_value(&whole(12)), "12");
    assert_eq!(stringify_value(&float(1.5, "1.5")), "1.5");
    assert_eq!(stringify_value(&Json::Bool(true)), "true");
    assert_eq!(stringify_value(&Json::Bool(false)), "false");
    assert_eq!(stringify_value(&Json::Null), "null");
    assert_eq!(stringify_value(&Json::Array(vec![whole(1), text("a")])), "[1,\"a\"]");
    assert_eq!(
        stringify_value(&object(vec![("k", Json::Array(vec![float(2.5, "2.5"), Json::Null]))])),
        "{\"k\":[2.5,null]}"
    );
}

#[test]
fn the_engine_evaluates_as_evaluate_does() {
    let payload = object(vec![("n", whole(4))]);
    let null = Json::Null;
    let ctx = BindingContext { payload: &payload, session: &null, state: &null, params: &null };
    let engine = SimpleExpressionEngine::default();
    assert_eq!(engine.eval("@{payload.n} == 4", &ctx), Some(Json::Bool(true)));
    assert_eq!(engine.eval("@{payload.n} ? \"yes\" : \"no\"", &ctx), Some(text("yes")));
}

#[test]
fn loose_equality_is_reflexive_and_symmetric_on_json_values() {
    let values = vec![
        Json::Null,
        Json::Bool(true),
        whole(1),
        whole(u64::MAX),
        negative(-7),
        negative(i64::MIN),
        float(1.0, "1.0"),
        float(-0.0, "-0.0"),
        float(0.0, "0.0"),
        text("1"),
        Json::Array(vec![whole(1), text("a")]),
        object(vec![("a", whole(1)), ("b", Json::Array(vec![]))]),
        object(vec![("b", Json::Array(vec![])), ("a", whole(1))]),
        object(vec![("a", float(1.0, "1.0")), ("b", Json::Array(vec![]))]),
    ];
    for a in &values {
        assert!(equals(a, a));
        for b in &values {
            assert_eq!(equals(a, b), equals(b, a));
        }
    }
    assert!(equals(&whole(u64::MAX), &float(18446744073709551616.0, "18446744073709551616.0")));
    assert!(!equals(&Json::Null, &Json::Bool(false)));
    assert!(!equals(&text(""), &Json::Array(vec![])));
}
