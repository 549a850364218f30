use component_adaptive_card::asset_resolver::{
    register_host_asset_callback, register_host_asset_map, register_host_asset_resolver,
    resolve_with_host, AssetError, AssetResolver, CallbackResolver, HostResolver, MapResolver,
};
use component_adaptive_card::error::{joined, ComponentError};
use component_adaptive_card::json::{keys_are_distinct, Json, JsonNumber, NumberValue};
use component_adaptive_card::model::{
    AdaptiveCardInvocation, CardInteraction, CardInteractionType, CardSource, CardSpec,
    InvocationMode, PathStep, ValidationIssue, ValidationMode,
};
use component_adaptive_card::text::{
    chars_of, decimal_text, equals_ignoring_case, is_whitespace, same_text, split_str,
    trim_bounds, trim_str,
};
use component_adaptive_card::{
    apply_operation, describe_payload, error_envelope, error_payload, finish_rendering,
    handle_invocation, issue_document, manifest,
};

type Host = HostResolver<fn(&str) -> Option<String>, MapResolver>;

fn nm(value: u64) -> Json {
    Json::Number(JsonNumber { value: NumberValue::PosInt(value), text: value.to_string() })
}

fn tx(value: &str) -> Json {
    Json::String(value.to_string())
}

fn js(fields: Vec<(&str, Json)>) -> Json {
    Json::Object(fields.into_iter().map(|(k, v)| (k.to_string(), v)).collect())
}

fn plain_invocation(mode: InvocationMode) -> AdaptiveCardInvocation {
    AdaptiveCardInvocation {
        card_spec: CardSpec {
            source: CardSource::Inline(js(vec![
                ("title", tx("@{payload.title}")),
                ("action", js(vec![("type", tx("Action.OpenUrl"))])),
                ("bad", tx("see @{payload.zzz}")),
            ])),
            template_params: Json::Null,
        },
        payload: js(vec![("title", tx("T"))]),
        session: Json::Null,
        state: Json::Null,
        interaction: None,
        mode,
        validation_mode: ValidationMode::Warn,
        node_id: None,
    }
}

#[test]
fn map_resolver_finds_what_it_holds() {
    let resolver = MapResolver::new(vec![
        ("a".to_string(), "1".to_string()),
        ("b".to_string(), "2".to_string()),
        ("a".to_string(), "3".to_string()),
    ]);
    assert_eq!(resolver.resolve("a").unwrap(), Some("1".to_string()));
    assert_eq!(resolver.resolve("b").unwrap(), Some("2".to_string()));
    assert_eq!(resolver.resolve("c").unwrap(), None);
}

#[test]
fn callback_resolver_asks_the_callback() {
    let resolver = CallbackResolver::new(|name: &str| {
        if name == "known" {
            Some(format!("content of {}", name))
        } else {
            None
        }
    });
    assert_eq!(resolver.resolve("known").unwrap(), Some("content of known".to_string()));
    assert_eq!(resolver.resolve("other").unwrap(), None);
}

#[test]
fn host_without_a_resolver_finds_nothing() {
    let host = Host::new();
    assert_eq!(resolve_with_host(&host, "any").unwrap(), None);
}

#[test]
fn registration_replaces_the_resolver() {
    let mut host = HostResolver::new();
    register_host_asset_map(&mut host, vec![("a".to_string(), "first".to_string())]).unwrap();
    assert_eq!(resolve_with_host(&host, "a").unwrap(), Some("first".to_string()));
    register_host_asset_callback(&mut host, |name: &str| Some(name.to_uppercase())).unwrap();
    assert!(matches!(host, HostResolver::Callback(_)));
    assert_eq!(resolve_with_host(&host, "a").unwrap(), Some("A".to_string()));
    assert_eq!(resolve_with_host(&host, " b").unwrap(), Some(" B".to_string()));
    register_host_asset_resolver(
        &mut host,
        MapResolver::new(vec![("a".to_string(), "other".to_string())]),
    )
    .unwrap();
    assert!(matches!(host, HostResolver::Other(_)));
    assert_eq!(host.resolve("a").unwrap(), Some("other".to_string()));
    register_host_asset_resolver(&mut host, MapResolver::new(vec![])).unwrap();
    assert_eq!(host.resolve("a").unwrap(), None);
}

struct Boxed(Box<dyn AssetResolver>);

impl AssetResolver for Boxed {
    fn resolve(&self, name: &str) -> Result<Option<String>, AssetError> {
        self.0.resolve(name)
    }
}

#[test]
fn a_boxed_resolver_answers_as_the_one_in_the_box() {
    let mut host: HostResolver<fn(&str) -> Option<String>, Boxed> = HostResolver::new();
    let first = Boxed(Box::new(MapResolver::new(vec![("a".to_string(), "one".to_string())])));
    let second = Boxed(Box::new(CallbackResolver::new(|name: &str| Some(format!("<{}>", name)))));
    register_host_asset_resolver(&mut host, first).unwrap();
    assert_eq!(resolve_with_host(&host, "a").unwrap(), Some("one".to_string()));
    register_host_asset_resolver(&mut host, second).unwrap();
    assert_eq!(resolve_with_host(&host, "a").unwrap(), Some("<a>".to_string()));
}

#[test]
fn registering_a_callback_does_not_call_it() {
    let calls = std::sync::atomic::AtomicUsize::new(0);
    let mut host: HostResolver<_, MapResolver> = HostResolver::new();
    register_host_asset_callback(&mut host, |name: &str| {
        calls.fetch_add(1, std::sync::atomic::Ordering::SeqCst);
        Some(name.to_string())
    })
    .unwrap();
    assert_eq!(calls.load(std::sync::atomic::Ordering::SeqCst), 0);
    assert_eq!(resolve_with_host(&host, "n").unwrap(), Some("n".to_string()));
    assert_eq!(calls.load(std::sync::atomic::Ordering::SeqCst), 1);
}

#[test]
fn error_codes_and_messages() {
    let cases: Vec<(ComponentError, &str, &str)> = vec![
        (ComponentError::InvalidInput("x".to_string()), "AC_SCHEMA_INVALID", "invalid input: x"),
        (ComponentError::Serde("x".to_string()), "AC_SCHEMA_INVALID", "serialization error: x"),
        (ComponentError::Asset("x".to_string()), "AC_INTERNAL_ERROR", "asset error: x"),
        (ComponentError::AssetNotFound("x".to_string()), "AC_ASSET_NOT_FOUND", "asset not found: x"),
        (ComponentError::AssetParse("x".to_string()), "AC_ASSET_PARSE_ERROR", "asset parse error: x"),
        (ComponentError::BindingEval("x".to_string()), "AC_BINDING_EVAL_ERROR", "binding error: x"),
        (ComponentError::CardValidation(vec![]), "AC_CARD_VALIDATION_FAILED", "card validation failed"),
        (
            ComponentError::InteractionInvalid("x".to_string()),
            "AC_INTERACTION_INVALID",
            "invalid interaction: x",
        ),
        (ComponentError::State("x".to_string()), "AC_INTERNAL_ERROR", "state error: x"),
    ];
    for (error, code, message) in cases {
        assert_eq!(error.code(), code);
        assert_eq!(error.message(), message);
    }
}

#[test]
fn error_envelope_holds_code_and_message() {
    let error = ComponentError::AssetNotFound("cards/a.json".to_string());
    assert_eq!(
        error_envelope(&error),
        js(vec![(
            "error",
            js(vec![("code", tx("AC_ASSET_NOT_FOUND")), ("message", tx("asset not found: cards/a.json"))])
        )])
    );
    assert_eq!(
        error_payload(&error),
        "{\"error\":{\"code\":\"AC_ASSET_NOT_FOUND\",\"message\":\"asset not found: cards/a.json\"}}"
    );
}

#[test]
fn error_payload_escapes_the_message() {
    let error = ComponentError::InvalidInput("say \"hi\"\n".to_string());
    assert_eq!(
        error_payload(&error),
        "{\"error\":{\"code\":\"AC_SCHEMA_INVALID\",\"message\":\"invalid input: say \\\"hi\\\"\\n\"}}"
    );
}

#[test]
fn manifest_names_the_component() {
    assert_eq!(
        describe_payload(),
        "{\"component\":{\"name\":\"component-adaptive-card\",\"org\":\"ai.greentic\",\"schemas\":{\"component\":\"schemas/component.schema.json\",\"input\":\"schemas/io/input.schema.json\",\"output\":\"schemas/io/output.schema.json\"},\"version\":\"0.1.0\",\"world\":\"greentic:component/component@0.4.0\"}}"
    );
    assert_eq!(manifest().get("component").and_then(|c| c.get_str("org")), Some("ai.greentic"));
}

#[test]
fn operation_validate_steers_the_mode() {
    let mut inv = plain_invocation(InvocationMode::Render);
    apply_operation(&mut inv, "render");
    assert_eq!(inv.mode, InvocationMode::Render);
    apply_operation(&mut inv, "VALIDATE");
    assert_eq!(inv.mode, InvocationMode::Validate);
    assert_eq!(inv.payload, js(vec![("title", tx("T"))]));
}

#[test]
fn plain_invocation_renders_the_card() {
    for mode in [InvocationMode::Render, InvocationMode::RenderAndValidate] {
        let out = handle_invocation(plain_invocation(mode), Some(nm(1)), &Host::new()).unwrap();
        assert_eq!(
            out.result.rendered_card,
            Some(js(vec![
                ("title", tx("T")),
                ("action", js(vec![("type", tx("Action.OpenUrl"))])),
                ("bad", tx("see @{payload.zzz}")),
            ]))
        );
        assert!(out.result.event.is_none());
        assert!(out.result.state_updates.is_empty());
        assert!(out.result.session_updates.is_empty());
        assert_eq!(out.result.card_features.len(), 1);
        assert_eq!(
            out.result.validation_issues,
            vec![ValidationIssue {
                location: vec![PathStep::Key("bad".to_string())],
                expression: "@{payload.zzz}".to_string(),
            }]
        );
        assert!(out.result.telemetry_events.is_empty());
        assert!(out.write.is_none());
    }
}

#[test]
fn validate_mode_returns_no_card() {
    let out = handle_invocation(plain_invocation(InvocationMode::Validate), None, &Host::new()).unwrap();
    assert!(out.result.rendered_card.is_none());
    assert_eq!(out.result.validation_issues.len(), 1);
}

#[test]
fn invocation_with_an_interaction_is_handled_as_one() {
    let mut inv = plain_invocation(InvocationMode::Validate);
    inv.interaction = Some(CardInteraction {
        interaction_type: CardInteractionType::ShowCard,
        action_id: "a".to_string(),
        card_instance_id: "card-42".to_string(),
        verb: None,
        raw_inputs: Json::Null,
        metadata: js(vec![("subcardId", tx("sc1"))]),
        enabled: true,
    });
    let out = handle_invocation(inv, None, &Host::new()).unwrap();
    assert!(out.result.rendered_card.is_some());
    assert!(out.result.event.is_some());
    assert_eq!(
        out.write.unwrap().value,
        js(vec![("ui", js(vec![("active_show_card", js(vec![("card-42", tx("sc1"))]))]))])
    );
}

#[test]
fn finish_rendering_keeps_features_and_issues() {
    let rendered = component_adaptive_card::model::RenderedCard {
        card: nm(1),
        features: vec![component_adaptive_card::model::FeatureFlag::Submit],
        validation_issues: vec![],
        asset_resolution: vec![],
        binding_summary: vec![],
    };
    let out = finish_rendering(InvocationMode::Render, rendered);
    assert_eq!(out.result.rendered_card, Some(nm(1)));
    assert_eq!(out.result.card_features, vec![component_adaptive_card::model::FeatureFlag::Submit]);
}

#[test]
fn trim_strips_unicode_white_space() {
    assert_eq!(trim_str(" \t\r\n a b \u{00A0}\u{2003}\u{3000}"), "a b");
    assert_eq!(trim_str(""), "");
    assert_eq!(trim_str(" \n "), "");
    assert_eq!(trim_str("\u{200B}x"), "\u{200B}x");
    for c in ['\u{0009}', '\u{000B}', '\u{000C}', '\u{0085}', '\u{1680}', '\u{2028}', '\u{2029}', '\u{202F}', '\u{205F}'] {
        assert_eq!(trim_str(&format!("{}x{}", c, c)), "x");
        assert_eq!(format!("{}x{}", c, c).trim(), "x");
    }
}

#[test]
fn trim_bounds_are_those_of_the_trimmed_text() {
    assert_eq!(trim_bounds(&" ab  ".chars().collect()), (1, 3));
    assert_eq!(trim_bounds(&"   ".chars().collect()), (3, 3));
    assert_eq!(trim_bounds(&Vec::new()), (0, 0));
    for c in ['\u{0}', ' ', 'a', '\u{85}', '\u{200A}', '\u{200B}', '\u{FEFF}'] {
        assert_eq!(is_whitespace(c), c.is_whitespace());
    }
}

#[test]
fn split_keeps_empty_parts() {
    assert_eq!(split_str("a.b.c", '.'), vec!["a", "b", "c"]);
    assert_eq!(split_str("", '.'), vec![""]);
    assert_eq!(split_str("a.", '.'), vec!["a", ""]);
    assert_eq!(split_str(".a..b", '.'), vec!["", "a", "", "b"]);
    assert_eq!(split_str("héllo.wörld", '.'), vec!["héllo", "wörld"]);
}

#[test]
fn text_comparisons() {
    assert!(same_text("abc", "abc"));
    assert!(!same_text("abc", "abd"));
    assert!(!same_text("abc", "ab"));
    assert!(equals_ignoring_case("TrUe", "true"));
    assert!(!equals_ignoring_case("tru", "true"));
    assert!(!equals_ignoring_case("trué", "truE"));
    assert_eq!(chars_of("aé"), vec!['a', 'é']);
    assert_eq!(joined("a", "b"), "ab");
}

#[test]
fn json_members_and_equality() {
    let doc = js(vec![("a", nm(1)), ("s", tx("x")), ("b", Json::Bool(true)), ("a", nm(2))]);
    assert_eq!(doc.get("a"), Some(&nm(1)));
    assert_eq!(doc.get("zz"), None);
    assert_eq!(nm(1).get("a"), None);
    assert_eq!(doc.get_str("s"), Some("x"));
    assert_eq!(doc.get_str("a"), None);
    assert_eq!(doc.get_bool("b"), Some(true));
    assert_eq!(doc.get_bool("s"), None);
    let distinct = js(vec![("a", nm(1)), ("s", tx("x")), ("l", Json::Array(vec![Json::Null]))]);
    assert!(distinct.same(&distinct.clone()));
    assert!(distinct.same(&js(vec![("l", Json::Array(vec![Json::Null])), ("s", tx("x")), ("a", nm(1))])));
    assert!(!distinct.same(&js(vec![("a", nm(1))])));
    assert!(tx("a").same(&tx("a")));
    assert!(!Json::Null.same(&Json::Bool(false)));
    let one = Json::Number(JsonNumber { value: NumberValue::PosInt(1), text: "1".to_string() });
    let one_float = Json::Number(JsonNumber { value: NumberValue::Float(1.0f64.to_bits()), text: "1.0".to_string() });
    assert!(!one.same(&one_float));
}

#[test]
fn decimal_text_of_numbers() {
    assert_eq!(decimal_text(0), "0");
    assert_eq!(decimal_text(7), "7");
    assert_eq!(decimal_text(10), "10");
    assert_eq!(decimal_text(1234567890), "1234567890");
    assert_eq!(decimal_text(usize::MAX), usize::MAX.to_string());
}

#[test]
fn failed_validation_carries_the_issues_as_details() {
    let issue = ValidationIssue {
        location: vec![PathStep::Key("body".to_string()), PathStep::Index(12)],
        expression: "@{payload.x}".to_string(),
    };
    assert_eq!(
        issue_document(&issue),
        js(vec![
            ("location", Json::Array(vec![tx("body"), nm(12)])),
            ("expression", tx("@{payload.x}")),
        ])
    );
    assert_eq!(
        error_payload(&ComponentError::CardValidation(vec![issue])),
        "{\"error\":{\"code\":\"AC_CARD_VALIDATION_FAILED\",\"details\":[{\"expression\":\"@{payload.x}\",\"location\":[\"body\",12]}],\"message\":\"card validation failed\"}}"
    );
}

#[test]
fn documents_with_distinct_keys_and_finite_floats_are_well_formed() {
    let finite = Json::Number(JsonNumber { value: NumberValue::Float(1.5f64.to_bits()), text: "1.5".to_string() });
    let doc = js(vec![("a", nm(1)), ("b", Json::Array(vec![js(vec![("a", finite)]), Json::Null]))]);
    assert!(doc.is_well_formed());
    assert!(Json::Null.is_well_formed());
    assert!(js(vec![]).is_well_formed());
}

#[test]
fn a_key_that_occurs_twice_is_not_well_formed() {
    let twice = js(vec![("a", nm(1)), ("b", nm(2)), ("a", nm(3))]);
    assert!(!twice.is_well_formed());
    assert!(!Json::Array(vec![Json::Null, twice.clone()]).is_well_formed());
    assert!(!js(vec![("outer", twice)]).is_well_formed());
    assert!(keys_are_distinct(&vec![("a".to_string(), Json::Null), ("b".to_string(), Json::Null)]));
    assert!(!keys_are_distinct(&vec![("a".to_string(), Json::Null), ("a".to_string(), Json::Null)]));
}

#[test]
fn a_float_that_is_not_finite_is_not_well_formed() {
    for value in [f64::NAN, f64::INFINITY, f64::NEG_INFINITY] {
        let number = Json::Number(JsonNumber { value: NumberValue::Float(value.to_bits()), text: String::new() });
        assert!(!number.is_well_formed());
    }
    for value in [0.0, -0.0, f64::MAX, f64::MIN_POSITIVE] {
        let number = Json::Number(JsonNumber { value: NumberValue::Float(value.to_bits()), text: String::new() });
        assert!(number.is_well_formed());
    }
}

#[test]
fn what_an_invocation_gives_is_well_formed() {
    let mut inv = plain_invocation(InvocationMode::Render);
    inv.interaction = Some(CardInteraction {
        interaction_type: CardInteractionType::Submit,
        action_id: "a".to_string(),
        card_instance_id: "c".to_string(),
        verb: None,
        raw_inputs: tx("{\"x\":{\"y\":1.25},\"z\":[1,2]}"),
        metadata: Json::Null,
        enabled: true,
    });
    let stored = js(vec![("form_data", js(vec![("x", js(vec![("w", nm(0))]))]))]);
    let out = handle_invocation(inv, Some(stored), &Host::new()).unwrap();
    assert!(out.result.rendered_card.unwrap().is_well_formed());
    let write = out.write.unwrap();
    assert!(write.value.is_well_formed());
    assert_eq!(
        write.value.get("form_data").and_then(|f| f.get("x")).and_then(|x| x.get("w")),
        Some(&nm(0))
    );
}
