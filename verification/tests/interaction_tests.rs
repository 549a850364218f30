use component_adaptive_card::asset_resolver::{HostResolver, MapResolver};
use component_adaptive_card::error::ComponentError;
use component_adaptive_card::interaction::{
    event_of, handle_interaction, inputs_from, interaction_effects, normalize_inputs,
    session_updates_of, state_updates_of,
};
use component_adaptive_card::json::{Json, JsonNumber, NumberValue};
use component_adaptive_card::model::{
    AdaptiveActionType, AdaptiveCardInvocation, CardInteraction, CardInteractionType, CardSource,
    CardSpec, InvocationMode, SessionUpdateOp, StateUpdateOp, ValidationMode,
};

type Host = HostResolver<fn(&str) -> Option<String>, MapResolver>;

fn n(value: u64) -> Json {
    Json::Number(JsonNumber { value: NumberValue::PosInt(value), text: value.to_string() })
}

fn s(value: &str) -> Json {
    Json::String(value.to_string())
}

fn o(fields: Vec<(&str, Json)>) -> Json {
    Json::Object(fields.into_iter().map(|(k, v)| (k.to_string(), v)).collect())
}

fn interaction(kind: CardInteractionType, metadata: Json, raw_inputs: Json) -> CardInteraction {
    CardInteraction {
        interaction_type: kind,
        action_id: "act-1".to_string(),
        card_instance_id: "card-42".to_string(),
        verb: Some("go".to_string()),
        raw_inputs,
        metadata,
        enabled: true,
    }
}

fn invocation(card: Json, state: Json, interaction: Option<CardInteraction>) -> AdaptiveCardInvocation {
    AdaptiveCardInvocation {
        card_spec: CardSpec { source: CardSource::Inline(card), template_params: Json::Null },
        payload: Json::Null,
        session: Json::Null,
        state,
        interaction,
        mode: InvocationMode::Render,
        validation_mode: ValidationMode::Off,
        node_id: Some("node-1".to_string()),
    }
}

#[test]
fn show_card_sets_the_active_subcard() {
    let i = interaction(CardInteractionType::ShowCard, o(vec![("subcardId", s("sc1"))]), Json::Null);
    let effects = interaction_effects(&i, o(vec![]));
    assert_eq!(
        effects.state_updates,
        vec![StateUpdateOp::SetValue {
            path: "ui.active_show_card.card-42".to_string(),
            value: s("sc1"),
        }]
    );
    assert_eq!(effects.event.action_type, AdaptiveActionType::ShowCard);
    assert_eq!(effects.event.subcard_id, Some("sc1".to_string()));
    assert!(effects.session_updates.is_empty());
}

#[test]
fn show_card_falls_back_to_the_action_id() {
    let i = interaction(CardInteractionType::ShowCard, o(vec![]), Json::Null);
    assert_eq!(
        state_updates_of(&i, &o(vec![])),
        vec![StateUpdateOp::SetValue {
            path: "ui.active_show_card.card-42".to_string(),
            value: s("act-1"),
        }]
    );
    assert_eq!(event_of(&i, o(vec![])).subcard_id, None);
}

#[test]
fn toggle_visibility_defaults_to_true() {
    let i = interaction(CardInteractionType::ToggleVisibility, o(vec![]), Json::Null);
    assert_eq!(
        state_updates_of(&i, &o(vec![])),
        vec![StateUpdateOp::SetValue { path: "ui.visibility.act-1".to_string(), value: Json::Bool(true) }]
    );
}

#[test]
fn toggle_visibility_takes_the_flag_of_the_metadata() {
    let i = interaction(
        CardInteractionType::ToggleVisibility,
        o(vec![("visible", Json::Bool(false))]),
        Json::Null,
    );
    assert_eq!(
        state_updates_of(&i, &o(vec![])),
        vec![StateUpdateOp::SetValue { path: "ui.visibility.act-1".to_string(), value: Json::Bool(false) }]
    );
}

#[test]
fn toggle_visibility_ignores_a_flag_that_is_no_boolean() {
    let i = interaction(CardInteractionType::ToggleVisibility, o(vec![("visible", s("no"))]), Json::Null);
    assert_eq!(
        state_updates_of(&i, &o(vec![])),
        vec![StateUpdateOp::SetValue { path: "ui.visibility.act-1".to_string(), value: Json::Bool(true) }]
    );
}

#[test]
fn submit_and_execute_merge_the_inputs_into_form_data() {
    let inputs = o(vec![("name", s("Ada"))]);
    for kind in [CardInteractionType::Submit, CardInteractionType::Execute] {
        let i = interaction(kind, Json::Null, Json::Null);
        assert_eq!(
            state_updates_of(&i, &inputs),
            vec![StateUpdateOp::Merge { path: "form_data".to_string(), value: inputs.clone() }]
        );
    }
}

#[test]
fn open_url_changes_no_state() {
    let i = interaction(CardInteractionType::OpenUrl, o(vec![]), Json::Null);
    let effects = interaction_effects(&i, o(vec![]));
    assert!(effects.state_updates.is_empty());
    assert_eq!(effects.event.action_type, AdaptiveActionType::OpenUrl);
}

#[test]
fn route_is_propagated_for_every_kind() {
    for kind in [
        CardInteractionType::Submit,
        CardInteractionType::Execute,
        CardInteractionType::OpenUrl,
        CardInteractionType::ShowCard,
        CardInteractionType::ToggleVisibility,
    ] {
        let i = interaction(kind, o(vec![("route", s("/next"))]), Json::Null);
        let effects = interaction_effects(&i, o(vec![]));
        assert_eq!(
            effects.session_updates,
            vec![SessionUpdateOp::SetRoute { route: "/next".to_string() }]
        );
        assert_eq!(effects.event.route, Some("/next".to_string()));
        assert_eq!(effects.state_updates.len(), if kind == CardInteractionType::OpenUrl { 0 } else { 1 });
    }
}

#[test]
fn route_that_is_no_string_is_not_propagated() {
    let i = interaction(CardInteractionType::Submit, o(vec![("route", n(5))]), Json::Null);
    assert!(session_updates_of(&i).is_empty());
    assert_eq!(event_of(&i, o(vec![])).route, None);
}

#[test]
fn event_carries_the_interaction() {
    let metadata = o(vec![("cardId", s("tpl-7")), ("subcardId", s("sc1"))]);
    let i = interaction(CardInteractionType::Submit, metadata.clone(), Json::Null);
    let event = event_of(&i, o(vec![("k", n(1))]));
    assert_eq!(event.action_type, AdaptiveActionType::Submit);
    assert_eq!(event.action_id, "act-1");
    assert_eq!(event.verb, Some("go".to_string()));
    assert_eq!(event.inputs, o(vec![("k", n(1))]));
    assert_eq!(event.card_id, "tpl-7");
    assert_eq!(event.card_instance_id, "card-42");
    assert_eq!(event.subcard_id, Some("sc1".to_string()));
    assert_eq!(event.metadata, metadata);
}

#[test]
fn event_card_id_falls_back_to_the_instance() {
    let i = interaction(CardInteractionType::Submit, Json::Null, Json::Null);
    assert_eq!(event_of(&i, o(vec![])).card_id, "card-42");
}

#[test]
fn inputs_that_are_an_object_pass_through() {
    let raw = o(vec![("a", n(1))]);
    assert_eq!(normalize_inputs(&raw), raw);
}

#[test]
fn null_inputs_become_an_empty_object() {
    assert_eq!(normalize_inputs(&Json::Null), o(vec![]));
}

#[test]
fn string_inputs_that_hold_json_are_parsed() {
    assert_eq!(
        normalize_inputs(&s("{\"a\":1,\"b\":[true,null,\"x\",-2,1.5]}")),
        o(vec![
            ("a", n(1)),
            (
                "b",
                Json::Array(vec![
                    Json::Bool(true),
                    Json::Null,
                    s("x"),
                    Json::Number(JsonNumber { value: NumberValue::NegInt(-2), text: "-2".to_string() }),
                    Json::Number(JsonNumber {
                        value: NumberValue::Float(1.5f64.to_bits()),
                        text: "1.5".to_string(),
                    }),
                ])
            ),
        ])
    );
}

#[test]
fn string_inputs_that_hold_no_json_are_wrapped() {
    assert_eq!(normalize_inputs(&s("hello there")), o(vec![("value", s("hello there"))]));
}

#[test]
fn scalar_inputs_are_wrapped() {
    assert_eq!(normalize_inputs(&n(3)), o(vec![("value", n(3))]));
    assert_eq!(normalize_inputs(&Json::Bool(true)), o(vec![("value", Json::Bool(true))]));
    assert_eq!(normalize_inputs(&Json::Array(vec![])), o(vec![("value", Json::Array(vec![]))]));
}

#[test]
fn inputs_from_follows_the_parse_it_is_given() {
    assert_eq!(inputs_from(&s("x"), Some(n(1))), n(1));
    assert_eq!(inputs_from(&s("x"), None), o(vec![("value", s("x"))]));
    assert_eq!(inputs_from(&n(2), Some(n(1))), o(vec![("value", n(2))]));
}

#[test]
fn interaction_is_required() {
    let inv = invocation(Json::Null, Json::Null, None);
    let host = Host::new();
    match handle_interaction(&inv, None, &host) {
        Err(ComponentError::InteractionInvalid(m)) => assert_eq!(m, "interaction is required"),
        other => panic!("unexpected outcome: {:?}", other),
    }
}

#[test]
fn handled_interaction_returns_card_event_updates_and_state() {
    let card = o(vec![("type", s("AdaptiveCard")), ("title", s("Hi @{state.form_data.name}"))]);
    let i = interaction(
        CardInteractionType::Submit,
        o(vec![("route", s("/done"))]),
        o(vec![("age", n(36))]),
    );
    let state = o(vec![("form_data", o(vec![("name", s("Ada"))]))]);
    let inv = invocation(card, state, Some(i));
    let host = Host::new();
    let out = handle_interaction(&inv, Some(o(vec![("ignored", n(1))])), &host).unwrap();
    assert_eq!(
        out.result.rendered_card,
        Some(o(vec![("type", s("AdaptiveCard")), ("title", s("Hi Ada"))]))
    );
    assert_eq!(out.result.event.as_ref().unwrap().inputs, o(vec![("age", n(36))]));
    assert_eq!(
        out.result.state_updates,
        vec![StateUpdateOp::Merge { path: "form_data".to_string(), value: o(vec![("age", n(36))]) }]
    );
    assert_eq!(out.result.session_updates, vec![SessionUpdateOp::SetRoute { route: "/done".to_string() }]);
    assert!(out.result.telemetry_events.is_empty());
    let write = out.write.unwrap();
    assert_eq!(write.key, "node-1:card-42:session");
    assert_eq!(write.value, o(vec![("form_data", o(vec![("name", s("Ada")), ("age", n(36))]))]));
}

#[test]
fn stored_state_is_used_where_the_invocation_brings_none() {
    let card = o(vec![("title", s("@{state.count}"))]);
    let i = interaction(CardInteractionType::ToggleVisibility, Json::Null, Json::Null);
    let inv = invocation(card, Json::Null, Some(i));
    let host = Host::new();
    let out = handle_interaction(&inv, Some(o(vec![("count", n(3))])), &host).unwrap();
    assert_eq!(out.result.rendered_card, Some(o(vec![("title", n(3))])));
    assert_eq!(
        out.write.unwrap().value,
        o(vec![("count", n(3)), ("ui", o(vec![("visibility", o(vec![("act-1", Json::Bool(true))]))]))])
    );
}
