use component_adaptive_card::json::{Json, JsonNumber, NumberValue};
use component_adaptive_card::model::{
    AdaptiveCardInvocation, CardInteraction, CardInteractionType, CardSource, CardSpec,
    InvocationMode, StateUpdateOp, ValidationMode,
};
use component_adaptive_card::state_store::{
    apply_update, apply_updates, load_state_if_missing, merge_values, needs_state, persist_state,
    state_key, state_request, update_path,
};

fn num(value: u64) -> Json {
    Json::Number(JsonNumber { value: NumberValue::PosInt(value), text: value.to_string() })
}

fn string(value: &str) -> Json {
    Json::String(value.to_string())
}

fn obj(fields: Vec<(&str, Json)>) -> Json {
    Json::Object(fields.into_iter().map(|(k, v)| (k.to_string(), v)).collect())
}

fn invocation_with(node: Option<&str>, session: Json, interaction: Option<CardInteraction>) -> AdaptiveCardInvocation {
    AdaptiveCardInvocation {
        card_spec: CardSpec { source: CardSource::Inline(Json::Null), template_params: Json::Null },
        payload: Json::Null,
        session,
        state: Json::Null,
        interaction,
        mode: InvocationMode::Render,
        validation_mode: ValidationMode::Off,
        node_id: node.map(|n| n.to_string()),
    }
}

#[test]
fn merge_at_form_data_keeps_the_other_keys() {
    let mut state = obj(vec![("form_data", obj(vec![("x", num(1)), ("y", num(2))]))]);
    let ops = vec![StateUpdateOp::Merge {
        path: "form_data".to_string(),
        value: obj(vec![("y", num(3)), ("z", num(4))]),
    }];
    apply_updates(&mut state, &ops);
    assert_eq!(
        state,
        obj(vec![("form_data", obj(vec![("x", num(1)), ("y", num(3)), ("z", num(4))]))])
    );
}

#[test]
fn merge_goes_into_nested_objects() {
    let base = obj(vec![("a", obj(vec![("b", num(1)), ("c", num(2))])), ("k", num(9))]);
    let incoming = obj(vec![("a", obj(vec![("c", num(5)), ("d", num(6))]))]);
    assert_eq!(
        merge_values(&base, &incoming),
        obj(vec![("a", obj(vec![("b", num(1)), ("c", num(5)), ("d", num(6))])), ("k", num(9))])
    );
}

#[test]
fn merge_replaces_where_one_side_is_no_object() {
    assert_eq!(merge_values(&num(1), &obj(vec![("a", num(2))])), obj(vec![("a", num(2))]));
    assert_eq!(merge_values(&obj(vec![("a", num(2))]), &num(1)), num(1));
    assert_eq!(
        merge_values(&obj(vec![("a", obj(vec![("b", num(1))]))]), &obj(vec![("a", string("s"))])),
        obj(vec![("a", string("s"))])
    );
}

#[test]
fn merge_at_a_missing_path_sets_the_value() {
    let mut state = obj(vec![]);
    let ops = vec![StateUpdateOp::Merge { path: "a.b".to_string(), value: obj(vec![("x", num(1))]) }];
    apply_updates(&mut state, &ops);
    assert_eq!(state, obj(vec![("a", obj(vec![("b", obj(vec![("x", num(1))]))]))]));
}

#[test]
fn set_creates_the_objects_on_the_way() {
    let mut state = obj(vec![("keep", num(1))]);
    let ops = vec![StateUpdateOp::SetValue { path: "ui.visibility.a1".to_string(), value: Json::Bool(false) }];
    apply_updates(&mut state, &ops);
    assert_eq!(
        state,
        obj(vec![
            ("keep", num(1)),
            ("ui", obj(vec![("visibility", obj(vec![("a1", Json::Bool(false))]))])),
        ])
    );
}

#[test]
fn set_replaces_the_whole_value() {
    let mut state = obj(vec![("a", obj(vec![("b", obj(vec![("old", num(1))]))]))]);
    let ops = vec![StateUpdateOp::SetValue { path: "a.b".to_string(), value: obj(vec![("new", num(2))]) }];
    apply_updates(&mut state, &ops);
    assert_eq!(state, obj(vec![("a", obj(vec![("b", obj(vec![("new", num(2))]))]))]));
}

#[test]
fn set_through_a_scalar_replaces_it_by_an_object() {
    let mut state = obj(vec![("a", num(7))]);
    let ops = vec![StateUpdateOp::SetValue { path: "a.b".to_string(), value: num(1) }];
    apply_updates(&mut state, &ops);
    assert_eq!(state, obj(vec![("a", obj(vec![("b", num(1))]))]));
}

#[test]
fn updates_apply_in_order() {
    let mut state = Json::Null;
    let ops = vec![
        StateUpdateOp::SetValue { path: "a".to_string(), value: num(1) },
        StateUpdateOp::SetValue { path: "a".to_string(), value: num(2) },
        StateUpdateOp::Merge { path: "b".to_string(), value: obj(vec![("c", num(3))]) },
    ];
    apply_updates(&mut state, &ops);
    assert_eq!(state, obj(vec![("a", num(2)), ("b", obj(vec![("c", num(3))]))]));
}

#[test]
fn null_state_counts_as_an_empty_object() {
    let mut state = Json::Null;
    apply_updates(&mut state, &vec![]);
    assert_eq!(state, obj(vec![]));
}

#[test]
fn a_state_that_is_no_object_gives_way_to_one() {
    let mut state = num(5);
    apply_updates(&mut state, &vec![]);
    assert_eq!(state, num(5));
    apply_updates(&mut state, &vec![StateUpdateOp::SetValue { path: "a".to_string(), value: num(1) }]);
    assert_eq!(state, obj(vec![("a", num(1))]));
}

#[test]
fn dots_in_a_path_are_never_escaped() {
    let doc = obj(vec![]);
    let op = StateUpdateOp::SetValue { path: "a..b".to_string(), value: num(1) };
    assert_eq!(apply_update(&doc, &op), obj(vec![("a", obj(vec![("", obj(vec![("b", num(1))]))]))]));
}

#[test]
fn update_path_with_no_segment_left_gives_the_value() {
    let segs = vec!["a".to_string()];
    assert_eq!(update_path(&num(1), &segs, 1, &num(2), false), num(2));
    assert_eq!(
        update_path(&obj(vec![("x", num(1))]), &segs, 1, &obj(vec![("y", num(2))]), true),
        obj(vec![("x", num(1)), ("y", num(2))])
    );
}

#[test]
fn state_key_joins_node_card_and_session() {
    let interaction = CardInteraction {
        interaction_type: CardInteractionType::Submit,
        action_id: "a1".to_string(),
        card_instance_id: "card-42".to_string(),
        verb: None,
        raw_inputs: Json::Null,
        metadata: Json::Null,
        enabled: true,
    };
    let inv = invocation_with(Some("n1"), obj(vec![("id", string("s9"))]), Some(interaction));
    assert_eq!(state_key(&inv), "n1:card-42:s9");
}

#[test]
fn state_key_names_what_is_missing() {
    let inv = invocation_with(None, Json::Null, None);
    assert_eq!(state_key(&inv), "node:card:session");
}

#[test]
fn stored_state_is_used_only_where_the_invocation_has_none() {
    assert_eq!(load_state_if_missing(&Json::Null, Some(num(1))), num(1));
    assert_eq!(load_state_if_missing(&Json::Null, None), Json::Null);
    assert_eq!(load_state_if_missing(&num(2), Some(num(1))), num(2));
    let inv = invocation_with(None, Json::Null, None);
    assert!(needs_state(&inv));
}

#[test]
fn persist_state_applies_the_updates_to_a_copy() {
    let inv = invocation_with(Some("n"), Json::Null, None);
    let state = obj(vec![("a", num(1))]);
    let ops = vec![StateUpdateOp::SetValue { path: "b".to_string(), value: num(2) }];
    let write = persist_state(&inv, &state, &ops);
    assert_eq!(write.key, "n:card:session");
    assert_eq!(write.value, obj(vec![("a", num(1)), ("b", num(2))]));
    assert_eq!(state, obj(vec![("a", num(1))]));
}

#[test]
fn state_is_asked_for_only_by_an_interaction_without_state() {
    let interaction = CardInteraction {
        interaction_type: CardInteractionType::Submit,
        action_id: "a1".to_string(),
        card_instance_id: "c1".to_string(),
        verb: None,
        raw_inputs: Json::Null,
        metadata: Json::Null,
        enabled: true,
    };
    let plain = invocation_with(Some("n"), Json::Null, None);
    assert_eq!(state_request(&plain), None);
    let mut with_interaction = invocation_with(Some("n"), Json::Null, Some(interaction));
    assert_eq!(state_request(&with_interaction), Some("n:c1:session".to_string()));
    with_interaction.state = obj(vec![]);
    assert_eq!(state_request(&with_interaction), None);
}
