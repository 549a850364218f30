use crate::asset_resolver::AssetResolver;
use crate::codec::{parse_json, parsed_json};
use crate::error::{joined, ComponentError};
use crate::render::{card_outcome, render_with_state};
use crate::state_store::{
    apply_spec, effective_state, key_of, load_state_if_missing, persist_state,
    updates_well_formed, StateWrite,
};
use crate::json::{
    bool_member, fields_view, lemma_fields_well_formed_all, lemma_object_view, option_view,
    string_member, well_formed, Json, JsonView,
};
use crate::model::{
    invocation_well_formed, optional_text, views, ActionEventView, AdaptiveActionEvent, AdaptiveActionType,
    AdaptiveCardInvocation, AdaptiveCardResult, CardInteraction, CardInteractionType,
    InteractionView, RenderedCard, SessionUpdateOp, SessionUpdateView, StateUpdateOp,
    StateUpdateView, TelemetryEvent,
};
use vstd::prelude::*;

verus! {

/// The inputs of an interaction as a value that can be merged into the
/// state, given what reading a string payload as JSON gave: an object is
/// itself, null an empty object, a string what it holds as JSON, and
/// anything else is wrapped under the key `value`.
pub open spec fn inputs_spec(raw: JsonView, parsed: Option<JsonView>) -> JsonView {
    match raw {
        JsonView::Object(_) => raw,
        JsonView::Null => JsonView::Object(Seq::empty()),
        JsonView::String(_) => match parsed {
            Some(v) => v,
            None => JsonView::Object(seq![("value"@, raw)]),
        },
        _ => JsonView::Object(seq![("value"@, raw)]),
    }
}

/// What reading the payload as JSON gives, where it is a string.
pub open spec fn payload_json(raw: JsonView) -> Option<JsonView> {
    match raw {
        JsonView::String(s) => parsed_json(s),
        _ => None,
    }
}

/// The inputs of an interaction in normal form.
pub open spec fn normalize_spec(raw: JsonView) -> JsonView {
    inputs_spec(raw, payload_json(raw))
}

/// The kind of action that a kind of interaction stands for.
pub open spec fn action_type_of(t: CardInteractionType) -> AdaptiveActionType {
    match t {
        CardInteractionType::Submit => AdaptiveActionType::Submit,
        CardInteractionType::Execute => AdaptiveActionType::Execute,
        CardInteractionType::OpenUrl => AdaptiveActionType::OpenUrl,
        CardInteractionType::ShowCard => AdaptiveActionType::ShowCard,
        CardInteractionType::ToggleVisibility => AdaptiveActionType::ToggleVisibility,
    }
}

/// The sub-card that a show-card interaction opens: the metadata's
/// `subcardId`, else the action's id.
pub open spec fn subcard_of(i: InteractionView) -> Seq<char> {
    match string_member(i.metadata, "subcardId"@) {
        Some(s) => s,
        None => i.action_id,
    }
}

/// The flag that a toggle-visibility interaction sets: the metadata's
/// `visible`, else true.
pub open spec fn visible_of(i: InteractionView) -> bool {
    match bool_member(i.metadata, "visible"@) {
        Some(b) => b,
        None => true,
    }
}

/// The state updates of an interaction whose inputs in normal form are
/// `inputs`.
pub open spec fn state_updates_spec(i: InteractionView, inputs: JsonView) -> Seq<StateUpdateView> {
    match i.interaction_type {
        CardInteractionType::Submit => seq![
            StateUpdateView::Merge { path: "form_data"@, value: inputs },
        ],
        CardInteractionType::Execute => seq![
            StateUpdateView::Merge { path: "form_data"@, value: inputs },
        ],
        CardInteractionType::OpenUrl => Seq::empty(),
        CardInteractionType::ShowCard => seq![
            StateUpdateView::SetValue {
                path: "ui.active_show_card."@ + i.card_instance_id,
                value: JsonView::String(subcard_of(i)),
            },
        ],
        CardInteractionType::ToggleVisibility => seq![
            StateUpdateView::SetValue {
                path: "ui.visibility."@ + i.action_id,
                value: JsonView::Bool(visible_of(i)),
            },
        ],
    }
}

/// The session updates of an interaction: its route, where the metadata
/// names one.
pub open spec fn session_updates_spec(i: InteractionView) -> Seq<SessionUpdateView> {
    match string_member(i.metadata, "route"@) {
        Some(route) => seq![SessionUpdateView::SetRoute { route }],
        None => Seq::empty(),
    }
}

/// The event that records an interaction whose inputs in normal form are
/// `inputs`.
pub open spec fn event_spec(i: InteractionView, inputs: JsonView) -> ActionEventView {
    ActionEventView {
        action_type: action_type_of(i.interaction_type),
        action_id: i.action_id,
        verb: i.verb,
        route: string_member(i.metadata, "route"@),
        inputs,
        card_id: match string_member(i.metadata, "cardId"@) {
            Some(id) => id,
            None => i.card_instance_id,
        },
        card_instance_id: i.card_instance_id,
        subcard_id: string_member(i.metadata, "subcardId"@),
        metadata: i.metadata,
    }
}

/// What an interaction brings about.
pub struct InteractionEffects {
    pub event: AdaptiveActionEvent,
    pub state_updates: Vec<StateUpdateOp>,
    pub session_updates: Vec<SessionUpdateOp>,
}

/// The inputs of an interaction in normal form, given what reading a
/// string payload as JSON gave.
pub fn inputs_from(raw: &Json, parsed: Option<Json>) -> (r: Json)
    ensures
        r@ == inputs_spec(raw@, option_view(parsed)),
        well_formed(raw@) && (parsed matches Some(p) ==> well_formed(p@)) ==> well_formed(r@),
{
    match raw {
        Json::Object(_) => raw.clone(),
        Json::Null => empty_object(),
        Json::String(_) => match parsed {
            Some(v) => v,
            None => wrapped(raw),
        },
        _ => wrapped(raw),
    }
}

fn empty_object() -> (r: Json)
    ensures
        r@ == JsonView::Object(Seq::empty()),
{
    let r = Json::Object(Vec::new());
    proof {
        lemma_object_view(r);
        assert(fields_view(r->Object_0@) =~= Seq::empty());
    }
    r
}

fn wrapped(raw: &Json) -> (r: Json)
    ensures
        r@ == JsonView::Object(seq![("value"@, raw@)]),
        well_formed(raw@) ==> well_formed(r@),
{
    let mut fields: Vec<(String, Json)> = Vec::new();
    fields.push(("value".to_owned(), raw.clone()));
    let r = Json::Object(fields);
    proof {
        lemma_object_view(r);
        assert(fields_view(r->Object_0@) =~= seq![("value"@, raw@)]);
        if well_formed(raw@) {
            lemma_fields_well_formed_all(seq![("value"@, raw@)], 1);
        }
    }
    r
}

/// The inputs of an interaction in normal form.
pub fn normalize_inputs(raw: &Json) -> (r: Json)
    ensures
        r@ == normalize_spec(raw@),
        well_formed(raw@) ==> well_formed(r@),
{
    match raw {
        Json::String(s) => inputs_from(raw, parse_json(s.as_str())),
        _ => inputs_from(raw, None),
    }
}

/// A copy of an optional string.
pub fn copy_optional(s: &Option<String>) -> (r: Option<String>)
    ensures
        optional_text(r) == optional_text(*s),
{
    match s {
        Some(t) => Some(t.clone()),
        None => None,
    }
}

fn owned_optional(s: Option<&str>) -> (r: Option<String>)
    ensures
        match s {
            Some(t) => optional_text(r) == Some(t@),
            None => r is None,
        },
{
    match s {
        Some(t) => Some(t.to_owned()),
        None => None,
    }
}

fn action_type(t: CardInteractionType) -> (r: AdaptiveActionType)
    ensures
        r == action_type_of(t),
{
    match t {
        CardInteractionType::Submit => AdaptiveActionType::Submit,
        CardInteractionType::Execute => AdaptiveActionType::Execute,
        CardInteractionType::OpenUrl => AdaptiveActionType::OpenUrl,
        CardInteractionType::ShowCard => AdaptiveActionType::ShowCard,
        CardInteractionType::ToggleVisibility => AdaptiveActionType::ToggleVisibility,
    }
}

/// The state updates of an interaction whose inputs in normal form are
/// `inputs`.
pub fn state_updates_of(interaction: &CardInteraction, inputs: &Json) -> (r: Vec<StateUpdateOp>)
    ensures
        views(r@) == state_updates_spec(interaction@, inputs@),
        well_formed(inputs@) ==> updates_well_formed(views(r@)),
{
    let mut out: Vec<StateUpdateOp> = Vec::new();
    match interaction.interaction_type {
        CardInteractionType::Submit | CardInteractionType::Execute => {
            out.push(StateUpdateOp::Merge { path: "form_data".to_owned(), value: inputs.clone() });
        },
        CardInteractionType::OpenUrl => {},
        CardInteractionType::ShowCard => {
            let subcard = match interaction.metadata.get_str("subcardId") {
                Some(s) => s.to_owned(),
                None => interaction.action_id.clone(),
            };
            out.push(
                StateUpdateOp::SetValue {
                    path: joined("ui.active_show_card.", interaction.card_instance_id.as_str()),
                    value: Json::String(subcard),
                },
            );
        },
        CardInteractionType::ToggleVisibility => {
            let visible = match interaction.metadata.get_bool("visible") {
                Some(b) => b,
                None => true,
            };
            out.push(
                StateUpdateOp::SetValue {
                    path: joined("ui.visibility.", interaction.action_id.as_str()),
                    value: Json::Bool(visible),
                },
            );
        },
    }
    assert(views(out@) =~= state_updates_spec(interaction@, inputs@));
    out
}

/// The session updates of an interaction.
pub fn session_updates_of(interaction: &CardInteraction) -> (r: Vec<SessionUpdateOp>)
    ensures
        views(r@) == session_updates_spec(interaction@),
{
    let mut out: Vec<SessionUpdateOp> = Vec::new();
    if let Some(route) = interaction.metadata.get_str("route") {
        out.push(SessionUpdateOp::SetRoute { route: route.to_owned() });
    }
    assert(views(out@) =~= session_updates_spec(interaction@));
    out
}

/// The event that records an interaction whose inputs in normal form are
/// `inputs`.
pub fn event_of(interaction: &CardInteraction, inputs: Json) -> (r: AdaptiveActionEvent)
    ensures
        r@ == event_spec(interaction@, inputs@),
{
    let card_id = match interaction.metadata.get_str("cardId") {
        Some(id) => id.to_owned(),
        None => interaction.card_instance_id.clone(),
    };
    AdaptiveActionEvent {
        action_type: action_type(interaction.interaction_type),
        action_id: interaction.action_id.clone(),
        verb: copy_optional(&interaction.verb),
        route: owned_optional(interaction.metadata.get_str("route")),
        inputs,
        card_id,
        card_instance_id: interaction.card_instance_id.clone(),
        subcard_id: owned_optional(interaction.metadata.get_str("subcardId")),
        metadata: interaction.metadata.clone(),
    }
}

/// What an interaction brings about, given its inputs in normal form: the
/// event, the state updates and the session updates.
pub fn interaction_effects(interaction: &CardInteraction, inputs: Json) -> (r: InteractionEffects)
    ensures
        r.event@ == event_spec(interaction@, inputs@),
        views(r.state_updates@) == state_updates_spec(interaction@, inputs@),
        views(r.session_updates@) == session_updates_spec(interaction@),
        well_formed(inputs@) ==> updates_well_formed(views(r.state_updates@)),
{
    let state_updates = state_updates_of(interaction, &inputs);
    let session_updates = session_updates_of(interaction);
    let event = event_of(interaction, inputs);
    InteractionEffects { event, state_updates, session_updates }
}


/// What handling an invocation gives: the result for the host, and the
/// state to keep where there is one.
#[derive(Debug)]
pub struct InvocationOutcome {
    pub result: AdaptiveCardResult,
    pub write: Option<StateWrite>,
}

/// Whether the card and the state that an outcome carries are JSON values.
pub open spec fn outcome_well_formed(out: InvocationOutcome) -> bool {
    &&& out.result.rendered_card matches Some(card) ==> well_formed(card@)
    &&& out.write matches Some(w) ==> well_formed(w.value@)
}

/// Whether `out` is what an interaction gives whose card rendered to
/// `rendered`: the rendered card, the event and the updates of the
/// interaction, and the state after those updates under the card's key.
pub open spec fn handled_as(
    out: InvocationOutcome,
    inv: AdaptiveCardInvocation,
    i: InteractionView,
    rendered: RenderedCard,
    state: JsonView,
) -> bool {
    let inputs = normalize_spec(i.raw_inputs);
    &&& out.result.rendered_card matches Some(card) && card@ == rendered.card@
    &&& out.result.event matches Some(e) && e@ == event_spec(i, inputs)
    &&& views(out.result.state_updates@) == state_updates_spec(i, inputs)
    &&& views(out.result.session_updates@) == session_updates_spec(i)
    &&& out.result.card_features@ == rendered.features@
    &&& views(out.result.validation_issues@) == views(rendered.validation_issues@)
    &&& out.result.telemetry_events@.len() == 0
    &&& out.write matches Some(w) && w.key@ == key_of(inv) && w.value@ == apply_spec(
        state,
        state_updates_spec(i, inputs),
    )
}

/// Whether `r` is how handling the interaction of `inv` ends, with
/// `loaded` for what the store holds: an error where the invocation has no
/// interaction or its card does not render, else what `handled_as` says
/// for the rendered card.
pub open spec fn interaction_outcome<R: AssetResolver>(
    r: Result<InvocationOutcome, ComponentError>,
    inv: AdaptiveCardInvocation,
    loaded: Option<JsonView>,
    resolver: &R,
) -> bool {
    match inv.interaction {
        None => r matches Err(ComponentError::InteractionInvalid(m)) && m@
            == "interaction is required"@,
        Some(i) => {
            let state = effective_state(inv.state@, loaded);
            match r {
                Ok(out) => exists|rendered: RenderedCard|
                    card_outcome(Ok(rendered), inv, state, resolver) && handled_as(
                        out,
                        inv,
                        i@,
                        rendered,
                        state,
                    ),
                Err(e) => card_outcome(Err(e), inv, state, resolver),
            }
        },
    }
}

/// What an interaction gives once its card is rendered: the result for
/// the host and the state to keep.
pub fn finish_interaction(
    inv: &AdaptiveCardInvocation,
    interaction: &CardInteraction,
    rendered: RenderedCard,
    state: &Json,
) -> (r: InvocationOutcome)
    ensures
        handled_as(r, *inv, interaction@, rendered, state@),
        well_formed(rendered.card@) && well_formed(interaction.raw_inputs@) && well_formed(state@)
            ==> outcome_well_formed(r),
{
    let inputs = normalize_inputs(&interaction.raw_inputs);
    let effects = interaction_effects(interaction, inputs);
    let write = persist_state(inv, state, &effects.state_updates);
    let telemetry: Vec<TelemetryEvent> = Vec::new();
    InvocationOutcome {
        result: AdaptiveCardResult {
            rendered_card: Some(rendered.card),
            event: Some(effects.event),
            state_updates: effects.state_updates,
            session_updates: effects.session_updates,
            card_features: rendered.features,
            validation_issues: rendered.validation_issues,
            telemetry_events: telemetry,
        },
        write: Some(write),
    }
}

/// Handles the interaction of an invocation. `loaded` is the state that
/// the store holds for the card; it is used where the invocation brings
/// none. The card is rendered for the host to show again, the interaction
/// is turned into an event and updates, and the updates are applied to
/// the state that is to be kept.
pub fn handle_interaction<R: AssetResolver>(
    inv: &AdaptiveCardInvocation,
    loaded: Option<Json>,
    resolver: &R,
) -> (r: Result<InvocationOutcome, ComponentError>)
    ensures
        interaction_outcome(r, *inv, option_view(loaded), resolver),
        invocation_well_formed(*inv) && (loaded matches Some(s) ==> well_formed(s@)) ==> (r matches Ok(
            out,
        ) ==> outcome_well_formed(out)),
{
    let interaction = match &inv.interaction {
        Some(i) => i,
        None => {
            return Err(ComponentError::InteractionInvalid("interaction is required".to_owned()));
        },
    };
    let state = load_state_if_missing(&inv.state, loaded);
    let rendered = match render_with_state(inv, &state, resolver) {
        Ok(rendered) => rendered,
        Err(e) => {
            return Err(e);
        },
    };
    let ghost seen = rendered;
    let out = finish_interaction(inv, interaction, rendered, &state);
    assert(card_outcome(Ok(seen), *inv, state@, resolver) && handled_as(
        out,
        *inv,
        interaction@,
        seen,
        state@,
    ));
    Ok(out)
}


/// An interaction whose metadata names a route as a string asks the host
/// to set that route, whatever the kind of the interaction, and the event
/// carries the route.
pub proof fn lemma_route_is_propagated(i: InteractionView, inputs: JsonView, route: Seq<char>)
    requires
        string_member(i.metadata, "route"@) == Some(route),
    ensures
        session_updates_spec(i) == seq![SessionUpdateView::SetRoute { route }],
        event_spec(i, inputs).route == Some(route),
{
}

/// An interaction whose metadata names no route as a string asks for no
/// session update.
pub proof fn lemma_no_route_no_session_update(i: InteractionView)
    requires
        string_member(i.metadata, "route"@) is None,
    ensures
        session_updates_spec(i) == Seq::<SessionUpdateView>::empty(),
{
}

/// A toggle-visibility interaction whose metadata has no boolean
/// `visible` sets the visibility of its action to true.
pub proof fn lemma_toggle_defaults_to_visible(i: InteractionView, inputs: JsonView)
    requires
        i.interaction_type == CardInteractionType::ToggleVisibility,
        bool_member(i.metadata, "visible"@) is None,
    ensures
        state_updates_spec(i, inputs) == seq![
            StateUpdateView::SetValue {
                path: "ui.visibility."@ + i.action_id,
                value: JsonView::Bool(true),
            },
        ],
{
}

/// A show-card interaction sets exactly one value: the sub-card that is
/// open in its card instance, which is the metadata's `subcardId` where
/// that is a string.
pub proof fn lemma_show_card_sets_subcard(i: InteractionView, inputs: JsonView, subcard: Seq<char>)
    requires
        i.interaction_type == CardInteractionType::ShowCard,
        string_member(i.metadata, "subcardId"@) == Some(subcard),
    ensures
        state_updates_spec(i, inputs) == seq![
            StateUpdateView::SetValue {
                path: "ui.active_show_card."@ + i.card_instance_id,
                value: JsonView::String(subcard),
            },
        ],
        event_spec(i, inputs).action_type == AdaptiveActionType::ShowCard,
        event_spec(i, inputs).subcard_id == Some(subcard),
{
}

} // verus!
