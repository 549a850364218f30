//! Renders a declarative card, a JSON tree with bindings in its strings,
//! against a payload, a session and a state, and turns the interactions
//! of a user into updates of that state. Every function is verified
//! against a contract over the mathematical value of its arguments.

pub mod asset_resolver;
pub mod codec;
pub mod context;
pub mod error;
pub mod expression;
pub mod interaction;
pub mod json;
pub mod model;
pub mod render;
pub mod state_store;
pub mod text;

use crate::asset_resolver::AssetResolver;
use crate::codec::{json_text, json_text_of};
use crate::error::{code_spec, message_spec, ComponentError};
use crate::interaction::{
    handle_interaction, interaction_outcome, outcome_well_formed, InvocationOutcome,
};
use crate::json::{fields_view, lemma_object_view, option_view, well_formed, Json, JsonView};
use crate::json::{items_view, lemma_array_view, JsonNumber, NumberValue};
use crate::model::{
    invocation_well_formed, views, AdaptiveCardInvocation, AdaptiveCardResult, InvocationMode, IssueView, PathStep,
    PathStepView, RenderedCard, SessionUpdateOp, StateUpdateOp, TelemetryEvent, ValidationIssue,
};
use crate::text::{decimal, decimal_text};
use crate::render::{card_outcome, render_card};
use crate::text::{equals_ignoring_case, same_ignoring_case};
use vstd::prelude::*;

verus! {

/// An object with the given fields.
pub fn object_of(fields: Vec<(String, Json)>) -> (r: Json)
    ensures
        r@ == JsonView::Object(fields_view(fields@)),
{
    let r = Json::Object(fields);
    proof {
        lemma_object_view(r);
    }
    r
}

/// A field whose value is a string.
pub fn text_field(key: &str, value: &str) -> (r: (String, Json))
    ensures
        r.0@ == key@,
        r.1@ == JsonView::String(value@),
{
    (key.to_owned(), Json::String(value.to_owned()))
}

/// The field `key` with the string `value`.
pub open spec fn text_field_spec(key: Seq<char>, value: Seq<char>) -> (Seq<char>, JsonView) {
    (key, JsonView::String(value))
}

/// The manifest of the component.
pub open spec fn manifest_spec() -> JsonView {
    JsonView::Object(
        seq![
            (
                "component"@,
                JsonView::Object(
                    seq![
                        text_field_spec("name"@, "component-adaptive-card"@),
                        text_field_spec("org"@, "ai.greentic"@),
                        (
                            "schemas"@,
                            JsonView::Object(
                                seq![
                                    text_field_spec(
                                        "component"@,
                                        "schemas/component.schema.json"@,
                                    ),
                                    text_field_spec("input"@, "schemas/io/input.schema.json"@),
                                    text_field_spec("output"@, "schemas/io/output.schema.json"@),
                                ],
                            ),
                        ),
                        text_field_spec("version"@, "0.1.0"@),
                        text_field_spec("world"@, "greentic:component/component@0.4.0"@),
                    ],
                ),
            ),
        ],
    )
}

/// The manifest of the component, as a document.
pub fn manifest() -> (r: Json)
    ensures
        r@ == manifest_spec(),
{
    let mut schemas: Vec<(String, Json)> = Vec::new();
    schemas.push(text_field("component", "schemas/component.schema.json"));
    schemas.push(text_field("input", "schemas/io/input.schema.json"));
    schemas.push(text_field("output", "schemas/io/output.schema.json"));
    assert(fields_view(schemas@) =~= seq![
        text_field_spec("component"@, "schemas/component.schema.json"@),
        text_field_spec("input"@, "schemas/io/input.schema.json"@),
        text_field_spec("output"@, "schemas/io/output.schema.json"@),
    ]);
    let schemas_object = object_of(schemas);
    let mut component: Vec<(String, Json)> = Vec::new();
    component.push(text_field("name", "component-adaptive-card"));
    component.push(text_field("org", "ai.greentic"));
    component.push(("schemas".to_owned(), schemas_object));
    component.push(text_field("version", "0.1.0"));
    component.push(text_field("world", "greentic:component/component@0.4.0"));
    assert(fields_view(component@) =~= seq![
        text_field_spec("name"@, "component-adaptive-card"@),
        text_field_spec("org"@, "ai.greentic"@),
        ("schemas"@, schemas_object@),
        text_field_spec("version"@, "0.1.0"@),
        text_field_spec("world"@, "greentic:component/component@0.4.0"@),
    ]);
    let component_object = object_of(component);
    let mut root: Vec<(String, Json)> = Vec::new();
    root.push(("component".to_owned(), component_object));
    assert(fields_view(root@) =~= seq![("component"@, component_object@)]);
    object_of(root)
}

/// The manifest of the component, as JSON text.
pub fn describe_payload() -> (r: String)
    ensures
        r@ == json_text_of(manifest_spec()),
{
    json_text(&manifest())
}

/// One step of a location as JSON: a key as a string, an index as a
/// number.
pub open spec fn step_json(step: PathStepView) -> JsonView {
    match step {
        PathStepView::Key(k) => JsonView::String(k),
        PathStepView::Index(i) => JsonView::Number(
            NumberValue::PosInt(i as u64),
            decimal(i as nat),
        ),
    }
}

/// An issue as JSON: its location, step by step, and its expression.
pub open spec fn issue_json(issue: IssueView) -> JsonView {
    JsonView::Object(
        seq![
            (
                "location"@,
                JsonView::Array(
                    Seq::new(issue.location.len(), |i: int| step_json(issue.location[i])),
                ),
            ),
            text_field_spec("expression"@, issue.expression),
        ],
    )
}

/// The issues as a JSON array, in order.
pub open spec fn issues_json(issues: Seq<IssueView>) -> JsonView {
    JsonView::Array(Seq::new(issues.len(), |i: int| issue_json(issues[i])))
}

/// What the host is told of an error: its code and its message, and for
/// a card that failed validation the issues as details.
pub open spec fn error_envelope_spec(e: ComponentError) -> JsonView {
    let head = seq![
        text_field_spec("code"@, code_spec(e)),
        text_field_spec("message"@, message_spec(e)),
    ];
    let inner = match e {
        ComponentError::CardValidation(issues) => head.push(
            ("details"@, issues_json(views(issues@))),
        ),
        _ => head,
    };
    JsonView::Object(seq![("error"@, JsonView::Object(inner))])
}

/// An array with the given items.
pub fn array_of(items: Vec<Json>) -> (r: Json)
    ensures
        r@ == JsonView::Array(items_view(items@)),
{
    let r = Json::Array(items);
    proof {
        lemma_array_view(r);
    }
    r
}

/// An issue as a document.
pub fn issue_document(issue: &ValidationIssue) -> (r: Json)
    ensures
        r@ == issue_json(issue@),
{
    let mut steps: Vec<Json> = Vec::new();
    let mut i: usize = 0;
    while i < issue.location.len()
        invariant
            i <= issue.location.len(),
            steps@.len() == i,
            forall|j: int| 0 <= j < i ==> steps@[j]@ == step_json(issue.location@[j]@),
        decreases issue.location.len() - i,
    {
        let step = match &issue.location[i] {
            PathStep::Key(k) => Json::String(k.clone()),
            PathStep::Index(n) => Json::Number(
                JsonNumber { value: NumberValue::PosInt(*n as u64), text: decimal_text(*n) },
            ),
        };
        steps.push(step);
        i += 1;
    }
    assert(items_view(steps@) =~= Seq::new(
        issue@.location.len(),
        |i: int| step_json(issue@.location[i]),
    ));
    let mut fields: Vec<(String, Json)> = Vec::new();
    fields.push(("location".to_owned(), array_of(steps)));
    fields.push(text_field("expression", issue.expression.as_str()));
    assert(fields_view(fields@) =~= issue_json(issue@)->Object_0);
    object_of(fields)
}

/// The issues as an array of documents.
pub fn issues_document(issues: &Vec<ValidationIssue>) -> (r: Json)
    ensures
        r@ == issues_json(views(issues@)),
{
    let mut items: Vec<Json> = Vec::new();
    let mut i: usize = 0;
    while i < issues.len()
        invariant
            i <= issues.len(),
            items@.len() == i,
            forall|j: int| 0 <= j < i ==> items@[j]@ == issue_json(issues@[j]@),
        decreases issues.len() - i,
    {
        items.push(issue_document(&issues[i]));
        i += 1;
    }
    assert(items_view(items@) =~= Seq::new(
        views(issues@).len(),
        |i: int| issue_json(views(issues@)[i]),
    ));
    array_of(items)
}

/// What the host is told of an error, as a document.
pub fn error_envelope(e: &ComponentError) -> (r: Json)
    ensures
        r@ == error_envelope_spec(*e),
{
    let message = e.message();
    let mut inner: Vec<(String, Json)> = Vec::new();
    inner.push(text_field("code", e.code()));
    inner.push(text_field("message", message.as_str()));
    let ghost head = seq![
        text_field_spec("code"@, code_spec(*e)),
        text_field_spec("message"@, message_spec(*e)),
    ];
    assert(fields_view(inner@) =~= head);
    match e {
        ComponentError::CardValidation(issues) => {
            let details = issues_document(issues);
            inner.push(("details".to_owned(), details));
            assert(fields_view(inner@) =~= head.push(("details"@, details@)));
        },
        _ => {},
    }
    let inner_object = object_of(inner);
    let mut root: Vec<(String, Json)> = Vec::new();
    root.push(("error".to_owned(), inner_object));
    assert(fields_view(root@) =~= seq![("error"@, inner_object@)]);
    object_of(root)
}

/// What the host is told of an error, as JSON text.
pub fn error_payload(e: &ComponentError) -> (r: String)
    ensures
        r@ == json_text_of(error_envelope_spec(*e)),
{
    json_text(&error_envelope(e))
}

/// The mode of an invocation under an operation: the operation
/// `validate`, in whatever case, asks for validation only.
pub open spec fn mode_under(operation: Seq<char>, mode: InvocationMode) -> InvocationMode {
    if same_ignoring_case(operation, "validate"@) {
        InvocationMode::Validate
    } else {
        mode
    }
}

/// Lets the name of the operation steer the mode of the invocation.
pub fn apply_operation(invocation: &mut AdaptiveCardInvocation, operation: &str)
    ensures
        final(invocation).mode == mode_under(operation@, old(invocation).mode),
        final(invocation).card_spec == old(invocation).card_spec,
        final(invocation).payload == old(invocation).payload,
        final(invocation).session == old(invocation).session,
        final(invocation).state == old(invocation).state,
        final(invocation).interaction == old(invocation).interaction,
        final(invocation).validation_mode == old(invocation).validation_mode,
        final(invocation).node_id == old(invocation).node_id,
{
    if equals_ignoring_case(operation, "validate") {
        invocation.mode = InvocationMode::Validate;
    }
}

/// Whether `out` is what a plain rendering gives whose card rendered to
/// `rendered`: the card unless the mode asks for validation only, its
/// features and issues, and nothing else.
pub open spec fn rendered_result(
    out: InvocationOutcome,
    mode: InvocationMode,
    rendered: RenderedCard,
) -> bool {
    &&& match mode {
        InvocationMode::Validate => out.result.rendered_card is None,
        _ => out.result.rendered_card matches Some(card) && card@ == rendered.card@,
    }
    &&& out.result.event is None
    &&& out.result.state_updates@.len() == 0
    &&& out.result.session_updates@.len() == 0
    &&& out.result.card_features@ == rendered.features@
    &&& views(out.result.validation_issues@) == views(rendered.validation_issues@)
    &&& out.result.telemetry_events@.len() == 0
    &&& out.write is None
}

/// Whether `r` is how handling `inv` ends: as an interaction where it
/// carries one, else as a plain rendering.
pub open spec fn invocation_outcome<R: AssetResolver>(
    r: Result<InvocationOutcome, ComponentError>,
    inv: AdaptiveCardInvocation,
    loaded: Option<JsonView>,
    resolver: &R,
) -> bool {
    if inv.interaction is Some {
        interaction_outcome(r, inv, loaded, resolver)
    } else {
        match r {
            Ok(out) => exists|rendered: RenderedCard|
                card_outcome(Ok(rendered), inv, inv.state@, resolver) && rendered_result(
                    out,
                    inv.mode,
                    rendered,
                ),
            Err(e) => card_outcome(Err(e), inv, inv.state@, resolver),
        }
    }
}

/// What a plain rendering gives once its card is rendered.
pub fn finish_rendering(mode: InvocationMode, rendered: RenderedCard) -> (r: InvocationOutcome)
    ensures
        rendered_result(r, mode, rendered),
        well_formed(rendered.card@) ==> outcome_well_formed(r),
{
    let rendered_card = match mode {
        InvocationMode::Validate => None,
        InvocationMode::Render | InvocationMode::RenderAndValidate => Some(rendered.card),
    };
    let state_updates: Vec<StateUpdateOp> = Vec::new();
    let session_updates: Vec<SessionUpdateOp> = Vec::new();
    let telemetry: Vec<TelemetryEvent> = Vec::new();
    InvocationOutcome {
        result: AdaptiveCardResult {
            rendered_card,
            event: None,
            state_updates,
            session_updates,
            card_features: rendered.features,
            validation_issues: rendered.validation_issues,
            telemetry_events: telemetry,
        },
        write: None,
    }
}

/// Handles one invocation: an interaction where it carries one, else a
/// rendering of its card. `loaded` is the state that the store holds for
/// the card.
pub fn handle_invocation<R: AssetResolver>(
    invocation: AdaptiveCardInvocation,
    loaded: Option<Json>,
    resolver: &R,
) -> (r: Result<InvocationOutcome, ComponentError>)
    ensures
        invocation_outcome(r, invocation, option_view(loaded), resolver),
        invocation_well_formed(invocation) && (loaded matches Some(s) ==> well_formed(s@)) ==> (
        r matches Ok(out) ==> outcome_well_formed(out)),
{
    if invocation.interaction.is_some() {
        return handle_interaction(&invocation, loaded, resolver);
    }
    let rendered = match render_card(&invocation, resolver) {
        Ok(rendered) => rendered,
        Err(e) => {
            return Err(e);
        },
    };
    let ghost seen = rendered;
    let out = finish_rendering(invocation.mode, rendered);
    assert(card_outcome(Ok(seen), invocation, invocation.state@, resolver) && rendered_result(
        out,
        invocation.mode,
        seen,
    ));
    Ok(out)
}

} // verus!
