use crate::json::{well_formed, Json, JsonView};
use vstd::prelude::*;

verus! {

/// What an invocation asks for.
#[derive(Clone, Copy, Debug, PartialEq, Eq, Structural)]
pub enum InvocationMode {
    Render,
    Validate,
    RenderAndValidate,
}

/// What becomes of validation issues.
#[derive(Clone, Copy, Debug, PartialEq, Eq, Structural)]
pub enum ValidationMode {
    Off,
    Warn,
    Error,
}

/// The kinds of interaction that a host reports.
#[derive(Clone, Copy, Debug, PartialEq, Eq, Structural)]
pub enum CardInteractionType {
    Submit,
    Execute,
    OpenUrl,
    ShowCard,
    ToggleVisibility,
}

/// The kinds of action that an event records.
#[derive(Clone, Copy, Debug, PartialEq, Eq, Structural)]
pub enum AdaptiveActionType {
    Submit,
    Execute,
    OpenUrl,
    ShowCard,
    ToggleVisibility,
}

/// A capability that a rendered card needs from the host.
#[derive(Clone, Copy, Debug, PartialEq, Eq, Structural)]
pub enum FeatureFlag {
    Submit,
    Execute,
    OpenUrl,
    ShowCard,
    ToggleVisibility,
}

/// Where the card's JSON comes from.
#[derive(Clone, Debug, PartialEq, Eq)]
pub enum CardSource {
    /// The card itself.
    Inline(Json),
    /// The name of an asset that holds the card as JSON text.
    Asset(String),
}

/// The card to render and the parameters of its template.
#[derive(Clone, Debug, PartialEq, Eq)]
pub struct CardSpec {
    pub source: CardSource,
    pub template_params: Json,
}

/// One user action, as the host reports it.
#[derive(Clone, Debug, PartialEq, Eq)]
pub struct CardInteraction {
    pub interaction_type: CardInteractionType,
    pub action_id: String,
    pub card_instance_id: String,
    pub verb: Option<String>,
    pub raw_inputs: Json,
    pub metadata: Json,
    pub enabled: bool,
}

/// One call of the component.
#[derive(Clone, Debug, PartialEq, Eq)]
pub struct AdaptiveCardInvocation {
    pub card_spec: CardSpec,
    pub payload: Json,
    pub session: Json,
    pub state: Json,
    pub interaction: Option<CardInteraction>,
    pub mode: InvocationMode,
    pub validation_mode: ValidationMode,
    pub node_id: Option<String>,
}

/// An instruction that changes the state document.
#[derive(Clone, Debug, PartialEq, Eq)]
pub enum StateUpdateOp {
    SetValue { path: String, value: Json },
    Merge { path: String, value: Json },
}

/// An instruction that the host applies to the session.
#[derive(Clone, Debug, PartialEq, Eq)]
pub enum SessionUpdateOp {
    SetRoute { route: String },
}

/// What the user did, in normal form.
#[derive(Clone, Debug, PartialEq, Eq)]
pub struct AdaptiveActionEvent {
    pub action_type: AdaptiveActionType,
    pub action_id: String,
    pub verb: Option<String>,
    pub route: Option<String>,
    pub inputs: Json,
    pub card_id: String,
    pub card_instance_id: String,
    pub subcard_id: Option<String>,
    pub metadata: Json,
}

/// One step on the way from the root of a card to a node of it.
#[derive(Clone, Debug, PartialEq, Eq)]
pub enum PathStep {
    Key(String),
    Index(usize),
}

/// A binding that could not be resolved: where it stands and its text.
#[derive(Clone, Debug, PartialEq, Eq)]
pub struct ValidationIssue {
    pub location: Vec<PathStep>,
    pub expression: String,
}

/// A binding that was evaluated: where it stands, its text, and whether
/// it had a value.
#[derive(Clone, Debug, PartialEq, Eq)]
pub struct BindingRead {
    pub location: Vec<PathStep>,
    pub expression: String,
    pub resolved: bool,
}

/// An asset that was asked for, and whether the resolver had it.
#[derive(Clone, Debug, PartialEq, Eq)]
pub struct AssetLookup {
    pub name: String,
    pub found: bool,
}

/// A record for the host's telemetry.
#[derive(Clone, Debug, PartialEq, Eq)]
pub struct TelemetryEvent {
    pub name: String,
    pub data: Json,
}

/// What rendering a card gives.
#[derive(Clone, Debug, PartialEq, Eq)]
pub struct RenderedCard {
    pub card: Json,
    pub features: Vec<FeatureFlag>,
    pub validation_issues: Vec<ValidationIssue>,
    pub asset_resolution: Vec<AssetLookup>,
    pub binding_summary: Vec<BindingRead>,
}

/// What one call of the component gives.
#[derive(Clone, Debug, PartialEq, Eq)]
pub struct AdaptiveCardResult {
    pub rendered_card: Option<Json>,
    pub event: Option<AdaptiveActionEvent>,
    pub state_updates: Vec<StateUpdateOp>,
    pub session_updates: Vec<SessionUpdateOp>,
    pub card_features: Vec<FeatureFlag>,
    pub validation_issues: Vec<ValidationIssue>,
    pub telemetry_events: Vec<TelemetryEvent>,
}

/// Whether every document that the invocation carries is a JSON value.
pub open spec fn invocation_well_formed(inv: AdaptiveCardInvocation) -> bool {
    &&& well_formed(inv.payload@)
    &&& well_formed(inv.session@)
    &&& well_formed(inv.state@)
    &&& well_formed(inv.card_spec.template_params@)
    &&& inv.card_spec.source matches CardSource::Inline(card) ==> well_formed(card@)
    &&& inv.interaction matches Some(i) ==> well_formed(i.raw_inputs@) && well_formed(i.metadata@)
}

/// The views of a list of values, one for one.
pub open spec fn views<T: View>(s: Seq<T>) -> Seq<T::V> {
    Seq::new(s.len(), |i: int| s[i]@)
}

/// The text of an optional string.
pub open spec fn optional_text(s: Option<String>) -> Option<Seq<char>> {
    match s {
        Some(t) => Some(t@),
        None => None,
    }
}

/// The value of a [`StateUpdateOp`].
pub enum StateUpdateView {
    SetValue { path: Seq<char>, value: JsonView },
    Merge { path: Seq<char>, value: JsonView },
}

impl View for StateUpdateOp {
    type V = StateUpdateView;

    open spec fn view(&self) -> StateUpdateView {
        match self {
            StateUpdateOp::SetValue { path, value } => StateUpdateView::SetValue {
                path: path@,
                value: value@,
            },
            StateUpdateOp::Merge { path, value } => StateUpdateView::Merge {
                path: path@,
                value: value@,
            },
        }
    }
}

/// The value of a [`SessionUpdateOp`].
pub enum SessionUpdateView {
    SetRoute { route: Seq<char> },
}

impl View for SessionUpdateOp {
    type V = SessionUpdateView;

    open spec fn view(&self) -> SessionUpdateView {
        match self {
            SessionUpdateOp::SetRoute { route } => SessionUpdateView::SetRoute { route: route@ },
        }
    }
}

/// The value of a [`CardInteraction`].
pub struct InteractionView {
    pub interaction_type: CardInteractionType,
    pub action_id: Seq<char>,
    pub card_instance_id: Seq<char>,
    pub verb: Option<Seq<char>>,
    pub raw_inputs: JsonView,
    pub metadata: JsonView,
    pub enabled: bool,
}

impl View for CardInteraction {
    type V = InteractionView;

    open spec fn view(&self) -> InteractionView {
        InteractionView {
            interaction_type: self.interaction_type,
            action_id: self.action_id@,
            card_instance_id: self.card_instance_id@,
            verb: optional_text(self.verb),
            raw_inputs: self.raw_inputs@,
            metadata: self.metadata@,
            enabled: self.enabled,
        }
    }
}

/// The value of an [`AdaptiveActionEvent`].
pub struct ActionEventView {
    pub action_type: AdaptiveActionType,
    pub action_id: Seq<char>,
    pub verb: Option<Seq<char>>,
    pub route: Option<Seq<char>>,
    pub inputs: JsonView,
    pub card_id: Seq<char>,
    pub card_instance_id: Seq<char>,
    pub subcard_id: Option<Seq<char>>,
    pub metadata: JsonView,
}

impl View for AdaptiveActionEvent {
    type V = ActionEventView;

    open spec fn view(&self) -> ActionEventView {
        ActionEventView {
            action_type: self.action_type,
            action_id: self.action_id@,
            verb: optional_text(self.verb),
            route: optional_text(self.route),
            inputs: self.inputs@,
            card_id: self.card_id@,
            card_instance_id: self.card_instance_id@,
            subcard_id: optional_text(self.subcard_id),
            metadata: self.metadata@,
        }
    }
}

/// The value of a [`PathStep`].
pub enum PathStepView {
    Key(Seq<char>),
    Index(int),
}

impl View for PathStep {
    type V = PathStepView;

    open spec fn view(&self) -> PathStepView {
        match self {
            PathStep::Key(k) => PathStepView::Key(k@),
            PathStep::Index(i) => PathStepView::Index(*i as int),
        }
    }
}

/// The value of a [`ValidationIssue`].
pub struct IssueView {
    pub location: Seq<PathStepView>,
    pub expression: Seq<char>,
}

impl View for ValidationIssue {
    type V = IssueView;

    open spec fn view(&self) -> IssueView {
        IssueView { location: views(self.location@), expression: self.expression@ }
    }
}

/// The value of a [`BindingRead`].
pub struct BindingReadView {
    pub location: Seq<PathStepView>,
    pub expression: Seq<char>,
    pub resolved: bool,
}

impl View for BindingRead {
    type V = BindingReadView;

    open spec fn view(&self) -> BindingReadView {
        BindingReadView {
            location: views(self.location@),
            expression: self.expression@,
            resolved: self.resolved,
        }
    }
}

/// The value of an [`AssetLookup`].
pub struct AssetLookupView {
    pub name: Seq<char>,
    pub found: bool,
}

impl View for AssetLookup {
    type V = AssetLookupView;

    open spec fn view(&self) -> AssetLookupView {
        AssetLookupView { name: self.name@, found: self.found }
    }
}

} // verus!
