use crate::context::walk;
use crate::json::{
    distinct_keys, fields_view, fields_well_formed, find_field, lemma_get_is_well_formed,
    lemma_object_view, lemma_put_is_well_formed, lemma_put_keeps_others, lemma_put_then_get,
    member, object_get, object_put, string_member, well_formed, Json, JsonView,
};
use crate::model::{
    optional_text, views, AdaptiveCardInvocation, CardInteraction, StateUpdateOp,
    StateUpdateView,
};
use crate::text::{split_on, split_str, texts_of};
use vstd::prelude::*;

verus! {

/// The fields of an object; a value that is no object has none.
pub open spec fn fields_of(v: JsonView) -> Seq<(Seq<char>, JsonView)> {
    match v {
        JsonView::Object(fields) => fields,
        _ => Seq::empty(),
    }
}

/// The value under `key`, or null where the key is absent.
pub open spec fn child_of(fields: Seq<(Seq<char>, JsonView)>, key: Seq<char>) -> JsonView {
    match object_get(fields, key) {
        Some(child) => child,
        None => JsonView::Null,
    }
}

/// The merge of `incoming` into `base`: where both are objects, every key
/// of `incoming` is merged into the value that `base` has under it, and
/// the other keys of `base` stay; in any other case `incoming` itself.
pub open spec fn deep_merge(base: JsonView, incoming: JsonView) -> JsonView
    decreases incoming, 0int,
{
    match (base, incoming) {
        (JsonView::Object(b), JsonView::Object(inc)) => JsonView::Object(
            merge_upto(b, inc, inc.len() as int),
        ),
        _ => incoming,
    }
}

/// The fields of `base` after the first `k` fields of `inc` were merged
/// into them, in order.
pub open spec fn merge_upto(
    base: Seq<(Seq<char>, JsonView)>,
    inc: Seq<(Seq<char>, JsonView)>,
    k: int,
) -> Seq<(Seq<char>, JsonView)>
    decreases inc, k,
{
    if k <= 0 || k > inc.len() {
        base
    } else {
        let prev = merge_upto(base, inc, k - 1);
        let key = inc[k - 1].0;
        object_put(prev, key, deep_merge(child_of(prev, key), inc[k - 1].1))
    }
}

/// The document with the value at the path `segs[from..]` replaced by
/// `value`, or merged with it where `merge` is set. Every segment on the
/// way becomes a key of an object: a missing one is created, and a value
/// on the way that is no object gives way to one.
pub open spec fn update_at(
    doc: JsonView,
    segs: Seq<Seq<char>>,
    from: int,
    value: JsonView,
    merge: bool,
) -> JsonView
    decreases segs.len() - from,
{
    if from < 0 || from >= segs.len() {
        if merge {
            deep_merge(doc, value)
        } else {
            value
        }
    } else {
        let fields = fields_of(doc);
        let key = segs[from];
        JsonView::Object(
            object_put(fields, key, update_at(child_of(fields, key), segs, from + 1, value, merge)),
        )
    }
}

/// The document after one update.
pub open spec fn apply_op(doc: JsonView, op: StateUpdateView) -> JsonView {
    match op {
        StateUpdateView::SetValue { path, value } => update_at(
            doc,
            split_on(path, '.'),
            0,
            value,
            false,
        ),
        StateUpdateView::Merge { path, value } => update_at(
            doc,
            split_on(path, '.'),
            0,
            value,
            true,
        ),
    }
}

/// The document after the first `k` updates, in order.
pub open spec fn apply_upto(doc: JsonView, ops: Seq<StateUpdateView>, k: int) -> JsonView
    decreases k,
{
    if k <= 0 || k > ops.len() {
        doc
    } else {
        apply_op(apply_upto(doc, ops, k - 1), ops[k - 1])
    }
}

/// The document that updates start from: an empty object in place of
/// null.
pub open spec fn coerce_state(state: JsonView) -> JsonView {
    match state {
        JsonView::Null => JsonView::Object(Seq::empty()),
        _ => state,
    }
}

/// The state document after all updates, in order.
pub open spec fn apply_spec(state: JsonView, ops: Seq<StateUpdateView>) -> JsonView {
    apply_upto(coerce_state(state), ops, ops.len() as int)
}

/// The fields of an object, copied; none for a value that is no object.
fn fields_copy(doc: &Json) -> (r: Vec<(String, Json)>)
    ensures
        fields_view(r@) == fields_of(doc@),
{
    match doc.clone() {
        Json::Object(fields) => {
            proof {
                lemma_object_view(Json::Object(fields));
            }
            fields
        },
        _ => {
            let r: Vec<(String, Json)> = Vec::new();
            assert(fields_view(r@) =~= Seq::empty());
            r
        },
    }
}

/// Sets `key` to `value`: in place where the key is present, at the end
/// where it is not.
fn put_field(fields: &mut Vec<(String, Json)>, key: &str, value: Json)
    ensures
        fields_view(final(fields)@) == object_put(fields_view(old(fields)@), key@, value@),
{
    let ghost before = fields@;
    match find_field(fields, key) {
        Some(i) => {
            fields.set(i, (key.to_owned(), value));
            assert(fields_view(fields@) =~= fields_view(before).update(i as int, (key@, value@)));
        },
        None => {
            fields.push((key.to_owned(), value));
            assert(fields_view(fields@) =~= fields_view(before).push((key@, value@)));
        },
    }
}

/// The merge of `incoming` into `base`.
pub fn merge_values(base: &Json, incoming: &Json) -> (r: Json)
    ensures
        r@ == deep_merge(base@, incoming@),
    decreases incoming,
{
    match (base, incoming) {
        (Json::Object(_), Json::Object(inc)) => {
            proof {
                lemma_object_view(*base);
                lemma_object_view(*incoming);
            }
            let mut acc = fields_copy(base);
            let mut k: usize = 0;
            while k < inc.len()
                invariant
                    k <= inc.len(),
                    *incoming == Json::Object(*inc),
                    fields_view(acc@) == merge_upto(
                        fields_of(base@),
                        fields_view(inc@),
                        k as int,
                    ),
                decreases inc.len() - k,
            {
                proof {
                    assert(decreases_to!(*incoming => incoming->Object_0));
                    assert(decreases_to!(*inc => inc@));
                    assert(decreases_to!(inc@ => inc@[k as int]));
                    assert(decreases_to!(inc@[k as int] => inc@[k as int].1));
                }
                let key = inc[k].0.as_str();
                let ghost prev = fields_view(acc@);
                let merged = match find_field(&acc, key) {
                    Some(i) => merge_values(&acc[i].1, &inc[k].1),
                    None => inc[k].1.clone(),
                };
                proof {
                    assert(fields_view(inc@)[k as int] == (key@, inc@[k as int].1@));
                    assert(merged@ == deep_merge(child_of(prev, key@), inc@[k as int].1@));
                }
                put_field(&mut acc, key, merged);
                k += 1;
            }
            let r = Json::Object(acc);
            proof {
                lemma_object_view(r);
            }
            r
        },
        _ => incoming.clone(),
    }
}

/// The document with the value at the path `segs[from..]` replaced by
/// `value`, or merged with it where `merge` is set.
pub fn update_path(doc: &Json, segs: &Vec<String>, from: usize, value: &Json, merge: bool) -> (r:
    Json)
    ensures
        r@ == update_at(doc@, texts_of(segs@), from as int, value@, merge),
    decreases segs.len() - from,
{
    if from >= segs.len() {
        if merge {
            merge_values(doc, value)
        } else {
            value.clone()
        }
    } else {
        let key = segs[from].as_str();
        assert(texts_of(segs@)[from as int] == key@);
        let mut fields = fields_copy(doc);
        let child = match find_field(&fields, key) {
            Some(i) => update_path(&fields[i].1, segs, from + 1, value, merge),
            None => update_path(&Json::Null, segs, from + 1, value, merge),
        };
        put_field(&mut fields, key, child);
        let r = Json::Object(fields);
        proof {
            lemma_object_view(r);
        }
        r
    }
}

/// The document after one update.
pub fn apply_update(doc: &Json, op: &StateUpdateOp) -> (r: Json)
    ensures
        r@ == apply_op(doc@, op@),
{
    match op {
        StateUpdateOp::SetValue { path, value } => {
            let segs = split_str(path.as_str(), '.');
            update_path(doc, &segs, 0, value, false)
        },
        StateUpdateOp::Merge { path, value } => {
            let segs = split_str(path.as_str(), '.');
            update_path(doc, &segs, 0, value, true)
        },
    }
}

/// Applies the updates to the state document, in order. A state that is
/// null counts as an empty object.
pub fn apply_updates(state: &mut Json, updates: &Vec<StateUpdateOp>)
    ensures
        final(state)@ == apply_spec(old(state)@, views(updates@)),
{
    let mut doc = match state {
        Json::Null => {
            let r = Json::Object(Vec::new());
            proof {
                lemma_object_view(r);
                assert(fields_view(r->Object_0@) =~= Seq::empty());
            }
            r
        },
        _ => state.clone(),
    };
    let mut k: usize = 0;
    while k < updates.len()
        invariant
            k <= updates.len(),
            doc@ == apply_upto(coerce_state(old(state)@), views(updates@), k as int),
        decreases updates.len() - k,
    {
        doc = apply_update(&doc, &updates[k]);
        k += 1;
    }
    *state = doc;
}


/// The text, or `fallback` where there is none.
pub open spec fn or_text(s: Option<Seq<char>>, fallback: Seq<char>) -> Seq<char> {
    match s {
        Some(t) => t,
        None => fallback,
    }
}

/// The card instance that an invocation is about, where it carries an
/// interaction.
pub open spec fn card_instance_of(interaction: Option<CardInteraction>) -> Option<Seq<char>> {
    match interaction {
        Some(i) => Some(i.card_instance_id@),
        None => None,
    }
}

/// The key under which the state of a card is kept: the node, the card
/// instance and the session's `id`, joined by colons; `node`, `card` and
/// `session` stand for those that are missing.
pub open spec fn state_key_spec(
    node_id: Option<Seq<char>>,
    card_instance: Option<Seq<char>>,
    session: JsonView,
) -> Seq<char> {
    or_text(node_id, "node"@) + ":"@ + or_text(card_instance, "card"@) + ":"@ + or_text(
        string_member(session, "id"@),
        "session"@,
    )
}

/// The key under which the state of the invocation's card is kept.
pub open spec fn key_of(inv: AdaptiveCardInvocation) -> Seq<char> {
    state_key_spec(optional_text(inv.node_id), card_instance_of(inv.interaction), inv.session@)
}

/// The state that an invocation works on: its own, or the stored one
/// where its own is null.
pub open spec fn effective_state(state: JsonView, loaded: Option<JsonView>) -> JsonView {
    match state {
        JsonView::Null => match loaded {
            Some(s) => s,
            None => JsonView::Null,
        },
        _ => state,
    }
}

/// A state document to keep, and the key to keep it under.
#[derive(Clone, Debug, PartialEq, Eq)]
pub struct StateWrite {
    pub key: String,
    pub value: Json,
}

/// The key under which the state of the invocation's card is kept.
pub fn state_key(inv: &AdaptiveCardInvocation) -> (r: String)
    ensures
        r@ == key_of(*inv),
{
    let mut out = String::new();
    match &inv.node_id {
        Some(n) => out.append(n.as_str()),
        None => out.append("node"),
    }
    out.append(":");
    match &inv.interaction {
        Some(i) => out.append(i.card_instance_id.as_str()),
        None => out.append("card"),
    }
    out.append(":");
    match inv.session.get_str("id") {
        Some(id) => out.append(id),
        None => out.append("session"),
    }
    assert(out@ =~= key_of(*inv));
    out
}

/// Whether the state of the invocation has to come from the store.
pub fn needs_state(inv: &AdaptiveCardInvocation) -> (r: bool)
    ensures
        r == (inv.state@ is Null),
{
    match &inv.state {
        Json::Null => true,
        _ => false,
    }
}

/// The key of the state that the store is to be asked for before the
/// invocation is handled: the key of its card where it carries an
/// interaction and brings no state, else none.
pub fn state_request(inv: &AdaptiveCardInvocation) -> (r: Option<String>)
    ensures
        match r {
            Some(key) => inv.interaction is Some && inv.state@ is Null && key@ == key_of(*inv),
            None => inv.interaction is None || !(inv.state@ is Null),
        },
{
    if inv.interaction.is_some() && needs_state(inv) {
        Some(state_key(inv))
    } else {
        None
    }
}

/// The state that an invocation works on: its own, or `loaded` where its
/// own is null.
pub fn load_state_if_missing(state: &Json, loaded: Option<Json>) -> (r: Json)
    ensures
        r@ == effective_state(state@, crate::json::option_view(loaded)),
        well_formed(state@) && (loaded matches Some(s) ==> well_formed(s@)) ==> well_formed(r@),
{
    match state {
        Json::Null => match loaded {
            Some(s) => s,
            None => Json::Null,
        },
        _ => state.clone(),
    }
}

/// The state to keep after the updates of an interaction.
pub fn persist_state(inv: &AdaptiveCardInvocation, state: &Json, updates: &Vec<StateUpdateOp>) -> (r:
    StateWrite)
    ensures
        r.key@ == key_of(*inv),
        r.value@ == apply_spec(state@, views(updates@)),
        well_formed(state@) && updates_well_formed(views(updates@)) ==> well_formed(r.value@),
{
    proof {
        if well_formed(state@) && updates_well_formed(views(updates@)) {
            lemma_state_stays_well_formed(state@, views(updates@));
        }
    }
    let mut value = state.clone();
    apply_updates(&mut value, updates);
    StateWrite { key: state_key(inv), value }
}


/// Whether none of the first `k` fields is named `key`.
pub open spec fn no_key_upto(fields: Seq<(Seq<char>, JsonView)>, key: Seq<char>, k: int) -> bool {
    forall|j: int| 0 <= j < k && j < fields.len() ==> (#[trigger] fields[j]).0 != key
}

/// A document in which a value was set or merged at a path is an object
/// afterwards, whatever it was before.
pub proof fn lemma_update_gives_object(
    doc: JsonView,
    segs: Seq<Seq<char>>,
    value: JsonView,
    merge: bool,
)
    requires
        segs.len() >= 1,
    ensures
        update_at(doc, segs, 0, value, merge) is Object,
{
}

/// A value that was set at a path is found at that path.
pub proof fn lemma_set_then_walk(doc: JsonView, segs: Seq<Seq<char>>, from: int, value: JsonView)
    requires
        0 <= from <= segs.len(),
    ensures
        walk(update_at(doc, segs, from, value, false), segs, from) == Some(value),
    decreases segs.len() - from,
{
    if from < segs.len() {
        let fields = fields_of(doc);
        let key = segs[from];
        let child = update_at(child_of(fields, key), segs, from + 1, value, false);
        lemma_put_then_get(fields, key, child);
        lemma_set_then_walk(child_of(fields, key), segs, from + 1, value);
    }
}

/// Setting or merging a value at a path leaves every member of the
/// document as it was, but the one that the path starts with.
pub proof fn lemma_update_keeps_siblings(
    doc: JsonView,
    segs: Seq<Seq<char>>,
    value: JsonView,
    merge: bool,
    other: Seq<char>,
)
    requires
        segs.len() >= 1,
        other != segs[0],
        doc is Object,
    ensures
        member(update_at(doc, segs, 0, value, merge), other) == member(doc, other),
{
    let fields = fields_of(doc);
    let child = update_at(child_of(fields, segs[0]), segs, 1, value, merge);
    lemma_put_keeps_others(fields, segs[0], child, other);
}

/// Merging leaves the value of every key of the base as it was that the
/// incoming object does not name.
pub proof fn lemma_merge_keeps_absent_keys(
    base: Seq<(Seq<char>, JsonView)>,
    inc: Seq<(Seq<char>, JsonView)>,
    k: int,
    other: Seq<char>,
)
    requires
        0 <= k <= inc.len(),
        no_key_upto(inc, other, k),
    ensures
        object_get(merge_upto(base, inc, k), other) == object_get(base, other),
    decreases k,
{
    if k > 0 {
        lemma_merge_keeps_absent_keys(base, inc, k - 1, other);
        let prev = merge_upto(base, inc, k - 1);
        let key = inc[k - 1].0;
        assert(inc[k - 1].0 != other);
        lemma_put_keeps_others(prev, key, deep_merge(child_of(prev, key), inc[k - 1].1), other);
    }
}

/// A deep merge of two objects keeps every member of the base that the
/// incoming object does not name.
pub proof fn lemma_deep_merge_keeps_absent_keys(base: JsonView, incoming: JsonView, other: Seq<char>)
    requires
        base is Object,
        incoming is Object,
        member(incoming, other) is None,
    ensures
        member(deep_merge(base, incoming), other) == member(base, other),
{
    let inc = incoming->Object_0;
    crate::json::lemma_field_index_from(inc, other, 0);
    lemma_merge_keeps_absent_keys(base->Object_0, inc, inc.len() as int, other);
}


/// A document that is an object is an object after any updates.
pub proof fn lemma_updates_keep_object(doc: JsonView, ops: Seq<StateUpdateView>, k: int)
    requires
        doc is Object,
        0 <= k <= ops.len(),
    ensures
        apply_upto(doc, ops, k) is Object,
    decreases k,
{
    if k > 0 {
        lemma_updates_keep_object(doc, ops, k - 1);
        match ops[k - 1] {
            StateUpdateView::SetValue { path, .. } => {
                crate::context::lemma_split_nonempty(path, '.');
            },
            StateUpdateView::Merge { path, .. } => {
                crate::context::lemma_split_nonempty(path, '.');
            },
        }
    }
}

/// A state that starts as null or as an object is an object after any
/// updates.
pub proof fn lemma_state_stays_object(state: JsonView, ops: Seq<StateUpdateView>)
    requires
        state is Null || state is Object,
    ensures
        apply_spec(state, ops) is Object,
{
    lemma_updates_keep_object(coerce_state(state), ops, ops.len() as int);
}


/// Merging a well-formed value into a well-formed value gives a
/// well-formed value.
pub proof fn lemma_merge_is_well_formed(base: JsonView, incoming: JsonView)
    requires
        well_formed(base),
        well_formed(incoming),
    ensures
        well_formed(deep_merge(base, incoming)),
    decreases incoming, 0int,
{
    match (base, incoming) {
        (JsonView::Object(b), JsonView::Object(inc)) => {
            lemma_merge_upto_is_well_formed(b, inc, inc.len() as int);
        },
        _ => {},
    }
}

proof fn lemma_merge_upto_is_well_formed(
    base: Seq<(Seq<char>, JsonView)>,
    inc: Seq<(Seq<char>, JsonView)>,
    k: int,
)
    requires
        0 <= k <= inc.len(),
        distinct_keys(base),
        fields_well_formed(base, base.len() as int),
        fields_well_formed(inc, inc.len() as int),
    ensures
        distinct_keys(merge_upto(base, inc, k)),
        fields_well_formed(merge_upto(base, inc, k), merge_upto(base, inc, k).len() as int),
    decreases inc, k,
{
    if k > 0 {
        lemma_merge_upto_is_well_formed(base, inc, k - 1);
        let prev = merge_upto(base, inc, k - 1);
        let key = inc[k - 1].0;
        lemma_get_is_well_formed(prev, key);
        crate::json::lemma_fields_well_formed_at(inc, inc.len() as int, k - 1);
        lemma_merge_is_well_formed(child_of(prev, key), inc[k - 1].1);
        lemma_put_is_well_formed(prev, key, deep_merge(child_of(prev, key), inc[k - 1].1));
    }
}

/// Setting or merging a well-formed value at a path of a well-formed
/// document gives a well-formed document.
pub proof fn lemma_update_is_well_formed(
    doc: JsonView,
    segs: Seq<Seq<char>>,
    from: int,
    value: JsonView,
    merge: bool,
)
    requires
        0 <= from,
        well_formed(doc),
        well_formed(value),
    ensures
        well_formed(update_at(doc, segs, from, value, merge)),
    decreases segs.len() - from,
{
    if from >= segs.len() {
        if merge {
            lemma_merge_is_well_formed(doc, value);
        }
    } else {
        let fields = fields_of(doc);
        let key = segs[from];
        lemma_get_is_well_formed(fields, key);
        lemma_update_is_well_formed(child_of(fields, key), segs, from + 1, value, merge);
        lemma_put_is_well_formed(
            fields,
            key,
            update_at(child_of(fields, key), segs, from + 1, value, merge),
        );
    }
}

/// The value that an update carries.
pub open spec fn value_of(op: StateUpdateView) -> JsonView {
    match op {
        StateUpdateView::SetValue { value, .. } => value,
        StateUpdateView::Merge { value, .. } => value,
    }
}

/// Whether the value of every update is a JSON value.
pub open spec fn updates_well_formed(ops: Seq<StateUpdateView>) -> bool {
    forall|i: int| 0 <= i < ops.len() ==> well_formed(value_of(#[trigger] ops[i]))
}

/// A well-formed state is well formed after the first `k` updates, where
/// the values of those updates are well formed.
pub proof fn lemma_updates_keep_well_formed(doc: JsonView, ops: Seq<StateUpdateView>, k: int)
    requires
        0 <= k <= ops.len(),
        well_formed(doc),
        forall|i: int| 0 <= i < k ==> well_formed(value_of(#[trigger] ops[i])),
    ensures
        well_formed(apply_upto(doc, ops, k)),
    decreases k,
{
    if k > 0 {
        lemma_updates_keep_well_formed(doc, ops, k - 1);
        let prev = apply_upto(doc, ops, k - 1);
        match ops[k - 1] {
            StateUpdateView::SetValue { path, value } => {
                assert(value == value_of(ops[k - 1]));
                lemma_update_is_well_formed(prev, split_on(path, '.'), 0, value, false);
            },
            StateUpdateView::Merge { path, value } => {
                assert(value == value_of(ops[k - 1]));
                lemma_update_is_well_formed(prev, split_on(path, '.'), 0, value, true);
            },
        }
    }
}

/// Updates keep the state a JSON value in which every object is a map: a
/// well-formed state is well formed after updates whose values are well
/// formed.
pub proof fn lemma_state_stays_well_formed(state: JsonView, ops: Seq<StateUpdateView>)
    requires
        well_formed(state),
        updates_well_formed(ops),
    ensures
        well_formed(apply_spec(state, ops)),
{
    lemma_updates_keep_well_formed(coerce_state(state), ops, ops.len() as int);
}

} // verus!
