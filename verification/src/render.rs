use crate::asset_resolver::{AssetError, AssetResolver};
use crate::codec::{parse_json, parsed_json};
use crate::context::{context_well_formed, BindingContext, ContextView};
use crate::error::ComponentError;
use crate::expression::{eval_spec, evaluate, stringify_spec, stringify_value};
use crate::json::{
    fields_view, items_view, lemma_array_view, lemma_fields_well_formed_all,
    lemma_fields_well_formed_at, lemma_items_well_formed_all, lemma_items_well_formed_at,
    lemma_object_view, string_member, well_formed, Json, JsonView,
};
use crate::model::{
    invocation_well_formed, views, AdaptiveCardInvocation, AssetLookup, AssetLookupView, BindingRead, BindingReadView,
    CardSource, FeatureFlag, IssueView, PathStep, PathStepView, RenderedCard, ValidationIssue,
    ValidationMode,
};
use crate::text::{chars_of, index_of_from, is_sigil, lemma_index_of_from};
use vstd::prelude::*;

verus! {

/// Whether a braced binding opens at `i`: a sigil and `{`.
pub open spec fn opens_token(s: Seq<char>, i: int) -> bool {
    0 <= i && i + 1 < s.len() && is_sigil(s[i]) && s[i + 1] == '{'
}

/// The first index at or after `from` where a braced binding opens.
pub open spec fn opener_from(s: Seq<char>, from: int) -> Option<int>
    decreases s.len() - from,
{
    if from < 0 || from >= s.len() {
        None
    } else if opens_token(s, from) {
        Some(from)
    } else {
        opener_from(s, from + 1)
    }
}

/// Where a binding opens, it opens in the text at or after `from`, and
/// nowhere between.
pub proof fn lemma_opener_from(s: Seq<char>, from: int)
    requires
        0 <= from,
    ensures
        match opener_from(s, from) {
            Some(i) => from <= i && opens_token(s, i) && forall|j: int|
                from <= j < i ==> !opens_token(s, j),
            None => forall|j: int| from <= j ==> !opens_token(s, j),
        },
    decreases s.len() - from,
{
    if from < s.len() && !opens_token(s, from) {
        lemma_opener_from(s, from + 1);
    }
}

/// The characters of which a bare path is made.
pub open spec fn is_path_char(c: char) -> bool {
    ('a' <= c <= 'z') || ('A' <= c <= 'Z') || ('0' <= c <= '9') || c == '_' || c == '.' || c
        == '-'
}

/// Whether `s` from `from` on is made of path characters only.
pub open spec fn path_chars_from(s: Seq<char>, from: int) -> bool
    decreases s.len() - from,
{
    from < 0 || from >= s.len() || (is_path_char(s[from]) && path_chars_from(s, from + 1))
}

/// Whether the whole of `s` is one braced binding, `@{..}` or `${..}`.
pub open spec fn is_braced_token(s: Seq<char>) -> bool {
    opens_token(s, 0) && index_of_from(s, '}', 2) == s.len() - 1
}

/// Whether the whole of `s` is one bare binding: a sigil and a path.
pub open spec fn is_bare_token(s: Seq<char>) -> bool {
    s.len() >= 2 && is_sigil(s[0]) && path_chars_from(s, 1)
}

/// Whether the whole of `s` is one binding.
pub open spec fn is_single_token(s: Seq<char>) -> bool {
    is_braced_token(s) || is_bare_token(s)
}

/// A text after its bindings were replaced, and the bindings that were
/// evaluated on the way.
pub struct SpliceView {
    pub text: Seq<char>,
    pub reads: Seq<BindingReadView>,
}

/// A rendered node, and the bindings that were evaluated under it.
pub struct NodeView {
    pub card: JsonView,
    pub reads: Seq<BindingReadView>,
}

/// The record of one evaluated binding.
pub open spec fn read_of(loc: Seq<PathStepView>, expression: Seq<char>, resolved: bool) ->
    BindingReadView {
    BindingReadView { location: loc, expression, resolved }
}

/// `s` from `from` on, with every braced binding that has a value replaced
/// by the text of that value; a binding without a value stays as it is.
/// A `@{` or `${` that is never closed is plain text.
pub open spec fn splice(s: Seq<char>, from: int, ctx: ContextView, loc: Seq<PathStepView>) ->
    SpliceView
    decreases s.len() - from,
{
    match opener_from(s, from) {
        None => SpliceView { text: s.subrange(from, s.len() as int), reads: Seq::empty() },
        Some(i) => {
            let j = index_of_from(s, '}', i + 2);
            if from <= i && i + 2 <= j < s.len() {
                let token = s.subrange(i, j + 1);
                let rest = splice(s, j + 1, ctx, loc);
                match eval_spec(token, ctx) {
                    Some(v) => SpliceView {
                        text: s.subrange(from, i) + stringify_spec(v) + rest.text,
                        reads: seq![read_of(loc, token, true)] + rest.reads,
                    },
                    None => SpliceView {
                        text: s.subrange(from, i) + token + rest.text,
                        reads: seq![read_of(loc, token, false)] + rest.reads,
                    },
                }
            } else {
                SpliceView { text: s.subrange(from, s.len() as int), reads: Seq::empty() }
            }
        },
    }
}

/// A string leaf after rendering. Where the whole string is one binding,
/// the leaf becomes the value of the binding, of whatever type; else every
/// braced binding in it is replaced by the text of its value. A binding
/// without a value leaves the text as it was.
pub open spec fn render_text(s: Seq<char>, ctx: ContextView, loc: Seq<PathStepView>) -> NodeView {
    if is_single_token(s) {
        match eval_spec(s, ctx) {
            Some(v) => NodeView { card: v, reads: seq![read_of(loc, s, true)] },
            None => NodeView { card: JsonView::String(s), reads: seq![read_of(loc, s, false)] },
        }
    } else {
        let sp = splice(s, 0, ctx, loc);
        NodeView { card: JsonView::String(sp.text), reads: sp.reads }
    }
}

/// A node of the card after rendering: a string leaf by `render_text`,
/// an array item by item, an object value by value under the same keys in
/// the same order, anything else unchanged. The bindings come in the order
/// of the walk.
pub open spec fn walk_spec(t: JsonView, ctx: ContextView, loc: Seq<PathStepView>) -> NodeView
    decreases t, 0int,
{
    match t {
        JsonView::String(s) => render_text(s, ctx, loc),
        JsonView::Array(items) => {
            let w = walk_items(items, ctx, loc, items.len() as int);
            NodeView { card: JsonView::Array(w.0), reads: w.1 }
        },
        JsonView::Object(fields) => {
            let w = walk_fields(fields, ctx, loc, fields.len() as int);
            NodeView { card: JsonView::Object(w.0), reads: w.1 }
        },
        _ => NodeView { card: t, reads: Seq::empty() },
    }
}

/// The first `k` items of an array after rendering.
pub open spec fn walk_items(
    items: Seq<JsonView>,
    ctx: ContextView,
    loc: Seq<PathStepView>,
    k: int,
) -> (Seq<JsonView>, Seq<BindingReadView>)
    decreases items, k,
{
    if k <= 0 || k > items.len() {
        (Seq::empty(), Seq::empty())
    } else {
        let prev = walk_items(items, ctx, loc, k - 1);
        let node = walk_spec(items[k - 1], ctx, loc.push(PathStepView::Index(k - 1)));
        (prev.0.push(node.card), prev.1 + node.reads)
    }
}

/// The first `k` fields of an object after rendering.
pub open spec fn walk_fields(
    fields: Seq<(Seq<char>, JsonView)>,
    ctx: ContextView,
    loc: Seq<PathStepView>,
    k: int,
) -> (Seq<(Seq<char>, JsonView)>, Seq<BindingReadView>)
    decreases fields, k,
{
    if k <= 0 || k > fields.len() {
        (Seq::empty(), Seq::empty())
    } else {
        let prev = walk_fields(fields, ctx, loc, k - 1);
        let node = walk_spec(
            fields[k - 1].1,
            ctx,
            loc.push(PathStepView::Key(fields[k - 1].0)),
        );
        (prev.0.push((fields[k - 1].0, node.card)), prev.1 + node.reads)
    }
}

/// The issues among the first `k` bindings: those without a value.
pub open spec fn issues_upto(reads: Seq<BindingReadView>, k: int) -> Seq<IssueView>
    decreases k,
{
    if k <= 0 || k > reads.len() {
        Seq::empty()
    } else if reads[k - 1].resolved {
        issues_upto(reads, k - 1)
    } else {
        issues_upto(reads, k - 1).push(
            IssueView { location: reads[k - 1].location, expression: reads[k - 1].expression },
        )
    }
}

/// The issues of a rendering: one for each binding without a value, in
/// the order of the walk.
pub open spec fn issues_spec(reads: Seq<BindingReadView>) -> Seq<IssueView> {
    issues_upto(reads, reads.len() as int)
}

/// The first index at or after `from` that holds `c`, or the length.
pub fn find_char(chars: &Vec<char>, c: char, from: usize) -> (r: usize)
    requires
        from <= chars@.len(),
    ensures
        r == index_of_from(chars@, c, from as int),
        from <= r <= chars@.len(),
{
    let mut i: usize = from;
    while i < chars.len()
        invariant
            from <= i <= chars@.len(),
            index_of_from(chars@, c, from as int) == index_of_from(chars@, c, i as int),
        decreases chars.len() - i,
    {
        if chars[i] == c {
            return i;
        }
        i += 1;
    }
    i
}

/// The first index at or after `from` where a braced binding opens.
pub fn find_opener(chars: &Vec<char>, from: usize) -> (r: Option<usize>)
    ensures
        match r {
            Some(i) => opener_from(chars@, from as int) == Some(i as int) && from <= i && i + 1
                < chars@.len(),
            None => opener_from(chars@, from as int) is None,
        },
{
    let mut i: usize = from;
    while i < chars.len()
        invariant
            from <= i,
            opener_from(chars@, from as int) == opener_from(chars@, i as int),
        decreases chars.len() - i,
    {
        if i + 1 < chars.len() && (chars[i] == '@' || chars[i] == '$') && chars[i + 1] == '{' {
            return Some(i);
        }
        i += 1;
    }
    None
}

fn is_path_character(c: char) -> (r: bool)
    ensures
        r == is_path_char(c),
{
    ('a' <= c && c <= 'z') || ('A' <= c && c <= 'Z') || ('0' <= c && c <= '9') || c == '_' || c
        == '.' || c == '-'
}

/// Whether the whole text is one binding.
pub fn is_binding(chars: &Vec<char>) -> (r: bool)
    ensures
        r == is_single_token(chars@),
{
    let n = chars.len();
    if n < 2 || !(chars[0] == '@' || chars[0] == '$') {
        return false;
    }
    if chars[1] == '{' {
        proof {
            assert(!is_path_char('{'));
            assert(!path_chars_from(chars@, 1));
        }
        return find_char(chars, '}', 2) == n - 1;
    }
    let mut i: usize = 1;
    while i < n
        invariant
            1 <= i <= n,
            n == chars@.len(),
            n >= 2,
            is_sigil(chars@[0]),
            chars@[1] != '{',
            path_chars_from(chars@, 1) == path_chars_from(chars@, i as int),
        decreases n - i,
    {
        if !is_path_character(chars[i]) {
            return false;
        }
        i += 1;
    }
    true
}

/// A copy of a location.
pub fn copy_location(loc: &Vec<PathStep>) -> (r: Vec<PathStep>)
    ensures
        views(r@) == views(loc@),
{
    let mut out: Vec<PathStep> = Vec::new();
    let mut i: usize = 0;
    while i < loc.len()
        invariant
            i <= loc.len(),
            out@.len() == i,
            forall|j: int| 0 <= j < i ==> out@[j]@ == loc@[j]@,
        decreases loc.len() - i,
    {
        let step = match &loc[i] {
            PathStep::Key(k) => PathStep::Key(k.clone()),
            PathStep::Index(n) => PathStep::Index(*n),
        };
        out.push(step);
        i += 1;
    }
    assert(views(out@) =~= views(loc@));
    out
}

fn one_read(loc: &Vec<PathStep>, expression: &str, resolved: bool) -> (r: BindingRead)
    ensures
        r@ == read_of(views(loc@), expression@, resolved),
{
    BindingRead { location: copy_location(loc), expression: expression.to_owned(), resolved }
}

/// A string with its braced bindings replaced, and the bindings that were
/// evaluated.
pub fn splice_text(s: &str, chars: &Vec<char>, ctx: &BindingContext, loc: &Vec<PathStep>) -> (r: (
    String,
    Vec<BindingRead>,
))
    requires
        chars@ == s@,
    ensures
        r.0@ == splice(s@, 0, ctx@, views(loc@)).text,
        views(r.1@) == splice(s@, 0, ctx@, views(loc@)).reads,
{
    let n = chars.len();
    let mut out = String::new();
    let mut reads: Vec<BindingRead> = Vec::new();
    let mut pos: usize = 0;
    let ghost whole = splice(s@, 0, ctx@, views(loc@));
    assert(views(reads@) =~= Seq::<BindingReadView>::empty());
    loop
        invariant
            pos <= n,
            n == s@.len(),
            chars@ == s@,
            whole == splice(s@, 0, ctx@, views(loc@)),
            whole.text == out@ + splice(s@, pos as int, ctx@, views(loc@)).text,
            whole.reads == views(reads@) + splice(s@, pos as int, ctx@, views(loc@)).reads,
        decreases n - pos,
    {
        let ghost here = splice(s@, pos as int, ctx@, views(loc@));
        let found = find_opener(chars, pos);
        let i = match found {
            Some(i) => i,
            None => {
                out.append(s.substring_char(pos, n));
                proof {
                    assert(whole.reads =~= views(reads@));
                }
                return (out, reads);
            },
        };
        let j = find_char(chars, '}', i + 2);
        if j >= n {
            out.append(s.substring_char(pos, n));
            proof {
                assert(whole.reads =~= views(reads@));
            }
            return (out, reads);
        }
        let token = s.substring_char(i, j + 1);
        let ghost rest = splice(s@, j + 1, ctx@, views(loc@));
        let ghost before_text = out@;
        let ghost before_reads = views(reads@);
        out.append(s.substring_char(pos, i));
        match evaluate(token, ctx) {
            Some(v) => {
                let text = stringify_value(&v);
                out.append(text.as_str());
                reads.push(one_read(loc, token, true));
                proof {
                    assert(here.text == s@.subrange(pos as int, i as int) + stringify_spec(v@)
                        + rest.text);
                    assert(out@ + rest.text =~= before_text + here.text);
                    assert(views(reads@) =~= before_reads + seq![
                        read_of(views(loc@), token@, true),
                    ]);
                    assert(views(reads@) + rest.reads =~= before_reads + here.reads);
                }
            },
            None => {
                out.append(token);
                reads.push(one_read(loc, token, false));
                proof {
                    assert(here.text == s@.subrange(pos as int, i as int) + token@ + rest.text);
                    assert(out@ + rest.text =~= before_text + here.text);
                    assert(views(reads@) =~= before_reads + seq![
                        read_of(views(loc@), token@, false),
                    ]);
                    assert(views(reads@) + rest.reads =~= before_reads + here.reads);
                }
            },
        }
        pos = j + 1;
    }
}

/// A string leaf after rendering, and the bindings that were evaluated.
pub fn render_leaf(s: &str, ctx: &BindingContext, loc: &Vec<PathStep>) -> (r: (
    Json,
    Vec<BindingRead>,
))
    ensures
        r.0@ == render_text(s@, ctx@, views(loc@)).card,
        views(r.1@) == render_text(s@, ctx@, views(loc@)).reads,
        context_well_formed(ctx@) ==> well_formed(r.0@),
{
    let chars = chars_of(s);
    let mut reads: Vec<BindingRead> = Vec::new();
    if is_binding(&chars) {
        match evaluate(s, ctx) {
            Some(v) => {
                reads.push(one_read(loc, s, true));
                assert(views(reads@) =~= seq![read_of(views(loc@), s@, true)]);
                (v, reads)
            },
            None => {
                reads.push(one_read(loc, s, false));
                assert(views(reads@) =~= seq![read_of(views(loc@), s@, false)]);
                (Json::String(s.to_owned()), reads)
            },
        }
    } else {
        let (text, found) = splice_text(s, &chars, ctx, loc);
        (Json::String(text), found)
    }
}

/// A node of the card after rendering, and the bindings that were
/// evaluated under it, in the order of the walk.
pub fn render_node(t: &Json, ctx: &BindingContext, loc: &Vec<PathStep>) -> (r: (
    Json,
    Vec<BindingRead>,
))
    ensures
        r.0@ == walk_spec(t@, ctx@, views(loc@)).card,
        views(r.1@) == walk_spec(t@, ctx@, views(loc@)).reads,
        context_well_formed(ctx@) && well_formed(t@) ==> well_formed(r.0@),
    decreases t,
{
    let ghost sound = context_well_formed(ctx@) && well_formed(t@);
    match t {
        Json::String(s) => render_leaf(s.as_str(), ctx, loc),
        Json::Array(items) => {
            proof {
                lemma_array_view(*t);
            }
            let mut out: Vec<Json> = Vec::new();
            let mut reads: Vec<BindingRead> = Vec::new();
            let mut i: usize = 0;
            assert(items_view(out@) =~= Seq::<JsonView>::empty());
            assert(views(reads@) =~= Seq::<BindingReadView>::empty());
            while i < items.len()
                invariant
                    i <= items.len(),
                    *t == Json::Array(*items),
                    items_view(out@) == walk_items(
                        items_view(items@),
                        ctx@,
                        views(loc@),
                        i as int,
                    ).0,
                    views(reads@) == walk_items(
                        items_view(items@),
                        ctx@,
                        views(loc@),
                        i as int,
                    ).1,
                    out@.len() == i,
                    sound == (context_well_formed(ctx@) && well_formed(t@)),
                    t@ == JsonView::Array(items_view(items@)),
                    sound ==> forall|j: int| 0 <= j < i ==> well_formed(#[trigger] out@[j]@),
                decreases items.len() - i,
            {
                proof {
                    assert(decreases_to!(*t => t->Array_0));
                    assert(decreases_to!(*items => items@));
                    assert(decreases_to!(items@ => items@[i as int]));
                    if sound {
                        lemma_items_well_formed_at(
                            items_view(items@),
                            items@.len() as int,
                            i as int,
                        );
                    }
                }
                let mut child_loc = copy_location(loc);
                child_loc.push(PathStep::Index(i));
                assert(views(child_loc@) =~= views(loc@).push(PathStepView::Index(i as int)));
                let (card, mut found) = render_node(&items[i], ctx, &child_loc);
                let ghost before_out = out@;
                let ghost before_reads = views(reads@);
                let ghost found_view = views(found@);
                out.push(card);
                reads.append(&mut found);
                proof {
                    assert(items_view(items@)[i as int] == items@[i as int]@);
                    assert(items_view(out@) =~= items_view(before_out).push(card@));
                    assert(views(reads@) =~= before_reads + found_view);
                }
                i += 1;
            }
            let r = Json::Array(out);
            proof {
                lemma_array_view(r);
                if sound {
                    assert forall|j: int| 0 <= j < out@.len() implies well_formed(
                        #[trigger] items_view(out@)[j],
                    ) by {
                        assert(well_formed(out@[j]@));
                    }
                    lemma_items_well_formed_all(items_view(out@), out@.len() as int);
                }
            }
            (r, reads)
        },
        Json::Object(fields) => {
            proof {
                lemma_object_view(*t);
            }
            let mut out: Vec<(String, Json)> = Vec::new();
            let mut reads: Vec<BindingRead> = Vec::new();
            let mut i: usize = 0;
            assert(fields_view(out@) =~= Seq::<(Seq<char>, JsonView)>::empty());
            assert(views(reads@) =~= Seq::<BindingReadView>::empty());
            while i < fields.len()
                invariant
                    i <= fields.len(),
                    *t == Json::Object(*fields),
                    fields_view(out@) == walk_fields(
                        fields_view(fields@),
                        ctx@,
                        views(loc@),
                        i as int,
                    ).0,
                    views(reads@) == walk_fields(
                        fields_view(fields@),
                        ctx@,
                        views(loc@),
                        i as int,
                    ).1,
                    out@.len() == i,
                    sound == (context_well_formed(ctx@) && well_formed(t@)),
                    t@ == JsonView::Object(fields_view(fields@)),
                    forall|j: int| 0 <= j < i ==> (#[trigger] out@[j]).0@ == fields@[j].0@,
                    sound ==> forall|j: int| 0 <= j < i ==> well_formed((#[trigger] out@[j]).1@),
                decreases fields.len() - i,
            {
                proof {
                    assert(decreases_to!(*t => t->Object_0));
                    assert(decreases_to!(*fields => fields@));
                    assert(decreases_to!(fields@ => fields@[i as int]));
                    assert(decreases_to!(fields@[i as int] => fields@[i as int].1));
                    if sound {
                        lemma_fields_well_formed_at(
                            fields_view(fields@),
                            fields@.len() as int,
                            i as int,
                        );
                    }
                }
                let key = fields[i].0.clone();
                let mut child_loc = copy_location(loc);
                child_loc.push(PathStep::Key(key.clone()));
                assert(views(child_loc@) =~= views(loc@).push(PathStepView::Key(key@)));
                let (card, mut found) = render_node(&fields[i].1, ctx, &child_loc);
                let ghost before_out = out@;
                let ghost before_reads = views(reads@);
                let ghost found_view = views(found@);
                out.push((key, card));
                reads.append(&mut found);
                proof {
                    assert(fields_view(fields@)[i as int] == (key@, fields@[i as int].1@));
                    assert(fields_view(out@) =~= fields_view(before_out).push((key@, card@)));
                    assert(views(reads@) =~= before_reads + found_view);
                }
                i += 1;
            }
            let r = Json::Object(out);
            proof {
                lemma_object_view(r);
                if sound {
                    let after = fields_view(out@);
                    let before = fields_view(fields@);
                    assert forall|j: int| 0 <= j < after.len() implies well_formed(
                        #[trigger] after[j].1,
                    ) by {
                        assert(well_formed(out@[j].1@));
                    }
                    lemma_fields_well_formed_all(after, after.len() as int);
                    assert forall|a: int, b: int| 0 <= a < b < after.len() implies after[a].0
                        != after[b].0 by {
                        assert(out@[a].0@ == fields@[a].0@);
                        assert(out@[b].0@ == fields@[b].0@);
                        assert(before[a].0 != before[b].0);
                    }
                }
            }
            (r, reads)
        },
        _ => {
            let reads: Vec<BindingRead> = Vec::new();
            assert(views(reads@) =~= Seq::<BindingReadView>::empty());
            (t.clone(), reads)
        },
    }
}

/// The issues of a rendering: one for each binding without a value.
pub fn issues_of(reads: &Vec<BindingRead>) -> (r: Vec<ValidationIssue>)
    ensures
        views(r@) == issues_spec(views(reads@)),
{
    let mut out: Vec<ValidationIssue> = Vec::new();
    let mut k: usize = 0;
    assert(views(out@) =~= Seq::<IssueView>::empty());
    while k < reads.len()
        invariant
            k <= reads.len(),
            views(out@) == issues_upto(views(reads@), k as int),
        decreases reads.len() - k,
    {
        let ghost before = views(out@);
        assert(views(reads@)[k as int] == reads@[k as int]@);
        if !reads[k].resolved {
            let issue = ValidationIssue {
                location: copy_location(&reads[k].location),
                expression: reads[k].expression.clone(),
            };
            out.push(issue);
            assert(views(out@) =~= before.push(issue@));
        }
        k += 1;
    }
    out
}


/// The `type` under which a card names the action that needs a feature.
pub open spec fn feature_type(f: FeatureFlag) -> Seq<char> {
    match f {
        FeatureFlag::Submit => "Action.Submit"@,
        FeatureFlag::Execute => "Action.Execute"@,
        FeatureFlag::OpenUrl => "Action.OpenUrl"@,
        FeatureFlag::ShowCard => "Action.ShowCard"@,
        FeatureFlag::ToggleVisibility => "Action.ToggleVisibility"@,
    }
}

/// Whether the card holds, at any depth, an object whose `type` is the
/// action of `f`.
pub open spec fn uses_feature(t: JsonView, f: FeatureFlag) -> bool
    decreases t, 0int,
{
    match t {
        JsonView::Object(fields) => string_member(t, "type"@) == Some(feature_type(f))
            || any_field_uses(fields, f, fields.len() as int),
        JsonView::Array(items) => any_item_uses(items, f, items.len() as int),
        _ => false,
    }
}

/// Whether one of the first `k` items uses the feature.
pub open spec fn any_item_uses(items: Seq<JsonView>, f: FeatureFlag, k: int) -> bool
    decreases items, k,
{
    0 < k <= items.len() && (any_item_uses(items, f, k - 1) || uses_feature(items[k - 1], f))
}

/// Whether the value of one of the first `k` fields uses the feature.
pub open spec fn any_field_uses(fields: Seq<(Seq<char>, JsonView)>, f: FeatureFlag, k: int) -> bool
    decreases fields, k,
{
    0 < k <= fields.len() && (any_field_uses(fields, f, k - 1) || uses_feature(
        fields[k - 1].1,
        f,
    ))
}

/// The feature, where the card uses it.
pub open spec fn flag_if(t: JsonView, f: FeatureFlag) -> Seq<FeatureFlag> {
    if uses_feature(t, f) {
        seq![f]
    } else {
        Seq::empty()
    }
}

/// The features that a card uses, each once, in a fixed order.
pub open spec fn features_spec(t: JsonView) -> Seq<FeatureFlag> {
    flag_if(t, FeatureFlag::Submit) + flag_if(t, FeatureFlag::Execute) + flag_if(
        t,
        FeatureFlag::OpenUrl,
    ) + flag_if(t, FeatureFlag::ShowCard) + flag_if(t, FeatureFlag::ToggleVisibility)
}

fn feature_type_name(f: FeatureFlag) -> (r: &'static str)
    ensures
        r@ == feature_type(f),
{
    match f {
        FeatureFlag::Submit => "Action.Submit",
        FeatureFlag::Execute => "Action.Execute",
        FeatureFlag::OpenUrl => "Action.OpenUrl",
        FeatureFlag::ShowCard => "Action.ShowCard",
        FeatureFlag::ToggleVisibility => "Action.ToggleVisibility",
    }
}

/// Whether the card uses the feature.
pub fn uses(t: &Json, f: FeatureFlag) -> (r: bool)
    ensures
        r == uses_feature(t@, f),
    decreases t,
{
    match t {
        Json::Object(fields) => {
            proof {
                lemma_object_view(*t);
            }
            if let Some(name) = t.get_str("type") {
                if crate::text::same_text(name, feature_type_name(f)) {
                    return true;
                }
            }
            let mut i: usize = 0;
            while i < fields.len()
                invariant
                    i <= fields.len(),
                    *t == Json::Object(*fields),
                    t@ == JsonView::Object(fields_view(fields@)),
                    string_member(t@, "type"@) != Some(feature_type(f)),
                    !any_field_uses(fields_view(fields@), f, i as int),
                decreases fields.len() - i,
            {
                proof {
                    assert(decreases_to!(*t => t->Object_0));
                    assert(decreases_to!(*fields => fields@));
                    assert(decreases_to!(fields@ => fields@[i as int]));
                    assert(decreases_to!(fields@[i as int] => fields@[i as int].1));
                    assert(fields_view(fields@)[i as int].1 == fields@[i as int].1@);
                }
                if uses(&fields[i].1, f) {
                    proof {
                        lemma_any_field_uses(fields_view(fields@), f, i as int);
                    }
                    return true;
                }
                i += 1;
            }
            false
        },
        Json::Array(items) => {
            proof {
                lemma_array_view(*t);
            }
            let mut i: usize = 0;
            while i < items.len()
                invariant
                    i <= items.len(),
                    *t == Json::Array(*items),
                    t@ == JsonView::Array(items_view(items@)),
                    !any_item_uses(items_view(items@), f, i as int),
                decreases items.len() - i,
            {
                proof {
                    assert(decreases_to!(*t => t->Array_0));
                    assert(decreases_to!(*items => items@));
                    assert(decreases_to!(items@ => items@[i as int]));
                    assert(items_view(items@)[i as int] == items@[i as int]@);
                }
                if uses(&items[i], f) {
                    proof {
                        lemma_any_item_uses(items_view(items@), f, i as int);
                    }
                    return true;
                }
                i += 1;
            }
            false
        },
        _ => false,
    }
}

/// An item that uses the feature makes every longer prefix use it.
pub proof fn lemma_any_item_uses(items: Seq<JsonView>, f: FeatureFlag, i: int)
    requires
        0 <= i < items.len(),
        uses_feature(items[i], f),
    ensures
        any_item_uses(items, f, items.len() as int),
{
    lemma_any_item_uses_upto(items, f, i, items.len() as int);
}

proof fn lemma_any_item_uses_upto(items: Seq<JsonView>, f: FeatureFlag, i: int, k: int)
    requires
        0 <= i < k <= items.len(),
        uses_feature(items[i], f),
    ensures
        any_item_uses(items, f, k),
    decreases k,
{
    if k - 1 > i {
        lemma_any_item_uses_upto(items, f, i, k - 1);
    }
}

/// A field whose value uses the feature makes every longer prefix use it.
pub proof fn lemma_any_field_uses(fields: Seq<(Seq<char>, JsonView)>, f: FeatureFlag, i: int)
    requires
        0 <= i < fields.len(),
        uses_feature(fields[i].1, f),
    ensures
        any_field_uses(fields, f, fields.len() as int),
{
    lemma_any_field_uses_upto(fields, f, i, fields.len() as int);
}

proof fn lemma_any_field_uses_upto(
    fields: Seq<(Seq<char>, JsonView)>,
    f: FeatureFlag,
    i: int,
    k: int,
)
    requires
        0 <= i < k <= fields.len(),
        uses_feature(fields[i].1, f),
    ensures
        any_field_uses(fields, f, k),
    decreases k,
{
    if k - 1 > i {
        lemma_any_field_uses_upto(fields, f, i, k - 1);
    }
}

/// The features that a card uses.
pub fn features_of(t: &Json) -> (r: Vec<FeatureFlag>)
    ensures
        r@ == features_spec(t@),
{
    let mut out: Vec<FeatureFlag> = Vec::new();
    if uses(t, FeatureFlag::Submit) {
        out.push(FeatureFlag::Submit);
    }
    if uses(t, FeatureFlag::Execute) {
        out.push(FeatureFlag::Execute);
    }
    if uses(t, FeatureFlag::OpenUrl) {
        out.push(FeatureFlag::OpenUrl);
    }
    if uses(t, FeatureFlag::ShowCard) {
        out.push(FeatureFlag::ShowCard);
    }
    if uses(t, FeatureFlag::ToggleVisibility) {
        out.push(FeatureFlag::ToggleVisibility);
    }
    assert(out@ =~= features_spec(t@));
    out
}

/// The scopes that the bindings of an invocation read, with `state` for
/// its state.
pub open spec fn scopes_of(inv: AdaptiveCardInvocation, state: JsonView) -> ContextView {
    ContextView {
        payload: inv.payload@,
        session: inv.session@,
        state,
        params: inv.card_spec.template_params@,
    }
}

/// Whether `rc` is what rendering `template` gives.
pub open spec fn rendered_as(
    rc: RenderedCard,
    template: JsonView,
    ctx: ContextView,
    assets: Seq<AssetLookupView>,
) -> bool {
    let w = walk_spec(template, ctx, Seq::empty());
    &&& rc.card@ == w.card
    &&& views(rc.binding_summary@) == w.reads
    &&& views(rc.validation_issues@) == issues_spec(w.reads)
    &&& rc.features@ == features_spec(template)
    &&& views(rc.asset_resolution@) == assets
}

/// Whether `r` is how rendering `template` ends: with the issues as an
/// error where there are some and the mode makes them fatal, else with
/// the rendered card.
pub open spec fn render_outcome(
    r: Result<RenderedCard, ComponentError>,
    template: JsonView,
    ctx: ContextView,
    assets: Seq<AssetLookupView>,
    mode: ValidationMode,
) -> bool {
    let issues = issues_spec(walk_spec(template, ctx, Seq::empty()).reads);
    if mode == ValidationMode::Error && issues.len() > 0 {
        r matches Err(ComponentError::CardValidation(found)) && views(found@) == issues
    } else {
        r matches Ok(rc) && rendered_as(rc, template, ctx, assets)
    }
}

/// Whether `r` is how rendering a card ends that comes from the asset
/// `name`, given what the resolver answered.
pub open spec fn asset_outcome(
    r: Result<RenderedCard, ComponentError>,
    name: Seq<char>,
    answer: Result<Option<String>, AssetError>,
    ctx: ContextView,
    mode: ValidationMode,
) -> bool {
    match answer {
        Err(e) => r matches Err(ComponentError::Asset(m)) && m@ == e.message@,
        Ok(None) => r matches Err(ComponentError::AssetNotFound(n)) && n@ == name,
        Ok(Some(text)) => match parsed_json(text@) {
            None => r matches Err(ComponentError::AssetParse(n)) && n@ == name,
            Some(template) => render_outcome(
                r,
                template,
                ctx,
                seq![AssetLookupView { name, found: true }],
                mode,
            ),
        },
    }
}

/// Renders a card that is at hand.
pub fn render_resolved(
    template: &Json,
    asset_resolution: Vec<AssetLookup>,
    ctx: &BindingContext,
    mode: ValidationMode,
) -> (r: Result<RenderedCard, ComponentError>)
    ensures
        render_outcome(r, template@, ctx@, views(asset_resolution@), mode),
        context_well_formed(ctx@) && well_formed(template@) ==> (r matches Ok(rc)
            ==> well_formed(rc.card@)),
{
    let root: Vec<PathStep> = Vec::new();
    assert(views(root@) =~= Seq::<PathStepView>::empty());
    let (card, reads) = render_node(template, ctx, &root);
    let issues = issues_of(&reads);
    proof {
        assert(views(issues@).len() == issues@.len());
    }
    let fatal = match mode {
        ValidationMode::Error => issues.len() > 0,
        _ => false,
    };
    if fatal {
        return Err(ComponentError::CardValidation(issues));
    }
    Ok(
        RenderedCard {
            card,
            features: features_of(template),
            validation_issues: issues,
            asset_resolution,
            binding_summary: reads,
        },
    )
}

/// Renders a card that comes from the asset `name`, given what the
/// resolver answered.
pub fn render_asset(
    name: &str,
    answer: Result<Option<String>, AssetError>,
    ctx: &BindingContext,
    mode: ValidationMode,
) -> (r: Result<RenderedCard, ComponentError>)
    ensures
        asset_outcome(r, name@, answer, ctx@, mode),
        context_well_formed(ctx@) ==> (r matches Ok(rc) ==> well_formed(rc.card@)),
{
    match answer {
        Err(e) => Err(ComponentError::Asset(e.message)),
        Ok(None) => Err(ComponentError::AssetNotFound(name.to_owned())),
        Ok(Some(text)) => match parse_json(text.as_str()) {
            None => Err(ComponentError::AssetParse(name.to_owned())),
            Some(template) => {
                let mut trace: Vec<AssetLookup> = Vec::new();
                trace.push(AssetLookup { name: name.to_owned(), found: true });
                assert(views(trace@) =~= seq![AssetLookupView { name: name@, found: true }]);
                render_resolved(&template, trace, ctx, mode)
            },
        },
    }
}

/// Whether `r` is how rendering the card of `inv` ends, with `state` for
/// its state and `resolver` for its assets: for a card that is inline the
/// one outcome, for a card from an asset the outcome for an answer that
/// the resolver can give for the name of the asset.
pub open spec fn card_outcome<R: AssetResolver>(
    r: Result<RenderedCard, ComponentError>,
    inv: AdaptiveCardInvocation,
    state: JsonView,
    resolver: &R,
) -> bool {
    match inv.card_spec.source {
        CardSource::Inline(card) => render_outcome(
            r,
            card@,
            scopes_of(inv, state),
            Seq::empty(),
            inv.validation_mode,
        ),
        CardSource::Asset(name) => exists|asked: &str, answer: Result<Option<String>, AssetError>|
            asked@ == name@ && call_ensures(R::resolve, (resolver, asked), answer)
                && asset_outcome(r, name@, answer, scopes_of(inv, state), inv.validation_mode),
    }
}

/// Renders the card of `inv` with `state` for its state.
pub fn render_with_state<R: AssetResolver>(
    inv: &AdaptiveCardInvocation,
    state: &Json,
    resolver: &R,
) -> (r: Result<RenderedCard, ComponentError>)
    ensures
        card_outcome(r, *inv, state@, resolver),
        invocation_well_formed(*inv) && well_formed(state@) ==> (r matches Ok(rc) ==> well_formed(
            rc.card@,
        )),
{
    let ctx = BindingContext {
        payload: &inv.payload,
        session: &inv.session,
        state,
        params: &inv.card_spec.template_params,
    };
    match &inv.card_spec.source {
        CardSource::Inline(card) => {
            let trace: Vec<AssetLookup> = Vec::new();
            assert(views(trace@) =~= Seq::<AssetLookupView>::empty());
            render_resolved(card, trace, &ctx, inv.validation_mode)
        },
        CardSource::Asset(name) => {
            let asked = name.as_str();
            let answer = resolver.resolve(asked);
            let ghost seen = answer;
            let r = render_asset(asked, answer, &ctx, inv.validation_mode);
            assert(asked@ == name@ && call_ensures(R::resolve, (resolver, asked), seen)
                && asset_outcome(r, name@, seen, scopes_of(*inv, state@), inv.validation_mode));
            r
        },
    }
}

/// Renders the card of an invocation: resolves the card, replaces the
/// bindings of its string leaves, and collects issues, features and
/// traces.
pub fn render_card<R: AssetResolver>(inv: &AdaptiveCardInvocation, resolver: &R) -> (r: Result<
    RenderedCard,
    ComponentError,
>)
    ensures
        card_outcome(r, *inv, inv.state@, resolver),
        invocation_well_formed(*inv) ==> (r matches Ok(rc) ==> well_formed(rc.card@)),
{
    render_with_state(inv, &inv.state, resolver)
}

/// Whether a text holds no binding: it is not one as a whole, and no
/// braced binding opens in it.
pub open spec fn is_plain_text(s: Seq<char>) -> bool {
    !is_single_token(s) && opener_from(s, 0) is None
}

/// Whether no string leaf of the card holds a binding.
pub open spec fn is_plain(t: JsonView) -> bool
    decreases t, 0int,
{
    match t {
        JsonView::String(s) => is_plain_text(s),
        JsonView::Array(items) => items_plain(items, items.len() as int),
        JsonView::Object(fields) => fields_plain(fields, fields.len() as int),
        _ => true,
    }
}

/// Whether none of the first `k` items holds a binding.
pub open spec fn items_plain(items: Seq<JsonView>, k: int) -> bool
    decreases items, k,
{
    k <= 0 || k > items.len() || (items_plain(items, k - 1) && is_plain(items[k - 1]))
}

/// Whether the value of none of the first `k` fields holds a binding.
pub open spec fn fields_plain(fields: Seq<(Seq<char>, JsonView)>, k: int) -> bool
    decreases fields, k,
{
    k <= 0 || k > fields.len() || (fields_plain(fields, k - 1) && is_plain(fields[k - 1].1))
}

/// A card without bindings renders to itself, and nothing is read.
pub proof fn lemma_plain_is_unchanged(t: JsonView, ctx: ContextView, loc: Seq<PathStepView>)
    requires
        is_plain(t),
    ensures
        walk_spec(t, ctx, loc).card == t,
        walk_spec(t, ctx, loc).reads == Seq::<BindingReadView>::empty(),
    decreases t, 0int,
{
    match t {
        JsonView::String(s) => {
            assert(s.subrange(0, s.len() as int) =~= s);
        },
        JsonView::Array(items) => {
            lemma_plain_items(items, ctx, loc, items.len() as int);
            assert(items.subrange(0, items.len() as int) =~= items);
        },
        JsonView::Object(fields) => {
            lemma_plain_fields(fields, ctx, loc, fields.len() as int);
            assert(fields.subrange(0, fields.len() as int) =~= fields);
        },
        _ => {},
    }
}

proof fn lemma_plain_items(
    items: Seq<JsonView>,
    ctx: ContextView,
    loc: Seq<PathStepView>,
    k: int,
)
    requires
        0 <= k <= items.len(),
        items_plain(items, k),
    ensures
        walk_items(items, ctx, loc, k).0 == items.subrange(0, k),
        walk_items(items, ctx, loc, k).1 == Seq::<BindingReadView>::empty(),
    decreases items, k,
{
    if k > 0 {
        lemma_plain_items(items, ctx, loc, k - 1);
        lemma_plain_is_unchanged(items[k - 1], ctx, loc.push(PathStepView::Index(k - 1)));
        assert(items.subrange(0, k - 1).push(items[k - 1]) =~= items.subrange(0, k));
        assert(Seq::<BindingReadView>::empty() + Seq::<BindingReadView>::empty()
            =~= Seq::<BindingReadView>::empty());
    } else {
        assert(items.subrange(0, 0) =~= Seq::<JsonView>::empty());
    }
}

proof fn lemma_plain_fields(
    fields: Seq<(Seq<char>, JsonView)>,
    ctx: ContextView,
    loc: Seq<PathStepView>,
    k: int,
)
    requires
        0 <= k <= fields.len(),
        fields_plain(fields, k),
    ensures
        walk_fields(fields, ctx, loc, k).0 == fields.subrange(0, k),
        walk_fields(fields, ctx, loc, k).1 == Seq::<BindingReadView>::empty(),
    decreases fields, k,
{
    if k > 0 {
        lemma_plain_fields(fields, ctx, loc, k - 1);
        lemma_plain_is_unchanged(
            fields[k - 1].1,
            ctx,
            loc.push(PathStepView::Key(fields[k - 1].0)),
        );
        assert(fields.subrange(0, k - 1).push(fields[k - 1]) =~= fields.subrange(0, k));
        assert(Seq::<BindingReadView>::empty() + Seq::<BindingReadView>::empty()
            =~= Seq::<BindingReadView>::empty());
    } else {
        assert(fields.subrange(0, 0) =~= Seq::<(Seq<char>, JsonView)>::empty());
    }
}

/// Rendering is idempotent on what it has resolved: a rendered card in
/// which no binding is left renders to itself, with no issue.
pub proof fn lemma_render_is_idempotent(t: JsonView, ctx: ContextView, loc: Seq<PathStepView>)
    requires
        is_plain(walk_spec(t, ctx, loc).card),
    ensures
        walk_spec(walk_spec(t, ctx, loc).card, ctx, loc).card == walk_spec(t, ctx, loc).card,
        issues_spec(walk_spec(walk_spec(t, ctx, loc).card, ctx, loc).reads) == Seq::<
            IssueView,
        >::empty(),
{
    lemma_plain_is_unchanged(walk_spec(t, ctx, loc).card, ctx, loc);
}

/// A braced binding without a value stays in the text as it is, and is
/// recorded as not resolved.
pub proof fn lemma_unresolved_binding_stays(
    s: Seq<char>,
    from: int,
    ctx: ContextView,
    loc: Seq<PathStepView>,
    i: int,
)
    requires
        0 <= from,
        opener_from(s, from) == Some(i),
        index_of_from(s, '}', i + 2) < s.len(),
        eval_spec(s.subrange(i, index_of_from(s, '}', i + 2) + 1), ctx) is None,
    ensures
        ({
            let j = index_of_from(s, '}', i + 2);
            let token = s.subrange(i, j + 1);
            &&& splice(s, from, ctx, loc).text == s.subrange(from, j + 1) + splice(
                s,
                j + 1,
                ctx,
                loc,
            ).text
            &&& splice(s, from, ctx, loc).reads[0] == read_of(loc, token, false)
        }),
{
    lemma_opener_from(s, from);
    lemma_index_of_from(s, '}', i + 2);
    let j = index_of_from(s, '}', i + 2);
    let token = s.subrange(i, j + 1);
    let rest = splice(s, j + 1, ctx, loc);
    assert(s.subrange(from, i) + token =~= s.subrange(from, j + 1));
    assert(s.subrange(from, i) + token + rest.text =~= s.subrange(from, j + 1) + rest.text);
}

/// A whole-string binding without a value leaves the leaf as it was and
/// gives exactly one issue.
pub proof fn lemma_unresolved_leaf_stays(s: Seq<char>, ctx: ContextView, loc: Seq<PathStepView>)
    requires
        is_single_token(s),
        eval_spec(s, ctx) is None,
    ensures
        render_text(s, ctx, loc).card == JsonView::String(s),
        issues_spec(render_text(s, ctx, loc).reads) == seq![
            IssueView { location: loc, expression: s },
        ],
{
    let reads = render_text(s, ctx, loc).reads;
    assert(issues_upto(reads, 0) =~= Seq::<IssueView>::empty());
    assert(issues_upto(reads, 1) =~= seq![IssueView { location: loc, expression: s }]);
}

} // verus!
