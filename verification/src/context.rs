use crate::json::{
    lemma_get_is_well_formed, member, option_view, well_formed, Json, JsonView,
};
use crate::text::{same_text, split_on, split_str, texts_of};
use vstd::prelude::*;

verus! {

/// The four scopes that a binding can read.
pub struct BindingContext<'a> {
    pub payload: &'a Json,
    pub session: &'a Json,
    pub state: &'a Json,
    pub params: &'a Json,
}

/// The values of the four scopes.
pub struct ContextView {
    pub payload: JsonView,
    pub session: JsonView,
    pub state: JsonView,
    pub params: JsonView,
}

impl<'a> View for BindingContext<'a> {
    type V = ContextView;

    open spec fn view(&self) -> ContextView {
        ContextView {
            payload: self.payload@,
            session: self.session@,
            state: self.state@,
            params: self.params@,
        }
    }
}

/// The scope that `name` names.
pub open spec fn scope_of(ctx: ContextView, name: Seq<char>) -> Option<JsonView> {
    if name == "payload"@ {
        Some(ctx.payload)
    } else if name == "session"@ {
        Some(ctx.session)
    } else if name == "state"@ {
        Some(ctx.state)
    } else if name == "params"@ {
        Some(ctx.params)
    } else {
        None
    }
}

/// The value reached from `v` by the segments of `segs` from `from` on,
/// each one a member of the object before it.
pub open spec fn walk(v: JsonView, segs: Seq<Seq<char>>, from: int) -> Option<JsonView>
    decreases segs.len() - from,
{
    if from < 0 || from >= segs.len() {
        Some(v)
    } else {
        match member(v, segs[from]) {
            Some(child) => walk(child, segs, from + 1),
            None => None,
        }
    }
}

/// The value at a dotted path: the first segment names the scope, the
/// others the members on the way down.
pub open spec fn lookup_spec(ctx: ContextView, path: Seq<char>) -> Option<JsonView> {
    let segs = split_on(path, '.');
    match scope_of(ctx, segs[0]) {
        Some(root) => walk(root, segs, 1),
        None => None,
    }
}

/// A split text has at least one part.
pub proof fn lemma_split_nonempty(s: Seq<char>, c: char)
    ensures
        split_on(s, c).len() >= 1,
    decreases s.len(),
{
    let d = crate::text::index_of_from(s, c, 0);
    if 0 <= d < s.len() {
        lemma_split_nonempty(s.subrange(d + 1, s.len() as int), c);
    }
}

/// Whether the four scopes are JSON values.
pub open spec fn context_well_formed(ctx: ContextView) -> bool {
    well_formed(ctx.payload) && well_formed(ctx.session) && well_formed(ctx.state) && well_formed(
        ctx.params,
    )
}

/// What is reached from a JSON value is a JSON value.
pub proof fn lemma_walk_is_well_formed(v: JsonView, segs: Seq<Seq<char>>, from: int)
    requires
        well_formed(v),
    ensures
        walk(v, segs, from) matches Some(found) ==> well_formed(found),
    decreases segs.len() - from,
{
    if 0 <= from < segs.len() {
        if let JsonView::Object(fields) = v {
            lemma_get_is_well_formed(fields, segs[from]);
        }
        if let Some(child) = member(v, segs[from]) {
            lemma_walk_is_well_formed(child, segs, from + 1);
        }
    }
}

/// What a path finds in scopes that are JSON values is a JSON value.
pub proof fn lemma_lookup_is_well_formed(ctx: ContextView, path: Seq<char>)
    requires
        context_well_formed(ctx),
    ensures
        lookup_spec(ctx, path) matches Some(found) ==> well_formed(found),
{
    let segs = split_on(path, '.');
    if let Some(root) = scope_of(ctx, segs[0]) {
        lemma_walk_is_well_formed(root, segs, 1);
    }
}

impl<'a> BindingContext<'a> {
    /// The scope that `name` names.
    pub fn scope(&self, name: &str) -> (r: Option<&'a Json>)
        ensures
            crate::json::option_ref_view(r) == scope_of(self@, name@),
    {
        if same_text(name, "payload") {
            Some(self.payload)
        } else if same_text(name, "session") {
            Some(self.session)
        } else if same_text(name, "state") {
            Some(self.state)
        } else if same_text(name, "params") {
            Some(self.params)
        } else {
            None
        }
    }

    /// The value at a dotted path, where every segment of it is present.
    pub fn lookup(&self, path: &str) -> (r: Option<Json>)
        ensures
            option_view(r) == lookup_spec(self@, path@),
    {
        let segs = split_str(path, '.');
        proof {
            lemma_split_nonempty(path@, '.');
            assert(texts_of(segs@).len() == segs@.len());
        }
        let ghost parts = split_on(path@, '.');
        assert(segs@[0]@ == texts_of(segs@)[0]);
        let root = match self.scope(segs[0].as_str()) {
            Some(root) => root,
            None => {
                return None;
            },
        };
        let mut cur: &Json = root;
        let mut i: usize = 1;
        while i < segs.len()
            invariant
                1 <= i <= segs.len(),
                parts == texts_of(segs@),
                parts.len() == segs@.len(),
                lookup_spec(self@, path@) == walk(cur@, parts, i as int),
            decreases segs.len() - i,
        {
            assert(segs@[i as int]@ == parts[i as int]);
            match cur.get(segs[i].as_str()) {
                Some(child) => {
                    cur = child;
                },
                None => {
                    return None;
                },
            }
            i += 1;
        }
        Some(cur.clone())
    }
}

} // verus!
