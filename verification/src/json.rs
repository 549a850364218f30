use vstd::prelude::*;

verus! {

/// The three shapes in which a JSON number is stored.
///
/// `Float` holds the IEEE-754 binary64 bit pattern of the number.
#[derive(Clone, Copy, Debug, PartialEq, Eq)]
pub enum NumberValue {
    PosInt(u64),
    NegInt(i64),
    Float(u64),
}

/// A JSON number: its stored value and the decimal text under which it is
/// written out. The value is what conditions and comparisons go by; the
/// text is what stands for the number inside a string and what a float is
/// written out by. Whoever builds a number by hand gives it the text of
/// its value: the library does not hold the one against the other.
#[derive(Debug, PartialEq, Eq)]
pub struct JsonNumber {
    pub value: NumberValue,
    pub text: String,
}

/// A JSON document. An object keeps its fields in the order in which they
/// were met; a key is looked up by its first occurrence.
#[derive(Debug, PartialEq, Eq)]
pub enum Json {
    Null,
    Bool(bool),
    Number(JsonNumber),
    String(String),
    Array(Vec<Json>),
    Object(Vec<(String, Json)>),
}

/// The mathematical value of a [`Json`] document.
pub enum JsonView {
    Null,
    Bool(bool),
    Number(NumberValue, Seq<char>),
    String(Seq<char>),
    Array(Seq<JsonView>),
    Object(Seq<(Seq<char>, JsonView)>),
}

impl View for JsonNumber {
    type V = (NumberValue, Seq<char>);

    open spec fn view(&self) -> (NumberValue, Seq<char>) {
        (self.value, self.text@)
    }
}

impl View for Json {
    type V = JsonView;

    open spec fn view(&self) -> JsonView
        decreases self,
    {
        match self {
            Json::Null => JsonView::Null,
            Json::Bool(b) => JsonView::Bool(*b),
            Json::Number(n) => JsonView::Number(n.value, n.text@),
            Json::String(s) => JsonView::String(s@),
            Json::Array(items) => JsonView::Array(
                Seq::new(
                    items@.len(),
                    |i: int|
                        if 0 <= i < items@.len() {
                            items@[i]@
                        } else {
                            JsonView::Null
                        },
                ),
            ),
            Json::Object(fields) => JsonView::Object(
                Seq::new(
                    fields@.len(),
                    |i: int|
                        if 0 <= i < fields@.len() {
                            (fields@[i].0@, fields@[i].1@)
                        } else {
                            (Seq::empty(), JsonView::Null)
                        },
                ),
            ),
        }
    }
}

/// The values of a list of documents, one for one.
pub open spec fn items_view(items: Seq<Json>) -> Seq<JsonView> {
    Seq::new(items.len(), |i: int| items[i]@)
}

/// The keys and values of a list of fields, one for one.
pub open spec fn fields_view(fields: Seq<(String, Json)>) -> Seq<(Seq<char>, JsonView)> {
    Seq::new(fields.len(), |i: int| (fields[i].0@, fields[i].1@))
}

/// What the view of an array is, in terms of its items.
pub proof fn lemma_array_view(v: Json)
    requires
        v is Array,
    ensures
        v@ == JsonView::Array(items_view(v->Array_0@)),
{
    reveal_with_fuel(<Json as View>::view, 2);
    let items = v->Array_0;
    assert(v == Json::Array(items));
    assert(v@->Array_0 =~= items_view(items@));
}

/// What the view of an object is, in terms of its fields.
pub proof fn lemma_object_view(v: Json)
    requires
        v is Object,
    ensures
        v@ == JsonView::Object(fields_view(v->Object_0@)),
{
    reveal_with_fuel(<Json as View>::view, 2);
    let fields = v->Object_0;
    assert(v == Json::Object(fields));
    assert(v@->Object_0 =~= fields_view(fields@));
}

impl Clone for JsonNumber {
    fn clone(&self) -> (r: Self)
        ensures
            r@ == self@,
            r.value == self.value,
    {
        JsonNumber { value: self.value, text: self.text.clone() }
    }
}

impl Clone for Json {
    fn clone(&self) -> (r: Self)
        ensures
            r@ == self@,
        decreases self,
    {
        match self {
            Json::Null => Json::Null,
            Json::Bool(b) => Json::Bool(*b),
            Json::Number(n) => Json::Number(n.clone()),
            Json::String(s) => Json::String(s.clone()),
            Json::Array(items) => {
                let mut out: Vec<Json> = Vec::new();
                let mut i: usize = 0;
                while i < items.len()
                    invariant
                        i <= items.len(),
                        out@.len() == i,
                        forall|j: int| 0 <= j < i ==> out@[j]@ == items@[j]@,
                        *self == Json::Array(*items),
                    decreases items.len() - i,
                {
                    proof {
                        assert(decreases_to!(*self => self->Array_0));
                        assert(decreases_to!(*items => items@));
                        assert(decreases_to!(items@ => items@[i as int]));
                    }
                    out.push(items[i].clone());
                    i += 1;
                }
                let r = Json::Array(out);
                proof {
                    lemma_array_view(r);
                    lemma_array_view(*self);
                    assert(items_view(out@) =~= items_view(items@));
                }
                r
            },
            Json::Object(fields) => {
                let mut out: Vec<(String, Json)> = Vec::new();
                let mut i: usize = 0;
                while i < fields.len()
                    invariant
                        i <= fields.len(),
                        out@.len() == i,
                        forall|j: int|
                            0 <= j < i ==> out@[j].0@ == fields@[j].0@ && out@[j].1@
                                == fields@[j].1@,
                        *self == Json::Object(*fields),
                    decreases fields.len() - i,
                {
                    proof {
                        assert(decreases_to!(*self => self->Object_0));
                        assert(decreases_to!(*fields => fields@));
                        assert(decreases_to!(fields@ => fields@[i as int]));
                        assert(decreases_to!(fields@[i as int] => fields@[i as int].1));
                    }
                    out.push((fields[i].0.clone(), fields[i].1.clone()));
                    i += 1;
                }
                let r = Json::Object(out);
                proof {
                    lemma_object_view(r);
                    lemma_object_view(*self);
                    assert(fields_view(out@) =~= fields_view(fields@));
                }
                r
            },
        }
    }
}


/// The bits of a binary64 value without its sign.
pub open spec fn float_magnitude(bits: u64) -> u64 {
    bits & 0x7FFF_FFFF_FFFF_FFFF
}

/// Whether the binary64 value is positive or negative zero.
pub open spec fn float_is_zero(bits: u64) -> bool {
    float_magnitude(bits) == 0
}

/// Whether the bit pattern is no number at all.
pub open spec fn float_is_nan(bits: u64) -> bool {
    float_magnitude(bits) > 0x7FF0_0000_0000_0000
}

/// Equality of two binary64 values as IEEE-754 defines it: a NaN equals
/// nothing, the two zeros equal each other, every other value equals itself
/// only.
pub open spec fn float_equal(a: u64, b: u64) -> bool {
    !float_is_nan(a) && !float_is_nan(b) && (a == b || (float_is_zero(a) && float_is_zero(b)))
}

/// Whether the number is different from zero.
pub open spec fn number_nonzero(n: NumberValue) -> bool {
    match n {
        NumberValue::PosInt(u) => u != 0,
        NumberValue::NegInt(i) => i != 0,
        NumberValue::Float(bits) => !float_is_zero(bits),
    }
}

/// Equality of two stored numbers: the same shape and the same value in it.
pub open spec fn same_number(a: NumberValue, b: NumberValue) -> bool {
    match (a, b) {
        (NumberValue::PosInt(x), NumberValue::PosInt(y)) => x == y,
        (NumberValue::NegInt(x), NumberValue::NegInt(y)) => x == y,
        (NumberValue::Float(x), NumberValue::Float(y)) => float_equal(x, y),
        _ => false,
    }
}

/// The first index at or after `from` whose field is named `key`.
pub open spec fn field_index_from(
    fields: Seq<(Seq<char>, JsonView)>,
    key: Seq<char>,
    from: int,
) -> Option<int>
    decreases fields.len() - from,
{
    if from < 0 || from >= fields.len() {
        None
    } else if fields[from].0 == key {
        Some(from)
    } else {
        field_index_from(fields, key, from + 1)
    }
}

/// The index of the first field named `key`.
pub open spec fn field_index(fields: Seq<(Seq<char>, JsonView)>, key: Seq<char>) -> Option<int> {
    field_index_from(fields, key, 0)
}

/// The value of the first field named `key`.
pub open spec fn object_get(fields: Seq<(Seq<char>, JsonView)>, key: Seq<char>) -> Option<
    JsonView,
> {
    match field_index(fields, key) {
        Some(i) => Some(fields[i].1),
        None => None,
    }
}

/// The fields with `key` set to `value`: in place where the key is present,
/// at the end where it is not.
pub open spec fn object_put(
    fields: Seq<(Seq<char>, JsonView)>,
    key: Seq<char>,
    value: JsonView,
) -> Seq<(Seq<char>, JsonView)> {
    match field_index(fields, key) {
        Some(i) => fields.update(i, (key, value)),
        None => fields.push((key, value)),
    }
}

/// The member `key` of a document: present only in an object that has it.
pub open spec fn member(v: JsonView, key: Seq<char>) -> Option<JsonView> {
    match v {
        JsonView::Object(fields) => object_get(fields, key),
        _ => None,
    }
}

/// The text of a member that is a string.
pub open spec fn string_member(v: JsonView, key: Seq<char>) -> Option<Seq<char>> {
    match member(v, key) {
        Some(JsonView::String(s)) => Some(s),
        _ => None,
    }
}

/// The value of a member that is a boolean.
pub open spec fn bool_member(v: JsonView, key: Seq<char>) -> Option<bool> {
    match member(v, key) {
        Some(JsonView::Bool(b)) => Some(b),
        _ => None,
    }
}

/// What `field_index_from` finds is the first match at or after `from`.
pub proof fn lemma_field_index_from(fields: Seq<(Seq<char>, JsonView)>, key: Seq<char>, from: int)
    requires
        0 <= from,
    ensures
        match field_index_from(fields, key, from) {
            Some(i) => from <= i < fields.len() && fields[i].0 == key && forall|j: int|
                from <= j < i ==> fields[j].0 != key,
            None => forall|j: int| from <= j < fields.len() ==> fields[j].0 != key,
        },
    decreases fields.len() - from,
{
    if from < fields.len() && fields[from].0 != key {
        lemma_field_index_from(fields, key, from + 1);
    }
}

/// The view of an optional borrowed document.
pub open spec fn option_view(v: Option<Json>) -> Option<JsonView> {
    match v {
        Some(j) => Some(j@),
        None => None,
    }
}

/// The view of an optional borrowed document.
pub open spec fn option_ref_view(v: Option<&Json>) -> Option<JsonView> {
    match v {
        Some(j) => Some(j@),
        None => None,
    }
}

/// The position of the first field named `key`.
pub fn find_field(fields: &Vec<(String, Json)>, key: &str) -> (r: Option<usize>)
    ensures
        match r {
            Some(i) => field_index(fields_view(fields@), key@) == Some(i as int) && i
                < fields@.len(),
            None => field_index(fields_view(fields@), key@) is None,
        },
{
    let mut i: usize = 0;
    while i < fields.len()
        invariant
            i <= fields.len(),
            field_index(fields_view(fields@), key@) == field_index_from(
                fields_view(fields@),
                key@,
                i as int,
            ),
        decreases fields.len() - i,
    {
        if crate::text::same_text(fields[i].0.as_str(), key) {
            return Some(i);
        }
        i += 1;
    }
    None
}

impl Json {
    /// The member `key`, as an object has it.
    pub fn get(&self, key: &str) -> (r: Option<&Json>)
        ensures
            option_ref_view(r) == member(self@, key@),
    {
        match self {
            Json::Object(fields) => {
                proof {
                    lemma_object_view(*self);
                }
                match find_field(fields, key) {
                    Some(i) => Some(&fields[i].1),
                    None => None,
                }
            },
            _ => None,
        }
    }

    /// The text of a member that is a string.
    pub fn get_str(&self, key: &str) -> (r: Option<&str>)
        ensures
            match r {
                Some(s) => string_member(self@, key@) == Some(s@),
                None => string_member(self@, key@) is None,
            },
    {
        match self.get(key) {
            Some(Json::String(s)) => Some(s.as_str()),
            _ => None,
        }
    }

    /// The value of a member that is a boolean.
    pub fn get_bool(&self, key: &str) -> (r: Option<bool>)
        ensures
            r == bool_member(self@, key@),
    {
        match self.get(key) {
            Some(Json::Bool(b)) => Some(*b),
            _ => None,
        }
    }
}


/// Structural equality of two documents: numbers by shape and value, arrays
/// item by item, objects with as many fields and an equal value under each
/// key of the first. For objects whose keys are distinct that is equality
/// as maps from key to value, whatever the order of the fields.
pub open spec fn same_json(a: JsonView, b: JsonView) -> bool
    decreases a, 0int,
{
    match (a, b) {
        (JsonView::Null, JsonView::Null) => true,
        (JsonView::Bool(x), JsonView::Bool(y)) => x == y,
        (JsonView::Number(x, _), JsonView::Number(y, _)) => same_number(x, y),
        (JsonView::String(x), JsonView::String(y)) => x == y,
        (JsonView::Array(x), JsonView::Array(y)) => x.len() == y.len() && same_items_from(
            x,
            y,
            0,
        ),
        (JsonView::Object(x), JsonView::Object(y)) => x.len() == y.len() && same_fields_from(
            x,
            y,
            0,
        ),
        _ => false,
    }
}

/// Whether the items of `x` from `from` on equal those of `y` at the same
/// places.
pub open spec fn same_items_from(x: Seq<JsonView>, y: Seq<JsonView>, from: int) -> bool
    decreases x, x.len() - from,
{
    if from < 0 || from >= x.len() || from >= y.len() {
        true
    } else {
        same_json(x[from], y[from]) && same_items_from(x, y, from + 1)
    }
}

/// Whether each field of `x` from `from` on has an equal value under its
/// key in `y`.
pub open spec fn same_fields_from(
    x: Seq<(Seq<char>, JsonView)>,
    y: Seq<(Seq<char>, JsonView)>,
    from: int,
) -> bool
    decreases x, x.len() - from,
{
    if from < 0 || from >= x.len() {
        true
    } else {
        (match object_get(y, x[from].0) {
            Some(v) => same_json(x[from].1, v),
            None => false,
        }) && same_fields_from(x, y, from + 1)
    }
}

/// Whether two stored numbers are equal in shape and value.
pub fn numbers_same(a: &NumberValue, b: &NumberValue) -> (r: bool)
    ensures
        r == same_number(*a, *b),
{
    match (a, b) {
        (NumberValue::PosInt(x), NumberValue::PosInt(y)) => *x == *y,
        (NumberValue::NegInt(x), NumberValue::NegInt(y)) => *x == *y,
        (NumberValue::Float(x), NumberValue::Float(y)) => floats_equal(*x, *y),
        _ => false,
    }
}

/// Whether two binary64 bit patterns are equal as numbers.
pub fn floats_equal(a: u64, b: u64) -> (r: bool)
    ensures
        r == float_equal(a, b),
{
    let ma: u64 = a & 0x7FFF_FFFF_FFFF_FFFF;
    let mb: u64 = b & 0x7FFF_FFFF_FFFF_FFFF;
    ma <= 0x7FF0_0000_0000_0000 && mb <= 0x7FF0_0000_0000_0000 && (a == b || (ma == 0 && mb == 0))
}

impl Json {
    /// Structural equality with `other`.
    pub fn same(&self, other: &Json) -> (r: bool)
        ensures
            r == same_json(self@, other@),
        decreases self,
    {
        match (self, other) {
            (Json::Null, Json::Null) => true,
            (Json::Bool(x), Json::Bool(y)) => *x == *y,
            (Json::Number(x), Json::Number(y)) => numbers_same(&x.value, &y.value),
            (Json::String(x), Json::String(y)) => crate::text::same_text(x.as_str(), y.as_str()),
            (Json::Array(x), Json::Array(y)) => {
                proof {
                    lemma_array_view(*self);
                    lemma_array_view(*other);
                }
                if x.len() != y.len() {
                    return false;
                }
                let mut i: usize = 0;
                while i < x.len()
                    invariant
                        i <= x.len(),
                        x.len() == y.len(),
                        *self == Json::Array(*x),
                        self@ == JsonView::Array(items_view(x@)),
                        other@ == JsonView::Array(items_view(y@)),
                        same_items_from(items_view(x@), items_view(y@), 0) == same_items_from(
                            items_view(x@),
                            items_view(y@),
                            i as int,
                        ),
                    decreases x.len() - i,
                {
                    proof {
                        assert(decreases_to!(*self => self->Array_0));
                        assert(decreases_to!(*x => x@));
                        assert(decreases_to!(x@ => x@[i as int]));
                    }
                    if !x[i].same(&y[i]) {
                        return false;
                    }
                    i += 1;
                }
                true
            },
            (Json::Object(x), Json::Object(y)) => {
                proof {
                    lemma_object_view(*self);
                    lemma_object_view(*other);
                }
                if x.len() != y.len() {
                    return false;
                }
                let mut i: usize = 0;
                while i < x.len()
                    invariant
                        i <= x.len(),
                        x.len() == y.len(),
                        *self == Json::Object(*x),
                        self@ == JsonView::Object(fields_view(x@)),
                        other@ == JsonView::Object(fields_view(y@)),
                        same_fields_from(fields_view(x@), fields_view(y@), 0) == same_fields_from(
                            fields_view(x@),
                            fields_view(y@),
                            i as int,
                        ),
                    decreases x.len() - i,
                {
                    proof {
                        assert(decreases_to!(*self => self->Object_0));
                        assert(decreases_to!(*x => x@));
                        assert(decreases_to!(x@ => x@[i as int]));
                        assert(decreases_to!(x@[i as int] => x@[i as int].1));
                    }
                    match find_field(y, x[i].0.as_str()) {
                        Some(j) => {
                            if !x[i].1.same(&y[j].1) {
                                return false;
                            }
                        },
                        None => {
                            return false;
                        },
                    }
                    i += 1;
                }
                true
            },
            _ => false,
        }
    }
}


/// The first field named `key` is at `i` where `i` holds the key and no
/// earlier field does.
pub proof fn lemma_field_index_is(fields: Seq<(Seq<char>, JsonView)>, key: Seq<char>, i: int)
    requires
        0 <= i < fields.len(),
        fields[i].0 == key,
        forall|j: int| 0 <= j < i ==> fields[j].0 != key,
    ensures
        field_index(fields, key) == Some(i),
{
    lemma_field_index_from(fields, key, 0);
}

/// No field is named `key` where none holds it.
pub proof fn lemma_field_index_none(fields: Seq<(Seq<char>, JsonView)>, key: Seq<char>)
    requires
        forall|j: int| 0 <= j < fields.len() ==> fields[j].0 != key,
    ensures
        field_index(fields, key) is None,
{
    lemma_field_index_from(fields, key, 0);
}

/// A key that was set has the value that it was set to.
pub proof fn lemma_put_then_get(
    fields: Seq<(Seq<char>, JsonView)>,
    key: Seq<char>,
    value: JsonView,
)
    ensures
        object_get(object_put(fields, key, value), key) == Some(value),
{
    lemma_field_index_from(fields, key, 0);
    let after = object_put(fields, key, value);
    match field_index(fields, key) {
        Some(i) => {
            lemma_field_index_is(after, key, i);
        },
        None => {
            lemma_field_index_is(after, key, fields.len() as int);
        },
    }
}

/// Setting a key leaves the value of every other key as it was.
pub proof fn lemma_put_keeps_others(
    fields: Seq<(Seq<char>, JsonView)>,
    key: Seq<char>,
    value: JsonView,
    other: Seq<char>,
)
    requires
        other != key,
    ensures
        object_get(object_put(fields, key, value), other) == object_get(fields, other),
{
    lemma_field_index_from(fields, key, 0);
    lemma_field_index_from(fields, other, 0);
    let after = object_put(fields, key, value);
    match field_index(fields, other) {
        Some(i) => {
            lemma_field_index_is(after, other, i);
        },
        None => {
            lemma_field_index_none(after, other);
        },
    }
}


/// Whether no two fields have the same key.
pub open spec fn distinct_keys(fields: Seq<(Seq<char>, JsonView)>) -> bool {
    forall|i: int, j: int|
        #![trigger fields[i], fields[j]]
        0 <= i < j < fields.len() ==> fields[i].0 != fields[j].0
}

/// Whether the bit pattern is a finite binary64 value.
pub open spec fn float_is_finite(bits: u64) -> bool {
    float_magnitude(bits) < 0x7FF0_0000_0000_0000
}

/// Whether the stored number is one that JSON can hold: a float is finite.
pub open spec fn number_well_formed(n: NumberValue) -> bool {
    match n {
        NumberValue::Float(bits) => float_is_finite(bits),
        _ => true,
    }
}

/// Whether the document is a JSON value: every object in it, at any
/// depth, has distinct keys, so that it is a map, and every float is
/// finite.
pub open spec fn well_formed(v: JsonView) -> bool
    decreases v, 0int,
{
    match v {
        JsonView::Number(n, _) => number_well_formed(n),
        JsonView::Object(fields) => distinct_keys(fields) && fields_well_formed(
            fields,
            fields.len() as int,
        ),
        JsonView::Array(items) => items_well_formed(items, items.len() as int),
        _ => true,
    }
}

/// Whether the first `k` items are well formed.
pub open spec fn items_well_formed(items: Seq<JsonView>, k: int) -> bool
    decreases items, k,
{
    k <= 0 || k > items.len() || (items_well_formed(items, k - 1) && well_formed(items[k - 1]))
}

/// Whether the values of the first `k` fields are well formed.
pub open spec fn fields_well_formed(fields: Seq<(Seq<char>, JsonView)>, k: int) -> bool
    decreases fields, k,
{
    k <= 0 || k > fields.len() || (fields_well_formed(fields, k - 1) && well_formed(
        fields[k - 1].1,
    ))
}

/// The values of well-formed fields are well formed, each of them.
pub proof fn lemma_fields_well_formed_at(fields: Seq<(Seq<char>, JsonView)>, k: int, i: int)
    requires
        0 <= i < k <= fields.len(),
        fields_well_formed(fields, k),
    ensures
        well_formed(fields[i].1),
    decreases k,
{
    if i < k - 1 {
        lemma_fields_well_formed_at(fields, k - 1, i);
    }
}

/// Fields whose values are well formed, each of them, are well formed.
pub proof fn lemma_fields_well_formed_all(fields: Seq<(Seq<char>, JsonView)>, k: int)
    requires
        0 <= k <= fields.len(),
        forall|i: int| 0 <= i < k ==> well_formed(#[trigger] fields[i].1),
    ensures
        fields_well_formed(fields, k),
    decreases k,
{
    if k > 0 {
        lemma_fields_well_formed_all(fields, k - 1);
    }
}

/// The value under a key of a well-formed object is well formed.
pub proof fn lemma_get_is_well_formed(fields: Seq<(Seq<char>, JsonView)>, key: Seq<char>)
    requires
        fields_well_formed(fields, fields.len() as int),
    ensures
        object_get(fields, key) matches Some(v) ==> well_formed(v),
{
    lemma_field_index_from(fields, key, 0);
    if let Some(i) = field_index(fields, key) {
        lemma_fields_well_formed_at(fields, fields.len() as int, i);
    }
}

/// Setting a key of a well-formed object to a well-formed value leaves the
/// object well formed.
pub proof fn lemma_put_is_well_formed(
    fields: Seq<(Seq<char>, JsonView)>,
    key: Seq<char>,
    value: JsonView,
)
    requires
        distinct_keys(fields),
        fields_well_formed(fields, fields.len() as int),
        well_formed(value),
    ensures
        distinct_keys(object_put(fields, key, value)),
        fields_well_formed(
            object_put(fields, key, value),
            object_put(fields, key, value).len() as int,
        ),
{
    lemma_field_index_from(fields, key, 0);
    let after = object_put(fields, key, value);
    assert forall|i: int| 0 <= i < after.len() implies well_formed(#[trigger] after[i].1) by {
        if i < fields.len() && after[i] == fields[i] {
            lemma_fields_well_formed_at(fields, fields.len() as int, i);
        }
    }
    lemma_fields_well_formed_all(after, after.len() as int);
    assert forall|i: int, j: int| 0 <= i < j < after.len() implies after[i].0 != after[j].0 by {
        if j < fields.len() {
            assert(fields[i].0 != fields[j].0);
        }
    }
}


/// The items of a well-formed array are well formed, each of them.
pub proof fn lemma_items_well_formed_at(items: Seq<JsonView>, k: int, i: int)
    requires
        0 <= i < k <= items.len(),
        items_well_formed(items, k),
    ensures
        well_formed(items[i]),
    decreases k,
{
    if i < k - 1 {
        lemma_items_well_formed_at(items, k - 1, i);
    }
}

/// Items that are well formed, each of them, are well formed.
pub proof fn lemma_items_well_formed_all(items: Seq<JsonView>, k: int)
    requires
        0 <= k <= items.len(),
        forall|i: int| 0 <= i < k ==> well_formed(#[trigger] items[i]),
    ensures
        items_well_formed(items, k),
    decreases k,
{
    if k > 0 {
        lemma_items_well_formed_all(items, k - 1);
    }
}

/// Structural equality is reflexive on JSON values: a well-formed
/// document equals itself.
pub proof fn lemma_same_is_reflexive(v: JsonView)
    requires
        well_formed(v),
    ensures
        same_json(v, v),
    decreases v, 0int,
{
    match v {
        JsonView::Array(items) => {
            lemma_same_items_reflexive(items, 0);
        },
        JsonView::Object(fields) => {
            lemma_same_fields_reflexive(fields, 0);
        },
        _ => {},
    }
}

proof fn lemma_same_items_reflexive(items: Seq<JsonView>, from: int)
    requires
        0 <= from <= items.len(),
        items_well_formed(items, items.len() as int),
    ensures
        same_items_from(items, items, from),
    decreases items, items.len() - from,
{
    if from < items.len() {
        lemma_items_well_formed_at(items, items.len() as int, from);
        lemma_same_is_reflexive(items[from]);
        lemma_same_items_reflexive(items, from + 1);
    }
}

proof fn lemma_same_fields_reflexive(fields: Seq<(Seq<char>, JsonView)>, from: int)
    requires
        0 <= from <= fields.len(),
        distinct_keys(fields),
        fields_well_formed(fields, fields.len() as int),
    ensures
        same_fields_from(fields, fields, from),
    decreases fields, fields.len() - from,
{
    if from < fields.len() {
        assert forall|j: int| 0 <= j < from implies fields[j].0 != fields[from].0 by {
            assert(fields[j].0 != fields[from].0);
        }
        lemma_field_index_is(fields, fields[from].0, from);
        lemma_fields_well_formed_at(fields, fields.len() as int, from);
        lemma_same_is_reflexive(fields[from].1);
        lemma_same_fields_reflexive(fields, from + 1);
    }
}


/// Whether the field of `x` at `i` has an equal value under its key in
/// `y`.
pub open spec fn field_matches(
    x: Seq<(Seq<char>, JsonView)>,
    y: Seq<(Seq<char>, JsonView)>,
    i: int,
) -> bool {
    match object_get(y, x[i].0) {
        Some(v) => same_json(x[i].1, v),
        None => false,
    }
}

/// The keys of the fields, in order.
pub open spec fn keys_of(fields: Seq<(Seq<char>, JsonView)>) -> Seq<Seq<char>> {
    Seq::new(fields.len(), |i: int| fields[i].0)
}

proof fn lemma_same_fields_at(
    x: Seq<(Seq<char>, JsonView)>,
    y: Seq<(Seq<char>, JsonView)>,
    from: int,
    i: int,
)
    requires
        0 <= from <= i < x.len(),
        same_fields_from(x, y, from),
    ensures
        field_matches(x, y, i),
    decreases i - from,
{
    if from < i {
        lemma_same_fields_at(x, y, from + 1, i);
    }
}

proof fn lemma_same_fields_all(
    x: Seq<(Seq<char>, JsonView)>,
    y: Seq<(Seq<char>, JsonView)>,
    from: int,
)
    requires
        0 <= from,
        forall|i: int| from <= i < x.len() ==> field_matches(x, y, i),
    ensures
        same_fields_from(x, y, from),
    decreases x.len() - from,
{
    if from < x.len() {
        assert(field_matches(x, y, from));
        lemma_same_fields_all(x, y, from + 1);
    }
}

proof fn lemma_same_items_at(x: Seq<JsonView>, y: Seq<JsonView>, from: int, i: int)
    requires
        0 <= from <= i < x.len(),
        x.len() == y.len(),
        same_items_from(x, y, from),
    ensures
        same_json(x[i], y[i]),
    decreases i - from,
{
    if from < i {
        lemma_same_items_at(x, y, from + 1, i);
    }
}

proof fn lemma_same_items_all(x: Seq<JsonView>, y: Seq<JsonView>, from: int)
    requires
        0 <= from,
        forall|i: int| from <= i < x.len() && i < y.len() ==> same_json(x[i], y[i]),
    ensures
        same_items_from(x, y, from),
    decreases x.len() - from,
{
    if from < x.len() && from < y.len() {
        assert(same_json(x[from], y[from]));
        lemma_same_items_all(x, y, from + 1);
    }
}

/// Of two lists of fields with distinct keys and one length, where every
/// key of the first is a key of the second, every key of the second is a
/// key of the first.
pub proof fn lemma_keys_cover(x: Seq<(Seq<char>, JsonView)>, y: Seq<(Seq<char>, JsonView)>)
    requires
        distinct_keys(x),
        distinct_keys(y),
        x.len() == y.len(),
        forall|i: int| 0 <= i < x.len() ==> field_index(y, #[trigger] x[i].0) is Some,
    ensures
        forall|j: int| 0 <= j < y.len() ==> field_index(x, #[trigger] y[j].0) is Some,
{
    let kx = keys_of(x);
    let ky = keys_of(y);
    assert(kx.no_duplicates()) by {
        assert forall|a: int, b: int| 0 <= a < kx.len() && 0 <= b < kx.len() && a != b implies kx[a]
            != kx[b] by {
            if a < b {
                assert(x[a].0 != x[b].0);
            } else {
                assert(x[b].0 != x[a].0);
            }
        }
    }
    assert(ky.no_duplicates()) by {
        assert forall|a: int, b: int| 0 <= a < ky.len() && 0 <= b < ky.len() && a != b implies ky[a]
            != ky[b] by {
            if a < b {
                assert(y[a].0 != y[b].0);
            } else {
                assert(y[b].0 != y[a].0);
            }
        }
    }
    kx.unique_seq_to_set();
    ky.unique_seq_to_set();
    vstd::seq_lib::seq_to_set_is_finite(kx);
    vstd::seq_lib::seq_to_set_is_finite(ky);
    assert(kx.to_set().subset_of(ky.to_set())) by {
        assert forall|k: Seq<char>| kx.to_set().contains(k) implies ky.to_set().contains(k) by {
            let i = choose|i: int| 0 <= i < kx.len() && kx[i] == k;
            assert(field_index(y, x[i].0) is Some);
            lemma_field_index_from(y, k, 0);
            let j = field_index(y, k)->Some_0;
            assert(ky[j] == k);
        }
    }
    vstd::set_lib::lemma_subset_equality(kx.to_set(), ky.to_set());
    assert forall|j: int| 0 <= j < y.len() implies field_index(x, #[trigger] y[j].0) is Some by {
        assert(ky[j] == y[j].0);
        assert(ky.to_set().contains(ky[j]));
        assert(kx.to_set().contains(y[j].0));
        let i = choose|i: int| 0 <= i < kx.len() && kx[i] == y[j].0;
        assert(x[i].0 == y[j].0);
        lemma_field_index_from(x, y[j].0, 0);
    }
}

/// The value under the key of a field, in fields with distinct keys, is
/// the value of that field.
pub proof fn lemma_get_own_field(fields: Seq<(Seq<char>, JsonView)>, i: int)
    requires
        distinct_keys(fields),
        0 <= i < fields.len(),
    ensures
        object_get(fields, fields[i].0) == Some(fields[i].1),
{
    assert forall|j: int| 0 <= j < i implies fields[j].0 != fields[i].0 by {
        assert(fields[j].0 != fields[i].0);
    }
    lemma_field_index_is(fields, fields[i].0, i);
}

/// Structural equality is symmetric on JSON values: of two well-formed
/// documents the first equals the second where the second equals the
/// first.
pub proof fn lemma_same_is_symmetric(a: JsonView, b: JsonView)
    requires
        well_formed(a),
        well_formed(b),
        same_json(a, b),
    ensures
        same_json(b, a),
    decreases a,
{
    match (a, b) {
        (JsonView::Array(x), JsonView::Array(y)) => {
            assert forall|i: int| 0 <= i < y.len() && i < x.len() implies same_json(y[i], x[i]) by {
                lemma_same_items_at(x, y, 0, i);
                lemma_items_well_formed_at(x, x.len() as int, i);
                lemma_items_well_formed_at(y, y.len() as int, i);
                assert(decreases_to!(a => a->Array_0));
                assert(decreases_to!(x => x[i]));
                lemma_same_is_symmetric(x[i], y[i]);
            }
            lemma_same_items_all(y, x, 0);
        },
        (JsonView::Object(x), JsonView::Object(y)) => {
            assert forall|i: int| 0 <= i < x.len() implies field_index(y, #[trigger] x[i].0)
                is Some by {
                lemma_same_fields_at(x, y, 0, i);
            }
            lemma_keys_cover(x, y);
            assert forall|j: int| 0 <= j < y.len() implies field_matches(y, x, j) by {
                lemma_field_index_from(x, y[j].0, 0);
                let i = field_index(x, y[j].0)->Some_0;
                lemma_same_fields_at(x, y, 0, i);
                lemma_get_own_field(y, j);
                lemma_get_own_field(x, i);
                lemma_fields_well_formed_at(x, x.len() as int, i);
                lemma_fields_well_formed_at(y, y.len() as int, j);
                assert(decreases_to!(a => a->Object_0));
                assert(decreases_to!(x => x[i]));
                assert(decreases_to!(x[i] => x[i].1));
                lemma_same_is_symmetric(x[i].1, y[j].1);
            }
            lemma_same_fields_all(y, x, 0);
        },
        _ => {},
    }
}

/// Whether no two fields have the same key.
pub fn keys_are_distinct(fields: &Vec<(String, Json)>) -> (r: bool)
    ensures
        r == distinct_keys(fields_view(fields@)),
{
    let mut i: usize = 0;
    while i < fields.len()
        invariant
            i <= fields.len(),
            forall|a: int, b: int|
                #![trigger fields@[a], fields@[b]]
                0 <= a < b < fields@.len() && a < i ==> fields@[a].0@ != fields@[b].0@,
        decreases fields.len() - i,
    {
        let mut j: usize = i + 1;
        while j < fields.len()
            invariant
                i < j <= fields.len(),
                forall|a: int, b: int|
                    #![trigger fields@[a], fields@[b]]
                    0 <= a < b < fields@.len() && a < i ==> fields@[a].0@ != fields@[b].0@,
                forall|b: int| i < b < j ==> fields@[i as int].0@ != (#[trigger] fields@[b]).0@,
            decreases fields.len() - j,
        {
            if crate::text::same_text(fields[i].0.as_str(), fields[j].0.as_str()) {
                proof {
                    let view = fields_view(fields@);
                    assert(view[i as int].0 == view[j as int].0);
                }
                return false;
            }
            j += 1;
        }
        i += 1;
    }
    proof {
        let view = fields_view(fields@);
        assert forall|a: int, b: int| 0 <= a < b < view.len() implies view[a].0 != view[b].0 by {
            assert(fields@[a].0@ != fields@[b].0@);
        }
    }
    true
}

impl Json {
    /// Whether the document is a JSON value: no object in it has a key
    /// twice, and every float in it is finite.
    pub fn is_well_formed(&self) -> (r: bool)
        ensures
            r == well_formed(self@),
        decreases self,
    {
        match self {
            Json::Number(n) => match n.value {
                NumberValue::Float(bits) => (bits & 0x7FFF_FFFF_FFFF_FFFF) < 0x7FF0_0000_0000_0000,
                _ => true,
            },
            Json::Array(items) => {
                proof {
                    lemma_array_view(*self);
                }
                let mut i: usize = 0;
                while i < items.len()
                    invariant
                        i <= items.len(),
                        *self == Json::Array(*items),
                        self@ == JsonView::Array(items_view(items@)),
                        items_well_formed(items_view(items@), i as int),
                    decreases items.len() - i,
                {
                    proof {
                        assert(decreases_to!(*self => self->Array_0));
                        assert(decreases_to!(*items => items@));
                        assert(decreases_to!(items@ => items@[i as int]));
                        assert(items_view(items@)[i as int] == items@[i as int]@);
                    }
                    if !items[i].is_well_formed() {
                        proof {
                            if items_well_formed(items_view(items@), items@.len() as int) {
                                lemma_items_well_formed_at(
                                    items_view(items@),
                                    items@.len() as int,
                                    i as int,
                                );
                            }
                        }
                        return false;
                    }
                    i += 1;
                }
                true
            },
            Json::Object(fields) => {
                proof {
                    lemma_object_view(*self);
                }
                if !keys_are_distinct(fields) {
                    return false;
                }
                let mut i: usize = 0;
                while i < fields.len()
                    invariant
                        i <= fields.len(),
                        *self == Json::Object(*fields),
                        self@ == JsonView::Object(fields_view(fields@)),
                        distinct_keys(fields_view(fields@)),
                        fields_well_formed(fields_view(fields@), i as int),
                    decreases fields.len() - i,
                {
                    proof {
                        assert(decreases_to!(*self => self->Object_0));
                        assert(decreases_to!(*fields => fields@));
                        assert(decreases_to!(fields@ => fields@[i as int]));
                        assert(decreases_to!(fields@[i as int] => fields@[i as int].1));
                        assert(fields_view(fields@)[i as int].1 == fields@[i as int].1@);
                    }
                    if !fields[i].1.is_well_formed() {
                        proof {
                            if fields_well_formed(fields_view(fields@), fields@.len() as int) {
                                lemma_fields_well_formed_at(
                                    fields_view(fields@),
                                    fields@.len() as int,
                                    i as int,
                                );
                            }
                        }
                        return false;
                    }
                    i += 1;
                }
                true
            },
            _ => true,
        }
    }
}

} // verus!
