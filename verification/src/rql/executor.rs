//! Evaluating RQL queries over documents: the WHERE filter, ORDER BY, and
//! LIMIT/OFFSET pagination.
use vstd::prelude::*;
use crate::rql::ast::{Comparison, ComparisonOp, Condition, FieldPath, LimitClause, Number, PathSegment,
    Query, SortDirection, Value, MAX_SCALE};
use crate::rql::builder::and_all;
use crate::rql::pattern::{like_holds, matches_like};
use crate::llm::health::{elapsed_since, instant_now, whole_millis};
use crate::table::Table;
use crate::rql::ast::first_field_of;
use crate::text::{key_lt, lemma_key_lt_asymmetric, lemma_key_lt_total, lemma_key_lt_transitive,
    chars_of, opt_str, str_eq, str_lt, string_eq, strs, to_string};

verus! {

impl View for Value {
    type V = Value;

    open spec fn view(&self) -> Value {
        *self
    }
}

/// The fields of a document that queries read.
pub struct DocumentRecord {
    pub id: String,
    pub title: String,
    pub table_id: String,
    pub author: Option<String>,
    pub source_url: Option<String>,
    pub language: Option<String>,
    pub version: Option<String>,
    pub tags: Vec<String>,
    /// Metadata values by key.
    pub metadata: Table<Value>,
    /// Creation time (microseconds since the Unix epoch).
    pub created_at: i64,
    /// Last update time (microseconds since the Unix epoch).
    pub updated_at: i64,
}

// ==================== Values ====================

/// `10^e`.
pub open spec fn pow10(e: nat) -> int
    decreases e,
{
    if e == 0 {
        1
    } else {
        10 * pow10((e - 1) as nat)
    }
}

/// `a` is numerically below `b`.
pub open spec fn num_lt(a: Number, b: Number) -> bool {
    a.m() * pow10(b.s() as nat) < b.m() * pow10(a.s() as nat)
}

/// `a` and `b` are numerically equal.
pub open spec fn num_eq(a: Number, b: Number) -> bool {
    a.m() * pow10(b.s() as nat) == b.m() * pow10(a.s() as nat)
}

/// Equality of values: numbers by their numeric value, strings by their
/// characters, arrays element by element.
pub open spec fn value_equal(a: Value, b: Value) -> bool
    decreases a,
{
    match (a, b) {
        (Value::Null, Value::Null) => true,
        (Value::Bool(x), Value::Bool(y)) => x == y,
        (Value::Number(x), Value::Number(y)) => num_eq(x, y),
        (Value::String(x), Value::String(y)) => x@ == y@,
        (Value::Array(x), Value::Array(y)) => x@.len() == y@.len() && forall|i: int|
            0 <= i < x@.len() ==> value_equal(#[trigger] x@[i], y@[i]),
        _ => false,
    }
}

// ==================== Numbers ====================

/// `10^e` is at least 1 and grows with `e`.
proof fn lemma_pow10_monotone(e: nat, f: nat)
    requires
        e <= f,
    ensures
        1 <= pow10(e) <= pow10(f),
    decreases f,
{
    if f > 0 {
        if e == f {
            lemma_pow10_monotone((f - 1) as nat, (f - 1) as nat);
        } else {
            lemma_pow10_monotone(e, (f - 1) as nat);
        }
    }
}

/// `10^e` for `e <= MAX_SCALE` fits comfortably in an `i128`.
proof fn lemma_pow10_bound(e: nat)
    requires
        e <= MAX_SCALE,
    ensures
        1 <= pow10(e) <= 1_000_000_000_000_000_000,
{
    lemma_pow10_monotone(e, 18);
    reveal_with_fuel(pow10, 19);
    assert(pow10(18) == 1_000_000_000_000_000_000);
}

/// `10^e` for `e <= MAX_SCALE`.
fn pow10_of(e: u32) -> (r: i128)
    requires
        e <= MAX_SCALE,
    ensures
        r == pow10(e as nat),
        1 <= r <= 1_000_000_000_000_000_000,
{
    let mut r: i128 = 1;
    let mut i: u32 = 0;
    while i < e
        invariant
            i <= e <= MAX_SCALE,
            r == pow10(i as nat),
        decreases e - i,
    {
        proof {
            lemma_pow10_bound((i + 1) as nat);
        }
        r = r * 10;
        i = i + 1;
    }
    proof {
        lemma_pow10_bound(e as nat);
    }
    r
}

/// A mantissa times a power of ten up to `10^18` fits in an `i128`.
proof fn lemma_scaled_bound(m: int, p: int)
    by (nonlinear_arith)
    requires
        -0x8000_0000_0000_0000 <= m < 0x8000_0000_0000_0000,
        1 <= p <= 1_000_000_000_000_000_000,
    ensures
        -0x8000_0000_0000_0000_0000_0000_0000_0000 < m * p < 0x7fff_ffff_ffff_ffff_ffff_ffff_ffff_ffff,
{
}

/// `n`'s mantissa scaled by `10^e`.
fn scaled(n: &Number, e: u32) -> (r: i128)
    requires
        e <= MAX_SCALE,
    ensures
        r == n.m() * pow10(e as nat),
{
    let p = pow10_of(e);
    let m = n.mantissa();
    proof {
        lemma_scaled_bound(m as int, p as int);
    }
    (m as i128) * p
}

/// Whether `a < b` numerically.
pub fn number_lt(a: &Number, b: &Number) -> (r: bool)
    ensures
        r == num_lt(*a, *b),
{
    let sa = a.scale();
    let sb = b.scale();
    scaled(a, sb) < scaled(b, sa)
}

/// Whether `a == b` numerically.
pub fn number_eq(a: &Number, b: &Number) -> (r: bool)
    ensures
        r == num_eq(*a, *b),
{
    let sa = a.scale();
    let sb = b.scale();
    scaled(a, sb) == scaled(b, sa)
}

/// Whether two values are equal in the sense of `value_equal`.
pub fn value_eq(a: &Value, b: &Value) -> (r: bool)
    ensures
        r == value_equal(*a, *b),
    decreases a,
{
    match (a, b) {
        (Value::Null, Value::Null) => true,
        (Value::Bool(x), Value::Bool(y)) => *x == *y,
        (Value::Number(x), Value::Number(y)) => number_eq(x, y),
        (Value::String(x), Value::String(y)) => str_eq(x.as_str(), y.as_str()),
        (Value::Array(x), Value::Array(y)) => {
            if x.len() != y.len() {
                return false;
            }
            let mut i: usize = 0;
            while i < x.len()
                invariant
                    i <= x@.len() == y@.len(),
                    *a == Value::Array(*x),
                    *b == Value::Array(*y),
                    forall|j: int| 0 <= j < i ==> value_equal(#[trigger] x@[j], y@[j]),
                decreases x@.len() - i,
            {
                proof {
                    assert(decreases_to!(*a => (*a)->Array_0));
                    assert(decreases_to!(*x => x@));
                    assert(decreases_to!(x@ => x@[i as int]));
                }
                if !value_eq(&x[i], &y[i]) {
                    return false;
                }
                i = i + 1;
            }
            true
        },
        _ => false,
    }
}

// ==================== Fields ====================

/// What a field path reads from a document.
pub enum FieldView {
    /// A string field.
    Text(Seq<char>),
    /// The tags, as an array of strings.
    Texts(Seq<Seq<char>>),
    /// A metadata value.
    Stored(Value),
}

/// A string field that may be absent.
pub open spec fn opt_text(o: Option<String>) -> Option<FieldView> {
    match o {
        Some(s) => Some(FieldView::Text(s@)),
        None => None,
    }
}

/// The value that `path` reads from `doc`: `id`, `title`, `table_id`,
/// `author`, `source_url`, `language`, `version`, `tags`, or
/// `metadata.<key>`; nothing for any other path or for an absent field.
pub open spec fn field_view(doc: DocumentRecord, path: Seq<PathSegment>) -> Option<FieldView> {
    match first_field_of(path) {
        None => None,
        Some(name) => {
            if name == "id"@ {
                Some(FieldView::Text(doc.id@))
            } else if name == "title"@ {
                Some(FieldView::Text(doc.title@))
            } else if name == "table_id"@ {
                Some(FieldView::Text(doc.table_id@))
            } else if name == "author"@ {
                opt_text(doc.author)
            } else if name == "source_url"@ {
                opt_text(doc.source_url)
            } else if name == "language"@ {
                opt_text(doc.language)
            } else if name == "version"@ {
                opt_text(doc.version)
            } else if name == "tags"@ {
                Some(FieldView::Texts(strs(doc.tags@)))
            } else if name == "metadata"@ {
                if path.len() > 1 {
                    match path[1] {
                        PathSegment::Field(key) => {
                            if doc.metadata@.contains_key(key@) {
                                Some(FieldView::Stored(doc.metadata@[key@]))
                            } else {
                                None
                            }
                        },
                        PathSegment::Index(_) => None,
                    }
                } else {
                    None
                }
            } else {
                None
            }
        },
    }
}

/// A field of a document, borrowed from it.
enum FieldRef<'a> {
    Text(&'a str),
    Texts(&'a Vec<String>),
    Stored(&'a Value),
}

/// The view of a borrowed field.
spec fn ref_view(f: FieldRef) -> FieldView {
    match f {
        FieldRef::Text(s) => FieldView::Text(s@),
        FieldRef::Texts(v) => FieldView::Texts(strs(v@)),
        FieldRef::Stored(v) => FieldView::Stored(*v),
    }
}

/// The view of an optional borrowed field.
spec fn field_ref_view(f: Option<FieldRef>) -> Option<FieldView> {
    match f {
        Some(g) => Some(ref_view(g)),
        None => None,
    }
}

/// An optional string field, borrowed.
fn opt_text_ref<'a>(o: &'a Option<String>) -> (r: Option<FieldRef<'a>>)
    ensures
        field_ref_view(r) == opt_text(*o),
{
    match o {
        Some(s) => Some(FieldRef::Text(s.as_str())),
        None => None,
    }
}

/// The field that `path` reads from `doc`.
fn get_field_value<'a>(doc: &'a DocumentRecord, path: &FieldPath) -> (r: Option<FieldRef<'a>>)
    ensures
        field_ref_view(r) == field_view(*doc, path.segments@),
{
    let name = match path.first_field() {
        Some(n) => n,
        None => return None,
    };
    if str_eq(name, "id") {
        Some(FieldRef::Text(doc.id.as_str()))
    } else if str_eq(name, "title") {
        Some(FieldRef::Text(doc.title.as_str()))
    } else if str_eq(name, "table_id") {
        Some(FieldRef::Text(doc.table_id.as_str()))
    } else if str_eq(name, "author") {
        opt_text_ref(&doc.author)
    } else if str_eq(name, "source_url") {
        opt_text_ref(&doc.source_url)
    } else if str_eq(name, "language") {
        opt_text_ref(&doc.language)
    } else if str_eq(name, "version") {
        opt_text_ref(&doc.version)
    } else if str_eq(name, "tags") {
        Some(FieldRef::Texts(&doc.tags))
    } else if str_eq(name, "metadata") {
        if path.segments.len() > 1 {
            match &path.segments[1] {
                PathSegment::Field(key) => match doc.metadata.get(key.as_str()) {
                    Some(v) => Some(FieldRef::Stored(v)),
                    None => None,
                },
                PathSegment::Index(_) => None,
            }
        } else {
            None
        }
    } else {
        None
    }
}

// ==================== Comparisons ====================

/// `v` is the string `s`.
pub open spec fn is_text(v: Value, s: Seq<char>) -> bool {
    match v {
        Value::String(t) => t@ == s,
        _ => false,
    }
}

/// A field equals a value: a string field equals that string, the tags
/// equal an array of the same strings in the same order, and a metadata
/// value equals a value by `value_equal`.
pub open spec fn field_equals(f: FieldView, v: Value) -> bool {
    match f {
        FieldView::Text(s) => is_text(v, s),
        FieldView::Texts(ts) => match v {
            Value::Array(items) => items@.len() == ts.len() && forall|i: int|
                0 <= i < ts.len() ==> is_text(#[trigger] items@[i], ts[i]),
            _ => false,
        },
        FieldView::Stored(x) => value_equal(x, v),
    }
}

/// An ordering comparison between two numbers.
pub open spec fn number_holds(op: ComparisonOp, a: Number, b: Number) -> bool {
    match op {
        ComparisonOp::Lt => num_lt(a, b),
        ComparisonOp::Gt => num_lt(b, a),
        ComparisonOp::Le => !num_lt(b, a),
        ComparisonOp::Ge => !num_lt(a, b),
        _ => false,
    }
}

/// The text of a field that holds a string.
pub open spec fn text_of(f: Option<FieldView>) -> Option<Seq<char>> {
    match f {
        Some(FieldView::Text(s)) => Some(s),
        Some(FieldView::Stored(Value::String(s))) => Some(s@),
        _ => None,
    }
}

/// The document carries the tag `t`.
pub open spec fn has_tag(doc: DocumentRecord, t: Seq<char>) -> bool {
    strs(doc.tags@).contains(t)
}

/// `v` is a string that the document carries as a tag.
pub open spec fn is_tag_of(doc: DocumentRecord, v: Value) -> bool {
    match v {
        Value::String(t) => has_tag(doc, t@),
        _ => false,
    }
}

/// `CONTAINS ALL`: the path is `tags`, the value an array, and each of its
/// items a string that the document carries as a tag.
pub open spec fn contains_all_holds(doc: DocumentRecord, path: Seq<PathSegment>, v: Value) -> bool {
    first_field_of(path) == Some("tags"@) && match v {
        Value::Array(items) => forall|i: int|
            0 <= i < items@.len() ==> is_tag_of(doc, #[trigger] items@[i]),
        _ => false,
    }
}

/// `CONTAINS ANY`: the path is `tags`, the value an array, and one of its
/// items a string that the document carries as a tag.
pub open spec fn contains_any_holds(doc: DocumentRecord, path: Seq<PathSegment>, v: Value) -> bool {
    first_field_of(path) == Some("tags"@) && match v {
        Value::Array(items) => exists|i: int|
            0 <= i < items@.len() && is_tag_of(doc, #[trigger] items@[i]),
        _ => false,
    }
}

/// The field equals the value (a missing field equals nothing).
pub open spec fn eq_holds(f: Option<FieldView>, v: Value) -> bool {
    match f {
        Some(g) => field_equals(g, v),
        None => false,
    }
}

/// Whether `doc` satisfies the comparison `comp`. Ordering operators hold
/// only between a numeric metadata value and a number; `LIKE` only between
/// a string field and a string pattern; `IN` only for a present field and
/// an array that holds an item equal to it.
pub open spec fn comparison_holds(doc: DocumentRecord, comp: Comparison) -> bool {
    let f = field_view(doc, comp.left.segments@);
    match comp.operator {
        ComparisonOp::Eq => eq_holds(f, comp.right),
        ComparisonOp::Ne => !eq_holds(f, comp.right),
        ComparisonOp::Lt | ComparisonOp::Gt | ComparisonOp::Le | ComparisonOp::Ge => match (
            f,
            comp.right,
        ) {
            (Some(FieldView::Stored(Value::Number(a))), Value::Number(b)) => number_holds(
                comp.operator,
                a,
                b,
            ),
            _ => false,
        },
        ComparisonOp::Like => match (text_of(f), comp.right) {
            (Some(s), Value::String(p)) => like_holds(s, p@),
            _ => false,
        },
        ComparisonOp::In => match (f, comp.right) {
            (Some(g), Value::Array(items)) => exists|i: int|
                0 <= i < items@.len() && field_equals(g, #[trigger] items@[i]),
            _ => false,
        },
        ComparisonOp::ContainsAll => contains_all_holds(doc, comp.left.segments@, comp.right),
        ComparisonOp::ContainsAny => contains_any_holds(doc, comp.left.segments@, comp.right),
        ComparisonOp::IsNull => f is None,
        ComparisonOp::IsNotNull => f is Some,
    }
}

/// Whether a borrowed field equals a value.
fn field_eq(f: &FieldRef, v: &Value) -> (r: bool)
    ensures
        r == field_equals(ref_view(*f), *v),
{
    match f {
        FieldRef::Text(s) => match v {
            Value::String(t) => str_eq(t.as_str(), s),
            _ => false,
        },
        FieldRef::Texts(tags) => match v {
            Value::Array(items) => {
                if items.len() != tags.len() {
                    return false;
                }
                let mut i: usize = 0;
                while i < items.len()
                    invariant
                        i <= items@.len() == tags@.len(),
                        *v == Value::Array(*items),
                        ref_view(*f) == FieldView::Texts(strs(tags@)),
                        forall|j: int| 0 <= j < i ==> is_text(#[trigger] items@[j], tags@[j]@),
                    decreases items@.len() - i,
                {
                    let same = match &items[i] {
                        Value::String(t) => string_eq(t, &tags[i]),
                        _ => false,
                    };
                    if !same {
                        assert(!is_text(items@[i as int], strs(tags@)[i as int]));
                        return false;
                    }
                    i = i + 1;
                }
                assert(forall|j: int| 0 <= j < i ==> #[trigger] strs(tags@)[j] == tags@[j]@);
                true
            },
            _ => false,
        },
        FieldRef::Stored(x) => value_eq(x, v),
    }
}

/// An optional string field's text, borrowed.
fn text_ref<'a>(f: &Option<FieldRef<'a>>) -> (r: Option<&'a str>)
    ensures
        match r {
            Some(s) => text_of(field_ref_view(*f)) == Some(s@),
            None => text_of(field_ref_view(*f)) is None,
        },
{
    match f {
        Some(FieldRef::Text(s)) => Some(*s),
        Some(FieldRef::Stored(Value::String(s))) => Some(s.as_str()),
        _ => None,
    }
}

/// Whether the document carries the tag `t`.
fn carries_tag(doc: &DocumentRecord, t: &String) -> (r: bool)
    ensures
        r == has_tag(*doc, t@),
{
    let mut i: usize = 0;
    while i < doc.tags.len()
        invariant
            i <= doc.tags@.len(),
            forall|j: int| 0 <= j < i ==> doc.tags@[j]@ != t@,
        decreases doc.tags@.len() - i,
    {
        if string_eq(&doc.tags[i], t) {
            assert(strs(doc.tags@)[i as int] == t@);
            return true;
        }
        i = i + 1;
    }
    assert(!strs(doc.tags@).contains(t@)) by {
        if strs(doc.tags@).contains(t@) {
            let k = choose|k: int| 0 <= k < strs(doc.tags@).len() && strs(doc.tags@)[k] == t@;
            assert(doc.tags@[k]@ == t@);
        }
    }
    false
}

/// Whether `v` is a string that the document carries as a tag.
fn tag_item(doc: &DocumentRecord, v: &Value) -> (r: bool)
    ensures
        r == is_tag_of(*doc, *v),
{
    match v {
        Value::String(t) => carries_tag(doc, t),
        _ => false,
    }
}

/// Whether the path names the tags.
fn names_tags(path: &FieldPath) -> (r: bool)
    ensures
        r == (first_field_of(path.segments@) == Some("tags"@)),
{
    match path.first_field() {
        Some(name) => str_eq(name, "tags"),
        None => false,
    }
}

/// Every item is a string that the document carries as a tag.
fn all_tag_items(doc: &DocumentRecord, items: &Vec<Value>) -> (r: bool)
    ensures
        r == forall|i: int| 0 <= i < items@.len() ==> is_tag_of(*doc, #[trigger] items@[i]),
{
    let mut i: usize = 0;
    while i < items.len()
        invariant
            i <= items@.len(),
            forall|j: int| 0 <= j < i ==> is_tag_of(*doc, #[trigger] items@[j]),
        decreases items@.len() - i,
    {
        if !tag_item(doc, &items[i]) {
            return false;
        }
        i = i + 1;
    }
    true
}

/// Some item is a string that the document carries as a tag.
fn any_tag_item(doc: &DocumentRecord, items: &Vec<Value>) -> (r: bool)
    ensures
        r == exists|i: int| 0 <= i < items@.len() && is_tag_of(*doc, #[trigger] items@[i]),
{
    let mut i: usize = 0;
    while i < items.len()
        invariant
            i <= items@.len(),
            forall|j: int| 0 <= j < i ==> !is_tag_of(*doc, #[trigger] items@[j]),
        decreases items@.len() - i,
    {
        if tag_item(doc, &items[i]) {
            return true;
        }
        i = i + 1;
    }
    false
}

/// `CONTAINS ALL` on a document.
fn matches_contains_all(doc: &DocumentRecord, path: &FieldPath, v: &Value) -> (r: bool)
    ensures
        r == contains_all_holds(*doc, path.segments@, *v),
{
    if !names_tags(path) {
        return false;
    }
    match v {
        Value::Array(items) => all_tag_items(doc, items),
        _ => false,
    }
}

/// `CONTAINS ANY` on a document.
fn matches_contains_any(doc: &DocumentRecord, path: &FieldPath, v: &Value) -> (r: bool)
    ensures
        r == contains_any_holds(*doc, path.segments@, *v),
{
    if !names_tags(path) {
        return false;
    }
    match v {
        Value::Array(items) => any_tag_item(doc, items),
        _ => false,
    }
}

/// Some item equals the field.
fn any_equal_item(g: &FieldRef, items: &Vec<Value>) -> (r: bool)
    ensures
        r == exists|i: int| 0 <= i < items@.len() && field_equals(ref_view(*g), #[trigger] items@[i]),
{
    let mut i: usize = 0;
    while i < items.len()
        invariant
            i <= items@.len(),
            forall|j: int| 0 <= j < i ==> !field_equals(ref_view(*g), #[trigger] items@[j]),
        decreases items@.len() - i,
    {
        if field_eq(g, &items[i]) {
            return true;
        }
        i = i + 1;
    }
    false
}

/// `IN`: a present field equal to an item of an array.
fn matches_in(f: &Option<FieldRef>, v: &Value) -> (r: bool)
    ensures
        r == match (field_ref_view(*f), *v) {
            (Some(g), Value::Array(items)) => exists|i: int|
                0 <= i < items@.len() && field_equals(g, #[trigger] items@[i]),
            _ => false,
        },
{
    match (f, v) {
        (Some(g), Value::Array(items)) => any_equal_item(g, items),
        _ => false,
    }
}

/// An ordering comparison between a field and a value.
fn matches_order(op: ComparisonOp, f: &Option<FieldRef>, v: &Value) -> (r: bool)
    requires
        op == ComparisonOp::Lt || op == ComparisonOp::Gt || op == ComparisonOp::Le || op
            == ComparisonOp::Ge,
    ensures
        r == match (field_ref_view(*f), *v) {
            (Some(FieldView::Stored(Value::Number(a))), Value::Number(b)) => number_holds(op, a, b),
            _ => false,
        },
{
    match (f, v) {
        (Some(FieldRef::Stored(Value::Number(a))), Value::Number(b)) => match op {
            ComparisonOp::Lt => number_lt(a, b),
            ComparisonOp::Gt => number_lt(b, a),
            ComparisonOp::Le => !number_lt(b, a),
            _ => !number_lt(a, b),
        },
        _ => false,
    }
}

/// Whether `doc` satisfies the comparison `comp`.
pub fn matches_comparison(doc: &DocumentRecord, comp: &Comparison) -> (r: bool)
    ensures
        r == comparison_holds(*doc, *comp),
{
    let f = get_field_value(doc, &comp.left);
    match comp.operator {
        ComparisonOp::Eq => match &f {
            Some(g) => field_eq(g, &comp.right),
            None => false,
        },
        ComparisonOp::Ne => match &f {
            Some(g) => !field_eq(g, &comp.right),
            None => true,
        },
        ComparisonOp::Lt => matches_order(ComparisonOp::Lt, &f, &comp.right),
        ComparisonOp::Gt => matches_order(ComparisonOp::Gt, &f, &comp.right),
        ComparisonOp::Le => matches_order(ComparisonOp::Le, &f, &comp.right),
        ComparisonOp::Ge => matches_order(ComparisonOp::Ge, &f, &comp.right),
        ComparisonOp::Like => match (text_ref(&f), &comp.right) {
            (Some(s), Value::String(p)) => matches_like(s, p.as_str()),
            _ => false,
        },
        ComparisonOp::In => matches_in(&f, &comp.right),
        ComparisonOp::ContainsAll => matches_contains_all(doc, &comp.left, &comp.right),
        ComparisonOp::ContainsAny => matches_contains_any(doc, &comp.left, &comp.right),
        ComparisonOp::IsNull => f.is_none(),
        ComparisonOp::IsNotNull => f.is_some(),
    }
}

// ==================== Conditions ====================

/// Whether `doc` satisfies the condition `cond`.
pub open spec fn condition_holds(doc: DocumentRecord, cond: Condition) -> bool
    decreases cond,
{
    match cond {
        Condition::Comparison(c) => comparison_holds(doc, c),
        Condition::And(l, r) => condition_holds(doc, *l) && condition_holds(doc, *r),
        Condition::Or(l, r) => condition_holds(doc, *l) || condition_holds(doc, *r),
        Condition::Not(c) => !condition_holds(doc, *c),
    }
}

/// Whether `doc` satisfies the condition `cond`.
pub fn matches_condition(doc: &DocumentRecord, cond: &Condition) -> (r: bool)
    ensures
        r == condition_holds(*doc, *cond),
    decreases cond,
{
    match cond {
        Condition::Comparison(c) => matches_comparison(doc, c),
        Condition::And(l, r) => matches_condition(doc, l) && matches_condition(doc, r),
        Condition::Or(l, r) => matches_condition(doc, l) || matches_condition(doc, r),
        Condition::Not(c) => !matches_condition(doc, c),
    }
}

/// The conditions that a query builder joins with AND all have to hold: a
/// document satisfies the joined condition exactly when it satisfies each
/// of them.
pub proof fn law_joined_conditions(doc: DocumentRecord, cs: Seq<Condition>)
    requires
        cs.len() > 0,
    ensures
        condition_holds(doc, and_all(cs)) <==> forall|i: int|
            0 <= i < cs.len() ==> condition_holds(doc, #[trigger] cs[i]),
    decreases cs.len(),
{
    if cs.len() > 1 {
        let rest = cs.drop_last();
        law_joined_conditions(doc, rest);
        assert(cs.last() == cs[cs.len() - 1]);
        if condition_holds(doc, and_all(cs)) {
            assert forall|i: int| 0 <= i < cs.len() implies condition_holds(doc, #[trigger] cs[i]) by {
                if i < cs.len() - 1 {
                    assert(cs[i] == rest[i]);
                }
            }
        }
        if forall|i: int| 0 <= i < cs.len() ==> condition_holds(doc, #[trigger] cs[i]) {
            assert forall|i: int| 0 <= i < rest.len() implies condition_holds(doc, #[trigger] rest[i]) by {
                assert(cs[i] == rest[i]);
            }
        }
    }
}

/// Whether a query, run over the table with ID `table`, selects `doc`: the
/// document belongs to that table and satisfies the query's `WHERE`
/// condition, if any.
pub open spec fn selects(query: Query, table: Seq<char>, doc: DocumentRecord) -> bool {
    &&& doc.table_id@ == table
    &&& match query.where_clause {
        Some(w) => condition_holds(doc, w.condition),
        None => true,
    }
}

/// Whether a query, run over the table with ID `table`, selects `doc`.
pub fn query_selects(query: &Query, table: &str, doc: &DocumentRecord) -> (r: bool)
    ensures
        r == selects(*query, table@, *doc),
{
    if !str_eq(doc.table_id.as_str(), table) {
        return false;
    }
    match &query.where_clause {
        Some(w) => matches_condition(doc, &w.condition),
        None => true,
    }
}

// ==================== Filtering ====================

/// The documents that a query selects, in their order.
pub open spec fn selected(query: Query, table: Seq<char>, docs: Seq<DocumentRecord>) -> Seq<DocumentRecord>
    decreases docs.len(),
{
    if docs.len() == 0 {
        Seq::empty()
    } else if selects(query, table, docs.last()) {
        selected(query, table, docs.drop_last()).push(docs.last())
    } else {
        selected(query, table, docs.drop_last())
    }
}

/// The documents that the query, run over the table with ID `table`,
/// selects, in their order.
pub fn filter_documents(query: &Query, table: &str, docs: Vec<DocumentRecord>) -> (r: Vec<DocumentRecord>)
    ensures
        r@ == selected(*query, table@, docs@),
{
    let ghost all = docs@;
    let mut out: Vec<DocumentRecord> = Vec::new();
    for d in it: docs.into_iter()
        invariant
            it.seq() == all,
            out@ == selected(*query, table@, all.take(it.index() as int)),
    {
        proof {
            assert(all.take(it.index() + 1).drop_last() =~= all.take(it.index() as int));
        }
        if query_selects(query, table, &d) {
            out.push(d);
        }
    }
    assert(all.take(all.len() as int) =~= all);
    out
}

// ==================== Ordering ====================

/// The document field that `ORDER BY` sorts on.
#[derive(Debug, Clone, Copy, PartialEq, Eq, Structural)]
pub enum SortKey {
    Title,
    CreatedAt,
    UpdatedAt,
    Author,
    /// Any other field: every document sorts equal.
    Unordered,
}

/// The sort key that an `ORDER BY` path names.
pub open spec fn sort_key_of(path: Seq<PathSegment>) -> SortKey {
    match first_field_of(path) {
        Some(name) => {
            if name == "title"@ {
                SortKey::Title
            } else if name == "created_at"@ {
                SortKey::CreatedAt
            } else if name == "updated_at"@ {
                SortKey::UpdatedAt
            } else if name == "author"@ {
                SortKey::Author
            } else {
                SortKey::Unordered
            }
        },
        None => SortKey::Unordered,
    }
}

/// The order of optional strings: nothing first, then strings in
/// lexicographic order.
pub open spec fn opt_key_lt(a: Option<Seq<char>>, b: Option<Seq<char>>) -> bool {
    match (a, b) {
        (None, Some(_)) => true,
        (Some(x), Some(y)) => key_lt(x, y),
        _ => false,
    }
}

/// `a` sorts strictly before `b` in ascending order of `key`.
pub open spec fn key_before(key: SortKey, a: DocumentRecord, b: DocumentRecord) -> bool {
    match key {
        SortKey::Title => key_lt(a.title@, b.title@),
        SortKey::CreatedAt => a.created_at < b.created_at,
        SortKey::UpdatedAt => a.updated_at < b.updated_at,
        SortKey::Author => opt_key_lt(opt_str(a.author), opt_str(b.author)),
        SortKey::Unordered => false,
    }
}

/// `a` sorts strictly before `b` by `key`, descending if `desc`.
pub open spec fn sorts_before(key: SortKey, desc: bool, a: DocumentRecord, b: DocumentRecord) -> bool {
    if desc {
        key_before(key, b, a)
    } else {
        key_before(key, a, b)
    }
}

/// Where a stable insertion puts `x` into `s`: after the last element that
/// `x` does not sort before.
pub open spec fn insert_pos(s: Seq<DocumentRecord>, x: DocumentRecord, key: SortKey, desc: bool) -> int
    decreases s.len(),
{
    if s.len() == 0 {
        0
    } else if sorts_before(key, desc, x, s.last()) {
        insert_pos(s.drop_last(), x, key, desc)
    } else {
        s.len() as int
    }
}

/// `s` sorted stably by `key`, descending if `desc`: each element is
/// inserted, in turn, after the last earlier one that it does not sort
/// before.
pub open spec fn sorted_by(s: Seq<DocumentRecord>, key: SortKey, desc: bool) -> Seq<DocumentRecord>
    decreases s.len(),
{
    if s.len() == 0 {
        Seq::empty()
    } else {
        let r = sorted_by(s.drop_last(), key, desc);
        r.insert(insert_pos(r, s.last(), key, desc), s.last())
    }
}

/// `insert_pos` lies within the sequence.
pub proof fn lemma_insert_pos_range(s: Seq<DocumentRecord>, x: DocumentRecord, key: SortKey, desc: bool)
    ensures
        0 <= insert_pos(s, x, key, desc) <= s.len(),
    decreases s.len(),
{
    if s.len() > 0 {
        lemma_insert_pos_range(s.drop_last(), x, key, desc);
    }
}

/// Sorting keeps the number of elements.
pub proof fn lemma_sorted_len(s: Seq<DocumentRecord>, key: SortKey, desc: bool)
    ensures
        sorted_by(s, key, desc).len() == s.len(),
    decreases s.len(),
{
    if s.len() > 0 {
        lemma_sorted_len(s.drop_last(), key, desc);
        lemma_insert_pos_range(sorted_by(s.drop_last(), key, desc), s.last(), key, desc);
    }
}

/// `key_lt` is negatively transitive: if `a < c`, then `a < b` or `b < c`.
proof fn lemma_key_lt_split(a: Seq<char>, b: Seq<char>, c: Seq<char>)
    requires
        key_lt(a, c),
    ensures
        key_lt(a, b) || key_lt(b, c),
{
    if !key_lt(a, b) && !key_lt(b, c) {
        if a == b || b == c {
        } else {
            lemma_key_lt_total(a, b);
            lemma_key_lt_total(b, c);
            lemma_key_lt_transitive(c, b, a);
            lemma_key_lt_asymmetric(a, c);
        }
    }
}

/// The order between documents is asymmetric and negatively transitive:
/// a strict weak order.
proof fn lemma_sorts_before_weak(key: SortKey, desc: bool, a: DocumentRecord, b: DocumentRecord, c: DocumentRecord)
    ensures
        sorts_before(key, desc, a, b) ==> !sorts_before(key, desc, b, a),
        sorts_before(key, desc, a, c) ==> sorts_before(key, desc, a, b) || sorts_before(key, desc, b, c),
{
    let (x, y, z) = if desc {
        (c, b, a)
    } else {
        (a, b, c)
    };
    // In ascending terms: x, y, z (reversed when descending).
    match key {
        SortKey::Title => {
            if key_lt(a.title@, b.title@) {
                lemma_key_lt_asymmetric(a.title@, b.title@);
            }
            if key_lt(b.title@, a.title@) {
                lemma_key_lt_asymmetric(b.title@, a.title@);
            }
            if key_lt(x.title@, z.title@) {
                lemma_key_lt_split(x.title@, y.title@, z.title@);
            }
        },
        SortKey::Author => {
            let (pa, pb) = (opt_str(a.author), opt_str(b.author));
            if pa is Some && pb is Some {
                if key_lt(pa->0, pb->0) {
                    lemma_key_lt_asymmetric(pa->0, pb->0);
                }
                if key_lt(pb->0, pa->0) {
                    lemma_key_lt_asymmetric(pb->0, pa->0);
                }
            }
            let (px, py, pz) = (opt_str(x.author), opt_str(y.author), opt_str(z.author));
            if px is Some && py is Some && pz is Some && key_lt(px->0, pz->0) {
                lemma_key_lt_split(px->0, py->0, pz->0);
            }
        },
        _ => {},
    }
}

/// Every element from `insert_pos` on sorts after `x`, and the one just
/// before it (if any) does not.
proof fn lemma_insert_pos_facts(s: Seq<DocumentRecord>, x: DocumentRecord, key: SortKey, desc: bool)
    ensures
        0 <= insert_pos(s, x, key, desc) <= s.len(),
        forall|i: int|
            insert_pos(s, x, key, desc) <= i < s.len() ==> sorts_before(key, desc, x, #[trigger] s[i]),
        insert_pos(s, x, key, desc) > 0 ==> !sorts_before(
            key,
            desc,
            x,
            s[insert_pos(s, x, key, desc) - 1],
        ),
    decreases s.len(),
{
    if s.len() > 0 {
        let d = s.drop_last();
        lemma_insert_pos_facts(d, x, key, desc);
        if sorts_before(key, desc, x, s.last()) {
            assert forall|i: int| insert_pos(s, x, key, desc) <= i < s.len() implies sorts_before(
                key,
                desc,
                x,
                #[trigger] s[i],
            ) by {
                if i < s.len() - 1 {
                    assert(s[i] == d[i]);
                }
            }
            if insert_pos(s, x, key, desc) > 0 {
                assert(s[insert_pos(s, x, key, desc) - 1] == d[insert_pos(s, x, key, desc) - 1]);
            }
        }
    }
}

/// No element of `s` sorts before an earlier one.
pub open spec fn is_ordered(s: Seq<DocumentRecord>, key: SortKey, desc: bool) -> bool {
    forall|i: int, j: int| 0 <= i < j < s.len() ==> !sorts_before(key, desc, #[trigger] s[j], #[trigger] s[i])
}

/// Sorting yields an ordered sequence: no document sorts before one that
/// precedes it.
pub proof fn law_sort_orders(s: Seq<DocumentRecord>, key: SortKey, desc: bool)
    ensures
        is_ordered(sorted_by(s, key, desc), key, desc),
    decreases s.len(),
{
    if s.len() > 0 {
        let r = sorted_by(s.drop_last(), key, desc);
        let x = s.last();
        let p = insert_pos(r, x, key, desc);
        law_sort_orders(s.drop_last(), key, desc);
        lemma_insert_pos_facts(r, x, key, desc);
        r.insert_ensures(p, x);
        let n = r.insert(p, x);
        assert(sorted_by(s, key, desc) == n);
        // Nothing before position p sorts after x.
        assert forall|i: int| 0 <= i < p implies !sorts_before(key, desc, x, #[trigger] r[i]) by {
            if i < p - 1 {
                lemma_sorts_before_weak(key, desc, x, r[p - 1], r[i]);
            }
        }
        assert forall|i: int, j: int| 0 <= i < j < n.len() implies !sorts_before(
            key,
            desc,
            #[trigger] n[j],
            #[trigger] n[i],
        ) by {
            if j < p {
                assert(n[i] == r[i] && n[j] == r[j]);
            } else if j == p {
                assert(n[i] == r[i]);
            } else if i == p {
                assert(n[j] == r[j - 1]);
                lemma_sorts_before_weak(key, desc, x, r[j - 1], x);
            } else if i < p {
                assert(n[i] == r[i] && n[j] == r[j - 1]);
            } else {
                assert(n[i] == r[i - 1] && n[j] == r[j - 1]);
            }
        }
    }
}

/// Sorting rearranges: the sorted sequence holds the same documents, each
/// as often as before.
pub proof fn law_sort_permutes(s: Seq<DocumentRecord>, key: SortKey, desc: bool)
    ensures
        sorted_by(s, key, desc).to_multiset() == s.to_multiset(),
    decreases s.len(),
{
    if s.len() == 0 {
        assert(sorted_by(s, key, desc) =~= s);
    } else {
        let r = sorted_by(s.drop_last(), key, desc);
        law_sort_permutes(s.drop_last(), key, desc);
        lemma_insert_pos_range(r, s.last(), key, desc);
        vstd::seq_lib::to_multiset_insert(r, insert_pos(r, s.last(), key, desc), s.last());
        vstd::seq_lib::to_multiset_build(s.drop_last(), s.last());
        assert(s.drop_last().push(s.last()) =~= s);
    }
}

/// `a` and `b` sort equal: neither sorts before the other.
pub open spec fn same_rank(key: SortKey, desc: bool, a: DocumentRecord, b: DocumentRecord) -> bool {
    !sorts_before(key, desc, a, b) && !sorts_before(key, desc, b, a)
}

/// The documents of `s` that sort equal to `e`, in their order in `s`.
pub open spec fn rank_class(s: Seq<DocumentRecord>, key: SortKey, desc: bool, e: DocumentRecord) -> Seq<
    DocumentRecord,
> {
    s.filter(|d: DocumentRecord| same_rank(key, desc, d, e))
}

/// Sorting equal is transitive.
proof fn lemma_same_rank_transitive(key: SortKey, desc: bool, a: DocumentRecord, b: DocumentRecord, c: DocumentRecord)
    requires
        same_rank(key, desc, a, b),
        same_rank(key, desc, b, c),
    ensures
        same_rank(key, desc, a, c),
{
    lemma_sorts_before_weak(key, desc, a, b, c);
    lemma_sorts_before_weak(key, desc, c, b, a);
}

/// Filtering a sequence none of whose elements passes gives nothing.
proof fn lemma_filter_none(s: Seq<DocumentRecord>, pred: spec_fn(DocumentRecord) -> bool)
    requires
        forall|i: int| 0 <= i < s.len() ==> !pred(#[trigger] s[i]),
    ensures
        s.filter(pred) == Seq::<DocumentRecord>::empty(),
    decreases s.len(),
{
    reveal(Seq::filter);
    if s.len() > 0 {
        lemma_filter_none(s.drop_last(), pred);
        assert(!pred(s[s.len() - 1]));
    } else {
        assert(s.filter(pred) =~= Seq::<DocumentRecord>::empty());
    }
}

/// Sorting is stable: the documents that sort equal to any given one come
/// out in the order in which they went in.
pub proof fn law_sort_stable(s: Seq<DocumentRecord>, key: SortKey, desc: bool, e: DocumentRecord)
    ensures
        rank_class(sorted_by(s, key, desc), key, desc, e) == rank_class(s, key, desc, e),
    decreases s.len(),
{
    let pred = |d: DocumentRecord| same_rank(key, desc, d, e);
    if s.len() == 0 {
        reveal(Seq::filter);
        assert(sorted_by(s, key, desc) =~= s);
    } else {
        let rest = s.drop_last();
        let x = s.last();
        let r = sorted_by(rest, key, desc);
        let p = insert_pos(r, x, key, desc);
        law_sort_stable(rest, key, desc, e);
        lemma_insert_pos_facts(r, x, key, desc);
        let front = r.subrange(0, p);
        let back = r.subrange(p, r.len() as int);
        assert(r =~= front + back);
        assert(r.insert(p, x) =~= front.push(x) + back);
        Seq::filter_distributes_over_add(front, back, pred);
        Seq::filter_distributes_over_add(front.push(x), back, pred);
        front.lemma_filter_push(x, pred);
        rest.lemma_filter_push(x, pred);
        assert(rest.push(x) =~= s);
        if pred(x) {
            assert forall|i: int| 0 <= i < back.len() implies !pred(#[trigger] back[i]) by {
                assert(back[i] == r[p + i]);
                assert(sorts_before(key, desc, x, r[p + i]));
                if same_rank(key, desc, back[i], e) {
                    lemma_same_rank_transitive(key, desc, back[i], e, x);
                }
            }
            lemma_filter_none(back, pred);
            assert(front.filter(pred) + Seq::<DocumentRecord>::empty() =~= front.filter(pred));
            assert(front.filter(pred).push(x) + Seq::<DocumentRecord>::empty() =~= front.filter(pred).push(x));
        }
    }
}

/// The sort key named by an `ORDER BY` path.
fn order_key(path: &FieldPath) -> (k: SortKey)
    ensures
        k == sort_key_of(path.segments@),
{
    match path.first_field() {
        Some(name) => {
            if str_eq(name, "title") {
                SortKey::Title
            } else if str_eq(name, "created_at") {
                SortKey::CreatedAt
            } else if str_eq(name, "updated_at") {
                SortKey::UpdatedAt
            } else if str_eq(name, "author") {
                SortKey::Author
            } else {
                SortKey::Unordered
            }
        },
        None => SortKey::Unordered,
    }
}

/// Whether one optional string sorts before another.
fn opt_string_lt(a: &Option<String>, b: &Option<String>) -> (r: bool)
    ensures
        r == opt_key_lt(opt_str(*a), opt_str(*b)),
{
    match (a, b) {
        (None, Some(_)) => true,
        (Some(x), Some(y)) => str_lt(x.as_str(), y.as_str()),
        _ => false,
    }
}

/// Whether `a` sorts strictly before `b`.
fn record_before(key: SortKey, desc: bool, a: &DocumentRecord, b: &DocumentRecord) -> (r: bool)
    ensures
        r == sorts_before(key, desc, *a, *b),
{
    let (x, y) = if desc {
        (b, a)
    } else {
        (a, b)
    };
    match key {
        SortKey::Title => str_lt(x.title.as_str(), y.title.as_str()),
        SortKey::CreatedAt => x.created_at < y.created_at,
        SortKey::UpdatedAt => x.updated_at < y.updated_at,
        SortKey::Author => opt_string_lt(&x.author, &y.author),
        SortKey::Unordered => false,
    }
}

/// Where a stable insertion puts `x` into `sorted`.
fn insert_position(sorted: &Vec<DocumentRecord>, x: &DocumentRecord, key: SortKey, desc: bool) -> (p: usize)
    ensures
        p == insert_pos(sorted@, *x, key, desc),
{
    let mut j: usize = sorted.len();
    assert(sorted@.subrange(0, j as int) =~= sorted@);
    while j > 0 && record_before(key, desc, x, &sorted[j - 1])
        invariant
            j <= sorted@.len(),
            insert_pos(sorted@, *x, key, desc) == insert_pos(sorted@.subrange(0, j as int), *x, key, desc),
        decreases j,
    {
        proof {
            assert(sorted@.subrange(0, j as int).drop_last() =~= sorted@.subrange(0, j - 1));
        }
        j = j - 1;
    }
    proof {
        if j > 0 {
            assert(sorted@.subrange(0, j as int).last() == sorted@[j - 1]);
        }
    }
    j
}

/// The documents sorted stably by `key`, descending if `desc`.
pub fn sort_documents(docs: Vec<DocumentRecord>, key: SortKey, desc: bool) -> (r: Vec<DocumentRecord>)
    ensures
        r@ == sorted_by(docs@, key, desc),
{
    let ghost all = docs@;
    let mut out: Vec<DocumentRecord> = Vec::new();
    for d in it: docs.into_iter()
        invariant
            it.seq() == all,
            out@ == sorted_by(all.take(it.index() as int), key, desc),
    {
        proof {
            assert(all.take(it.index() + 1).drop_last() =~= all.take(it.index() as int));
            lemma_insert_pos_range(out@, d, key, desc);
        }
        let p = insert_position(&out, &d, key, desc);
        out.insert(p, d);
    }
    assert(all.take(all.len() as int) =~= all);
    out
}

// ==================== Pagination and execution ====================

/// The bounds `[start, end)` of the page that `limit` keeps of `len` items:
/// skip `offset` (0 when absent), then keep at most `count`.
pub open spec fn page_bounds(len: int, limit: LimitClause) -> (int, int) {
    let offset: int = match limit.offset {
        Some(o) => o as int,
        None => 0,
    };
    let start = if offset < len {
        offset
    } else {
        len
    };
    let end = if start + limit.count < len {
        start + limit.count
    } else {
        len
    };
    (start, end)
}

/// The page of `s` that `limit` keeps (all of `s` without a limit).
pub open spec fn paginate(s: Seq<DocumentRecord>, limit: Option<LimitClause>) -> Seq<DocumentRecord> {
    match limit {
        Some(l) => s.subrange(page_bounds(s.len() as int, l).0, page_bounds(s.len() as int, l).1),
        None => s,
    }
}

/// The selected documents in the order that the query asks for.
pub open spec fn ordered(query: Query, table: Seq<char>, docs: Seq<DocumentRecord>) -> Seq<DocumentRecord> {
    match query.order_by {
        Some(o) => sorted_by(
            selected(query, table, docs),
            sort_key_of(o.field.segments@),
            o.direction == SortDirection::Desc,
        ),
        None => selected(query, table, docs),
    }
}

/// The documents that a query returns: the selected ones, ordered, then
/// paginated.
pub open spec fn query_documents(query: Query, table: Seq<char>, docs: Seq<DocumentRecord>) -> Seq<DocumentRecord> {
    paginate(ordered(query, table, docs), query.limit)
}

/// Filtering keeps exactly the selected documents: each selected document
/// as often as it occurs in `docs`, no other document at all.
pub proof fn law_selected_exactly(query: Query, table: Seq<char>, docs: Seq<DocumentRecord>, d: DocumentRecord)
    ensures
        selected(query, table, docs).to_multiset().count(d) == if selects(query, table, d) {
            docs.to_multiset().count(d)
        } else {
            0
        },
    decreases docs.len(),
{
    broadcast use vstd::multiset::group_multiset_axioms;

    if docs.len() == 0 {
        vstd::seq_lib::to_multiset_len(docs);
        vstd::seq_lib::to_multiset_len(selected(query, table, docs));
    } else {
        let rest = docs.drop_last();
        law_selected_exactly(query, table, rest, d);
        vstd::seq_lib::to_multiset_build(rest, docs.last());
        assert(rest.push(docs.last()) =~= docs);
        if selects(query, table, docs.last()) {
            vstd::seq_lib::to_multiset_build(selected(query, table, rest), docs.last());
        }
    }
}

/// The selected documents occur in `docs` and satisfy the query.
proof fn lemma_selected_members(query: Query, table: Seq<char>, docs: Seq<DocumentRecord>)
    ensures
        forall|i: int| 0 <= i < selected(query, table, docs).len() ==> selects(query, table, #[trigger] selected(query, table, docs)[i])
            && docs.contains(selected(query, table, docs)[i]),
    decreases docs.len(),
{
    if docs.len() > 0 {
        let rest = docs.drop_last();
        lemma_selected_members(query, table, rest);
        assert forall|i: int| 0 <= i < selected(query, table, docs).len() implies selects(query, table, #[trigger] selected(query, table, docs)[i])
            && docs.contains(selected(query, table, docs)[i]) by {
            if i < selected(query, table, rest).len() {
                let k = choose|k: int| 0 <= k < rest.len() && rest[k] == selected(query, table, rest)[i];
                assert(docs[k] == rest[k]);
            } else {
                assert(docs[docs.len() - 1] == docs.last());
            }
        }
    }
}

/// Every document that a query returns satisfies the query (it belongs to
/// the query's table and meets the `WHERE` condition) and is one of the
/// documents it ran over.
pub proof fn law_results_satisfy_query(query: Query, table: Seq<char>, docs: Seq<DocumentRecord>)
    ensures
        forall|i: int| 0 <= i < query_documents(query, table, docs).len() ==> selects(query, table, #[trigger] query_documents(query, table, docs)[i])
            && docs.contains(query_documents(query, table, docs)[i]),
{
    let sel = selected(query, table, docs);
    lemma_selected_members(query, table, docs);
    let ord = ordered(query, table, docs);
    assert forall|i: int| 0 <= i < ord.len() implies selects(query, table, #[trigger] ord[i]) && docs.contains(ord[i]) by {
        if query.order_by is Some {
            let o = query.order_by.unwrap();
            let key = sort_key_of(o.field.segments@);
            let desc = o.direction == SortDirection::Desc;
            law_sort_permutes(sel, key, desc);
            lemma_sorted_len(sel, key, desc);
            vstd::seq_lib::to_multiset_contains(ord, ord[i]);
            vstd::seq_lib::to_multiset_contains(sel, ord[i]);
            assert(ord.contains(ord[i]));
            let k = choose|k: int| 0 <= k < sel.len() && sel[k] == ord[i];
            assert(selects(query, table, sel[k]));
        }
    }
    let res = query_documents(query, table, docs);
    assert forall|i: int| 0 <= i < res.len() implies selects(query, table, #[trigger] res[i]) && docs.contains(res[i]) by {
        match query.limit {
            Some(l) => {
                let (start, end) = page_bounds(ord.len() as int, l);
                assert(res[i] == ord[start + i]);
            },
            None => {},
        }
    }
}

/// With `ORDER BY`, no returned document sorts before one returned ahead
/// of it.
pub proof fn law_results_ordered(query: Query, table: Seq<char>, docs: Seq<DocumentRecord>)
    requires
        query.order_by is Some,
    ensures
        is_ordered(
            query_documents(query, table, docs),
            sort_key_of(query.order_by.unwrap().field.segments@),
            query.order_by.unwrap().direction == SortDirection::Desc,
        ),
{
    let o = query.order_by.unwrap();
    let key = sort_key_of(o.field.segments@);
    let desc = o.direction == SortDirection::Desc;
    law_sort_orders(selected(query, table, docs), key, desc);
    let ord = ordered(query, table, docs);
    let res = query_documents(query, table, docs);
    match query.limit {
        Some(l) => {
            let (start, end) = page_bounds(ord.len() as int, l);
            assert forall|i: int, j: int| 0 <= i < j < res.len() implies !sorts_before(
                key,
                desc,
                #[trigger] res[j],
                #[trigger] res[i],
            ) by {
                assert(res[i] == ord[start + i] && res[j] == ord[start + j]);
            }
        },
        None => {},
    }
}

/// `LIMIT n OFFSET m` returns the selected documents from position `m` on,
/// at most `n` of them: `min(n, total - m)` when `m` is below the total,
/// none otherwise.
pub proof fn law_page_size(query: Query, table: Seq<char>, docs: Seq<DocumentRecord>)
    requires
        query.limit is Some,
    ensures
        ({
            let l = query.limit.unwrap();
            let total = selected(query, table, docs).len() as int;
            let offset: int = match l.offset {
                Some(o) => o as int,
                None => 0,
            };
            let n = query_documents(query, table, docs).len() as int;
            &&& n <= l.count
            &&& offset >= total ==> n == 0
            &&& offset < total ==> n == if l.count < total - offset {
                l.count as int
            } else {
                total - offset
            }
        }),
{
    if query.order_by is Some {
        let o = query.order_by.unwrap();
        lemma_sorted_len(selected(query, table, docs), sort_key_of(o.field.segments@), o.direction == SortDirection::Desc);
    }
}

/// The page of `docs` that `limit` keeps.
pub fn paginate_documents(docs: Vec<DocumentRecord>, limit: &Option<LimitClause>) -> (r: Vec<DocumentRecord>)
    ensures
        r@ == paginate(docs@, *limit),
{
    match limit {
        Some(l) => {
            let len = docs.len();
            let offset = match l.offset {
                Some(o) => o,
                None => 0,
            };
            let start = if offset < len {
                offset
            } else {
                len
            };
            let ghost all = docs@;
            let mut docs = docs;
            let mut page = docs.split_off(start);
            let room = len - start;
            let keep = if l.count < room {
                l.count
            } else {
                room
            };
            page.truncate(keep);
            assert(page@ =~= paginate(all, *limit));
            page
        },
        None => docs,
    }
}

/// A document that a query matched.
pub struct DocumentMatch {
    /// The matched document.
    pub document: DocumentRecord,
    /// The bits of the relevance score (an `f32`), for search queries.
    pub score_bits: Option<u32>,
    /// The nodes that matched the query.
    pub matched_nodes: Vec<String>,
    /// Highlighted text snippets.
    pub highlights: Vec<String>,
}

/// The result of a query.
pub struct QueryResult {
    /// The matched documents, after pagination.
    pub documents: Vec<DocumentMatch>,
    /// The number of matched documents before pagination.
    pub total_count: usize,
    /// How long the query took, in milliseconds.
    pub execution_time_ms: u64,
}

/// The documents of a sequence of matches.
pub open spec fn matched_documents(ms: Seq<DocumentMatch>) -> Seq<DocumentRecord> {
    ms.map_values(|m: DocumentMatch| m.document)
}

/// A match that carries nothing but its document: no score, no nodes, no
/// highlights.
pub open spec fn is_plain(m: DocumentMatch) -> bool {
    m.score_bits is None && m.matched_nodes@.len() == 0 && m.highlights@.len() == 0
}

/// Plain matches of the given documents, in their order.
fn plain_matches(docs: Vec<DocumentRecord>) -> (r: Vec<DocumentMatch>)
    ensures
        matched_documents(r@) == docs@,
        forall|i: int| 0 <= i < r@.len() ==> is_plain(#[trigger] r@[i]),
{
    let ghost all = docs@;
    let mut out: Vec<DocumentMatch> = Vec::new();
    for d in it: docs.into_iter()
        invariant
            it.seq() == all,
            matched_documents(out@) == all.take(it.index() as int),
            forall|i: int| 0 <= i < out@.len() ==> is_plain(#[trigger] out@[i]),
    {
        let ghost prev = out@;
        out.push(DocumentMatch {
            document: d,
            score_bits: None,
            matched_nodes: Vec::new(),
            highlights: Vec::new(),
        });
        proof {
            assert(matched_documents(out@) =~= matched_documents(prev).push(d));
            assert(all.take(it.index() + 1) =~= all.take(it.index() as int).push(d));
        }
    }
    assert(all.take(all.len() as int) =~= all);
    out
}

// ==================== Tables ====================

/// A table that documents belong to, by the three names that a `FROM`
/// clause may give it.
pub struct TableInfo {
    /// The table's ID (such as `tbl_abc123`).
    pub id: String,
    /// Its slug (such as `legal_contracts`).
    pub slug: String,
    /// Its display name (such as `Legal Contracts`).
    pub name: String,
}

/// The prefix that marks a name as a table ID.
pub open spec fn table_id_prefix() -> Seq<char> {
    seq!['t', 'b', 'l', '_']
}

/// The ID of the first table in `ts` whose slug (with `by_slug`) or whose
/// display name (without) is `name`.
pub open spec fn find_table(ts: Seq<TableInfo>, name: Seq<char>, by_slug: bool) -> Option<Seq<char>>
    decreases ts.len(),
{
    if ts.len() == 0 {
        None
    } else if (if by_slug {
        ts[0].slug@
    } else {
        ts[0].name@
    }) == name {
        Some(ts[0].id@)
    } else {
        find_table(ts.drop_first(), name, by_slug)
    }
}

/// The table ID that the name in a `FROM` clause stands for: a name that
/// starts with `tbl_` is an ID already; otherwise the ID of the table with
/// that slug, else of the table with that display name; a name that no
/// table has stands for itself (and so selects no document of a known
/// table).
pub open spec fn resolved_table(name: Seq<char>, ts: Seq<TableInfo>) -> Seq<char> {
    if table_id_prefix().is_prefix_of(name) {
        name
    } else {
        match find_table(ts, name, true) {
            Some(id) => id,
            None => match find_table(ts, name, false) {
                Some(id) => id,
                None => name,
            },
        }
    }
}

/// Whether `name` starts with `tbl_`.
fn has_table_id_prefix(name: &str) -> (r: bool)
    ensures
        r == table_id_prefix().is_prefix_of(name@),
{
    let cs = chars_of(name);
    if cs.len() < 4 {
        return false;
    }
    let r = cs[0] == 't' && cs[1] == 'b' && cs[2] == 'l' && cs[3] == '_';
    proof {
        let p = table_id_prefix();
        if r {
            assert(p =~= name@.subrange(0, 4));
        } else if p.is_prefix_of(name@) {
            assert(name@.subrange(0, 4)[0] == p[0] && name@.subrange(0, 4)[1] == p[1]);
            assert(name@.subrange(0, 4)[2] == p[2] && name@.subrange(0, 4)[3] == p[3]);
        }
    }
    r
}

/// The ID of the first table whose slug (with `by_slug`) or display name
/// (without) is `name`.
fn find_table_id(name: &str, tables: &Vec<TableInfo>, by_slug: bool) -> (r: Option<String>)
    ensures
        opt_str(r) == find_table(tables@, name@, by_slug),
{
    let n = tables.len();
    let mut i: usize = 0;
    assert(tables@.subrange(0, n as int) =~= tables@);
    while i < n
        invariant
            n == tables@.len(),
            i <= n,
            find_table(tables@, name@, by_slug) == find_table(tables@.subrange(i as int, n as int), name@, by_slug),
        decreases n - i,
    {
        let t = &tables[i];
        let key = if by_slug {
            t.slug.as_str()
        } else {
            t.name.as_str()
        };
        let ghost rest = tables@.subrange(i as int, n as int);
        assert(rest[0] == tables@[i as int]);
        if str_eq(key, name) {
            return Some(to_string(t.id.as_str()));
        }
        assert(rest.drop_first() =~= tables@.subrange(i + 1, n as int));
        i += 1;
    }
    None
}

/// Resolves the table name of a `FROM` clause to a table ID among
/// `tables`, as `resolved_table` says.
pub fn resolve_table_id(name: &str, tables: &Vec<TableInfo>) -> (id: String)
    ensures
        id@ == resolved_table(name@, tables@),
{
    if has_table_id_prefix(name) {
        return to_string(name);
    }
    match find_table_id(name, tables, true) {
        Some(id) => id,
        None => match find_table_id(name, tables, false) {
            Some(id) => id,
            None => to_string(name),
        },
    }
}

// ==================== Running a query ====================

/// Runs `query` over the documents `docs` of the table with ID `table`:
/// keeps those of that table that satisfy the `WHERE` condition, sorts
/// them by `ORDER BY` (stably), counts them, and returns the page that
/// `LIMIT`/`OFFSET` keep.
pub fn execute_in_table(query: &Query, table: &str, docs: Vec<DocumentRecord>) -> (r: QueryResult)
    ensures
        r.total_count == selected(*query, table@, docs@).len(),
        matched_documents(r.documents@) == query_documents(*query, table@, docs@),
        forall|i: int| 0 <= i < r.documents@.len() ==> is_plain(#[trigger] r.documents@[i]),
{
    let start = instant_now();
    let chosen = filter_documents(query, table, docs);
    let sorted = match &query.order_by {
        Some(o) => {
            let key = order_key(&o.field);
            let desc = o.direction == SortDirection::Desc;
            sort_documents(chosen, key, desc)
        },
        None => chosen,
    };
    let total_count = sorted.len();
    proof {
        if query.order_by is Some {
            let o = query.order_by.unwrap();
            lemma_sorted_len(
                selected(*query, table@, docs@),
                sort_key_of(o.field.segments@),
                o.direction == SortDirection::Desc,
            );
        }
    }
    let page = paginate_documents(sorted, &query.limit);
    let documents = plain_matches(page);
    let millis = whole_millis(&elapsed_since(&start));
    QueryResult { documents, total_count, execution_time_ms: millis as u64 }
}

/// Runs `query` over the documents `docs`, given the known `tables`: the
/// `FROM` name (a table ID, slug or display name) is resolved to a table
/// ID first, and the query then runs over that table's documents as in
/// `execute_in_table`.
pub fn execute_query(query: &Query, tables: &Vec<TableInfo>, docs: Vec<DocumentRecord>) -> (r: QueryResult)
    ensures
        ({
            let table = resolved_table(query.from.table@, tables@);
            &&& r.total_count == selected(*query, table, docs@).len()
            &&& matched_documents(r.documents@) == query_documents(*query, table, docs@)
            &&& forall|i: int| 0 <= i < r.documents@.len() ==> is_plain(#[trigger] r.documents@[i])
        }),
{
    let table = resolve_table_id(query.from.table.as_str(), tables);
    execute_in_table(query, table.as_str(), docs)
}

// ==================== Laws on what a query returns ====================

/// The comparison of the field `left` with `v` by `op`.
pub open spec fn compare_with(left: FieldPath, op: ComparisonOp, v: Value) -> Comparison {
    Comparison { left, operator: op, right: v }
}

/// `ORDER BY` sorts the returned documents by the document field that it
/// names. For `updated_at` or `created_at`, ascending, each returned
/// document's timestamp is at most that of every later one (so a document
/// with a strictly smaller timestamp always comes first); descending, at
/// least. For `title`, no later title is lexicographically below an earlier
/// one (above it, descending). For `author`, no later author sorts below an
/// earlier one, a missing author lowest (highest, descending).
pub proof fn law_order_by_field(query: Query, table: Seq<char>, docs: Seq<DocumentRecord>)
    requires
        query.order_by is Some,
    ensures
        ({
            let o = query.order_by.unwrap();
            let name = first_field_of(o.field.segments@);
            let desc = o.direction == SortDirection::Desc;
            let res = query_documents(query, table, docs);
            forall|i: int, j: int|
                #![trigger res[i], res[j]]
                0 <= i < j < res.len() ==> {
                    &&& name == Some("updated_at"@) ==> if desc {
                        res[j].updated_at <= res[i].updated_at
                    } else {
                        res[i].updated_at <= res[j].updated_at
                    }
                    &&& name == Some("created_at"@) ==> if desc {
                        res[j].created_at <= res[i].created_at
                    } else {
                        res[i].created_at <= res[j].created_at
                    }
                    &&& name == Some("title"@) ==> if desc {
                        !key_lt(res[i].title@, res[j].title@)
                    } else {
                        !key_lt(res[j].title@, res[i].title@)
                    }
                    &&& name == Some("author"@) ==> if desc {
                        !opt_key_lt(opt_str(res[i].author), opt_str(res[j].author))
                    } else {
                        !opt_key_lt(opt_str(res[j].author), opt_str(res[i].author))
                    }
                }
        }),
{
    reveal_strlit("updated_at");
    reveal_strlit("created_at");
    reveal_strlit("title");
    reveal_strlit("author");
    assert("updated_at"@[0] == 'u' && "created_at"@[0] == 'c' && "title"@[0] == 't' && "author"@[0] == 'a');
    law_results_ordered(query, table, docs);
}

/// `IN` holds exactly when `=` holds for some item of the list: the field
/// is compared with every item, not only some of them.
pub proof fn law_in_is_some_equal(doc: DocumentRecord, comp: Comparison, items: Seq<Value>)
    requires
        comp.operator == ComparisonOp::In,
        comp.right matches Value::Array(v) && v@ == items,
    ensures
        comparison_holds(doc, comp) <==> exists|k: int|
            0 <= k < items.len() && comparison_holds(
                doc,
                compare_with(comp.left, ComparisonOp::Eq, #[trigger] items[k]),
            ),
{
    if comparison_holds(doc, comp) {
        let g = field_view(doc, comp.left.segments@)->0;
        let k = choose|k: int| 0 <= k < items.len() && field_equals(g, #[trigger] items[k]);
        assert(comparison_holds(doc, compare_with(comp.left, ComparisonOp::Eq, items[k])));
    }
    if exists|k: int|
        0 <= k < items.len() && comparison_holds(
            doc,
            compare_with(comp.left, ComparisonOp::Eq, #[trigger] items[k]),
        ) {
        let k = choose|k: int|
            0 <= k < items.len() && comparison_holds(
                doc,
                compare_with(comp.left, ComparisonOp::Eq, #[trigger] items[k]),
            );
        let g = field_view(doc, comp.left.segments@)->0;
        assert(field_equals(g, items[k]));
    }
}

/// The order of the items of an `IN` list does not matter: two lists with
/// the same items, each as often, select the same documents.
pub proof fn law_in_item_order(doc: DocumentRecord, c1: Comparison, c2: Comparison, a: Seq<Value>, b: Seq<Value>)
    requires
        c1.operator == ComparisonOp::In,
        c2.operator == ComparisonOp::In,
        c1.left == c2.left,
        c1.right matches Value::Array(v) && v@ == a,
        c2.right matches Value::Array(w) && w@ == b,
        a.to_multiset() == b.to_multiset(),
    ensures
        comparison_holds(doc, c1) == comparison_holds(doc, c2),
{
    law_in_is_some_equal(doc, c1, a);
    law_in_is_some_equal(doc, c2, b);
    assert forall|x: Value| a.contains(x) <==> b.contains(x) by {
        vstd::seq_lib::to_multiset_contains(a, x);
        vstd::seq_lib::to_multiset_contains(b, x);
    }
    if comparison_holds(doc, c1) {
        let k = choose|k: int|
            0 <= k < a.len() && comparison_holds(
                doc,
                compare_with(c1.left, ComparisonOp::Eq, #[trigger] a[k]),
            );
        assert(a.contains(a[k]));
        let j = choose|j: int| 0 <= j < b.len() && b[j] == a[k];
        assert(comparison_holds(doc, compare_with(c2.left, ComparisonOp::Eq, b[j])));
    }
    if comparison_holds(doc, c2) {
        let k = choose|k: int|
            0 <= k < b.len() && comparison_holds(
                doc,
                compare_with(c2.left, ComparisonOp::Eq, #[trigger] b[k]),
            );
        assert(b.contains(b[k]));
        let j = choose|j: int| 0 <= j < a.len() && a[j] == b[k];
        assert(comparison_holds(doc, compare_with(c1.left, ComparisonOp::Eq, a[j])));
    }
}

/// `!=` holds exactly when `=` does not; a missing field equals nothing,
/// so `!=` holds for it.
pub proof fn law_ne_is_not_eq(doc: DocumentRecord, left: FieldPath, v: Value)
    ensures
        comparison_holds(doc, compare_with(left, ComparisonOp::Ne, v)) == !comparison_holds(
            doc,
            compare_with(left, ComparisonOp::Eq, v),
        ),
        field_view(doc, left.segments@) is None ==> !comparison_holds(doc, compare_with(left, ComparisonOp::Eq, v))
            && comparison_holds(doc, compare_with(left, ComparisonOp::Ne, v)),
{
}

/// `IS NULL` and `IS NOT NULL` are opposites, and `IS NULL` holds exactly
/// for a missing field, which `=` and `IN` never match: a missing author
/// `IS NULL`, a present one `IS NOT NULL`.
pub proof fn law_is_null(doc: DocumentRecord, left: FieldPath, v: Value)
    ensures
        comparison_holds(doc, compare_with(left, ComparisonOp::IsNull, v)) == !comparison_holds(
            doc,
            compare_with(left, ComparisonOp::IsNotNull, v),
        ),
        comparison_holds(doc, compare_with(left, ComparisonOp::IsNull, v)) ==> !comparison_holds(
            doc,
            compare_with(left, ComparisonOp::Eq, v),
        ) && !comparison_holds(doc, compare_with(left, ComparisonOp::In, v)),
        first_field_of(left.segments@) == Some("author"@) ==> (comparison_holds(
            doc,
            compare_with(left, ComparisonOp::IsNull, v),
        ) <==> doc.author is None),
{
    reveal_strlit("author");
    reveal_strlit("id");
    reveal_strlit("title");
    reveal_strlit("table_id");
    assert("author"@[0] == 'a' && "id"@[0] == 'i' && "title"@.len() == 5 && "table_id"@.len() == 8);
}

/// A numeric metadata field compared with a number: exactly one of `<`,
/// `=` and `>` holds, `<=` is `<` or `=`, `>=` is `>` or `=`; for numbers
/// of the same scale, `<` compares the mantissas.
pub proof fn law_number_order(doc: DocumentRecord, left: FieldPath, a: Number, b: Number)
    requires
        field_view(doc, left.segments@) == Some(FieldView::Stored(Value::Number(a))),
    ensures
        ({
            let lt = comparison_holds(doc, compare_with(left, ComparisonOp::Lt, Value::Number(b)));
            let eq = comparison_holds(doc, compare_with(left, ComparisonOp::Eq, Value::Number(b)));
            let gt = comparison_holds(doc, compare_with(left, ComparisonOp::Gt, Value::Number(b)));
            let le = comparison_holds(doc, compare_with(left, ComparisonOp::Le, Value::Number(b)));
            let ge = comparison_holds(doc, compare_with(left, ComparisonOp::Ge, Value::Number(b)));
            &&& (lt || eq || gt)
            &&& !(lt && eq) && !(lt && gt) && !(eq && gt)
            &&& le == (lt || eq)
            &&& ge == (gt || eq)
            &&& a.s() == b.s() ==> (lt <==> a.m() < b.m()) && (eq <==> a.m() == b.m())
        }),
{
    let pa = pow10(a.s() as nat);
    let pb = pow10(b.s() as nat);
    lemma_pow10_monotone(0, a.s() as nat);
    lemma_pow10_monotone(0, b.s() as nat);
    let x = a.m() * pb;
    let y = b.m() * pa;
    if a.s() == b.s() {
        assert(pa == pb);
        assert(pa >= 1);
        assert((a.m() * pa < b.m() * pa) <==> (a.m() < b.m())) by (nonlinear_arith)
            requires
                pa >= 1,
        ;
        assert((a.m() * pa == b.m() * pa) <==> (a.m() == b.m())) by (nonlinear_arith)
            requires
                pa >= 1,
        ;
    }
}

/// `CONTAINS ALL` and `CONTAINS ANY` on the tags: `ALL` holds when every
/// listed string is one of the document's tags, `ANY` when one is; a
/// non-empty list that `ALL` matches is also matched by `ANY`; and the
/// order of the list matters to neither.
pub proof fn law_contains_tags(
    doc: DocumentRecord,
    path: Seq<PathSegment>,
    c1: Value,
    c2: Value,
    a: Seq<Value>,
    b: Seq<Value>,
)
    requires
        first_field_of(path) == Some("tags"@),
        c1 matches Value::Array(v) && v@ == a,
        c2 matches Value::Array(w) && w@ == b,
        a.to_multiset() == b.to_multiset(),
    ensures
        contains_all_holds(doc, path, c1) <==> forall|k: int|
            0 <= k < a.len() ==> (#[trigger] a[k] matches Value::String(t) && strs(doc.tags@).contains(t@)),
        contains_any_holds(doc, path, c1) <==> exists|k: int|
            0 <= k < a.len() && (#[trigger] a[k] matches Value::String(t) && strs(doc.tags@).contains(t@)),
        a.len() > 0 && contains_all_holds(doc, path, c1) ==> contains_any_holds(doc, path, c1),
        contains_all_holds(doc, path, c1) == contains_all_holds(doc, path, c2),
        contains_any_holds(doc, path, c1) == contains_any_holds(doc, path, c2),
{
    assert forall|x: Value| a.contains(x) <==> b.contains(x) by {
        vstd::seq_lib::to_multiset_contains(a, x);
        vstd::seq_lib::to_multiset_contains(b, x);
    }
    if a.len() > 0 && contains_all_holds(doc, path, c1) {
        assert(is_tag_of(doc, a[0]));
    }
    if contains_all_holds(doc, path, c1) {
        assert forall|k: int| 0 <= k < b.len() implies is_tag_of(doc, #[trigger] b[k]) by {
            assert(b.contains(b[k]));
            let j = choose|j: int| 0 <= j < a.len() && a[j] == b[k];
            assert(is_tag_of(doc, a[j]));
        }
    }
    if contains_all_holds(doc, path, c2) {
        assert forall|k: int| 0 <= k < a.len() implies is_tag_of(doc, #[trigger] a[k]) by {
            assert(a.contains(a[k]));
            let j = choose|j: int| 0 <= j < b.len() && b[j] == a[k];
            assert(is_tag_of(doc, b[j]));
        }
    }
    if contains_any_holds(doc, path, c1) {
        let k = choose|k: int| 0 <= k < a.len() && is_tag_of(doc, #[trigger] a[k]);
        assert(a.contains(a[k]));
        let j = choose|j: int| 0 <= j < b.len() && b[j] == a[k];
        assert(is_tag_of(doc, b[j]));
    }
    if contains_any_holds(doc, path, c2) {
        let k = choose|k: int| 0 <= k < b.len() && is_tag_of(doc, #[trigger] b[k]);
        assert(b.contains(b[k]));
        let j = choose|j: int| 0 <= j < a.len() && a[j] == b[k];
        assert(is_tag_of(doc, a[j]));
    }
}

/// `=` compares the field that the path names: `title = 't'` holds exactly
/// when the title is `t`, `author = 'a'` exactly when there is an author and
/// it is `a`, and `metadata.k = v` exactly when the metadata holds `k` with
/// a value equal to `v`.
pub proof fn law_eq_reads_field(doc: DocumentRecord, left: FieldPath, t: String, v: Value, k: String)
    ensures
        first_field_of(left.segments@) == Some("title"@) ==> (comparison_holds(
            doc,
            compare_with(left, ComparisonOp::Eq, Value::String(t)),
        ) <==> t@ == doc.title@),
        first_field_of(left.segments@) == Some("author"@) ==> (comparison_holds(
            doc,
            compare_with(left, ComparisonOp::Eq, Value::String(t)),
        ) <==> (doc.author is Some && doc.author.unwrap()@ == t@)),
        first_field_of(left.segments@) == Some("metadata"@) && left.segments@.len() > 1
            && left.segments@[1] == PathSegment::Field(k) ==> (comparison_holds(
            doc,
            compare_with(left, ComparisonOp::Eq, v),
        ) <==> (doc.metadata@.contains_key(k@) && value_equal(doc.metadata@[k@], v))),
{
    reveal_strlit("id");
    reveal_strlit("title");
    reveal_strlit("table_id");
    reveal_strlit("author");
    reveal_strlit("source_url");
    reveal_strlit("language");
    reveal_strlit("version");
    reveal_strlit("tags");
    reveal_strlit("metadata");
    assert("id"@.len() == 2 && "title"@.len() == 5 && "table_id"@.len() == 8 && "author"@.len() == 6);
    assert("source_url"@.len() == 10 && "language"@.len() == 8 && "version"@.len() == 7 && "tags"@.len() == 4);
    assert("metadata"@.len() == 8 && "metadata"@[0] == 'm' && "table_id"@[0] == 't' && "language"@[0] == 'l');
    assert("title"@[0] == 't' && "title"@[1] == 'i' && "tags"@[0] == 't' && "tags"@[1] == 'a');
    assert("author"@[0] == 'a' && "source_url"@[0] == 's');
}

} // verus!
