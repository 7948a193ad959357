//! The abstract syntax of RQL queries.
//!
//! ```text
//! SELECT * | COUNT(*) | path, ... FROM table
//!     [WHERE condition]
//!     [SEARCH 'text' | REASON 'question' [WITH CONFIDENCE > number]]
//!     [ORDER BY path [ASC | DESC]]
//!     [LIMIT n [OFFSET m]]
//! ```
use vstd::prelude::*;

verus! {

/// The most fractional digits that a `Number` carries.
pub const MAX_SCALE: u32 = 18;

/// A decimal number: `mantissa / 10^scale`, with at most `MAX_SCALE`
/// fractional digits.
#[derive(Debug, Clone, Copy, PartialEq, Eq, Structural)]
pub struct Number {
    mantissa: i64,
    scale: u32,
}

impl Number {
    /// The scale is at most `MAX_SCALE`.
    #[verifier::type_invariant]
    closed spec fn scale_ok(&self) -> bool {
        self.scale <= MAX_SCALE
    }

    /// The mantissa.
    pub closed spec fn m(&self) -> i64 {
        self.mantissa
    }

    /// The scale (number of fractional digits).
    pub closed spec fn s(&self) -> u32 {
        self.scale
    }

    /// The number `mantissa / 10^scale`.
    pub fn new(mantissa: i64, scale: u32) -> (n: Number)
        requires
            scale <= MAX_SCALE,
        ensures
            n.m() == mantissa,
            n.s() == scale,
    {
        Number { mantissa, scale }
    }

    /// The integer `value`.
    pub fn from_int(value: i64) -> (n: Number)
        ensures
            n.m() == value,
            n.s() == 0,
    {
        Number { mantissa: value, scale: 0 }
    }

    /// The mantissa.
    pub fn mantissa(&self) -> (m: i64)
        ensures
            m == self.m(),
    {
        self.mantissa
    }

    /// The scale (number of fractional digits).
    pub fn scale(&self) -> (s: u32)
        ensures
            s == self.s(),
            s <= MAX_SCALE,
    {
        proof {
            use_type_invariant(self);
        }
        self.scale
    }
}

/// One step of a field path: a named field or an array index.
#[derive(Debug, Clone, PartialEq)]
pub enum PathSegment {
    Field(String),
    Index(usize),
}

/// A dotted field path such as `metadata.status`.
#[derive(Debug, Clone, PartialEq)]
pub struct FieldPath {
    pub segments: Vec<PathSegment>,
}

/// The name of the first segment of a path, if it is a field.
pub open spec fn first_field_of(segments: Seq<PathSegment>) -> Option<Seq<char>> {
    if segments.len() > 0 {
        match segments[0] {
            PathSegment::Field(f) => Some(f@),
            PathSegment::Index(_) => None,
        }
    } else {
        None
    }
}

impl FieldPath {
    /// The name of the first segment, if it is a field.
    pub fn first_field(&self) -> (r: Option<&str>)
        ensures
            match r {
                Some(s) => first_field_of(self.segments@) == Some(s@),
                None => first_field_of(self.segments@) is None,
            },
    {
        if self.segments.len() == 0 {
            return None;
        }
        match &self.segments[0] {
            PathSegment::Field(f) => Some(f.as_str()),
            PathSegment::Index(_) => None,
        }
    }
}

/// A literal value.
#[derive(Debug, PartialEq)]
pub enum Value {
    Null,
    Bool(bool),
    Number(Number),
    String(String),
    Array(Vec<Value>),
}

/// A comparison operator.
#[derive(Debug, Clone, Copy, PartialEq, Eq, Structural)]
pub enum ComparisonOp {
    Eq,
    Ne,
    Lt,
    Gt,
    Le,
    Ge,
    Like,
    In,
    ContainsAll,
    ContainsAny,
    IsNull,
    IsNotNull,
}

/// `left operator right`.
#[derive(Debug, PartialEq)]
pub struct Comparison {
    pub left: FieldPath,
    pub operator: ComparisonOp,
    pub right: Value,
}

/// A boolean condition.
#[derive(Debug, PartialEq)]
pub enum Condition {
    Comparison(Comparison),
    And(Box<Condition>, Box<Condition>),
    Or(Box<Condition>, Box<Condition>),
    Not(Box<Condition>),
}

/// What a query selects.
#[derive(Debug, Clone, PartialEq)]
pub enum SelectClause {
    /// `*`
    All,
    /// `COUNT(*)`
    Count,
    /// A list of field paths.
    Fields(Vec<FieldPath>),
}

/// `FROM table`.
#[derive(Debug, Clone, PartialEq)]
pub struct FromClause {
    pub table: String,
}

/// `WHERE condition`.
#[derive(Debug, PartialEq)]
pub struct WhereClause {
    pub condition: Condition,
}

/// `SEARCH 'text'` or `REASON 'question' [WITH CONFIDENCE > number]`.
#[derive(Debug, Clone, PartialEq)]
pub enum SearchClause {
    FullText(String),
    Semantic { query: String, min_confidence: Option<Number> },
}

/// Sort direction.
#[derive(Debug, Clone, Copy, PartialEq, Eq, Structural)]
pub enum SortDirection {
    Asc,
    Desc,
}

/// `ORDER BY path [ASC | DESC]`.
#[derive(Debug, Clone, PartialEq)]
pub struct OrderByClause {
    pub field: FieldPath,
    pub direction: SortDirection,
}

/// `LIMIT count [OFFSET offset]`.
#[derive(Debug, Clone, PartialEq)]
pub struct LimitClause {
    pub count: usize,
    pub offset: Option<usize>,
}

/// A parsed RQL query.
#[derive(Debug, PartialEq)]
pub struct Query {
    pub select: SelectClause,
    pub from: FromClause,
    pub where_clause: Option<WhereClause>,
    pub search: Option<SearchClause>,
    pub order_by: Option<OrderByClause>,
    pub limit: Option<LimitClause>,
}

} // verus!
