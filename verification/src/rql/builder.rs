//! Building RQL queries in code instead of parsing them.
use vstd::prelude::*;
use crate::rql::ast::{Comparison, ComparisonOp, Condition, FieldPath, FromClause, LimitClause, Number,
    PathSegment, Query, SearchClause, SelectClause, Value, WhereClause};
use crate::rql::error::RqlError;
use crate::text::{chars_of, string_of, to_string};

verus! {

/// `s` split at every `.` (a text without dots is one piece).
pub open spec fn split_dots(s: Seq<char>) -> Seq<Seq<char>>
    decreases s.len(),
{
    if s.len() == 0 {
        seq![Seq::<char>::empty()]
    } else {
        let r = split_dots(s.drop_last());
        if s.last() == '.' {
            r.push(Seq::<char>::empty())
        } else {
            r.update(r.len() - 1, r.last().push(s.last()))
        }
    }
}

proof fn lemma_split_dots_nonempty(s: Seq<char>)
    ensures
        split_dots(s).len() >= 1,
    decreases s.len(),
{
    if s.len() > 0 {
        lemma_split_dots_nonempty(s.drop_last());
    }
}

/// A text without dots is one piece.
pub proof fn lemma_split_no_dots(s: Seq<char>)
    requires
        !s.contains('.'),
    ensures
        split_dots(s) == seq![s],
    decreases s.len(),
{
    if s.len() > 0 {
        assert(!s.drop_last().contains('.')) by {
            if s.drop_last().contains('.') {
                let k = choose|k: int| 0 <= k < s.drop_last().len() && s.drop_last()[k] == '.';
                assert(s[k] == '.');
            }
        }
        lemma_split_no_dots(s.drop_last());
        assert(s.last() != '.') by {
            assert(s[s.len() - 1] == s.last());
        }
        assert(s.drop_last().push(s.last()) =~= s);
        assert(split_dots(s) =~= seq![s]);
    } else {
        assert(s =~= Seq::<char>::empty());
    }
}

/// The field names of a path whose segments are all fields.
pub open spec fn path_names(segments: Seq<PathSegment>) -> Seq<Seq<char>> {
    segments.map_values(
        |g: PathSegment|
            match g {
                PathSegment::Field(f) => f@,
                PathSegment::Index(_) => Seq::empty(),
            },
    )
}

/// Every segment of the path is a field.
pub open spec fn all_fields(segments: Seq<PathSegment>) -> bool {
    forall|i: int| 0 <= i < segments.len() ==> (#[trigger] segments[i]) is Field
}

/// The field path written `field` (`a.b.c`).
pub fn path_of(field: &str) -> (p: FieldPath)
    ensures
        all_fields(p.segments@),
        path_names(p.segments@) == split_dots(field@),
{
    let cs = chars_of(field);
    let mut segments: Vec<PathSegment> = Vec::new();
    let mut current: Vec<char> = Vec::new();
    let mut i: usize = 0;
    while i < cs.len()
        invariant
            cs@ == field@,
            i <= cs.len(),
            all_fields(segments@),
            path_names(segments@).push(current@) == split_dots(cs@.take(i as int)),
        decreases cs.len() - i,
    {
        let ghost before = path_names(segments@).push(current@);
        assert(cs@.take(i + 1).drop_last() =~= cs@.take(i as int));
        if cs[i] == '.' {
            let piece = string_of(&current);
            let ghost old_segments = segments@;
            segments.push(PathSegment::Field(piece));
            current = Vec::new();
            assert(path_names(segments@) =~= path_names(old_segments).push(piece@));
            assert(path_names(segments@).push(current@) =~= before.push(Seq::<char>::empty()));
        } else {
            let ghost old_current = current@;
            current.push(cs[i]);
            assert(path_names(segments@).push(current@) =~= before.update(
                before.len() - 1,
                before.last().push(cs@[i as int]),
            ));
        }
        i += 1;
    }
    let piece = string_of(&current);
    let ghost old_segments = segments@;
    segments.push(PathSegment::Field(piece));
    assert(path_names(segments@) =~= path_names(old_segments).push(piece@));
    assert(cs@.take(cs.len() as int) =~= cs@);
    FieldPath { segments }
}

/// `c` is a comparison with operator `op` of the field path named `names`.
pub open spec fn is_comparison(c: Condition, names: Seq<Seq<char>>, op: ComparisonOp) -> bool {
    match c {
        Condition::Comparison(x) => x.operator == op && all_fields(x.left.segments@) && path_names(
            x.left.segments@,
        ) == names,
        _ => false,
    }
}

/// The right-hand side of a comparison.
pub open spec fn right_side(c: Condition) -> Value {
    match c {
        Condition::Comparison(x) => x.right,
        _ => Value::Null,
    }
}

/// `v` is the string `s`.
pub open spec fn is_string_value(v: Value, s: Seq<char>) -> bool {
    match v {
        Value::String(x) => x@ == s,
        _ => false,
    }
}

/// `v` is the array of the strings `ss`.
pub open spec fn is_string_array(v: Value, ss: Seq<Seq<char>>) -> bool {
    match v {
        Value::Array(vs) => vs@.len() == ss.len() && forall|i: int|
            0 <= i < ss.len() ==> is_string_value(#[trigger] vs@[i], ss[i]),
        _ => false,
    }
}

/// `e` is a validation error with message `msg`.
pub open spec fn is_validation_error(e: RqlError, msg: Seq<char>) -> bool {
    match e {
        RqlError::Validation(m) => m@ == msg,
        _ => false,
    }
}

/// The conditions joined by AND, from the left.
pub open spec fn and_all(cs: Seq<Condition>) -> Condition
    recommends
        cs.len() > 0,
    decreases cs.len(),
{
    if cs.len() <= 1 {
        cs[0]
    } else {
        Condition::And(Box::new(and_all(cs.drop_last())), Box::new(cs.last()))
    }
}

/// A query under construction.
pub struct QueryBuilder {
    table: Option<String>,
    conditions: Vec<Condition>,
    search: Option<SearchClause>,
    limit: Option<LimitClause>,
}

impl QueryBuilder {
    /// The table set with `from`, if any.
    pub closed spec fn table(&self) -> Option<String> {
        self.table
    }

    /// The conditions added so far, in order.
    pub closed spec fn conditions(&self) -> Seq<Condition> {
        self.conditions@
    }

    /// The search clause set so far.
    pub closed spec fn search_clause(&self) -> Option<SearchClause> {
        self.search
    }

    /// The limit set so far.
    pub closed spec fn limit_clause(&self) -> Option<LimitClause> {
        self.limit
    }

    /// An empty builder.
    pub fn new() -> (b: Self)
        ensures
            b.table() is None,
            b.conditions() == Seq::<Condition>::empty(),
            b.search_clause() is None,
            b.limit_clause() is None,
    {
        QueryBuilder { table: None, conditions: Vec::new(), search: None, limit: None }
    }

    /// Set the table to query.
    pub fn from(self, table: &str) -> (b: Self)
        ensures
            b.table() matches Some(t) && t@ == table@,
            b.conditions() == self.conditions(),
            b.search_clause() == self.search_clause(),
            b.limit_clause() == self.limit_clause(),
    {
        let mut b = self;
        b.table = Some(to_string(table));
        b
    }

    /// Add the condition `field = 'value'`.
    pub fn where_eq(self, field: &str, value: &str) -> (b: Self)
        ensures
            b.table() == self.table(),
            b.search_clause() == self.search_clause(),
            b.limit_clause() == self.limit_clause(),
            b.conditions().len() == self.conditions().len() + 1,
            b.conditions().drop_last() == self.conditions(),
            is_comparison(b.conditions().last(), split_dots(field@), ComparisonOp::Eq),
            is_string_value(right_side(b.conditions().last()), value@),
    {
        let c = Comparison {
            left: path_of(field),
            operator: ComparisonOp::Eq,
            right: Value::String(to_string(value)),
        };
        self.push_condition(Condition::Comparison(c))
    }

    /// Add the condition `field > value`.
    pub fn where_gt(self, field: &str, value: Number) -> (b: Self)
        ensures
            b.table() == self.table(),
            b.search_clause() == self.search_clause(),
            b.limit_clause() == self.limit_clause(),
            b.conditions().len() == self.conditions().len() + 1,
            b.conditions().drop_last() == self.conditions(),
            is_comparison(b.conditions().last(), split_dots(field@), ComparisonOp::Gt),
            right_side(b.conditions().last()) == Value::Number(value),
    {
        let c = Comparison {
            left: path_of(field),
            operator: ComparisonOp::Gt,
            right: Value::Number(value),
        };
        self.push_condition(Condition::Comparison(c))
    }

    /// Add the condition `tags CONTAINS ANY (tags...)`.
    pub fn where_in_tags(self, tags: &[&str]) -> (b: Self)
        ensures
            b.table() == self.table(),
            b.search_clause() == self.search_clause(),
            b.limit_clause() == self.limit_clause(),
            b.conditions().len() == self.conditions().len() + 1,
            b.conditions().drop_last() == self.conditions(),
            is_comparison(b.conditions().last(), seq!["tags"@], ComparisonOp::ContainsAny),
            is_string_array(right_side(b.conditions().last()), tags@.map_values(|t: &str| t@)),
    {
        let mut values: Vec<Value> = Vec::new();
        let mut i: usize = 0;
        while i < tags.len()
            invariant
                i <= tags@.len(),
                values@.len() == i,
                forall|j: int| 0 <= j < i ==> is_string_value(#[trigger] values@[j], tags@[j]@),
            decreases tags@.len() - i,
        {
            values.push(Value::String(to_string(tags[i])));
            i += 1;
        }
        let left = path_of("tags");
        proof {
            reveal_strlit("tags");
            assert(!"tags"@.contains('.'));
            lemma_split_no_dots("tags"@);
        }
        let c = Comparison {
            left,
            operator: ComparisonOp::ContainsAny,
            right: Value::Array(values),
        };
        self.push_condition(Condition::Comparison(c))
    }

    fn push_condition(self, c: Condition) -> (b: Self)
        ensures
            b.table() == self.table(),
            b.search_clause() == self.search_clause(),
            b.limit_clause() == self.limit_clause(),
            b.conditions() == self.conditions().push(c),
    {
        let mut b = self;
        b.conditions.push(c);
        b
    }

    /// Set a full-text search.
    pub fn search(self, text: &str) -> (b: Self)
        ensures
            b.table() == self.table(),
            b.conditions() == self.conditions(),
            b.limit_clause() == self.limit_clause(),
            b.search_clause() matches Some(SearchClause::FullText(t)) && t@ == text@,
    {
        let mut b = self;
        b.search = Some(SearchClause::FullText(to_string(text)));
        b
    }

    /// Limit the number of results.
    pub fn limit(self, count: usize) -> (b: Self)
        ensures
            b.table() == self.table(),
            b.conditions() == self.conditions(),
            b.search_clause() == self.search_clause(),
            b.limit_clause() == Some(LimitClause { count, offset: None }),
    {
        let mut b = self;
        b.limit = Some(LimitClause { count, offset: None });
        b
    }

    /// The query: `SELECT *` from the table, the conditions joined by AND,
    /// the search and the limit; a validation error if no table was set.
    pub fn build(self) -> (r: Result<Query, RqlError>)
        ensures
            match r {
                Ok(q) => self.table() matches Some(t) && q.from.table == t && q.select
                    == SelectClause::All && q.search == self.search_clause() && q.limit
                    == self.limit_clause() && q.order_by is None && (if self.conditions().len()
                    == 0 {
                    q.where_clause is None
                } else {
                    q.where_clause == Some(WhereClause { condition: and_all(self.conditions()) })
                }),
                Err(e) => self.table() is None && is_validation_error(e, "FROM clause is required"@),
            },
    {
        let ghost conds = self.conditions@;
        let table = match self.table {
            Some(t) => t,
            None => {
                return Err(RqlError::Validation(to_string("FROM clause is required")));
            },
        };
        let mut conditions = self.conditions;
        let where_clause = if conditions.len() == 0 {
            None
        } else {
            let mut acc = conditions.remove(0);
            let ghost taken: int = 1;
            assert(conds.take(1) =~= seq![acc]);
            while conditions.len() > 0
                invariant
                    1 <= taken <= conds.len(),
                    conditions@ == conds.skip(taken),
                    acc == and_all(conds.take(taken)),
                decreases conditions.len(),
            {
                let c = conditions.remove(0);
                proof {
                    assert(conds.take(taken + 1).drop_last() =~= conds.take(taken));
                    assert(conds.take(taken + 1).last() == c);
                    assert(conditions@ =~= conds.skip(taken + 1));
                    taken = taken + 1;
                }
                acc = Condition::And(Box::new(acc), Box::new(c));
            }
            assert(conds.take(taken) =~= conds);
            Some(WhereClause { condition: acc })
        };
        Ok(
            Query {
                select: SelectClause::All,
                from: FromClause { table },
                where_clause,
                search: self.search,
                order_by: None,
                limit: self.limit,
            },
        )
    }
}

} // verus!
