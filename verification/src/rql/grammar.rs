//! The grammar of RQL over token sequences, as spec functions that give
//! the query (in a view of its own) that a token sequence denotes, if any.
//!
//! ```text
//! query      := SELECT select FROM ident [WHERE or] [search] [order] [limit]
//! select     := '*' | COUNT '(' '*' ')' | path (',' path)*
//! path       := ident ('.' ident)*
//! or         := and (OR and)*
//! and        := not (AND not)*
//! not        := NOT not | '(' or ')' | comparison
//! comparison := path op scalar | path IN list | path CONTAINS (ALL | ANY) list
//!             | path IS NULL | path IS NOT NULL
//! op         := '=' | '!=' | '<' | '<=' | '>' | '>=' | LIKE
//! list       := '(' scalar (',' scalar)* ')'
//! scalar     := string | number | TRUE | FALSE | NULL
//! search     := SEARCH string | REASON string [WITH CONFIDENCE '>' number]
//! order      := ORDER BY path [ASC | DESC]
//! limit      := LIMIT count [OFFSET count]
//! ```
//!
//! `AND` binds tighter than `OR`, and both group to the left.
use vstd::prelude::*;
use crate::rql::ast::{Comparison, ComparisonOp, Condition, FieldPath, LimitClause, Number,
    PathSegment, Query, SearchClause, SelectClause, SortDirection, Value};
use crate::rql::lexer::{Keyword, Spanned, Token};

verus! {

// ==================== Views of the syntax tree ====================

/// The right-hand side of a comparison: one value, or a list of them.
pub enum RightView {
    Scalar(Value),
    List(Seq<Value>),
}

/// A condition, with paths and lists as sequences.
pub enum CondView {
    Cmp(Seq<PathSegment>, ComparisonOp, RightView),
    And(Box<CondView>, Box<CondView>),
    Or(Box<CondView>, Box<CondView>),
    Not(Box<CondView>),
}

/// What a query selects, with paths as sequences.
pub enum SelectView {
    All,
    Count,
    Fields(Seq<Seq<PathSegment>>),
}

/// A query, with paths, lists and conditions in their views.
pub struct QueryView {
    pub select: SelectView,
    pub table: String,
    pub where_clause: Option<CondView>,
    pub search: Option<SearchClause>,
    pub order_by: Option<(Seq<PathSegment>, SortDirection)>,
    pub limit: Option<LimitClause>,
}

/// The view of a comparison's right-hand side.
pub open spec fn right_view(v: Value) -> RightView {
    match v {
        Value::Array(items) => RightView::List(items@),
        _ => RightView::Scalar(v),
    }
}

/// The view of a comparison.
pub open spec fn comparison_view(c: Comparison) -> CondView {
    CondView::Cmp(c.left.segments@, c.operator, right_view(c.right))
}

/// The view of a condition.
pub open spec fn cond_view(c: Condition) -> CondView
    decreases c,
{
    match c {
        Condition::Comparison(cmp) => comparison_view(cmp),
        Condition::And(l, r) => CondView::And(Box::new(cond_view(*l)), Box::new(cond_view(*r))),
        Condition::Or(l, r) => CondView::Or(Box::new(cond_view(*l)), Box::new(cond_view(*r))),
        Condition::Not(c) => CondView::Not(Box::new(cond_view(*c))),
    }
}

/// The paths of a list of field paths.
pub open spec fn paths_view(fs: Seq<FieldPath>) -> Seq<Seq<PathSegment>> {
    fs.map_values(|f: FieldPath| f.segments@)
}

/// The view of a select clause.
pub open spec fn select_view(s: SelectClause) -> SelectView {
    match s {
        SelectClause::All => SelectView::All,
        SelectClause::Count => SelectView::Count,
        SelectClause::Fields(fs) => SelectView::Fields(paths_view(fs@)),
    }
}

/// The view of a query.
pub open spec fn query_view(q: Query) -> QueryView {
    QueryView {
        select: select_view(q.select),
        table: q.from.table,
        where_clause: match q.where_clause {
            Some(w) => Some(cond_view(w.condition)),
            None => None,
        },
        search: q.search,
        order_by: match q.order_by {
            Some(o) => Some((o.field.segments@, o.direction)),
            None => None,
        },
        limit: q.limit,
    }
}

// ==================== Tokens ====================

/// The tokens of a spanned token sequence.
pub open spec fn toks(ts: Seq<Spanned>) -> Seq<Token> {
    ts.map_values(|s: Spanned| s.token)
}

/// The token at position `p`, if any.
pub open spec fn tok_at(t: Seq<Token>, p: int) -> Option<Token> {
    if 0 <= p < t.len() {
        Some(t[p])
    } else {
        None
    }
}

/// The token at `p` is the keyword `k`.
pub open spec fn is_kw(t: Seq<Token>, p: int, k: Keyword) -> bool {
    tok_at(t, p) == Some(Token::Keyword(k))
}

// ==================== Paths, values and lists ====================

/// The rest of a path after `segs`: `('.' ident)*` at `p`.
pub open spec fn path_rest(t: Seq<Token>, segs: Seq<PathSegment>, p: int) -> Option<(Seq<PathSegment>, int)>
    decreases t.len() - p,
{
    if tok_at(t, p) == Some(Token::Dot) {
        match tok_at(t, p + 1) {
            Some(Token::Ident(s)) => path_rest(t, segs.push(PathSegment::Field(s)), p + 2),
            _ => None,
        }
    } else {
        Some((segs, p))
    }
}

/// A path at `p`: its segments and the position after it.
pub open spec fn path_at(t: Seq<Token>, p: int) -> Option<(Seq<PathSegment>, int)> {
    match tok_at(t, p) {
        Some(Token::Ident(s)) => path_rest(t, seq![PathSegment::Field(s)], p + 1),
        _ => None,
    }
}

/// A scalar literal at `p`.
pub open spec fn scalar_at(t: Seq<Token>, p: int) -> Option<Value> {
    match tok_at(t, p) {
        Some(Token::Str(s)) => Some(Value::String(s)),
        Some(Token::Num(n)) => Some(Value::Number(n)),
        Some(Token::Keyword(Keyword::True)) => Some(Value::Bool(true)),
        Some(Token::Keyword(Keyword::False)) => Some(Value::Bool(false)),
        Some(Token::Keyword(Keyword::Null)) => Some(Value::Null),
        _ => None,
    }
}

/// The rest of a list after `items`, from the token at `p` on:
/// `(',' scalar)* ')'`.
pub open spec fn list_rest(t: Seq<Token>, items: Seq<Value>, p: int) -> Option<(Seq<Value>, int)>
    decreases t.len() - p,
{
    if tok_at(t, p) == Some(Token::Comma) {
        match scalar_at(t, p + 1) {
            Some(v) => list_rest(t, items.push(v), p + 2),
            None => None,
        }
    } else if tok_at(t, p) == Some(Token::RParen) {
        Some((items, p + 1))
    } else {
        None
    }
}

/// A parenthesized list of scalars at `p`.
pub open spec fn list_at(t: Seq<Token>, p: int) -> Option<(Seq<Value>, int)> {
    if tok_at(t, p) == Some(Token::LParen) {
        match scalar_at(t, p + 1) {
            Some(v) => list_rest(t, seq![v], p + 2),
            None => None,
        }
    } else {
        None
    }
}

/// A non-negative integer that fits in `usize`, at `p`.
pub open spec fn count_at(t: Seq<Token>, p: int) -> Option<usize> {
    match tok_at(t, p) {
        Some(Token::Num(n)) => if n.s() == 0 && 0 <= n.m() <= usize::MAX {
            Some(n.m() as usize)
        } else {
            None
        },
        _ => None,
    }
}

// ==================== Comparisons and conditions ====================

/// The operator that the token at `p` spells and that takes one scalar.
pub open spec fn scalar_op_at(t: Seq<Token>, p: int) -> Option<ComparisonOp> {
    match tok_at(t, p) {
        Some(Token::Eq) => Some(ComparisonOp::Eq),
        Some(Token::Ne) => Some(ComparisonOp::Ne),
        Some(Token::Lt) => Some(ComparisonOp::Lt),
        Some(Token::Le) => Some(ComparisonOp::Le),
        Some(Token::Gt) => Some(ComparisonOp::Gt),
        Some(Token::Ge) => Some(ComparisonOp::Ge),
        Some(Token::Keyword(Keyword::Like)) => Some(ComparisonOp::Like),
        _ => None,
    }
}

/// The operator and right-hand side of a comparison whose operator starts
/// at `p`, and the position after it.
pub open spec fn operation_at(t: Seq<Token>, p: int) -> Option<(ComparisonOp, RightView, int)> {
    match scalar_op_at(t, p) {
        Some(op) => match scalar_at(t, p + 1) {
            Some(v) => Some((op, RightView::Scalar(v), p + 2)),
            None => None,
        },
        None => if is_kw(t, p, Keyword::In) {
            match list_at(t, p + 1) {
                Some((items, q)) => Some((ComparisonOp::In, RightView::List(items), q)),
                None => None,
            }
        } else if is_kw(t, p, Keyword::Contains) {
            if is_kw(t, p + 1, Keyword::All) {
                match list_at(t, p + 2) {
                    Some((items, q)) => Some((ComparisonOp::ContainsAll, RightView::List(items), q)),
                    None => None,
                }
            } else if is_kw(t, p + 1, Keyword::Any) {
                match list_at(t, p + 2) {
                    Some((items, q)) => Some((ComparisonOp::ContainsAny, RightView::List(items), q)),
                    None => None,
                }
            } else {
                None
            }
        } else if is_kw(t, p, Keyword::Is) {
            if is_kw(t, p + 1, Keyword::Null) {
                Some((ComparisonOp::IsNull, RightView::Scalar(Value::Null), p + 2))
            } else if is_kw(t, p + 1, Keyword::Not) && is_kw(t, p + 2, Keyword::Null) {
                Some((ComparisonOp::IsNotNull, RightView::Scalar(Value::Null), p + 3))
            } else {
                None
            }
        } else {
            None
        },
    }
}

/// A comparison at `p`.
pub open spec fn comparison_at(t: Seq<Token>, p: int) -> Option<(CondView, int)> {
    match path_at(t, p) {
        Some((path, q)) => match operation_at(t, q) {
            Some((op, right, e)) => Some((CondView::Cmp(path, op, right), e)),
            None => None,
        },
        None => None,
    }
}

/// `or := and (OR and)*` at `p`.
pub open spec fn or_at(t: Seq<Token>, p: int) -> Option<(CondView, int)>
    decreases t.len() - p, 4nat,
{
    if 0 <= p <= t.len() {
        match and_at(t, p) {
            Some((l, q)) => if p < q <= t.len() {
                or_rest(t, l, q)
            } else {
                None
            },
            None => None,
        }
    } else {
        None
    }
}

/// `(OR and)*` after the disjunction `left`, at `p`.
pub open spec fn or_rest(t: Seq<Token>, left: CondView, p: int) -> Option<(CondView, int)>
    decreases t.len() - p, 4nat,
{
    if 0 <= p <= t.len() && is_kw(t, p, Keyword::Or) {
        match and_at(t, p + 1) {
            Some((r, q)) => if p < q <= t.len() {
                or_rest(t, CondView::Or(Box::new(left), Box::new(r)), q)
            } else {
                None
            },
            None => None,
        }
    } else {
        Some((left, p))
    }
}

/// `and := not (AND not)*` at `p`.
pub open spec fn and_at(t: Seq<Token>, p: int) -> Option<(CondView, int)>
    decreases t.len() - p, 3nat,
{
    if 0 <= p <= t.len() {
        match not_at(t, p) {
            Some((l, q)) => if p < q <= t.len() {
                and_rest(t, l, q)
            } else {
                None
            },
            None => None,
        }
    } else {
        None
    }
}

/// `(AND not)*` after the conjunction `left`, at `p`.
pub open spec fn and_rest(t: Seq<Token>, left: CondView, p: int) -> Option<(CondView, int)>
    decreases t.len() - p, 3nat,
{
    if 0 <= p <= t.len() && is_kw(t, p, Keyword::And) {
        match not_at(t, p + 1) {
            Some((r, q)) => if p < q <= t.len() {
                and_rest(t, CondView::And(Box::new(left), Box::new(r)), q)
            } else {
                None
            },
            None => None,
        }
    } else {
        Some((left, p))
    }
}

/// `not := NOT not | primary` at `p`.
pub open spec fn not_at(t: Seq<Token>, p: int) -> Option<(CondView, int)>
    decreases t.len() - p, 2nat,
{
    if 0 <= p < t.len() && is_kw(t, p, Keyword::Not) {
        match not_at(t, p + 1) {
            Some((c, q)) => Some((CondView::Not(Box::new(c)), q)),
            None => None,
        }
    } else {
        primary_at(t, p)
    }
}

/// `primary := '(' or ')' | comparison` at `p`.
pub open spec fn primary_at(t: Seq<Token>, p: int) -> Option<(CondView, int)>
    decreases t.len() - p, 1nat,
{
    if 0 <= p < t.len() && tok_at(t, p) == Some(Token::LParen) {
        match or_at(t, p + 1) {
            Some((c, q)) => if tok_at(t, q) == Some(Token::RParen) {
                Some((c, q + 1))
            } else {
                None
            },
            None => None,
        }
    } else {
        comparison_at(t, p)
    }
}

// ==================== Clauses ====================

/// `(',' path)*` after the paths `fields`, at `p`.
pub open spec fn fields_rest(t: Seq<Token>, fields: Seq<Seq<PathSegment>>, p: int) -> Option<
    (Seq<Seq<PathSegment>>, int),
>
    decreases t.len() - p,
{
    if tok_at(t, p) == Some(Token::Comma) {
        match path_at(t, p + 1) {
            Some((f, q)) => if p < q <= t.len() {
                fields_rest(t, fields.push(f), q)
            } else {
                None
            },
            None => None,
        }
    } else {
        Some((fields, p))
    }
}

/// The select list at `p`.
pub open spec fn select_at(t: Seq<Token>, p: int) -> Option<(SelectView, int)> {
    if tok_at(t, p) == Some(Token::Star) {
        Some((SelectView::All, p + 1))
    } else if is_kw(t, p, Keyword::Count) {
        if tok_at(t, p + 1) == Some(Token::LParen) && tok_at(t, p + 2) == Some(Token::Star)
            && tok_at(t, p + 3) == Some(Token::RParen) {
            Some((SelectView::Count, p + 4))
        } else {
            None
        }
    } else {
        match path_at(t, p) {
            Some((f, q)) => match fields_rest(t, seq![f], q) {
                Some((fs, e)) => Some((SelectView::Fields(fs), e)),
                None => None,
            },
            None => None,
        }
    }
}

/// An optional `WHERE or` at `p`.
pub open spec fn where_at(t: Seq<Token>, p: int) -> Option<(Option<CondView>, int)> {
    if is_kw(t, p, Keyword::Where) {
        match or_at(t, p + 1) {
            Some((c, q)) => Some((Some(c), q)),
            None => None,
        }
    } else {
        Some((None, p))
    }
}

/// An optional search clause at `p`.
pub open spec fn search_at(t: Seq<Token>, p: int) -> Option<(Option<SearchClause>, int)> {
    if is_kw(t, p, Keyword::Search) {
        match tok_at(t, p + 1) {
            Some(Token::Str(s)) => Some((Some(SearchClause::FullText(s)), p + 2)),
            _ => None,
        }
    } else if is_kw(t, p, Keyword::Reason) {
        match tok_at(t, p + 1) {
            Some(Token::Str(s)) => if is_kw(t, p + 2, Keyword::With) {
                if is_kw(t, p + 3, Keyword::Confidence) && tok_at(t, p + 4) == Some(Token::Gt) {
                    match tok_at(t, p + 5) {
                        Some(Token::Num(n)) => Some(
                            (Some(SearchClause::Semantic { query: s, min_confidence: Some(n) }), p + 6),
                        ),
                        _ => None,
                    }
                } else {
                    None
                }
            } else {
                Some((Some(SearchClause::Semantic { query: s, min_confidence: None }), p + 2))
            },
            _ => None,
        }
    } else {
        Some((None, p))
    }
}

/// An optional `ORDER BY path [ASC | DESC]` at `p`.
pub open spec fn order_at(t: Seq<Token>, p: int) -> Option<(Option<(Seq<PathSegment>, SortDirection)>, int)> {
    if is_kw(t, p, Keyword::Order) {
        if is_kw(t, p + 1, Keyword::By) {
            match path_at(t, p + 2) {
                Some((f, q)) => if is_kw(t, q, Keyword::Asc) {
                    Some((Some((f, SortDirection::Asc)), q + 1))
                } else if is_kw(t, q, Keyword::Desc) {
                    Some((Some((f, SortDirection::Desc)), q + 1))
                } else {
                    Some((Some((f, SortDirection::Asc)), q))
                },
                None => None,
            }
        } else {
            None
        }
    } else {
        Some((None, p))
    }
}

/// An optional `LIMIT count [OFFSET count]` at `p`.
pub open spec fn limit_at(t: Seq<Token>, p: int) -> Option<(Option<LimitClause>, int)> {
    if is_kw(t, p, Keyword::Limit) {
        match count_at(t, p + 1) {
            Some(c) => if is_kw(t, p + 2, Keyword::Offset) {
                match count_at(t, p + 3) {
                    Some(o) => Some((Some(LimitClause { count: c, offset: Some(o) }), p + 4)),
                    None => None,
                }
            } else {
                Some((Some(LimitClause { count: c, offset: None }), p + 2))
            },
            None => None,
        }
    } else {
        Some((None, p))
    }
}

/// The query that the whole token sequence `t` denotes, if any.
pub open spec fn query_of(t: Seq<Token>) -> Option<QueryView> {
    if !is_kw(t, 0, Keyword::Select) {
        None
    } else {
        match select_at(t, 1) {
            None => None,
            Some((select, p1)) => if !is_kw(t, p1, Keyword::From) {
                None
            } else {
                match tok_at(t, p1 + 1) {
                    Some(Token::Ident(table)) => match where_at(t, p1 + 2) {
                        None => None,
                        Some((where_clause, p2)) => match search_at(t, p2) {
                            None => None,
                            Some((search, p3)) => match order_at(t, p3) {
                                None => None,
                                Some((order_by, p4)) => match limit_at(t, p4) {
                                    None => None,
                                    Some((limit, p5)) => if p5 == t.len() {
                                        Some(
                                            QueryView {
                                                select,
                                                table,
                                                where_clause,
                                                search,
                                                order_by,
                                                limit,
                                            },
                                        )
                                    } else {
                                        None
                                    },
                                },
                            },
                        },
                    },
                    _ => None,
                }
            }
        }
    }
}

} // verus!
