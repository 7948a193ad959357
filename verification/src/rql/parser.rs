//! The RQL parser: tokens to a `Query`.
use vstd::prelude::*;
use crate::rql::ast::{Comparison, ComparisonOp, Condition, FieldPath, FromClause, LimitClause,
    OrderByClause, PathSegment, Query, SearchClause, SelectClause, SortDirection, Value, WhereClause};
use crate::rql::error::{ParserError, RqlError};
use crate::rql::grammar::{SelectView, and_at, and_rest, comparison_at, comparison_view, cond_view, count_at,
    fields_rest, is_kw, limit_at, list_at, list_rest, not_at, operation_at, or_at, or_rest, order_at,
    path_at, path_rest, paths_view, primary_at, query_of, query_view, right_view, scalar_at,
    search_at, select_at, select_view, tok_at, toks, where_at, RightView};
use crate::rql::lexer::{tokenize, tokenizes, error_in, Keyword, Spanned, Token};
use crate::text::to_string;

verus! {

/// Whether the token at `pos` is keyword `k`.
fn is_keyword(ts: &Vec<Spanned>, pos: usize, k: Keyword) -> (r: bool)
    ensures
        r == is_kw(toks(ts@), pos as int, k),
{
    if pos < ts.len() {
        match &ts[pos].token {
            Token::Keyword(k2) => *k2 == k,
            _ => false,
        }
    } else {
        false
    }
}

/// A punctuation token.
#[derive(Clone, Copy, PartialEq, Eq, Structural)]
pub enum Punct {
    Star,
    Comma,
    LParen,
    RParen,
    Dot,
    Gt,
}

/// The token of a punctuation mark.
pub open spec fn punct_token(p: Punct) -> Token {
    match p {
        Punct::Star => Token::Star,
        Punct::Comma => Token::Comma,
        Punct::LParen => Token::LParen,
        Punct::RParen => Token::RParen,
        Punct::Dot => Token::Dot,
        Punct::Gt => Token::Gt,
    }
}

/// Whether the token at `pos` is the punctuation mark `p`.
fn is_punct(ts: &Vec<Spanned>, pos: usize, p: Punct) -> (r: bool)
    ensures
        r == (tok_at(toks(ts@), pos as int) == Some(punct_token(p))),
{
    if pos >= ts.len() {
        return false;
    }
    match (&ts[pos].token, p) {
        (Token::Star, Punct::Star) => true,
        (Token::Comma, Punct::Comma) => true,
        (Token::LParen, Punct::LParen) => true,
        (Token::RParen, Punct::RParen) => true,
        (Token::Dot, Punct::Dot) => true,
        (Token::Gt, Punct::Gt) => true,
        _ => false,
    }
}

/// A parser error at token position `pos`, expecting `expected`.
fn error_expected(msg: &str, expected: &str, pos: usize) -> (e: ParserError)
    ensures
        e.message@ == msg@,
        e.expected matches Some(x) && x@ == expected@,
        e.found is None,
        e.position == pos,
{
    ParserError::new(to_string(msg)).expected(to_string(expected)).at(pos)
}

/// Parse an identifier at `pos`.
fn parse_ident(ts: &Vec<Spanned>, pos: usize) -> (r: Result<(String, usize), ParserError>)
    ensures
        match r {
            Ok((s, p)) => tok_at(toks(ts@), pos as int) == Some(Token::Ident(s)) && p == pos + 1,
            Err(_) => !(tok_at(toks(ts@), pos as int) matches Some(Token::Ident(_))),
        },
{
    if pos < ts.len() {
        match &ts[pos].token {
            Token::Ident(s) => {
                return Ok((s.clone(), pos + 1));
            },
            _ => {},
        }
    }
    Err(error_expected("Expected identifier", "identifier", pos))
}

/// Parse a field path `name(.name)*` at `pos`.
fn parse_path(ts: &Vec<Spanned>, pos: usize) -> (r: Result<(FieldPath, usize), ParserError>)
    requires
        pos <= ts@.len(),
        ts@.len() + 8 <= usize::MAX,
    ensures
        match r {
            Ok((f, p)) => path_at(toks(ts@), pos as int) == Some((f.segments@, p as int)),
            Err(_) => path_at(toks(ts@), pos as int) is None,
        },
{
    let ghost t = toks(ts@);
    let (first, mut p) = parse_ident(ts, pos)?;
    let mut segments: Vec<PathSegment> = Vec::new();
    segments.push(PathSegment::Field(first));
    assert(segments@ =~= seq![PathSegment::Field(first)]);
    while p < ts.len() && is_punct(ts, p, Punct::Dot)
        invariant
            t == toks(ts@),
            pos < p <= ts@.len(),
            ts@.len() + 8 <= usize::MAX,
            path_at(t, pos as int) == path_rest(t, segments@, p as int),
        decreases ts@.len() - p,
    {
        let (name, q) = parse_ident(ts, p + 1)?;
        segments.push(PathSegment::Field(name));
        p = q;
    }
    Ok((FieldPath { segments }, p))
}

/// Parse a non-negative integer at `pos`.
fn parse_count(ts: &Vec<Spanned>, pos: usize) -> (r: Result<(usize, usize), ParserError>)
    ensures
        match r {
            Ok((n, p)) => count_at(toks(ts@), pos as int) == Some(n) && p == pos + 1,
            Err(_) => count_at(toks(ts@), pos as int) is None,
        },
{
    if pos < ts.len() {
        match &ts[pos].token {
            Token::Num(num) => {
                let m = num.mantissa();
                if num.scale() == 0 && m >= 0 && (m as u64) <= (usize::MAX as u64) {
                    return Ok((m as usize, pos + 1));
                }
            },
            _ => {},
        }
    }
    Err(error_expected("Expected a non-negative integer", "integer", pos))
}

/// Parse a string literal at `pos`.
fn parse_string(ts: &Vec<Spanned>, pos: usize) -> (r: Result<(String, usize), ParserError>)
    ensures
        match r {
            Ok((s, p)) => tok_at(toks(ts@), pos as int) == Some(Token::Str(s)) && p == pos + 1,
            Err(_) => !(tok_at(toks(ts@), pos as int) matches Some(Token::Str(_))),
        },
{
    if pos < ts.len() {
        match &ts[pos].token {
            Token::Str(s) => {
                return Ok((s.clone(), pos + 1));
            },
            _ => {},
        }
    }
    Err(error_expected("Expected string", "string", pos))
}

/// Parse a scalar literal at `pos`: a string, number, TRUE, FALSE or NULL.
fn parse_scalar(ts: &Vec<Spanned>, pos: usize) -> (r: Result<(Value, usize), ParserError>)
    ensures
        match r {
            Ok((v, p)) => scalar_at(toks(ts@), pos as int) == Some(v) && p == pos + 1,
            Err(_) => scalar_at(toks(ts@), pos as int) is None,
        },
{
    if pos < ts.len() {
        match &ts[pos].token {
            Token::Str(s) => {
                return Ok((Value::String(s.clone()), pos + 1));
            },
            Token::Num(n) => {
                return Ok((Value::Number(*n), pos + 1));
            },
            Token::Keyword(Keyword::True) => {
                return Ok((Value::Bool(true), pos + 1));
            },
            Token::Keyword(Keyword::False) => {
                return Ok((Value::Bool(false), pos + 1));
            },
            Token::Keyword(Keyword::Null) => {
                return Ok((Value::Null, pos + 1));
            },
            _ => {},
        }
    }
    Err(error_expected("Expected value", "value", pos))
}

/// Parse a parenthesized list of scalars `(v, ...)` at `pos`.
fn parse_list(ts: &Vec<Spanned>, pos: usize) -> (r: Result<(Vec<Value>, usize), ParserError>)
    requires
        pos <= ts@.len(),
        ts@.len() + 8 <= usize::MAX,
    ensures
        match r {
            Ok((items, p)) => list_at(toks(ts@), pos as int) == Some((items@, p as int)),
            Err(_) => list_at(toks(ts@), pos as int) is None,
        },
{
    let ghost t = toks(ts@);
    if !(pos < ts.len() && is_punct(ts, pos, Punct::LParen)) {
        return Err(error_expected("Expected list", "(", pos));
    }
    let mut items: Vec<Value> = Vec::new();
    let (v, mut p) = parse_scalar(ts, pos + 1)?;
    items.push(v);
    assert(items@ =~= seq![v]);
    while p < ts.len() && is_punct(ts, p, Punct::Comma)
        invariant
            t == toks(ts@),
            pos < p <= ts@.len(),
            ts@.len() + 8 <= usize::MAX,
            list_at(t, pos as int) == list_rest(t, items@, p as int),
        decreases ts@.len() - p,
    {
        let (v, q) = parse_scalar(ts, p + 1)?;
        items.push(v);
        p = q;
    }
    if p < ts.len() && is_punct(ts, p, Punct::RParen) {
        Ok((items, p + 1))
    } else {
        Err(error_expected("Expected ')' after list", ")", p))
    }
}

/// Parse a list at `pos` as an array value.
fn parse_list_value(ts: &Vec<Spanned>, pos: usize) -> (r: Result<(Value, usize), ParserError>)
    requires
        pos <= ts@.len(),
        ts@.len() + 8 <= usize::MAX,
    ensures
        match r {
            Ok((v, p)) => list_at(toks(ts@), pos as int) matches Some((items, q)) && right_view(v)
                == RightView::List(items) && p == q,
            Err(_) => list_at(toks(ts@), pos as int) is None,
        },
{
    let (items, p) = parse_list(ts, pos)?;
    Ok((Value::Array(items), p))
}

/// Parse a comparison operator and its right-hand side at `pos`.
fn parse_operation(ts: &Vec<Spanned>, pos: usize) -> (r: Result<(ComparisonOp, Value, usize), ParserError>)
    requires
        pos <= ts@.len(),
        ts@.len() + 8 <= usize::MAX,
    ensures
        match r {
            Ok((op, v, p)) => operation_at(toks(ts@), pos as int) == Some((op, right_view(v), p as int)),
            Err(_) => operation_at(toks(ts@), pos as int) is None,
        },
{
    let p = pos;
    if p >= ts.len() {
        return Err(error_expected("Expected comparison operator", "operator", p));
    }
    let op = match &ts[p].token {
        Token::Eq => ComparisonOp::Eq,
        Token::Ne => ComparisonOp::Ne,
        Token::Lt => ComparisonOp::Lt,
        Token::Le => ComparisonOp::Le,
        Token::Gt => ComparisonOp::Gt,
        Token::Ge => ComparisonOp::Ge,
        Token::Keyword(Keyword::Like) => ComparisonOp::Like,
        Token::Keyword(Keyword::In) => {
            let (v, q) = parse_list_value(ts, p + 1)?;
            return Ok((ComparisonOp::In, v, q));
        },
        Token::Keyword(Keyword::Contains) => {
            if is_keyword(ts, p + 1, Keyword::All) {
                let (v, q) = parse_list_value(ts, p + 2)?;
                return Ok((ComparisonOp::ContainsAll, v, q));
            } else if is_keyword(ts, p + 1, Keyword::Any) {
                let (v, q) = parse_list_value(ts, p + 2)?;
                return Ok((ComparisonOp::ContainsAny, v, q));
            } else {
                return Err(error_expected("Expected ALL or ANY after CONTAINS", "ALL or ANY", p + 1));
            }
        },
        Token::Keyword(Keyword::Is) => {
            if is_keyword(ts, p + 1, Keyword::Null) {
                return Ok((ComparisonOp::IsNull, Value::Null, p + 2));
            } else if is_keyword(ts, p + 1, Keyword::Not) && is_keyword(ts, p + 2, Keyword::Null) {
                return Ok((ComparisonOp::IsNotNull, Value::Null, p + 3));
            } else {
                return Err(error_expected("Expected NULL or NOT NULL after IS", "NULL", p + 1));
            }
        },
        _ => {
            return Err(error_expected("Expected comparison operator", "operator", p));
        },
    };
    let (v, q) = parse_scalar(ts, p + 1)?;
    Ok((op, v, q))
}

/// Parse a comparison `path op value` at `pos`.
fn parse_comparison(ts: &Vec<Spanned>, pos: usize) -> (r: Result<(Comparison, usize), ParserError>)
    requires
        pos <= ts@.len(),
        ts@.len() + 8 <= usize::MAX,
    ensures
        match r {
            Ok((c, p)) => comparison_at(toks(ts@), pos as int) == Some((comparison_view(c), p as int)),
            Err(_) => comparison_at(toks(ts@), pos as int) is None,
        },
{
    let (left, p) = parse_path(ts, pos)?;
    proof {
        lemma_path_within(toks(ts@), pos as int);
    }
    let (operator, right, end) = parse_operation(ts, p)?;
    Ok((Comparison { left, operator, right }, end))
}

/// A path ends within the tokens, after its start.
proof fn lemma_path_within(t: Seq<Token>, p: int)
    ensures
        path_at(t, p) matches Some((segs, q)) ==> p < q <= t.len(),
{
    if path_at(t, p) is Some {
        lemma_path_rest_within(t, seq![PathSegment::Field(tok_at(t, p)->Some_0->Ident_0)], p + 1);
    }
}

/// The rest of a path ends within the tokens, at or after its start.
proof fn lemma_path_rest_within(t: Seq<Token>, segs: Seq<PathSegment>, p: int)
    requires
        0 <= p <= t.len(),
    ensures
        path_rest(t, segs, p) matches Some((s, q)) ==> p <= q <= t.len(),
    decreases t.len() - p,
{
    if tok_at(t, p) == Some(Token::Dot) {
        match tok_at(t, p + 1) {
            Some(Token::Ident(s)) => lemma_path_rest_within(t, segs.push(PathSegment::Field(s)), p + 2),
            _ => {},
        }
    }
}

/// Parse `condition OR condition ...` at `pos`.
fn parse_or(ts: &Vec<Spanned>, pos: usize) -> (r: Result<(Condition, usize), ParserError>)
    requires
        pos <= ts@.len(),
        ts@.len() + 8 <= usize::MAX,
    ensures
        match r {
            Ok((c, p)) => or_at(toks(ts@), pos as int) == Some((cond_view(c), p as int)) && pos < p
                <= ts@.len(),
            Err(_) => or_at(toks(ts@), pos as int) is None,
        },
    decreases ts@.len() - pos, 3nat,
{
    let ghost t = toks(ts@);
    let (mut left, mut p) = parse_and(ts, pos)?;
    while is_keyword(ts, p, Keyword::Or)
        invariant
            t == toks(ts@),
            pos < p <= ts@.len(),
            ts@.len() + 8 <= usize::MAX,
            or_at(t, pos as int) == or_rest(t, cond_view(left), p as int),
        decreases ts@.len() - p,
    {
        let (right, q) = parse_and(ts, p + 1)?;
        left = Condition::Or(Box::new(left), Box::new(right));
        p = q;
    }
    Ok((left, p))
}

/// Parse `condition AND condition ...` at `pos`.
fn parse_and(ts: &Vec<Spanned>, pos: usize) -> (r: Result<(Condition, usize), ParserError>)
    requires
        pos <= ts@.len(),
        ts@.len() + 8 <= usize::MAX,
    ensures
        match r {
            Ok((c, p)) => and_at(toks(ts@), pos as int) == Some((cond_view(c), p as int)) && pos < p
                <= ts@.len(),
            Err(_) => and_at(toks(ts@), pos as int) is None,
        },
    decreases ts@.len() - pos, 2nat,
{
    let ghost t = toks(ts@);
    let (mut left, mut p) = parse_not(ts, pos)?;
    while is_keyword(ts, p, Keyword::And)
        invariant
            t == toks(ts@),
            pos < p <= ts@.len(),
            ts@.len() + 8 <= usize::MAX,
            and_at(t, pos as int) == and_rest(t, cond_view(left), p as int),
        decreases ts@.len() - p,
    {
        let (right, q) = parse_not(ts, p + 1)?;
        left = Condition::And(Box::new(left), Box::new(right));
        p = q;
    }
    Ok((left, p))
}

/// Parse `NOT condition` or a primary condition at `pos`.
fn parse_not(ts: &Vec<Spanned>, pos: usize) -> (r: Result<(Condition, usize), ParserError>)
    requires
        pos <= ts@.len(),
        ts@.len() + 8 <= usize::MAX,
    ensures
        match r {
            Ok((c, p)) => not_at(toks(ts@), pos as int) == Some((cond_view(c), p as int)) && pos < p
                <= ts@.len(),
            Err(_) => not_at(toks(ts@), pos as int) is None,
        },
    decreases ts@.len() - pos, 1nat,
{
    if is_keyword(ts, pos, Keyword::Not) {
        let (inner, p) = parse_not(ts, pos + 1)?;
        Ok((Condition::Not(Box::new(inner)), p))
    } else {
        parse_primary(ts, pos)
    }
}

/// Parse `( condition )` or a comparison at `pos`.
fn parse_primary(ts: &Vec<Spanned>, pos: usize) -> (r: Result<(Condition, usize), ParserError>)
    requires
        pos <= ts@.len(),
        ts@.len() + 8 <= usize::MAX,
    ensures
        match r {
            Ok((c, p)) => primary_at(toks(ts@), pos as int) == Some((cond_view(c), p as int)) && pos
                < p <= ts@.len(),
            Err(_) => primary_at(toks(ts@), pos as int) is None,
        },
    decreases ts@.len() - pos, 0nat,
{
    if pos < ts.len() && is_punct(ts, pos, Punct::LParen) {
        let (inner, p) = parse_or(ts, pos + 1)?;
        if p < ts.len() && is_punct(ts, p, Punct::RParen) {
            Ok((inner, p + 1))
        } else {
            Err(error_expected("Expected ')'", ")", p))
        }
    } else {
        let (c, p) = parse_comparison(ts, pos)?;
        proof {
            lemma_comparison_within(toks(ts@), pos as int);
        }
        Ok((Condition::Comparison(c), p))
    }
}

/// A comparison ends within the tokens, after its start.
proof fn lemma_comparison_within(t: Seq<Token>, p: int)
    ensures
        comparison_at(t, p) matches Some((c, q)) ==> p < q <= t.len(),
{
    lemma_path_within(t, p);
    if path_at(t, p) is Some {
        lemma_operation_within(t, path_at(t, p)->Some_0.1);
    }
}

/// A comparison's operation ends within the tokens, after its start.
proof fn lemma_operation_within(t: Seq<Token>, p: int)
    ensures
        operation_at(t, p) matches Some((op, v, q)) ==> p < q <= t.len(),
{
    lemma_list_within(t, p + 1);
    lemma_list_within(t, p + 2);
}

/// A list ends within the tokens, after its start.
proof fn lemma_list_within(t: Seq<Token>, p: int)
    ensures
        list_at(t, p) matches Some((items, q)) ==> p < q <= t.len(),
{
    if list_at(t, p) is Some {
        lemma_list_rest_within(t, seq![scalar_at(t, p + 1)->Some_0], p + 2);
    }
}

/// The rest of a list ends within the tokens, after its start.
proof fn lemma_list_rest_within(t: Seq<Token>, items: Seq<Value>, p: int)
    requires
        0 <= p,
    ensures
        list_rest(t, items, p) matches Some((s, q)) ==> p < q <= t.len(),
    decreases t.len() - p,
{
    if tok_at(t, p) == Some(Token::Comma) {
        match scalar_at(t, p + 1) {
            Some(v) => lemma_list_rest_within(t, items.push(v), p + 2),
            None => {},
        }
    }
}

/// Parse the select list at `pos`.
fn parse_select(ts: &Vec<Spanned>, pos: usize) -> (r: Result<(SelectClause, usize), ParserError>)
    requires
        pos <= ts@.len(),
        ts@.len() + 8 <= usize::MAX,
    ensures
        match r {
            Ok((s, p)) => select_at(toks(ts@), pos as int) == Some((select_view(s), p as int)) && pos
                < p <= ts@.len(),
            Err(_) => select_at(toks(ts@), pos as int) is None,
        },
{
    let ghost t = toks(ts@);
    if pos < ts.len() && is_punct(ts, pos, Punct::Star) {
        return Ok((SelectClause::All, pos + 1));
    }
    if is_keyword(ts, pos, Keyword::Count) {
        if pos < ts.len() && ts.len() - pos > 3 && is_punct(ts, pos + 1, Punct::LParen)
            && is_punct(ts, pos + 2, Punct::Star) && is_punct(ts, pos + 3, Punct::RParen) {
            return Ok((SelectClause::Count, pos + 4));
        }
        return Err(error_expected("Expected COUNT(*)", "(*)", pos + 1));
    }
    let mut fields: Vec<FieldPath> = Vec::new();
    let (f, mut p) = parse_path(ts, pos)?;
    proof {
        lemma_path_within(t, pos as int);
    }
    fields.push(f);
    assert(paths_view(fields@) =~= seq![f.segments@]);
    while p < ts.len() && is_punct(ts, p, Punct::Comma)
        invariant
            t == toks(ts@),
            pos < p <= ts@.len(),
            ts@.len() + 8 <= usize::MAX,
            select_at(t, pos as int) == match fields_rest(t, paths_view(fields@), p as int) {
                Some((fs, e)) => Some((SelectView::Fields(fs), e)),
                None => None,
            },
        decreases ts@.len() - p,
    {
        let (f, q) = parse_path(ts, p + 1)?;
        proof {
            lemma_path_within(t, p + 1);
        }
        let ghost before = fields@;
        fields.push(f);
        assert(paths_view(fields@) =~= paths_view(before).push(f.segments@));
        p = q;
    }
    Ok((SelectClause::Fields(fields), p))
}

/// Parse an optional `WHERE` clause at `pos`.
fn parse_where(ts: &Vec<Spanned>, pos: usize) -> (r: Result<(Option<WhereClause>, usize), ParserError>)
    requires
        pos <= ts@.len(),
        ts@.len() + 8 <= usize::MAX,
    ensures
        match r {
            Ok((w, p)) => where_at(toks(ts@), pos as int) == Some(
                (
                    match w {
                        Some(c) => Some(cond_view(c.condition)),
                        None => None,
                    },
                    p as int,
                ),
            ) && pos <= p <= ts@.len(),
            Err(_) => where_at(toks(ts@), pos as int) is None,
        },
{
    if is_keyword(ts, pos, Keyword::Where) {
        let (condition, q) = parse_or(ts, pos + 1)?;
        Ok((Some(WhereClause { condition }), q))
    } else {
        Ok((None, pos))
    }
}

/// Parse an optional `SEARCH` or `REASON` clause at `pos`.
fn parse_search(ts: &Vec<Spanned>, pos: usize) -> (r: Result<(Option<SearchClause>, usize), ParserError>)
    requires
        pos <= ts@.len(),
        ts@.len() + 8 <= usize::MAX,
    ensures
        match r {
            Ok((s, p)) => search_at(toks(ts@), pos as int) == Some((s, p as int)) && pos <= p
                <= ts@.len(),
            Err(_) => search_at(toks(ts@), pos as int) is None,
        },
{
    if is_keyword(ts, pos, Keyword::Search) {
        let (text, q) = parse_string(ts, pos + 1)?;
        return Ok((Some(SearchClause::FullText(text)), q));
    }
    if !is_keyword(ts, pos, Keyword::Reason) {
        return Ok((None, pos));
    }
    let (text, p) = parse_string(ts, pos + 1)?;
    if !is_keyword(ts, p, Keyword::With) {
        return Ok((Some(SearchClause::Semantic { query: text, min_confidence: None }), p));
    }
    if !is_keyword(ts, p + 1, Keyword::Confidence) {
        return Err(error_expected("Expected CONFIDENCE after WITH", "CONFIDENCE", p + 1));
    }
    if !(p + 2 < ts.len() && is_punct(ts, p + 2, Punct::Gt)) {
        return Err(error_expected("Expected '>' after CONFIDENCE", ">", p + 2));
    }
    if p + 3 < ts.len() {
        match &ts[p + 3].token {
            Token::Num(n) => {
                return Ok((Some(SearchClause::Semantic { query: text, min_confidence: Some(*n) }), p + 4));
            },
            _ => {},
        }
    }
    Err(error_expected("Expected confidence value", "number", p + 3))
}

/// Parse an optional `ORDER BY` clause at `pos`.
fn parse_order(ts: &Vec<Spanned>, pos: usize) -> (r: Result<(Option<OrderByClause>, usize), ParserError>)
    requires
        pos <= ts@.len(),
        ts@.len() + 8 <= usize::MAX,
    ensures
        match r {
            Ok((o, p)) => order_at(toks(ts@), pos as int) == Some(
                (
                    match o {
                        Some(c) => Some((c.field.segments@, c.direction)),
                        None => None,
                    },
                    p as int,
                ),
            ) && pos <= p <= ts@.len(),
            Err(_) => order_at(toks(ts@), pos as int) is None,
        },
{
    if !is_keyword(ts, pos, Keyword::Order) {
        return Ok((None, pos));
    }
    if !is_keyword(ts, pos + 1, Keyword::By) {
        return Err(error_expected("Expected BY after ORDER", "BY", pos + 1));
    }
    let (field, mut p) = parse_path(ts, pos + 2)?;
    proof {
        lemma_path_within(toks(ts@), pos + 2);
    }
    let mut direction = SortDirection::Asc;
    if is_keyword(ts, p, Keyword::Asc) {
        p = p + 1;
    } else if is_keyword(ts, p, Keyword::Desc) {
        direction = SortDirection::Desc;
        p = p + 1;
    }
    Ok((Some(OrderByClause { field, direction }), p))
}

/// Parse an optional `LIMIT` clause at `pos`.
fn parse_limit(ts: &Vec<Spanned>, pos: usize) -> (r: Result<(Option<LimitClause>, usize), ParserError>)
    requires
        pos <= ts@.len(),
        ts@.len() + 8 <= usize::MAX,
    ensures
        match r {
            Ok((l, p)) => limit_at(toks(ts@), pos as int) == Some((l, p as int)) && pos <= p
                <= ts@.len(),
            Err(_) => limit_at(toks(ts@), pos as int) is None,
        },
{
    if !is_keyword(ts, pos, Keyword::Limit) {
        return Ok((None, pos));
    }
    let (count, p) = parse_count(ts, pos + 1)?;
    if is_keyword(ts, p, Keyword::Offset) {
        let (o, q) = parse_count(ts, p + 1)?;
        Ok((Some(LimitClause { count, offset: Some(o) }), q))
    } else {
        Ok((Some(LimitClause { count, offset: None }), p))
    }
}

/// Parse a whole query from tokens: the query that the grammar gives the
/// tokens (see `query_of`), or an error where it gives none. A token list
/// within 8 of `usize::MAX` in length is refused as too long.
pub fn parse_tokens(ts: &Vec<Spanned>) -> (r: Result<Query, ParserError>)
    ensures
        match r {
            Ok(q) => query_of(toks(ts@)) == Some(query_view(q)),
            Err(_) => ts@.len() + 8 <= usize::MAX ==> query_of(toks(ts@)) is None,
        },
{
    if ts.len() > usize::MAX - 8 {
        return Err(ParserError::new(to_string("Query too long")));
    }
    if !is_keyword(ts, 0, Keyword::Select) {
        return Err(error_expected("Expected SELECT", "SELECT", 0));
    }
    let (select, p) = parse_select(ts, 1)?;
    if !is_keyword(ts, p, Keyword::From) {
        return Err(error_expected("Expected FROM clause", "FROM", p));
    }
    let (table, p) = parse_ident(ts, p + 1)?;
    let (where_clause, p) = parse_where(ts, p)?;
    let (search, p) = parse_search(ts, p)?;
    let (order_by, p) = parse_order(ts, p)?;
    let (limit, p) = parse_limit(ts, p)?;
    if p < ts.len() {
        return Err(ParserError::new(to_string("Unexpected token")).at(p));
    }
    Ok(
        Query {
            select,
            from: FromClause { table },
            where_clause,
            search,
            order_by,
            limit,
        },
    )
}

impl Query {
    /// Parse an RQL query: tokenize `input`, then parse the tokens. The
    /// result is the query that the grammar gives a tokenization of
    /// `input`; a lexer error lies at a character of `input`; a parser
    /// error means that the grammar gives the tokenization no query.
    pub fn parse(input: &str) -> (r: Result<Query, RqlError>)
        requires
            input@.len() < usize::MAX,
        ensures
            match r {
                Ok(q) => exists|ts: Seq<Spanned>|
                    #[trigger] tokenizes(input@, ts) && query_of(toks(ts)) == Some(query_view(q)),
                Err(RqlError::Lexer(e)) => error_in(input@, e),
                Err(RqlError::Parser(_)) => exists|ts: Seq<Spanned>|
                    #[trigger] tokenizes(input@, ts) && (ts.len() + 8 <= usize::MAX ==> query_of(
                        toks(ts),
                    ) is None),
                Err(_) => false,
            },
    {
        let ts = match tokenize(input) {
            Ok(ts) => ts,
            Err(e) => {
                return Err(RqlError::Lexer(e));
            },
        };
        match parse_tokens(&ts) {
            Ok(q) => Ok(q),
            Err(e) => Err(RqlError::Parser(e)),
        }
    }
}

} // verus!
