//! The RQL lexer: text to tokens.
//!
//! Tokens are keywords (case-insensitive), identifiers, single-quoted
//! strings, decimal numbers (with an optional leading `-` and fraction), and
//! the symbols `* , ( ) . = != <> < <= > >=`; spaces, tabs and line breaks
//! separate them.
use vstd::prelude::*;
use crate::rql::ast::Number;
use crate::rql::error::LexerError;
use crate::text::{chars_of, push_chars, string_of, to_string};

verus! {

/// An RQL keyword.
#[derive(Debug, Clone, Copy, PartialEq, Eq, Structural)]
pub enum Keyword {
    Select,
    From,
    Where,
    And,
    Or,
    Not,
    Search,
    Reason,
    With,
    Confidence,
    Order,
    By,
    Asc,
    Desc,
    Limit,
    Offset,
    Count,
    Contains,
    All,
    Any,
    In,
    Like,
    Is,
    Null,
    True,
    False,
}

/// A token.
#[derive(Debug, Clone, PartialEq)]
pub enum Token {
    Keyword(Keyword),
    Ident(String),
    Str(String),
    Num(Number),
    Star,
    Comma,
    LParen,
    RParen,
    Dot,
    Eq,
    Ne,
    Lt,
    Gt,
    Le,
    Ge,
}

/// A token with the character range `[start, end)` of the input it was read
/// from.
#[derive(Debug, Clone)]
pub struct Spanned {
    pub token: Token,
    pub start: usize,
    pub end: usize,
}

/// The keyword spelled `word` (already upper-cased), if any.
pub open spec fn keyword_of(word: Seq<char>) -> Option<Keyword> {
    if word == "SELECT"@ {
        Some(Keyword::Select)
    } else if word == "FROM"@ {
        Some(Keyword::From)
    } else if word == "WHERE"@ {
        Some(Keyword::Where)
    } else if word == "AND"@ {
        Some(Keyword::And)
    } else if word == "OR"@ {
        Some(Keyword::Or)
    } else if word == "NOT"@ {
        Some(Keyword::Not)
    } else if word == "SEARCH"@ {
        Some(Keyword::Search)
    } else if word == "REASON"@ {
        Some(Keyword::Reason)
    } else if word == "WITH"@ {
        Some(Keyword::With)
    } else if word == "CONFIDENCE"@ {
        Some(Keyword::Confidence)
    } else if word == "ORDER"@ {
        Some(Keyword::Order)
    } else if word == "BY"@ {
        Some(Keyword::By)
    } else if word == "ASC"@ {
        Some(Keyword::Asc)
    } else if word == "DESC"@ {
        Some(Keyword::Desc)
    } else if word == "LIMIT"@ {
        Some(Keyword::Limit)
    } else if word == "OFFSET"@ {
        Some(Keyword::Offset)
    } else if word == "COUNT"@ {
        Some(Keyword::Count)
    } else if word == "CONTAINS"@ {
        Some(Keyword::Contains)
    } else if word == "ALL"@ {
        Some(Keyword::All)
    } else if word == "ANY"@ {
        Some(Keyword::Any)
    } else if word == "IN"@ {
        Some(Keyword::In)
    } else if word == "LIKE"@ {
        Some(Keyword::Like)
    } else if word == "IS"@ {
        Some(Keyword::Is)
    } else if word == "NULL"@ {
        Some(Keyword::Null)
    } else if word == "TRUE"@ {
        Some(Keyword::True)
    } else if word == "FALSE"@ {
        Some(Keyword::False)
    } else {
        None
    }
}

/// ASCII upper-case of a character.
pub open spec fn upper(c: char) -> char {
    if 'a' <= c <= 'z' {
        ((c as u8) - 32) as char
    } else {
        c
    }
}

/// Whitespace between tokens.
pub open spec fn is_space(c: char) -> bool {
    c == ' ' || c == '\t' || c == '\n' || c == '\r'
}

/// An ASCII decimal digit.
pub open spec fn is_digit(c: char) -> bool {
    '0' <= c <= '9'
}

/// A character that can start an identifier.
pub open spec fn is_ident_start(c: char) -> bool {
    ('a' <= c <= 'z') || ('A' <= c <= 'Z') || c == '_'
}

/// A character that can continue an identifier.
pub open spec fn is_ident_char(c: char) -> bool {
    is_ident_start(c) || is_digit(c)
}

/// The value of a sequence of decimal digits.
pub open spec fn digits_value(ds: Seq<char>) -> int
    decreases ds.len(),
{
    if ds.len() == 0 {
        0
    } else {
        digits_value(ds.drop_last()) * 10 + (ds.last() as int - '0' as int)
    }
}

/// The line (1-based) of position `i` of `input`.
#[verifier::opaque]
pub open spec fn line_at(input: Seq<char>, i: int) -> int
    decreases i,
{
    if i <= 0 {
        1
    } else if input[i - 1] == '\n' {
        line_at(input, i - 1) + 1
    } else {
        line_at(input, i - 1)
    }
}

/// The column (1-based) of position `i` of `input`.
#[verifier::opaque]
pub open spec fn column_at(input: Seq<char>, i: int) -> int
    decreases i,
{
    if i <= 0 {
        1
    } else if input[i - 1] == '\n' {
        1
    } else {
        column_at(input, i - 1) + 1
    }
}

/// The digits of a number's text without its sign: all digits, or digits
/// with one `.` that has `scale` digits after it and at least one before.
pub open spec fn number_body(body: Seq<char>, scale: int) -> bool {
    &&& body.len() > 0
    &&& is_digit(body[0])
    &&& scale == 0 ==> forall|i: int| 0 <= i < body.len() ==> is_digit(#[trigger] body[i])
    &&& scale > 0 ==> {
        &&& body.len() >= scale + 2
        &&& body[body.len() - scale - 1] == '.'
        &&& forall|i: int|
            0 <= i < body.len() && i != body.len() - scale - 1 ==> is_digit(#[trigger] body[i])
    }
}

/// The digits of a number body, without its `.`.
pub open spec fn body_digits(body: Seq<char>, scale: int) -> Seq<char> {
    if scale == 0 {
        body
    } else {
        body.remove(body.len() - scale - 1)
    }
}

/// `t` is the text of number `n`: an optional `-`, then a number body whose
/// digits (without the `.`) have the value of the mantissa's magnitude, at
/// most `i64::MAX`, with at most 18 digits after the `.`.
pub open spec fn number_text(t: Seq<char>, n: Number) -> bool {
    &&& n.s() <= 18
    &&& if t.len() > 0 && t[0] == '-' {
        &&& number_body(t.drop_first(), n.s() as int)
        &&& digits_value(body_digits(t.drop_first(), n.s() as int)) <= i64::MAX
        &&& n.m() == -digits_value(body_digits(t.drop_first(), n.s() as int))
    } else {
        &&& number_body(t, n.s() as int)
        &&& digits_value(body_digits(t, n.s() as int)) <= i64::MAX
        &&& n.m() == digits_value(body_digits(t, n.s() as int))
    }
}

/// What the text `t` reads as (its token, for a well-formed token text).
#[verifier::opaque]
pub open spec fn reads_as(t: Seq<char>, tok: Token) -> bool {
    match tok {
        Token::Keyword(k) => t.len() > 0 && is_ident_start(t[0]) && (forall|i: int|
            0 <= i < t.len() ==> is_ident_char(#[trigger] t[i])) && keyword_of(
            t.map_values(|c: char| upper(c)),
        ) == Some(k),
        Token::Ident(s) => t.len() > 0 && is_ident_start(t[0]) && (forall|i: int|
            0 <= i < t.len() ==> is_ident_char(#[trigger] t[i])) && keyword_of(
            t.map_values(|c: char| upper(c)),
        ) is None && s@ == t,
        Token::Str(s) => t.len() >= 2 && t[0] == '\'' && t.last() == '\'' && s@ == t.subrange(
            1,
            t.len() - 1,
        ) && !s@.contains('\''),
        Token::Num(n) => number_text(t, n),
        Token::Star => t == "*"@,
        Token::Comma => t == ","@,
        Token::LParen => t == "("@,
        Token::RParen => t == ")"@,
        Token::Dot => t == "."@,
        Token::Eq => t == "="@,
        Token::Ne => t == "!="@ || t == "<>"@,
        Token::Lt => t == "<"@,
        Token::Gt => t == ">"@,
        Token::Le => t == "<="@,
        Token::Ge => t == ">="@,
    }
}

} // verus!

verus! {

/// A token that ends at `end` is as long as it can be: an identifier or
/// keyword is not followed by an identifier character, a number not by a
/// digit (nor, without a fraction, by `.` and a digit), `<` not by `=` or
/// `>`, and `>` not by `=`.
pub open spec fn maximal(input: Seq<char>, tok: Token, end: int) -> bool {
    end < input.len() ==> match tok {
        Token::Keyword(_) => !is_ident_char(input[end]),
        Token::Ident(_) => !is_ident_char(input[end]),
        Token::Num(n) => !is_digit(input[end]) && (n.s() == 0 ==> !(input[end] == '.' && end + 1
            < input.len() && is_digit(input[end + 1]))),
        Token::Lt => input[end] != '=' && input[end] != '>',
        Token::Gt => input[end] != '=',
        _ => true,
    }
}

/// The gaps before, between and after the tokens up to position `upto` hold
/// only whitespace, the tokens are in order within `[0, upto)`, and each is
/// as long as it can be.
pub open spec fn covered(input: Seq<char>, ts: Seq<Spanned>, upto: int) -> bool {
    &&& 0 <= upto <= input.len()
    &&& forall|k: int| 0 <= k < ts.len() ==> maximal(input, (#[trigger] ts[k]).token, ts[k].end as int)
    &&& forall|k: int|
        0 <= k < ts.len() ==> (#[trigger] ts[k]).start < ts[k].end && ts[k].end <= upto
    &&& forall|k: int|
        0 <= k < ts.len() - 1 ==> (#[trigger] ts[k]).end <= ts[k + 1].start
    &&& forall|k: int|
        0 <= k < ts.len() ==> reads_as(
            input.subrange((#[trigger] ts[k]).start as int, ts[k].end as int),
            ts[k].token,
        )
    &&& forall|k: int, p: int|
        0 <= k < ts.len() && (if k == 0 {
            0
        } else {
            ts[k - 1].end as int
        }) <= p < (#[trigger] ts[k]).start ==> is_space(#[trigger] input[p])
    &&& forall|p: int|
        (if ts.len() == 0 {
            0
        } else {
            ts.last().end as int
        }) <= p < upto ==> is_space(#[trigger] input[p])
}

/// `ts` is a tokenization of all of `input`: the tokens in order, each read
/// from its range and as long as it can be, with only whitespace between
/// and around them.
pub open spec fn tokenizes(input: Seq<char>, ts: Seq<Spanned>) -> bool {
    covered(input, ts, input.len() as int)
}

/// A number body is not followed by a digit, nor, without a fraction, by
/// `.` and a digit.
pub open spec fn body_maximal(input: Seq<char>, e: int, scale: int) -> bool {
    e < input.len() ==> !is_digit(input[e]) && (scale == 0 ==> !(input[e] == '.' && e + 1
        < input.len() && is_digit(input[e + 1])))
}

/// A number starts at `p` and its text, as long as it can be, runs to `e`
/// with `scale` digits after its `.`: an optional `-`, then a number body.
pub open spec fn number_span(input: Seq<char>, p: int, e: int, scale: int) -> bool {
    let b = if input[p] == '-' {
        p + 1
    } else {
        p
    };
    &&& 0 <= p < input.len()
    &&& b < e <= input.len()
    &&& scale >= 0
    &&& number_body(input.subrange(b, e), scale)
    &&& body_maximal(input, e, scale)
}

/// The value of the digits of the number that runs from `p` to `e` with
/// `scale` fraction digits, without its sign.
pub open spec fn span_magnitude(input: Seq<char>, p: int, e: int, scale: int) -> int {
    let b = if input[p] == '-' {
        p + 1
    } else {
        p
    };
    digits_value(body_digits(input.subrange(b, e), scale))
}

/// No token starts at `p`: the character there is no whitespace and starts
/// no identifier, number, string or symbol.
pub open spec fn starts_nothing(input: Seq<char>, p: int) -> bool {
    let c = input[p];
    &&& !is_space(c)
    &&& !is_ident_start(c)
    &&& !is_digit(c)
    &&& !(c == '-' && p + 1 < input.len() && is_digit(input[p + 1]))
    &&& c != '\''
    &&& c != '*' && c != ',' && c != '(' && c != ')' && c != '.'
    &&& c != '=' && c != '<' && c != '>'
    &&& !(c == '!' && p + 1 < input.len() && input[p + 1] == '=')
}

/// The lexical error with message `msg` lies at `p`: no token starts there
/// ("Unexpected character"), a string opens there and never closes
/// ("Unterminated string"), or a number starts there with more than 18
/// digits after its `.` ("Number too precise") or with digits whose value
/// exceeds `i64::MAX` ("Number too large").
pub open spec fn lex_error(input: Seq<char>, p: int, msg: Seq<char>) -> bool {
    ||| msg == "Unexpected character"@ && starts_nothing(input, p)
    ||| msg == "Unterminated string"@ && input[p] == '\'' && forall|q: int|
        p < q < input.len() ==> input[q] != '\''
    ||| msg == "Number too precise"@ && exists|e: int, scale: int|
        #[trigger] number_span(input, p, e, scale) && scale > 18
    ||| msg == "Number too large"@ && exists|e: int, scale: int|
        #[trigger] number_span(input, p, e, scale) && scale <= 18 && span_magnitude(
            input,
            p,
            e,
            scale,
        ) > i64::MAX
}

/// `e` reports an error at position `p` of `input`: its line and column,
/// and the character found there.
pub open spec fn error_at(input: Seq<char>, e: LexerError, p: int) -> bool {
    &&& 0 <= p < input.len()
    &&& e.line == line_at(input, p)
    &&& e.column == column_at(input, p)
    &&& e.found@ == seq![input[p]]
}

proof fn lemma_line_column_bound(input: Seq<char>, i: int)
    requires
        0 <= i,
        i <= input.len(),
    ensures
        1 <= line_at(input, i) <= i + 1,
        1 <= column_at(input, i) <= i + 1,
    decreases i,
{
    reveal(line_at);
    reveal(column_at);
    if i > 0 {
        lemma_line_column_bound(input, i - 1);
    }
}

/// Whether `v` spells the string `s`.
fn chars_eq_str(v: &Vec<char>, s: &str) -> (r: bool)
    ensures
        r == (v@ == s@),
{
    let w = chars_of(s);
    if w.len() != v.len() {
        return false;
    }
    let mut i: usize = 0;
    while i < w.len()
        invariant
            w@ == s@,
            w.len() == v.len(),
            i <= w.len(),
            forall|j: int| 0 <= j < i ==> w@[j] == v@[j],
        decreases w.len() - i,
    {
        if w[i] != v[i] {
            return false;
        }
        i += 1;
    }
    assert(v@ =~= w@);
    true
}

/// The keyword that an identifier spells, ignoring ASCII case.
fn word_keyword(w: &Vec<char>) -> (r: Option<Keyword>)
    ensures
        r == keyword_of(w@.map_values(|c: char| upper(c))),
{
    let mut u: Vec<char> = Vec::new();
    let mut i: usize = 0;
    while i < w.len()
        invariant
            i <= w.len(),
            u@ == w@.take(i as int).map_values(|c: char| upper(c)),
        decreases w.len() - i,
    {
        let c = w[i];
        let uc = if 'a' <= c && c <= 'z' {
            ((c as u8) - 32) as char
        } else {
            c
        };
        u.push(uc);
        assert(w@.take(i + 1).map_values(|c: char| upper(c)) =~= w@.take(i as int).map_values(
            |c: char| upper(c),
        ).push(upper(c)));
        i += 1;
    }
    assert(w@.take(w.len() as int) =~= w@);
    if chars_eq_str(&u, "SELECT") {
        Some(Keyword::Select)
    } else if chars_eq_str(&u, "FROM") {
        Some(Keyword::From)
    } else if chars_eq_str(&u, "WHERE") {
        Some(Keyword::Where)
    } else if chars_eq_str(&u, "AND") {
        Some(Keyword::And)
    } else if chars_eq_str(&u, "OR") {
        Some(Keyword::Or)
    } else if chars_eq_str(&u, "NOT") {
        Some(Keyword::Not)
    } else if chars_eq_str(&u, "SEARCH") {
        Some(Keyword::Search)
    } else if chars_eq_str(&u, "REASON") {
        Some(Keyword::Reason)
    } else if chars_eq_str(&u, "WITH") {
        Some(Keyword::With)
    } else if chars_eq_str(&u, "CONFIDENCE") {
        Some(Keyword::Confidence)
    } else if chars_eq_str(&u, "ORDER") {
        Some(Keyword::Order)
    } else if chars_eq_str(&u, "BY") {
        Some(Keyword::By)
    } else if chars_eq_str(&u, "ASC") {
        Some(Keyword::Asc)
    } else if chars_eq_str(&u, "DESC") {
        Some(Keyword::Desc)
    } else if chars_eq_str(&u, "LIMIT") {
        Some(Keyword::Limit)
    } else if chars_eq_str(&u, "OFFSET") {
        Some(Keyword::Offset)
    } else if chars_eq_str(&u, "COUNT") {
        Some(Keyword::Count)
    } else if chars_eq_str(&u, "CONTAINS") {
        Some(Keyword::Contains)
    } else if chars_eq_str(&u, "ALL") {
        Some(Keyword::All)
    } else if chars_eq_str(&u, "ANY") {
        Some(Keyword::Any)
    } else if chars_eq_str(&u, "IN") {
        Some(Keyword::In)
    } else if chars_eq_str(&u, "LIKE") {
        Some(Keyword::Like)
    } else if chars_eq_str(&u, "IS") {
        Some(Keyword::Is)
    } else if chars_eq_str(&u, "NULL") {
        Some(Keyword::Null)
    } else if chars_eq_str(&u, "TRUE") {
        Some(Keyword::True)
    } else if chars_eq_str(&u, "FALSE") {
        Some(Keyword::False)
    } else {
        None
    }
}

/// The end of the run of identifier characters starting at `i`.
fn scan_ident(v: &Vec<char>, i: usize) -> (j: usize)
    requires
        i < v.len(),
    ensures
        i <= j <= v.len(),
        forall|p: int| i <= p < j ==> is_ident_char(#[trigger] v@[p]),
        j == v.len() || !is_ident_char(v@[j as int]),
{
    let mut j = i;
    while j < v.len() && (('a' <= v[j] && v[j] <= 'z') || ('A' <= v[j] && v[j] <= 'Z') || v[j]
        == '_' || ('0' <= v[j] && v[j] <= '9'))
        invariant
            i <= j <= v.len(),
            forall|p: int| i <= p < j ==> is_ident_char(#[trigger] v@[p]),
        decreases v.len() - j,
    {
        j += 1;
    }
    j
}

/// The end of the run of decimal digits starting at `i`.
fn scan_digits(v: &Vec<char>, i: usize) -> (j: usize)
    requires
        i <= v.len(),
    ensures
        i <= j <= v.len(),
        forall|p: int| i <= p < j ==> is_digit(#[trigger] v@[p]),
        j == v.len() || !is_digit(v@[j as int]),
{
    let mut j = i;
    while j < v.len() && '0' <= v[j] && v[j] <= '9'
        invariant
            i <= j <= v.len(),
            forall|p: int| i <= p < j ==> is_digit(#[trigger] v@[p]),
        decreases v.len() - j,
    {
        j += 1;
    }
    j
}

/// The value of a run of digits is at least that of any of its prefixes.
proof fn lemma_digits_value_grows(d: Seq<char>, k: int)
    requires
        0 <= k <= d.len(),
        forall|p: int| 0 <= p < d.len() ==> is_digit(#[trigger] d[p]),
    ensures
        digits_value(d) >= digits_value(d.take(k)) >= 0,
    decreases d.len(),
{
    if d.len() > 0 {
        let r = d.drop_last();
        assert forall|p: int| 0 <= p < r.len() implies is_digit(#[trigger] r[p]) by {
            assert(r[p] == d[p]);
        }
        assert(is_digit(d[d.len() - 1]));
        if k == d.len() {
            assert(d.take(k) =~= d);
            lemma_digits_value_grows(r, r.len() as int);
            assert(r.take(r.len() as int) =~= r);
        } else {
            lemma_digits_value_grows(r, k);
            assert(r.take(k) =~= d.take(k));
        }
    } else {
        assert(d.take(k) =~= d);
    }
}

/// The value of the digits `d`, if it is at most `i64::MAX`.
fn digits_to_i64(d: &Vec<char>) -> (r: Option<i64>)
    requires
        forall|p: int| 0 <= p < d.len() ==> is_digit(#[trigger] d@[p]),
    ensures
        match r {
            Some(v) => v == digits_value(d@) && v >= 0,
            None => digits_value(d@) > i64::MAX,
        },
{
    let mut acc: i64 = 0;
    let mut i: usize = 0;
    while i < d.len()
        invariant
            i <= d.len(),
            forall|p: int| 0 <= p < d.len() ==> is_digit(#[trigger] d@[p]),
            acc == digits_value(d@.take(i as int)),
            acc >= 0,
        decreases d.len() - i,
    {
        let dig = (d[i] as u32 - '0' as u32) as i64;
        assert(d@.take(i + 1).drop_last() =~= d@.take(i as int));
        if acc > (i64::MAX - dig) / 10 {
            proof {
                assert(acc * 10 + dig > i64::MAX) by (nonlinear_arith)
                    requires
                        acc > (i64::MAX - dig) / 10,
                        0 <= dig <= 9,
                ;
                lemma_digits_value_grows(d@, i + 1);
            }
            return None;
        }
        acc = acc * 10 + dig;
        i += 1;
    }
    assert(d@.take(d.len() as int) =~= d@);
    Some(acc)
}

/// The line and column after reading `v[i..j]` from line `line`, column
/// `col` at `i`.
fn advance(v: &Vec<char>, i: usize, j: usize, line: usize, col: usize) -> (r: (usize, usize))
    requires
        i <= j <= v.len(),
        v.len() < usize::MAX,
        line == line_at(v@, i as int),
        col == column_at(v@, i as int),
    ensures
        r.0 == line_at(v@, j as int),
        r.1 == column_at(v@, j as int),
{
    let mut k = i;
    let mut line = line;
    let mut col = col;
    proof {
        reveal(line_at);
        reveal(column_at);
    }
    while k < j
        invariant
            i <= k <= j <= v.len(),
            v.len() < usize::MAX,
            line == line_at(v@, k as int),
            col == column_at(v@, k as int),
        decreases j - k,
    {
        proof {
            lemma_line_column_bound(v@, k as int);
            reveal(line_at);
            reveal(column_at);
        }
        if v[k] == '\n' {
            line = line + 1;
            col = 1;
        } else {
            col = col + 1;
        }
        k += 1;
    }
    (line, col)
}

} // verus!

verus! {

/// The characters `v[from..to]` as a vector.
fn slice_chars(v: &Vec<char>, from: usize, to: usize) -> (r: Vec<char>)
    requires
        from <= to <= v.len(),
    ensures
        r@ == v@.subrange(from as int, to as int),
{
    let mut r: Vec<char> = Vec::new();
    let mut k = from;
    while k < to
        invariant
            from <= k <= to <= v.len(),
            r@ == v@.subrange(from as int, k as int),
        decreases to - k,
    {
        r.push(v[k]);
        assert(r@ =~= v@.subrange(from as int, (k + 1) as int));
        k += 1;
    }
    r
}

/// Read the number whose text starts at `i` (a digit, or `-` before a
/// digit).
fn read_number(v: &Vec<char>, i: usize) -> (r: Result<(Token, usize), &'static str>)
    requires
        i < v.len(),
        is_digit(v@[i as int]) || (v@[i as int] == '-' && i + 1 < v.len() && is_digit(
            v@[i + 1],
        )),
    ensures
        match r {
            Ok((t, j)) => i < j <= v.len() && reads_as(v@.subrange(i as int, j as int), t)
                && maximal(v@, t, j as int),
            Err(m) => lex_error(v@, i as int, m@),
        },
{
    reveal(reads_as);
    let neg = v[i] == '-';
    let s = if neg {
        i + 1
    } else {
        i
    };
    let j1 = scan_digits(v, s);
    let mut digits = slice_chars(v, s, j1);
    let mut end = j1;
    let mut frac: usize = 0;
    if j1 < v.len() && j1 + 1 < v.len() && v[j1] == '.' && '0' <= v[j1 + 1] && v[j1 + 1] <= '9' {
        let j2 = scan_digits(v, j1 + 1);
        let more = slice_chars(v, j1 + 1, j2);
        let mut k: usize = 0;
        let ghost d0 = digits@;
        while k < more.len()
            invariant
                k <= more.len(),
                digits@ == d0 + more@.take(k as int),
            decreases more.len() - k,
        {
            digits.push(more[k]);
            assert(more@.take(k + 1) =~= more@.take(k as int).push(more@[k as int]));
            k += 1;
        }
        assert(more@.take(more.len() as int) =~= more@);
        frac = j2 - j1 - 1;
        end = j2;
    }
    let ghost t = v@.subrange(i as int, end as int);
    let ghost body = v@.subrange(s as int, end as int);
    proof {
        if frac > 0 {
            assert(body.remove(j1 - s) =~= digits@);
        } else {
            assert(body =~= digits@);
        }
        if neg {
            assert(t.drop_first() =~= body);
        } else {
            assert(t =~= body);
        }
        assert(number_body(body, frac as int));
        assert(number_span(v@, i as int, end as int, frac as int));
    }
    if frac > 18 {
        return Err("Number too precise");
    }
    let value = match digits_to_i64(&digits) {
        Some(x) => x,
        None => {
            assert(span_magnitude(v@, i as int, end as int, frac as int) > i64::MAX);
            return Err("Number too large");
        },
    };
    let mantissa = if neg {
        -value
    } else {
        value
    };
    let n = Number::new(mantissa, frac as u32);
    proof {
        assert(number_body(body, frac as int));
        assert(number_text(t, n));
    }
    Ok((Token::Num(n), end))
}

/// Read the token that starts at `i` (not whitespace); the message of the
/// error if no token starts there.
fn read_token(v: &Vec<char>, i: usize) -> (r: Result<(Token, usize), &'static str>)
    requires
        i < v.len(),
        !is_space(v@[i as int]),
    ensures
        match r {
            Ok((t, j)) => i < j <= v.len() && reads_as(v@.subrange(i as int, j as int), t)
                && maximal(v@, t, j as int),
            Err(m) => lex_error(v@, i as int, m@),
        },
{
    reveal(reads_as);
    let c = v[i];
    let n = v.len();
    if ('a' <= c && c <= 'z') || ('A' <= c && c <= 'Z') || c == '_' {
        let j = scan_ident(v, i);
        let word = slice_chars(v, i, j);
        match word_keyword(&word) {
            Some(k) => Ok((Token::Keyword(k), j)),
            None => Ok((Token::Ident(string_of(&word)), j)),
        }
    } else if ('0' <= c && c <= '9') || (c == '-' && i + 1 < n && '0' <= v[i + 1] && v[i + 1]
        <= '9') {
        read_number(v, i)
    } else if c == '\'' {
        let mut k = i + 1;
        while k < n && v[k] != '\''
            invariant
                i < k <= n == v.len(),
                forall|p: int| i < p < k ==> v@[p] != '\'',
            decreases n - k,
        {
            k += 1;
        }
        if k >= n {
            return Err("Unterminated string");
        }
        let body = slice_chars(v, i + 1, k);
        let s = string_of(&body);
        proof {
            let t = v@.subrange(i as int, (k + 1) as int);
            assert(t.subrange(1, t.len() - 1) =~= body@);
            if body@.contains('\'') {
                let q = choose|q: int| 0 <= q < body@.len() && body@[q] == '\'';
                assert(v@[i + 1 + q] == '\'');
            }
        }
        Ok((Token::Str(s), k + 1))
    } else if c == '*' {
        assert(v@.subrange(i as int, i + 1) =~= "*"@) by { reveal_strlit("*"); }
        Ok((Token::Star, i + 1))
    } else if c == ',' {
        assert(v@.subrange(i as int, i + 1) =~= ","@) by { reveal_strlit(","); }
        Ok((Token::Comma, i + 1))
    } else if c == '(' {
        assert(v@.subrange(i as int, i + 1) =~= "("@) by { reveal_strlit("("); }
        Ok((Token::LParen, i + 1))
    } else if c == ')' {
        assert(v@.subrange(i as int, i + 1) =~= ")"@) by { reveal_strlit(")"); }
        Ok((Token::RParen, i + 1))
    } else if c == '.' {
        assert(v@.subrange(i as int, i + 1) =~= "."@) by { reveal_strlit("."); }
        Ok((Token::Dot, i + 1))
    } else if c == '=' {
        assert(v@.subrange(i as int, i + 1) =~= "="@) by { reveal_strlit("="); }
        Ok((Token::Eq, i + 1))
    } else if c == '!' {
        if i + 1 < n && v[i + 1] == '=' {
            assert(v@.subrange(i as int, i + 2) =~= "!="@) by { reveal_strlit("!="); }
            Ok((Token::Ne, i + 2))
        } else {
            Err("Unexpected character")
        }
    } else if c == '<' {
        if i + 1 < n && v[i + 1] == '=' {
            assert(v@.subrange(i as int, i + 2) =~= "<="@) by { reveal_strlit("<="); }
            Ok((Token::Le, i + 2))
        } else if i + 1 < n && v[i + 1] == '>' {
            assert(v@.subrange(i as int, i + 2) =~= "<>"@) by { reveal_strlit("<>"); }
            Ok((Token::Ne, i + 2))
        } else {
            assert(v@.subrange(i as int, i + 1) =~= "<"@) by { reveal_strlit("<"); }
            Ok((Token::Lt, i + 1))
        }
    } else if c == '>' {
        if i + 1 < n && v[i + 1] == '=' {
            assert(v@.subrange(i as int, i + 2) =~= ">="@) by { reveal_strlit(">="); }
            Ok((Token::Ge, i + 2))
        } else {
            assert(v@.subrange(i as int, i + 1) =~= ">"@) by { reveal_strlit(">"); }
            Ok((Token::Gt, i + 1))
        }
    } else {
        Err("Unexpected character")
    }
}

/// The lexer error `msg` at position `i`.
fn error_at_position(v: &Vec<char>, i: usize, line: usize, col: usize, msg: &str) -> (e: LexerError)
    requires
        i < v.len(),
        line == line_at(v@, i as int),
        col == column_at(v@, i as int),
    ensures
        error_at(v@, e, i as int),
        e.message@ == msg@,
{
    let mut found = String::new();
    found.push(v[i]);
    assert(found@ =~= seq![v@[i as int]]);
    LexerError { message: to_string(msg), line, column: col, found }
}

proof fn lemma_covered_empty(input: Seq<char>)
    ensures
        covered(input, Seq::<Spanned>::empty(), 0),
{
    reveal(covered);
}

proof fn lemma_covered_space(input: Seq<char>, ts: Seq<Spanned>, i: int)
    requires
        covered(input, ts, i),
        i < input.len(),
        is_space(input[i]),
    ensures
        covered(input, ts, i + 1),
{
    reveal(covered);
}

proof fn lemma_covered_push(input: Seq<char>, before: Seq<Spanned>, i: int, j: int, tok: Token)
    requires
        covered(input, before, i),
        0 <= i < j <= input.len(),
        j <= usize::MAX,
        reads_as(input.subrange(i, j), tok),
        maximal(input, tok, j),
    ensures
        covered(input, before.push(Spanned { token: tok, start: i as usize, end: j as usize }), j),
{
    reveal(covered);
    let sp = Spanned { token: tok, start: i as usize, end: j as usize };
    let ts = before.push(sp);
    assert(ts.len() == before.len() + 1);
    assert(ts[ts.len() - 1] == sp);
    assert forall|k: int| 0 <= k < ts.len() - 1 implies (#[trigger] ts[k]).end <= ts[k + 1].start by {
        if k < before.len() - 1 {
            assert(ts[k] == before[k] && ts[k + 1] == before[k + 1]);
        } else {
            assert(ts[k] == before[k]);
        }
    }
    assert forall|k: int, p: int|
        0 <= k < ts.len() && (if k == 0 {
            0
        } else {
            ts[k - 1].end as int
        }) <= p < (#[trigger] ts[k]).start implies is_space(#[trigger] input[p]) by {
        if k < before.len() {
            assert(ts[k] == before[k]);
            if k > 0 {
                assert(ts[k - 1] == before[k - 1]);
            }
        } else if k > 0 {
            assert(ts[k - 1] == before[k - 1]);
        }
    }
    assert forall|k: int| 0 <= k < ts.len() implies reads_as(
        input.subrange((#[trigger] ts[k]).start as int, ts[k].end as int),
        ts[k].token,
    ) by {
        if k < before.len() {
            assert(ts[k] == before[k]);
        }
    }
    assert forall|k: int| 0 <= k < ts.len() implies (#[trigger] ts[k]).start < ts[k].end
        && ts[k].end <= j by {
        if k < before.len() {
            assert(ts[k] == before[k]);
        }
    }
    assert forall|k: int| 0 <= k < ts.len() implies maximal(input, (#[trigger] ts[k]).token, ts[k].end as int) by {
        if k < before.len() {
            assert(ts[k] == before[k]);
        }
    }
}

/// Append token `tok`, read from `v[i..j]`.
fn push_token(toks: Vec<Spanned>, v: &Vec<char>, i: usize, tok: Token, j: usize) -> (r: Vec<
    Spanned,
>)
    requires
        covered(v@, toks@, i as int),
        i < j <= v@.len(),
        reads_as(v@.subrange(i as int, j as int), tok),
        maximal(v@, tok, j as int),
    ensures
        covered(v@, r@, j as int),
{
    proof {
        lemma_covered_push(v@, toks@, i as int, j as int, tok);
    }
    let mut toks = toks;
    toks.push(Spanned { token: tok, start: i, end: j });
    toks
}

/// Read what starts at position `i`: skip one whitespace character or
/// read one token; the position, line and column after it.
fn lex_step(v: &Vec<char>, i: usize, line: usize, col: usize, toks: Vec<Spanned>) -> (r: Result<
    (Vec<Spanned>, usize, usize, usize),
    LexerError,
>)
    requires
        i < v.len(),
        v.len() < usize::MAX,
        line == line_at(v@, i as int),
        col == column_at(v@, i as int),
        covered(v@, toks@, i as int),
    ensures
        match r {
            Ok((ts, j, l, c)) => i < j <= v.len() && l == line_at(v@, j as int) && c == column_at(
                v@,
                j as int,
            ) && covered(v@, ts@, j as int),
            Err(e) => error_at(v@, e, i as int) && lex_error(v@, i as int, e.message@),
        },
{
    let c = v[i];
    if c == ' ' || c == '\t' || c == '\n' || c == '\r' {
        proof {
            lemma_covered_space(v@, toks@, i as int);
        }
        let (l2, c2) = advance(v, i, i + 1, line, col);
        Ok((toks, i + 1, l2, c2))
    } else {
        match read_token(v, i) {
            Ok((tok, j)) => {
                let ts = push_token(toks, v, i, tok, j);
                let (l2, c2) = advance(v, i, j, line, col);
                Ok((ts, j, l2, c2))
            },
            Err(msg) => Err(error_at_position(v, i, line, col, msg)),
        }
    }
}

proof fn lemma_line_column_start(input: Seq<char>)
    ensures
        line_at(input, 0) == 1,
        column_at(input, 0) == 1,
{
    reveal(line_at);
    reveal(column_at);
}

/// `e` reports a lexical error at some position of `input` before which the
/// text splits into tokens.
pub open spec fn error_in(input: Seq<char>, e: LexerError) -> bool {
    exists|p: int|
        #[trigger] error_at(input, e, p) && lex_error(input, p, e.message@) && lexes_up_to(input, p)
}

/// The text before position `p` splits into tokens.
pub open spec fn lexes_up_to(input: Seq<char>, p: int) -> bool {
    exists|ts: Seq<Spanned>| #[trigger] covered(input, ts, p)
}

proof fn lemma_error_in(input: Seq<char>, e: LexerError, p: int)
    requires
        error_at(input, e, p),
        lex_error(input, p, e.message@),
        lexes_up_to(input, p),
    ensures
        error_in(input, e),
{
}

/// Split the characters `v` into tokens.
fn tokenize_chars(v: &Vec<char>) -> (r: Result<Vec<Spanned>, (LexerError, usize)>)
    requires
        v@.len() < usize::MAX,
    ensures
        match r {
            Ok(ts) => tokenizes(v@, ts@),
            Err((e, p)) => error_at(v@, e, p as int) && lex_error(v@, p as int, e.message@)
                && lexes_up_to(v@, p as int),
        },
{
    let n = v.len();
    let mut toks: Vec<Spanned> = Vec::new();
    let mut i: usize = 0;
    let mut line: usize = 1;
    let mut col: usize = 1;
    proof {
        lemma_covered_empty(v@);
        lemma_line_column_start(v@);
    }
    while i < n
        invariant
            n == v.len(),
            n < usize::MAX,
            i <= n,
            line == line_at(v@, i as int),
            col == column_at(v@, i as int),
            covered(v@, toks@, i as int),
        decreases n - i,
    {
        match lex_step(v, i, line, col, toks) {
            Ok((ts, j, l, c)) => {
                toks = ts;
                i = j;
                line = l;
                col = c;
            },
            Err(e) => {
                return Err((e, i));
            },
        }
    }
    Ok(toks)
}

/// Split `input` into tokens; on a character that starts no token (or a
/// string without its closing quote, or a number too large for `i64` or
/// with more than 18 fractional digits), a lexer error at that character.
pub fn tokenize(input: &str) -> (r: Result<Vec<Spanned>, LexerError>)
    requires
        input@.len() < usize::MAX,
    ensures
        match r {
            Ok(ts) => tokenizes(input@, ts@),
            Err(e) => error_in(input@, e),
        },
{
    let v = chars_of(input);
    assert(v@ == input@);
    match tokenize_chars(&v) {
        Ok(ts) => Ok(ts),
        Err((e, pos)) => {
            proof {
                lemma_error_in(v@, e, pos as int);
            }
            Err(e)
        },
    }
}

} // verus!
