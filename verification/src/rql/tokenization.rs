//! The tokenization of a text is unique: two token sequences that both
//! tokenize the same text have the same tokens at the same places.
use vstd::prelude::*;
use crate::rql::ast::Number;
use crate::rql::error::LexerError;
use crate::rql::lexer::{body_digits, body_maximal, covered, error_at, error_in, lex_error, lexes_up_to,
    number_span, span_magnitude, starts_nothing, digits_value, is_digit, is_ident_char, is_ident_start, is_space,
    keyword_of, maximal, number_body, number_text, reads_as, tokenizes, upper, Spanned, Token};

verus! {

/// Two tokens are the same: of the same kind, with the same text for
/// identifiers and strings and the same value for numbers.
pub open spec fn same_token(a: Token, b: Token) -> bool {
    match (a, b) {
        (Token::Ident(x), Token::Ident(y)) => x@ == y@,
        (Token::Str(x), Token::Str(y)) => x@ == y@,
        (Token::Num(x), Token::Num(y)) => x.m() == y.m() && x.s() == y.s(),
        (Token::Keyword(x), Token::Keyword(y)) => x == y,
        (Token::Ident(_), _) | (_, Token::Ident(_)) => false,
        (Token::Str(_), _) | (_, Token::Str(_)) => false,
        (Token::Num(_), _) | (_, Token::Num(_)) => false,
        (Token::Keyword(_), _) | (_, Token::Keyword(_)) => false,
        _ => a == b,
    }
}

/// The first character of a token's text tells its kind.
proof fn lemma_first_char(t: Seq<char>, tok: Token)
    requires
        reads_as(t, tok),
    ensures
        t.len() > 0,
        !is_space(t[0]),
        (tok is Keyword || tok is Ident) <==> is_ident_start(t[0]),
        tok is Str <==> t[0] == '\'',
        tok is Num <==> (is_digit(t[0]) || t[0] == '-'),
        tok is Star <==> t[0] == '*',
        tok is Comma <==> t[0] == ',',
        tok is LParen <==> t[0] == '(',
        tok is RParen <==> t[0] == ')',
        tok is Dot <==> t[0] == '.',
        tok is Eq <==> t[0] == '=',
        (tok is Ne || tok is Lt || tok is Le) <==> (t[0] == '<' || t[0] == '!'),
        (tok is Gt || tok is Ge) <==> t[0] == '>',
{
    reveal(reads_as);
    reveal_strlit("*");
    reveal_strlit(",");
    reveal_strlit("(");
    reveal_strlit(")");
    reveal_strlit(".");
    reveal_strlit("=");
    reveal_strlit("!=");
    reveal_strlit("<>");
    reveal_strlit("<");
    reveal_strlit(">");
    reveal_strlit("<=");
    reveal_strlit(">=");
    if tok is Num {
        let n = tok->Num_0;
        if t.len() > 0 && t[0] == '-' {
            assert(t.drop_first()[0] == t[1]);
        }
    }
}

/// Two identifier-like texts (identifiers or keywords) read from the same
/// start, each as long as it can be, end at the same place.
proof fn lemma_word_unique(input: Seq<char>, s: int, e1: int, t1: Token, e2: int, t2: Token)
    requires
        0 <= s < e1 <= input.len(),
        s < e2 <= input.len(),
        t1 is Keyword || t1 is Ident,
        t2 is Keyword || t2 is Ident,
        reads_as(input.subrange(s, e1), t1),
        maximal(input, t1, e1),
        reads_as(input.subrange(s, e2), t2),
        maximal(input, t2, e2),
    ensures
        e1 == e2,
        same_token(t1, t2),
{
    reveal(reads_as);
    if e1 < e2 {
        assert(input.subrange(s, e2)[e1 - s] == input[e1]);
    } else if e2 < e1 {
        assert(input.subrange(s, e1)[e2 - s] == input[e2]);
    }
}

/// Two string literals read from the same start end at the same place.
proof fn lemma_string_unique(input: Seq<char>, s: int, e1: int, t1: Token, e2: int, t2: Token)
    requires
        0 <= s < e1 <= input.len(),
        s < e2 <= input.len(),
        t1 is Str,
        t2 is Str,
        reads_as(input.subrange(s, e1), t1),
        reads_as(input.subrange(s, e2), t2),
    ensures
        e1 == e2,
        same_token(t1, t2),
{
    reveal(reads_as);
    let a = input.subrange(s, e1);
    let b = input.subrange(s, e2);
    if e1 < e2 {
        assert(a[a.len() - 1] == input[e1 - 1]);
        assert(b.subrange(1, b.len() - 1)[e1 - 1 - s - 1] == input[e1 - 1]);
        assert(t2->Str_0@.contains('\''));
    } else if e2 < e1 {
        assert(b[b.len() - 1] == input[e2 - 1]);
        assert(a.subrange(1, a.len() - 1)[e2 - 1 - s - 1] == input[e2 - 1]);
        assert(t1->Str_0@.contains('\''));
    }
}

/// Two number bodies read from the same start, each as long as it can be,
/// end at the same place and have the same scale.
proof fn lemma_body_unique(input: Seq<char>, b: int, e1: int, s1: int, e2: int, s2: int)
    requires
        0 <= b < e1 <= input.len(),
        b < e2 <= input.len(),
        0 <= s1,
        0 <= s2,
        number_body(input.subrange(b, e1), s1),
        number_body(input.subrange(b, e2), s2),
        body_maximal(input, e1, s1),
        body_maximal(input, e2, s2),
    ensures
        e1 == e2,
        s1 == s2,
{
    let a = input.subrange(b, e1);
    let c = input.subrange(b, e2);
    assert(a.len() == e1 - b && c.len() == e2 - b);
    assert(s1 > 0 ==> a.len() >= s1 + 2);
    assert(s2 > 0 ==> c.len() >= s2 + 2);
    if s1 == 0 && s2 == 0 {
        if e1 < e2 {
            assert(c[e1 - b] == input[e1]);
        } else if e2 < e1 {
            assert(a[e2 - b] == input[e2]);
        }
    } else if s1 == 0 {
        let d2 = e2 - s2 - 1;
        assert(c[d2 - b] == input[d2]);
        if e1 < d2 {
            assert(c[e1 - b] == input[e1]);
        } else if e1 > d2 {
            assert(a[d2 - b] == input[d2]);
        } else {
            assert(c[d2 + 1 - b] == input[d2 + 1]);
        }
    } else if s2 == 0 {
        let d1 = e1 - s1 - 1;
        assert(a[d1 - b] == input[d1]);
        if e2 < d1 {
            assert(a[e2 - b] == input[e2]);
        } else if e2 > d1 {
            assert(c[d1 - b] == input[d1]);
        } else {
            assert(a[d1 + 1 - b] == input[d1 + 1]);
        }
    } else {
        let d1 = e1 - s1 - 1;
        let d2 = e2 - s2 - 1;
        assert(a[d1 - b] == input[d1]);
        assert(c[d2 - b] == input[d2]);
        if d1 < d2 {
            assert(c[d1 - b] == input[d1]);
        } else if d2 < d1 {
            assert(a[d2 - b] == input[d2]);
        } else if e1 < e2 {
            assert(c[e1 - b] == input[e1]);
        } else if e2 < e1 {
            assert(a[e2 - b] == input[e2]);
        }
    }
}

/// Two numbers read from the same start end at the same place and have the
/// same value and scale.
proof fn lemma_number_unique(input: Seq<char>, s: int, e1: int, t1: Token, e2: int, t2: Token)
    requires
        0 <= s < e1 <= input.len(),
        s < e2 <= input.len(),
        t1 is Num,
        t2 is Num,
        reads_as(input.subrange(s, e1), t1),
        maximal(input, t1, e1),
        reads_as(input.subrange(s, e2), t2),
        maximal(input, t2, e2),
    ensures
        e1 == e2,
        same_token(t1, t2),
{
    reveal(reads_as);
    let n1 = t1->Num_0;
    let n2 = t2->Num_0;
    let a = input.subrange(s, e1);
    let c = input.subrange(s, e2);
    assert(a[0] == input[s] && c[0] == input[s]);
    if input[s] == '-' {
        assert(a.drop_first() =~= input.subrange(s + 1, e1));
        assert(c.drop_first() =~= input.subrange(s + 1, e2));
        lemma_body_unique(input, s + 1, e1, n1.s() as int, e2, n2.s() as int);
    } else {
        lemma_body_unique(input, s, e1, n1.s() as int, e2, n2.s() as int);
    }
}

/// Two tokens read from the same start, each as long as it can be, end at
/// the same place and are the same token.
pub proof fn lemma_token_unique(input: Seq<char>, s: int, e1: int, t1: Token, e2: int, t2: Token)
    requires
        0 <= s < e1 <= input.len(),
        s < e2 <= input.len(),
        reads_as(input.subrange(s, e1), t1),
        maximal(input, t1, e1),
        reads_as(input.subrange(s, e2), t2),
        maximal(input, t2, e2),
    ensures
        e1 == e2,
        same_token(t1, t2),
{
    let a = input.subrange(s, e1);
    let c = input.subrange(s, e2);
    lemma_first_char(a, t1);
    lemma_first_char(c, t2);
    assert(a[0] == input[s] && c[0] == input[s]);
    if t1 is Keyword || t1 is Ident {
        lemma_word_unique(input, s, e1, t1, e2, t2);
    } else if t1 is Str {
        lemma_string_unique(input, s, e1, t1, e2, t2);
    } else if t1 is Num {
        lemma_number_unique(input, s, e1, t1, e2, t2);
    } else {
        reveal(reads_as);
        reveal_strlit("*");
        reveal_strlit(",");
        reveal_strlit("(");
        reveal_strlit(")");
        reveal_strlit(".");
        reveal_strlit("=");
        reveal_strlit("!=");
        reveal_strlit("<>");
        reveal_strlit("<");
        reveal_strlit(">");
        reveal_strlit("<=");
        reveal_strlit(">=");
        if a.len() > 1 {
            assert(a[1] == input[s + 1]);
        }
        if c.len() > 1 {
            assert(c[1] == input[s + 1]);
        }
        assert(a.len() == e1 - s && c.len() == e2 - s);
    }
}

/// `covered`, behind a name that the proofs below unfold only where
/// needed.
#[verifier::opaque]
spec fn spans(input: Seq<char>, ts: Seq<Spanned>, upto: int) -> bool {
    covered(input, ts, upto)
}

/// What a token sequence that covers a text says of its token `j`: where
/// it lies, that it reads as its token and is as long as it can be, that
/// only whitespace comes before it since the previous token, and that its
/// first character is no whitespace.
proof fn lemma_token_facts(input: Seq<char>, ts: Seq<Spanned>, upto: int, j: int)
    requires
        spans(input, ts, upto),
        0 <= j < ts.len(),
    ensures
        ts[j].start < ts[j].end <= upto <= input.len(),
        j > 0 ==> ts[j - 1].end <= ts[j].start,
        reads_as(input.subrange(ts[j].start as int, ts[j].end as int), ts[j].token),
        maximal(input, ts[j].token, ts[j].end as int),
        forall|p: int|
            (if j == 0 {
                0
            } else {
                ts[j - 1].end as int
            }) <= p < ts[j].start ==> is_space(#[trigger] input[p]),
        !is_space(input[ts[j].start as int]),
{
    reveal(spans);
    let sp = ts[j];
    if j > 0 {
        assert(ts[j - 1].end <= ts[j].start);
    }
    lemma_first_char(input.subrange(sp.start as int, sp.end as int), sp.token);
    assert(input.subrange(sp.start as int, sp.end as int)[0] == input[sp.start as int]);
    assert forall|p: int|
        (if j == 0 {
            0
        } else {
            ts[j - 1].end as int
        }) <= p < ts[j].start implies is_space(#[trigger] input[p]) by {
        assert(0 <= j < ts.len());
    }
}

/// After the last token of a covering comes only whitespace, up to its end.
proof fn lemma_trailing_space(input: Seq<char>, ts: Seq<Spanned>, upto: int, p: int)
    requires
        spans(input, ts, upto),
        (if ts.len() == 0 {
            0
        } else {
            ts.last().end as int
        }) <= p < upto,
    ensures
        is_space(input[p]),
{
    reveal(spans);
}

/// The tokens before position `k` of two coverings of a text agree.
proof fn lemma_prefix_agrees(
    input: Seq<char>,
    a: Seq<Spanned>,
    ua: int,
    b: Seq<Spanned>,
    ub: int,
    k: int,
)
    requires
        spans(input, a, ua),
        spans(input, b, ub),
        0 <= k <= a.len(),
        k <= b.len(),
    ensures
        forall|j: int|
            0 <= j < k ==> (#[trigger] a[j]).start == b[j].start && a[j].end == b[j].end
                && same_token(a[j].token, b[j].token),
    decreases k,
{
    if k > 0 {
        let j = k - 1;
        lemma_prefix_agrees(input, a, ua, b, ub, j);
        lemma_token_facts(input, a, ua, j);
        lemma_token_facts(input, b, ub, j);
        let sa = a[j].start as int;
        let sb = b[j].start as int;
        if sa < sb {
            assert(is_space(input[sa]));
        } else if sb < sa {
            assert(is_space(input[sb]));
        }
        lemma_token_unique(input, sa, a[j].end as int, a[j].token, b[j].end as int, b[j].token);
    }
}

/// A text has one tokenization: two token sequences that tokenize the same
/// text hold the same tokens at the same places.
pub proof fn law_tokenization_unique(input: Seq<char>, a: Seq<Spanned>, b: Seq<Spanned>)
    requires
        tokenizes(input, a),
        tokenizes(input, b),
    ensures
        a.len() == b.len(),
        forall|k: int|
            0 <= k < a.len() ==> (#[trigger] a[k]).start == b[k].start && a[k].end == b[k].end
                && same_token(a[k].token, b[k].token),
{
    let n = input.len() as int;
    assert(spans(input, a, n) && spans(input, b, n)) by {
        reveal(spans);
    }
    let m: int = if a.len() <= b.len() {
        a.len() as int
    } else {
        b.len() as int
    };
    lemma_prefix_agrees(input, a, n, b, n, m);
    if a.len() != b.len() {
        let (longer, shorter) = if a.len() > b.len() {
            (a, b)
        } else {
            (b, a)
        };
        lemma_token_facts(input, longer, n, m);
        if m > 0 {
            assert(shorter.last() == shorter[m - 1]);
            assert(shorter[m - 1].end == longer[m - 1].end);
        }
        lemma_trailing_space(input, shorter, n, longer[m].start as int);
    }
}

/// Where the lexer reports an error, the character is no whitespace.
proof fn lemma_error_not_space(input: Seq<char>, p: int, msg: Seq<char>)
    requires
        0 <= p < input.len(),
        lex_error(input, p, msg),
    ensures
        !is_space(input[p]),
{
    if exists|e2: int, scale: int| #[trigger] number_span(input, p, e2, scale) {
        let (e2, scale) = choose|e2: int, scale: int| #[trigger] number_span(input, p, e2, scale);
        let b = if input[p] == '-' {
            p + 1
        } else {
            p
        };
        assert(input.subrange(b, e2)[0] == input[b]);
    }
}

/// A number that reads from `p` is not one that the lexer rejects there.
proof fn lemma_number_not_rejected(input: Seq<char>, p: int, e: int, n: Number, e2: int, scale: int)
    requires
        0 <= p < e <= input.len(),
        reads_as(input.subrange(p, e), Token::Num(n)),
        maximal(input, Token::Num(n), e),
        number_span(input, p, e2, scale),
    ensures
        scale <= 18,
        span_magnitude(input, p, e2, scale) <= i64::MAX,
{
    reveal(reads_as);
    let t = input.subrange(p, e);
    assert(t[0] == input[p]);
    let b = if input[p] == '-' {
        p + 1
    } else {
        p
    };
    if input[p] == '-' {
        assert(t.drop_first() =~= input.subrange(b, e));
    } else {
        assert(t =~= input.subrange(b, e));
    }
    lemma_body_unique(input, b, e, n.s() as int, e2, scale);
}

/// No token reads from `p` where the lexer reports an error there.
proof fn lemma_no_token_at_error(input: Seq<char>, p: int, msg: Seq<char>, e: int, tok: Token)
    requires
        0 <= p < e <= input.len(),
        lex_error(input, p, msg),
    ensures
        !(reads_as(input.subrange(p, e), tok) && maximal(input, tok, e)),
{
    if !(reads_as(input.subrange(p, e), tok) && maximal(input, tok, e)) {
        return;
    }
    let t = input.subrange(p, e);
    lemma_first_char(t, tok);
    assert(t[0] == input[p]);
    if t.len() > 1 {
        assert(t[1] == input[p + 1]);
    }
    if msg == "Unexpected character"@ && starts_nothing(input, p) {
        reveal(reads_as);
        reveal_strlit("!=");
        reveal_strlit("<>");
        reveal_strlit("<");
        reveal_strlit("<=");
        if tok is Num {
            if input[p] == '-' {
                assert(t.drop_first()[0] == t[1]);
            }
        }
    } else if msg == "Unterminated string"@ && input[p] == '\'' && forall|q: int|
        p < q < input.len() ==> input[q] != '\'' {
        reveal(reads_as);
        assert(t[t.len() - 1] == input[e - 1]);
    } else if msg == "Number too precise"@ && exists|e2: int, scale: int|
        #[trigger] number_span(input, p, e2, scale) && scale > 18 {
        let (e2, scale) = choose|e2: int, scale: int|
            #[trigger] number_span(input, p, e2, scale) && scale > 18;
        let b = if input[p] == '-' {
            p + 1
        } else {
            p
        };
        assert(input.subrange(b, e2)[0] == input[b]);
        assert(tok is Num);
        lemma_number_not_rejected(input, p, e, tok->Num_0, e2, scale);
    } else {
        let (e2, scale) = choose|e2: int, scale: int|
            #[trigger] number_span(input, p, e2, scale) && scale <= 18 && span_magnitude(
                input,
                p,
                e2,
                scale,
            ) > i64::MAX;
        let b = if input[p] == '-' {
            p + 1
        } else {
            p
        };
        assert(input.subrange(b, e2)[0] == input[b]);
        assert(tok is Num);
        lemma_number_not_rejected(input, p, e, tok->Num_0, e2, scale);
    }
}

/// A covering of the text up to an error position and a tokenization of
/// the whole text cannot both exist.
proof fn lemma_error_blocks(input: Seq<char>, p: int, msg: Seq<char>, a: Seq<Spanned>, ts: Seq<Spanned>)
    requires
        0 <= p < input.len(),
        lex_error(input, p, msg),
        spans(input, a, p),
    ensures
        !spans(input, ts, input.len() as int),
{
    let n = input.len() as int;
    if spans(input, ts, n) {
        lemma_error_not_space(input, p, msg);
        let m = a.len() as int;
        let k: int = if m <= ts.len() {
            m
        } else {
            ts.len() as int
        };
        lemma_prefix_agrees(input, a, p, ts, n, k);
        if m > ts.len() {
            lemma_token_facts(input, a, p, k);
            if k > 0 {
                assert(ts.last() == ts[k - 1]);
            }
            lemma_trailing_space(input, ts, n, a[k].start as int);
        } else {
            if k > 0 {
                lemma_token_facts(input, a, p, k - 1);
                assert(a.last() == a[k - 1]);
            }
            if m == ts.len() {
                if k > 0 {
                    assert(ts.last() == ts[k - 1]);
                }
                lemma_trailing_space(input, ts, n, p);
            } else {
                lemma_token_facts(input, ts, n, k);
                let s = ts[k].start as int;
                if s < p {
                    lemma_trailing_space(input, a, p, s);
                } else if p < s {
                    assert(is_space(input[p]));
                } else {
                    lemma_no_token_at_error(input, p, msg, ts[k].end as int, ts[k].token);
                }
            }
        }
    }
}

/// A lexical error rules out every tokenization: where `tokenize` fails,
/// the text has none.
pub proof fn law_lex_error_excludes_tokenization(input: Seq<char>, e: LexerError, ts: Seq<Spanned>)
    requires
        error_in(input, e),
    ensures
        !tokenizes(input, ts),
{
    let p = choose|p: int|
        #[trigger] error_at(input, e, p) && lex_error(input, p, e.message@) && lexes_up_to(input, p);
    let a = choose|a: Seq<Spanned>| #[trigger] covered(input, a, p);
    assert(spans(input, a, p)) by {
        reveal(spans);
    }
    lemma_error_blocks(input, p, e.message@, a, ts);
    assert(!tokenizes(input, ts)) by {
        reveal(spans);
    }
}

} // verus!
