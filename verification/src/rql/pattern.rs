//! SQL `LIKE` patterns, matched with the `regex` crate: `%` stands for any
//! run of characters, `_` for any one character, and every other character
//! for itself.
use vstd::prelude::*;
use crate::text::chars_of;

verus! {

/// The characters that `regex::escape` escapes: those with a meaning in a
/// regular expression.
pub open spec fn is_regex_meta(c: char) -> bool {
    c == '\\' || c == '.' || c == '+' || c == '*' || c == '?' || c == '(' || c == ')' || c == '|'
        || c == '[' || c == ']' || c == '{' || c == '}' || c == '^' || c == '$' || c == '#'
        || c == '&' || c == '-' || c == '~'
}

/// `c` as a literal in a regular expression.
pub open spec fn escaped_char(c: char) -> Seq<char> {
    if is_regex_meta(c) {
        seq!['\\', c]
    } else {
        seq![c]
    }
}

/// `text` with a backslash before each meta character.
pub open spec fn escaped_text(text: Seq<char>) -> Seq<char>
    decreases text.len(),
{
    if text.len() == 0 {
        Seq::empty()
    } else {
        escaped_text(text.drop_last()) + escaped_char(text.last())
    }
}

/// One character of an escaped pattern with the `LIKE` wildcards turned
/// into their regular-expression forms.
pub open spec fn wildcard_char(c: char) -> Seq<char> {
    if c == '%' {
        seq!['.', '*']
    } else if c == '_' {
        seq!['.']
    } else {
        seq![c]
    }
}

/// An escaped pattern with `%` turned into `.*` and `_` into `.`.
pub open spec fn wildcards(s: Seq<char>) -> Seq<char>
    decreases s.len(),
{
    if s.len() == 0 {
        Seq::empty()
    } else {
        wildcards(s.drop_last()) + wildcard_char(s.last())
    }
}

/// The regular expression that a `LIKE` pattern stands for, anchored at
/// both ends.
pub open spec fn like_regex(pattern: Seq<char>) -> Seq<char> {
    seq!['^'] + wildcards(escaped_text(pattern)) + seq!['$']
}

/// Whether `regex::Regex::new` accepts `pattern`.
pub uninterp spec fn regex_compiles(pattern: Seq<char>) -> bool;

/// Whether the regular expression `pattern` matches somewhere in `haystack`
/// (`regex::Regex::is_match`).
pub uninterp spec fn regex_is_match(pattern: Seq<char>, haystack: Seq<char>) -> bool;

/// Whether `text` matches the `LIKE` pattern `pattern`: its regular
/// expression compiles and matches.
pub open spec fn like_holds(text: Seq<char>, pattern: Seq<char>) -> bool {
    regex_compiles(like_regex(pattern)) && regex_is_match(like_regex(pattern), text)
}

/// `regex::escape`: puts a backslash before each of the meta characters
/// `\ . + * ? ( ) | [ ] { } ^ $ # & - ~` and leaves every other character
/// as it is (regex-syntax's `escape_into` and `is_meta_character`).
#[verifier::external_body]
fn regex_escape(text: &str) -> (r: String)
    ensures
        r@ == escaped_text(text@),
{
    regex::escape(text)
}

/// `regex::Regex::new` followed by `Regex::is_match`: `None` where the
/// pattern does not compile, else whether it matches in `haystack`. What
/// either returns is left to the two names: the regex crate decides it.
#[verifier::external_body]
fn regex_match(pattern: &str, haystack: &str) -> (r: Option<bool>)
    ensures
        r == (if regex_compiles(pattern@) {
            Some(regex_is_match(pattern@, haystack@))
        } else {
            None
        }),
{
    match regex::Regex::new(pattern) {
        Ok(re) => Some(re.is_match(haystack)),
        Err(_) => None,
    }
}

/// The regular expression of the `LIKE` pattern `pattern`.
pub fn like_to_regex(pattern: &str) -> (r: String)
    ensures
        r@ == like_regex(pattern@),
{
    let escaped = regex_escape(pattern);
    let chars = chars_of(escaped.as_str());
    let mut r = String::new();
    r.push('^');
    let mut i: usize = 0;
    while i < chars.len()
        invariant
            i <= chars@.len(),
            chars@ == escaped_text(pattern@),
            r@ == seq!['^'] + wildcards(chars@.subrange(0, i as int)),
        decreases chars@.len() - i,
    {
        let c = chars[i];
        proof {
            let s = chars@.subrange(0, i + 1);
            assert(s.drop_last() =~= chars@.subrange(0, i as int));
            assert(s.last() == c);
        }
        if c == '%' {
            r.push('.');
            r.push('*');
        } else if c == '_' {
            r.push('.');
        } else {
            r.push(c);
        }
        proof {
            let s = chars@.subrange(0, i + 1);
            assert(wildcards(s) == wildcards(chars@.subrange(0, i as int)) + wildcard_char(c));
        }
        i = i + 1;
        assert(r@ =~= seq!['^'] + wildcards(chars@.subrange(0, i as int)));
    }
    r.push('$');
    assert(chars@.subrange(0, chars@.len() as int) =~= chars@);
    assert(r@ =~= like_regex(pattern@));
    r
}

/// Whether `text` matches the `LIKE` pattern `pattern`; a pattern whose
/// regular expression does not compile matches nothing.
pub fn matches_like(text: &str, pattern: &str) -> (r: bool)
    ensures
        r == like_holds(text@, pattern@),
{
    let re = like_to_regex(pattern);
    match regex_match(re.as_str(), text) {
        Some(b) => b,
        None => false,
    }
}

/// The wildcard form and the escaping of a single character.
proof fn lemma_single(c: char)
    ensures
        wildcards(seq![c]) == wildcard_char(c),
        escaped_text(seq![c]) == escaped_char(c),
{
    let s = seq![c];
    assert(s.drop_last() =~= Seq::<char>::empty());
    assert(s.last() == c);
    assert(wildcards(Seq::<char>::empty()) == Seq::<char>::empty());
    assert(escaped_text(Seq::<char>::empty()) == Seq::<char>::empty());
    assert(Seq::<char>::empty() + wildcard_char(c) =~= wildcard_char(c));
    assert(Seq::<char>::empty() + escaped_char(c) =~= escaped_char(c));
}

/// Appending one character to a pattern appends its regular-expression form
/// (before the closing anchor).
proof fn lemma_like_regex_push(p: Seq<char>, c: char)
    ensures
        like_regex(p.push(c)) == seq!['^'] + wildcards(escaped_text(p)) + wildcards(escaped_char(c)) + seq!['$'],
{
    let e = escaped_text(p);
    assert(p.push(c).drop_last() =~= p);
    lemma_wildcards_append(e, escaped_char(c));
}

/// The wildcard forms of two pieces, joined, are those of the joined pieces.
proof fn lemma_wildcards_append(a: Seq<char>, b: Seq<char>)
    ensures
        wildcards(a + b) == wildcards(a) + wildcards(b),
    decreases b.len(),
{
    if b.len() == 0 {
        assert(a + b =~= a);
        assert(wildcards(a) + wildcards(b) =~= wildcards(a));
    } else {
        lemma_wildcards_append(a, b.drop_last());
        assert((a + b).drop_last() =~= a + b.drop_last());
        assert((a + b).last() == b.last());
        assert(wildcards(a) + wildcards(b) =~= wildcards(a) + wildcards(b.drop_last()) + wildcard_char(b.last()));
    }
}

/// `%` matches any run of characters, none included: the regular expression
/// of `p%` is that of `p` with `.*` (any character, zero or more times)
/// before the closing anchor, and that of `%p` has `.*` right after the
/// opening anchor.
pub proof fn law_like_percent(p: Seq<char>)
    ensures
        like_regex(p.push('%')) == like_regex(p).drop_last() + seq!['.', '*', '$'],
        like_regex(seq!['%'] + p) == seq!['^', '.', '*'] + like_regex(p).drop_first(),
{
    lemma_like_regex_push(p, '%');
    assert(wildcards(escaped_char('%')) =~= seq!['.', '*']) by {
        assert(escaped_char('%') =~= seq!['%']);
        lemma_single('%');
    }
    assert(like_regex(p).drop_last() =~= seq!['^'] + wildcards(escaped_text(p)));
    lemma_escaped_prepend('%', p);
    lemma_wildcards_append(seq!['%'], escaped_text(p));
    lemma_single('%');
    assert(like_regex(p).drop_first() =~= wildcards(escaped_text(p)) + seq!['$']);
}

/// `_` matches exactly one character: the regular expression of `p_` is
/// that of `p` with `.` (any one character) before the closing anchor.
pub proof fn law_like_underscore(p: Seq<char>)
    ensures
        like_regex(p.push('_')) == like_regex(p).drop_last() + seq!['.', '$'],
{
    lemma_like_regex_push(p, '_');
    assert(wildcards(escaped_char('_')) =~= seq!['.']) by {
        assert(escaped_char('_') =~= seq!['_']);
        lemma_single('_');
    }
    assert(like_regex(p).drop_last() =~= seq!['^'] + wildcards(escaped_text(p)));
}

/// Escaping a character in front of a text.
proof fn lemma_escaped_prepend(c: char, t: Seq<char>)
    ensures
        escaped_text(seq![c] + t) == escaped_char(c) + escaped_text(t),
    decreases t.len(),
{
    if t.len() == 0 {
        assert(seq![c] + t =~= seq![c]);
        lemma_single(c);
        assert(escaped_char(c) + escaped_text(t) =~= escaped_char(c));
    } else {
        lemma_escaped_prepend(c, t.drop_last());
        assert((seq![c] + t).drop_last() =~= seq![c] + t.drop_last());
        assert((seq![c] + t).last() == t.last());
        assert(escaped_char(c) + escaped_text(t) =~= escaped_char(c) + escaped_text(t.drop_last()) + escaped_char(t.last()));
    }
}

/// A character that is neither a wildcard nor a regular-expression meta
/// character.
pub open spec fn plain_char(c: char) -> bool {
    c != '%' && c != '_' && !is_regex_meta(c)
}

/// A pattern without wildcards or meta characters matches only itself: its
/// regular expression is the pattern, anchored at both ends. A meta
/// character stands for itself too: it is escaped with a backslash.
pub proof fn law_like_literal(p: Seq<char>, c: char)
    ensures
        (forall|i: int| 0 <= i < p.len() ==> plain_char(#[trigger] p[i])) ==> like_regex(p) == seq!['^'] + p
            + seq!['$'],
        is_regex_meta(c) ==> like_regex(p.push(c)) == like_regex(p).drop_last() + seq!['\\', c, '$'],
    decreases p.len(),
{
    if forall|i: int| 0 <= i < p.len() ==> plain_char(#[trigger] p[i]) {
        lemma_plain_regex(p);
    }
    if is_regex_meta(c) {
        lemma_like_regex_push(p, c);
        assert(wildcards(escaped_char(c)) =~= seq!['\\', c]) by {
            let e = seq!['\\', c];
            assert(escaped_char(c) =~= e);
            assert(e.drop_last() =~= seq!['\\']);
            lemma_single('\\');
            lemma_single(c);
            assert(wildcards(e) == wildcards(seq!['\\']) + wildcard_char(c));
        }
        assert(like_regex(p).drop_last() =~= seq!['^'] + wildcards(escaped_text(p)));
    }
}

/// The regular expression of a plain pattern is the pattern itself.
proof fn lemma_plain_regex(p: Seq<char>)
    requires
        forall|i: int| 0 <= i < p.len() ==> plain_char(#[trigger] p[i]),
    ensures
        wildcards(escaped_text(p)) == p,
    decreases p.len(),
{
    if p.len() > 0 {
        let q = p.drop_last();
        assert forall|i: int| 0 <= i < q.len() implies plain_char(#[trigger] q[i]) by {
            assert(q[i] == p[i]);
        }
        lemma_plain_regex(q);
        assert(plain_char(p[p.len() - 1]));
        lemma_wildcards_append(escaped_text(q), escaped_char(p.last()));
        assert(escaped_char(p.last()) =~= seq![p.last()]);
        lemma_single(p.last());
        assert(q.push(p.last()) =~= p);
    }
}

} // verus!
