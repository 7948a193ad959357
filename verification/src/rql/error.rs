//! RQL error types: errors of the lexer, the parser, validation and
//! execution.
use vstd::prelude::*;
use crate::text::{decimal, push_decimal, push_str};

verus! {

/// Lexer-specific error.
#[derive(Debug, Clone)]
pub struct LexerError {
    /// Error message.
    pub message: String,
    /// Line number (1-indexed).
    pub line: usize,
    /// Column number (1-indexed).
    pub column: usize,
    /// The problematic character or token.
    pub found: String,
}

/// Parser-specific error.
#[derive(Debug, Clone)]
pub struct ParserError {
    /// Error message.
    pub message: String,
    /// What was expected.
    pub expected: Option<String>,
    /// What was found.
    pub found: Option<String>,
    /// Position in the token stream.
    pub position: usize,
}

/// RQL error type.
#[derive(Debug, Clone)]
pub enum RqlError {
    /// Lexer error (invalid token).
    Lexer(LexerError),
    /// Parser error (syntax error).
    Parser(ParserError),
    /// Validation error (semantic error).
    Validation(String),
    /// Execution error.
    Execution(String),
}

/// Result type for RQL operations.
pub type RqlResult<T> = Result<T, RqlError>;

/// The text of a lexer error:
/// `<message> at line <line>, column <column> (found '<found>')`.
pub open spec fn lexer_error_text(e: LexerError) -> Seq<char> {
    e.message@ + " at line "@ + decimal(e.line as nat) + ", column "@ + decimal(e.column as nat)
        + " (found '"@ + e.found@ + "')"@
}

/// The text of a parser error: the message, then ` (expected <x>)` and
/// ` (found <y>)` for whichever of the two is set.
pub open spec fn parser_error_text(e: ParserError) -> Seq<char> {
    e.message@ + match e.expected {
        Some(x) => " (expected "@ + x@ + ")"@,
        None => Seq::empty(),
    } + match e.found {
        Some(y) => " (found "@ + y@ + ")"@,
        None => Seq::empty(),
    }
}

/// The text of an RQL error.
pub open spec fn rql_error_text(e: RqlError) -> Seq<char> {
    match e {
        RqlError::Lexer(l) => "Lexer error: "@ + lexer_error_text(l),
        RqlError::Parser(p) => "Parse error: "@ + parser_error_text(p),
        RqlError::Validation(m) => "Validation error: "@ + m@,
        RqlError::Execution(m) => "Execution error: "@ + m@,
    }
}

impl LexerError {
    /// The error's text.
    pub fn to_message(&self) -> (s: String)
        ensures
            s@ == lexer_error_text(*self),
    {
        let mut s = String::new();
        push_str(&mut s, self.message.as_str());
        push_str(&mut s, " at line ");
        push_decimal(&mut s, self.line);
        push_str(&mut s, ", column ");
        push_decimal(&mut s, self.column);
        push_str(&mut s, " (found '");
        push_str(&mut s, self.found.as_str());
        push_str(&mut s, "')");
        assert(s@ =~= lexer_error_text(*self));
        s
    }
}

impl ParserError {
    /// Create a new parser error with no expectation, nothing found and
    /// position 0.
    pub fn new(message: String) -> (e: Self)
        ensures
            e.message == message,
            e.expected is None,
            e.found is None,
            e.position == 0,
    {
        ParserError { message, expected: None, found: None, position: 0 }
    }

    /// Set the expected value.
    pub fn expected(self, expected: String) -> (e: Self)
        ensures
            e == (ParserError { expected: Some(expected), ..self }),
    {
        let mut e = self;
        e.expected = Some(expected);
        e
    }

    /// Set the found value.
    pub fn found(self, found: String) -> (e: Self)
        ensures
            e == (ParserError { found: Some(found), ..self }),
    {
        let mut e = self;
        e.found = Some(found);
        e
    }

    /// Set the position.
    pub fn at(self, position: usize) -> (e: Self)
        ensures
            e == (ParserError { position, ..self }),
    {
        let mut e = self;
        e.position = position;
        e
    }

    /// The error's text.
    pub fn to_message(&self) -> (s: String)
        ensures
            s@ == parser_error_text(*self),
    {
        let mut s = String::new();
        push_str(&mut s, self.message.as_str());
        let ghost a = s@;
        match &self.expected {
            Some(x) => {
                push_str(&mut s, " (expected ");
                push_str(&mut s, x.as_str());
                push_str(&mut s, ")");
            },
            None => {},
        }
        let ghost b = s@;
        match &self.found {
            Some(y) => {
                push_str(&mut s, " (found ");
                push_str(&mut s, y.as_str());
                push_str(&mut s, ")");
            },
            None => {},
        }
        assert(s@ =~= parser_error_text(*self));
        s
    }
}

impl RqlError {
    /// The error's text.
    pub fn to_message(&self) -> (s: String)
        ensures
            s@ == rql_error_text(*self),
    {
        let mut s = String::new();
        match self {
            RqlError::Lexer(e) => {
                push_str(&mut s, "Lexer error: ");
                let m = e.to_message();
                push_str(&mut s, m.as_str());
            },
            RqlError::Parser(e) => {
                push_str(&mut s, "Parse error: ");
                let m = e.to_message();
                push_str(&mut s, m.as_str());
            },
            RqlError::Validation(m) => {
                push_str(&mut s, "Validation error: ");
                push_str(&mut s, m.as_str());
            },
            RqlError::Execution(m) => {
                push_str(&mut s, "Execution error: ");
                push_str(&mut s, m.as_str());
            },
        }
        assert(s@ =~= rql_error_text(*self));
        s
    }
}

impl From<LexerError> for RqlError {
    fn from(e: LexerError) -> (r: Self)
        ensures
            r == RqlError::Lexer(e),
    {
        RqlError::Lexer(e)
    }
}

impl vstd::std_specs::convert::FromSpecImpl<LexerError> for RqlError {
    open spec fn obeys_from_spec() -> bool {
        true
    }

    open spec fn from_spec(v: LexerError) -> Self {
        RqlError::Lexer(v)
    }
}

impl From<ParserError> for RqlError {
    fn from(e: ParserError) -> (r: Self)
        ensures
            r == RqlError::Parser(e),
    {
        RqlError::Parser(e)
    }
}

impl vstd::std_specs::convert::FromSpecImpl<ParserError> for RqlError {
    open spec fn obeys_from_spec() -> bool {
        true
    }

    open spec fn from_spec(v: ParserError) -> Self {
        RqlError::Parser(v)
    }
}

} // verus!
