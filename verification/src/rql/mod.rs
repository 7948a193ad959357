//! RQL: the query language of ReasonDB.
pub mod ast;
pub mod builder;
pub mod error;
pub mod grammar;
pub mod lexer;
pub mod parser;
pub mod pattern;
pub mod tokenization;

pub use ast::{Comparison, ComparisonOp, Condition, FieldPath, FromClause, LimitClause, Number,
    OrderByClause, PathSegment, Query, SearchClause, SelectClause, SortDirection, Value, WhereClause};
pub use builder::QueryBuilder;
pub use error::{LexerError, ParserError, RqlError, RqlResult};
pub mod executor;
