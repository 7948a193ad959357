use reasondb_core::rql::lexer::{tokenize, Keyword, Token};
use reasondb_core::rql::{ComparisonOp, Condition, Number, PathSegment, Query, QueryBuilder, SearchClause,
    SelectClause, SortDirection, Value};

/// The value of a decimal number as `f64`.
fn number_value(n: &Number) -> f64 {
    n.mantissa() as f64 / 10f64.powi(n.scale() as i32)
}

/// A decimal number close to `x` (six fractional digits).
fn number(x: f64) -> Number {
    Number::new((x * 1e6).round() as i64, 6)
}

// ==================== Query Parsing Tests ====================

#[test]
fn test_parse_simple_select() {
    let query = Query::parse("SELECT * FROM legal").unwrap();
    assert_eq!(query.from.table, "legal");
    assert!(matches!(query.select, SelectClause::All));
}

#[test]
fn test_parse_select_count() {
    let query = Query::parse("SELECT COUNT(*) FROM legal").unwrap();
    assert!(matches!(query.select, SelectClause::Count));
}

#[test]
fn test_parse_where_string() {
    let query = Query::parse("SELECT * FROM legal WHERE author = 'Alice'").unwrap();
    assert!(query.where_clause.is_some());
}

#[test]
fn test_parse_where_number() {
    let query = Query::parse("SELECT * FROM legal WHERE metadata.value > 30000").unwrap();
    assert!(query.where_clause.is_some());
}

#[test]
fn test_parse_where_and_or() {
    let query = Query::parse(
        "SELECT * FROM legal WHERE status = 'active' AND value > 1000 OR author = 'Bob'",
    )
    .unwrap();
    assert!(query.where_clause.is_some());
}

#[test]
fn test_parse_tags_contains() {
    let query = Query::parse("SELECT * FROM legal WHERE tags CONTAINS ALL ('nda', 'active')")
        .unwrap();
    assert!(query.where_clause.is_some());
}

#[test]
fn test_parse_search() {
    let query = Query::parse("SELECT * FROM legal SEARCH 'liability clause'").unwrap();
    assert!(matches!(query.search, Some(SearchClause::FullText(_))));
}

#[test]
fn test_parse_reason() {
    let query =
        Query::parse("SELECT * FROM legal REASON 'What are the penalties?' WITH CONFIDENCE > 0.7")
            .unwrap();
    match query.search {
        Some(SearchClause::Semantic { min_confidence, .. }) => {
            assert_eq!(min_confidence.map(|n| number_value(&n) as f32), Some(0.7));
        }
        _ => panic!("Expected semantic search"),
    }
}

#[test]
fn test_parse_order_limit() {
    let query =
        Query::parse("SELECT * FROM legal ORDER BY created_at DESC LIMIT 10 OFFSET 5").unwrap();
    assert!(query.order_by.is_some());
    assert_eq!(query.limit.as_ref().unwrap().count, 10);
    assert_eq!(query.limit.as_ref().unwrap().offset, Some(5));
}

// ==================== Query Builder Tests ====================

#[test]
fn test_builder_simple() {
    let query = QueryBuilder::new().from("legal").build().unwrap();
    assert_eq!(query.from.table, "legal");
}

#[test]
fn test_builder_with_conditions() {
    let query = QueryBuilder::new()
        .from("legal")
        .where_eq("status", "active")
        .where_gt("value", number(1000.0))
        .build()
        .unwrap();

    assert!(query.where_clause.is_some());
}

#[test]
fn test_builder_with_tags() {
    let query = QueryBuilder::new()
        .from("legal")
        .where_in_tags(&["nda", "active"])
        .build()
        .unwrap();

    assert!(query.where_clause.is_some());
}

#[test]
fn test_builder_with_search() {
    let query = QueryBuilder::new()
        .from("legal")
        .search("liability")
        .limit(10)
        .build()
        .unwrap();

    assert!(matches!(query.search, Some(SearchClause::FullText(_))));
    assert_eq!(query.limit.unwrap().count, 10);
}

// ==================== Error Handling Tests ====================

#[test]
fn test_parse_error_missing_from() {
    let result = Query::parse("SELECT *");
    assert!(result.is_err());
}

#[test]
fn test_parse_error_invalid_operator() {
    let result = Query::parse("SELECT * FROM t WHERE x == 1");
    assert!(result.is_err());
}

#[test]
fn test_builder_error_missing_from() {
    let result = QueryBuilder::new().where_eq("x", "y").build();
    assert!(result.is_err());
}

// ==================== Further parsing scenarios ====================


fn field_names(c: &Condition) -> String {
    match c {
        Condition::Comparison(cmp) => match &cmp.left.segments[0] {
            PathSegment::Field(f) => f.clone(),
            PathSegment::Index(i) => i.to_string(),
        },
        Condition::And(l, r) => format!("({} AND {})", field_names(l), field_names(r)),
        Condition::Or(l, r) => format!("({} OR {})", field_names(l), field_names(r)),
        Condition::Not(c) => format!("(NOT {})", field_names(c)),
    }
}

#[test]
fn parse_and_binds_tighter_than_or() {
    let q = Query::parse("SELECT * FROM t WHERE a = 1 OR b = 2 AND c = 3 OR NOT d = 4").unwrap();
    let cond = &q.where_clause.unwrap().condition;
    assert_eq!(field_names(cond), "((a OR (b AND c)) OR (NOT d))");
}

#[test]
fn parse_parentheses_group() {
    let q = Query::parse("SELECT * FROM t WHERE (a = 1 OR b = 2) AND c = 3").unwrap();
    let cond = &q.where_clause.unwrap().condition;
    assert_eq!(field_names(cond), "((a OR b) AND c)");
}

#[test]
fn parse_comparison_operators() {
    let q = Query::parse(
        "select * from t where x.y <= 2 and z is not null and w in (1, 'a', true) and v like 'a%'",
    )
    .unwrap();
    let mut ops = Vec::new();
    let mut c = &q.where_clause.as_ref().unwrap().condition;
    loop {
        match c {
            Condition::And(l, r) => {
                if let Condition::Comparison(cmp) = &**r {
                    ops.push(cmp.operator);
                }
                c = l;
            }
            Condition::Comparison(cmp) => {
                ops.push(cmp.operator);
                assert_eq!(cmp.left.segments.len(), 2);
                break;
            }
            _ => panic!("unexpected condition"),
        }
    }
    ops.reverse();
    assert_eq!(ops, vec![ComparisonOp::Le, ComparisonOp::IsNotNull, ComparisonOp::In, ComparisonOp::Like]);
}

#[test]
fn parse_select_fields_and_order() {
    let q = Query::parse("SELECT title, metadata.status FROM docs ORDER BY title DESC LIMIT 3").unwrap();
    match &q.select {
        SelectClause::Fields(fs) => assert_eq!(fs.len(), 2),
        _ => panic!("expected fields"),
    }
    let order = q.order_by.unwrap();
    assert_eq!(order.direction, SortDirection::Desc);
    assert_eq!(q.limit.unwrap().offset, None);
}

#[test]
fn parse_list_values() {
    let q = Query::parse("SELECT * FROM t WHERE tags CONTAINS ANY ('x', 'y')").unwrap();
    match &q.where_clause.unwrap().condition {
        Condition::Comparison(cmp) => {
            assert_eq!(cmp.operator, ComparisonOp::ContainsAny);
            match &cmp.right {
                Value::Array(items) => assert_eq!(items.len(), 2),
                _ => panic!("expected a list"),
            }
        }
        _ => panic!("expected a comparison"),
    }
}

#[test]
fn parse_errors() {
    assert!(Query::parse("SELECT * FROM t extra").is_err());
    assert!(Query::parse("SELECT * FROM t WHERE (a = 1").is_err());
    assert!(Query::parse("SELECT * FROM t WHERE a IS 1").is_err());
    assert!(Query::parse("SELECT * FROM t LIMIT -1").is_err());
    assert!(Query::parse("SELECT * FROM t LIMIT 1.5").is_err());
    assert!(Query::parse("SELECT * FROM t ORDER title").is_err());
    assert!(Query::parse("SELECT COUNT(x) FROM t").is_err());
    assert!(Query::parse("SELECT * FROM t REASON 'q' WITH CONFIDENCE 0.5").is_err());
    assert!(Query::parse("SELECT * FROM t WHERE a = 'unterminated").is_err());
    assert!(Query::parse("").is_err());
}

// ==================== Lexer scenarios ====================


fn kinds(input: &str) -> Vec<String> {
    tokenize(input)
        .unwrap()
        .iter()
        .map(|s| match &s.token {
            Token::Keyword(k) => format!("{:?}", k),
            Token::Ident(i) => format!("id:{}", i),
            Token::Str(x) => format!("str:{}", x),
            Token::Num(n) => format!("num:{}/{}", n.mantissa(), n.scale()),
            other => format!("{:?}", other),
        })
        .collect()
}

#[test]
fn lexer_reads_longest_tokens() {
    assert_eq!(kinds("a<=b"), vec!["id:a", "Le", "id:b"]);
    assert_eq!(kinds("x<>1"), vec!["id:x", "Ne", "num:1/0"]);
    assert_eq!(kinds("x != -2"), vec!["id:x", "Ne", "num:-2/0"]);
    assert_eq!(kinds("1.5.2"), vec!["num:15/1", "Dot", "num:2/0"]);
    assert_eq!(kinds("abc123 select"), vec!["id:abc123", "Select"]);
    assert_eq!(kinds("'it''s'"), vec!["str:it", "str:s"]);
    assert_eq!(kinds("a.b >= 0.25"), vec!["id:a", "Dot", "id:b", "Ge", "num:25/2"]);
}

#[test]
fn lexer_spans_and_keywords() {
    let ts = tokenize("  SeLeCt *").unwrap();
    assert_eq!(ts.len(), 2);
    assert!(matches!(ts[0].token, Token::Keyword(Keyword::Select)));
    assert_eq!((ts[0].start, ts[0].end), (2, 8));
    assert_eq!((ts[1].start, ts[1].end), (9, 10));
}

#[test]
fn lexer_errors_point_at_the_character() {
    let e = tokenize("SELECT *\nFROM t WHERE a = #").unwrap_err();
    assert_eq!(e.line, 2);
    assert_eq!(e.column, 18);
    assert_eq!(e.found, "#");
    assert!(tokenize("'open").is_err());
    assert!(tokenize("99999999999999999999").is_err());
    assert!(tokenize("0.1234567890123456789").is_err());
}
