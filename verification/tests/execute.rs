use reasondb_core::rql::executor::{execute_in_table, execute_query, resolve_table_id, DocumentRecord, QueryResult, TableInfo};
use reasondb_core::rql::pattern::matches_like;
use reasondb_core::rql::{Number, Query, QueryBuilder, Value};
use reasondb_core::table::Table;

/// A document of the table `table_id`.
fn document(title: &str, table_id: &str, created_at: i64) -> DocumentRecord {
    DocumentRecord {
        id: format!("doc-{}", title),
        title: title.to_string(),
        table_id: table_id.to_string(),
        author: None,
        source_url: None,
        language: None,
        version: None,
        tags: Vec::new(),
        metadata: Table::new(),
        created_at,
        updated_at: created_at,
    }
}

fn set_metadata(doc: &mut DocumentRecord, key: &str, value: Value) {
    doc.metadata.insert(key.to_string(), value);
}

fn text(s: &str) -> Value {
    Value::String(s.to_string())
}

fn setup_test_data() -> Vec<DocumentRecord> {
    let mut doc1 = document("Contract A", "legal", 1);
    doc1.tags = vec!["nda".to_string(), "active".to_string()];
    doc1.author = Some("Alice".to_string());
    set_metadata(&mut doc1, "status", text("active"));
    set_metadata(&mut doc1, "value", Value::Number(Number::from_int(50000)));

    let mut doc2 = document("Contract B", "legal", 2);
    doc2.tags = vec!["service".to_string(), "draft".to_string()];
    doc2.author = Some("Bob".to_string());
    set_metadata(&mut doc2, "status", text("draft"));
    set_metadata(&mut doc2, "value", Value::Number(Number::from_int(25000)));

    let mut doc3 = document("Contract C", "legal", 3);
    doc3.tags = vec!["nda".to_string(), "expired".to_string()];
    doc3.author = Some("Alice".to_string());
    set_metadata(&mut doc3, "status", text("expired"));
    set_metadata(&mut doc3, "value", Value::Number(Number::from_int(100000)));

    vec![doc1, doc2, doc3]
}

fn run(rql: &str) -> QueryResult {
    let query = Query::parse(rql).unwrap();
    execute_query(&query, &Vec::new(), setup_test_data())
}

fn titles(result: &QueryResult) -> Vec<String> {
    result.documents.iter().map(|m| m.document.title.clone()).collect()
}

// ==================== Query Execution Tests ====================

#[test]
fn test_execute_select_all() {
    let result = run("SELECT * FROM legal");

    assert_eq!(result.total_count, 3);
    assert_eq!(result.documents.len(), 3);
}

#[test]
fn test_execute_where_author() {
    let result = run("SELECT * FROM legal WHERE author = 'Alice'");

    assert_eq!(result.total_count, 2);
    for doc_match in &result.documents {
        assert_eq!(doc_match.document.author, Some("Alice".to_string()));
    }
}

#[test]
fn test_execute_where_metadata() {
    let result = run("SELECT * FROM legal WHERE metadata.status = 'active'");

    assert_eq!(result.total_count, 1);
    assert_eq!(result.documents[0].document.title, "Contract A");
}

#[test]
fn test_execute_where_numeric() {
    let result = run("SELECT * FROM legal WHERE metadata.value > 30000");

    assert_eq!(result.total_count, 2); // Contract A (50000) and Contract C (100000)
}

#[test]
fn test_execute_tags_contains_all() {
    let result = run("SELECT * FROM legal WHERE tags CONTAINS ALL ('nda', 'active')");

    assert_eq!(result.total_count, 1);
    assert_eq!(result.documents[0].document.title, "Contract A");
}

#[test]
fn test_execute_tags_contains_any() {
    let result = run("SELECT * FROM legal WHERE tags CONTAINS ANY ('draft', 'expired')");

    assert_eq!(result.total_count, 2); // Contract B and Contract C
}

#[test]
fn test_execute_order_by() {
    let result = run("SELECT * FROM legal ORDER BY title ASC");

    assert_eq!(result.documents[0].document.title, "Contract A");
    assert_eq!(result.documents[1].document.title, "Contract B");
    assert_eq!(result.documents[2].document.title, "Contract C");
}

#[test]
fn test_execute_limit_offset() {
    let result = run("SELECT * FROM legal ORDER BY title ASC LIMIT 2 OFFSET 1");

    assert_eq!(result.total_count, 3); // Total before pagination
    assert_eq!(result.documents.len(), 2); // After pagination
    assert_eq!(result.documents[0].document.title, "Contract B");
    assert_eq!(result.documents[1].document.title, "Contract C");
}

#[test]
fn test_execute_complex_query() {
    let result = run("SELECT * FROM legal \
         WHERE author = 'Alice' AND metadata.value > 40000 \
         ORDER BY title DESC \
         LIMIT 10");

    assert_eq!(result.total_count, 2); // Contract A (50000) and Contract C (100000)
    assert_eq!(result.documents[0].document.title, "Contract C"); // DESC order
}

// ==================== Further execution scenarios ====================

#[test]
fn execute_other_table_matches_nothing() {
    let result = run("SELECT * FROM finance");
    assert_eq!(result.total_count, 0);
    assert!(result.documents.is_empty());
}

#[test]
fn execute_results_carry_no_score() {
    let result = run("SELECT * FROM legal");
    for m in &result.documents {
        assert_eq!(m.score_bits, None);
        assert!(m.matched_nodes.is_empty());
        assert!(m.highlights.is_empty());
    }
}

#[test]
fn execute_not_equal_and_missing_field() {
    // A field that no document has is unequal to everything.
    assert_eq!(run("SELECT * FROM legal WHERE source_url != 'x'").total_count, 3);
    assert_eq!(run("SELECT * FROM legal WHERE author != 'Alice'").total_count, 1);
    assert_eq!(run("SELECT * FROM legal WHERE source_url = 'x'").total_count, 0);
}

#[test]
fn execute_null_checks() {
    assert_eq!(run("SELECT * FROM legal WHERE source_url IS NULL").total_count, 3);
    assert_eq!(run("SELECT * FROM legal WHERE author IS NOT NULL").total_count, 3);
    assert_eq!(run("SELECT * FROM legal WHERE metadata.missing IS NULL").total_count, 3);
}

#[test]
fn execute_numeric_comparisons() {
    assert_eq!(run("SELECT * FROM legal WHERE metadata.value >= 50000").total_count, 2);
    assert_eq!(run("SELECT * FROM legal WHERE metadata.value <= 50000").total_count, 2);
    assert_eq!(run("SELECT * FROM legal WHERE metadata.value < 25000").total_count, 0);
    assert_eq!(run("SELECT * FROM legal WHERE metadata.value = 25000.0").total_count, 1);
    // Ordering comparisons hold only between numbers.
    assert_eq!(run("SELECT * FROM legal WHERE title > 1").total_count, 0);
}

#[test]
fn execute_in_list() {
    let result = run("SELECT * FROM legal WHERE author IN ('Bob', 'Carol') ");
    assert_eq!(titles(&result), vec!["Contract B".to_string()]);
}

#[test]
fn execute_not_and_or() {
    let result = run("SELECT * FROM legal WHERE NOT author = 'Alice' OR metadata.status = 'expired' ORDER BY title");
    assert_eq!(titles(&result), vec!["Contract B".to_string(), "Contract C".to_string()]);
}

#[test]
fn execute_like_patterns() {
    assert_eq!(run("SELECT * FROM legal WHERE title LIKE 'Contract %'").total_count, 3);
    assert_eq!(run("SELECT * FROM legal WHERE title LIKE '%B'").total_count, 1);
    assert_eq!(run("SELECT * FROM legal WHERE title LIKE 'Contract _'").total_count, 3);
    assert_eq!(run("SELECT * FROM legal WHERE title LIKE 'Contract'").total_count, 0);
    assert_eq!(run("SELECT * FROM legal WHERE metadata.status LIKE 'dr%'").total_count, 1);
}

#[test]
fn like_escapes_regex_characters() {
    assert!(matches_like("a.b", "a.b"));
    assert!(!matches_like("axb", "a.b"));
    assert!(matches_like("(x)+", "(x)+"));
    assert!(matches_like("100%", "100%"));
    assert!(matches_like("a\\b", "a\\b"));
    assert!(matches_like("ab", "a_"));
    assert!(!matches_like("abc", "a_"));
    assert!(matches_like("abc", "a_c"));
}

#[test]
fn execute_order_by_desc_is_stable() {
    // Equal authors keep their original order in both directions.
    let result = run("SELECT * FROM legal ORDER BY author DESC");
    assert_eq!(
        titles(&result),
        vec!["Contract B".to_string(), "Contract A".to_string(), "Contract C".to_string()]
    );
    let result = run("SELECT * FROM legal ORDER BY author ASC");
    assert_eq!(
        titles(&result),
        vec!["Contract A".to_string(), "Contract C".to_string(), "Contract B".to_string()]
    );
}

#[test]
fn execute_order_by_time_and_unknown_field() {
    let result = run("SELECT * FROM legal ORDER BY created_at DESC");
    assert_eq!(
        titles(&result),
        vec!["Contract C".to_string(), "Contract B".to_string(), "Contract A".to_string()]
    );
    // An unknown field keeps the input order.
    let result = run("SELECT * FROM legal ORDER BY metadata.value DESC");
    assert_eq!(
        titles(&result),
        vec!["Contract A".to_string(), "Contract B".to_string(), "Contract C".to_string()]
    );
}

#[test]
fn execute_offset_past_end() {
    let result = run("SELECT * FROM legal LIMIT 5 OFFSET 7");
    assert_eq!(result.total_count, 3);
    assert!(result.documents.is_empty());
    let result = run("SELECT * FROM legal LIMIT 0");
    assert!(result.documents.is_empty());
}

#[test]
fn builder_conditions_all_hold() {
    let query = QueryBuilder::new()
        .from("legal")
        .where_eq("author", "Alice")
        .where_gt("metadata.value", Number::from_int(60000))
        .build()
        .unwrap();
    let result = execute_query(&query, &Vec::new(), setup_test_data());
    assert_eq!(titles(&result), vec!["Contract C".to_string()]);

    let query = QueryBuilder::new().from("legal").where_in_tags(&["draft", "nda"]).limit(2).build().unwrap();
    let result = execute_query(&query, &Vec::new(), setup_test_data());
    assert_eq!(result.total_count, 3);
    assert_eq!(result.documents.len(), 2);
}

fn legal_table() -> TableInfo {
    TableInfo {
        id: "tbl_1".to_string(),
        slug: "legal_contracts".to_string(),
        name: "Legal Contracts".to_string(),
    }
}

fn table_documents() -> Vec<DocumentRecord> {
    vec![
        document("Contract A", "tbl_1", 1),
        document("Contract B", "tbl_1", 2),
        document("Memo", "tbl_2", 3),
    ]
}

#[test]
fn resolve_table_by_id_slug_and_name() {
    let tables = vec![legal_table()];
    assert_eq!(resolve_table_id("tbl_1", &tables), "tbl_1");
    assert_eq!(resolve_table_id("tbl_unknown", &tables), "tbl_unknown");
    assert_eq!(resolve_table_id("legal_contracts", &tables), "tbl_1");
    assert_eq!(resolve_table_id("Legal Contracts", &tables), "tbl_1");
    assert_eq!(resolve_table_id("finance", &tables), "finance");
    assert_eq!(resolve_table_id("legal_contracts", &Vec::new()), "legal_contracts");
}

#[test]
fn slug_is_tried_before_display_name() {
    let tables = vec![
        TableInfo { id: "tbl_a".to_string(), slug: "a".to_string(), name: "shared".to_string() },
        TableInfo { id: "tbl_b".to_string(), slug: "shared".to_string(), name: "b".to_string() },
    ];
    assert_eq!(resolve_table_id("shared", &tables), "tbl_b");
}

#[test]
fn query_from_slug_or_display_name() {
    let tables = vec![legal_table()];
    for rql in ["SELECT * FROM legal_contracts", "SELECT * FROM tbl_1"] {
        let query = Query::parse(rql).unwrap();
        let result = execute_query(&query, &tables, table_documents());
        assert_eq!(result.total_count, 2);
        assert_eq!(titles(&result), vec!["Contract A".to_string(), "Contract B".to_string()]);
    }
    let query = QueryBuilder::new().from("Legal Contracts").build().unwrap();
    assert_eq!(execute_query(&query, &tables, table_documents()).total_count, 2);
    let query = Query::parse("SELECT * FROM legal_contracts").unwrap();
    assert_eq!(execute_query(&query, &Vec::new(), table_documents()).total_count, 0);
}

#[test]
fn run_over_a_given_table_id() {
    let query = Query::parse("SELECT * FROM anything ORDER BY title DESC").unwrap();
    let result = execute_in_table(&query, "tbl_2", table_documents());
    assert_eq!(titles(&result), vec!["Memo".to_string()]);
}
