use std::time::Instant;
use reasondb_core::llm::health::{cooldown_over, HealthTracker};
use reasondb_core::rql::{LexerError, ParserError, Query, RqlError};

#[test]
fn health_tracker_cycle() {
    let mut h = HealthTracker::new();
    assert!(h.is_healthy());
    h.mark_unhealthy();
    // The cooldown is a minute: right after the mark the role is unhealthy.
    assert!(!h.is_healthy());
    h.mark_unhealthy();
    assert!(!h.is_healthy());
    h.mark_healthy();
    assert!(h.is_healthy());
}

#[test]
fn cooldown_is_sixty_seconds() {
    assert!(!cooldown_over(0));
    assert!(!cooldown_over(59_999));
    assert!(cooldown_over(60_000));
    assert!(cooldown_over(61_000));
}

#[test]
fn parser_error_text() {
    let e = ParserError::new("Expected FROM clause".to_string())
        .expected("FROM".to_string())
        .found("WHERE".to_string())
        .at(3);
    assert_eq!(e.position, 3);
    assert_eq!(e.to_message(), "Expected FROM clause (expected FROM) (found WHERE)");
    assert_eq!(ParserError::new("Oops".to_string()).to_message(), "Oops");
}

#[test]
fn rql_error_text() {
    let e = RqlError::Validation("FROM clause is required".to_string());
    assert_eq!(e.to_message(), "Validation error: FROM clause is required");
    let e = RqlError::Execution("boom".to_string());
    assert_eq!(e.to_message(), "Execution error: boom");
    let lex = LexerError {
        message: "Unexpected character".to_string(),
        line: 1,
        column: 5,
        found: "#".to_string(),
    };
    assert_eq!(lex.to_message(), "Unexpected character at line 1, column 5 (found '#')");
    assert_eq!(
        RqlError::from(lex).to_message(),
        "Lexer error: Unexpected character at line 1, column 5 (found '#')"
    );
    match Query::parse("SELECT * FROM") {
        Err(e @ RqlError::Parser(_)) => assert!(e.to_message().starts_with("Parse error: ")),
        _ => panic!("expected a parse error"),
    }
}

#[test]
fn health_mark_renewed_after_cooldown() {

    let mut h = HealthTracker::new();
    assert!(h.healthy_after(0));
    h.mark_unhealthy_at(Instant::now(), 0);
    assert!(!h.healthy_after(59_999));
    assert!(h.healthy_after(60_000));
    // Within the cooldown the mark is kept; after it, a new mark is set.
    h.mark_unhealthy_at(Instant::now(), 10);
    assert!(!h.healthy_after(0));
    h.mark_unhealthy_at(Instant::now(), 60_000);
    assert!(!h.is_healthy());
    h.mark_healthy();
    assert!(h.healthy_after(0));
}
