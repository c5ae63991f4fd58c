use spaces_store::errors::{format_traceback, AppError, ErrorType};

#[test]
fn status_codes_by_kind() {
    assert_eq!(ErrorType::Database("d".to_string()).status_code(), 500);
    assert_eq!(ErrorType::Authentication("a".to_string()).status_code(), 401);
    assert_eq!(ErrorType::Authorization("a".to_string()).status_code(), 403);
    assert_eq!(ErrorType::Validation("v".to_string()).status_code(), 400);
    assert_eq!(ErrorType::NotFound("n".to_string()).status_code(), 404);
    assert_eq!(ErrorType::Configuration("c".to_string()).status_code(), 500);
    assert_eq!(ErrorType::Internal("i".to_string()).status_code(), 500);
}

#[test]
fn severity_by_kind() {
    assert!(ErrorType::Database("d".to_string()).is_severe());
    assert!(ErrorType::Configuration("c".to_string()).is_severe());
    assert!(ErrorType::Internal("i".to_string()).is_severe());
    assert!(!ErrorType::Authentication("a".to_string()).is_severe());
    assert!(!ErrorType::Authorization("a".to_string()).is_severe());
    assert!(!ErrorType::Validation("v".to_string()).is_severe());
    assert!(!ErrorType::NotFound("n".to_string()).is_severe());
}

#[test]
fn traceback_joins_cause_chain() {
    let chain = vec![
        "request failed".to_string(),
        "catalog refused the row".to_string(),
        "column must be unique".to_string(),
    ];
    assert_eq!(
        format_traceback(&chain),
        "request failed | by: catalog refused the row | by: column must be unique"
    );
}

#[test]
fn traceback_of_single_message() {
    let chain = vec!["just this".to_string()];
    assert_eq!(format_traceback(&chain), "just this");
}

#[test]
fn traceback_of_empty_chain() {
    let chain: Vec<String> = Vec::new();
    assert_eq!(format_traceback(&chain), "");
}

#[test]
fn error_report_carries_kind_and_fresh_id() {
    let e = AppError::new(
        ErrorType::NotFound("File not found".to_string()),
        "record missing".to_string(),
    );
    assert!(matches!(e.error_type, ErrorType::NotFound(_)));
    assert_eq!(e.error_id.len(), 36);
    assert_eq!(e.source, "record missing");
    assert!(e.context.is_empty());
}

#[test]
fn context_accumulates_and_summarizes() {
    let e = AppError::new(
        ErrorType::Internal("boom".to_string()),
        "root cause".to_string(),
    );
    assert_eq!(e.context_summary(), "No additional context");
    let e = e
        .with_context("while storing the payload".to_string())
        .with_context("during upload".to_string());
    assert_eq!(e.context.len(), 2);
    assert_eq!(
        e.context_summary(),
        "while storing the payload -> during upload"
    );
}

#[test]
fn distinct_reports_get_distinct_ids() {
    let a = AppError::new(ErrorType::Internal("x".to_string()), "x".to_string());
    let b = AppError::new(ErrorType::Internal("x".to_string()), "x".to_string());
    assert_ne!(a.error_id, b.error_id);
}
