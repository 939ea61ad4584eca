//! Tests for the quote-aware logical and pipe splitters.

use clios::split_logical_and;
use clios::split_logical_operators;
use clios::split_pipes_respecting_quotes;
use clios::LogicalOp;

#[test]
fn test_split_logical_and_simple() {
    let input = "echo hello && echo world";
    let result = split_logical_and(input);

    assert_eq!(result.len(), 2);
    assert_eq!(result[0].trim(), "echo hello");
    assert_eq!(result[1].trim(), "echo world");
}

#[test]
fn test_split_logical_and_with_quotes() {
    let input = r#"echo "a && b" && echo test"#;
    let result = split_logical_and(input);

    assert_eq!(result.len(), 2);
    assert!(result[0].contains("a && b"));
}

#[test]
fn test_split_logical_and_no_split() {
    let input = r#"echo "test && test2""#;
    let result = split_logical_and(input);

    assert_eq!(result.len(), 1);
}

#[test]
fn test_split_logical_records_operators() {
    let parts = split_logical_operators("echo hello && echo world");
    assert_eq!(parts.len(), 2);
    assert_eq!(parts[0].next_op, Some(LogicalOp::And));
    assert_eq!(parts[1].next_op, None);
    assert_eq!(parts[0].command.trim(), "echo hello");
    assert_eq!(parts[1].command.trim(), "echo world");
}

#[test]
fn test_split_logical_or_operator() {
    let parts = split_logical_operators("a || b");
    assert_eq!(parts.len(), 2);
    assert_eq!(parts[0].next_op, Some(LogicalOp::Or));
    assert_eq!(parts[0].command.trim(), "a");
    assert_eq!(parts[1].command.trim(), "b");
}

#[test]
fn test_split_logical_single_ampersand_passes_through() {
    let parts = split_logical_operators("sleep 1 &");
    assert_eq!(parts.len(), 1);
    assert_eq!(parts[0].command, "sleep 1 &");
}

#[test]
fn test_split_logical_drops_blank_fragments() {
    let parts = split_logical_operators("a && && b");
    assert_eq!(parts.len(), 2);
    assert_eq!(parts[0].command.trim(), "a");
    assert_eq!(parts[1].command.trim(), "b");
}

#[test]
fn test_split_logical_single_quotes_protect() {
    let parts = split_logical_operators("echo 'x && y' && z");
    assert_eq!(parts.len(), 2);
    assert!(parts[0].command.contains("x && y"));
}

#[test]
fn test_split_pipes_simple() {
    let parts = split_pipes_respecting_quotes("ls | grep txt | wc -l");
    assert_eq!(parts.len(), 3);
    assert_eq!(parts[0].trim(), "ls");
    assert_eq!(parts[1].trim(), "grep txt");
    assert_eq!(parts[2].trim(), "wc -l");
}

#[test]
fn test_split_pipes_quoted_pipe_is_kept() {
    let parts = split_pipes_respecting_quotes(r#"echo "a | b" | cat"#);
    assert_eq!(parts.len(), 2);
    assert!(parts[0].contains("a | b"));
}

#[test]
fn test_split_pipes_no_pipe_returns_whole_line() {
    let parts = split_pipes_respecting_quotes("echo hello");
    assert_eq!(parts, vec!["echo hello"]);
}
