//! Tests for variable, tilde, alias and subshell expansion.

use clios::alias::expand_alias_string;
use clios::alias::expand_alias_string_with_bound;
use clios::expansion::expand_variables;
use clios::expansion::expand_variables_with_state;
use clios::expansion::expand_tilde;
use clios::expansion::expand_globs;
use clios::subshell::scan_subshells;
use clios::subshell::splice_subshells;
use clios::StrTable;

#[test]
fn test_expand_variables_simple() {
    let mut env = StrTable::new();
    env.insert("TEST_VAR".to_string(), "hello".to_string());

    let tokens = vec!["$TEST_VAR".to_string()];
    let result = expand_variables(tokens, 0, &env);

    assert_eq!(result, vec!["hello"]);
}

#[test]
fn test_expand_variables_with_braces() {
    let mut env = StrTable::new();
    env.insert("TEST_VAR".to_string(), "hello".to_string());

    let tokens = vec!["${TEST_VAR}".to_string()];
    let result = expand_variables(tokens, 0, &env);

    assert_eq!(result, vec!["hello"]);
}

#[test]
fn test_expand_variables_in_string() {
    let mut env = StrTable::new();
    env.insert("TESTUSER".to_string(), "myname".to_string());

    let tokens = vec!["prefix-$TESTUSER-suffix".to_string()];
    let result = expand_variables(tokens, 0, &env);

    assert!(
        result[0].contains("myname"),
        "Expected result to contain 'myname', got: {}",
        result[0]
    );
}

#[test]
fn test_expand_variables_unresolved_is_empty() {
    let env = StrTable::new();
    let result = expand_variables(vec!["a${NOSUCH}b".to_string()], 0, &env);
    assert_eq!(result, vec!["ab"]);
}

#[test]
fn test_expand_variables_exit_code_and_pid() {
    let env = StrTable::new();
    let result = expand_variables_with_state(
        vec!["$?".to_string(), "$$".to_string()],
        -7,
        123,
        &env,
    );
    assert_eq!(result, vec!["-7", "123"]);
}

#[test]
fn test_expand_variables_bare_dollar() {
    let env = StrTable::new();
    let result = expand_variables(vec!["$".to_string(), "a$-b".to_string()], 0, &env);
    assert_eq!(result, vec!["$", "a$-b"]);
}

#[test]
fn test_expand_variables_no_marker_is_identity() {
    let mut env = StrTable::new();
    env.insert("X".to_string(), "never".to_string());
    let tokens = vec!["plain".to_string(), "a b c".to_string(), "~/x".to_string()];
    let result = expand_variables(tokens.clone(), 0, &env);
    assert_eq!(result, tokens);
}

#[test]
fn test_expand_tilde() {
    let home = "/home/user";

    let tokens = vec!["~".to_string()];
    let result = expand_tilde(tokens, home);

    assert_eq!(result[0], home);
}

#[test]
fn test_expand_tilde_with_path() {
    let home = "/home/user";

    let tokens = vec!["~/Documents".to_string()];
    let result = expand_tilde(tokens, home);

    assert_eq!(result[0], format!("{}/Documents", home));
}

#[test]
fn test_expand_tilde_leaves_other_tokens() {
    let result = expand_tilde(
        vec!["a~".to_string(), "~user".to_string(), "x".to_string()],
        "/h",
    );
    assert_eq!(result, vec!["a~", "~user", "x"]);
}

#[test]
fn test_expand_globs_keeps_plain_tokens() {
    let tokens = vec!["echo".to_string(), "hello".to_string()];
    let result = expand_globs(tokens.clone());
    assert_eq!(result, tokens);
}

#[test]
fn test_expand_globs_no_match_keeps_literal() {
    let tokens = vec!["/nonexistent_dir_zz/*.xyz".to_string()];
    let result = expand_globs(tokens.clone());
    assert_eq!(result, tokens);
}

#[test]
fn test_expand_globs_replaces_matching_pattern() {
    let result = expand_globs(vec!["/*".to_string()]);
    assert!(!result.is_empty());
    assert!(!result.contains(&"/*".to_string()));
}

#[test]
fn test_expand_alias_simple() {
    let mut aliases = StrTable::new();
    aliases.insert("ll".to_string(), "ls -la".to_string());

    let input = "ll /tmp";
    let (result, _) = expand_alias_string(input, &aliases);

    assert_eq!(result, "ls -la /tmp");
}

#[test]
fn test_expand_alias_no_match() {
    let aliases = StrTable::new();

    let input = "ls -la";
    let (result, _) = expand_alias_string(input, &aliases);

    assert_eq!(result, "ls -la");
}

#[test]
fn test_alias_recursive_protection() {
    let mut aliases = StrTable::new();
    aliases.insert("ls".to_string(), "ls -la".to_string());

    let input = "ls";
    let (result, _) = expand_alias_string(input, &aliases);

    assert_eq!(result, "ls");
}

#[test]
fn test_alias_deep_recursion() {
    let mut aliases = StrTable::new();
    aliases.insert("a".to_string(), "b".to_string());
    aliases.insert("b".to_string(), "c".to_string());
    aliases.insert("c".to_string(), "d".to_string());

    let input = "a";
    let (result, _) = expand_alias_string(input, &aliases);

    assert!(!result.is_empty());
}

#[test]
fn test_alias_expansion_idempotent_once_stable() {
    let mut aliases = StrTable::new();
    aliases.insert("ll".to_string(), "ls -la".to_string());

    let (once, _) = expand_alias_string("ll /tmp", &aliases);
    let (twice, _) = expand_alias_string(&once, &aliases);

    assert_eq!(once, twice);
}

#[test]
fn test_alias_chain_stops_at_bound() {
    let mut aliases = StrTable::new();
    for i in 0..20 {
        aliases.insert(format!("a{}", i), format!("a{}", i + 1));
    }
    // The chain passes the bound: expansion aborts, the input comes back
    // exactly as it was, and the flag reports the hit.
    let (deep, bound_hit) = expand_alias_string("a0", &aliases);
    assert_eq!(deep, "a0");
    assert!(bound_hit);
    // With a bound that covers the chain, the last name comes out cleanly.
    let (full, bound_hit) = expand_alias_string_with_bound("a0", &aliases, 25);
    assert_eq!(full, "a20");
    assert!(!bound_hit);
}

#[test]
fn test_alias_bound_abort_keeps_arguments() {
    let mut aliases = StrTable::new();
    for i in 0..15 {
        aliases.insert(format!("b{}", i), format!("b{}", i + 1));
    }
    let (result, bound_hit) = expand_alias_string("b0 -x file", &aliases);
    assert_eq!(result, "b0 -x file");
    assert!(bound_hit);
}

#[test]
fn test_expand_variables_unicode_name() {
    let mut env = StrTable::new();
    env.insert("\u{dc}SER".to_string(), "ute".to_string());
    let result = expand_variables(vec!["$\u{dc}SER".to_string()], 0, &env);
    assert_eq!(result, vec!["ute"]);
}

#[test]
fn test_expand_subshells_simple() {
    let input = "echo $(echo test)";
    let scan = scan_subshells(input);
    assert_eq!(scan.commands, vec!["echo test"]);
    let result = splice_subshells(&scan, &vec!["test".to_string()]);

    assert!(result.contains("test"));
}

#[test]
fn test_expand_subshells_empty() {
    let input = "echo $()";
    let scan = scan_subshells(input);
    assert!(scan.commands.is_empty());
    assert_eq!(scan.empty_count, 1);
    let result = splice_subshells(&scan, &vec![]);

    assert!(result.contains("echo"));
}

#[test]
fn test_expand_subshells_unclosed() {
    let input = "echo $(echo test";
    let scan = scan_subshells(input);
    assert!(scan.unterminated);
    let result = splice_subshells(&scan, &vec![]);

    assert!(result.contains("echo"));
}

#[test]
fn test_subshell_embedded_output() {
    let scan = scan_subshells("a$(printf x)b");
    assert_eq!(scan.commands, vec!["printf x"]);
    let result = splice_subshells(&scan, &vec!["x".to_string()]);
    assert_eq!(result, "axb");
}

#[test]
fn test_subshell_unterminated_keeps_literal_text() {
    let scan = scan_subshells("echo $(echo x");
    assert!(scan.unterminated);
    let result = splice_subshells(&scan, &vec![]);
    assert_eq!(result, "echo $(echo x");
}

#[test]
fn test_subshell_free_line_is_unchanged() {
    let scan = scan_subshells("echo plain (text) $HOME");
    assert!(scan.commands.is_empty());
    assert_eq!(scan.empty_count, 0);
    assert!(!scan.unterminated);
    let result = splice_subshells(&scan, &vec![]);
    assert_eq!(result, "echo plain (text) $HOME");
}

#[test]
fn test_subshell_nested_parentheses() {
    let scan = scan_subshells("x$(a (b) c)y");
    assert_eq!(scan.commands, vec!["a (b) c"]);
    let result = splice_subshells(&scan, &vec!["out".to_string()]);
    assert_eq!(result, "xouty");
}
