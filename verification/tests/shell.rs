//! Tests for the session state, command-block planning, dispatch decisions,
//! builtins, jobs, the REPL buffer, configuration and completion.

use clios::builtins::classify_builtin;
use clios::chars::trim_trailing;
use clios::pipeline::spawn_failure_exit;
use clios::pipeline::SpawnFailure;
use clios::builtins::parse_alias_args;
use clios::builtins::parse_export_args;
use clios::builtins::parse_i32;
use clios::builtins::resolve_cd_target;
use clios::builtins::resolve_command_type;
use clios::builtins::unalias_command;
use clios::builtins::AliasDirective;
use clios::builtins::BuiltinCommand;
use clios::builtins::CdAction;
use clios::builtins::ExportDirective;
use clios::builtins::TypeResolution;
use clios::builtins::UnaliasOutcome;
use clios::completion::completion_matches;
use clios::completion::extract_word;
use clios::completion::merge_unique;
use clios::config::get_color_ansi;
use clios::config::CliosConfig;
use clios::jobs::add_job;
use clios::jobs::new_job_list;
use clios::jobs::remove_job;
use clios::jobs::update_jobs;
use clios::jobs::JobObservation;
use clios::jobs::JobStatus;
use clios::prompt::build_powerline_prompt;
use clios::prompt::PowerlineSegment;
use clios::repl::ReplBuffer;
use clios::repl::ReplStep;
use clios::shell::config_line_action;
use clios::shell::continue_after;
use clios::shell::needs_resplit;
use clios::shell::plan_command_block;
use clios::shell::CommandPlan;
use clios::shell::ConfigLineAction;
use clios::shell::ShellState;
use clios::LogicalOp;
use clios::StrTable;

fn plan(input: &str) -> CommandPlan {
    let aliases = StrTable::new();
    let env = StrTable::new();
    plan_command_block(input, &aliases, &env, 0, 1, "/home/user").0
}

#[test]
fn test_shell_creation() {
    let config = CliosConfig::default();
    let shell = ShellState::new(config);

    assert_eq!(shell.last_exit_code, 0);
    assert!(shell.aliases.is_empty());
    assert!(shell.previous_dir.is_none());
}

#[test]
fn test_plan_blank_input_is_empty() {
    assert!(matches!(plan(""), CommandPlan::Empty));
    assert!(matches!(plan("   \t "), CommandPlan::Empty));
}

#[test]
fn test_plan_single_command() {
    match plan("echo hello") {
        CommandPlan::Single { tokens, background } => {
            assert_eq!(tokens, vec!["echo", "hello"]);
            assert!(!background);
        }
        _ => panic!("expected a single command"),
    }
}

#[test]
fn test_plan_quoted_token_stays_whole() {
    match plan(r#"echo "a b" c"#) {
        CommandPlan::Single { tokens, .. } => {
            assert_eq!(tokens, vec!["echo", "a b", "c"]);
        }
        _ => panic!("expected a single command"),
    }
}

#[test]
fn test_plan_background_marker() {
    match plan("sleep 1 &") {
        CommandPlan::Single { tokens, background } => {
            assert_eq!(tokens, vec!["sleep", "1"]);
            assert!(background);
        }
        _ => panic!("expected a single command"),
    }
}

#[test]
fn test_plan_unclosed_quote_is_syntax_error() {
    assert!(matches!(plan("echo 'x"), CommandPlan::SyntaxError));
}

#[test]
fn test_plan_expands_variables_and_tilde() {
    let aliases = StrTable::new();
    let mut env = StrTable::new();
    env.insert("W".to_string(), "world".to_string());
    match plan_command_block("echo $W ~/d", &aliases, &env, 0, 1, "/h").0 {
        CommandPlan::Single { tokens, .. } => {
            assert_eq!(tokens, vec!["echo", "world", "/h/d"]);
        }
        _ => panic!("expected a single command"),
    }
}

#[test]
fn test_plan_rhai_keeps_script_text() {
    match plan("rhai print(40+2)") {
        CommandPlan::Single { tokens, background } => {
            assert_eq!(tokens, vec!["rhai", "print(40+2)"]);
            assert!(!background);
        }
        _ => panic!("expected a single command"),
    }
}

#[test]
fn test_plan_pipeline_segments() {
    match plan("echo a | cat | wc -l") {
        CommandPlan::PipedStages { stages } => {
            assert_eq!(stages.len(), 3);
            assert_eq!(stages[0], vec!["echo", "a"]);
            assert_eq!(stages[1], vec!["cat"]);
            assert_eq!(stages[2], vec!["wc", "-l"]);
        }
        _ => panic!("expected a pipeline"),
    }
}

#[test]
fn test_plan_pipeline_expands_aliases_per_segment() {
    let mut aliases = StrTable::new();
    aliases.insert("count".to_string(), "wc -l".to_string());
    let env = StrTable::new();
    match plan_command_block("echo a | count", &aliases, &env, 0, 1, "/h").0 {
        CommandPlan::PipedStages { stages } => {
            assert_eq!(stages[1], vec!["wc", "-l"]);
        }
        _ => panic!("expected a pipeline"),
    }
}

#[test]
fn test_continue_after_and_short_circuit() {
    assert!(!continue_after(Some(LogicalOp::And), 1));
    assert!(continue_after(Some(LogicalOp::And), 0));
    assert!(continue_after(Some(LogicalOp::Or), 0));
    assert!(continue_after(Some(LogicalOp::Or), 1));
    assert!(continue_after(None, 7));
}

#[test]
fn test_needs_resplit() {
    assert!(needs_resplit("up", "update && upgrade"));
    assert!(needs_resplit("try", "build || report"));
    assert!(!needs_resplit("ls", "ls"));
    assert!(!needs_resplit("ll", "ls -la"));
}

#[test]
fn test_plan_reports_alias_bound_hits_per_segment() {
    let mut aliases = StrTable::new();
    for i in 0..15 {
        aliases.insert(format!("c{}", i), format!("c{}", i + 1));
    }
    let env = StrTable::new();
    let (plan, warnings) = plan_command_block("c0 | cat | c0", &aliases, &env, 0, 1, "/h");
    assert_eq!(warnings, vec![0, 2]);
    match plan {
        CommandPlan::PipedStages { stages } => {
            // The aborted segments run with their original text.
            assert_eq!(stages[0], vec!["c0"]);
            assert_eq!(stages[1], vec!["cat"]);
            assert_eq!(stages[2], vec!["c0"]);
        }
        _ => panic!("expected a pipeline"),
    }
}

#[test]
fn test_spawn_failure_exit_codes() {
    assert_eq!(spawn_failure_exit(SpawnFailure::NotFound), 127);
    assert_eq!(spawn_failure_exit(SpawnFailure::PermissionDenied), 1);
    assert_eq!(spawn_failure_exit(SpawnFailure::Other), 1);
}

#[test]
fn test_trim_trailing_only_removes_the_tail() {
    assert_eq!(trim_trailing("  out  \n"), "  out");
    assert_eq!(trim_trailing("x"), "x");
    assert_eq!(trim_trailing("   "), "");
}

#[test]
fn test_config_line_action() {
    assert!(matches!(config_line_action(""), ConfigLineAction::Skip));
    assert!(matches!(config_line_action("  # note"), ConfigLineAction::Skip));
    assert!(matches!(config_line_action("echo 'x"), ConfigLineAction::BadQuoting));
    match config_line_action("  alias ll='ls -la'  ") {
        ConfigLineAction::Run { text } => assert_eq!(text, "alias ll='ls -la'"),
        _ => panic!("expected a runnable line"),
    }
}

#[test]
fn test_classify_builtin_names() {
    assert_eq!(classify_builtin("cd"), Some(BuiltinCommand::Cd));
    assert_eq!(classify_builtin("source"), Some(BuiltinCommand::Source));
    assert_eq!(classify_builtin("load"), Some(BuiltinCommand::Source));
    assert_eq!(classify_builtin("type"), Some(BuiltinCommand::TypeOf));
    assert_eq!(classify_builtin("version"), Some(BuiltinCommand::Version));
    assert_eq!(classify_builtin("grep"), None);
}

#[test]
fn test_resolve_cd_target() {
    let prev = "/old".to_string();
    let home = "/home/user".to_string();
    let dash = "-".to_string();
    let dir = "/tmp".to_string();
    match resolve_cd_target(Some(&dir), Some(&prev), Some(&home)) {
        CdAction::Go { path, announce } => {
            assert_eq!(path, "/tmp");
            assert!(!announce);
        }
        _ => panic!("expected a target"),
    }
    match resolve_cd_target(Some(&dash), Some(&prev), Some(&home)) {
        CdAction::Go { path, announce } => {
            assert_eq!(path, "/old");
            assert!(announce);
        }
        _ => panic!("expected the previous directory"),
    }
    assert!(matches!(
        resolve_cd_target(Some(&dash), None, Some(&home)),
        CdAction::MissingPrevious
    ));
    match resolve_cd_target(None, None, Some(&home)) {
        CdAction::Go { path, announce } => {
            assert_eq!(path, "/home/user");
            assert!(!announce);
        }
        _ => panic!("expected home"),
    }
    assert!(matches!(resolve_cd_target(None, None, None), CdAction::Stay));
}

#[test]
fn test_parse_alias_args() {
    let tokens: Vec<String> = vec!["alias".to_string()];
    assert!(matches!(parse_alias_args(&tokens), AliasDirective::List));
    let tokens: Vec<String> = vec!["alias".to_string(), "ll=ls".to_string(), "-la".to_string()];
    match parse_alias_args(&tokens) {
        AliasDirective::Bind { name, value } => {
            assert_eq!(name, "ll");
            assert_eq!(value, "ls -la");
        }
        _ => panic!("expected a binding"),
    }
    let tokens: Vec<String> = vec!["alias".to_string(), "noequals".to_string()];
    assert!(matches!(parse_alias_args(&tokens), AliasDirective::Usage));
}

#[test]
fn test_parse_export_args() {
    let tokens: Vec<String> = vec!["export".to_string()];
    assert!(matches!(parse_export_args(&tokens), ExportDirective::Usage));
    let tokens: Vec<String> = vec!["export".to_string(), "PATH=/bin".to_string()];
    match parse_export_args(&tokens) {
        ExportDirective::Bind { name, value } => {
            assert_eq!(name, "PATH");
            assert_eq!(value, "/bin");
        }
        _ => panic!("expected a binding"),
    }
}

#[test]
fn test_unalias_command() {
    let mut aliases = StrTable::new();
    aliases.insert("ll".to_string(), "ls -la".to_string());
    let tokens: Vec<String> = vec!["unalias".to_string(), "ll".to_string()];
    assert!(matches!(
        unalias_command(&tokens, &mut aliases),
        UnaliasOutcome::Removed
    ));
    assert!(matches!(
        unalias_command(&tokens, &mut aliases),
        UnaliasOutcome::NotFound
    ));
    let short: Vec<String> = vec!["unalias".to_string()];
    assert!(matches!(
        unalias_command(&short, &mut aliases),
        UnaliasOutcome::Usage
    ));
}

#[test]
fn test_resolve_command_type() {
    let mut aliases = StrTable::new();
    aliases.insert("ll".to_string(), "ls -la".to_string());
    match resolve_command_type("ll", &aliases) {
        TypeResolution::AliasOf { value } => assert_eq!(value, "ls -la"),
        _ => panic!("expected an alias"),
    }
    assert!(matches!(resolve_command_type("pwd", &aliases), TypeResolution::Builtin));
    assert!(matches!(
        resolve_command_type("somebinary", &aliases),
        TypeResolution::Unknown
    ));
}

#[test]
fn test_parse_i32_values() {
    assert_eq!(parse_i32("42"), Some(42));
    assert_eq!(parse_i32("-5"), Some(-5));
    assert_eq!(parse_i32("+7"), Some(7));
    assert_eq!(parse_i32("007"), Some(7));
    assert_eq!(parse_i32("2147483647"), Some(2147483647));
    assert_eq!(parse_i32("2147483648"), None);
    assert_eq!(parse_i32("-2147483648"), Some(-2147483648));
    assert_eq!(parse_i32("-2147483649"), None);
    assert_eq!(parse_i32(""), None);
    assert_eq!(parse_i32("abc"), None);
    assert_eq!(parse_i32(" 5"), None);
    assert_eq!(parse_i32("1 2"), None);
}

#[test]
fn test_job_table_updates() {
    let mut jobs = new_job_list();
    add_job(&mut jobs, 100, "sleep 60".to_string(), 10);
    add_job(&mut jobs, 200, "cat".to_string(), 11);
    assert_eq!(jobs.len(), 2);
    remove_job(&mut jobs, 100);
    assert_eq!(jobs.len(), 1);
    add_job(&mut jobs, 300, "vi".to_string(), 12);
    // One poll: 200 ended, 300 stopped. The ended job is pruned.
    let observed = vec![(200, JobObservation::Ended), (300, JobObservation::Paused)];
    update_jobs(&mut jobs, &observed);
    let entries = jobs.entries();
    assert_eq!(entries.len(), 1);
    assert_eq!(entries[0].pid, 300);
    assert_eq!(entries[0].status, JobStatus::Stopped);
    assert_eq!(entries[0].command, "vi");
}

#[test]
fn test_repl_buffer_steps() {
    let mut repl = ReplBuffer::new();
    assert!(matches!(repl.feed_line("exit"), ReplStep::Quit));
    match repl.feed_line("1+1") {
        ReplStep::Evaluate { code } => assert_eq!(code, "1+1\n"),
        _ => panic!("expected an evaluation"),
    }
    assert!(matches!(repl.feed_line("fn f() {"), ReplStep::Continue));
    // `exit` inside a pending block is ordinary input, not a quit.
    assert!(matches!(repl.feed_line("exit"), ReplStep::Continue));
    match repl.feed_line("}") {
        ReplStep::Evaluate { code } => assert_eq!(code, "fn f() {\nexit\n}\n"),
        _ => panic!("expected an evaluation"),
    }
}

#[test]
fn test_get_color_ansi_codes() {
    assert_eq!(get_color_ansi("red"), "\x1b[31m");
    assert_eq!(get_color_ansi("green"), "\x1b[32m");
    assert_eq!(get_color_ansi("blue"), "\x1b[34m");
    assert_eq!(get_color_ansi("no-such-color"), "\x1b[0m");
}

#[test]
fn test_default_config_values() {
    let c = CliosConfig::default();
    let p = c.prompt.unwrap();
    assert_eq!(p.symbol.unwrap(), "> ");
    assert_eq!(p.color.unwrap(), "blue");
    assert_eq!(p.show_git, Some(true));
    let h = c.history.unwrap();
    assert_eq!(h.file.unwrap(), ".clios_history");
    assert_eq!(h.max_entries, Some(1000));
    let s = c.syntax.unwrap();
    assert_eq!(s.valid_cmd.unwrap(), "green");
    assert_eq!(s.invalid_cmd.unwrap(), "red");
    assert_eq!(c.theme.unwrap(), "powerline");
}

#[test]
fn test_extract_word_positions() {
    let (start, word) = extract_word("echo fil", 8);
    assert_eq!(start, 5);
    assert_eq!(word, "fil");
    let (start, word) = extract_word("cmd", 3);
    assert_eq!(start, 0);
    assert_eq!(word, "cmd");
}

#[test]
fn test_completion_matches_case_insensitive() {
    let candidates: Vec<String> =
        vec!["ls".to_string(), "cat".to_string(), "Lib".to_string()];
    let matches = completion_matches("L", &candidates);
    assert_eq!(matches, vec!["ls", "Lib"]);
}

#[test]
fn test_merge_unique_drops_duplicates() {
    let mut r: Vec<String> = vec!["cd".to_string(), "ls".to_string()];
    merge_unique(
        &mut r,
        vec!["ls".to_string(), "grep".to_string(), "cd".to_string()],
    );
    assert_eq!(r, vec!["cd", "ls", "grep"]);
}

#[test]
fn test_powerline_prompt_rendering() {
    let segments = vec![PowerlineSegment {
        text: "hi".to_string(),
        bg: "218".to_string(),
        fg: "0".to_string(),
    }];
    let bar = build_powerline_prompt(segments);
    assert_eq!(
        bar,
        "\x1b[38;5;218m\u{e0b6}\x1b[48;5;218m\x1b[38;5;0m hi \x1b[0m\x1b[38;5;218m\u{e0b0}\x1b[0m"
    );
}

#[test]
fn test_alias_table_operations() {
    let mut t = StrTable::new();
    assert!(t.is_empty());
    t.insert("a".to_string(), "1".to_string());
    t.insert("b".to_string(), "2".to_string());
    t.insert("a".to_string(), "3".to_string());
    assert!(!t.is_empty());
    let pairs = t.pairs();
    assert_eq!(pairs.len(), 2);
    assert!(pairs.contains(&("a".to_string(), "3".to_string())));
    assert!(pairs.contains(&("b".to_string(), "2".to_string())));
}
