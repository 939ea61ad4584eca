//! Tests for redirection parsing, pipeline planning, and the exit-code and
//! stream-binding rules.

use clios::pipeline::effective_redirection;
use clios::pipeline::parse_redirection;
use clios::pipeline::pipeline_exit_code;
use clios::pipeline::plan_pipeline;
use clios::pipeline::stage_input_binding;
use clios::pipeline::stage_output_binding;
use clios::pipeline::InputBinding;
use clios::pipeline::OutputBinding;
use clios::pipeline::PipelinePlan;
use clios::pipeline::RedirKind;
use clios::pipeline::StreamSlot;
use clios::pipeline::EXIT_COMMAND_NOT_FOUND;

fn strings(words: &[&str]) -> Vec<String> {
    words.iter().map(|w| w.to_string()).collect()
}

#[test]
fn test_parse_redirection_stdout() {
    let tokens = strings(&["echo", "test", ">", "/tmp/test_output.txt"]);

    let scan = parse_redirection(&tokens);
    let opened = vec![true; scan.ops.len()];

    assert_eq!(scan.clean, vec!["echo", "test"]);
    assert!(effective_redirection(&scan.ops, &opened, StreamSlot::Stdout).is_some());
    assert!(effective_redirection(&scan.ops, &opened, StreamSlot::Stderr).is_none());
}

#[test]
fn test_parse_redirection_stderr() {
    let tokens = strings(&["ls", "/nonexistent", "2>", "/tmp/test_error.txt"]);

    let scan = parse_redirection(&tokens);
    let opened = vec![true; scan.ops.len()];

    assert_eq!(scan.clean, vec!["ls", "/nonexistent"]);
    assert!(effective_redirection(&scan.ops, &opened, StreamSlot::Stdout).is_none());
    assert!(effective_redirection(&scan.ops, &opened, StreamSlot::Stderr).is_some());
}

#[test]
fn test_parse_redirection_both() {
    let tokens = strings(&["ls", "/tmp", ">", "/tmp/out.txt", "2>", "/tmp/err.txt"]);

    let scan = parse_redirection(&tokens);
    let opened = vec![true; scan.ops.len()];

    assert_eq!(scan.clean, vec!["ls", "/tmp"]);
    assert!(effective_redirection(&scan.ops, &opened, StreamSlot::Stdout).is_some());
    assert!(effective_redirection(&scan.ops, &opened, StreamSlot::Stderr).is_some());
}

#[test]
fn test_parse_redirection_clean_tokens_and_target() {
    let tokens = strings(&["echo", "x", ">", "/tmp/f"]);
    let scan = parse_redirection(&tokens);
    assert_eq!(scan.clean, vec!["echo", "x"]);
    assert_eq!(scan.ops.len(), 1);
    assert_eq!(scan.ops[0].kind, RedirKind::OutTrunc);
    assert_eq!(scan.ops[0].target, "/tmp/f");
    assert!(scan.missing.is_empty());
    let opened = vec![true];
    assert!(effective_redirection(&scan.ops, &opened, StreamSlot::Stdout).is_some());
    assert!(effective_redirection(&scan.ops, &opened, StreamSlot::Stdin).is_none());
    assert!(effective_redirection(&scan.ops, &opened, StreamSlot::Stderr).is_none());
}

#[test]
fn test_parse_redirection_trailing_operator_is_error() {
    let tokens = strings(&["echo", ">"]);
    let scan = parse_redirection(&tokens);
    assert_eq!(scan.clean, vec!["echo"]);
    assert!(scan.ops.is_empty());
    assert_eq!(scan.missing, vec![RedirKind::OutTrunc]);
}

#[test]
fn test_parse_redirection_append_kinds() {
    let tokens = strings(&["cmd", ">>", "a", "2>>", "b", "<", "c"]);
    let scan = parse_redirection(&tokens);
    assert_eq!(scan.clean, vec!["cmd"]);
    assert_eq!(scan.ops.len(), 3);
    assert_eq!(scan.ops[0].kind, RedirKind::OutAppend);
    assert_eq!(scan.ops[1].kind, RedirKind::ErrAppend);
    assert_eq!(scan.ops[2].kind, RedirKind::In);
}

#[test]
fn test_effective_redirection_last_successful_wins() {
    let tokens = strings(&["c", ">", "one", ">", "two"]);
    let scan = parse_redirection(&tokens);
    assert_eq!(
        effective_redirection(&scan.ops, &vec![true, true], StreamSlot::Stdout),
        Some(1)
    );
    // When the second open failed, the first stays in force.
    assert_eq!(
        effective_redirection(&scan.ops, &vec![true, false], StreamSlot::Stdout),
        Some(0)
    );
    assert_eq!(
        effective_redirection(&scan.ops, &vec![false, false], StreamSlot::Stdout),
        None
    );
}

#[test]
fn test_empty_pipeline_exits_zero() {
    let plan = plan_pipeline(&vec![]);
    assert!(matches!(plan, PipelinePlan::Empty { warn: false }));
    assert_eq!(pipeline_exit_code(None), 0);
}

#[test]
fn test_all_blank_pipeline_exits_zero_with_warning() {
    let plan = plan_pipeline(&vec![vec![], vec![]]);
    assert!(matches!(plan, PipelinePlan::Empty { warn: true }));
}

#[test]
fn test_pipeline_reports_last_stage_code() {
    let commands = vec![strings(&["printf", "foo"]), strings(&["cat"])];
    let plan = plan_pipeline(&commands);
    match plan {
        PipelinePlan::Run { stages, total } => {
            assert_eq!(total, 2);
            assert_eq!(stages.len(), 2);
            // Only the last stage is waited on; its code is the pipeline's.
            assert_eq!(stages[1].scan.clean, vec!["cat"]);
            assert_eq!(pipeline_exit_code(Some(Some(0))), 0);
        }
        PipelinePlan::Empty { .. } => panic!("expected a plan with stages"),
    }
}

#[test]
fn test_blank_stage_is_skipped_not_fatal() {
    let commands = vec![strings(&["ls"]), vec![], strings(&["wc"])];
    let plan = plan_pipeline(&commands);
    match plan {
        PipelinePlan::Run { stages, total } => {
            assert_eq!(total, 3);
            assert_eq!(stages.len(), 2);
            assert_eq!(stages[0].index, 0);
            assert_eq!(stages[1].index, 2);
        }
        PipelinePlan::Empty { .. } => panic!("expected a plan with stages"),
    }
}

#[test]
fn test_exit_code_rules() {
    assert_eq!(pipeline_exit_code(Some(Some(3))), 3);
    // Ended by a signal, no code: the generic error code.
    assert_eq!(pipeline_exit_code(Some(None)), 1);
    // Wait failed entirely: the default success stays.
    assert_eq!(pipeline_exit_code(None), 0);
    assert_eq!(EXIT_COMMAND_NOT_FOUND, 127);
}

#[test]
fn test_stage_bindings() {
    assert_eq!(stage_input_binding(true, true), InputBinding::RedirectedFile);
    assert_eq!(stage_input_binding(false, true), InputBinding::PreviousPipe);
    assert_eq!(stage_input_binding(false, false), InputBinding::Terminal);
    assert_eq!(stage_output_binding(true, 0, 2), OutputBinding::RedirectedFile);
    assert_eq!(stage_output_binding(false, 0, 2), OutputBinding::NextPipe);
    assert_eq!(stage_output_binding(false, 1, 2), OutputBinding::Terminal);
}
