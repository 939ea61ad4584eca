//! Redirection parsing and pipeline planning. The parser scans a token
//! stream for the redirection operators `<`, `>`, `>>`, `2>` and `2>>`,
//! lifting each operator and its filename out of the argument list. The
//! planner turns an ordered list of token streams into per-stage plans; a
//! caller opens the files, spawns the processes along the plan and reports
//! back, and the exit-code and stream-binding rules here say what to do
//! with what came back.

use vstd::prelude::*;

use crate::chars::chars_eq_str;
use crate::chars::str_chars;

verus! {

/// POSIX exit code for a command that could not be found or spawned.
pub const EXIT_COMMAND_NOT_FOUND: i32 = 127;

/// Exit code for generic errors, also used when a process was ended by a
/// signal and left no exit code.
pub const EXIT_ERROR: i32 = 1;

/// A redirection operator.
#[derive(Debug, Clone, Copy, PartialEq, Eq, Structural)]
pub enum RedirKind {
    /// `<`: read standard input from an existing file.
    In,
    /// `>`: write standard output, creating or truncating.
    OutTrunc,
    /// `>>`: write standard output, creating or appending.
    OutAppend,
    /// `2>`: write standard error, creating or truncating.
    ErrTrunc,
    /// `2>>`: write standard error, creating or appending.
    ErrAppend,
}

/// The stream a redirection operator acts on.
#[derive(Debug, Clone, Copy, PartialEq, Eq, Structural)]
pub enum StreamSlot {
    Stdin,
    Stdout,
    Stderr,
}

/// The stream that `k` redirects.
pub open spec fn slot_of(k: RedirKind) -> StreamSlot {
    match k {
        RedirKind::In => StreamSlot::Stdin,
        RedirKind::OutTrunc => StreamSlot::Stdout,
        RedirKind::OutAppend => StreamSlot::Stdout,
        RedirKind::ErrTrunc => StreamSlot::Stderr,
        RedirKind::ErrAppend => StreamSlot::Stderr,
    }
}

/// Executable form of [`slot_of`].
pub fn stream_slot(k: RedirKind) -> (r: StreamSlot)
    ensures
        r == slot_of(k),
{
    match k {
        RedirKind::In => StreamSlot::Stdin,
        RedirKind::OutTrunc => StreamSlot::Stdout,
        RedirKind::OutAppend => StreamSlot::Stdout,
        RedirKind::ErrTrunc => StreamSlot::Stderr,
        RedirKind::ErrAppend => StreamSlot::Stderr,
    }
}

/// The redirection operator a token spells, if any.
pub open spec fn redir_kind_of(t: Seq<char>) -> Option<RedirKind> {
    if t == seq!['<'] {
        Some(RedirKind::In)
    } else if t == seq!['>'] {
        Some(RedirKind::OutTrunc)
    } else if t == seq!['>', '>'] {
        Some(RedirKind::OutAppend)
    } else if t == seq!['2', '>'] {
        Some(RedirKind::ErrTrunc)
    } else if t == seq!['2', '>', '>'] {
        Some(RedirKind::ErrAppend)
    } else {
        None
    }
}

fn token_redir_kind(t: &Vec<char>) -> (r: Option<RedirKind>)
    ensures
        r == redir_kind_of(t@),
{
    proof {
        reveal_strlit("<");
        reveal_strlit(">");
        reveal_strlit(">>");
        reveal_strlit("2>");
        reveal_strlit("2>>");
        assert("<"@ =~= seq!['<']);
        assert(">"@ =~= seq!['>']);
        assert(">>"@ =~= seq!['>', '>']);
        assert("2>"@ =~= seq!['2', '>']);
        assert("2>>"@ =~= seq!['2', '>', '>']);
    }
    if chars_eq_str(t, "<") {
        Some(RedirKind::In)
    } else if chars_eq_str(t, ">") {
        Some(RedirKind::OutTrunc)
    } else if chars_eq_str(t, ">>") {
        Some(RedirKind::OutAppend)
    } else if chars_eq_str(t, "2>") {
        Some(RedirKind::ErrTrunc)
    } else if chars_eq_str(t, "2>>") {
        Some(RedirKind::ErrAppend)
    } else {
        None
    }
}

/// One redirection found in a token stream: the operator and its target.
#[derive(Debug, Clone)]
pub struct RedirOp {
    pub kind: RedirKind,
    pub target: String,
}

impl View for RedirOp {
    type V = (RedirKind, Seq<char>);

    open spec fn view(&self) -> (RedirKind, Seq<char>) {
        (self.kind, self.target@)
    }
}

/// What scanning a token stream for redirections yields: the cleaned
/// arguments, the operator/target pairs in order, and the operators that
/// had no following filename (each a reported syntax error).
pub struct RedirShape {
    pub clean: Seq<Seq<char>>,
    pub ops: Seq<(RedirKind, Seq<char>)>,
    pub missing: Seq<RedirKind>,
}

/// The scan of `tokens` from position `i` on.
pub open spec fn parse_redir_at(tokens: Seq<Seq<char>>, i: int) -> RedirShape
    decreases tokens.len() - i,
    when 0 <= i
{
    if i >= tokens.len() {
        RedirShape { clean: Seq::empty(), ops: Seq::empty(), missing: Seq::empty() }
    } else {
        match redir_kind_of(tokens[i]) {
            Some(k) => {
                if i + 1 < tokens.len() {
                    let rest = parse_redir_at(tokens, i + 2);
                    RedirShape {
                        clean: rest.clean,
                        ops: seq![(k, tokens[i + 1])] + rest.ops,
                        missing: rest.missing,
                    }
                } else {
                    let rest = parse_redir_at(tokens, i + 1);
                    RedirShape {
                        clean: rest.clean,
                        ops: rest.ops,
                        missing: seq![k] + rest.missing,
                    }
                }
            },
            None => {
                let rest = parse_redir_at(tokens, i + 1);
                RedirShape {
                    clean: seq![tokens[i]] + rest.clean,
                    ops: rest.ops,
                    missing: rest.missing,
                }
            },
        }
    }
}

/// The result of scanning one command's tokens for redirections.
#[derive(Debug, Clone)]
pub struct RedirectionScan {
    /// The command and its arguments, operators and targets removed.
    pub clean: Vec<String>,
    /// Every operator/target pair, in order of appearance. The caller opens
    /// each target in this order (so an overridden truncation still
    /// happens); per stream the last successfully opened one wins.
    pub ops: Vec<RedirOp>,
    /// Operators that ended the stream with no filename: syntax errors, each
    /// reported and dropped.
    pub missing: Vec<RedirKind>,
}

impl RedirectionScan {
    /// The cleaned arguments, viewed as character sequences.
    pub open spec fn clean_view(&self) -> Seq<Seq<char>> {
        self.clean@.map_values(|t: String| t@)
    }

    /// The operator/target pairs, viewed.
    pub open spec fn ops_view(&self) -> Seq<(RedirKind, Seq<char>)> {
        self.ops@.map_values(|o: RedirOp| o@)
    }
}

/// Scans a token stream left to right for redirection operators. Each
/// operator takes the following token as its filename; a trailing operator
/// with no filename is recorded in `missing`. Everything else stays in
/// `clean`, in order.
pub fn parse_redirection(tokens: &Vec<String>) -> (r: RedirectionScan)
    ensures
        r.clean_view() == parse_redir_at(tokens@.map_values(|t: String| t@), 0).clean,
        r.ops_view() == parse_redir_at(tokens@.map_values(|t: String| t@), 0).ops,
        r.missing@ == parse_redir_at(tokens@.map_values(|t: String| t@), 0).missing,
{
    let ghost tv = tokens@.map_values(|t: String| t@);
    let ghost whole = parse_redir_at(tv, 0);
    let mut clean: Vec<String> = Vec::new();
    let mut ops: Vec<RedirOp> = Vec::new();
    let mut missing: Vec<RedirKind> = Vec::new();
    let mut i: usize = 0;
    proof {
        assert(clean@.map_values(|t: String| t@) =~= Seq::<Seq<char>>::empty());
        assert(ops@.map_values(|o: RedirOp| o@) =~= Seq::<(RedirKind, Seq<char>)>::empty());
        assert(whole.clean =~= clean@.map_values(|t: String| t@) + parse_redir_at(tv, 0).clean);
        assert(whole.ops =~= ops@.map_values(|o: RedirOp| o@) + parse_redir_at(tv, 0).ops);
        assert(whole.missing =~= missing@ + parse_redir_at(tv, 0).missing);
    }
    while i < tokens.len()
        invariant
            i <= tokens@.len(),
            tv == tokens@.map_values(|t: String| t@),
            whole == parse_redir_at(tv, 0),
            whole.clean == clean@.map_values(|t: String| t@) + parse_redir_at(tv, i as int).clean,
            whole.ops == ops@.map_values(|o: RedirOp| o@) + parse_redir_at(tv, i as int).ops,
            whole.missing == missing@ + parse_redir_at(tv, i as int).missing,
        decreases tokens@.len() - i,
    {
        let ghost clean0 = clean@;
        let ghost ops0 = ops@;
        let ghost missing0 = missing@;
        let tc = str_chars(tokens[i].as_str());
        match token_redir_kind(&tc) {
            Some(k) => {
                if i + 1 < tokens.len() {
                    ops.push(RedirOp { kind: k, target: tokens[i + 1].clone() });
                    i += 2;
                    proof {
                        assert(ops@.map_values(|o: RedirOp| o@) =~= ops0.map_values(
                            |o: RedirOp| o@,
                        ).push((k, tv[i - 2 as int + 1])));
                        assert(whole.ops =~= ops@.map_values(|o: RedirOp| o@) + parse_redir_at(
                            tv,
                            i as int,
                        ).ops);
                    }
                } else {
                    missing.push(k);
                    i += 1;
                    proof {
                        assert(whole.missing =~= missing@ + parse_redir_at(tv, i as int).missing);
                    }
                }
            },
            None => {
                clean.push(tokens[i].clone());
                i += 1;
                proof {
                    assert(clean@.map_values(|t: String| t@) =~= clean0.map_values(
                        |t: String| t@,
                    ).push(tv[i - 1 as int]));
                    assert(whole.clean =~= clean@.map_values(|t: String| t@) + parse_redir_at(
                        tv,
                        i as int,
                    ).clean);
                }
            },
        }
    }
    proof {
        assert(whole.clean =~= clean@.map_values(|t: String| t@));
        assert(whole.ops =~= ops@.map_values(|o: RedirOp| o@));
        assert(whole.missing =~= missing@);
    }
    RedirectionScan { clean, ops, missing }
}

/// Given which redirection targets could actually be opened, the operator
/// that ends up owning a stream: the last successfully opened one for that
/// stream. A failed open leaves earlier openings in force, and the stream
/// falls back to its default when none succeeded.
pub fn effective_redirection(ops: &Vec<RedirOp>, opened: &Vec<bool>, slot: StreamSlot) -> (r:
    Option<usize>)
    requires
        opened@.len() == ops@.len(),
    ensures
        match r {
            Some(i) => i < ops@.len() && slot_of(ops@[i as int].kind) == slot && opened@[i as int]
                && forall|j: int|
                i < j < ops@.len() && slot_of((#[trigger] ops@[j]).kind) == slot
                    ==> !opened@[j],
            None => forall|j: int|
                0 <= j < ops@.len() && slot_of((#[trigger] ops@[j]).kind) == slot
                    ==> !opened@[j],
        },
{
    let mut r: Option<usize> = None;
    let mut i: usize = 0;
    while i < ops.len()
        invariant
            i <= ops@.len(),
            opened@.len() == ops@.len(),
            match r {
                Some(x) => x < i && slot_of(ops@[x as int].kind) == slot && opened@[x as int]
                    && forall|j: int|
                    x < j < i && slot_of((#[trigger] ops@[j]).kind) == slot ==> !opened@[j],
                None => forall|j: int|
                    0 <= j < i && slot_of((#[trigger] ops@[j]).kind) == slot ==> !opened@[j],
            },
        decreases ops@.len() - i,
    {
        let is_slot = match (stream_slot(ops[i].kind), slot) {
            (StreamSlot::Stdin, StreamSlot::Stdin) => true,
            (StreamSlot::Stdout, StreamSlot::Stdout) => true,
            (StreamSlot::Stderr, StreamSlot::Stderr) => true,
            _ => false,
        };
        if is_slot && opened[i] {
            r = Some(i);
        }
        i += 1;
    }
    r
}

/// Where a stage's standard input comes from.
#[derive(Debug, Clone, Copy, PartialEq, Eq, Structural)]
pub enum InputBinding {
    /// Its own input redirection, which takes priority.
    RedirectedFile,
    /// The standard output of the previous stage.
    PreviousPipe,
    /// The inherited terminal input.
    Terminal,
}

/// Where a stage's standard output goes.
#[derive(Debug, Clone, Copy, PartialEq, Eq, Structural)]
pub enum OutputBinding {
    /// Its own output redirection, which takes priority.
    RedirectedFile,
    /// A fresh pipe toward the next stage.
    NextPipe,
    /// The inherited terminal output.
    Terminal,
}

/// The input binding of a stage: an opened input redirection wins, then the
/// previous stage's pipe, then the terminal.
pub fn stage_input_binding(has_infile: bool, has_previous: bool) -> (r: InputBinding)
    ensures
        r == (if has_infile {
            InputBinding::RedirectedFile
        } else if has_previous {
            InputBinding::PreviousPipe
        } else {
            InputBinding::Terminal
        }),
{
    if has_infile {
        InputBinding::RedirectedFile
    } else if has_previous {
        InputBinding::PreviousPipe
    } else {
        InputBinding::Terminal
    }
}

/// The output binding of a stage: an opened output redirection wins; any
/// stage before the last pipes into its successor; the last stage writes to
/// the terminal.
pub fn stage_output_binding(has_outfile: bool, index: usize, total: usize) -> (r: OutputBinding)
    requires
        index < total,
    ensures
        r == (if has_outfile {
            OutputBinding::RedirectedFile
        } else if index < total - 1 {
            OutputBinding::NextPipe
        } else {
            OutputBinding::Terminal
        }),
{
    if has_outfile {
        OutputBinding::RedirectedFile
    } else if index < total - 1 {
        OutputBinding::NextPipe
    } else {
        OutputBinding::Terminal
    }
}

/// Why a stage could not be spawned.
#[derive(Debug, Clone, Copy, PartialEq, Eq, Structural)]
pub enum SpawnFailure {
    /// The program was not found.
    NotFound,
    /// The program exists but may not be run.
    PermissionDenied,
    /// Any other operating-system error.
    Other,
}

/// The exit code a spawn failure aborts the pipeline with: the conventional
/// not-found code for a missing program, the generic error code otherwise.
pub fn spawn_failure_exit(kind: SpawnFailure) -> (r: i32)
    ensures
        r == (if kind is NotFound {
            EXIT_COMMAND_NOT_FOUND
        } else {
            EXIT_ERROR
        }),
{
    match kind {
        SpawnFailure::NotFound => EXIT_COMMAND_NOT_FOUND,
        SpawnFailure::PermissionDenied => EXIT_ERROR,
        SpawnFailure::Other => EXIT_ERROR,
    }
}

/// The exit code a pipeline reports, from what waiting on the last stage
/// returned: 0 when there was nothing to wait on or the wait failed, the
/// stage's own code when it exited, and 1 when it was ended by a signal and
/// left no code.
pub fn pipeline_exit_code(wait: Option<Option<i32>>) -> (r: i32)
    ensures
        r == (match wait {
            None => 0i32,
            Some(None) => EXIT_ERROR,
            Some(Some(c)) => c,
        }),
{
    match wait {
        None => 0,
        Some(None) => EXIT_ERROR,
        Some(Some(c)) => c,
    }
}

/// One planned pipeline stage.
#[derive(Debug, Clone)]
pub struct StagePlan {
    /// The stage's position in the original pipeline; bindings depend on it.
    pub index: usize,
    /// The redirection scan of the stage's tokens: arguments, operators,
    /// and missing-target errors.
    pub scan: RedirectionScan,
}

/// The plan for a pipeline.
pub enum PipelinePlan {
    /// Nothing to run; the pipeline exits 0 without spawning any process.
    /// `warn` says whether this deserves a notice (all stages were blank,
    /// as opposed to no stages at all).
    Empty { warn: bool },
    /// The stages to spawn in order, and the total number of positions the
    /// pipeline had (empty positions are skipped but still count for the
    /// output bindings).
    Run { stages: Vec<StagePlan>, total: usize },
}

/// Whether every command of the pipeline is an empty token stream.
pub open spec fn all_commands_empty(cmds: Seq<Seq<Seq<char>>>) -> bool {
    forall|i: int| 0 <= i < cmds.len() ==> (#[trigger] cmds[i]).len() == 0
}

/// The planned stages: one per non-empty command, in order, each carrying
/// its original position and its redirection scan.
pub open spec fn planned_stages(cmds: Seq<Seq<Seq<char>>>, i: int) -> Seq<(int, RedirShape)>
    decreases cmds.len() - i,
    when 0 <= i
{
    if i >= cmds.len() {
        Seq::empty()
    } else if cmds[i].len() == 0 {
        planned_stages(cmds, i + 1)
    } else {
        seq![(i, parse_redir_at(cmds[i], 0))] + planned_stages(cmds, i + 1)
    }
}

/// The views of planned stages.
pub open spec fn stages_view(ss: Seq<StagePlan>) -> Seq<(int, RedirShape)> {
    ss.map_values(
        |s: StagePlan|
            (
                s.index as int,
                RedirShape { clean: s.scan.clean_view(), ops: s.scan.ops_view(), missing: s.scan.missing@ },
            ),
    )
}

/// The view of a pipeline's commands: each command as its token views.
pub open spec fn commands_view(cmds: Seq<Vec<String>>) -> Seq<Seq<Seq<char>>> {
    cmds.map_values(|c: Vec<String>| c@.map_values(|t: String| t@))
}

/// Plans a pipeline. An empty pipeline, or one whose commands are all
/// empty, runs nothing and exits 0 (the latter with a warning); empty
/// commands inside a non-trivial pipeline are skipped, and each remaining
/// command is scanned for redirections.
pub fn plan_pipeline(commands: &Vec<Vec<String>>) -> (r: PipelinePlan)
    ensures
        match r {
            PipelinePlan::Empty { warn } => {
                &&& all_commands_empty(commands_view(commands@))
                &&& warn == (commands@.len() > 0)
            },
            PipelinePlan::Run { stages, total } => {
                &&& !all_commands_empty(commands_view(commands@))
                &&& total == commands@.len()
                &&& stages_view(stages@) == planned_stages(commands_view(commands@), 0)
            },
        },
{
    let ghost cv = commands_view(commands@);
    let mut any = false;
    let mut k: usize = 0;
    while k < commands.len()
        invariant
            k <= commands@.len(),
            cv == commands_view(commands@),
            any == !(forall|j: int| 0 <= j < k ==> (#[trigger] cv[j]).len() == 0),
        decreases commands@.len() - k,
    {
        proof {
            assert(cv[k as int] == commands@[k as int]@.map_values(|t: String| t@));
        }
        if commands[k].len() > 0 {
            any = true;
        }
        k += 1;
    }
    if !any {
        return PipelinePlan::Empty { warn: commands.len() > 0 };
    }
    let mut stages: Vec<StagePlan> = Vec::new();
    let mut i: usize = 0;
    proof {
        assert(stages_view(stages@) =~= Seq::<(int, RedirShape)>::empty());
        assert(planned_stages(cv, 0) =~= stages_view(stages@) + planned_stages(cv, 0));
    }
    while i < commands.len()
        invariant
            i <= commands@.len(),
            cv == commands_view(commands@),
            planned_stages(cv, 0) == stages_view(stages@) + planned_stages(cv, i as int),
        decreases commands@.len() - i,
    {
        let ghost stages0 = stages@;
        if commands[i].len() > 0 {
            let scan = parse_redirection(&commands[i]);
            stages.push(StagePlan { index: i, scan });
            proof {
                assert(stages_view(stages@) =~= stages_view(stages0).push(
                    (i as int, parse_redir_at(cv[i as int], 0)),
                ));
                assert(planned_stages(cv, 0) =~= stages_view(stages@) + planned_stages(
                    cv,
                    i + 1,
                ));
            }
        }
        i += 1;
    }
    proof {
        assert(planned_stages(cv, 0) =~= stages_view(stages@));
    }
    PipelinePlan::Run { stages, total: commands.len() }
}

} // verus!
