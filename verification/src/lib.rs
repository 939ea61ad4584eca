//! A verified core for an interactive command interpreter: text expansion
//! (variables, tilde, globs, command substitution, aliases), quote-aware
//! splitting of logical operators and pipes, redirection parsing, pipeline
//! planning, and job bookkeeping. Process creation, terminal control and the
//! scripting runtime live outside the library and consume the plans and
//! token streams produced here.

pub mod alias;
pub mod builtins;
pub mod chars;
pub mod completion;
pub mod config;
pub mod expansion;
pub mod jobs;
pub mod pipeline;
pub mod prompt;
pub mod repl;
pub mod shell;
pub mod splitting;
pub mod subshell;
pub mod table;

pub use alias::expand_alias_string;
pub use splitting::LogicalOp;
pub use splitting::LogicalPart;
pub use splitting::split_logical_and;
pub use splitting::split_logical_operators;
pub use splitting::split_pipes_respecting_quotes;
pub use chars::str_chars;
pub use chars::chars_string;
pub use table::StrTable;
pub use subshell::SubshellScan;
pub use subshell::scan_subshells;
pub use subshell::splice_subshells;
