//! The error types of parsing, graph building and execution.
use vstd::prelude::*;
use crate::text::{decimal, fmt_i64, fmt_u64, push_str, signed_decimal, string_of};

verus! {

/// An error of the manifest parser.
#[derive(Debug)]
pub enum ParseError {
    /// A malformed line; `line` counts the physical lines read so far.
    Syntax { line: usize, message: String },
    /// A build statement names a rule that does not exist.
    UnknownRule { name: String },
    /// A rule is defined twice in one scope.
    DuplicateRule { name: String },
    /// A rule lacks a variable it needs.
    MissingVariable { var: String, rule: String },
    /// A file includes itself, directly or through others.
    CircularInclude { path: String },
    /// The statement at `line` includes the file `path`, which was not
    /// supplied to the parser: read it and parse again with it.
    FileNeeded { path: String, line: usize },
}

/// The mathematical value of a `ParseError`.
pub enum ParseErrorView {
    Syntax { line: nat, message: Seq<char> },
    UnknownRule { name: Seq<char> },
    DuplicateRule { name: Seq<char> },
    MissingVariable { var: Seq<char>, rule: Seq<char> },
    CircularInclude { path: Seq<char> },
    FileNeeded { path: Seq<char>, line: nat },
}

impl View for ParseError {
    type V = ParseErrorView;

    open spec fn view(&self) -> ParseErrorView {
        match self {
            ParseError::Syntax { line, message } => ParseErrorView::Syntax {
                line: *line as nat,
                message: message@,
            },
            ParseError::UnknownRule { name } => ParseErrorView::UnknownRule { name: name@ },
            ParseError::DuplicateRule { name } => ParseErrorView::DuplicateRule { name: name@ },
            ParseError::MissingVariable { var, rule } => ParseErrorView::MissingVariable {
                var: var@,
                rule: rule@,
            },
            ParseError::CircularInclude { path } => ParseErrorView::CircularInclude {
                path: path@,
            },
            ParseError::FileNeeded { path, line } => ParseErrorView::FileNeeded {
                path: path@,
                line: *line as nat,
            },
        }
    }
}

/// The text that a `ParseError` displays.
pub open spec fn parse_error_text(e: ParseErrorView) -> Seq<char> {
    match e {
        ParseErrorView::Syntax { line, message } => "line "@ + decimal(line) + ": "@ + message,
        ParseErrorView::UnknownRule { name } => "unknown rule '"@ + name + "'"@,
        ParseErrorView::DuplicateRule { name } => "duplicate rule '"@ + name + "'"@,
        ParseErrorView::MissingVariable { var, rule } => "missing required variable '"@ + var
            + "' in rule '"@ + rule + "'"@,
        ParseErrorView::CircularInclude { path } => "circular include detected: "@ + path,
        ParseErrorView::FileNeeded { path, line } => "line "@ + decimal(line) + ": file needed: "@
            + path,
    }
}

impl ParseError {
    /// The message this error displays.
    pub fn message(&self) -> (s: String)
        ensures
            s@ == parse_error_text(self@),
    {
        let mut v: Vec<char> = Vec::new();
        match self {
            ParseError::Syntax { line, message } => {
                push_str(&mut v, "line ");
                let n = fmt_u64(*line as u64);
                push_str(&mut v, n.as_str());
                push_str(&mut v, ": ");
                push_str(&mut v, message.as_str());
            },
            ParseError::UnknownRule { name } => {
                push_str(&mut v, "unknown rule '");
                push_str(&mut v, name.as_str());
                push_str(&mut v, "'");
            },
            ParseError::DuplicateRule { name } => {
                push_str(&mut v, "duplicate rule '");
                push_str(&mut v, name.as_str());
                push_str(&mut v, "'");
            },
            ParseError::MissingVariable { var, rule } => {
                push_str(&mut v, "missing required variable '");
                push_str(&mut v, var.as_str());
                push_str(&mut v, "' in rule '");
                push_str(&mut v, rule.as_str());
                push_str(&mut v, "'");
            },
            ParseError::CircularInclude { path } => {
                push_str(&mut v, "circular include detected: ");
                push_str(&mut v, path.as_str());
            },
            ParseError::FileNeeded { path, line } => {
                push_str(&mut v, "line ");
                let n = fmt_u64(*line as u64);
                push_str(&mut v, n.as_str());
                push_str(&mut v, ": file needed: ");
                push_str(&mut v, path.as_str());
            },
        }
        string_of(&v)
    }
}

/// An error of graph construction.
#[derive(Debug)]
pub enum GraphError {
    /// A target that nothing builds and that is not a source.
    UnknownTarget { target: String },
    /// The build edges form a cycle through `target`.
    Cycle { target: String },
    /// Two build statements generate the same output.
    DuplicateOutput { output: String },
}

/// The mathematical value of a `GraphError`.
pub enum GraphErrorView {
    UnknownTarget { target: Seq<char> },
    Cycle { target: Seq<char> },
    DuplicateOutput { output: Seq<char> },
}

impl View for GraphError {
    type V = GraphErrorView;

    open spec fn view(&self) -> GraphErrorView {
        match self {
            GraphError::UnknownTarget { target } => GraphErrorView::UnknownTarget {
                target: target@,
            },
            GraphError::Cycle { target } => GraphErrorView::Cycle { target: target@ },
            GraphError::DuplicateOutput { output } => GraphErrorView::DuplicateOutput {
                output: output@,
            },
        }
    }
}

/// The text that a `GraphError` displays.
pub open spec fn graph_error_text(e: GraphErrorView) -> Seq<char> {
    match e {
        GraphErrorView::UnknownTarget { target } => "unknown target '"@ + target + "'"@,
        GraphErrorView::Cycle { target } => "dependency cycle detected involving '"@ + target
            + "'"@,
        GraphErrorView::DuplicateOutput { output } => "multiple rules generate '"@ + output
            + "'"@,
    }
}

impl GraphError {
    /// The message this error displays.
    pub fn message(&self) -> (s: String)
        ensures
            s@ == graph_error_text(self@),
    {
        let mut v: Vec<char> = Vec::new();
        match self {
            GraphError::UnknownTarget { target } => {
                push_str(&mut v, "unknown target '");
                push_str(&mut v, target.as_str());
                push_str(&mut v, "'");
            },
            GraphError::Cycle { target } => {
                push_str(&mut v, "dependency cycle detected involving '");
                push_str(&mut v, target.as_str());
                push_str(&mut v, "'");
            },
            GraphError::DuplicateOutput { output } => {
                push_str(&mut v, "multiple rules generate '");
                push_str(&mut v, output.as_str());
                push_str(&mut v, "'");
            },
        }
        string_of(&v)
    }
}

#[verifier::external_type_specification]
#[verifier::external_body]
pub struct ExIoError(std::io::Error);

/// An error of build execution.
#[derive(Debug)]
pub enum ExecError {
    /// A command exited with a non-zero code.
    CommandFailed { command: String, code: i32 },
    /// A subcommand failed.
    SubcommandFailed,
    /// A command could not be started.
    SpawnError(std::io::Error),
    /// The build stopped after this many targets failed.
    BuildFailed(usize),
}

/// The text of an I/O error (`Display` of `std::io::Error`).
#[verifier::external_body]
fn io_error_text(e: &std::io::Error) -> String {
    e.to_string()
}

impl ExecError {
    /// The message this error displays.  For `CommandFailed`,
    /// `SubcommandFailed` and `BuildFailed` the text is stated; that of a
    /// `SpawnError` ends in the I/O error's own text.
    pub fn message(&self) -> (s: String)
        ensures
            match self {
                ExecError::CommandFailed { command, code } => s@ == "command failed with exit code "@
                    + signed_decimal(*code as int) + ": "@ + command@,
                ExecError::SubcommandFailed => s@ == "subcommand failed"@,
                ExecError::BuildFailed(n) => s@ == "build stopped: "@ + decimal(*n as nat)
                    + " targets failed"@,
                ExecError::SpawnError(_) => "failed to spawn command: "@.is_prefix_of(s@),
            },
    {
        let mut v: Vec<char> = Vec::new();
        match self {
            ExecError::CommandFailed { command, code } => {
                push_str(&mut v, "command failed with exit code ");
                let n = fmt_i64(*code as i64);
                push_str(&mut v, n.as_str());
                push_str(&mut v, ": ");
                push_str(&mut v, command.as_str());
            },
            ExecError::SubcommandFailed => {
                push_str(&mut v, "subcommand failed");
            },
            ExecError::SpawnError(e) => {
                push_str(&mut v, "failed to spawn command: ");
                let t = io_error_text(e);
                push_str(&mut v, t.as_str());
            },
            ExecError::BuildFailed(n) => {
                push_str(&mut v, "build stopped: ");
                let t = fmt_u64(*n as u64);
                push_str(&mut v, t.as_str());
                push_str(&mut v, " targets failed");
            },
        }
        string_of(&v)
    }
}

} // verus!
