//! External tools: what to run, and what a run says.
use vstd::prelude::*;
use vstd::string::*;
use crate::error::SmbError;

verus! {

/// A tool to run, with its arguments.
#[derive(Debug, Clone, PartialEq, Eq)]
pub struct ToolCommand {
    pub tool: &'static str,
    pub args: Vec<String>,
}

/// How a tool failed: its exit code, where it has one, and what it wrote to
/// its standard error.
#[derive(Debug, Clone, PartialEq, Eq)]
pub struct ToolExit {
    pub code: Option<i32>,
    pub stderr: String,
}

/// The error of a tool that ran and failed.
pub fn tool_failed(tool: &'static str, code: Option<i32>, stderr: String) -> (e: SmbError)
    ensures
        e == (SmbError::ToolFailed { tool, code, stderr }),
{
    SmbError::ToolFailed { tool, code, stderr }
}

/// What a run of `tool` means: success, or the tool's failure.
pub fn run_tool(tool: &'static str, run: Result<(), ToolExit>) -> (r: Result<(), SmbError>)
    ensures
        r == match run {
            Ok(_) => Ok::<(), SmbError>(()),
            Err(exit) => Err(
                SmbError::ToolFailed { tool, code: exit.code, stderr: exit.stderr },
            ),
        },
{
    match run {
        Ok(_) => Ok(()),
        Err(exit) => Err(tool_failed(tool, exit.code, exit.stderr)),
    }
}

/// Appends an argument.
pub(crate) fn push_arg(args: &mut Vec<String>, arg: &str)
    ensures
        final(args).deep_view() == old(args).deep_view().push(arg@),
{
    let ghost before = args.deep_view();
    args.push(arg.to_string());
    assert(args.deep_view() =~= before.push(arg@));
}

/// No arguments.
pub(crate) fn no_args() -> (args: Vec<String>)
    ensures
        args.deep_view() == Seq::<Seq<char>>::empty(),
{
    let args: Vec<String> = Vec::new();
    assert(args.deep_view() =~= Seq::empty());
    args
}

} // verus!
