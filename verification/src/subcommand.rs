//! The dispatch decision for a CLI invocation: which tool runs a
//! subcommand, whether it runs under the watch supervisor, and which
//! exit code a failure maps to. Spawning the chosen tool is the
//! embedder's business.

use vstd::prelude::*;

verus! {

/// The subcommands the CLI accepts.
#[derive(Clone, Copy, PartialEq, Eq, Structural, Debug)]
pub enum DenoSubcommand {
    Bench,
    Bundle,
    Cache,
    Check,
    Compile,
    Completions,
    Coverage,
    Doc,
    Eval,
    Fmt,
    Info,
    Init,
    Install,
    Lint,
    Lsp,
    Repl,
    Run,
    Task,
    Test,
    Types,
    Uninstall,
    Upgrade,
    Vendor,
}

/// Whether a subcommand participates in the watch supervisor when
/// watch paths are configured: only the tools that re-run user code or
/// checks on change do.
pub open spec fn spec_supports_watch(sub: DenoSubcommand) -> bool {
    match sub {
        DenoSubcommand::Bench | DenoSubcommand::Bundle | DenoSubcommand::Fmt
            | DenoSubcommand::Lint | DenoSubcommand::Run | DenoSubcommand::Test => true,
        _ => false,
    }
}

/// The dispatch decision: run under the watch supervisor exactly when
/// the subcommand supports watching and watch paths were configured.
pub fn run_with_watch(sub: DenoSubcommand, has_watch_paths: bool) -> (r: bool)
    ensures
        r == (spec_supports_watch(sub) && has_watch_paths),
{
    let supports = match sub {
        DenoSubcommand::Bench => true,
        DenoSubcommand::Bundle => true,
        DenoSubcommand::Fmt => true,
        DenoSubcommand::Lint => true,
        DenoSubcommand::Run => true,
        DenoSubcommand::Test => true,
        _ => false,
    };
    supports && has_watch_paths
}

/// How a failed invocation is classified when it unwinds to the top.
#[derive(Clone, Copy, PartialEq, Eq, Structural, Debug)]
pub enum CliFailure {
    /// An error thrown by the executed program.
    Js,
    /// A lockfile integrity or corruption failure.
    Lockfile,
    /// Anything else.
    Other,
}

/// The process exit code for an invocation: zero on success, ten for
/// lockfile failures so that "your lockfile is wrong" is told apart
/// from general runtime errors, one otherwise.
pub fn exit_code_for(result: Result<(), CliFailure>) -> (r: i32)
    ensures
        result is Ok ==> r == 0,
        result == Err::<(), CliFailure>(CliFailure::Lockfile) ==> r == 10,
        result == Err::<(), CliFailure>(CliFailure::Js) ==> r == 1,
        result == Err::<(), CliFailure>(CliFailure::Other) ==> r == 1,
{
    match result {
        Ok(()) => 0,
        Err(CliFailure::Lockfile) => 10,
        Err(_) => 1,
    }
}

} // verus!
