//! How the backend is run.

use vstd::prelude::*;

use crate::rebuild::{Context, RebuildError};

verus! {

/// After how many seconds a build is stopped where nothing else is configured: a day.
pub const DEFAULT_TIMEOUT: u64 = 86400;

/// How a process is run.
#[derive(Clone, Debug, PartialEq, Eq)]
pub struct Options {
    /// After how many seconds it is stopped.
    pub timeout: u64,
    /// Whether it is stopped when it has written too much.
    pub kill_at_size_limit: bool,
    /// Whether its output is shown as well as recorded.
    pub passthrough: bool,
    /// The variables that are added to its environment, with their values.
    pub envs: Vec<(String, String)>,
}

/// A command to run, where `P` is what paths are given as.
#[derive(Clone, Debug, PartialEq, Eq)]
pub struct BackendCall<P> {
    /// The path of its executable.
    pub bin: String,
    /// Its arguments.
    pub args: Vec<P>,
    /// How it is run.
    pub options: Options,
}

/// Takes a path as a string, where `path` is what it reads as if it is valid unicode.
pub fn path_to_string(path: Option<&str>) -> (s: Result<String, RebuildError>)
    ensures
        match path {
            Some(path) => s matches Ok(s) && s@ == path@,
            None => s == Err::<String, RebuildError>(RebuildError::InvalidPath),
        },
{
    match path {
        Some(path) => Ok(path.to_owned()),
        None => Err(RebuildError::InvalidPath),
    }
}

/// How the backend is called to build from `input_path` and to put the packages
/// into `out_dir`.
///
/// Fails if the path of that directory is not valid unicode.
pub fn verify<P>(ctx: &Context, input_path: P, out_dir: Option<&str>) -> (call: Result<
    BackendCall<P>,
    RebuildError,
>)
    ensures
        match out_dir {
            Some(out_dir) => {
                &&& call matches Ok(call)
                &&& call.bin@ == ctx.backend.path@
                &&& call.args@ == seq![input_path]
                &&& call.options.timeout == match ctx.build.timeout {
                    Some(timeout) => timeout,
                    None => 86400,
                }
                &&& !call.options.kill_at_size_limit
                &&& call.options.passthrough == !ctx.build.silent
                &&& call.options.envs@.len() == 1
                &&& call.options.envs@[0].0@ == "REBUILDERD_OUTDIR"@
                &&& call.options.envs@[0].1@ == out_dir@
            },
            None => call == Err::<BackendCall<P>, RebuildError>(RebuildError::InvalidPath),
        },
{
    let timeout = ctx.build.timeout.unwrap_or(DEFAULT_TIMEOUT);
    let dir = match path_to_string(out_dir) {
        Ok(dir) => dir,
        Err(err) => {
            return Err(err);
        },
    };
    let mut envs: Vec<(String, String)> = Vec::new();
    envs.push(("REBUILDERD_OUTDIR".to_owned(), dir));
    Ok(
        BackendCall {
            bin: ctx.backend.path.clone(),
            args: vec![input_path],
            options: Options {
                timeout,
                kill_at_size_limit: false,
                passthrough: !ctx.build.silent,
                envs,
            },
        },
    )
}

} // verus!
