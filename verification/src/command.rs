//! Classification of an external command's captured outcome, and the
//! whitespace splitting applied to an argument string before invocation.
//! Spawning the command itself is device I/O and lives outside this crate;
//! callers hand in the captured exit status and output as plain values.

use vstd::prelude::*;
use vstd::string::StringExecFns;
use crate::text::{tokens_from, trim_seq};
use crate::text::{split_tokens, trim_of};

verus! {

/// Captured outcome of one external command invocation.
#[derive(Debug)]
pub struct CommandResult {
    pub succeeded: bool,
    pub stdout: String,
    pub stderr: String,
}

/// The failure kinds of the command executor and the device query layer.
#[derive(Debug)]
pub enum UtilError {
    /// The command could not run, or ran and returned a non-zero status;
    /// carries the program, its argument string, the rendered exit status
    /// and the trimmed captured output.
    Execution { program: String, args: String, status: String, stdout: String, stderr: String },
    /// No process, package or file entry matched the wanted identifier.
    NotFound { wanted: String },
    /// No property line contained the key, or the line's bracketed pair was
    /// malformed.
    Property,
    /// The library does not occur in the process's memory mappings yet;
    /// callers treat this as "not yet loaded" and poll again.
    Injection { library: String },
}

/// The arguments a command line is split into before invocation: whitespace
/// separated, with no shell expansion or quoting.
pub fn split_args(args: &str) -> (r: Vec<String>)
    ensures
        r.deep_view() == tokens_from(args@, 0),
{
    let toks = split_tokens(args);
    let mut out: Vec<String> = Vec::new();
    let mut k: usize = 0;
    while k < toks.len()
        invariant
            k <= toks.len(),
            toks@.map_values(|t: &str| t@) == tokens_from(args@, 0),
            out.deep_view() =~= toks@.map_values(|t: &str| t@).subrange(0, k as int),
        decreases toks.len() - k,
    {
        let ghost out0 = out.deep_view();
        out.push(String::from_str(toks[k]));
        proof {
            assert(out.deep_view() =~= out0.push(toks@[k as int]@));
            assert(out.deep_view() =~= toks@.map_values(|t: &str| t@).subrange(0, k + 1));
        }
        k += 1;
    }
    proof {
        assert(toks@.map_values(|t: &str| t@).subrange(0, toks@.len() as int) =~= toks@.map_values(
            |t: &str| t@,
        ));
    }
    out
}

/// Classifies a command's captured outcome: a successful exit yields the
/// raw output, a failed one an `Execution` error carrying the program, its
/// arguments, the rendered status and the trimmed output.
pub fn cmd_result(
    program: &str,
    args: &str,
    succeeded: bool,
    status: &str,
    stdout: String,
    stderr: String,
) -> (r: Result<CommandResult, UtilError>)
    ensures
        succeeded ==> (r matches Ok(c) && c.succeeded == true && c.stdout@ == stdout@ && c.stderr@
            == stderr@),
        !succeeded ==> (r matches Err(e) && e matches UtilError::Execution {
            program: p,
            args: a,
            status: st,
            stdout: so,
            stderr: se,
        } && p@ == program@ && a@ == args@ && st@ == status@ && so@ == trim_seq(stdout@) && se@
            == trim_seq(stderr@)),
{
    if succeeded {
        Ok(CommandResult { succeeded, stdout, stderr })
    } else {
        Err(UtilError::Execution {
            program: String::from_str(program),
            args: String::from_str(args),
            status: String::from_str(status),
            stdout: String::from_str(trim_of(stdout.as_str())),
            stderr: String::from_str(trim_of(stderr.as_str())),
        })
    }
}

} // verus!
