//! The transport a resource's commands run through.
//!
//! The core treats the transport as an opaque capability: something that
//! can run a command in a directory with an environment and report its
//! exit status and captured output, and that can check a connection
//! configuration.  Concrete transports (a local process spawn, a remote
//! session) live outside the core and implement [`Connection`].

use vstd::prelude::*;

use crate::diag::Diagnostics;
use crate::dict::Dict;
use crate::value::Value;

verus! {

/// What running one command produced: its exit status and captured output.
#[derive(Debug)]
pub struct ExecutionResult {
    pub status: i32,
    pub stdout: String,
    pub stderr: String,
}

/// The view of an execution result.
pub ghost struct ExecutionResultV {
    pub status: i32,
    pub stdout: Seq<char>,
    pub stderr: Seq<char>,
}

impl View for ExecutionResult {
    type V = ExecutionResultV;

    open spec fn view(&self) -> ExecutionResultV {
        ExecutionResultV { status: self.status, stdout: self.stdout@, stderr: self.stderr@ }
    }
}

/// A transport-level failure: the command could not be run at all.
#[derive(Debug)]
pub struct TransportError {
    pub message: String,
}

impl View for TransportError {
    type V = Seq<char>;

    open spec fn view(&self) -> Seq<char> {
        self.message@
    }
}

/// One command to run: the command line, its directory, and the full
/// ordered environment it runs with.
#[derive(Debug)]
pub struct CommandTask {
    pub cmd: String,
    pub dir: String,
    pub env: Vec<(String, String)>,
}

/// The view of a command task.
pub ghost struct CommandTaskV {
    pub cmd: Seq<char>,
    pub dir: Seq<char>,
    pub env: Seq<(Seq<char>, Seq<char>)>,
}

impl View for CommandTask {
    type V = CommandTaskV;

    open spec fn view(&self) -> CommandTaskV {
        CommandTaskV {
            cmd: self.cmd@,
            dir: self.dir@,
            env: self.env@.map_values(|e: (String, String)| (e.0@, e.1@)),
        }
    }
}

/// A transport that can run commands and check its own configuration.
///
/// The core never looks inside a transport: every guarantee it relies on
/// is stated here.  What a command returns is never promised — any status,
/// any output and any failure may come back, and the core is verified for
/// every outcome.  Implementations promise only the shape of a batch
/// result: one entry per task, in task order.  An implementation may run
/// the commands of one batch concurrently, up to `concurrency` at a time;
/// the core never relies on their relative order.
pub trait Connection: Sized {
    /// Run one command and wait for it.
    fn execute(&self, config: &Value<Dict<Value<String>>>, task: &CommandTask) -> (r: Result<
        ExecutionResult,
        TransportError,
    >);

    /// Run a batch of commands, at most `concurrency` in flight at once,
    /// and report one result per task, in task order.
    fn execute_all(
        &self,
        config: &Value<Dict<Value<String>>>,
        tasks: &Vec<CommandTask>,
        concurrency: u64,
    ) -> (r: Vec<Result<ExecutionResult, TransportError>>)
        ensures
            r@.len() == tasks@.len(),
    ;

    /// Check the connection configuration (a transport-specific notion:
    /// a required hostname, a well-formed port).  The returned collector
    /// holds whatever errors and warnings the check produced.
    fn validate(&self, config: &Value<Dict<Value<String>>>) -> (r: Diagnostics);
}

} // verus!
