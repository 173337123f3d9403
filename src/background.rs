//! Bounded background commands: a command is raced against a timeout; one
//! that finishes in time is reported complete at once, one that does not is
//! registered under a fresh identifier and polled later, or killed.
use vstd::prelude::*;
use crate::registry::SessionRegistry;
use crate::session::PollOutcome;
use crate::text::{joined, new_unique_id};

verus! {

/// How long a command is waited for when the caller names no timeout.
pub const DEFAULT_TIMEOUT_MS: u64 = 5000;

/// What `String::from_utf8_lossy` makes of a byte sequence.
pub uninterp spec fn utf8_lossy(b: Seq<u8>) -> Seq<char>;

/// Every byte is below 128.
pub open spec fn is_ascii_bytes(b: Seq<u8>) -> bool {
    forall|i: int| 0 <= i < b.len() ==> b[i] < 128
}

/// Relies on `String::from_utf8_lossy`: the text depends on the bytes alone,
/// and valid UTF-8 comes back unchanged, so ASCII bytes become the characters
/// of the same codes.
#[verifier::external_body]
fn lossy_text(b: &[u8]) -> (r: String)
    ensures
        r@ == utf8_lossy(b@),
        is_ascii_bytes(b@) ==> r@ == b@.map_values(|x: u8| x as char),
{
    String::from_utf8_lossy(b).into_owned()
}

/// The outcome of one background command run or check.
pub struct CmdResult {
    /// `completed` or `running`.
    pub status: String,
    pub pid: Option<String>,
    pub stdout: String,
    pub stderr: String,
    pub exit_code: Option<i32>,
}

/// A command that outlived its wait: the handle `C` of its process while it
/// is held, and its exit status once it is known.
pub struct BackgroundProcess<C> {
    pub child: Option<C>,
    pub is_finished: bool,
    pub exit_code: Option<i32>,
}

/// The commands that outlived their wait, by identifier.
pub struct ProcessState<C> {
    pub processes: SessionRegistry<BackgroundProcess<C>>,
}

/// How a command was started: the program, its arguments, the directory it
/// runs in (the caller's own where none), how long it is waited for, and the
/// identifier it is known by.
pub struct BackgroundCmdPlan {
    pub program: String,
    pub args: Vec<String>,
    pub cwd: Option<String>,
    pub timeout_ms: u64,
    pub pid: String,
}

/// Which of the wait and the timeout came first.
pub enum RaceOutcome<C> {
    /// The process exited within the timeout, with this code (none where a
    /// signal ended it).
    Exited(Option<i32>),
    /// Waiting for the process failed, with this message.
    WaitFailed(String),
    /// The timeout came first; the process is still running.
    TimedOut(C),
}

/// `r` reports `status` for `pid`, the output read as text, and `exit_code`.
pub open spec fn cmd_result_spec(
    r: CmdResult,
    status: Seq<char>,
    pid: Seq<char>,
    stdout: Seq<u8>,
    stderr: Seq<u8>,
    exit_code: Option<i32>,
) -> bool {
    &&& r.status@ == status
    &&& r.pid matches Some(p) && p@ == pid
    &&& r.stdout@ == utf8_lossy(stdout)
    &&& r.stderr@ == utf8_lossy(stderr)
    &&& r.exit_code == exit_code
}

/// A successful report, as `cmd_result_spec` states it.
pub open spec fn ok_result(
    r: Result<CmdResult, String>,
    status: Seq<char>,
    pid: Seq<char>,
    stdout: Seq<u8>,
    stderr: Seq<u8>,
    exit_code: Option<i32>,
) -> bool {
    r matches Ok(res) && cmd_result_spec(res, status, pid, stdout, stderr, exit_code)
}

/// A failure with the message `msg`.
pub open spec fn err_result(r: Result<CmdResult, String>, msg: Seq<char>) -> bool {
    r matches Err(e) && e@ == msg
}

/// A finished command's result: its output so far, read as text, and its code.
pub fn completed_result(pid: String, stdout: &[u8], stderr: &[u8], exit_code: Option<i32>) -> (r:
    CmdResult)
    ensures
        cmd_result_spec(r, "completed"@, pid@, stdout@, stderr@, exit_code),
{
    CmdResult {
        status: "completed".to_owned(),
        pid: Some(pid),
        stdout: lossy_text(stdout),
        stderr: lossy_text(stderr),
        exit_code,
    }
}

/// A running command's result: its output so far, read as text, and no code.
pub fn running_result(pid: String, stdout: &[u8], stderr: &[u8]) -> (r: CmdResult)
    ensures
        cmd_result_spec(r, "running"@, pid@, stdout@, stderr@, None),
{
    CmdResult {
        status: "running".to_owned(),
        pid: Some(pid),
        stdout: lossy_text(stdout),
        stderr: lossy_text(stderr),
        exit_code: None,
    }
}

/// How to start `command`: through `cmd /C` on Windows and `sh -c` elsewhere,
/// in `cwd` unless it is empty, waited for `timeout_ms` or the default, and
/// under a fresh identifier.
pub fn plan_background_cmd(command: String, cwd: String, timeout_ms: Option<u64>, windows: bool) -> (r:
    BackgroundCmdPlan)
    ensures
        r.program@ == (if windows { "cmd"@ } else { "sh"@ }),
        r.args.deep_view() == seq![(if windows { "/C"@ } else { "-c"@ }), command@],
        cwd@.len() == 0 ==> r.cwd is None,
        cwd@.len() > 0 ==> r.cwd == Some(cwd),
        r.timeout_ms == (match timeout_ms {
            Some(t) => t,
            None => DEFAULT_TIMEOUT_MS,
        }),
        r.pid@.len() == 36,
{
    let timeout = match timeout_ms {
        Some(t) => t,
        None => DEFAULT_TIMEOUT_MS,
    };
    let (program, flag) = if windows {
        ("cmd".to_owned(), "/C".to_owned())
    } else {
        ("sh".to_owned(), "-c".to_owned())
    };
    let mut args: Vec<String> = Vec::new();
    args.push(flag);
    args.push(command);
    assert(args.deep_view() =~= seq![args@[0]@, args@[1]@]);
    let dir = if cwd.as_str().is_empty() { None } else { Some(cwd) };
    BackgroundCmdPlan { program, args, cwd: dir, timeout_ms: timeout, pid: new_unique_id() }
}

impl<C> ProcessState<C> {
    pub open spec fn wf(&self) -> bool {
        self.processes.wf()
    }

    pub fn new() -> (r: Self)
        ensures
            r.wf(),
            r.processes@ == Map::<Seq<char>, BackgroundProcess<C>>::empty(),
    {
        ProcessState { processes: SessionRegistry::new() }
    }

    /// Settles a run once the race between the process and the timeout is
    /// decided. A process that exited is reported complete with its code
    /// and is not registered; one that is still running is registered under
    /// `pid` and reported running with the output so far.
    pub fn settle_race(&mut self, pid: String, outcome: RaceOutcome<C>, stdout: &[u8], stderr: &[u8]) -> (r:
        Result<CmdResult, String>)
        requires
            old(self).wf(),
        ensures
            final(self).wf(),
            match outcome {
                RaceOutcome::Exited(code) => {
                    &&& final(self).processes@ == old(self).processes@
                    &&& ok_result(r, "completed"@, pid@, stdout@, stderr@, code)
                },
                RaceOutcome::WaitFailed(msg) => {
                    &&& final(self).processes@ == old(self).processes@
                    &&& err_result(r, "Process error: "@ + msg@)
                },
                RaceOutcome::TimedOut(child) => if old(self).processes@.contains_key(pid@) {
                    &&& final(self).processes@ == old(self).processes@
                    &&& err_result(r, "Process id already in use: "@ + pid@)
                } else {
                    &&& final(self).processes@ == old(self).processes@.insert(
                        pid@,
                        BackgroundProcess { child: Some(child), is_finished: false, exit_code: None },
                    )
                    &&& ok_result(r, "running"@, pid@, stdout@, stderr@, None)
                },
            },
    {
        match outcome {
            RaceOutcome::Exited(code) => Ok(completed_result(pid, stdout, stderr, code)),
            RaceOutcome::WaitFailed(msg) => Err(joined("Process error: ", msg.as_str())),
            RaceOutcome::TimedOut(child) => {
                let record = BackgroundProcess { child: Some(child), is_finished: false, exit_code: None };
                match self.processes.register(pid.clone(), record) {
                    Ok(()) => Ok(running_result(pid, stdout, stderr)),
                    Err(_) => Err(joined("Process id already in use: ", pid.as_str())),
                }
            },
        }
    }
    /// Whether the command under `pid` is registered, not known to have
    /// finished, and held: the one case in which `check_background_cmd` reads
    /// the poll that it is handed.
    pub fn awaiting_exit(&self, pid: &String) -> (r: bool)
        requires
            self.wf(),
        ensures
            r == (self.processes@.contains_key(pid@) && !self.processes@[pid@].is_finished
                && self.processes@[pid@].child is Some),
    {
        match self.processes.get(pid) {
            Some(p) => !p.is_finished && p.child.is_some(),
            None => false,
        }
    }

    /// Reports on the command under `pid`, given a poll of its process and
    /// its output so far. Unknown: `Process not found`. Known to have
    /// finished: complete with its code, the poll unread. Not held: an
    /// error. Otherwise the poll decides: an exit is recorded and reported
    /// complete; a running process is reported running; a failed poll is an
    /// error. Only a recorded exit changes the state.
    pub fn check_background_cmd(&mut self, pid: String, poll: PollOutcome, stdout: &[u8], stderr: &[u8]) -> (r:
        Result<CmdResult, String>)
        requires
            old(self).wf(),
        ensures
            final(self).wf(),
            !old(self).processes@.contains_key(pid@) ==> {
                &&& final(self).processes@ == old(self).processes@
                &&& err_result(r, "Process not found"@)
            },
            old(self).processes@.contains_key(pid@) ==> {
                let p = old(self).processes@[pid@];
                if p.is_finished {
                    &&& final(self).processes@ == old(self).processes@
                    &&& ok_result(r, "completed"@, pid@, stdout@, stderr@, p.exit_code)
                } else if p.child is None {
                    &&& final(self).processes@ == old(self).processes@
                    &&& err_result(r, "Invalid process state"@)
                } else {
                    match poll {
                        PollOutcome::Exited(code) => {
                            &&& final(self).processes@ == old(self).processes@.insert(
                                pid@,
                                BackgroundProcess { is_finished: true, exit_code: code, ..p },
                            )
                            &&& ok_result(r, "completed"@, pid@, stdout@, stderr@, code)
                        },
                        PollOutcome::Running => {
                            &&& final(self).processes@ == old(self).processes@
                            &&& ok_result(r, "running"@, pid@, stdout@, stderr@, None)
                        },
                        PollOutcome::Failed(msg) => {
                            &&& final(self).processes@ == old(self).processes@
                            &&& err_result(r, "Error checking process: "@ + msg@)
                        },
                    }
                }
            },
    {
        let p = match self.processes.get_mut(&pid) {
            Some(p) => p,
            None => {
                return Err("Process not found".to_owned());
            },
        };
        if p.is_finished {
            let code = p.exit_code;
            return Ok(completed_result(pid, stdout, stderr, code));
        }
        if p.child.is_none() {
            return Err("Invalid process state".to_owned());
        }
        match poll {
            PollOutcome::Exited(code) => {
                p.is_finished = true;
                p.exit_code = code;
                Ok(completed_result(pid, stdout, stderr, code))
            },
            PollOutcome::Running => Ok(running_result(pid, stdout, stderr)),
            PollOutcome::Failed(msg) => Err(joined("Error checking process: ", msg.as_str())),
        }
    }

    /// Forgets the command under `pid` and hands back its process, if it was
    /// held, for the caller to kill. An unknown identifier is no error: the
    /// state is left as it was and nothing is handed back.
    pub fn kill_background_cmd(&mut self, pid: &String) -> (r: Option<C>)
        requires
            old(self).wf(),
        ensures
            final(self).wf(),
            final(self).processes@ == old(self).processes@.remove(pid@),
            r == (if old(self).processes@.contains_key(pid@) {
                old(self).processes@[pid@].child
            } else {
                None
            }),
    {
        match self.processes.remove(pid) {
            Some(p) => p.child,
            None => None,
        }
    }
}

/// Killing is idempotent: on an identifier that is not registered it
/// changes nothing, and a second kill of the same identifier finds nothing
/// and changes nothing.
pub proof fn lemma_kill_idempotent<C>(processes: Map<Seq<char>, BackgroundProcess<C>>, pid: Seq<char>)
    ensures
        !processes.contains_key(pid) ==> processes.remove(pid) == processes,
        !processes.remove(pid).contains_key(pid),
        processes.remove(pid).remove(pid) == processes.remove(pid),
{
    assert(!processes.contains_key(pid) ==> processes.remove(pid) =~= processes);
    assert(processes.remove(pid).remove(pid) =~= processes.remove(pid));
}

} // verus!
