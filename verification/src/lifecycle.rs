//! The bookkeeping of supervised services: which process runs for which
//! service, which operation is in flight, how many abnormal exits were seen,
//! which stops the daemon itself asked for, and which restarts are waiting.
//!
//! Spawning, killing and waiting are done by the caller; each method here
//! takes the outcome of that work and answers with the next decision.

use vstd::prelude::*;
use crate::name_map::NameMap;
use crate::number::{i64_to_decimal, signed_decimal_seq};
use crate::number::{parse_u32, parse_int_seq};
use crate::text::{concat3, owned, split, split_seq, trim, trim_seq};

verus! {

/// An operation in flight on a service.
#[derive(Clone, Copy, Debug, PartialEq, Eq, Structural)]
pub enum Operation {
    Starting,
    Stopping,
    Restarting,
    ForceStopping,
}

/// The name under which an operation is reported.
pub open spec fn operation_label(op: Operation) -> Seq<char> {
    match op {
        Operation::Starting => "starting"@,
        Operation::Stopping => "stopping"@,
        Operation::Restarting => "restarting"@,
        Operation::ForceStopping => "force-stopping"@,
    }
}

impl Operation {
    /// The name under which this operation is reported.
    pub fn label(&self) -> (r: String)
        ensures
            r@ == operation_label(*self),
    {
        match self {
            Operation::Starting => owned("starting"),
            Operation::Stopping => owned("stopping"),
            Operation::Restarting => owned("restarting"),
            Operation::ForceStopping => owned("force-stopping"),
        }
    }
}

/// The outcome of a start, stop, restart or force-stop.
#[derive(Debug)]
pub struct ServiceResult {
    pub success: bool,
    pub message: String,
}

impl ServiceResult {
    /// A successful outcome with the given message.
    pub fn ok(message: String) -> (r: Self)
        ensures
            r.success,
            r.message == message,
    {
        ServiceResult { success: true, message }
    }

    /// A failed outcome with the given message.
    pub fn fail(message: String) -> (r: Self)
        ensures
            !r.success,
            r.message == message,
    {
        ServiceResult { success: false, message }
    }
}

/// What is reported of one service.
#[derive(Debug)]
pub struct ServiceStatus {
    pub running: bool,
    pub operation: Option<String>,
    pub duration: Option<u64>,
    pub abnormal_exit_count: u32,
}

/// The note written to a service's log when the daemon stops it.
pub open spec fn stop_note() -> Seq<char> {
    "Process stopped by daemon\n"@
}

/// The note written to a service's log when the daemon stops it.
pub fn stop_note_text() -> (r: String)
    ensures
        r@ == stop_note(),
{
    owned("Process stopped by daemon\n")
}

/// The refusal of a start of a service that runs.
pub open spec fn already_running_message(name: Seq<char>) -> Seq<char> {
    "Service "@ + name + " is already running"@
}

/// The failure of a start whose process could not be spawned.
pub open spec fn start_error_message(name: Seq<char>, error: Seq<char>) -> Seq<char> {
    "Failed to start "@ + name + ": "@ + error
}

/// The outcome of a successful start.
pub open spec fn started_message(name: Seq<char>) -> Seq<char> {
    "Service "@ + name + " started"@
}

/// The failure of a stop of a service that does not run.
pub open spec fn not_running_message(name: Seq<char>) -> Seq<char> {
    "Service "@ + name + " is not running"@
}

/// The outcome of a stop or force-stop.
pub open spec fn stopped_message(name: Seq<char>, force: bool) -> Seq<char> {
    if force {
        "Service "@ + name + " force stopped"@
    } else {
        "Service "@ + name + " stopped"@
    }
}

/// An exit code or signal number in a log line: the number, or `null`.
pub open spec fn optional_number(v: Option<i32>) -> Seq<char> {
    match v {
        Some(n) => signed_decimal_seq(n as int),
        None => "null"@,
    }
}

/// The line written to a service's log when its process exits.
pub open spec fn exit_line(code: Option<i32>, signal: Option<i32>) -> Seq<char> {
    "Process exited with code "@ + optional_number(code) + ", signal "@ + optional_number(signal)
        + "\n"@
}

/// An exit is abnormal unless the code is zero or the process was ended
/// by SIGTERM (15) or SIGKILL (9).
pub open spec fn is_abnormal_exit(code: Option<i32>, signal: Option<i32>) -> bool {
    code != Some(0i32) && signal != Some(15i32) && signal != Some(9i32)
}

/// Whether an exit is abnormal.
pub fn abnormal_exit(code: Option<i32>, signal: Option<i32>) -> (r: bool)
    ensures
        r == is_abnormal_exit(code, signal),
{
    let zero = match code {
        Some(c) => c == 0,
        None => false,
    };
    let killed = match signal {
        Some(s) => s == 15 || s == 9,
        None => false,
    };
    !zero && !killed
}

/// An exit code or signal number as written in a log line.
fn optional_number_text(v: Option<i32>) -> (r: String)
    ensures
        r@ == optional_number(v),
{
    match v {
        Some(n) => i64_to_decimal(n as i64),
        None => owned("null"),
    }
}

/// The line written to a service's log when its process exits.
pub fn exit_line_text(code: Option<i32>, signal: Option<i32>) -> (r: String)
    ensures
        r@ == exit_line(code, signal),
{
    let c = optional_number_text(code);
    let s = optional_number_text(signal);
    let mut r = concat3("Process exited with code ", c.as_str(), ", signal ");
    r.append(s.as_str());
    r.append("\n");
    r
}

/// The program and arguments that run `command` through the system shell:
/// `cmd /C` on Windows, `sh -c` elsewhere.
pub fn shell_command(windows: bool, command: &str) -> (r: (&'static str, Vec<String>))
    ensures
        r.1@.len() == 2,
        r.1@[1]@ == command@,
        windows ==> r.0@ == "cmd"@ && r.1@[0]@ == "/C"@,
        !windows ==> r.0@ == "sh"@ && r.1@[0]@ == "-c"@,
{
    let mut args: Vec<String> = Vec::new();
    if windows {
        args.push(owned("/C"));
        args.push(owned(command));
        ("cmd", args)
    } else {
        args.push(owned("-c"));
        args.push(owned(command));
        ("sh", args)
    }
}

/// The process ids listed one per line, each possibly surrounded by
/// whitespace; lines that hold no such number are passed over.
pub open spec fn listed_pids(lines: Seq<Seq<char>>) -> Seq<u32>
    decreases lines.len(),
{
    if lines.len() == 0 {
        Seq::<u32>::empty()
    } else {
        let rest = listed_pids(lines.drop_last());
        match parse_int_seq(trim_seq(lines.last()), false, 0, u32::MAX as int) {
            Some(v) => rest.push(v as u32),
            None => rest,
        }
    }
}

/// The process ids in the output of `ps -o pid= --ppid <pid>`.
pub fn child_pids(output: &str) -> (r: Vec<u32>)
    ensures
        r@ == listed_pids(split_seq(output@, '\n')),
{
    let lines = split(output, '\n');
    let ghost parts = split_seq(output@, '\n');
    let mut r: Vec<u32> = Vec::new();
    let mut i: usize = 0;
    while i < lines.len()
        invariant
            lines@.len() == parts.len(),
            forall|k: int| 0 <= k < lines@.len() ==> #[trigger] lines@[k]@ == parts[k],
            i <= lines@.len(),
            r@ == listed_pids(parts.take(i as int)),
        decreases lines@.len() - i,
    {
        assert(parts.take(i + 1).drop_last() =~= parts.take(i as int));
        assert(parts.take(i + 1).last() == lines@[i as int]@);
        let t = trim(lines[i].as_str());
        match parse_u32(t.as_str()) {
            Some(v) => r.push(v),
            None => {},
        }
        i = i + 1;
    }
    assert(parts.take(parts.len() as int) =~= parts);
    r
}

/// The bookkeeping of all services, as maps and sets keyed by name.
pub struct TableView {
    /// The process id of the running process of each running service.
    pub processes: Map<Seq<char>, u32>,
    /// The services whose log is open.
    pub loggers: Set<Seq<char>>,
    /// Abnormal exits counted since the last start that was not a retry.
    pub retry_counts: Map<Seq<char>, u32>,
    /// When each running service was started, in nanoseconds of a monotonic clock.
    pub start_times: Map<Seq<char>, u64>,
    /// The operation in flight on each service.
    pub pending_ops: Map<Seq<char>, Operation>,
    /// Services whose process the daemon itself is ending.
    pub stopping: Set<Seq<char>>,
    /// Services with a restart waiting on its delay.
    pub retry_timers: Set<Seq<char>>,
}

/// What happens when a process exits.
pub enum ExitStep {
    /// The exit was expected, or came from a process that was replaced.
    Ignored,
    /// The exit was recorded; the line goes to the log if it was open,
    /// and a delayed restart is to be scheduled when asked.
    Recorded { log_line: Option<String>, schedule_retry: bool },
}

/// What a stop asks of the caller.
pub enum StopStep {
    /// Nothing runs; the outcome is final.
    NotRunning { cancel_timer: bool, result: ServiceResult },
    /// End the process tree of `pid`, then finish the stop.
    Kill { cancel_timer: bool, pid: u32, logger_open: bool },
}

/// What a restart asks of the caller before the new start.
pub struct RestartStep {
    pub cancel_timer: bool,
    /// The running process to end first, and whether its log was open.
    pub running: Option<(u32, bool)>,
}

impl TableView {
    /// Nothing known of any service.
    pub open spec fn empty() -> TableView {
        TableView {
            processes: Map::empty(),
            loggers: Set::empty(),
            retry_counts: Map::empty(),
            start_times: Map::empty(),
            pending_ops: Map::empty(),
            stopping: Set::empty(),
            retry_timers: Set::empty(),
        }
    }

    /// Whether a process runs for `n`.
    pub open spec fn is_running(self, n: Seq<char>) -> bool {
        self.processes.contains_key(n)
    }

    /// The abnormal exits counted for `n`.
    pub open spec fn retry_count(self, n: Seq<char>) -> u32 {
        if self.retry_counts.contains_key(n) {
            self.retry_counts[n]
        } else {
            0
        }
    }

    /// A start that may go ahead: the operation is marked and the log opened.
    pub open spec fn after_prepare_start(self, n: Seq<char>) -> TableView {
        TableView {
            pending_ops: self.pending_ops.insert(n, Operation::Starting),
            loggers: self.loggers.insert(n),
            ..self
        }
    }

    /// The process could not be spawned.
    pub open spec fn after_start_failed(self, n: Seq<char>) -> TableView {
        TableView { loggers: self.loggers.remove(n), pending_ops: self.pending_ops.remove(n), ..self }
    }

    /// The process was spawned with `pid` at time `now`.
    pub open spec fn after_start_succeeded(self, n: Seq<char>, pid: u32, now: u64, is_retry: bool) -> TableView {
        TableView {
            processes: self.processes.insert(n, pid),
            retry_counts: if is_retry {
                self.retry_counts
            } else {
                self.retry_counts.insert(n, 0)
            },
            start_times: self.start_times.insert(n, now),
            pending_ops: self.pending_ops.remove(n),
            ..self
        }
    }

    /// The first half of a stop: flag it, cancel a waiting restart and, when
    /// something runs, mark the operation and close the log.
    pub open spec fn after_begin_stop(self, n: Seq<char>, force: bool) -> TableView {
        if self.is_running(n) {
            TableView {
                stopping: self.stopping.insert(n),
                retry_timers: self.retry_timers.remove(n),
                pending_ops: self.pending_ops.insert(
                    n,
                    if force {
                        Operation::ForceStopping
                    } else {
                        Operation::Stopping
                    },
                ),
                loggers: self.loggers.remove(n),
                ..self
            }
        } else {
            TableView {
                stopping: self.stopping.remove(n),
                retry_timers: self.retry_timers.remove(n),
                ..self
            }
        }
    }

    /// The second half of a stop, once the process tree was ended.
    pub open spec fn after_finish_stop(self, n: Seq<char>) -> TableView {
        TableView {
            processes: self.processes.remove(n),
            start_times: self.start_times.remove(n),
            pending_ops: self.pending_ops.remove(n),
            ..self
        }
    }

    /// The first part of a restart.
    pub open spec fn after_begin_restart(self, n: Seq<char>) -> TableView {
        TableView {
            pending_ops: self.pending_ops.insert(n, Operation::Restarting),
            stopping: self.stopping.insert(n),
            retry_timers: self.retry_timers.remove(n),
            loggers: if self.is_running(n) {
                self.loggers.remove(n)
            } else {
                self.loggers
            },
            ..self
        }
    }

    /// The process of a restarting service was ended.
    pub open spec fn after_restart_killed(self, n: Seq<char>) -> TableView {
        TableView {
            processes: self.processes.remove(n),
            start_times: self.start_times.remove(n),
            ..self
        }
    }

    /// The restart is over.
    pub open spec fn after_end_restart(self, n: Seq<char>) -> TableView {
        TableView { stopping: self.stopping.remove(n), ..self }
    }

    /// Whether the exit of `pid` is taken into account at all.
    pub open spec fn exit_counts(self, n: Seq<char>, pid: u32) -> bool {
        !self.stopping.contains(n) && self.processes.contains_key(n) && self.processes[n] == pid
    }

    /// Whether an exit adds to the count of abnormal exits.
    pub open spec fn exit_is_abnormal(self, n: Seq<char>, pid: u32, code: Option<i32>, signal: Option<i32>) -> bool {
        self.exit_counts(n, pid) && is_abnormal_exit(code, signal)
    }

    /// Whether an exit schedules a delayed restart: an abnormal exit of a
    /// service that restarts on abnormal exit, while fewer than
    /// `max_retries` abnormal exits were counted before it.
    pub open spec fn exit_schedules_retry(
        self,
        n: Seq<char>,
        pid: u32,
        code: Option<i32>,
        signal: Option<i32>,
        retry_on_abnormal_exit: bool,
        max_retries: u32,
    ) -> bool {
        self.exit_is_abnormal(n, pid, code, signal) && retry_on_abnormal_exit && self.retry_count(n)
            < max_retries
    }

    /// The bookkeeping after the process `pid` of `n` exited.
    pub open spec fn after_exit(
        self,
        n: Seq<char>,
        pid: u32,
        code: Option<i32>,
        signal: Option<i32>,
        retry_on_abnormal_exit: bool,
        max_retries: u32,
    ) -> TableView {
        if self.stopping.contains(n) {
            TableView { stopping: self.stopping.remove(n), ..self }
        } else if !self.exit_counts(n, pid) {
            self
        } else {
            let base = TableView {
                processes: self.processes.remove(n),
                start_times: self.start_times.remove(n),
                loggers: self.loggers.remove(n),
                ..self
            };
            if self.exit_is_abnormal(n, pid, code, signal) {
                let counted = TableView {
                    retry_counts: base.retry_counts.insert(n, self.retry_count(n).saturating_add(1)),
                    ..base
                };
                if self.exit_schedules_retry(n, pid, code, signal, retry_on_abnormal_exit, max_retries) {
                    TableView { retry_timers: counted.retry_timers.insert(n), ..counted }
                } else {
                    counted
                }
            } else {
                base
            }
        }
    }

    /// The bookkeeping once the delay of a restart is over.
    pub open spec fn after_retry_timer(self, n: Seq<char>) -> TableView {
        TableView {
            retry_timers: self.retry_timers.remove(n),
            stopping: self.stopping.remove(n),
            ..self
        }
    }

    /// The uptime in whole seconds reported for `n` at time `now`.
    pub open spec fn duration(self, n: Seq<char>, now: u64) -> Option<u64> {
        if self.is_running(n) && self.start_times.contains_key(n) {
            Some(
                (if now >= self.start_times[n] {
                    (now - self.start_times[n]) as u64
                } else {
                    0u64
                }) / 1_000_000_000,
            )
        } else {
            None
        }
    }
}

/// The bookkeeping of all supervised services.
pub struct ServiceTable {
    processes: NameMap<u32>,
    loggers: NameMap<()>,
    retry_counts: NameMap<u32>,
    start_times: NameMap<u64>,
    pending_ops: NameMap<Operation>,
    stopping: NameMap<()>,
    retry_timers: NameMap<()>,
}

impl View for ServiceTable {
    type V = TableView;

    closed spec fn view(&self) -> TableView {
        TableView {
            processes: self.processes.view(),
            loggers: self.loggers.view().dom(),
            retry_counts: self.retry_counts.view(),
            start_times: self.start_times.view(),
            pending_ops: self.pending_ops.view(),
            stopping: self.stopping.view().dom(),
            retry_timers: self.retry_timers.view().dom(),
        }
    }
}

impl ServiceTable {
    /// Nothing known of any service.
    pub fn new() -> (t: Self)
        ensures
            t@ == TableView::empty(),
    {
        let t = ServiceTable {
            processes: NameMap::new(),
            loggers: NameMap::new(),
            retry_counts: NameMap::new(),
            start_times: NameMap::new(),
            pending_ops: NameMap::new(),
            stopping: NameMap::new(),
            retry_timers: NameMap::new(),
        };
        assert(t@.loggers =~= Set::empty());
        assert(t@.stopping =~= Set::empty());
        assert(t@.retry_timers =~= Set::empty());
        t
    }

    /// Whether a process runs for `name`.
    pub fn is_running(&self, name: &str) -> (r: bool)
        ensures
            r == self@.is_running(name@),
    {
        self.processes.contains_key(name)
    }

    /// The abnormal exits counted for `name`.
    pub fn retry_count(&self, name: &str) -> (r: u32)
        ensures
            r == self@.retry_count(name@),
    {
        match self.retry_counts.get(name) {
            Some(c) => *c,
            None => 0,
        }
    }

    /// The names of the running services, each once.
    pub fn running_names(&self) -> (r: Vec<String>)
        ensures
            forall|i: int| 0 <= i < r@.len() ==> self@.processes.contains_key(#[trigger] r@[i]@),
            forall|k: Seq<char>| self@.processes.contains_key(k) ==> exists|i: int| 0 <= i < r@.len() && #[trigger] r@[i]@ == k,
            forall|i: int, j: int| 0 <= i < r@.len() && 0 <= j < r@.len() && i != j ==> #[trigger] r@[i]@ != #[trigger] r@[j]@,
    {
        self.processes.keys()
    }

    /// The first step of a start. A service that runs is refused and nothing
    /// changes; otherwise the operation is marked and the log opened, and the
    /// caller spawns the process.
    pub fn prepare_start(&mut self, name: &str) -> (r: Option<ServiceResult>)
        ensures
            old(self)@.is_running(name@) ==> {
                &&& final(self)@ == old(self)@
                &&& r matches Some(res) && !res.success && res.message@ == already_running_message(name@)
            },
            !old(self)@.is_running(name@) ==> {
                &&& final(self)@ == old(self)@.after_prepare_start(name@)
                &&& r is None
            },
    {
        if self.processes.contains_key(name) {
            return Some(ServiceResult::fail(concat3("Service ", name, " is already running")));
        }
        self.pending_ops.insert(owned(name), Operation::Starting);
        self.loggers.insert(owned(name), ());
        assert(self@.loggers =~= old(self)@.loggers.insert(name@));
        assert(self@ == old(self)@.after_prepare_start(name@));
        None
    }

    /// The process of `name` could not be spawned, for the reason `error`.
    pub fn start_failed(&mut self, name: &str, error: &str) -> (r: ServiceResult)
        ensures
            final(self)@ == old(self)@.after_start_failed(name@),
            !r.success,
            r.message@ == start_error_message(name@, error@),
    {
        self.loggers.remove(name);
        self.pending_ops.remove(name);
        assert(self@.loggers =~= old(self)@.loggers.remove(name@));
        assert(self@ == old(self)@.after_start_failed(name@));
        let mut m = concat3("Failed to start ", name, ": ");
        m.append(error);
        ServiceResult::fail(m)
    }

    /// The process of `name` was spawned as `pid` at time `now`; a start that
    /// is not a retry begins a new count of abnormal exits.
    pub fn start_succeeded(&mut self, name: &str, pid: u32, now: u64, is_retry: bool) -> (r: ServiceResult)
        ensures
            final(self)@ == old(self)@.after_start_succeeded(name@, pid, now, is_retry),
            r.success,
            r.message@ == started_message(name@),
    {
        self.processes.insert(owned(name), pid);
        if !is_retry {
            self.retry_counts.insert(owned(name), 0);
        }
        self.start_times.insert(owned(name), now);
        self.pending_ops.remove(name);
        assert(self@ == old(self)@.after_start_succeeded(name@, pid, now, is_retry));
        ServiceResult::ok(concat3("Service ", name, " started"))
    }

    /// The first step of a stop (`force` for a force-stop).
    pub fn begin_stop(&mut self, name: &str, force: bool) -> (r: StopStep)
        ensures
            final(self)@ == old(self)@.after_begin_stop(name@, force),
            match r {
                StopStep::NotRunning { cancel_timer, result } => {
                    &&& !old(self)@.is_running(name@)
                    &&& cancel_timer == old(self)@.retry_timers.contains(name@)
                    &&& !result.success
                    &&& result.message@ == not_running_message(name@)
                },
                StopStep::Kill { cancel_timer, pid, logger_open } => {
                    &&& old(self)@.is_running(name@)
                    &&& pid == old(self)@.processes[name@]
                    &&& cancel_timer == old(self)@.retry_timers.contains(name@)
                    &&& logger_open == old(self)@.loggers.contains(name@)
                },
            },
    {
        self.stopping.insert(owned(name), ());
        let cancel_timer = self.retry_timers.remove(name).is_some();
        let pid = match self.processes.get(name) {
            Some(p) => *p,
            None => {
                self.stopping.remove(name);
                assert(self@.stopping =~= old(self)@.stopping.remove(name@));
                assert(self@.retry_timers =~= old(self)@.retry_timers.remove(name@));
                assert(self@ == old(self)@.after_begin_stop(name@, force));
                return StopStep::NotRunning {
                    cancel_timer,
                    result: ServiceResult::fail(concat3("Service ", name, " is not running")),
                };
            },
        };
        let op = if force {
            Operation::ForceStopping
        } else {
            Operation::Stopping
        };
        self.pending_ops.insert(owned(name), op);
        let logger_open = self.loggers.remove(name).is_some();
        assert(self@.stopping =~= old(self)@.stopping.insert(name@));
        assert(self@.retry_timers =~= old(self)@.retry_timers.remove(name@));
        assert(self@.loggers =~= old(self)@.loggers.remove(name@));
        assert(self@ == old(self)@.after_begin_stop(name@, force));
        StopStep::Kill { cancel_timer, pid, logger_open }
    }

    /// The last step of a stop, once the process tree was ended.
    pub fn finish_stop(&mut self, name: &str, force: bool) -> (r: ServiceResult)
        ensures
            final(self)@ == old(self)@.after_finish_stop(name@),
            r.success,
            r.message@ == stopped_message(name@, force),
    {
        self.processes.remove(name);
        self.start_times.remove(name);
        self.pending_ops.remove(name);
        assert(self@ == old(self)@.after_finish_stop(name@));
        if force {
            ServiceResult::ok(concat3("Service ", name, " force stopped"))
        } else {
            ServiceResult::ok(concat3("Service ", name, " stopped"))
        }
    }

    /// The first step of a restart: the operation is marked, the stop is
    /// flagged, a waiting restart is cancelled and, when a process runs, its
    /// log is closed and the caller ends it.
    pub fn begin_restart(&mut self, name: &str) -> (r: RestartStep)
        ensures
            final(self)@ == old(self)@.after_begin_restart(name@),
            r.cancel_timer == old(self)@.retry_timers.contains(name@),
            match r.running {
                Some((pid, logger_open)) => {
                    &&& old(self)@.is_running(name@)
                    &&& pid == old(self)@.processes[name@]
                    &&& logger_open == old(self)@.loggers.contains(name@)
                },
                None => !old(self)@.is_running(name@),
            },
    {
        self.pending_ops.insert(owned(name), Operation::Restarting);
        self.stopping.insert(owned(name), ());
        let cancel_timer = self.retry_timers.remove(name).is_some();
        let running = match self.processes.get(name) {
            Some(p) => {
                let pid = *p;
                let logger_open = self.loggers.remove(name).is_some();
                Some((pid, logger_open))
            },
            None => None,
        };
        assert(self@.stopping =~= old(self)@.stopping.insert(name@));
        assert(self@.retry_timers =~= old(self)@.retry_timers.remove(name@));
        assert(self@.loggers =~= (if old(self)@.is_running(name@) {
            old(self)@.loggers.remove(name@)
        } else {
            old(self)@.loggers
        }));
        assert(self@ == old(self)@.after_begin_restart(name@));
        RestartStep { cancel_timer, running }
    }

    /// The process of a restarting service was ended.
    pub fn restart_killed(&mut self, name: &str)
        ensures
            final(self)@ == old(self)@.after_restart_killed(name@),
    {
        self.processes.remove(name);
        self.start_times.remove(name);
        assert(self@ == old(self)@.after_restart_killed(name@));
    }

    /// The restart is over: its stop flag is cleared.
    pub fn end_restart(&mut self, name: &str)
        ensures
            final(self)@ == old(self)@.after_end_restart(name@),
    {
        self.stopping.remove(name);
        assert(self@.stopping =~= old(self)@.stopping.remove(name@));
        assert(self@ == old(self)@.after_end_restart(name@));
    }

    /// The process `pid` of `name` exited with `code` or by `signal`. An exit
    /// that the daemon asked for, or of a process that was replaced, is
    /// ignored. Otherwise the service no longer runs, and an abnormal exit is
    /// counted, whether or not the service restarts on abnormal exit (the
    /// count stops at `u32::MAX`); a restart is scheduled when the service
    /// restarts on abnormal exit and fewer than `max_retries` abnormal exits
    /// were counted before this one.
    pub fn process_exited(
        &mut self,
        name: &str,
        pid: u32,
        code: Option<i32>,
        signal: Option<i32>,
        retry_on_abnormal_exit: bool,
        max_retries: u32,
    ) -> (r: ExitStep)
        ensures
            final(self)@ == old(self)@.after_exit(name@, pid, code, signal, retry_on_abnormal_exit, max_retries),
            match r {
                ExitStep::Ignored => !old(self)@.exit_counts(name@, pid),
                ExitStep::Recorded { log_line, schedule_retry } => {
                    &&& old(self)@.exit_counts(name@, pid)
                    &&& schedule_retry == old(self)@.exit_schedules_retry(
                        name@,
                        pid,
                        code,
                        signal,
                        retry_on_abnormal_exit,
                        max_retries,
                    )
                    &&& match log_line {
                        Some(l) => old(self)@.loggers.contains(name@) && l@ == exit_line(code, signal),
                        None => !old(self)@.loggers.contains(name@),
                    }
                },
            },
    {
        if self.stopping.remove(name).is_some() {
            assert(self@.stopping =~= old(self)@.stopping.remove(name@));
            assert(self@ == old(self)@.after_exit(name@, pid, code, signal, retry_on_abnormal_exit, max_retries));
            return ExitStep::Ignored;
        }
        let current = match self.processes.get(name) {
            Some(p) => *p == pid,
            None => false,
        };
        assert(self@.stopping =~= old(self)@.stopping);
        if !current {
            assert(self@ == old(self)@);
            return ExitStep::Ignored;
        }
        self.processes.remove(name);
        self.start_times.remove(name);
        let line = exit_line_text(code, signal);
        let logger_open = self.loggers.remove(name).is_some();
        let log_line = if logger_open {
            Some(line)
        } else {
            None
        };
        assert(self@.loggers =~= old(self)@.loggers.remove(name@));
        let mut schedule_retry = false;
        if abnormal_exit(code, signal) {
            let before = self.retry_count(name);
            self.retry_counts.insert(owned(name), before.saturating_add(1));
            if retry_on_abnormal_exit && before < max_retries {
                self.retry_timers.insert(owned(name), ());
                assert(self@.retry_timers =~= old(self)@.retry_timers.insert(name@));
                schedule_retry = true;
            } else {
                assert(self@.retry_timers =~= old(self)@.retry_timers);
            }
        } else {
            assert(self@.retry_timers =~= old(self)@.retry_timers);
            assert(self@.retry_counts =~= old(self)@.retry_counts);
        }
        assert(self@ == old(self)@.after_exit(name@, pid, code, signal, retry_on_abnormal_exit, max_retries));
        ExitStep::Recorded { log_line, schedule_retry }
    }

    /// The delay of a restart is over. The answer says whether to start
    /// again: not when a stop was asked for meanwhile, whose flag is then
    /// cleared.
    pub fn retry_timer_fired(&mut self, name: &str) -> (r: bool)
        ensures
            final(self)@ == old(self)@.after_retry_timer(name@),
            r == !old(self)@.stopping.contains(name@),
    {
        self.retry_timers.remove(name);
        let stopped = self.stopping.remove(name).is_some();
        assert(self@.retry_timers =~= old(self)@.retry_timers.remove(name@));
        assert(self@.stopping =~= old(self)@.stopping.remove(name@));
        assert(self@ == old(self)@.after_retry_timer(name@));
        !stopped
    }

    /// What is reported of `name` at time `now` (nanoseconds of the clock
    /// that start times were taken from).
    pub fn status(&self, name: &str, now: u64) -> (r: ServiceStatus)
        ensures
            r.running == self@.is_running(name@),
            match r.operation {
                Some(op) => self@.pending_ops.contains_key(name@) && op@ == operation_label(
                    self@.pending_ops[name@],
                ),
                None => !self@.pending_ops.contains_key(name@),
            },
            r.duration == self@.duration(name@, now),
            r.abnormal_exit_count == self@.retry_count(name@),
    {
        let running = self.processes.contains_key(name);
        let operation = match self.pending_ops.get(name) {
            Some(op) => Some(op.label()),
            None => None,
        };
        let abnormal_exit_count = self.retry_count(name);
        let duration = if running {
            match self.start_times.get(name) {
                Some(t) => {
                    let elapsed = if now >= *t {
                        now - *t
                    } else {
                        0
                    };
                    Some(elapsed / 1_000_000_000)
                },
                None => None,
            }
        } else {
            None
        };
        ServiceStatus { running, operation, duration, abnormal_exit_count }
    }
}

/// A stop of a running service, once finished, leaves it not running, with
/// no operation in flight, no uptime and no waiting restart; when its old
/// process then reports its exit, whatever the code or signal, no restart is
/// scheduled and the count of abnormal exits stays as it was.
pub proof fn law_stop_prevents_restart(
    v: TableView,
    n: Seq<char>,
    force: bool,
    now: u64,
    code: Option<i32>,
    signal: Option<i32>,
    retry_on_abnormal_exit: bool,
    max_retries: u32,
)
    requires
        v.is_running(n),
    ensures
        ({
            let pid = v.processes[n];
            let w = v.after_begin_stop(n, force).after_finish_stop(n);
            let x = w.after_exit(n, pid, code, signal, retry_on_abnormal_exit, max_retries);
            &&& !w.is_running(n)
            &&& !w.pending_ops.contains_key(n)
            &&& w.duration(n, now) is None
            &&& !w.retry_timers.contains(n)
            &&& !w.exit_schedules_retry(n, pid, code, signal, retry_on_abnormal_exit, max_retries)
            &&& !x.retry_timers.contains(n)
            &&& x.retry_count(n) == v.retry_count(n)
            &&& !x.stopping.contains(n)
        }),
{
}

/// A stop of a service that does not run changes nothing but cancelling a
/// waiting restart, and leaves no stop flag behind.
pub proof fn law_stop_when_idle(v: TableView, n: Seq<char>, force: bool)
    requires
        !v.is_running(n),
    ensures
        ({
            let w = v.after_begin_stop(n, force);
            &&& w.processes == v.processes
            &&& w.pending_ops == v.pending_ops
            &&& w.retry_counts == v.retry_counts
            &&& w.loggers == v.loggers
            &&& !w.stopping.contains(n)
            &&& !w.retry_timers.contains(n)
        }),
{
}

/// An exit with code zero, or by SIGTERM or SIGKILL, never schedules a
/// restart nor counts as abnormal.
pub proof fn law_expected_exit_never_retries(
    v: TableView,
    n: Seq<char>,
    pid: u32,
    code: Option<i32>,
    signal: Option<i32>,
    retry_on_abnormal_exit: bool,
    max_retries: u32,
)
    requires
        code == Some(0i32) || signal == Some(15i32) || signal == Some(9i32),
    ensures
        ({
            let w = v.after_exit(n, pid, code, signal, retry_on_abnormal_exit, max_retries);
            &&& !v.exit_schedules_retry(n, pid, code, signal, retry_on_abnormal_exit, max_retries)
            &&& w.retry_counts == v.retry_counts
            &&& w.retry_timers == v.retry_timers
        }),
{
}

/// Every abnormal exit of the running process of a service is counted,
/// whether or not the service restarts on abnormal exit, and the service no
/// longer runs; no restart is scheduled when it does not restart on abnormal
/// exit.
pub proof fn law_abnormal_exit_counted(
    v: TableView,
    n: Seq<char>,
    code: Option<i32>,
    signal: Option<i32>,
    retry_on_abnormal_exit: bool,
    max_retries: u32,
)
    requires
        v.is_running(n),
        !v.stopping.contains(n),
        is_abnormal_exit(code, signal),
        v.retry_count(n) < u32::MAX,
    ensures
        ({
            let pid = v.processes[n];
            let w = v.after_exit(n, pid, code, signal, retry_on_abnormal_exit, max_retries);
            &&& w.retry_count(n) == v.retry_count(n) + 1
            &&& !w.is_running(n)
            &&& !retry_on_abnormal_exit ==> w.retry_timers == v.retry_timers
        }),
{
}

/// Every exit of the running process of a service other than with code 0
/// or by SIGTERM or SIGKILL (a crash such as SIGABRT or SIGSEGV, a nonzero
/// code, or no code and no signal) is abnormal: it is counted and, when
/// the service restarts on abnormal exit and fewer than `max_retries`
/// abnormal exits were counted, schedules a restart.
pub proof fn law_unexpected_exit_retries(
    v: TableView,
    n: Seq<char>,
    code: Option<i32>,
    signal: Option<i32>,
    max_retries: u32,
)
    requires
        v.is_running(n),
        !v.stopping.contains(n),
        code != Some(0i32),
        signal != Some(15i32),
        signal != Some(9i32),
        v.retry_count(n) < max_retries,
    ensures
        ({
            let pid = v.processes[n];
            let w = v.after_exit(n, pid, code, signal, true, max_retries);
            &&& is_abnormal_exit(code, signal)
            &&& v.exit_schedules_retry(n, pid, code, signal, true, max_retries)
            &&& w.retry_count(n) == v.retry_count(n) + 1
            &&& w.retry_timers.contains(n)
            &&& !w.is_running(n)
        }),
{
}

/// Whether an exit is abnormal depends on nothing but its code and signal:
/// it is abnormal exactly when it is none of an exit with code 0, an end
/// by SIGTERM (15) and an end by SIGKILL (9); so an end by any other
/// signal, such as SIGABRT (6), SIGSEGV (11) or SIGINT (2), is abnormal.
pub proof fn law_abnormal_exactly_unexpected(code: Option<i32>, signal: Option<i32>, s: i32)
    ensures
        is_abnormal_exit(code, signal) == !(code == Some(0i32) || signal == Some(15i32) || signal == Some(
            9i32,
        )),
        s != 9 && s != 15 ==> is_abnormal_exit(None, Some(s)),
        is_abnormal_exit(Some(s), None) == (s != 0),
        is_abnormal_exit(None, None),
{
}

/// A restart of a service, whether or not it ran, ends with the new process
/// running, no operation in flight, no stop flag, no waiting restart and a
/// fresh count of abnormal exits; the exit of any other process, such as
/// the one it replaced, is then ignored.
pub proof fn law_restart_replaces_process(v: TableView, n: Seq<char>, new_pid: u32, now: u64, old_pid: u32)
    ensures
        ({
            let v1 = v.after_begin_restart(n);
            let v2 = if v.is_running(n) {
                v1.after_restart_killed(n)
            } else {
                v1
            };
            let w = v2.after_prepare_start(n).after_start_succeeded(n, new_pid, now, false).after_end_restart(n);
            &&& !v2.is_running(n)
            &&& w.is_running(n)
            &&& w.processes[n] == new_pid
            &&& !w.pending_ops.contains_key(n)
            &&& !w.stopping.contains(n)
            &&& !w.retry_timers.contains(n)
            &&& w.retry_count(n) == 0
            &&& old_pid != new_pid ==> !w.exit_counts(n, old_pid)
        }),
{
}

/// Whether exactly the running services have a start time.
pub open spec fn start_times_match(v: TableView) -> bool {
    v.processes.dom() == v.start_times.dom()
}

/// Every operation keeps the start times in step with the running
/// services: a service has a start time exactly while it runs, so its
/// uptime is always reported while it runs.
pub proof fn law_start_times_follow_processes(
    v: TableView,
    n: Seq<char>,
    pid: u32,
    now: u64,
    is_retry: bool,
    force: bool,
    code: Option<i32>,
    signal: Option<i32>,
    retry_on_abnormal_exit: bool,
    max_retries: u32,
)
    requires
        start_times_match(v),
    ensures
        start_times_match(v.after_prepare_start(n)),
        start_times_match(v.after_start_failed(n)),
        start_times_match(v.after_start_succeeded(n, pid, now, is_retry)),
        start_times_match(v.after_begin_stop(n, force)),
        start_times_match(v.after_finish_stop(n)),
        start_times_match(v.after_begin_restart(n)),
        start_times_match(v.after_restart_killed(n)),
        start_times_match(v.after_end_restart(n)),
        start_times_match(v.after_exit(n, pid, code, signal, retry_on_abnormal_exit, max_retries)),
        start_times_match(v.after_retry_timer(n)),
        v.is_running(n) ==> v.duration(n, now) is Some,
{
    assert(v.after_start_succeeded(n, pid, now, is_retry).processes.dom() =~= v.after_start_succeeded(
        n,
        pid,
        now,
        is_retry,
    ).start_times.dom());
    assert(v.after_finish_stop(n).processes.dom() =~= v.after_finish_stop(n).start_times.dom());
    assert(v.after_restart_killed(n).processes.dom() =~= v.after_restart_killed(n).start_times.dom());
    let x = v.after_exit(n, pid, code, signal, retry_on_abnormal_exit, max_retries);
    assert(x.processes.dom() =~= x.start_times.dom());
    if v.is_running(n) {
        assert(v.start_times.dom().contains(n));
    }
}

/// One round of a crash loop: the process `pid` exits abnormally, the delay
/// passes and the service is started again as a retry, as `pid` once more.
pub open spec fn crash_round(v: TableView, n: Seq<char>, pid: u32, now: u64, max_retries: u32) -> TableView {
    v.after_exit(n, pid, Some(1i32), None, true, max_retries).after_retry_timer(n).after_prepare_start(
        n,
    ).after_start_succeeded(n, pid, now, true)
}

/// `k` rounds of a crash loop after a start that was not a retry.
pub open spec fn crash_loop(v: TableView, n: Seq<char>, pid: u32, now: u64, max_retries: u32, k: nat) -> TableView
    decreases k,
{
    if k == 0 {
        v.after_prepare_start(n).after_start_succeeded(n, pid, now, false)
    } else {
        crash_round(crash_loop(v, n, pid, now, max_retries, (k - 1) as nat), n, pid, now, max_retries)
    }
}

/// A service that keeps exiting abnormally after a start is restarted
/// `max_retries` times: after `k` restarts, with `k` at most `max_retries`,
/// it runs with `k` abnormal exits counted, and its next abnormal exit
/// schedules a restart exactly when `k` is below `max_retries`.
pub proof fn law_retry_budget(v: TableView, n: Seq<char>, pid: u32, now: u64, max_retries: u32, k: nat)
    requires
        k <= max_retries,
        !v.is_running(n),
        !v.stopping.contains(n),
    ensures
        ({
            let s = crash_loop(v, n, pid, now, max_retries, k);
            &&& s.is_running(n)
            &&& s.processes[n] == pid
            &&& !s.stopping.contains(n)
            &&& s.retry_count(n) == k
            &&& s.exit_schedules_retry(n, pid, Some(1i32), None, true, max_retries) == (k < max_retries)
        }),
    decreases k,
{
    if k > 0 {
        law_retry_budget(v, n, pid, now, max_retries, (k - 1) as nat);
    }
}

/// The uptime of a running service is the whole seconds since its start
/// (start times in nanoseconds): `k` seconds and a fraction after the start
/// it is `k`, and it is 0 when the clock reads before the start.
pub proof fn law_uptime_whole_seconds(v: TableView, n: Seq<char>, k: u64, frac: u64, now: u64)
    requires
        v.is_running(n),
        v.start_times.contains_key(n),
        frac < 1_000_000_000,
    ensures
        v.start_times[n] + k * 1_000_000_000 + frac == now ==> v.duration(n, now) == Some(k),
        now < v.start_times[n] ==> v.duration(n, now) == Some(0u64),
{
    if v.start_times[n] + k * 1_000_000_000 + frac == now {
        assert((k * 1_000_000_000 + frac) / 1_000_000_000 == k) by (nonlinear_arith)
            requires
                frac < 1_000_000_000,
        ;
    }
}

} // verus!
