//! The process supervisor's state: the table mapping agent identifiers to
//! their OS processes, with each process's stdin queue and buffered output
//! lines, and the command-building rules for spawning.
//!
//! All operating-system work (spawning, signalling, waiting, probing and
//! pumping the real pipes) happens outside this crate; the caller performs
//! it and feeds the outcomes in as plain values, so every decision here is
//! verified for every possible outcome.

use vstd::prelude::*;
use vstd::string::StringExecFns;
use crate::entities::{Agent, AgentModel};
use crate::errors::OrchestratorError;
use crate::strutil::str_eq;

verus! {

/// How many buffered lines a read drains when no limit is given.
pub const DEFAULT_READ_LIMIT: usize = 100;

/// Per-process spawn configuration.
#[derive(Debug, Clone, PartialEq)]
pub struct ProcessConfig {
    pub working_directory: String,
    pub environment_vars: Vec<(String, String)>,
    pub max_memory_mb: Option<u64>,
    pub timeout_seconds: Option<u64>,
    pub restart_on_failure: bool,
    pub log_file: Option<String>,
}

impl ProcessConfig {
    /// The stock configuration for the given working directory: a 2 GiB
    /// memory cap, a one-hour timeout, no restart and a default log file.
    pub fn new(working_directory: String) -> (c: ProcessConfig)
        ensures
            c.working_directory == working_directory,
            c.environment_vars@ == Seq::<(String, String)>::empty(),
            c.max_memory_mb == Some(2048u64),
            c.timeout_seconds == Some(3600u64),
            !c.restart_on_failure,
            c.log_file is None,
    {
        let c = ProcessConfig {
            working_directory,
            environment_vars: Vec::new(),
            max_memory_mb: Some(2048),
            timeout_seconds: Some(3600),
            restart_on_failure: false,
            log_file: None,
        };
        proof {
            assert(c.environment_vars@ =~= Seq::<(String, String)>::empty());
        }
        c
    }
}

/// A snapshot of one supervised process.
#[derive(Debug, Clone, PartialEq)]
pub struct ProcessStats {
    pub pid: u32,
    pub uptime_seconds: i64,
    pub log_file: Option<String>,
}

/// One supervised process: its pid, configuration, log path, queued stdin
/// lines and buffered output lines. The queues model the channels that the
/// caller's pump threads serve.
#[derive(Debug, Clone, PartialEq)]
pub struct ProcEntry {
    pub agent_id: String,
    pub pid: u32,
    pub config: ProcessConfig,
    pub started_at: i64,
    pub log_file: String,
    pub stdin_open: bool,
    pub stdin_queue: Vec<String>,
    pub stdout_buf: Vec<String>,
    pub stderr_buf: Vec<String>,
}

/// Whether some entry of `t` belongs to the agent with identifier `id`.
pub open spec fn spec_has_proc(t: Seq<ProcEntry>, id: Seq<char>) -> bool {
    exists|i: int| 0 <= i < t.len() && t[i].agent_id@ == id
}

/// The supervisor's process table.
#[derive(Debug)]
pub struct ProcessManager {
    pub processes: Vec<ProcEntry>,
    pub logs_dir: String,
}

impl ProcessManager {
    /// At most one entry per agent identifier.
    pub open spec fn wf(&self) -> bool {
        forall|i1: int, i2: int|
            0 <= i1 < self.processes@.len() && 0 <= i2 < self.processes@.len()
                && (#[trigger] self.processes@[i1]).agent_id@ == (
            #[trigger] self.processes@[i2]).agent_id@ ==> i1 == i2
    }

    /// An empty table writing logs under `logs_dir`.
    pub fn new(logs_dir: String) -> (m: ProcessManager)
        ensures
            m.processes@ == Seq::<ProcEntry>::empty(),
            m.logs_dir == logs_dir,
            m.wf(),
    {
        let m = ProcessManager { processes: Vec::new(), logs_dir };
        proof {
            assert(m.processes@ =~= Seq::<ProcEntry>::empty());
        }
        m
    }

    /// Where the entry for `agent_id` sits in the table.
    pub fn proc_index(&self, agent_id: &str) -> (r: Option<usize>)
        ensures
            match r {
                Some(i) => i < self.processes@.len() && self.processes@[i as int].agent_id@
                    == agent_id@,
                None => !spec_has_proc(self.processes@, agent_id@),
            },
    {
        let mut i: usize = 0;
        while i < self.processes.len()
            invariant
                i <= self.processes@.len(),
                forall|j: int| 0 <= j < i ==> self.processes@[j].agent_id@ != agent_id@,
            decreases self.processes@.len() - i,
        {
            if str_eq(self.processes[i].agent_id.as_str(), agent_id) {
                return Some(i);
            }
            i += 1;
        }
        None
    }

    /// Whether a process is registered for the agent.
    pub fn has_process(&self, agent_id: &str) -> (r: bool)
        ensures
            r == spec_has_proc(self.processes@, agent_id@),
    {
        match self.proc_index(agent_id) {
            Some(_) => true,
            None => false,
        }
    }

    /// The registered pid of the agent's process, if any.
    pub fn pid_of(&self, agent_id: &str) -> (r: Option<u32>)
        ensures
            match r {
                Some(pid) => exists|i: int|
                    0 <= i < self.processes@.len() && (#[trigger] self.processes@[i]).agent_id@
                        == agent_id@ && self.processes@[i].pid == pid,
                None => !spec_has_proc(self.processes@, agent_id@),
            },
    {
        match self.proc_index(agent_id) {
            Some(i) => Some(self.processes[i].pid),
            None => None,
        }
    }

    /// Record a freshly spawned process for the agent: any stale entry under
    /// the same identifier is dropped, and the new entry starts with an open
    /// stdin and empty queues.
    pub fn register_process(
        &mut self,
        agent_id: String,
        pid: u32,
        config: ProcessConfig,
        log_file: String,
        started_at: i64,
    )
        ensures
            final(self).logs_dir == old(self).logs_dir,
            final(self).processes@.len() >= 1,
            final(self).processes@.last().agent_id == agent_id,
            final(self).processes@.last().pid == pid,
            final(self).processes@.last().config == config,
            final(self).processes@.last().log_file == log_file,
            final(self).processes@.last().started_at == started_at,
            final(self).processes@.last().stdin_open,
            final(self).processes@.last().stdin_queue@ == Seq::<String>::empty(),
            final(self).processes@.last().stdout_buf@ == Seq::<String>::empty(),
            final(self).processes@.last().stderr_buf@ == Seq::<String>::empty(),
            (if spec_has_proc(old(self).processes@, agent_id@) {
                exists|i: int|
                    {
                        &&& 0 <= i < old(self).processes@.len()
                        &&& (#[trigger] old(self).processes@[i]).agent_id@ == agent_id@
                        &&& final(self).processes@ == old(self).processes@.remove(i).push(
                            final(self).processes@.last(),
                        )
                    }
            } else {
                final(self).processes@ == old(self).processes@.push(
                    final(self).processes@.last(),
                )
            }),
            old(self).wf() ==> final(self).wf(),
    {
        let entry = ProcEntry {
            agent_id,
            pid,
            config,
            started_at,
            log_file,
            stdin_open: true,
            stdin_queue: Vec::new(),
            stdout_buf: Vec::new(),
            stderr_buf: Vec::new(),
        };
        proof {
            assert(entry.stdin_queue@ =~= Seq::<String>::empty());
            assert(entry.stdout_buf@ =~= Seq::<String>::empty());
            assert(entry.stderr_buf@ =~= Seq::<String>::empty());
        }
        let ghost pre = *self;
        match self.proc_index(entry.agent_id.as_str()) {
            Some(i) => {
                self.processes.remove(i);
                let ghost mid = self.processes@;
                self.processes.push(entry);
                proof {
                    if pre.wf() {
                        assert(self.wf()) by {
                            assert forall|i1: int, i2: int|
                                0 <= i1 < self.processes@.len() && 0 <= i2
                                    < self.processes@.len() && (
                                #[trigger] self.processes@[i1]).agent_id@ == (
                                #[trigger] self.processes@[i2]).agent_id@ implies i1 == i2 by {
                                let n = mid.len() as int;
                                if i1 < n && i2 < n {
                                    let p1 = if i1 < i { i1 } else { i1 + 1 };
                                    let p2 = if i2 < i { i2 } else { i2 + 1 };
                                    assert(self.processes@[i1] == pre.processes@[p1]);
                                    assert(self.processes@[i2] == pre.processes@[p2]);
                                } else if i1 == n && i2 < n {
                                    let p2 = if i2 < i { i2 } else { i2 + 1 };
                                    assert(self.processes@[i2] == pre.processes@[p2]);
                                    assert(pre.processes@[p2].agent_id@ == pre.processes@[
                                        i as int].agent_id@);
                                } else if i2 == n && i1 < n {
                                    let p1 = if i1 < i { i1 } else { i1 + 1 };
                                    assert(self.processes@[i1] == pre.processes@[p1]);
                                    assert(pre.processes@[p1].agent_id@ == pre.processes@[
                                        i as int].agent_id@);
                                }
                            }
                        }
                    }
                }
            },
            None => {
                self.processes.push(entry);
                proof {
                    if pre.wf() {
                        assert(self.wf()) by {
                            assert forall|i1: int, i2: int|
                                0 <= i1 < self.processes@.len() && 0 <= i2
                                    < self.processes@.len() && (
                                #[trigger] self.processes@[i1]).agent_id@ == (
                                #[trigger] self.processes@[i2]).agent_id@ implies i1 == i2 by {
                                let n = pre.processes@.len() as int;
                                if i1 == n && i2 < n {
                                    assert(spec_has_proc(
                                        pre.processes@,
                                        self.processes@[i2].agent_id@,
                                    ));
                                } else if i2 == n && i1 < n {
                                    assert(spec_has_proc(
                                        pre.processes@,
                                        self.processes@[i1].agent_id@,
                                    ));
                                }
                            }
                        }
                    }
                }
            },
        }
    }

    /// Queue one line for the agent's stdin. Fails with `NotFound` when no
    /// process is registered and with `ChannelClosed` when the stream that
    /// served the process's stdin is gone.
    pub fn send_input(&mut self, agent_id: &str, input: &str) -> (r: Result<
        (),
        OrchestratorError,
    >)
        ensures
            match r {
                Ok(_) => exists|i: int|
                    #![trigger old(self).processes@[i]]
                    spec_send_effect_at(*old(self), *final(self), agent_id@, input@, i),
                Err(e) => {
                    &&& *final(self) == *old(self)
                    &&& match e {
                        OrchestratorError::NotFound(s) => !spec_has_proc(
                            old(self).processes@,
                            agent_id@,
                        ) && s@ == agent_id@,
                        OrchestratorError::ChannelClosed => exists|i: int|
                            0 <= i < old(self).processes@.len() && (
                            #[trigger] old(self).processes@[i]).agent_id@ == agent_id@ && !old(
                                self,
                            ).processes@[i].stdin_open,
                        _ => false,
                    }
                },
            },
            final(self).logs_dir == old(self).logs_dir,
            old(self).wf() ==> final(self).wf(),
    {
        let ghost pre = *self;
        match self.proc_index(agent_id) {
            None => Err(OrchestratorError::NotFound(agent_id.to_owned())),
            Some(i) => {
                if !self.processes[i].stdin_open {
                    return Err(OrchestratorError::ChannelClosed);
                }
                let entry = &mut self.processes[i];
                entry.stdin_queue.push(input.to_owned());
                proof {
                    assert(spec_send_effect_at(pre, *self, agent_id@, input@, i as int));
                    if pre.wf() {
                        assert(self.wf()) by {
                            assert(forall|a: int|
                                0 <= a < self.processes@.len()
                                    ==> (#[trigger] self.processes@[a]).agent_id@
                                    == pre.processes@[a].agent_id@);
                        }
                    }
                }
                Ok(())
            },
        }
    }

    /// Drain up to `max_lines` (default 100) already-buffered stdout lines,
    /// oldest first, never blocking; the order of the remaining lines is
    /// kept. Fails if and only if no process is registered.
    pub fn read_output(&mut self, agent_id: &str, max_lines: Option<usize>) -> (r: Result<
        Vec<String>,
        OrchestratorError,
    >)
        ensures
            spec_read_post(
                *old(self),
                *final(self),
                agent_id@,
                spec_read_limit(max_lines),
                r,
                true,
            ),
            final(self).logs_dir == old(self).logs_dir,
            old(self).wf() ==> final(self).wf(),
    {
        let limit = match max_lines {
            Some(n) => n,
            None => DEFAULT_READ_LIMIT,
        };
        let ghost pre = *self;
        match self.proc_index(agent_id) {
            None => Err(OrchestratorError::NotFound(agent_id.to_owned())),
            Some(i) => {
                let entry = &mut self.processes[i];
                let n = if limit < entry.stdout_buf.len() {
                    limit
                } else {
                    entry.stdout_buf.len()
                };
                let mut tail = entry.stdout_buf.split_off(n);
                core::mem::swap(&mut entry.stdout_buf, &mut tail);
                let drained = tail;
                proof {
                    assert(drained@ =~= pre.processes@[i as int].stdout_buf@.take(n as int));
                    assert(entry.stdout_buf@ =~= pre.processes@[i as int].stdout_buf@.skip(
                        n as int,
                    ));
                    if pre.wf() {
                        assert(self.wf()) by {
                            assert(forall|a: int|
                                0 <= a < self.processes@.len()
                                    ==> (#[trigger] self.processes@[a]).agent_id@
                                    == pre.processes@[a].agent_id@);
                        }
                    }
                }
                Ok(drained)
            },
        }
    }

    /// Drain up to `max_lines` (default 100) already-buffered stderr lines,
    /// oldest first, never blocking; the order of the remaining lines is
    /// kept. Fails if and only if no process is registered.
    pub fn read_errors(&mut self, agent_id: &str, max_lines: Option<usize>) -> (r: Result<
        Vec<String>,
        OrchestratorError,
    >)
        ensures
            spec_read_post(
                *old(self),
                *final(self),
                agent_id@,
                spec_read_limit(max_lines),
                r,
                false,
            ),
            final(self).logs_dir == old(self).logs_dir,
            old(self).wf() ==> final(self).wf(),
    {
        let limit = match max_lines {
            Some(n) => n,
            None => DEFAULT_READ_LIMIT,
        };
        let ghost pre = *self;
        match self.proc_index(agent_id) {
            None => Err(OrchestratorError::NotFound(agent_id.to_owned())),
            Some(i) => {
                let entry = &mut self.processes[i];
                let n = if limit < entry.stderr_buf.len() {
                    limit
                } else {
                    entry.stderr_buf.len()
                };
                let mut tail = entry.stderr_buf.split_off(n);
                core::mem::swap(&mut entry.stderr_buf, &mut tail);
                let drained = tail;
                proof {
                    assert(drained@ =~= pre.processes@[i as int].stderr_buf@.take(n as int));
                    assert(entry.stderr_buf@ =~= pre.processes@[i as int].stderr_buf@.skip(
                        n as int,
                    ));
                    if pre.wf() {
                        assert(self.wf()) by {
                            assert(forall|a: int|
                                0 <= a < self.processes@.len()
                                    ==> (#[trigger] self.processes@[a]).agent_id@
                                    == pre.processes@[a].agent_id@);
                        }
                    }
                }
                Ok(drained)
            },
        }
    }
}

impl ProcessManager {
    /// Record that the stream serving the agent's stdin is gone: later
    /// `send_input` calls fail with `ChannelClosed`.
    pub fn close_stdin(&mut self, agent_id: &str)
        requires
            old(self).wf(),
        ensures
            final(self).logs_dir == old(self).logs_dir,
            (match spec_first_proc_idx(old(self).processes@, agent_id@) {
                Some(i) => final(self).processes@ == old(self).processes@.update(
                    i,
                    final(self).processes@[i],
                ) && final(self).processes@[i] == (ProcEntry {
                    stdin_open: false,
                    ..old(self).processes@[i]
                }),
                None => *final(self) == *old(self),
            }),
            old(self).wf() ==> final(self).wf(),
    {
        let ghost pre = *self;
        match self.proc_index(agent_id) {
            None => {
            },
            Some(i) => {
                let entry = &mut self.processes[i];
                entry.stdin_open = false;
                proof {
                    lemma_first_proc_idx_some(pre.processes@, agent_id@, i as int);
                    if pre.wf() {
                        assert(self.wf()) by {
                            assert(forall|a: int|
                                0 <= a < self.processes@.len()
                                    ==> (#[trigger] self.processes@[a]).agent_id@
                                    == pre.processes@[a].agent_id@);
                        }
                    }
                }
            },
        }
    }

    /// Hand out every queued stdin line for the agent, oldest first, leaving
    /// its queue empty; the caller writes them to the real process.
    pub fn drain_stdin(&mut self, agent_id: &str) -> (r: Vec<String>)
        requires
            old(self).wf(),
        ensures
            final(self).logs_dir == old(self).logs_dir,
            (match spec_first_proc_idx(old(self).processes@, agent_id@) {
                Some(i) => {
                    &&& r@ == old(self).processes@[i].stdin_queue@
                    &&& final(self).processes@ == old(self).processes@.update(
                        i,
                        final(self).processes@[i],
                    )
                    &&& final(self).processes@[i] == (ProcEntry {
                        stdin_queue: final(self).processes@[i].stdin_queue,
                        ..old(self).processes@[i]
                    })
                    &&& final(self).processes@[i].stdin_queue@ == Seq::<String>::empty()
                },
                None => *final(self) == *old(self) && r@ == Seq::<String>::empty(),
            }),
            old(self).wf() ==> final(self).wf(),
    {
        let ghost pre = *self;
        match self.proc_index(agent_id) {
            None => {
                let r: Vec<String> = Vec::new();
                proof {
                    assert(r@ =~= Seq::<String>::empty());
                }
                r
            },
            Some(i) => {
                let entry = &mut self.processes[i];
                let mut drained: Vec<String> = Vec::new();
                core::mem::swap(&mut entry.stdin_queue, &mut drained);
                proof {
                    lemma_first_proc_idx_some(pre.processes@, agent_id@, i as int);
                    assert(entry.stdin_queue@ =~= Seq::<String>::empty());
                    if pre.wf() {
                        assert(self.wf()) by {
                            assert(forall|a: int|
                                0 <= a < self.processes@.len()
                                    ==> (#[trigger] self.processes@[a]).agent_id@
                                    == pre.processes@[a].agent_id@);
                        }
                    }
                }
                drained
            },
        }
    }

    /// Buffer one line read from the process's stdout; the caller's reader
    /// feeds every line through here, in order. Returns whether a process
    /// was registered for the agent.
    pub fn push_output(&mut self, agent_id: &str, line: String) -> (r: bool)
        requires
            old(self).wf(),
        ensures
            final(self).logs_dir == old(self).logs_dir,
            (match spec_first_proc_idx(old(self).processes@, agent_id@) {
                Some(i) => {
                    &&& r
                    &&& final(self).processes@ == old(self).processes@.update(
                        i,
                        final(self).processes@[i],
                    )
                    &&& final(self).processes@[i] == (ProcEntry {
                        stdout_buf: final(self).processes@[i].stdout_buf,
                        ..old(self).processes@[i]
                    })
                    &&& final(self).processes@[i].stdout_buf@ == old(
                        self,
                    ).processes@[i].stdout_buf@.push(line)
                },
                None => !r && *final(self) == *old(self),
            }),
            old(self).wf() ==> final(self).wf(),
    {
        let ghost pre = *self;
        match self.proc_index(agent_id) {
            None => false,
            Some(i) => {
                let entry = &mut self.processes[i];
                entry.stdout_buf.push(line);
                proof {
                    lemma_first_proc_idx_some(pre.processes@, agent_id@, i as int);
                    if pre.wf() {
                        assert(self.wf()) by {
                            assert(forall|a: int|
                                0 <= a < self.processes@.len()
                                    ==> (#[trigger] self.processes@[a]).agent_id@
                                    == pre.processes@[a].agent_id@);
                        }
                    }
                }
                true
            },
        }
    }

    /// Buffer one line read from the process's stderr, as `push_output` does
    /// for stdout.
    pub fn push_errors(&mut self, agent_id: &str, line: String) -> (r: bool)
        requires
            old(self).wf(),
        ensures
            final(self).logs_dir == old(self).logs_dir,
            (match spec_first_proc_idx(old(self).processes@, agent_id@) {
                Some(i) => {
                    &&& r
                    &&& final(self).processes@ == old(self).processes@.update(
                        i,
                        final(self).processes@[i],
                    )
                    &&& final(self).processes@[i] == (ProcEntry {
                        stderr_buf: final(self).processes@[i].stderr_buf,
                        ..old(self).processes@[i]
                    })
                    &&& final(self).processes@[i].stderr_buf@ == old(
                        self,
                    ).processes@[i].stderr_buf@.push(line)
                },
                None => !r && *final(self) == *old(self),
            }),
            old(self).wf() ==> final(self).wf(),
    {
        let ghost pre = *self;
        match self.proc_index(agent_id) {
            None => false,
            Some(i) => {
                let entry = &mut self.processes[i];
                entry.stderr_buf.push(line);
                proof {
                    lemma_first_proc_idx_some(pre.processes@, agent_id@, i as int);
                    if pre.wf() {
                        assert(self.wf()) by {
                            assert(forall|a: int|
                                0 <= a < self.processes@.len()
                                    ==> (#[trigger] self.processes@[a]).agent_id@
                                    == pre.processes@[a].agent_id@);
                        }
                    }
                }
                true
            },
        }
    }

    /// What `kill_agent` does. With a registered process, the entry leaves
    /// the table; `wait_ok` reports whether the caller's blocking wait on the
    /// process succeeded — on success the agent is stopped, on failure it is
    /// marked with the error and the call fails. With no registered process
    /// the agent is simply stopped: killing is idempotent.
    pub open spec fn spec_kill_proc_post(
        pre: ProcessManager,
        post: ProcessManager,
        prea: Agent,
        posta: Agent,
        id: Seq<char>,
        wait_ok: bool,
        wait_err: String,
        now: i64,
        r: Result<(), OrchestratorError>,
    ) -> bool {
        &&& post.logs_dir == pre.logs_dir
        &&& if spec_has_proc(pre.processes@, id) {
            &&& exists|i: int|
                {
                    &&& 0 <= i < pre.processes@.len()
                    &&& (#[trigger] pre.processes@[i]).agent_id@ == id
                    &&& post.processes@ == pre.processes@.remove(i)
                }
            &&& if wait_ok {
                &&& posta == (Agent {
                    state: crate::entities::AgentState::Stopped,
                    pid: None,
                    uptime_start: None,
                    ..prea
                })
                &&& r is Ok
            } else {
                &&& posta == (Agent {
                    state: crate::entities::AgentState::Error(wait_err),
                    last_activity: now,
                    ..prea
                })
                &&& r matches Err(OrchestratorError::ProcessError(s)) && s@ == wait_err@
            }
        } else {
            &&& post.processes@ == pre.processes@
            &&& posta == (Agent {
                state: crate::entities::AgentState::Stopped,
                pid: None,
                uptime_start: None,
                ..prea
            })
            &&& r is Ok
        }
    }

    /// Drop the agent's process entry and record the outcome of the caller's
    /// kill-and-wait on the agent. With no registered process the agent is
    /// simply stopped and the call succeeds.
    pub fn kill_agent(
        &mut self,
        agent_id: &str,
        agent: &mut Agent,
        wait_ok: bool,
        wait_err: String,
        now: i64,
    ) -> (r: Result<(), OrchestratorError>)
        ensures
            Self::spec_kill_proc_post(
                *old(self),
                *final(self),
                *old(agent),
                *final(agent),
                agent_id@,
                wait_ok,
                wait_err,
                now,
                r,
            ),
            old(self).wf() ==> final(self).wf(),
    {
        let ghost pre = *self;
        match self.proc_index(agent_id) {
            None => {
                agent.stop();
                Ok(())
            },
            Some(i) => {
                self.processes.remove(i);
                proof {
                    if pre.wf() {
                        assert(self.wf()) by {
                            assert forall|i1: int, i2: int|
                                0 <= i1 < self.processes@.len() && 0 <= i2
                                    < self.processes@.len() && (
                                #[trigger] self.processes@[i1]).agent_id@ == (
                                #[trigger] self.processes@[i2]).agent_id@ implies i1 == i2 by {
                                let p1 = if i1 < i { i1 } else { i1 + 1 };
                                let p2 = if i2 < i { i2 } else { i2 + 1 };
                                assert(self.processes@[i1] == pre.processes@[p1]);
                                assert(self.processes@[i2] == pre.processes@[p2]);
                            }
                        }
                    }
                }
                if wait_ok {
                    agent.stop();
                    Ok(())
                } else {
                    agent.set_error(wait_err.clone(), now);
                    Err(OrchestratorError::ProcessError(wait_err))
                }
            },
        }
    }

    /// Drop every entry whose identifier is in `exited` — the processes the
    /// caller's probe found dead — and report their identifiers in table
    /// order. Agents' states are not touched here: callers reconcile using
    /// the report. Running it again right away reports nothing: see
    /// `lemma_cleanup_dead_idempotent`.
    pub fn cleanup_dead_processes(&mut self, exited: &Vec<String>) -> (dead: Vec<String>)
        ensures
            final(self).logs_dir == old(self).logs_dir,
            final(self).processes@ == spec_cleanup_split(old(self).processes@, exited@).0,
            crate::strutil::str_views(dead@) == spec_cleanup_split(
                old(self).processes@,
                exited@,
            ).1,
            old(self).wf() ==> final(self).wf(),
    {
        let ghost pre = *self;
        let mut dead: Vec<String> = Vec::new();
        let mut i: usize = 0;
        let ghost mut p: int = 0;
        proof {
            assert(pre.processes@.take(0) =~= Seq::<ProcEntry>::empty());
            assert(crate::strutil::str_views(dead@) =~= Seq::<Seq<char>>::empty());
            assert(self.processes@ =~= spec_cleanup_split(pre.processes@.take(0), exited@).0
                + pre.processes@.skip(0));
        }
        while i < self.processes.len()
            invariant
                0 <= p <= pre.processes@.len(),
                i == spec_cleanup_split(pre.processes@.take(p), exited@).0.len(),
                i <= self.processes@.len(),
                self.logs_dir == pre.logs_dir,
                self.processes@ == spec_cleanup_split(pre.processes@.take(p), exited@).0
                    + pre.processes@.skip(p),
                crate::strutil::str_views(dead@) == spec_cleanup_split(
                    pre.processes@.take(p),
                    exited@,
                ).1,
            decreases pre.processes@.len() - p,
        {
            proof {
                assert(p < pre.processes@.len()) by {
                    if p == pre.processes@.len() {
                        assert(pre.processes@.skip(p) =~= Seq::<ProcEntry>::empty());
                    }
                }
                lemma_cleanup_split_take_step(pre.processes@, exited@, p);
                assert(self.processes@[i as int] == pre.processes@[p]);
            }
            if crate::ident::contains_string(&exited, self.processes[i].agent_id.as_str()) {
                let ghost before = dead@;
                dead.push(self.processes[i].agent_id.clone());
                self.processes.remove(i);
                proof {
                    crate::strutil::lemma_str_views_push(before, dead@.last());
                    assert(self.processes@ =~= spec_cleanup_split(
                        pre.processes@.take(p + 1),
                        exited@,
                    ).0 + pre.processes@.skip(p + 1));
                }
            } else {
                i += 1;
                proof {
                    assert(self.processes@ =~= spec_cleanup_split(
                        pre.processes@.take(p + 1),
                        exited@,
                    ).0 + pre.processes@.skip(p + 1));
                }
            }
            proof {
                p = p + 1;
            }
        }
        proof {
            assert(pre.processes@.skip(p) =~= Seq::<ProcEntry>::empty()) by {
                if p < pre.processes@.len() {
                    assert(self.processes@.len() > i);
                }
            }
            assert(pre.processes@.take(p) =~= pre.processes@);
            assert(self.processes@ =~= spec_cleanup_split(pre.processes@, exited@).0);
            if pre.wf() {
                lemma_cleanup_split_kept_unique(pre.processes@, exited@);
                assert(self.wf());
            }
        }
        dead
    }

    /// The pid, uptime and log file of the agent's process, if one is
    /// registered.
    pub fn get_process_stats(&self, agent_id: &str, now: i64) -> (r: Option<ProcessStats>)
        requires
            forall|i: int|
                0 <= i < self.processes@.len() ==> i64::MIN <= now - (
                #[trigger] self.processes@[i]).started_at <= i64::MAX,
        ensures
            match r {
                Some(st) => exists|i: int|
                    {
                        &&& 0 <= i < self.processes@.len()
                        &&& (#[trigger] self.processes@[i]).agent_id@ == agent_id@
                        &&& st.pid == self.processes@[i].pid
                        &&& st.uptime_seconds == now - self.processes@[i].started_at
                        &&& crate::entities::spec_same_opt_str(
                            st.log_file,
                            self.processes@[i].config.log_file,
                        )
                    },
                None => !spec_has_proc(self.processes@, agent_id@),
            },
    {
        match self.proc_index(agent_id) {
            None => None,
            Some(i) => {
                let entry = &self.processes[i];
                Some(
                    ProcessStats {
                        pid: entry.pid,
                        uptime_seconds: now - entry.started_at,
                        log_file: crate::strutil::clone_opt_string(&entry.config.log_file),
                    },
                )
            },
        }
    }

    /// The log file path recorded for the agent's process, if any.
    pub fn log_file_of(&self, agent_id: &str) -> (r: Option<String>)
        ensures
            match r {
                Some(p) => exists|i: int|
                    0 <= i < self.processes@.len() && (#[trigger] self.processes@[i]).agent_id@
                        == agent_id@ && p@ == self.processes@[i].log_file@,
                None => !spec_has_proc(self.processes@, agent_id@),
            },
    {
        match self.proc_index(agent_id) {
            None => None,
            Some(i) => Some(self.processes[i].log_file.clone()),
        }
    }

    /// The identifiers of all registered processes, in table order.
    pub fn list_running_processes(&self) -> (r: Vec<String>)
        ensures
            r@.len() == self.processes@.len(),
            forall|i: int|
                0 <= i < r@.len() ==> (#[trigger] r@[i])@ == self.processes@[i].agent_id@,
    {
        let mut r: Vec<String> = Vec::new();
        let mut i: usize = 0;
        while i < self.processes.len()
            invariant
                i <= self.processes@.len(),
                r@.len() == i,
                forall|j: int|
                    0 <= j < i ==> (#[trigger] r@[j])@ == self.processes@[j].agent_id@,
            decreases self.processes@.len() - i,
        {
            r.push(self.processes[i].agent_id.clone());
            i += 1;
        }
        r
    }
}

/// Whether `c` separates words of a custom command: the Unicode
/// `White_Space` characters.
pub open spec fn spec_ws_char(c: char) -> bool {
    ||| (9 <= c as u32 <= 13)
    ||| c as u32 == 32
    ||| c as u32 == 0x85
    ||| c as u32 == 0xA0
    ||| c as u32 == 0x1680
    ||| (0x2000 <= c as u32 <= 0x200A)
    ||| c as u32 == 0x2028
    ||| c as u32 == 0x2029
    ||| c as u32 == 0x202F
    ||| c as u32 == 0x205F
    ||| c as u32 == 0x3000
}

/// One step of whitespace splitting: the words closed so far, and the word
/// in progress.
pub open spec fn spec_split_state(s: Seq<char>) -> (Seq<Seq<char>>, Seq<char>)
    decreases s.len(),
{
    if s.len() == 0 {
        (Seq::empty(), Seq::empty())
    } else {
        let (toks, cur) = spec_split_state(s.drop_last());
        if spec_ws_char(s.last()) {
            if cur.len() > 0 {
                (toks.push(cur), Seq::empty())
            } else {
                (toks, Seq::empty())
            }
        } else {
            (toks, cur.push(s.last()))
        }
    }
}

/// The whitespace-separated words of `s`, in order; empty words never occur.
pub open spec fn spec_split_ws(s: Seq<char>) -> Seq<Seq<char>> {
    let (toks, cur) = spec_split_state(s);
    if cur.len() > 0 {
        toks.push(cur)
    } else {
        toks
    }
}

/// Whether `c` separates words of a custom command.
fn is_ws_char(c: char) -> (r: bool)
    ensures
        r == spec_ws_char(c),
{
    let x = c as u32;
    (9 <= x && x <= 13) || x == 32 || x == 0x85 || x == 0xA0 || x == 0x1680 || (0x2000 <= x && x
        <= 0x200A) || x == 0x2028 || x == 0x2029 || x == 0x202F || x == 0x205F || x == 0x3000
}

/// The whitespace-separated words of `s`, in order.
pub fn split_whitespace_tokens(s: &str) -> (r: Vec<String>)
    ensures
        crate::strutil::str_views(r@) == spec_split_ws(s@),
{
    let chars = crate::strutil::str_to_chars(s);
    let mut toks: Vec<String> = Vec::new();
    let mut cur: Vec<char> = Vec::new();
    let mut i: usize = 0;
    proof {
        assert(s@.take(0) =~= Seq::<char>::empty());
        assert(crate::strutil::str_views(toks@) =~= Seq::<Seq<char>>::empty());
        assert(cur@ =~= Seq::<char>::empty());
    }
    while i < chars.len()
        invariant
            i <= chars@.len(),
            chars@ == s@,
            crate::strutil::str_views(toks@) == spec_split_state(s@.take(i as int)).0,
            cur@ == spec_split_state(s@.take(i as int)).1,
        decreases chars@.len() - i,
    {
        proof {
            assert(s@.take(i as int + 1).drop_last() =~= s@.take(i as int));
            assert(s@.take(i as int + 1).last() == s@[i as int]);
        }
        let c = chars[i];
        if is_ws_char(c) {
            if cur.len() > 0 {
                let word = crate::strutil::chars_to_string(&cur);
                let ghost before = toks@;
                toks.push(word);
                cur = Vec::new();
                proof {
                    crate::strutil::lemma_str_views_push(before, toks@.last());
                    assert(cur@ =~= Seq::<char>::empty());
                }
            }
        } else {
            cur.push(c);
        }
        i += 1;
    }
    proof {
        assert(s@.take(chars@.len() as int) =~= s@);
    }
    if cur.len() > 0 {
        let word = crate::strutil::chars_to_string(&cur);
        let ghost before = toks@;
        toks.push(word);
        proof {
            crate::strutil::lemma_str_views_push(before, toks@.last());
        }
    }
    toks
}

/// Whether a custom model string carries the literal-command prefix `cmd:`.
pub open spec fn spec_cmd_prefixed(name: Seq<char>) -> bool {
    name.len() >= 4 && name.subrange(0, 4) == "cmd:"@
}

/// The argv the supervisor spawns for a model. Hosted models map to fixed
/// invocations (the the assistant binary when available, else the wrapper
/// module); a custom model prefixed `cmd:` is split on whitespace, and an
/// empty result is the one spawn-time rejection.
pub open spec fn spec_build_command(model: AgentModel, assistant_available: bool) -> Option<
    Seq<Seq<char>>,
> {
    match model {
        AgentModel::AssistantCli => Some(
            if assistant_available {
                seq!["assistant"@]
            } else {
                seq!["python3"@, "-m"@, "bunshin_agent"@, "--model"@, "assistant-cli"@]
            },
        ),
        AgentModel::Custom(name) => if spec_cmd_prefixed(name@) {
            if spec_split_ws(name@.skip(4)).len() == 0 {
                None
            } else {
                Some(spec_split_ws(name@.skip(4)))
            }
        } else {
            Some(seq!["python3"@, "-m"@, "bunshin_agent"@, "--model"@, name@])
        },
        _ => Some(seq!["python3"@, "-m"@, "bunshin_agent"@, "--model"@, model.spec_name()]),
    }
}

/// The wrapper-module invocation for a model name.
fn wrapper_argv(model_name: String) -> (v: Vec<String>)
    ensures
        crate::strutil::str_views(v@) == seq![
            "python3"@,
            "-m"@,
            "bunshin_agent"@,
            "--model"@,
            model_name@,
        ],
{
    let mut v: Vec<String> = Vec::new();
    v.push(String::from_str("python3"));
    v.push(String::from_str("-m"));
    v.push(String::from_str("bunshin_agent"));
    v.push(String::from_str("--model"));
    v.push(model_name);
    proof {
        assert(crate::strutil::str_views(v@) =~= seq![
            "python3"@,
            "-m"@,
            "bunshin_agent"@,
            "--model"@,
            v@[4]@,
        ]);
    }
    v
}

impl ProcessManager {
    /// The argv to spawn for the agent's model; `assistant_available` reports
    /// the caller's probe for the the assistant binary. Fails if and only if a
    /// `cmd:`-prefixed custom model holds no command word.
    pub fn build_agent_command(agent: &Agent, assistant_available: bool) -> (r: Result<
        Vec<String>,
        OrchestratorError,
    >)
        ensures
            match r {
                Ok(v) => spec_build_command(agent.model, assistant_available) == Some(
                    crate::strutil::str_views(v@),
                ),
                Err(e) => {
                    &&& spec_build_command(agent.model, assistant_available) is None
                    &&& e matches OrchestratorError::SpawnError(s) && s@ == "Empty custom command"@
                },
            },
    {
        match &agent.model {
            AgentModel::AssistantCli => {
                if assistant_available {
                    let mut v: Vec<String> = Vec::new();
                    v.push(String::from_str("assistant"));
                    proof {
                        assert(crate::strutil::str_views(v@) =~= seq!["assistant"@]);
                    }
                    Ok(v)
                } else {
                    Ok(wrapper_argv(String::from_str("assistant-cli")))
                }
            },
            AgentModel::Custom(name) => {
                let n = name.as_str().unicode_len();
                let prefixed = if n >= 4 {
                    crate::strutil::str_eq(name.as_str().substring_char(0, 4), "cmd:")
                } else {
                    false
                };
                if prefixed {
                    let rest = name.as_str().substring_char(4, n);
                    proof {
                        assert(rest@ =~= name@.skip(4));
                    }
                    let parts = split_whitespace_tokens(rest);
                    if parts.len() == 0 {
                        proof {
                            assert(crate::strutil::str_views(parts@).len() == 0);
                        }
                        Err(
                            OrchestratorError::SpawnError(
                                String::from_str("Empty custom command"),
                            ),
                        )
                    } else {
                        proof {
                            assert(crate::strutil::str_views(parts@).len() > 0);
                        }
                        Ok(parts)
                    }
                } else {
                    proof {
                        assert(!spec_cmd_prefixed(name@));
                    }
                    Ok(wrapper_argv(name.clone()))
                }
            },
            _ => Ok(wrapper_argv(agent.model.name_string())),
        }
    }

    /// Where the agent's process runs: its isolated worktree when it has
    /// one, else the configured directory.
    pub fn resolve_working_directory(agent: &Agent, config: &ProcessConfig) -> (r: String)
        ensures
            r@ == match agent.artifacts_path {
                Some(p) => p@,
                None => config.working_directory@,
            },
    {
        match &agent.artifacts_path {
            Some(p) => p.clone(),
            None => config.working_directory.clone(),
        }
    }

    /// The log file the agent's process appends to: the configured one, else
    /// `<logs_dir>/<agent id>.log`.
    pub fn resolve_log_file(&self, agent_id: &str, config: &ProcessConfig) -> (r: String)
        ensures
            r@ == match config.log_file {
                Some(p) => p@,
                None => self.logs_dir@ + "/"@ + agent_id@ + ".log"@,
            },
    {
        match &config.log_file {
            Some(p) => p.clone(),
            None => self.logs_dir.clone().concat("/").concat(agent_id).concat(".log"),
        }
    }

    /// The environment the agent's process gets: the configured variables,
    /// then the identifying ones, then the optional project and task.
    pub fn build_agent_env(agent: &Agent, config: &ProcessConfig) -> (r: Vec<(String, String)>)
        ensures
            r@.len() == config.environment_vars@.len() + 5 + (if agent.project is Some {
                1int
            } else {
                0
            }) + (if agent.task_description is Some {
                1int
            } else {
                0
            }),
            r@.subrange(0, config.environment_vars@.len() as int) == config.environment_vars@,
            ({
                let b = config.environment_vars@.len() as int;
                &&& r@[b].0@ == "BUNSHIN_AGENT_ID"@ && r@[b].1@ == agent.id@
                &&& r@[b + 1].0@ == "BUNSHIN_AGENT_NAME"@ && r@[b + 1].1@ == agent.name@
                &&& r@[b + 2].0@ == "BUNSHIN_SESSION_ID"@ && r@[b + 2].1@ == agent.session_id@
                &&& r@[b + 3].0@ == "BUNSHIN_WINDOW_ID"@ && r@[b + 3].1@ == agent.window_id@
                &&& r@[b + 4].0@ == "BUNSHIN_MODEL"@ && r@[b + 4].1@ == agent.model.spec_name()
                &&& (agent.project matches Some(p) ==> r@[b + 5].0@ == "BUNSHIN_PROJECT"@ && r@[b
                    + 5].1@ == p@)
                &&& (agent.task_description matches Some(t) ==> {
                    let o = b + 5 + if agent.project is Some {
                        1int
                    } else {
                        0
                    };
                    r@[o].0@ == "BUNSHIN_TASK"@ && r@[o].1@ == t@
                })
            }),
    {
        let mut r: Vec<(String, String)> = Vec::new();
        let mut i: usize = 0;
        while i < config.environment_vars.len()
            invariant
                i <= config.environment_vars@.len(),
                r@ == config.environment_vars@.take(i as int),
            decreases config.environment_vars@.len() - i,
        {
            let pair = (config.environment_vars[i].0.clone(), config.environment_vars[i].1.clone());
            proof {
                assert(pair == config.environment_vars@[i as int]);
                assert(r@.push(pair) =~= config.environment_vars@.take(i as int + 1));
            }
            r.push(pair);
            i += 1;
        }
        proof {
            assert(config.environment_vars@.take(config.environment_vars@.len() as int)
                =~= config.environment_vars@);
        }
        r.push((String::from_str("BUNSHIN_AGENT_ID"), agent.id.clone()));
        r.push((String::from_str("BUNSHIN_AGENT_NAME"), agent.name.clone()));
        r.push((String::from_str("BUNSHIN_SESSION_ID"), agent.session_id.clone()));
        r.push((String::from_str("BUNSHIN_WINDOW_ID"), agent.window_id.clone()));
        r.push((String::from_str("BUNSHIN_MODEL"), agent.model.name_string()));
        match &agent.project {
            Some(p) => r.push((String::from_str("BUNSHIN_PROJECT"), p.clone())),
            None => {},
        }
        match &agent.task_description {
            Some(t) => r.push((String::from_str("BUNSHIN_TASK"), t.clone())),
            None => {},
        }
        proof {
            assert(r@.subrange(0, config.environment_vars@.len() as int)
                =~= config.environment_vars@);
        }
        r
    }
}


/// What a successful send does: the entry at `i` carries `id`, its stdin is
/// open, and its queue alone grows by one copy of `input`.
pub open spec fn spec_send_effect_at(
    pre: ProcessManager,
    post: ProcessManager,
    id: Seq<char>,
    input: Seq<char>,
    i: int,
) -> bool {
    &&& 0 <= i < pre.processes@.len()
    &&& pre.processes@[i].agent_id@ == id
    &&& pre.processes@[i].stdin_open
    &&& post.processes@ == pre.processes@.update(i, post.processes@[i])
    &&& post.processes@[i] == (ProcEntry {
        stdin_queue: post.processes@[i].stdin_queue,
        ..pre.processes@[i]
    })
    &&& post.processes@[i].stdin_queue@ == pre.processes@[i].stdin_queue@.push(
        post.processes@[i].stdin_queue@.last(),
    )
    &&& post.processes@[i].stdin_queue@.last()@ == input
}

/// Whether a send to `id` succeeds on table `t`: an entry exists and its
/// stdin stream is still open.
pub open spec fn spec_send_ok(t: Seq<ProcEntry>, id: Seq<char>) -> bool {
    exists|i: int| 0 <= i < t.len() && (#[trigger] t[i]).agent_id@ == id && t[i].stdin_open
}

/// The identifier when its send succeeds, else nothing.
pub open spec fn broadcast_ok_fn(t: Seq<ProcEntry>) -> spec_fn(String) -> Seq<Seq<char>> {
    |s: String|
        if spec_send_ok(t, s@) {
            seq![s@]
        } else {
            Seq::empty()
        }
}

/// One where the identifier matches, else zero.
pub open spec fn count_id_fn(id: Seq<char>) -> spec_fn(String) -> int {
    |s: String|
        if s@ == id {
            1int
        } else {
            0int
        }
}

/// How many of `ids` name the identifier `id`.
pub open spec fn spec_sends_to(ids: Seq<String>, id: Seq<char>) -> int {
    crate::seqsum::sum_by(ids, count_id_fn(id))
}

/// What a broadcast does to the table: each open entry's stdin queue grows
/// by one copy of the message per occurrence of its identifier in `ids`,
/// keeping what was queued before; everything else is untouched.
pub open spec fn spec_broadcast_post(
    pre: ProcessManager,
    post: ProcessManager,
    ids: Seq<String>,
    msg: Seq<char>,
) -> bool {
    &&& post.logs_dir == pre.logs_dir
    &&& post.processes@.len() == pre.processes@.len()
    &&& forall|i: int| #![trigger post.processes@[i]]
        0 <= i < pre.processes@.len() ==> {
            let added = if pre.processes@[i].stdin_open {
                spec_sends_to(ids, pre.processes@[i].agent_id@)
            } else {
                0int
            };
            &&& post.processes@[i] == (ProcEntry {
                stdin_queue: post.processes@[i].stdin_queue,
                ..pre.processes@[i]
            })
            &&& post.processes@[i].stdin_queue@.len() == pre.processes@[i].stdin_queue@.len()
                + added
            &&& post.processes@[i].stdin_queue@.take(
                pre.processes@[i].stdin_queue@.len() as int,
            ) == pre.processes@[i].stdin_queue@
            &&& forall|q: int|
                pre.processes@[i].stdin_queue@.len() <= q
                    < post.processes@[i].stdin_queue@.len() ==> (
                #[trigger] post.processes@[i].stdin_queue@[q])@ == msg
        }
}

impl ProcessManager {
    /// Queue `message` for each of the given agents independently; partial
    /// failure is expected, and the identifiers whose send succeeded come
    /// back in order. A send fails only where no process is registered or
    /// its stdin stream is gone.
    pub fn broadcast_message(&mut self, agent_ids: &Vec<String>, message: &str) -> (r: Result<
        Vec<String>,
        OrchestratorError,
    >)
        requires
            old(self).wf(),
        ensures
            final(self).wf(),
            spec_broadcast_post(*old(self), *final(self), agent_ids@, message@),
            r matches Ok(successes) && crate::strutil::str_views(successes@)
                == crate::seqsum::flat_by(agent_ids@, broadcast_ok_fn(old(self).processes@)),
    {
        let ghost pre = *self;
        let mut successes: Vec<String> = Vec::new();
        let mut x: usize = 0;
        proof {
            assert(agent_ids@.take(0) =~= Seq::<String>::empty());
            assert(crate::strutil::str_views(successes@) =~= Seq::<Seq<char>>::empty());
            assert(crate::seqsum::flat_by(
                agent_ids@.take(0),
                broadcast_ok_fn(pre.processes@),
            ) =~= Seq::<Seq<char>>::empty());
            assert(spec_broadcast_post(pre, *self, agent_ids@.take(0), message@)) by {
                assert forall|i: int| #![trigger self.processes@[i]]
                    0 <= i < pre.processes@.len() implies {
                    let added = if pre.processes@[i].stdin_open {
                        spec_sends_to(agent_ids@.take(0), pre.processes@[i].agent_id@)
                    } else {
                        0int
                    };
                    &&& self.processes@[i] == (ProcEntry {
                        stdin_queue: self.processes@[i].stdin_queue,
                        ..pre.processes@[i]
                    })
                    &&& self.processes@[i].stdin_queue@.len()
                        == pre.processes@[i].stdin_queue@.len() + added
                    &&& self.processes@[i].stdin_queue@.take(
                        pre.processes@[i].stdin_queue@.len() as int,
                    ) == pre.processes@[i].stdin_queue@
                    &&& forall|q: int|
                        pre.processes@[i].stdin_queue@.len() <= q
                            < self.processes@[i].stdin_queue@.len() ==> (
                        #[trigger] self.processes@[i].stdin_queue@[q])@ == message@
                } by {
                    assert(self.processes@[i].stdin_queue@.take(
                        pre.processes@[i].stdin_queue@.len() as int,
                    ) =~= pre.processes@[i].stdin_queue@);
                }
            }
        }
        while x < agent_ids.len()
            invariant
                x <= agent_ids@.len(),
                self.wf(),
                pre == *old(self),
                pre.wf(),
                spec_broadcast_post(pre, *self, agent_ids@.take(x as int), message@),
                crate::strutil::str_views(successes@) == crate::seqsum::flat_by(
                    agent_ids@.take(x as int),
                    broadcast_ok_fn(pre.processes@),
                ),
            decreases agent_ids@.len() - x,
        {
            let ghost mid = *self;
            let ghost tid = agent_ids@[x as int]@;
            proof {
                crate::seqsum::lemma_flat_by_take_step(
                    agent_ids@,
                    broadcast_ok_fn(pre.processes@),
                    x as int,
                );
            }
            let sent = match self.send_input(agent_ids[x].as_str(), message) {
                Ok(_) => true,
                Err(_) => false,
            };
            let ghost gi: int = if sent {
                choose|i: int|
                    #![trigger mid.processes@[i]]
                    spec_send_effect_at(mid, *self, tid, message@, i)
            } else {
                0
            };
            proof {
                assert(tid == agent_ids@[x as int]@);
                if sent {
                    assert(exists|i: int|
                        #![trigger mid.processes@[i]]
                        spec_send_effect_at(mid, *self, tid, message@, i));
                    assert(spec_send_effect_at(mid, *self, agent_ids@[x as int]@, message@, gi));
                }
                lemma_broadcast_step(
                    pre,
                    mid,
                    *self,
                    agent_ids@,
                    x as int,
                    message@,
                    sent,
                    gi,
                );
            }
            if sent {
                let ghost before = successes@;
                successes.push(agent_ids[x].clone());
                proof {
                    crate::strutil::lemma_str_views_push(before, successes@.last());
                    assert(crate::strutil::str_views(successes@) =~= crate::seqsum::flat_by(
                        agent_ids@.take(x as int + 1),
                        broadcast_ok_fn(pre.processes@),
                    ));
                }
            } else {
                proof {
                    assert(crate::strutil::str_views(successes@) =~= crate::seqsum::flat_by(
                        agent_ids@.take(x as int + 1),
                        broadcast_ok_fn(pre.processes@),
                    ));
                }
            }
            x += 1;
        }
        proof {
            assert(agent_ids@.take(agent_ids@.len() as int) =~= agent_ids@);
        }
        Ok(successes)
    }
}

/// One send keeps the broadcast relation: the target entry (unique by
/// well-formedness) absorbs one more copy of the message exactly when it is
/// open, and the success report matches whether it was.
proof fn lemma_broadcast_step(
    pre: ProcessManager,
    mid: ProcessManager,
    post: ProcessManager,
    ids: Seq<String>,
    x: int,
    msg: Seq<char>,
    sent: bool,
    gi: int,
)
    requires
        pre.wf(),
        mid.wf(),
        0 <= x < ids.len(),
        spec_broadcast_post(pre, mid, ids.take(x), msg),
        sent ==> spec_send_effect_at(mid, post, ids[x]@, msg, gi),
        !sent ==> post == mid && (!spec_has_proc(mid.processes@, ids[x]@) || exists|i: int|
            0 <= i < mid.processes@.len() && (#[trigger] mid.processes@[i]).agent_id@ == ids[x]@
                && !mid.processes@[i].stdin_open),
        post.logs_dir == mid.logs_dir,
    ensures
        spec_broadcast_post(pre, post, ids.take(x + 1), msg),
        sent == spec_send_ok(pre.processes@, ids[x]@),
{
    assert(ids.take(x + 1).drop_last() =~= ids.take(x));
    assert(ids.take(x + 1).last() == ids[x]);
    assert(forall|e: int|
        0 <= e < pre.processes@.len() ==> spec_sends_to(ids.take(x + 1), (
        #[trigger] pre.processes@[e]).agent_id@) == spec_sends_to(
            ids.take(x),
            pre.processes@[e].agent_id@,
        ) + count_id_fn(pre.processes@[e].agent_id@)(ids[x]));
    if sent {
        let i = gi;
        assert(mid.processes@[i] == (ProcEntry {
            stdin_queue: mid.processes@[i].stdin_queue,
            ..pre.processes@[i]
        }));
        assert(pre.processes@[i].agent_id@ == ids[x]@);
        assert(pre.processes@[i].stdin_open);
        assert(spec_send_ok(pre.processes@, ids[x]@));
        assert forall|e: int| #![trigger post.processes@[e]]
            0 <= e < pre.processes@.len() implies {
            let added = if pre.processes@[e].stdin_open {
                spec_sends_to(ids.take(x + 1), pre.processes@[e].agent_id@)
            } else {
                0int
            };
            &&& post.processes@[e] == (ProcEntry {
                stdin_queue: post.processes@[e].stdin_queue,
                ..pre.processes@[e]
            })
            &&& post.processes@[e].stdin_queue@.len() == pre.processes@[e].stdin_queue@.len()
                + added
            &&& post.processes@[e].stdin_queue@.take(
                pre.processes@[e].stdin_queue@.len() as int,
            ) == pre.processes@[e].stdin_queue@
            &&& forall|q: int|
                pre.processes@[e].stdin_queue@.len() <= q
                    < post.processes@[e].stdin_queue@.len() ==> (
                #[trigger] post.processes@[e].stdin_queue@[q])@ == msg
        } by {
            if e == i {
                assert(count_id_fn(pre.processes@[e].agent_id@)(ids[x]) == 1);
                assert forall|y: int|
                    0 <= y < ids.take(x).len() implies count_id_fn(
                    pre.processes@[e].agent_id@,
                )(#[trigger] ids.take(x)[y]) >= 0 by {}
                crate::seqsum::lemma_sum_by_nonneg(
                    ids.take(x),
                    count_id_fn(pre.processes@[e].agent_id@),
                );
                assert(mid.processes@[e].stdin_queue@.len()
                    >= pre.processes@[e].stdin_queue@.len());
                assert(mid.processes@[e].stdin_queue@.take(
                    pre.processes@[e].stdin_queue@.len() as int,
                ) == pre.processes@[e].stdin_queue@);
                assert(post.processes@[e].stdin_queue@.take(
                    pre.processes@[e].stdin_queue@.len() as int,
                ) =~= mid.processes@[e].stdin_queue@.take(
                    pre.processes@[e].stdin_queue@.len() as int,
                ));
            } else {
                assert(post.processes@[e] == mid.processes@[e]);
                assert(mid.processes@[e].agent_id@ == pre.processes@[e].agent_id@);
                assert(pre.processes@[e].agent_id@ != ids[x]@) by {
                    if pre.processes@[e].agent_id@ == ids[x]@ {
                        assert(mid.processes@[e].agent_id@ == mid.processes@[i].agent_id@);
                    }
                }
                assert(count_id_fn(pre.processes@[e].agent_id@)(ids[x]) == 0);
            }
        }
    } else {
        assert(!spec_send_ok(pre.processes@, ids[x]@)) by {
            if spec_send_ok(pre.processes@, ids[x]@) {
                let w = choose|w: int|
                    0 <= w < pre.processes@.len() && (#[trigger] pre.processes@[w]).agent_id@
                        == ids[x]@ && pre.processes@[w].stdin_open;
                assert(mid.processes@[w].agent_id@ == ids[x]@);
                assert(mid.processes@[w].stdin_open);
                assert(spec_has_proc(mid.processes@, ids[x]@));
                if exists|i: int|
                    0 <= i < mid.processes@.len() && (#[trigger] mid.processes@[i]).agent_id@
                        == ids[x]@ && !mid.processes@[i].stdin_open {
                    let c = choose|i: int|
                        0 <= i < mid.processes@.len() && (#[trigger] mid.processes@[i]).agent_id@
                            == ids[x]@ && !mid.processes@[i].stdin_open;
                    assert(c == w);
                }
            }
        }
        assert forall|e: int| #![trigger post.processes@[e]]
            0 <= e < pre.processes@.len() implies {
            let added = if pre.processes@[e].stdin_open {
                spec_sends_to(ids.take(x + 1), pre.processes@[e].agent_id@)
            } else {
                0int
            };
            &&& post.processes@[e] == (ProcEntry {
                stdin_queue: post.processes@[e].stdin_queue,
                ..pre.processes@[e]
            })
            &&& post.processes@[e].stdin_queue@.len() == pre.processes@[e].stdin_queue@.len()
                + added
            &&& post.processes@[e].stdin_queue@.take(
                pre.processes@[e].stdin_queue@.len() as int,
            ) == pre.processes@[e].stdin_queue@
            &&& forall|q: int|
                pre.processes@[e].stdin_queue@.len() <= q
                    < post.processes@[e].stdin_queue@.len() ==> (
                #[trigger] post.processes@[e].stdin_queue@[q])@ == msg
        } by {
            assert(post.processes@[e] == mid.processes@[e]);
            if pre.processes@[e].stdin_open {
                assert(pre.processes@[e].agent_id@ != ids[x]@) by {
                    if pre.processes@[e].agent_id@ == ids[x]@ {
                        assert(mid.processes@[e].agent_id@ == ids[x]@);
                        assert(mid.processes@[e].stdin_open);
                        assert(spec_send_ok(pre.processes@, ids[x]@));
                    }
                }
                assert(count_id_fn(pre.processes@[e].agent_id@)(ids[x]) == 0);
            }
        }
    }
}


/// Whether two configurations agree on every field, comparing strings by
/// their characters.
pub open spec fn spec_same_config(a: ProcessConfig, b: ProcessConfig) -> bool {
    &&& a.working_directory@ == b.working_directory@
    &&& a.environment_vars@.len() == b.environment_vars@.len()
    &&& forall|t: int|
        0 <= t < a.environment_vars@.len() ==> (#[trigger] a.environment_vars@[t]).0@
            == b.environment_vars@[t].0@ && a.environment_vars@[t].1@
            == b.environment_vars@[t].1@
    &&& a.max_memory_mb == b.max_memory_mb
    &&& a.timeout_seconds == b.timeout_seconds
    &&& a.restart_on_failure == b.restart_on_failure
    &&& crate::entities::spec_same_opt_str(a.log_file, b.log_file)
}

impl ProcessManager {
    /// Whether the agent is running: a process is registered for it and the
    /// caller's non-blocking probe of that process reported it alive.
    pub fn is_running(&self, agent_id: &str, probe_alive: bool) -> (r: bool)
        ensures
            r == (spec_has_proc(self.processes@, agent_id@) && probe_alive),
    {
        self.has_process(agent_id) && probe_alive
    }

    /// A copy of the configuration the agent's process was spawned with, for
    /// a restart; nothing when no process is registered.
    pub fn config_of(&self, agent_id: &str) -> (r: Option<ProcessConfig>)
        ensures
            match r {
                Some(c) => exists|i: int|
                    0 <= i < self.processes@.len() && (#[trigger] self.processes@[i]).agent_id@
                        == agent_id@ && spec_same_config(c, self.processes@[i].config),
                None => !spec_has_proc(self.processes@, agent_id@),
            },
    {
        match self.proc_index(agent_id) {
            None => None,
            Some(i) => {
                let src = &self.processes[i].config;
                let mut env: Vec<(String, String)> = Vec::new();
                let mut t: usize = 0;
                while t < src.environment_vars.len()
                    invariant
                        t <= src.environment_vars@.len(),
                        env@.len() == t,
                        forall|q: int|
                            0 <= q < t ==> (#[trigger] env@[q]).0@
                                == src.environment_vars@[q].0@ && env@[q].1@
                                == src.environment_vars@[q].1@,
                    decreases src.environment_vars@.len() - t,
                {
                    env.push(
                        (src.environment_vars[t].0.clone(), src.environment_vars[t].1.clone()),
                    );
                    t += 1;
                }
                Some(
                    ProcessConfig {
                        working_directory: src.working_directory.clone(),
                        environment_vars: env,
                        max_memory_mb: src.max_memory_mb,
                        timeout_seconds: src.timeout_seconds,
                        restart_on_failure: src.restart_on_failure,
                        log_file: crate::strutil::clone_opt_string(&src.log_file),
                    },
                )
            },
        }
    }
}

/// The last `n` lines of a log, oldest first: what a non-following tail
/// prints. Reading the file itself happens outside this crate.
pub fn tail_lines(lines: &Vec<String>, n: usize) -> (r: Vec<String>)
    ensures
        r@ == lines@.skip(
            if lines@.len() <= n {
                0int
            } else {
                lines@.len() - n
            },
        ),
{
    let start = if lines.len() <= n {
        0
    } else {
        lines.len() - n
    };
    let mut r: Vec<String> = Vec::new();
    let mut i: usize = start;
    proof {
        assert(r@ =~= lines@.subrange(start as int, start as int));
    }
    while i < lines.len()
        invariant
            start <= i <= lines@.len(),
            r@ == lines@.subrange(start as int, i as int),
        decreases lines@.len() - i,
    {
        r.push(lines[i].clone());
        proof {
            assert(r@ =~= lines@.subrange(start as int, i as int + 1));
        }
        i += 1;
    }
    proof {
        assert(lines@.subrange(start as int, lines@.len() as int) =~= lines@.skip(start as int));
    }
    r
}

/// The position of the first entry for `id`, if any.
pub open spec fn spec_first_proc_idx(t: Seq<ProcEntry>, id: Seq<char>) -> Option<int> {
    if spec_has_proc(t, id) {
        Some(choose|i: int| 0 <= i < t.len() && t[i].agent_id@ == id)
    } else {
        None
    }
}

/// A scan hit is the chosen index when identifiers are unique up to it.
proof fn lemma_first_proc_idx_some(t: Seq<ProcEntry>, id: Seq<char>, i: int)
    requires
        0 <= i < t.len(),
        t[i].agent_id@ == id,
        forall|j: int| 0 <= j < i ==> t[j].agent_id@ != id,
        forall|j1: int, j2: int|
            0 <= j1 < t.len() && 0 <= j2 < t.len() && (#[trigger] t[j1]).agent_id@ == (
            #[trigger] t[j2]).agent_id@ ==> j1 == j2,
    ensures
        spec_first_proc_idx(t, id) == Some(i),
{
    assert(spec_has_proc(t, id));
    let c = choose|c: int| 0 <= c < t.len() && t[c].agent_id@ == id;
    assert(t[c].agent_id@ == t[i].agent_id@);
}

/// The table split by the probe report: entries whose identifier the caller
/// found dead are dropped and reported, the rest stay, order kept.
pub open spec fn spec_cleanup_split(t: Seq<ProcEntry>, e: Seq<String>) -> (
    Seq<ProcEntry>,
    Seq<Seq<char>>,
)
    decreases t.len(),
{
    if t.len() == 0 {
        (Seq::empty(), Seq::empty())
    } else {
        let (kept, dead) = spec_cleanup_split(t.drop_last(), e);
        if crate::ident::spec_contains_string(e, t.last().agent_id@) {
            (kept, dead.push(t.last().agent_id@))
        } else {
            (kept.push(t.last()), dead)
        }
    }
}

/// Extending the prefix under cleanup by one entry.
proof fn lemma_cleanup_split_take_step(t: Seq<ProcEntry>, e: Seq<String>, i: int)
    requires
        0 <= i < t.len(),
    ensures
        spec_cleanup_split(t.take(i + 1), e) == (if crate::ident::spec_contains_string(
            e,
            t[i].agent_id@,
        ) {
            (
                spec_cleanup_split(t.take(i), e).0,
                spec_cleanup_split(t.take(i), e).1.push(t[i].agent_id@),
            )
        } else {
            (
                spec_cleanup_split(t.take(i), e).0.push(t[i]),
                spec_cleanup_split(t.take(i), e).1,
            )
        }),
{
    assert(t.take(i + 1).drop_last() =~= t.take(i));
    assert(t.take(i + 1).last() == t[i]);
}

/// Every kept entry is one of the original entries.
proof fn lemma_cleanup_split_kept_member(t: Seq<ProcEntry>, e: Seq<String>, k: int)
    requires
        0 <= k < spec_cleanup_split(t, e).0.len(),
    ensures
        exists|j: int|
            0 <= j < t.len() && t[j] == spec_cleanup_split(t, e).0[k],
    decreases t.len(),
{
    if t.len() > 0 {
        let (kept0, _) = spec_cleanup_split(t.drop_last(), e);
        if crate::ident::spec_contains_string(e, t.last().agent_id@) {
            lemma_cleanup_split_kept_member(t.drop_last(), e, k);
            let j = choose|j: int|
                0 <= j < t.drop_last().len() && t.drop_last()[j] == spec_cleanup_split(
                    t.drop_last(),
                    e,
                ).0[k];
            assert(t[j] == spec_cleanup_split(t, e).0[k]);
        } else {
            if k < kept0.len() {
                lemma_cleanup_split_kept_member(t.drop_last(), e, k);
                let j = choose|j: int|
                    0 <= j < t.drop_last().len() && t.drop_last()[j] == spec_cleanup_split(
                        t.drop_last(),
                        e,
                    ).0[k];
                assert(t[j] == spec_cleanup_split(t, e).0[k]);
            } else {
                assert(t[t.len() - 1] == spec_cleanup_split(t, e).0[k]);
            }
        }
    }
}

/// No kept entry's identifier is in the probe report.
proof fn lemma_cleanup_split_kept_clean(t: Seq<ProcEntry>, e: Seq<String>, k: int)
    requires
        0 <= k < spec_cleanup_split(t, e).0.len(),
    ensures
        !crate::ident::spec_contains_string(e, spec_cleanup_split(t, e).0[k].agent_id@),
    decreases t.len(),
{
    if t.len() > 0 {
        let (kept0, _) = spec_cleanup_split(t.drop_last(), e);
        if crate::ident::spec_contains_string(e, t.last().agent_id@) {
            lemma_cleanup_split_kept_clean(t.drop_last(), e, k);
        } else {
            if k < kept0.len() {
                lemma_cleanup_split_kept_clean(t.drop_last(), e, k);
            }
        }
    }
}

/// With unique identifiers, the kept entries keep unique identifiers.
proof fn lemma_cleanup_split_kept_unique(t: Seq<ProcEntry>, e: Seq<String>)
    requires
        forall|j1: int, j2: int|
            0 <= j1 < t.len() && 0 <= j2 < t.len() && (#[trigger] t[j1]).agent_id@ == (
            #[trigger] t[j2]).agent_id@ ==> j1 == j2,
    ensures
        forall|k1: int, k2: int|
            0 <= k1 < spec_cleanup_split(t, e).0.len() && 0 <= k2 < spec_cleanup_split(
                t,
                e,
            ).0.len() && (#[trigger] spec_cleanup_split(t, e).0[k1]).agent_id@ == (
            #[trigger] spec_cleanup_split(t, e).0[k2]).agent_id@ ==> k1 == k2,
    decreases t.len(),
{
    if t.len() > 0 {
        assert(forall|j1: int, j2: int|
            0 <= j1 < t.drop_last().len() && 0 <= j2 < t.drop_last().len()
                && (#[trigger] t.drop_last()[j1]).agent_id@ == (
            #[trigger] t.drop_last()[j2]).agent_id@ ==> j1 == j2);
        lemma_cleanup_split_kept_unique(t.drop_last(), e);
        let (kept0, _) = spec_cleanup_split(t.drop_last(), e);
        if !crate::ident::spec_contains_string(e, t.last().agent_id@) {
            assert forall|k1: int, k2: int|
                0 <= k1 < spec_cleanup_split(t, e).0.len() && 0 <= k2 < spec_cleanup_split(
                    t,
                    e,
                ).0.len() && (#[trigger] spec_cleanup_split(t, e).0[k1]).agent_id@ == (
                #[trigger] spec_cleanup_split(t, e).0[k2]).agent_id@ implies k1 == k2 by {
                if k1 < kept0.len() && k2 == kept0.len() {
                    lemma_cleanup_split_kept_member(t.drop_last(), e, k1);
                    let j = choose|j: int|
                        0 <= j < t.drop_last().len() && t.drop_last()[j] == kept0[k1];
                    assert(t[j].agent_id@ == t[t.len() - 1].agent_id@);
                } else if k2 < kept0.len() && k1 == kept0.len() {
                    lemma_cleanup_split_kept_member(t.drop_last(), e, k2);
                    let j = choose|j: int|
                        0 <= j < t.drop_last().len() && t.drop_last()[j] == kept0[k2];
                    assert(t[j].agent_id@ == t[t.len() - 1].agent_id@);
                }
            }
        }
    }
}

/// Cleaning up twice in a row with the same probe report changes nothing
/// more and reports nothing the second time.
pub proof fn lemma_cleanup_dead_idempotent(t: Seq<ProcEntry>, e: Seq<String>)
    ensures
        spec_cleanup_split(spec_cleanup_split(t, e).0, e).0 == spec_cleanup_split(t, e).0,
        spec_cleanup_split(spec_cleanup_split(t, e).0, e).1 == Seq::<Seq<char>>::empty(),
{
    let kept = spec_cleanup_split(t, e).0;
    assert forall|k: int| 0 <= k < kept.len() implies !crate::ident::spec_contains_string(
        e,
        (#[trigger] kept[k]).agent_id@,
    ) by {
        lemma_cleanup_split_kept_clean(t, e, k);
    }
    lemma_cleanup_clean_noop(kept, e);
}

/// Cleaning a table none of whose identifiers are reported is a no-op.
proof fn lemma_cleanup_clean_noop(t: Seq<ProcEntry>, e: Seq<String>)
    requires
        forall|k: int|
            0 <= k < t.len() ==> !crate::ident::spec_contains_string(
                e,
                (#[trigger] t[k]).agent_id@,
            ),
    ensures
        spec_cleanup_split(t, e).0 == t,
        spec_cleanup_split(t, e).1 == Seq::<Seq<char>>::empty(),
    decreases t.len(),
{
    if t.len() == 0 {
        assert(spec_cleanup_split(t, e).0 =~= t);
    } else {
        assert(forall|k: int|
            0 <= k < t.drop_last().len() ==> !crate::ident::spec_contains_string(
                e,
                (#[trigger] t.drop_last()[k]).agent_id@,
            ));
        lemma_cleanup_clean_noop(t.drop_last(), e);
        assert(spec_cleanup_split(t, e).0 =~= t);
    }
}

/// The limit a read uses: the given one, or the default.
pub open spec fn spec_read_limit(max_lines: Option<usize>) -> int {
    match max_lines {
        Some(n) => n as int,
        None => DEFAULT_READ_LIMIT as int,
    }
}

/// What draining buffered lines does: the first `min(limit, buffered)` lines
/// come out in order and the rest stay, all else untouched. `from_stdout`
/// selects which buffer.
pub open spec fn spec_read_post(
    pre: ProcessManager,
    post: ProcessManager,
    id: Seq<char>,
    limit: int,
    r: Result<Vec<String>, OrchestratorError>,
    from_stdout: bool,
) -> bool {
    match r {
        Ok(lines) => exists|i: int|
            {
                &&& 0 <= i < pre.processes@.len()
                &&& (#[trigger] pre.processes@[i]).agent_id@ == id
                &&& post.processes@ == pre.processes@.update(i, post.processes@[i])
                &&& {
                    let buf = if from_stdout {
                        pre.processes@[i].stdout_buf@
                    } else {
                        pre.processes@[i].stderr_buf@
                    };
                    let n = if limit < buf.len() {
                        limit
                    } else {
                        buf.len() as int
                    };
                    &&& lines@ == buf.take(n)
                    &&& (if from_stdout {
                        &&& post.processes@[i] == (ProcEntry {
                            stdout_buf: post.processes@[i].stdout_buf,
                            ..pre.processes@[i]
                        })
                        &&& post.processes@[i].stdout_buf@ == buf.skip(n)
                    } else {
                        &&& post.processes@[i] == (ProcEntry {
                            stderr_buf: post.processes@[i].stderr_buf,
                            ..pre.processes@[i]
                        })
                        &&& post.processes@[i].stderr_buf@ == buf.skip(n)
                    })
                }
            },
        Err(e) => {
            &&& post == pre
            &&& !spec_has_proc(pre.processes@, id)
            &&& e matches OrchestratorError::NotFound(s) && s@ == id
        },
    }
}

} // verus!
