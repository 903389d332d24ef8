//! The life of a job: submission, waiting, start, requeueing and cancelling.

use crate::ids;
use crate::outside;
use crate::paths;
use crate::scheduler;
use crate::scheduler::{DispatchView, JobDispatchInfo};
use crate::state;
use crate::state::{CoreschedState, JobEntry, JobPriority, JobView, StateView, Timestamp};
use crate::text;
use crate::topology;
use vstd::prelude::*;

verus! {

// ---------------------------------------------------------------------------
// Requests
// ---------------------------------------------------------------------------

/// The kind of a job.
#[derive(Clone, Copy, Debug, PartialEq, Eq, Structural)]
pub enum JobKind {
    /// Whole physical cores.
    Cfd,
    /// Logical CPUs.
    Py,
}

impl JobKind {
    /// The name under which the kind is stored.
    pub open spec fn stored_name(self) -> Seq<char> {
        match self {
            JobKind::Cfd => "cfd"@,
            JobKind::Py => "py"@,
        }
    }

    /// The name under which the kind is stored.
    pub fn name(self) -> (r: &'static str)
        ensures
            r@ == self.stored_name(),
    {
        match self {
            JobKind::Cfd => "cfd",
            JobKind::Py => "py",
        }
    }

    /// The label under which the kind is shown.
    pub fn label(self) -> (r: &'static str)
        ensures
            r@ == match self {
                JobKind::Cfd => "CFD"@,
                JobKind::Py => "PY"@,
            },
    {
        match self {
            JobKind::Cfd => "CFD",
            JobKind::Py => "PY",
        }
    }

    /// What a job of this kind asks for.
    pub fn unit(self) -> (r: &'static str)
        ensures
            r@ == unit_of(self.stored_name()),
    {
        proof {
            kinds_differ();
        }
        match self {
            JobKind::Cfd => "物理核",
            JobKind::Py => "逻辑CPU",
        }
    }
}

/// What a job of the given kind asks for: physical cores or logical CPUs.
pub open spec fn unit_of(job_type: Seq<char>) -> Seq<char> {
    if job_type == "cfd"@ {
        "物理核"@
    } else {
        "逻辑CPU"@
    }
}

/// The two kinds have different names.
pub proof fn kinds_differ()
    ensures
        "cfd"@ != "py"@,
{
    reveal_strlit("cfd");
    reveal_strlit("py");
    assert("cfd"@.len() == 3);
    assert("py"@.len() == 2);
}

/// The kind and the size that the options `--cfd` and `--cpus` ask for; nothing where neither is
/// given.
pub fn job_request(cfd: Option<u8>, cpus: Option<u8>) -> (r: Option<(JobKind, u8)>)
    ensures
        r == match cfd {
            Some(n) => Some((JobKind::Cfd, n)),
            None => match cpus {
                Some(n) => Some((JobKind::Py, n)),
                None => None,
            },
        },
{
    match cfd {
        Some(n) => Some((JobKind::Cfd, n)),
        None => match cpus {
            Some(n) => Some((JobKind::Py, n)),
            None => None,
        },
    }
}

/// The greatest size that a job of the given kind and priority may ask for in a state.
pub open spec fn request_limit(
    st: StateView,
    job_type: Seq<char>,
    priority: JobPriority,
) -> nat {
    if job_type == "cfd"@ {
        scheduler::eligible_cores(st, priority).len()
    } else if job_type == "py"@ {
        scheduler::eligible_cpu_list(st, priority).len()
    } else {
        0
    }
}

/// The note on the reserved cores in a refusal.
pub open spec fn reservation_note(reserved: Seq<u8>) -> Seq<char> {
    if reserved.len() == 0 {
        Seq::empty()
    } else {
        "；Core "@ + text::join(crate::pin::decimals(reserved), ", "@) + " 已保留给优先级 2 任务"@
    }
}

/// The text of a refusal.
pub open spec fn refusal(st: StateView, job_type: Seq<char>, priority: JobPriority) -> Seq<char> {
    "coresched: "@ + priority.label() + " 优先级最多可申请 "@ + text::decimal(
        request_limit(st, job_type, priority),
    ) + " 个"@ + unit_of(job_type) + reservation_note(state::normalized(st.reserved))
}

/// Checks the size of a request against what its priority may ever use under the reservation, not
/// against what is free at the moment. This avoids admitting a job that could never be scheduled.
pub fn validate_request(
    state: &CoreschedState,
    job_type: &str,
    n: u8,
    priority: JobPriority,
) -> (r: Result<(), String>)
    ensures
        match r {
            Ok(_) => n <= request_limit(state@, job_type@, priority),
            Err(message) => n > request_limit(state@, job_type@, priority) && message@ == refusal(
                state@,
                job_type@,
                priority,
            ),
        },
{
    let cfd = text::same(job_type, "cfd");
    let maximum: usize = if cfd {
        scheduler::eligible_physical_cores(state, priority).len()
    } else if text::same(job_type, "py") {
        scheduler::eligible_cpus(state, priority).len()
    } else {
        0
    };
    if n as usize <= maximum {
        return Ok(());
    }
    proof {
        scheduler::eligible_lists_are_sound(state@, priority);
    }
    let unit = if cfd {
        "物理核"
    } else {
        "逻辑CPU"
    };
    let reserved = scheduler::reserved_physical_cores(state);
    let mut message: String = "coresched: ".to_owned();
    message.append(priority.as_str());
    message.append(" 优先级最多可申请 ");
    message.append(text::decimal_string(maximum as u64).as_str());
    message.append(" 个");
    message.append(unit);
    if reserved.len() > 0 {
        let mut note: String = "；Core ".to_owned();
        let numbers = crate::pin::decimal_strings(reserved.as_slice());
        note.append(text::join_strings(&numbers, ", ").as_str());
        note.append(" 已保留给优先级 2 任务");
        message.append(note.as_str());
    } else {
        proof {
            assert(message@ + reservation_note(reserved@) =~= message@);
        }
    }
    Err(message)
}

// ---------------------------------------------------------------------------
// Submission
// ---------------------------------------------------------------------------

/// The entry of a `run` job that waits for an allocation.
pub open spec fn waiting_run(
    jid: Seq<char>,
    kind: JobKind,
    n: u8,
    priority: JobPriority,
    pid: u32,
    now: Timestamp,
    command: Seq<Seq<char>>,
    output: Seq<char>,
) -> JobView {
    JobView {
        jid,
        job_type: kind.stored_name(),
        need: n as u64,
        pid: Some(pid),
        submit: Some(now),
        start: None,
        cmd: Some(text::join(command, " "@)),
        output: Some(output),
        cores: None,
        cpus: None,
        priority,
    }
}

/// Registers a `run` job as waiting, under the next job ID. Returns the ID and the file for the
/// job's output.
pub fn register_run(
    state: &mut CoreschedState,
    existing: &Vec<String>,
    home: &str,
    kind: JobKind,
    n: u8,
    priority: JobPriority,
    pid: u32,
    now: Timestamp,
    command: &Vec<String>,
) -> (r: (String, String))
    requires
        ids::has_room(old(state)@, text::string_views(existing@)),
    ensures
        ids::is_next_id(
            old(state)@,
            text::string_views(existing@),
            r.0@,
            final(state)@.next_jid,
        ),
        r.1@ == paths::joined(paths::jobs_dir_of(home@), r.0@ + ".out"@),
        final(state)@ == (StateView {
            pending: old(state)@.pending.insert(
                r.0@,
                waiting_run(
                    r.0@,
                    kind,
                    n,
                    priority,
                    pid,
                    now,
                    text::string_views(command@),
                    r.1@,
                ),
            ),
            next_jid: final(state)@.next_jid,
            ..old(state)@
        }),
{
    let jid = ids::next_jid(state, existing);
    let output = paths::job_output_path(home, jid.as_str());
    let entry = JobEntry {
        jid: jid.clone(),
        job_type: kind.name().to_owned(),
        need: n as u64,
        pid: Some(pid),
        submit: Some(now),
        start: None,
        cmd: Some(text::join_strings(command, " ")),
        output: Some(output.clone()),
        cores: None,
        cpus: None,
        priority,
    };
    state.pending.insert(jid.clone(), entry);
    (jid, output)
}

/// The entry of a job in the durable queue, with the stored command `cmd`.
pub open spec fn queued_job(
    jid: Seq<char>,
    kind: JobKind,
    n: u8,
    priority: JobPriority,
    now: Timestamp,
    cmd: Seq<char>,
    output: Seq<char>,
) -> JobView {
    JobView {
        jid,
        job_type: kind.stored_name(),
        need: n as u64,
        pid: None,
        submit: Some(now),
        start: None,
        cmd: Some(cmd),
        output: Some(output),
        cores: None,
        cpus: None,
        priority,
    }
}

/// Puts a job at the end of the durable queue, under the next job ID, with the stored command
/// `cmd`. Returns the ID.
pub fn enqueue_stored(
    state: &mut CoreschedState,
    existing: &Vec<String>,
    home: &str,
    kind: JobKind,
    n: u8,
    priority: JobPriority,
    now: Timestamp,
    cmd: String,
) -> (r: String)
    requires
        ids::has_room(old(state)@, text::string_views(existing@)),
    ensures
        ids::is_next_id(
            old(state)@,
            text::string_views(existing@),
            r@,
            final(state)@.next_jid,
        ),
        final(state)@ == (StateView {
            queued: old(state)@.queued.push(
                queued_job(
                    r@,
                    kind,
                    n,
                    priority,
                    now,
                    cmd@,
                    paths::joined(paths::jobs_dir_of(home@), r@ + ".out"@),
                ),
            ),
            next_jid: final(state)@.next_jid,
            ..old(state)@
        }),
{
    let jid = ids::next_jid(state, existing);
    let output = paths::job_output_path(home, jid.as_str());
    let entry = JobEntry {
        jid: jid.clone(),
        job_type: kind.name().to_owned(),
        need: n as u64,
        pid: None,
        submit: Some(now),
        start: None,
        cmd: Some(cmd),
        output: Some(output),
        cores: None,
        cpus: None,
        priority,
    };
    let ghost before = state.queued@;
    let ghost job = entry@;
    state.queued.push_back(entry);
    proof {
        assert(state::job_views(state.queued@) =~= state::job_views(before).push(job));
    }
    jid
}

/// Puts a job at the end of the durable queue, under the next job ID. The command is stored as a
/// list, so that it comes back argument by argument. Returns the ID.
pub fn enqueue(
    state: &mut CoreschedState,
    existing: &Vec<String>,
    home: &str,
    kind: JobKind,
    n: u8,
    priority: JobPriority,
    now: Timestamp,
    command: &Vec<String>,
) -> (r: String)
    requires
        ids::has_room(old(state)@, text::string_views(existing@)),
    ensures
        ids::is_next_id(
            old(state)@,
            text::string_views(existing@),
            r@,
            final(state)@.next_jid,
        ),
        final(state)@ == (StateView {
            queued: old(state)@.queued.push(
                queued_job(
                    r@,
                    kind,
                    n,
                    priority,
                    now,
                    outside::json_text(text::string_views(command@)),
                    paths::joined(paths::jobs_dir_of(home@), r@ + ".out"@),
                ),
            ),
            next_jid: final(state)@.next_jid,
            ..old(state)@
        }),
        outside::json_strings(outside::json_text(text::string_views(command@))) == Some(
            text::string_views(command@),
        ),
{
    let stored = outside::write_json_strings(command);
    let cmd = state::copy_text_or_empty(&stored);
    enqueue_stored(state, existing, home, kind, n, priority, now, cmd)
}

// ---------------------------------------------------------------------------
// Waiting and start of a `run` job
// ---------------------------------------------------------------------------

/// `jobs` with the process of one job replaced; `jobs` itself where there is no such job.
pub open spec fn with_pid(jobs: Map<Seq<char>, JobView>, jid: Seq<char>, pid: u32) -> Map<
    Seq<char>,
    JobView,
> {
    if jobs.contains_key(jid) {
        jobs.insert(jid, JobView { pid: Some(pid), ..jobs[jid] })
    } else {
        jobs
    }
}

fn set_pid(jobs: &mut crate::table::Table<JobEntry>, jid: &str, pid: u32) -> (r: bool)
    ensures
        final(jobs)@ == with_pid(old(jobs)@, jid@, pid),
        r == old(jobs)@.contains_key(jid@),
{
    match jobs.remove(jid) {
        Some(job) => {
            let mut job = job;
            job.pid = Some(pid);
            jobs.insert(jid.to_owned(), job);
            proof {
                assert(jobs@ =~= with_pid(old(jobs)@, jid@, pid));
            }
            true
        },
        None => {
            proof {
                assert(jobs@ =~= old(jobs)@);
            }
            false
        },
    }
}

/// Records the process of a waiting job. Returns whether there is such a job.
pub fn set_pending_pid(state: &mut CoreschedState, jid: &str, pid: u32) -> (r: bool)
    ensures
        final(state)@ == (StateView {
            pending: with_pid(old(state)@.pending, jid@, pid),
            ..old(state)@
        }),
        r == old(state)@.pending.contains_key(jid@),
{
    set_pid(&mut state.pending, jid, pid)
}

/// Records the process of a running job. Returns whether there is such a job.
pub fn set_running_pid(state: &mut CoreschedState, jid: &str, pid: u32) -> (r: bool)
    ensures
        final(state)@ == (StateView {
            pids: with_pid(old(state)@.pids, jid@, pid),
            ..old(state)@
        }),
        r == old(state)@.pids.contains_key(jid@),
{
    set_pid(&mut state.pids, jid, pid)
}

/// Takes a job out of the waiting ones.
pub fn withdraw(state: &mut CoreschedState, jid: &str)
    ensures
        final(state)@ == (StateView {
            pending: old(state)@.pending.remove(jid@),
            ..old(state)@
        }),
{
    let _ = state.pending.remove(jid);
}

/// Whether a `run` job may start now: no work waits at a higher level, and it lacks no units.
pub open spec fn may_start(
    st: StateView,
    jid: Seq<char>,
    kind: JobKind,
    n: u8,
    priority: JobPriority,
) -> bool {
    &&& !scheduler::higher_pending(st, priority, Some(jid))
    &&& !scheduler::higher_queued(st, priority)
    &&& scheduler::shortage(st, kind.stored_name(), n, priority) == 0
}

/// The entry of a `run` job that has been given the units `units`.
pub open spec fn running_run(
    jid: Seq<char>,
    kind: JobKind,
    n: u8,
    priority: JobPriority,
    now: Timestamp,
    command: Seq<Seq<char>>,
    output: Seq<char>,
    units: Seq<u8>,
) -> JobView {
    JobView {
        jid,
        job_type: kind.stored_name(),
        need: n as u64,
        pid: None,
        submit: None,
        start: Some(now),
        cmd: Some(text::join(command, " "@)),
        output: Some(output),
        cores: if kind == JobKind::Cfd {
            Some(units)
        } else {
            None
        },
        cpus: if kind == JobKind::Cfd {
            None
        } else {
            Some(units)
        },
        priority,
    }
}

/// `st` after a `run` job has started.
pub open spec fn run_started(
    st: StateView,
    jid: Seq<char>,
    kind: JobKind,
    n: u8,
    priority: JobPriority,
    now: Timestamp,
    command: Seq<Seq<char>>,
    output: Seq<char>,
) -> StateView {
    let units = scheduler::grant(st, kind.stored_name(), n, priority);
    let marked = scheduler::mark_grant(st, kind.stored_name(), units);
    StateView {
        pids: marked.pids.insert(
            jid,
            running_run(jid, kind, n, priority, now, command, output, units),
        ),
        pending: marked.pending.remove(jid),
        ..marked
    }
}

/// Tries to start a waiting `run` job: allocates its units and moves it to the running jobs.
/// Returns the CPUs it is bound to; nothing where it must wait on.
pub fn try_start_run(
    state: &mut CoreschedState,
    jid: &str,
    kind: JobKind,
    n: u8,
    priority: JobPriority,
    now: Timestamp,
    command: &Vec<String>,
    output: &str,
) -> (r: Option<Vec<u8>>)
    ensures
        match r {
            Some(pin) => {
                &&& may_start(old(state)@, jid@, kind, n, priority)
                &&& final(state)@ == run_started(
                    old(state)@,
                    jid@,
                    kind,
                    n,
                    priority,
                    now,
                    text::string_views(command@),
                    output@,
                )
                &&& pin@ == scheduler::pin_list(
                    kind.stored_name(),
                    scheduler::grant(old(state)@, kind.stored_name(), n, priority),
                )
            },
            None => {
                &&& !may_start(old(state)@, jid@, kind, n, priority)
                &&& final(state)@ == old(state)@
            },
        },
{
    if scheduler::has_higher_priority_waiting(state, priority, Some(jid)) {
        return None;
    }
    if scheduler::needed_for_priority(state, kind.name(), n, priority) > 0 {
        return None;
    }
    let units = scheduler::alloc_for_priority(state, kind.name(), n, priority);
    let pin = scheduler::pin_cpus_for(kind.name(), &units);
    let _ = state.pending.remove(jid);
    let (cores, cpus) = match kind {
        JobKind::Cfd => (Some(units), None),
        JobKind::Py => (None, Some(units)),
    };
    let entry = JobEntry {
        jid: jid.to_owned(),
        job_type: kind.name().to_owned(),
        need: n as u64,
        pid: None,
        submit: None,
        start: Some(now),
        cmd: Some(text::join_strings(command, " ")),
        output: Some(output.to_owned()),
        cores,
        cpus,
        priority,
    };
    state.pids.insert(jid.to_owned(), entry);
    Some(pin)
}

/// Whether a job has waited longer than its time limit; a limit of zero is none.
pub fn has_timed_out(waited_seconds: u64, timeout: u64) -> (r: bool)
    ensures
        r == (timeout > 0 && waited_seconds > timeout),
{
    timeout > 0 && waited_seconds > timeout
}

/// What a `run` job does after an attempt to start.
#[derive(Debug)]
pub enum WaitStep {
    /// It has been given these CPUs.
    Run(Vec<u8>),
    /// It has waited too long.
    GiveUp,
    /// It waits for this many seconds and tries again.
    Sleep(u64),
}

/// What a `run` job does after an attempt to start, by what the attempt gave, how long it has
/// waited and its time limit.
pub fn after_attempt(pin: Option<Vec<u8>>, waited_seconds: u64, timeout: u64) -> (r: WaitStep)
    ensures
        match pin {
            Some(cpus) => r == WaitStep::Run(cpus),
            None => if timeout > 0 && waited_seconds > timeout {
                r == WaitStep::GiveUp
            } else {
                r == WaitStep::Sleep(5)
            },
        },
{
    match pin {
        Some(cpus) => WaitStep::Run(cpus),
        None => if has_timed_out(waited_seconds, timeout) {
            WaitStep::GiveUp
        } else {
            WaitStep::Sleep(5)
        },
    }
}

/// The variables that a job finds in its environment.
pub open spec fn environment(
    jid: Seq<char>,
    pin: Seq<char>,
    n: u8,
    progress_file: Seq<char>,
) -> Seq<(Seq<char>, Seq<char>)> {
    seq![
        ("CORESCHED_JOB_ID"@, jid),
        ("CORESCHED_PIN"@, pin),
        ("CORESCHED_CPU_COUNT"@, text::decimal(n as nat)),
        ("CORESCHED_PROGRESS_FILE"@, progress_file),
    ]
}

/// The variables that a job finds in its environment.
pub fn job_environment(home: &str, jid: &str, pin: &str, n: u8) -> (r: Vec<(String, String)>)
    ensures
        r@.map_values(|e: (String, String)| (e.0@, e.1@)) == environment(
            jid@,
            pin@,
            n,
            paths::joined(paths::jobs_dir_of(home@), jid@ + ".progress.json"@),
        ),
{
    let mut r: Vec<(String, String)> = Vec::new();
    r.push(("CORESCHED_JOB_ID".to_owned(), jid.to_owned()));
    r.push(("CORESCHED_PIN".to_owned(), pin.to_owned()));
    r.push(("CORESCHED_CPU_COUNT".to_owned(), text::decimal_string(n as u64)));
    r.push(("CORESCHED_PROGRESS_FILE".to_owned(), paths::job_progress_path(home, jid)));
    proof {
        assert(r@.map_values(|e: (String, String)| (e.0@, e.1@)) =~= environment(
            jid@,
            pin@,
            n,
            paths::joined(paths::jobs_dir_of(home@), jid@ + ".progress.json"@),
        ));
    }
    r
}

// ---------------------------------------------------------------------------
// Requeueing
// ---------------------------------------------------------------------------

/// The queue entry of a dispatched job that could not be started.
pub open spec fn requeued_job(info: DispatchView) -> JobView {
    JobView {
        jid: info.jid,
        job_type: info.job_type,
        need: info.need as u64,
        pid: None,
        submit: info.submit,
        start: None,
        cmd: Some(info.cmd),
        output: Some(info.output),
        cores: None,
        cpus: None,
        priority: info.priority,
    }
}

/// `st` after a dispatched job that could not be started has gone back: what it held is free and
/// it stands at the front of the queue.
pub open spec fn requeued(st: StateView, info: DispatchView) -> StateView {
    let freed = scheduler::released(st, info.jid);
    StateView { queued: seq![requeued_job(info)] + freed.queued, ..freed }
}

/// Puts a dispatched job that could not be started back to the front of the queue.
pub fn requeue(state: &mut CoreschedState, info: JobDispatchInfo)
    ensures
        final(state)@ == requeued(old(state)@, info@),
{
    scheduler::free_job(state, info.jid.as_str());
    let entry = JobEntry {
        jid: info.jid,
        job_type: info.job_type,
        need: info.need as u64,
        pid: None,
        submit: info.submit,
        start: None,
        cmd: Some(info.cmd),
        output: Some(info.output),
        cores: None,
        cpus: None,
        priority: info.priority,
    };
    let ghost before = state.queued@;
    let ghost job = entry@;
    state.queued.push_front(entry);
    proof {
        assert(state::job_views(state.queued@) =~= seq![job] + state::job_views(before));
    }
}

// ---------------------------------------------------------------------------
// Cancelling and waiting for a job
// ---------------------------------------------------------------------------

/// Whether the `i`-th queued job is the first one with the given ID.
pub open spec fn first_queued(queued: Seq<JobView>, jid: Seq<char>, i: int) -> bool {
    &&& 0 <= i < queued.len()
    &&& queued[i].jid == jid
    &&& forall|j: int| 0 <= j < i ==> (#[trigger] queued[j]).jid != jid
}

/// Takes a job out of the queue. Returns whether it was there.
pub fn cancel_queued(state: &mut CoreschedState, jid: &str) -> (r: bool)
    ensures
        r ==> exists|i: int| #[trigger]
            first_queued(old(state)@.queued, jid@, i) && final(state)@ == (StateView {
                queued: old(state)@.queued.remove(i),
                ..old(state)@
            }),
        !r ==> final(state)@ == old(state)@ && forall|i: int|
            0 <= i < old(state)@.queued.len() ==> (#[trigger] old(state)@.queued[i]).jid != jid@,
{
    let ghost st = state@;
    let ghost queue = state.queued@;
    match ids::queue_position(&state.queued, jid) {
        Some(i) => {
            proof {
                assert(st.queued[i as int] == queue[i as int]@);
                assert forall|j: int| 0 <= j < i implies (#[trigger] st.queued[j]).jid != jid@ by {
                    assert(queue[j].jid@ != jid@);
                }
                assert(first_queued(st.queued, jid@, i as int));
            }
            let _ = state.queued.remove(i);
            proof {
                assert(state::job_views(state.queued@) =~= st.queued.remove(i as int));
            }
            true
        },
        None => {
            proof {
                assert forall|j: int| 0 <= j < st.queued.len() implies (#[trigger] st.queued[j]).jid
                    != jid@ by {
                    assert(queue[j].jid@ != jid@);
                }
            }
            false
        },
    }
}

/// The process to signal when a job is cancelled: that of the running job, or of the waiting one
/// where it does not run. Process number zero is none.
pub open spec fn cancel_target(st: StateView, jid: Seq<char>) -> Option<u32> {
    let pid = if st.pids.contains_key(jid) {
        st.pids[jid].pid
    } else if st.pending.contains_key(jid) {
        st.pending[jid].pid
    } else {
        None
    };
    match pid {
        Some(p) if p > 0 => Some(p),
        _ => None,
    }
}

/// The process to signal when a job is cancelled.
pub fn process_to_cancel(state: &CoreschedState, jid: &str) -> (r: Option<u32>)
    ensures
        r == cancel_target(state@, jid@),
{
    let pid = match state.pids.get(jid) {
        Some(job) => job.pid,
        None => match state.pending.get(jid) {
            Some(job) => job.pid,
            None => None,
        },
    };
    match pid {
        Some(p) => if p > 0 {
            Some(p)
        } else {
            None
        },
        None => None,
    }
}

/// Clears a job that has no process: frees what it holds and takes it out. Returns whether there
/// was such a job.
pub fn clear_orphan(state: &mut CoreschedState, jid: &str) -> (r: bool)
    ensures
        r == (old(state)@.pids.contains_key(jid@) || old(state)@.pending.contains_key(jid@)),
        final(state)@ == if r {
            StateView {
                pending: old(state)@.pending.remove(jid@),
                ..scheduler::released(old(state)@, jid@)
            }
        } else {
            old(state)@
        },
{
    if state.pids.contains_key(jid) || state.pending.contains_key(jid) {
        scheduler::free_job(state, jid);
        let _ = state.pending.remove(jid);
        true
    } else {
        false
    }
}

/// The process to wait for: that of the running job, else that of the waiting one.
pub open spec fn wait_target(st: StateView, jid: Seq<char>) -> Option<u32> {
    if st.pids.contains_key(jid) && st.pids[jid].pid is Some {
        st.pids[jid].pid
    } else if st.pending.contains_key(jid) {
        st.pending[jid].pid
    } else {
        None
    }
}

/// The process to wait for until a job has ended.
pub fn process_to_wait_for(state: &CoreschedState, jid: &str) -> (r: Option<u32>)
    ensures
        r == wait_target(state@, jid@),
{
    let running = match state.pids.get(jid) {
        Some(job) => job.pid,
        None => None,
    };
    match running {
        Some(pid) => Some(pid),
        None => match state.pending.get(jid) {
            Some(job) => job.pid,
            None => None,
        },
    }
}

/// What cancelling a job comes to.
#[derive(Clone, Copy, Debug, PartialEq, Eq, Structural)]
pub enum Cancellation {
    /// The job was queued and is out of the queue.
    Removed,
    /// The job has this process, which is to be signalled.
    Signal(u32),
    /// The job had no process; what it held is free and it is out.
    Cleared,
    /// There is no such job.
    Unknown,
}

/// Whether a job is in the queue.
pub open spec fn is_queued(st: StateView, jid: Seq<char>) -> bool {
    exists|i: int| #[trigger] first_queued(st.queued, jid, i)
}

/// Cancels a job: takes it out of the queue, or tells which process is to be signalled, or clears
/// a job that has none.
pub fn cancel(state: &mut CoreschedState, jid: &str) -> (r: Cancellation)
    ensures
        r == if is_queued(old(state)@, jid@) {
            Cancellation::Removed
        } else if cancel_target(old(state)@, jid@) is Some {
            Cancellation::Signal(cancel_target(old(state)@, jid@)->0)
        } else if old(state)@.pids.contains_key(jid@) || old(state)@.pending.contains_key(jid@) {
            Cancellation::Cleared
        } else {
            Cancellation::Unknown
        },
        match r {
            Cancellation::Removed => exists|i: int| #[trigger]
                first_queued(old(state)@.queued, jid@, i) && final(state)@ == (StateView {
                    queued: old(state)@.queued.remove(i),
                    ..old(state)@
                }),
            Cancellation::Cleared => final(state)@ == (StateView {
                pending: old(state)@.pending.remove(jid@),
                ..scheduler::released(old(state)@, jid@)
            }),
            _ => final(state)@ == old(state)@,
        },
{
    if cancel_queued(state, jid) {
        return Cancellation::Removed;
    }
    proof {
        assert forall|i: int| !first_queued(state@.queued, jid@, i) by {}
    }
    match process_to_cancel(state, jid) {
        Some(pid) => Cancellation::Signal(pid),
        None => if clear_orphan(state, jid) {
            Cancellation::Cleared
        } else {
            Cancellation::Unknown
        },
    }
}

/// What to tell of a cancellation.
pub open spec fn cancellation_text(outcome: Cancellation, jid: Seq<char>) -> Seq<char> {
    match outcome {
        Cancellation::Removed => "已从队列移除 "@ + jid,
        Cancellation::Signal(pid) => "已取消 "@ + jid + " (pid="@ + text::decimal(pid as nat)
            + ")"@,
        Cancellation::Cleared => "已清除孤儿作业 "@ + jid,
        Cancellation::Unknown => "未找到 "@ + jid,
    }
}

/// What to tell of a cancellation.
pub fn cancellation_message(outcome: Cancellation, jid: &str) -> (r: String)
    ensures
        r@ == cancellation_text(outcome, jid@),
{
    let mut r: String = match outcome {
        Cancellation::Removed => "已从队列移除 ",
        Cancellation::Signal(_) => "已取消 ",
        Cancellation::Cleared => "已清除孤儿作业 ",
        Cancellation::Unknown => "未找到 ",
    }.to_owned();
    r.append(jid);
    if let Cancellation::Signal(pid) = outcome {
        r.append(" (pid=");
        r.append(text::decimal_string(pid as u64).as_str());
        r.append(")");
    }
    r
}

/// The IDs of all jobs: those that run, those that wait, and those in the queue.
pub open spec fn all_jobs(
    running: Seq<Seq<char>>,
    waiting: Seq<Seq<char>>,
    queued: Seq<JobView>,
) -> Seq<Seq<char>> {
    running + waiting + queued.map_values(|j: JobView| j.jid)
}

fn push_keys(list: &mut Vec<String>, jobs: &crate::table::Table<JobEntry>)
    ensures
        text::string_views(final(list)@) == text::string_views(old(list)@) + jobs.keys(),
{
    let n: usize = jobs.len();
    let mut i: usize = 0;
    let ghost before = text::string_views(list@);
    while i < n
        invariant
            i <= n,
            n == jobs.keys().len(),
            text::string_views(list@) =~= before + jobs.keys().take(i as int),
        decreases n - i,
    {
        let ghost longer = text::string_views(list@);
        let jid = jobs.key_at(i).clone();
        list.push(jid);
        proof {
            assert(text::string_views(list@) =~= longer.push(jid@));
        }
        i += 1;
    }
    proof {
        assert(jobs.keys().take(n as int) =~= jobs.keys());
    }
}

/// The IDs of all jobs, for a cancellation of all.
pub fn all_jids(state: &CoreschedState) -> (r: Vec<String>)
    ensures
        text::string_views(r@) == all_jobs(
            state.pids.keys(),
            state.pending.keys(),
            state@.queued,
        ),
{
    let mut r: Vec<String> = Vec::new();
    push_keys(&mut r, &state.pids);
    push_keys(&mut r, &state.pending);
    let ghost before = text::string_views(r@);
    let ghost queued = state@.queued.map_values(|j: JobView| j.jid);
    proof {
        assert(before =~= state.pids.keys() + state.pending.keys());
    }
    let mut i: usize = 0;
    while i < state.queued.len()
        invariant
            i <= state.queued@.len(),
            queued == state@.queued.map_values(|j: JobView| j.jid),
            text::string_views(r@) =~= before + queued.take(i as int),
        decreases state.queued@.len() - i,
    {
        let ghost longer = text::string_views(r@);
        let jid = state.queued[i].jid.clone();
        r.push(jid);
        proof {
            assert(text::string_views(r@) =~= longer.push(jid@));
            assert(queued[i as int] == jid@);
        }
        i += 1;
    }
    proof {
        assert(queued.take(queued.len() as int) =~= queued);
    }
    r
}

// ---------------------------------------------------------------------------
// Output
// ---------------------------------------------------------------------------

/// How many lines of a job's output are shown.
pub open spec fn tail_length() -> nat {
    40
}

/// The last lines of a list of lines.
pub open spec fn last_lines(lines: Seq<Seq<char>>) -> Seq<Seq<char>> {
    if lines.len() > tail_length() {
        lines.skip(lines.len() - tail_length())
    } else {
        lines
    }
}

/// What is shown of a job's output: its last lines, and an empty line where the output does not
/// end with a line ending.
pub open spec fn shown_output(content: Seq<char>) -> Seq<Seq<char>> {
    let shown = last_lines(text::lines(content));
    if content.len() > 0 && content.last() == '\n' {
        shown
    } else {
        shown.push(Seq::empty())
    }
}

/// What is shown of a job's output.
pub fn tail_lines(content: &str) -> (r: Vec<String>)
    ensures
        text::string_views(r@) == shown_output(content@),
{
    let chars = text::to_chars(content);
    let lines = text::line_list(&chars);
    let from: usize = if lines.len() > 40 {
        lines.len() - 40
    } else {
        0
    };
    let ghost all = text::lines(content@);
    let ghost shown = last_lines(all);
    let mut r: Vec<String> = Vec::new();
    let mut i: usize = from;
    proof {
        assert(shown =~= all.skip(from as int));
    }
    while i < lines.len()
        invariant
            from <= i <= lines@.len(),
            all == text::views(lines@),
            shown == all.skip(from as int),
            text::string_views(r@) =~= shown.take(i - from),
        decreases lines.len() - i,
    {
        let ghost before = text::string_views(r@);
        let line = text::from_chars(&lines[i]);
        r.push(line);
        proof {
            assert(text::string_views(r@) =~= before.push(line@));
            assert(shown[i - from] == line@);
        }
        i += 1;
    }
    proof {
        assert(shown.take(shown.len() as int) =~= shown);
    }
    if !(chars.len() > 0 && chars[chars.len() - 1] == '\n') {
        r.push(String::new());
        proof {
            assert(text::string_views(r@) =~= shown.push(Seq::empty()));
        }
    }
    r
}

// ---------------------------------------------------------------------------
// Reservation
// ---------------------------------------------------------------------------

/// Whether a list of cores can be reserved: there are some, and they exist.
pub open spec fn can_reserve(cores: Seq<u8>) -> bool {
    cores.len() > 0 && forall|i: int|
        0 <= i < cores.len() ==> #[trigger] cores[i] < topology::core_count()
}

/// Checks a list of cores to reserve. Repetitions are dropped.
pub fn check_reservation(cores: &Vec<u8>) -> (r: Result<Vec<u8>, String>)
    ensures
        match r {
            Ok(requested) => can_reserve(cores@) && requested@ == state::normalized(cores@)
                && forall|i: int|
                0 <= i < requested@.len() ==> #[trigger] requested@[i] < topology::core_count(),
            Err(message) => !can_reserve(cores@) && message@ == "coresched: 物理核必须在 0-"@
                + text::decimal((topology::core_count() - 1) as nat) + " 范围内"@,
        },
{
    let mut valid = cores.len() > 0;
    let mut i: usize = 0;
    while i < cores.len()
        invariant
            i <= cores@.len(),
            valid == (cores@.len() > 0 && forall|j: int|
                0 <= j < i ==> #[trigger] cores@[j] < topology::core_count()),
        decreases cores.len() - i,
    {
        if topology::logical_cpus(cores[i]).is_none() {
            valid = false;
        }
        i += 1;
    }
    if valid {
        let requested = state::normalize_reserved_physical_cores(cores);
        proof {
            state::normalized_cores(cores@);
            assert forall|j: int| 0 <= j < requested@.len() implies #[trigger] requested@[j]
                < topology::core_count() by {
                assert(requested@.contains(requested@[j]));
            }
        }
        Ok(requested)
    } else {
        let mut message: String = "coresched: 物理核必须在 0-".to_owned();
        let last: usize = topology::num_physical_cores() - 1;
        message.append(text::decimal_string(last as u64).as_str());
        message.append(" 范围内");
        Err(message)
    }
}

/// Sets the reservation; an empty list clears it. Returns the one before. Running jobs are not
/// touched.
pub fn reserve(state: &mut CoreschedState, cores: Vec<u8>) -> (r: Vec<u8>)
    ensures
        r@ == state::normalized(old(state)@.reserved),
        final(state)@ == (StateView {
            reserved: state::normalized(cores@),
            ..old(state)@
        }),
{
    let previous = state.reserved_cores();
    state.set_reserved_cores(cores);
    previous
}

/// A core with its two CPUs, in words.
pub open spec fn core_text(core: u8) -> Seq<char> {
    let (a, b) = topology::core_cpus(core)->0;
    "Core "@ + text::decimal(core as nat) + " ("@ + text::decimal(a as nat) + ","@ + text::decimal(
        b as nat,
    ) + ")"@
}

/// Cores with their CPUs, in words.
pub open spec fn cores_text(cores: Seq<u8>) -> Seq<char> {
    text::join(cores.map_values(|c: u8| core_text(c)), "；"@)
}

/// Cores with their CPUs, in words.
pub fn describe_cores(cores: &Vec<u8>) -> (r: String)
    requires
        forall|i: int| 0 <= i < cores@.len() ==> #[trigger] cores@[i] < topology::core_count(),
    ensures
        r@ == cores_text(cores@),
{
    let mut parts: Vec<String> = Vec::new();
    let ghost texts = cores@.map_values(|c: u8| core_text(c));
    let mut i: usize = 0;
    while i < cores.len()
        invariant
            i <= cores@.len(),
            texts == cores@.map_values(|c: u8| core_text(c)),
            forall|j: int| 0 <= j < cores@.len() ==> #[trigger] cores@[j] < topology::core_count(),
            text::string_views(parts@) =~= texts.take(i as int),
        decreases cores.len() - i,
    {
        let ghost before = text::string_views(parts@);
        let core: u8 = cores[i];
        if let Some((a, b)) = topology::logical_cpus(core) {
            let mut part: String = "Core ".to_owned();
            part.append(text::decimal_string(core as u64).as_str());
            part.append(" (");
            part.append(text::decimal_string(a as u64).as_str());
            part.append(",");
            part.append(text::decimal_string(b as u64).as_str());
            part.append(")");
            parts.push(part);
            proof {
                assert(text::string_views(parts@) =~= before.push(part@));
                assert(texts[i as int] == part@);
            }
        }
        i += 1;
    }
    proof {
        assert(texts.take(texts.len() as int) =~= texts);
    }
    text::join_strings(&parts, "；")
}

/// What to tell of a reservation that was cleared.
pub open spec fn cleared_text(previous: Seq<u8>) -> Seq<char> {
    if previous.len() > 0 {
        "已取消 Core "@ + text::join(crate::pin::decimals(previous), ", "@) + " 的优先级 2 保留"@
    } else {
        "当前没有优先级 2 保留核"@
    }
}

/// What to tell of a reservation that was cleared.
pub fn cleared_message(previous: &Vec<u8>) -> (r: String)
    ensures
        r@ == cleared_text(previous@),
{
    if previous.len() > 0 {
        let mut r: String = "已取消 Core ".to_owned();
        let numbers = crate::pin::decimal_strings(previous.as_slice());
        r.append(text::join_strings(&numbers, ", ").as_str());
        r.append(" 的优先级 2 保留");
        r
    } else {
        "当前没有优先级 2 保留核".to_owned()
    }
}

/// What to tell of a reservation that was set.
pub open spec fn reserved_text(previous: Seq<u8>, requested: Seq<u8>) -> Seq<Seq<char>> {
    if previous == requested {
        seq![cores_text(requested) + " 已保持为优先级 2 专用"@]
    } else {
        seq![
            cores_text(requested) + " 已保留，仅优先级 2 任务可新分配使用"@,
            "现有运行作业的绑定不变；该策略会在后续分配时生效。"@,
        ]
    }
}

fn same_numbers(a: &Vec<u8>, b: &Vec<u8>) -> (r: bool)
    ensures
        r == (a@ == b@),
{
    if a.len() != b.len() {
        return false;
    }
    let mut i: usize = 0;
    while i < a.len()
        invariant
            i <= a@.len(),
            a@.len() == b@.len(),
            forall|j: int| 0 <= j < i ==> a@[j] == b@[j],
        decreases a.len() - i,
    {
        if a[i] != b[i] {
            return false;
        }
        i += 1;
    }
    proof {
        assert(a@ =~= b@);
    }
    true
}

/// What to tell of a reservation that was set.
pub fn reserved_message(previous: &Vec<u8>, requested: &Vec<u8>) -> (r: Vec<String>)
    requires
        forall|i: int|
            0 <= i < requested@.len() ==> #[trigger] requested@[i] < topology::core_count(),
    ensures
        text::string_views(r@) == reserved_text(previous@, requested@),
{
    let mut first = describe_cores(requested);
    let mut r: Vec<String> = Vec::new();
    if same_numbers(previous, requested) {
        first.append(" 已保持为优先级 2 专用");
        r.push(first);
        proof {
            assert(text::string_views(r@) =~= reserved_text(previous@, requested@));
        }
    } else {
        first.append(" 已保留，仅优先级 2 任务可新分配使用");
        r.push(first);
        r.push("现有运行作业的绑定不变；该策略会在后续分配时生效。".to_owned());
        proof {
            assert(text::string_views(r@) =~= reserved_text(previous@, requested@));
        }
    }
    r
}

} // verus!
