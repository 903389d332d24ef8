//! What becomes of requests: submitting, cancelling and waiting for jobs, their output, and the
//! reservation.

use crate::ids;
use crate::jobs;
use crate::jobs::{Cancellation, JobKind};
use crate::laws::scheduling;
use crate::laws::showing;
use crate::outside::Liveness;
use crate::paths;
use crate::pin;
use crate::scheduler;
use crate::scheduler::DispatchView;
use crate::soundness;
use crate::state;
use crate::state::{JobPriority, JobView, ReservedCoresError, ReservedValue, StateView, Timestamp};
use crate::text;
use crate::topology;
use vstd::prelude::*;

verus! {

// ---------------------------------------------------------------------------
// Requests
// ---------------------------------------------------------------------------

/// A request is limited by what its priority could ever be given: whatever different units the
/// priority may use, they are no more than the limit, and as many as the limit says there are. A
/// job of an unknown kind may ask for nothing.
pub proof fn limit_is_what_could_ever_be_given(
    st: StateView,
    job_type: Seq<char>,
    priority: JobPriority,
    units: Seq<u8>,
) -> (most: Seq<u8>)
    requires
        units.no_duplicates(),
        job_type == "cfd"@ ==> forall|u: u8| #[trigger]
            units.contains(u) ==> scheduler::eligible_cores(st, priority).contains(u),
        job_type == "py"@ ==> forall|u: u8| #[trigger]
            units.contains(u) ==> scheduler::eligible_cpu_list(st, priority).contains(u),
    ensures
        job_type == "cfd"@ || job_type == "py"@ ==> units.len() <= jobs::request_limit(
            st,
            job_type,
            priority,
        ),
        most.no_duplicates(),
        most.len() == jobs::request_limit(st, job_type, priority),
        job_type == "cfd"@ ==> forall|u: u8| #[trigger]
            most.contains(u) ==> scheduler::eligible_cores(st, priority).contains(u),
        job_type == "py"@ ==> forall|u: u8| #[trigger]
            most.contains(u) ==> scheduler::eligible_cpu_list(st, priority).contains(u),
        job_type != "cfd"@ && job_type != "py"@ ==> most.len() == 0,
{
    jobs::kinds_differ();
    scheduler::eligible_lists_are_sound(st, priority);
    if job_type == "cfd"@ {
        scheduling::distinct_members_are_no_more(units, scheduler::eligible_cores(st, priority));
        scheduler::eligible_cores(st, priority)
    } else if job_type == "py"@ {
        scheduling::distinct_members_are_no_more(units, scheduler::eligible_cpu_list(st, priority));
        scheduler::eligible_cpu_list(st, priority)
    } else {
        Seq::empty()
    }
}

/// A refusal tells the priority, the limit and its unit, and every reserved core.
pub proof fn refusal_tells_the_limit(
    st: StateView,
    job_type: Seq<char>,
    priority: JobPriority,
    core: u8,
)
    ensures
        ({
            let told = jobs::refusal(st, job_type, priority);
            &&& showing::shows(told, priority.label())
            &&& showing::shows(told, text::decimal(jobs::request_limit(st, job_type, priority)))
            &&& job_type == "cfd"@ ==> showing::shows(told, "物理核"@)
            &&& job_type == "py"@ ==> showing::shows(told, "逻辑CPU"@)
            &&& state::normalized(st.reserved).contains(core) ==> showing::shows(
                told,
                text::decimal(core as nat),
            )
        }),
{
    broadcast use showing::shows_in_front, showing::shows_behind;

    jobs::kinds_differ();
    let reserved = state::normalized(st.reserved);
    showing::shows_itself(priority.label());
    showing::shows_itself(text::decimal(jobs::request_limit(st, job_type, priority)));
    showing::shows_itself("物理核"@);
    showing::shows_itself("逻辑CPU"@);
    if reserved.contains(core) {
        numbers_are_shown(reserved, ", "@, core);
        assert(showing::shows(jobs::reservation_note(reserved), text::decimal(core as nat)));
    }
}

/// A list of parts with something between them shows each part.
pub proof fn joined_list_shows_each_part(parts: Seq<Seq<char>>, sep: Seq<char>, i: int)
    requires
        0 <= i < parts.len(),
    ensures
        showing::shows(text::join(parts, sep), parts[i]),
    decreases parts.len(),
{
    broadcast use showing::shows_in_front, showing::shows_behind;

    showing::shows_itself(parts[i]);
    if parts.len() > 1 && i < parts.len() - 1 {
        assert(parts.drop_last()[i] == parts[i]);
        joined_list_shows_each_part(parts.drop_last(), sep, i);
    }
}

proof fn numbers_are_shown(list: Seq<u8>, sep: Seq<char>, n: u8)
    requires
        list.contains(n),
    ensures
        showing::shows(text::join(pin::decimals(list), sep), text::decimal(n as nat)),
{
    let i = list.index_of(n);
    assert(pin::decimals(list)[i] == text::decimal(n as nat));
    joined_list_shows_each_part(pin::decimals(list), sep, i);
}

// ---------------------------------------------------------------------------
// Submission
// ---------------------------------------------------------------------------

/// A job is entered with what was asked for: a waiting `run` job with its process, a queued job
/// with its stored command. Neither holds anything or has started.
pub proof fn submitted_job_is_what_was_asked_for(
    jid: Seq<char>,
    kind: JobKind,
    n: u8,
    priority: JobPriority,
    pid: u32,
    now: Timestamp,
    command: Seq<Seq<char>>,
    cmd: Seq<char>,
    output: Seq<char>,
    word: int,
)
    ensures
        ({
            let waiting = jobs::waiting_run(jid, kind, n, priority, pid, now, command, output);
            let queued = jobs::queued_job(jid, kind, n, priority, now, cmd, output);
            &&& waiting.jid == jid && queued.jid == jid
            &&& waiting.need == n && queued.need == n
            &&& waiting.priority == priority && queued.priority == priority
            &&& waiting.submit == Some(now) && queued.submit == Some(now)
            &&& waiting.output == Some(output) && queued.output == Some(output)
            &&& waiting.pid == Some(pid) && queued.pid is None
            &&& queued.cmd == Some(cmd)
            &&& waiting.cmd is Some
            &&& 0 <= word < command.len() ==> showing::shows(waiting.cmd->0, command[word])
            &&& command.len() == 1 ==> waiting.cmd == Some(command[0])
            &&& waiting.job_type == "cfd"@ <==> kind == JobKind::Cfd
            &&& waiting.job_type == "py"@ <==> kind == JobKind::Py
            &&& queued.job_type == waiting.job_type
            &&& waiting.start is None && waiting.cores is None && waiting.cpus is None
            &&& queued.start is None && queued.cores is None && queued.cpus is None
        }),
{
    jobs::kinds_differ();
    if 0 <= word < command.len() {
        joined_list_shows_each_part(command, " "@, word);
    }
}

/// A running `run` job shows every word of its command.
pub proof fn started_run_keeps_its_command(
    jid: Seq<char>,
    kind: JobKind,
    n: u8,
    priority: JobPriority,
    pid: u32,
    now: Timestamp,
    later: Timestamp,
    command: Seq<Seq<char>>,
    output: Seq<char>,
    units: Seq<u8>,
)
    ensures
        jobs::running_run(jid, kind, n, priority, later, command, output, units).cmd
            == jobs::waiting_run(jid, kind, n, priority, pid, now, command, output).cmd,
        jobs::running_run(jid, kind, n, priority, later, command, output, units).output
            == jobs::waiting_run(jid, kind, n, priority, pid, now, command, output).output,
        jobs::running_run(jid, kind, n, priority, later, command, output, units).need
            == jobs::waiting_run(jid, kind, n, priority, pid, now, command, output).need,
{
}

/// Recording a process changes the process of that job and nothing else.
pub proof fn recorded_process_is_the_jobs(
    jobs_by_id: Map<Seq<char>, JobView>,
    jid: Seq<char>,
    pid: u32,
    other: Seq<char>,
)
    ensures
        ({
            let after = jobs::with_pid(jobs_by_id, jid, pid);
            &&& after.contains_key(other) == jobs_by_id.contains_key(other)
            &&& other != jid ==> after[other] == jobs_by_id[other]
            &&& jobs_by_id.contains_key(jid) ==> after[jid].pid == Some(pid) && after[jid] == (
            JobView { pid: after[jid].pid, ..jobs_by_id[jid] })
        }),
{
}

/// A job finds its ID, its CPUs, how many units it asked for and the file for its progress, each
/// once and under a name of its own.
pub proof fn environment_tells_the_job(
    jid: Seq<char>,
    pin: Seq<char>,
    n: u8,
    progress_file: Seq<char>,
    name: Seq<char>,
    value: Seq<char>,
)
    ensures
        jobs::environment(jid, pin, n, progress_file).contains((name, value)) <==> {
            ||| name == "CORESCHED_JOB_ID"@ && value == jid
            ||| name == "CORESCHED_PIN"@ && value == pin
            ||| name == "CORESCHED_CPU_COUNT"@ && value == text::decimal(n as nat)
            ||| name == "CORESCHED_PROGRESS_FILE"@ && value == progress_file
        },
        jobs::environment(jid, pin, n, progress_file).len() == 4,
{
    let all = jobs::environment(jid, pin, n, progress_file);
    assert(all[0] == ("CORESCHED_JOB_ID"@, jid));
    assert(all[1] == ("CORESCHED_PIN"@, pin));
    assert(all[2] == ("CORESCHED_CPU_COUNT"@, text::decimal(n as nat)));
    assert(all[3] == ("CORESCHED_PROGRESS_FILE"@, progress_file));
}

/// A dispatched job that goes back stands in front of the queue as it was told, with nothing held
/// and nothing started; all others stay in their order behind it.
pub proof fn requeued_job_goes_to_the_front(st: StateView, info: DispatchView, other: Seq<char>)
    ensures
        ({
            let after = jobs::requeued(st, info);
            let back = after.queued[0];
            &&& after.queued.len() == st.queued.len() + 1
            &&& after.queued.drop_first() == st.queued
            &&& back.jid == info.jid
            &&& back.job_type == info.job_type
            &&& back.need == info.need
            &&& back.priority == info.priority
            &&& back.submit == info.submit
            &&& back.cmd == Some(info.cmd)
            &&& back.output == Some(info.output)
            &&& back.pid is None && back.start is None && back.cores is None && back.cpus is None
            &&& !after.pids.contains_key(info.jid)
            &&& other != info.jid ==> after.pids.contains_key(other) == st.pids.contains_key(other)
                && after.pids[other] == st.pids[other]
            &&& after.pending == st.pending
            &&& after.reserved == st.reserved
            &&& after.next_jid == st.next_jid
        }),
{
    let after = jobs::requeued(st, info);
    assert(after.queued.drop_first() =~= st.queued);
}

// ---------------------------------------------------------------------------
// Cancelling and waiting
// ---------------------------------------------------------------------------

/// The process that is signalled for a cancelled job is that of the job as it runs, or as it waits
/// where it does not run; number zero is no process.
pub proof fn cancelled_process_is_the_jobs(st: StateView, jid: Seq<char>, pid: u32)
    ensures
        jobs::cancel_target(st, jid) == Some(pid) <==> pid > 0 && ((st.pids.contains_key(jid)
            && st.pids[jid].pid == Some(pid)) || (!st.pids.contains_key(jid)
            && st.pending.contains_key(jid) && st.pending[jid].pid == Some(pid))),
{
}

/// The process that is waited for is that of the job as it runs, or as it waits where no process is
/// known of its run.
pub proof fn awaited_process_is_the_jobs(st: StateView, jid: Seq<char>, pid: u32)
    ensures
        jobs::wait_target(st, jid) == Some(pid) <==> (st.pids.contains_key(jid)
            && st.pids[jid].pid == Some(pid)) || (!(st.pids.contains_key(jid)
            && st.pids[jid].pid is Some) && st.pending.contains_key(jid) && st.pending[jid].pid
            == Some(pid)),
{
}

/// A job counts as queued exactly where the queue holds one with its ID.
pub proof fn queued_means_in_the_queue(st: StateView, jid: Seq<char>)
    ensures
        jobs::is_queued(st, jid) <==> exists|i: int|
            0 <= i < st.queued.len() && (#[trigger] st.queued[i]).jid == jid,
{
    if exists|i: int| 0 <= i < st.queued.len() && (#[trigger] st.queued[i]).jid == jid {
        let i = choose|i: int| 0 <= i < st.queued.len() && (#[trigger] st.queued[i]).jid == jid;
        let first = first_with_id(st.queued, jid, i);
        assert(jobs::first_queued(st.queued, jid, first));
    }
    if jobs::is_queued(st, jid) {
        let i = choose|i: int| #[trigger] jobs::first_queued(st.queued, jid, i);
        assert(st.queued[i].jid == jid);
    }
}

proof fn first_with_id(queued: Seq<JobView>, jid: Seq<char>, i: int) -> (first: int)
    requires
        0 <= i < queued.len(),
        queued[i].jid == jid,
    ensures
        0 <= first <= i,
        queued[first].jid == jid,
        forall|j: int| 0 <= j < first ==> (#[trigger] queued[j]).jid != jid,
    decreases i,
{
    if exists|j: int| 0 <= j < i && (#[trigger] queued[j]).jid == jid {
        let j = choose|j: int| 0 <= j < i && (#[trigger] queued[j]).jid == jid;
        first_with_id(queued, jid, j)
    } else {
        i
    }
}

/// Every outcome of a cancellation is told with the job's ID, a signalled process with its number,
/// and different outcomes in different words.
pub proof fn cancellation_is_told(a: Cancellation, b: Cancellation, jid: Seq<char>)
    ensures
        showing::shows(jobs::cancellation_text(a, jid), jid),
        a matches Cancellation::Signal(pid) ==> showing::shows(
            jobs::cancellation_text(a, jid),
            text::decimal(pid as nat),
        ),
        jobs::cancellation_text(a, jid) == jobs::cancellation_text(b, jid) ==> a == b,
{
    broadcast use showing::shows_in_front, showing::shows_behind;

    showing::shows_itself(jid);
    reveal_strlit("已从队列移除 ");
    reveal_strlit("已取消 ");
    reveal_strlit("已清除孤儿作业 ");
    reveal_strlit("未找到 ");
    reveal_strlit(" (pid=");
    reveal_strlit(")");
    let ta = jobs::cancellation_text(a, jid);
    let tb = jobs::cancellation_text(b, jid);
    if let Cancellation::Signal(pid) = a {
        showing::shows_itself(text::decimal(pid as nat));
        assert(ta[1] == '取');
        if let Cancellation::Signal(other) = b {
            if ta == tb {
                let head = "已取消 "@ + jid + " (pid="@;
                assert(ta =~= head + (text::decimal(pid as nat) + seq![')'] + Seq::<char>::empty()));
                assert(tb =~= head + (text::decimal(other as nat) + seq![')'] + Seq::<char>::empty()));
                assert(ta.skip(head.len() as int) =~= text::decimal(pid as nat) + seq![')']
                    + Seq::<char>::empty());
                assert(tb.skip(head.len() as int) =~= text::decimal(other as nat) + seq![')']
                    + Seq::<char>::empty());
                showing::leading_numbers_agree(
                    pid as nat,
                    ')',
                    Seq::<char>::empty(),
                    other as nat,
                    ')',
                    Seq::<char>::empty(),
                );
            }
        }
    }
    match a {
        Cancellation::Removed => assert(ta[0] == '已' && ta[1] == '从'),
        Cancellation::Cleared => assert(ta[0] == '已' && ta[1] == '清'),
        Cancellation::Unknown => assert(ta[0] == '未'),
        _ => assert(ta[0] == '已'),
    }
    match b {
        Cancellation::Removed => assert(tb[0] == '已' && tb[1] == '从'),
        Cancellation::Cleared => assert(tb[0] == '已' && tb[1] == '清'),
        Cancellation::Unknown => assert(tb[0] == '未'),
        _ => assert(tb[0] == '已' && tb[1] == '取'),
    }
}

/// All jobs are those that run, those that wait and those in the queue, each as often as it stands
/// there.
pub proof fn all_jobs_are_listed(
    running: Seq<Seq<char>>,
    waiting: Seq<Seq<char>>,
    queued: Seq<JobView>,
    jid: Seq<char>,
)
    ensures
        jobs::all_jobs(running, waiting, queued).len() == running.len() + waiting.len()
            + queued.len(),
        jobs::all_jobs(running, waiting, queued).contains(jid) <==> running.contains(jid)
            || waiting.contains(jid) || exists|i: int|
            0 <= i < queued.len() && (#[trigger] queued[i]).jid == jid,
{
    let all = jobs::all_jobs(running, waiting, queued);
    if all.contains(jid) {
        let k = all.index_of(jid);
        if k < running.len() {
            assert(running[k] == jid);
        } else if k < running.len() + waiting.len() {
            assert(waiting[k - running.len()] == jid);
        } else {
            assert(queued[k - running.len() - waiting.len()].jid == jid);
        }
    }
    if running.contains(jid) {
        assert(all[running.index_of(jid)] == jid);
    }
    if waiting.contains(jid) {
        assert(all[running.len() + waiting.index_of(jid)] == jid);
    }
    if exists|i: int| 0 <= i < queued.len() && (#[trigger] queued[i]).jid == jid {
        let i = choose|i: int| 0 <= i < queued.len() && (#[trigger] queued[i]).jid == jid;
        assert(all[running.len() + waiting.len() + i] == jid);
    }
}

// ---------------------------------------------------------------------------
// Cleaning up
// ---------------------------------------------------------------------------

/// Of the jobs of a table those are taken out that have a process which its probe found gone, and
/// no others.
pub proof fn gone_jobs_are_those_found_gone(
    jids: Seq<Seq<char>>,
    jobs_by_id: Map<Seq<char>, JobView>,
    probes: Seq<Liveness>,
    n: nat,
    jid: Seq<char>,
)
    requires
        n <= jids.len(),
        n <= probes.len(),
    ensures
        scheduler::gone_among(jids, jobs_by_id, probes, n).contains(jid) <==> exists|i: int|
            0 <= i < n && #[trigger] jids[i] == jid && jobs_by_id[jid].pid is Some && probes[i]
                == Liveness::Gone,
    decreases n,
{
    let all = scheduler::gone_among(jids, jobs_by_id, probes, n);
    if n > 0 {
        let m = (n - 1) as nat;
        gone_jobs_are_those_found_gone(jids, jobs_by_id, probes, m, jid);
        let front = scheduler::gone_among(jids, jobs_by_id, probes, m);
        if all.contains(jid) {
            let k = all.index_of(jid);
            if k < front.len() {
                assert(front[k] == jid);
                assert(front.contains(jid));
            } else {
                assert(jids[m as int] == jid);
            }
        }
        if front.contains(jid) {
            assert(all[front.index_of(jid)] == jid);
        }
        if jids[m as int] == jid && jobs_by_id[jid].pid is Some && probes[m as int]
            == Liveness::Gone {
            assert(all[all.len() - 1] == jid);
        }
    }
}

/// Cleaning up takes out exactly the jobs found gone and keeps all others as they are.
pub proof fn cleaning_up_takes_out_what_is_gone(
    st: StateView,
    running: Seq<Seq<char>>,
    waiting: Seq<Seq<char>>,
    jid: Seq<char>,
)
    ensures
        ({
            let after = scheduler::cleaned(st, running, waiting);
            &&& after.pids.contains_key(jid) == (st.pids.contains_key(jid) && !running.contains(
                jid,
            ))
            &&& after.pids.contains_key(jid) ==> after.pids[jid] == st.pids[jid]
            &&& after.pending.contains_key(jid) == (st.pending.contains_key(jid)
                && !waiting.contains(jid))
            &&& after.pending.contains_key(jid) ==> after.pending[jid] == st.pending[jid]
            &&& after.queued == st.queued
            &&& after.reserved == st.reserved
            &&& after.next_jid == st.next_jid
        }),
{
    scheduler::releasing_keeps_pending(st, running);
    released_jobs_go(st, running, jid);
    removed_jobs_go(st.pending, waiting, jid);
}

proof fn released_jobs_go(st: StateView, jids: Seq<Seq<char>>, jid: Seq<char>)
    ensures
        ({
            let after = scheduler::released_all(st, jids);
            &&& after.pids.contains_key(jid) == (st.pids.contains_key(jid) && !jids.contains(jid))
            &&& after.pids.contains_key(jid) ==> after.pids[jid] == st.pids[jid]
        }),
    decreases jids.len(),
{
    if jids.len() > 0 {
        released_jobs_go(st, jids.drop_last(), jid);
        last_or_before(jids, jid);
    }
}

proof fn removed_jobs_go(m: Map<Seq<char>, JobView>, jids: Seq<Seq<char>>, jid: Seq<char>)
    ensures
        ({
            let after = scheduler::without_all(m, jids);
            &&& after.contains_key(jid) == (m.contains_key(jid) && !jids.contains(jid))
            &&& after.contains_key(jid) ==> after[jid] == m[jid]
        }),
    decreases jids.len(),
{
    if jids.len() > 0 {
        removed_jobs_go(m, jids.drop_last(), jid);
        last_or_before(jids, jid);
    }
}

proof fn last_or_before(jids: Seq<Seq<char>>, jid: Seq<char>)
    requires
        jids.len() > 0,
    ensures
        jids.contains(jid) == (jids.drop_last().contains(jid) || jids.last() == jid),
{
    if jids.contains(jid) {
        let i = jids.index_of(jid);
        if i < jids.len() - 1 {
            assert(jids.drop_last()[i] == jid);
        }
    }
    if jids.drop_last().contains(jid) {
        let i = jids.drop_last().index_of(jid);
        assert(jids[i] == jid);
    }
    if jids.last() == jid {
        assert(jids[jids.len() - 1] == jid);
    }
}

// ---------------------------------------------------------------------------
// Output
// ---------------------------------------------------------------------------

/// Of a job's output the last forty lines are shown, all of them where there are fewer, in their
/// order, and an empty line behind them exactly where the output does not end with a line ending.
pub proof fn tail_shows_the_last_lines(content: Seq<char>, i: int)
    ensures
        ({
            let all = text::lines(content);
            let shown = jobs::shown_output(content);
            let kept = if all.len() < 40 {
                all.len()
            } else {
                40nat
            };
            let ended = content.len() > 0 && content[content.len() - 1] == '\n';
            &&& shown.len() == kept + if ended {
                0nat
            } else {
                1
            }
            &&& 0 <= i < kept ==> shown[i] == all[all.len() - kept + i]
            &&& !ended ==> shown[kept as int].len() == 0
        }),
{
}

// ---------------------------------------------------------------------------
// The reservation
// ---------------------------------------------------------------------------

/// A list of cores can be reserved where it names some and each of them exists.
pub proof fn existing_cores_can_be_reserved(cores: Seq<u8>, more: Seq<u8>, core: u8)
    ensures
        jobs::can_reserve(seq![core]) <==> core < topology::core_count(),
        !jobs::can_reserve(Seq::empty()),
        jobs::can_reserve(cores) && jobs::can_reserve(more) ==> jobs::can_reserve(cores + more),
        jobs::can_reserve(cores + more) && cores.len() > 0 ==> jobs::can_reserve(cores),
        jobs::can_reserve(cores + more) && more.len() > 0 ==> jobs::can_reserve(more),
{
    let all = cores + more;
    assert(seq![core][0] == core);
    if jobs::can_reserve(all) {
        assert forall|i: int| 0 <= i < cores.len() implies #[trigger] cores[i]
            < topology::core_count() by {
            assert(all[i] == cores[i]);
        }
        assert forall|i: int| 0 <= i < more.len() implies #[trigger] more[i]
            < topology::core_count() by {
            assert(all[cores.len() + i] == more[i]);
        }
    }
    if jobs::can_reserve(cores) && jobs::can_reserve(more) {
        assert forall|i: int| 0 <= i < all.len() implies #[trigger] all[i]
            < topology::core_count() by {
            if i < cores.len() {
                assert(all[i] == cores[i]);
            } else {
                assert(all[i] == more[i - cores.len()]);
            }
        }
    }
}

/// A reservation keeps the order in which its cores were named first.
pub proof fn reservation_keeps_the_order(list: Seq<u8>, i: int, j: int) -> (at: (int, int))
    requires
        0 <= i < j < state::normalized(list).len(),
    ensures
        0 <= at.0 < at.1 < list.len(),
        list[at.0] == state::normalized(list)[i],
        list[at.1] == state::normalized(list)[j],
        forall|k: int| 0 <= k < at.1 ==> #[trigger] list[k] != state::normalized(list)[j],
    decreases list.len(),
{
    let front = state::normalized(list.drop_last());
    let all = state::normalized(list);
    if j < front.len() {
        let at = reservation_keeps_the_order(list.drop_last(), i, j);
        assert forall|k: int| 0 <= k < at.1 implies #[trigger] list[k] != all[j] by {
            assert(list.drop_last()[k] == list[k]);
        }
        at
    } else {
        state::normalized_cores(list.drop_last());
        assert(front.contains(front[i]));
        let a = list.drop_last().index_of(front[i]);
        let b = list.len() - 1;
        assert(list.drop_last()[a] == front[i]);
        assert forall|k: int| 0 <= k < b implies #[trigger] list[k] != all[j] by {
            if list[k] == all[j] {
                assert(list.drop_last()[k] == list[k]);
                assert(list.drop_last().contains(list[k]));
            }
        }
        (a, b)
    }
}

/// A stored reservation is read as it is meant: nothing stands for the default; a number for that
/// one core, a list for its cores, where they exist; what is no small number is an error of its
/// own, and so is every other value.
pub proof fn stored_reservation_is_read(value: ReservedValue, core: u8)
    ensures
        match value {
            ReservedValue::Null => state::reservation(value) == Ok::<
                Seq<u8>,
                ReservedCoresError,
            >(seq![6u8, 7u8]),
            ReservedValue::Number(n) => match state::reservation(value) {
                Ok(cores) => {
                    &&& n is Some && n->0 <= 255
                    &&& cores.contains(core) <==> core == n->0 && core < topology::core_count()
                },
                Err(e) => (n is None || n->0 > 255) && e == ReservedCoresError::CoreNotInteger,
            },
            ReservedValue::List(values) => match state::reservation(value) {
                Ok(cores) => {
                    &&& forall|i: int|
                        0 <= i < values@.len() ==> (#[trigger] values@[i]) is Some && values@[i]->0
                            <= 255
                    &&& cores.contains(core) <==> core < topology::core_count() && exists|i: int|
                        0 <= i < values@.len() && #[trigger] values@[i] == Some(core as u64)
                    &&& cores.no_duplicates()
                },
                Err(e) => e == ReservedCoresError::CoresNotIntegers && exists|i: int|
                    0 <= i < values@.len() && ((#[trigger] values@[i]) is None || values@[i]->0
                        > 255),
            },
            ReservedValue::Other => state::reservation(value) == Err::<
                Seq<u8>,
                ReservedCoresError,
            >(ReservedCoresError::WrongShape),
        },
{
    match value {
        ReservedValue::Null => {
            topology::default_reservation_is_the_last_two_cores();
        },
        ReservedValue::Number(n) => {
            if state::is_small(n) {
                let list = seq![(n->0) as u8];
                state::normalized_cores(list);
                assert(list[0] == (n->0) as u8);
                assert(list.contains(core) == (core == n->0));
            }
        },
        ReservedValue::List(values) => {
            let list = state::small_numbers(values@);
            if forall|i: int| 0 <= i < values@.len() ==> state::is_small(#[trigger] values@[i]) {
                state::normalized_cores(list);
                if list.contains(core) {
                    let i = list.index_of(core);
                    assert(state::is_small(values@[i]));
                    assert(values@[i] == Some(core as u64));
                }
                if exists|i: int| 0 <= i < values@.len() && #[trigger] values@[i] == Some(
                    core as u64,
                ) {
                    let i = choose|i: int|
                        0 <= i < values@.len() && #[trigger] values@[i] == Some(core as u64);
                    assert(list[i] == core);
                }
                assert forall|i: int| 0 <= i < values@.len() implies (#[trigger] values@[i]) is Some
                    && values@[i]->0 <= 255 by {
                    assert(state::is_small(values@[i]));
                }
            } else {
                let i = choose|i: int|
                    0 <= i < values@.len() && !state::is_small(#[trigger] values@[i]);
                assert(values@[i] is None || values@[i]->0 > 255);
            }
        },
        ReservedValue::Other => {},
    }
}

/// What is told of a reservation names every core with its two CPUs, says whether anything has
/// changed, and a clearing names every core that was reserved.
pub proof fn reservation_is_told(previous: Seq<u8>, requested: Seq<u8>, core: u8)
    ensures
        ({
            let told = jobs::reserved_text(previous, requested);
            let (a, b) = topology::core_cpus(core)->0;
            &&& told.len() == if previous == requested {
                1nat
            } else {
                2
            }
            &&& requested.contains(core) ==> {
                &&& showing::shows(told[0], text::decimal(core as nat))
                &&& showing::shows(told[0], text::decimal(a as nat))
                &&& showing::shows(told[0], text::decimal(b as nat))
            }
        }),
        previous.contains(core) ==> showing::shows(
            jobs::cleared_text(previous),
            text::decimal(core as nat),
        ),
        previous.len() == 0 ==> jobs::cleared_text(previous) == "当前没有优先级 2 保留核"@,
{
    broadcast use showing::shows_in_front, showing::shows_behind;

    let (a, b) = topology::core_cpus(core)->0;
    if requested.contains(core) {
        let parts = requested.map_values(|c: u8| jobs::core_text(c));
        let i = requested.index_of(core);
        assert(parts[i] == jobs::core_text(core));
        joined_list_shows_each_part(parts, "；"@, i);
        let whole = text::join(parts, "；"@);
        let part = jobs::core_text(core);
        showing::shows_itself(text::decimal(core as nat));
        showing::shows_itself(text::decimal(a as nat));
        showing::shows_itself(text::decimal(b as nat));
        shown_in_shown(whole, part, text::decimal(core as nat));
        shown_in_shown(whole, part, text::decimal(a as nat));
        shown_in_shown(whole, part, text::decimal(b as nat));
    }
    if previous.contains(core) {
        assert(previous.len() > 0);
        numbers_are_shown(previous, ", "@, core);
    }
}

/// What a shown text shows is shown.
pub proof fn shown_in_shown(whole: Seq<char>, part: Seq<char>, piece: Seq<char>)
    requires
        showing::shows(whole, part),
        showing::shows(part, piece),
    ensures
        showing::shows(whole, piece),
{
    let i = choose|i: int|
        0 <= i <= whole.len() - part.len() && #[trigger] whole.subrange(i, i + part.len()) == part;
    let j = choose|j: int|
        0 <= j <= part.len() - piece.len() && #[trigger] part.subrange(j, j + piece.len())
            == piece;
    assert(whole.subrange(i + j, i + j + piece.len()) =~= whole.subrange(
        i,
        i + part.len(),
    ).subrange(j, j + piece.len()));
}

// ---------------------------------------------------------------------------
// Priorities
// ---------------------------------------------------------------------------

/// Only the numbers of the levels on offer ask for a level, and the top level is not on offer.
pub proof fn only_numbers_ask_for_a_level(value: Seq<char>, p: JobPriority)
    requires
        JobPriority::requested(value) == Some(p),
    ensures
        value == p.label(),
        p != JobPriority::P3,
{
}

/// A level is stored under its number; of other words only those of older state files are read.
pub proof fn only_labels_store_a_level(label: Seq<char>, p: JobPriority)
    ensures
        JobPriority::stored(label) == Some(p) ==> {
            ||| label == p.label()
            ||| p == JobPriority::P0 && (label == "low"@ || label == "normal"@)
            ||| p == JobPriority::P2 && label == "high"@
        },
        JobPriority::stored("low"@) == Some(JobPriority::P0),
        JobPriority::stored("normal"@) == Some(JobPriority::P0),
        JobPriority::stored("high"@) == Some(JobPriority::P2),
{
    reveal_strlit("0");
    reveal_strlit("1");
    reveal_strlit("2");
    reveal_strlit("3");
    reveal_strlit("low");
    reveal_strlit("normal");
    reveal_strlit("high");
    assert("0"@.len() == 1 && "1"@.len() == 1 && "2"@.len() == 1 && "3"@.len() == 1);
    assert("low"@.len() == 3 && "normal"@.len() == 6 && "high"@.len() == 4);
}

// ---------------------------------------------------------------------------
// The state
// ---------------------------------------------------------------------------

/// A fresh state holds no job, and every core and CPU of the machine stands in its tables as free.
pub proof fn fresh_state_is_idle(jid: Seq<char>, unit: u8)
    ensures
        ({
            let st = state::fresh_state();
            &&& !st.pids.contains_key(jid) && !st.pending.contains_key(jid)
            &&& st.queued.len() == 0
            &&& st.next_jid == 1
            &&& st.reserved == topology::default_reserved()
            &&& unit < topology::core_count() ==> st.cfd.contains_key(state::key(unit))
                && !st.cfd[state::key(unit)]
            &&& unit < topology::cpu_count() ==> st.cpus.contains_key(state::key(unit))
                && st.cpus[state::key(unit)] is None
        }),
{
    let cores = topology::first_numbers(topology::core_count());
    let cpus = topology::first_numbers(topology::cpu_count());
    topology::first_numbers_members(topology::core_count());
    topology::first_numbers_members(topology::cpu_count());
    if unit < topology::core_count() {
        assert(cores[unit as int] == unit);
    }
    if unit < topology::cpu_count() {
        assert(cpus[unit as int] == unit);
    }
}

/// Bringing a state up to the topology fills in what its tables lack, as free, and changes no entry
/// and nothing else; the reservation keeps the cores that exist.
pub proof fn migration_fills_gaps(st: StateView, unit: u8, k: Seq<char>, core: u8)
    ensures
        ({
            let after = state::migrated(st);
            &&& unit < topology::core_count() ==> after.cfd.contains_key(state::key(unit))
            &&& unit < topology::cpu_count() ==> after.cpus.contains_key(state::key(unit))
            &&& st.cfd.contains_key(k) ==> after.cfd.contains_key(k) && after.cfd[k] == st.cfd[k]
            &&& st.cpus.contains_key(k) ==> after.cpus.contains_key(k) && after.cpus[k]
                == st.cpus[k]
            &&& after.cfd.contains_key(k) && !st.cfd.contains_key(k) ==> !after.cfd[k] && exists|
                c: u8,
            |
                c < topology::core_count() && k == #[trigger] state::key(c)
            &&& after.cpus.contains_key(k) && !st.cpus.contains_key(k) ==> after.cpus[k] is None
                && exists|c: u8| c < topology::cpu_count() && k == #[trigger] state::key(c)
            &&& after.reserved.contains(core) == (st.reserved.contains(core) && core
                < topology::core_count())
            &&& after.pids == st.pids
            &&& after.pending == st.pending
            &&& after.queued == st.queued
            &&& after.next_jid == st.next_jid
        }),
{
    let cores = topology::first_numbers(topology::core_count());
    let cpus = topology::first_numbers(topology::cpu_count());
    let after = state::migrated(st);
    topology::first_numbers_members(topology::core_count());
    topology::first_numbers_members(topology::cpu_count());
    state::normalized_cores(st.reserved);
    if unit < topology::core_count() {
        assert(cores[unit as int] == unit);
    }
    if unit < topology::cpu_count() {
        assert(cpus[unit as int] == unit);
    }
    if after.cfd.contains_key(k) && !st.cfd.contains_key(k) {
        let i = choose|i: int| 0 <= i < cores.len() && k == state::key(#[trigger] cores[i]);
        assert(k == state::key(cores[i]) && cores[i] < topology::core_count());
    }
    if after.cpus.contains_key(k) && !st.cpus.contains_key(k) {
        let i = choose|i: int| 0 <= i < cpus.len() && k == state::key(#[trigger] cpus[i]);
        assert(k == state::key(cpus[i]) && cpus[i] < topology::cpu_count());
    }
}

// ---------------------------------------------------------------------------
// Job IDs and files
// ---------------------------------------------------------------------------

/// The next ID is in use nowhere, and every smaller number from the counter on is passed over only
/// because its ID is in use: by a job that runs, waits or is queued, or by an output file.
pub proof fn ids_are_passed_over_only_where_used(
    st: StateView,
    existing: Seq<Seq<char>>,
    jid: Seq<char>,
    next: u64,
    n: nat,
    i: int,
)
    requires
        ids::is_next_id(st, existing, jid, next),
    ensures
        st.next_jid <= next - 1,
        jid == ids::jid_of((next - 1) as nat),
        !existing.contains(jid),
        !st.pids.contains_key(jid),
        !st.pending.contains_key(jid),
        0 <= i < st.queued.len() ==> st.queued[i].jid != jid,
        st.next_jid <= n < next - 1 ==> {
            let passed = ids::jid_of(n);
            ||| existing.contains(passed)
            ||| st.pids.contains_key(passed)
            ||| st.pending.contains_key(passed)
            ||| exists|k: int| 0 <= k < st.queued.len() && (#[trigger] st.queued[k]).jid == passed
        },
{
    if 0 <= i < st.queued.len() {
        assert(ids::queued_jid(st, i) == st.queued[i].jid);
    }
    if st.next_jid <= n < next - 1 {
        let passed = ids::jid_of(n);
        assert(ids::is_taken(st, existing, passed));
        if !(existing.contains(passed) || st.pids.contains_key(passed)
            || st.pending.contains_key(passed)) {
            let k = choose|k: int|
                0 <= k < st.queued.len() && #[trigger] ids::queued_jid(st, k) == passed;
            assert(st.queued[k].jid == passed);
        }
    }
}

/// A job ID is `j` and the number in decimal, with zeros in front up to four digits and no more.
pub proof fn job_id_spells_its_number(n: nat)
    ensures
        ({
            let jid = ids::jid_of(n);
            let digits = jid.drop_first();
            &&& jid[0] == 'j'
            &&& forall|i: int| 0 <= i < digits.len() ==> text::is_digit(#[trigger] digits[i])
            &&& text::digits_value(digits) == n
            &&& digits.len() >= 4
            &&& digits.len() > 4 ==> digits == text::decimal(n)
        }),
{
    let jid = ids::jid_of(n);
    let digits = jid.drop_first();
    ids::jid_tells_its_number(n);
    text::decimal_round_trip(n);
    assert(digits =~= text::zero_padded(n, 4));
    let gap = text::lacking(text::decimal(n), 4);
    assert forall|i: int| 0 <= i < digits.len() implies text::is_digit(#[trigger] digits[i]) by {
        if i >= gap {
            assert(digits[i] == text::decimal(n)[i - gap]);
        }
    }
    if digits.len() > 4 {
        assert(digits =~= text::decimal(n));
    }
}

/// A relative name stands below its base: the base, one slash between them and the name. An
/// absolute name stands alone.
pub proof fn names_stand_below_their_base(base: Seq<char>, name: Seq<char>)
    requires
        base.len() > 0,
        name.len() > 0,
    ensures
        name[0] == '/' ==> paths::joined(base, name) == name,
        name[0] != '/' && base[base.len() - 1] == '/' ==> paths::joined(base, name) == base + name,
        name[0] != '/' && base[base.len() - 1] != '/' ==> paths::joined(base, name) == base + seq![
            '/',
        ] + name,
{
    reveal_strlit("/");
    assert("/"@ =~= seq!['/']);
}

/// The scheduler's files stand below its directory in the home directory, and are different files.
pub proof fn files_stand_below_the_home_directory(home: Seq<char>)
    requires
        home.len() > 0,
        home[home.len() - 1] != '/',
    ensures
        paths::state_dir_of(home) == home + "/.coresched"@,
        paths::jobs_dir_of(home) == home + "/.coresched/jobs"@,
        paths::joined(paths::state_dir_of(home), "state.json"@) == home + "/.coresched/state.json"@,
        paths::joined(paths::state_dir_of(home), "state.lock"@) == home + "/.coresched/state.lock"@,
{
    reveal_strlit("/");
    reveal_strlit(".coresched");
    reveal_strlit("jobs");
    reveal_strlit("state.json");
    reveal_strlit("state.lock");
    reveal_strlit("/.coresched");
    reveal_strlit("/.coresched/jobs");
    reveal_strlit("/.coresched/state.json");
    reveal_strlit("/.coresched/state.lock");
    assert("/.coresched"@ =~= "/"@ + ".coresched"@);
    assert("/.coresched/jobs"@ =~= "/.coresched"@ + "/"@ + "jobs"@);
    assert("/.coresched/state.json"@ =~= "/.coresched"@ + "/"@ + "state.json"@);
    assert("/.coresched/state.lock"@ =~= "/.coresched"@ + "/"@ + "state.lock"@);
    let dir = paths::state_dir_of(home);
    assert(dir =~= home + "/.coresched"@);
    assert(dir.last() == 'd');
    assert(paths::jobs_dir_of(home) =~= home + "/.coresched/jobs"@);
    assert(paths::joined(dir, "state.json"@) =~= home + "/.coresched/state.json"@);
    assert(paths::joined(dir, "state.lock"@) =~= home + "/.coresched/state.lock"@);
}

/// The home directory is the first of the two that is set, and `/tmp` where none is.
pub proof fn home_is_the_first_that_is_set(home: Seq<char>, other: Option<Seq<char>>)
    ensures
        paths::home_of(Some(home), other) == home,
        paths::home_of(None, Some(home)) == home,
        paths::home_of(None, None) == "/tmp"@,
{
}

/// A core or CPU is stored under its number in decimal.
pub proof fn units_are_stored_under_their_numbers(n: u8)
    ensures
        text::is_digits(state::key(n)),
        text::digits_value(state::key(n)) == n,
        n < 10 ==> state::key(n).len() == 1,
{
    text::decimal_round_trip(n as nat);
    reveal_with_fuel(text::decimal, 2);
}

/// A core has two CPUs, the one with its own number and the one eight further on.
pub proof fn cores_have_two_cpus(cpu: u8, core: u8)
    ensures
        topology::on_core(cpu, core) <==> core < 8 && (cpu == core || cpu == core + 8),
        topology::core_count() == 8,
        topology::cpu_count() == 16,
{
}

/// The CPUs that a job is bound to are told by their numbers with commas between them, and can be
/// read from that.
pub proof fn bound_cpus_are_told(cpus: Seq<u8>, i: int)
    requires
        0 <= i < cpus.len(),
    ensures
        pin::decimals(cpus).len() == cpus.len(),
        pin::decimals(cpus)[i] == text::decimal(cpus[i] as nat),
        text::split(text::join(pin::decimals(cpus), ","@), text::CharSet::One(','))
            == pin::decimals(cpus),
{
    reveal_strlit(",");
    assert(","@ =~= seq![',']);
    let parts = pin::decimals(cpus);
    assert forall|k: int, j: int| 0 <= k < parts.len() && 0 <= j < parts[k].len() implies
        #[trigger] parts[k][j] != ',' by {
        text::decimal_round_trip(cpus[k] as nat);
        assert(text::is_digit(parts[k][j]));
    }
    crate::laws::texts::splitting_undoes_joining(parts, ',');
}

/// A set of CPUs holds those of the list and no others.
pub proof fn cpu_set_holds_the_list(cpus: Seq<u8>, n: nat)
    ensures
        pin::members(cpus).contains(n) <==> n <= 255 && cpus.contains(n as u8),
{
    let numbers = cpus.map_values(|c: u8| c as nat);
    if numbers.contains(n) {
        let i = numbers.index_of(n);
        assert(cpus[i] == n);
    }
    if n <= 255 && cpus.contains(n as u8) {
        let i = cpus.index_of(n as u8);
        assert(numbers[i] == n);
    }
}

} // verus!
