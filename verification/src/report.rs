//! The reports: the list of jobs and the allocation map, line by line.
//!
//! How long a job has been running or waiting, and how far it has come, is given to the reports as
//! text.

use crate::jobs;
use crate::pin;
use crate::scheduler;
use crate::seqs;
use crate::state;
use crate::state::{key_string, CoreschedState, JobEntry, JobPriority, JobView, StateView};
use crate::summary;
use crate::table::Table;
use crate::text;
use crate::topology;
use vstd::prelude::*;

verus! {

// ---------------------------------------------------------------------------
// Cells
// ---------------------------------------------------------------------------

/// The list of a job's cores or CPUs, as it is shown.
pub open spec fn units_text(job: JobView) -> Seq<char> {
    match job.cores {
        Some(cores) => list_text(cores),
        None => match job.cpus {
            Some(cpus) => list_text(cpus),
            None => Seq::empty(),
        },
    }
}

/// A list of numbers in brackets.
pub open spec fn list_text(list: Seq<u8>) -> Seq<char> {
    "["@ + text::join(pin::decimals(list), ", "@) + "]"@
}

/// A list of numbers in brackets.
pub fn list_string(list: &Vec<u8>) -> (r: String)
    ensures
        r@ == list_text(list@),
{
    let mut r: String = "[".to_owned();
    let numbers = pin::decimal_strings(list.as_slice());
    r.append(text::join_strings(&numbers, ", ").as_str());
    r.append("]");
    r
}

/// The list of a job's cores or CPUs, as it is shown.
pub fn core_label(job: &JobEntry) -> (r: String)
    ensures
        r@ == units_text(job@),
{
    match &job.cores {
        Some(cores) => list_string(cores),
        None => match &job.cpus {
            Some(cpus) => list_string(cpus),
            None => String::new(),
        },
    }
}

/// The process number that is shown for a job; zero where it has none.
pub open spec fn pid_text(job: JobView) -> Seq<char> {
    text::decimal(match job.pid {
        Some(pid) => pid as nat,
        None => 0,
    })
}

fn pid_string(job: &JobEntry) -> (r: String)
    ensures
        r@ == pid_text(job@),
{
    match job.pid {
        Some(pid) => text::decimal_string(pid as u64),
        None => text::decimal_string(0),
    }
}

/// What a job asks for, with its unit.
pub open spec fn need_text(job: JobView) -> Seq<char> {
    text::decimal(job.need as nat) + if job.job_type == "cfd"@ {
        "核"@
    } else {
        "CPU"@
    }
}

fn need_string(job: &JobEntry) -> (r: String)
    ensures
        r@ == need_text(job@),
{
    let mut r = text::decimal_string(job.need);
    if text::same(job.job_type.as_str(), "cfd") {
        r.append("核");
    } else {
        r.append("CPU");
    }
    r
}

/// A line of dashes.
pub open spec fn rule(n: nat) -> Seq<char> {
    Seq::new(n, |i: int| '-')
}

fn rule_string(n: usize) -> (r: String)
    ensures
        r@ == rule(n as nat),
{
    let mut r: String = String::new();
    text::push_repeated(&mut r, '-', n);
    proof {
        assert(r@ =~= rule(n as nat));
    }
    r
}

fn push_line(lines: &mut Vec<String>, line: String)
    ensures
        text::string_views(final(lines)@) == text::string_views(old(lines)@).push(line@),
{
    let ghost before = text::string_views(lines@);
    let ghost added = line@;
    lines.push(line);
    proof {
        assert(text::string_views(lines@) =~= before.push(added));
    }
}

// ---------------------------------------------------------------------------
// Rows
// ---------------------------------------------------------------------------

/// The row of a running job in the list.
pub open spec fn running_row(jid: Seq<char>, job: JobView, elapsed: Seq<char>) -> Seq<char> {
    "  "@ + text::left(jid, 6) + " "@ + job.priority.label() + " "@ + text::left(job.job_type, 8)
        + " "@ + text::left(units_text(job), 14) + " "@ + text::left(pid_text(job), 8) + " "@
        + elapsed
}

fn running_line(jid: &str, job: &JobEntry, elapsed: &str) -> (r: String)
    ensures
        r@ == running_row(jid@, job@, elapsed@),
{
    let mut r: String = "  ".to_owned();
    text::push_left(&mut r, jid, 6);
    r.append(" ");
    r.append(job.priority.as_str());
    r.append(" ");
    text::push_left(&mut r, job.job_type.as_str(), 8);
    r.append(" ");
    text::push_left(&mut r, core_label(job).as_str(), 14);
    r.append(" ");
    text::push_left(&mut r, pid_string(job).as_str(), 8);
    r.append(" ");
    r.append(elapsed);
    r
}

/// The row of a job that waits for an allocation.
pub open spec fn pending_row(jid: Seq<char>, job: JobView, elapsed: Seq<char>) -> Seq<char> {
    "  "@ + text::left(jid, 6) + " "@ + job.priority.label() + " "@ + text::left(job.job_type, 8)
        + " "@ + text::left(need_text(job), 10) + " "@ + text::left(pid_text(job), 8) + " "@
        + elapsed + "   "@ + summary::summary_of(job.cmd)
}

fn command_of(job: &JobEntry) -> (r: Option<&str>)
    ensures
        scheduler::str_of(r) == job@.cmd,
{
    match &job.cmd {
        Some(cmd) => Some(cmd.as_str()),
        None => None,
    }
}

fn pending_line(jid: &str, job: &JobEntry, elapsed: &str) -> (r: String)
    ensures
        r@ == pending_row(jid@, job@, elapsed@),
{
    let mut r: String = "  ".to_owned();
    text::push_left(&mut r, jid, 6);
    r.append(" ");
    r.append(job.priority.as_str());
    r.append(" ");
    text::push_left(&mut r, job.job_type.as_str(), 8);
    r.append(" ");
    text::push_left(&mut r, need_string(job).as_str(), 10);
    r.append(" ");
    text::push_left(&mut r, pid_string(job).as_str(), 8);
    r.append(" ");
    r.append(elapsed);
    r.append("   ");
    r.append(summary::command_summary(command_of(job)).as_str());
    r
}

/// The row of a queued job.
pub open spec fn queued_row(job: JobView, elapsed: Seq<char>) -> Seq<char> {
    "  "@ + text::left(job.jid, 6) + " "@ + job.priority.label() + " "@ + text::left(
        job.job_type,
        8,
    ) + " "@ + text::left(need_text(job), 10) + " "@ + elapsed + "   "@ + summary::summary_of(
        job.cmd,
    )
}

fn queued_line(job: &JobEntry, elapsed: &str) -> (r: String)
    ensures
        r@ == queued_row(job@, elapsed@),
{
    let mut r: String = "  ".to_owned();
    text::push_left(&mut r, job.jid.as_str(), 6);
    r.append(" ");
    r.append(job.priority.as_str());
    r.append(" ");
    text::push_left(&mut r, job.job_type.as_str(), 8);
    r.append(" ");
    text::push_left(&mut r, need_string(job).as_str(), 10);
    r.append(" ");
    r.append(elapsed);
    r.append("   ");
    r.append(summary::command_summary(command_of(job)).as_str());
    r
}

/// How far a running job has come, as text.
#[derive(Debug)]
pub struct Standing {
    pub elapsed: String,
    pub percent: String,
    pub eta: String,
    pub phase: String,
}

/// How far a running job has come, as text.
#[verifier::ext_equal]
pub struct StandingView {
    pub elapsed: Seq<char>,
    pub percent: Seq<char>,
    pub eta: Seq<char>,
    pub phase: Seq<char>,
}

impl View for Standing {
    type V = StandingView;

    open spec fn view(&self) -> StandingView {
        StandingView {
            elapsed: self.elapsed@,
            percent: self.percent@,
            eta: self.eta@,
            phase: self.phase@,
        }
    }
}

/// The row of a running job in the allocation map.
pub open spec fn status_row(jid: Seq<char>, job: JobView, standing: StandingView) -> Seq<char> {
    "  "@ + text::left(jid, 4) + " "@ + job.priority.label() + " "@ + text::left(job.job_type, 8)
        + " "@ + text::left(units_text(job), 14) + " "@ + text::left(pid_text(job), 8) + " "@
        + text::left(standing.elapsed, 10) + " "@ + text::left(standing.percent, 8) + " "@
        + text::left(standing.eta, 18) + " "@ + standing.phase
}

fn status_line(jid: &str, job: &JobEntry, standing: &Standing) -> (r: String)
    ensures
        r@ == status_row(jid@, job@, standing@),
{
    let mut r: String = "  ".to_owned();
    text::push_left(&mut r, jid, 4);
    r.append(" ");
    r.append(job.priority.as_str());
    r.append(" ");
    text::push_left(&mut r, job.job_type.as_str(), 8);
    r.append(" ");
    text::push_left(&mut r, core_label(job).as_str(), 14);
    r.append(" ");
    text::push_left(&mut r, pid_string(job).as_str(), 8);
    r.append(" ");
    text::push_left(&mut r, standing.elapsed.as_str(), 10);
    r.append(" ");
    text::push_left(&mut r, standing.percent.as_str(), 8);
    r.append(" ");
    text::push_left(&mut r, standing.eta.as_str(), 18);
    r.append(" ");
    r.append(standing.phase.as_str());
    r
}

// ---------------------------------------------------------------------------
// The order of the running jobs
// ---------------------------------------------------------------------------

/// The first unit that a job holds; 99 where it holds none.
pub open spec fn first_unit(job: JobView) -> u8 {
    if job.cores is Some && (job.cores->0).len() > 0 {
        (job.cores->0)[0]
    } else if job.cpus is Some && (job.cpus->0).len() > 0 {
        (job.cpus->0)[0]
    } else {
        99
    }
}

fn first_unit_of(job: &JobEntry) -> (r: u8)
    ensures
        r == first_unit(job@),
{
    if let Some(cores) = &job.cores {
        if cores.len() > 0 {
            return cores[0];
        }
    }
    if let Some(cpus) = &job.cpus {
        if cpus.len() > 0 {
            return cpus[0];
        }
    }
    99
}

/// The jobs of a table, in its order.
pub open spec fn jobs_in_order(keys: Seq<Seq<char>>, jobs: Map<Seq<char>, JobView>) -> Seq<
    JobView,
> {
    keys.map_values(|k: Seq<char>| jobs[k])
}

/// Whether one job comes before another: by its first unit, then by its place in the table.
pub open spec fn comes_before(jobs: Seq<JobView>, a: usize, b: usize) -> bool {
    first_unit(jobs[a as int]) < first_unit(jobs[b as int]) || (first_unit(jobs[a as int])
        == first_unit(jobs[b as int]) && a < b)
}

/// Whether `order` lists the positions of all jobs, sorted by their first units.
pub open spec fn sorts_jobs(jobs: Seq<JobView>, order: Seq<usize>) -> bool {
    &&& order.len() == jobs.len()
    &&& forall|i: int| 0 <= i < order.len() ==> #[trigger] order[i] < jobs.len()
    &&& forall|i: int, j: int|
        0 <= i < j < order.len() ==> comes_before(jobs, #[trigger] order[i], #[trigger] order[j])
}

/// Every job is in the order.
pub proof fn order_is_complete(jobs: Seq<JobView>, order: Seq<usize>, k: usize)
    requires
        sorts_jobs(jobs, order),
        k < jobs.len() <= usize::MAX,
    ensures
        order.contains(k),
{
    assert(order.no_duplicates()) by {
        assert forall|i: int, j: int| 0 <= i < j < order.len() implies order[i] != order[j] by {
            assert(comes_before(jobs, order[i], order[j]));
        }
    }
    let all = Set::new(|x: usize| x < jobs.len());
    let listed = order.to_set();
    order.unique_seq_to_set();
    positions_are_finite(jobs.len());
    assert(listed.subset_of(all)) by {
        assert forall|x: usize| listed.contains(x) implies all.contains(x) by {
            let i = order.index_of(x);
            assert(order[i] == x);
        }
    }
    vstd::set_lib::lemma_subset_equality(listed, all);
    assert(all.contains(k));
}

proof fn positions_are_finite(n: nat)
    requires
        n <= usize::MAX,
    ensures
        Set::new(|x: usize| x < n).finite(),
        Set::new(|x: usize| x < n).len() == n,
    decreases n,
{
    let set = Set::new(|x: usize| x < n);
    if n == 0 {
        assert(set =~= Set::empty());
    } else {
        let m = (n - 1) as nat;
        positions_are_finite(m);
        let smaller = Set::new(|x: usize| x < m);
        assert(set =~= smaller.insert(m as usize));
    }
}

/// The positions of the jobs of a table, sorted by their first units.
pub fn running_order(jobs: &Table<JobEntry>) -> (r: Vec<usize>)
    ensures
        sorts_jobs(jobs_in_order(jobs.keys(), jobs@), r@),
{
    let n: usize = jobs.len();
    let ghost all = jobs_in_order(jobs.keys(), jobs@);
    let mut order: Vec<usize> = Vec::new();
    let mut k: usize = 0;
    while k < n
        invariant
            k <= n,
            n == jobs.keys().len(),
            all == jobs_in_order(jobs.keys(), jobs@),
            order@.len() == k,
            forall|i: int| 0 <= i < k ==> #[trigger] order@[i] < k,
            forall|i: int, j: int|
                0 <= i < j < k ==> comes_before(all, #[trigger] order@[i], #[trigger] order@[j]),
        decreases n - k,
    {
        let unit = first_unit_of(jobs.value_at(k));
        let mut at: usize = k;
        while at > 0 && first_unit_of(jobs.value_at(order[at - 1])) > unit
            invariant
                at <= k < n,
                n == jobs.keys().len(),
                all == jobs_in_order(jobs.keys(), jobs@),
                unit == first_unit(all[k as int]),
                order@.len() == k,
                forall|i: int| 0 <= i < k ==> #[trigger] order@[i] < k,
                forall|i: int| at <= i < k ==> first_unit(all[#[trigger] order@[i] as int]) > unit,
            decreases at,
        {
            at -= 1;
        }
        let ghost before = order@;
        proof {
            if at > 0 {
                assert(first_unit(all[before[at - 1] as int]) <= unit);
            }
        }
        order.insert(at, k);
        proof {
            assert forall|i: int, j: int| 0 <= i < j < k + 1 implies comes_before(
                all,
                #[trigger] order@[i],
                #[trigger] order@[j],
            ) by {
                if j < at {
                    assert(order@[i] == before[i] && order@[j] == before[j]);
                } else if j == at {
                    assert(order@[i] == before[i]);
                    if i < at - 1 {
                        assert(comes_before(all, before[i], before[at - 1]));
                    }
                } else {
                    assert(order@[j] == before[j - 1]);
                    if i < at {
                        assert(order@[i] == before[i]);
                    } else if i > at {
                        assert(order@[i] == before[i - 1]);
                    }
                }
            }
        }
        k += 1;
    }
    order
}

// ---------------------------------------------------------------------------
// The totals
// ---------------------------------------------------------------------------

/// How much the jobs of one kind ask for in all.
pub open spec fn total_need(jobs: Seq<JobView>, job_type: Seq<char>) -> nat
    decreases jobs.len(),
{
    if jobs.len() == 0 {
        0
    } else {
        total_need(jobs.drop_last(), job_type) + if jobs.last().job_type == job_type {
            jobs.last().need as nat
        } else {
            0
        }
    }
}

/// How many jobs are of the given priority.
pub open spec fn count_at(jobs: Seq<JobView>, priority: JobPriority) -> nat
    decreases jobs.len(),
{
    if jobs.len() == 0 {
        0
    } else {
        count_at(jobs.drop_last(), priority) + if jobs.last().priority == priority {
            1nat
        } else {
            0
        }
    }
}

/// The jobs that have no units yet: those that wait for an allocation, then the queue.
pub open spec fn waiting_jobs(pending: Seq<JobView>, queued: Seq<JobView>) -> Seq<JobView> {
    pending + queued
}

/// The totals of the list.
#[derive(Clone, Copy, Debug, PartialEq, Eq, Structural)]
pub struct Totals {
    pub running: u64,
    pub pending: u64,
    pub queued: u64,
    pub calibration: u64,
    pub cfd_cores: u64,
    pub py_cpus: u64,
}

/// The jobs of a state that have no units yet.
pub open spec fn all_waiting(state: CoreschedState) -> Seq<JobView> {
    waiting_jobs(jobs_in_order(state.pending.keys(), state@.pending), state@.queued)
}

/// Whether the totals of a state fit 64 bits.
pub open spec fn totals_fit(state: CoreschedState) -> bool {
    &&& all_waiting(state).len() <= u64::MAX
    &&& total_need(all_waiting(state), "cfd"@) <= u64::MAX
    &&& total_need(all_waiting(state), "py"@) <= u64::MAX
}

/// The totals of a state, where they fit: how many jobs run, wait and are queued, how many of those
/// without units are of P2, and how many cores and CPUs these ask for.
pub open spec fn totals_of(state: CoreschedState) -> Totals {
    Totals {
        running: state.pids.keys().len() as u64,
        pending: state.pending.keys().len() as u64,
        queued: state@.queued.len() as u64,
        calibration: count_at(all_waiting(state), JobPriority::P2) as u64,
        cfd_cores: total_need(all_waiting(state), "cfd"@) as u64,
        py_cpus: total_need(all_waiting(state), "py"@) as u64,
    }
}

proof fn needs_only_grow(jobs: Seq<JobView>, job_type: Seq<char>, i: int)
    requires
        0 <= i <= jobs.len(),
    ensures
        total_need(jobs.take(i), job_type) <= total_need(jobs, job_type),
    decreases jobs.len() - i,
{
    if i == jobs.len() {
        assert(jobs.take(i) =~= jobs);
    } else {
        needs_only_grow(jobs, job_type, i + 1);
        assert(jobs.take(i + 1).drop_last() =~= jobs.take(i));
    }
}

/// The totals of the list; nothing where a sum does not fit 64 bits.
pub fn totals(state: &CoreschedState) -> (r: Option<Totals>)
    ensures
        match r {
            Some(t) => totals_fit(*state) && t == totals_of(*state),
            None => !totals_fit(*state),
        },
{
    let pending: usize = state.pending.len();
    let queued: usize = state.queued.len();
    let ghost waiting = waiting_jobs(
        jobs_in_order(state.pending.keys(), state@.pending),
        state@.queued,
    );
    let count: u64 = match (pending as u64).checked_add(queued as u64) {
        Some(count) => count,
        None => {
            return None;
        },
    };
    let mut cfd_cores: u64 = 0;
    let mut py_cpus: u64 = 0;
    let mut calibration: u64 = 0;
    let mut i: u64 = 0;
    while i < count
        invariant
            i <= count,
            count == pending + queued,
            count == waiting.len(),
            pending == state.pending.keys().len(),
            queued == state.queued@.len(),
            waiting == waiting_jobs(
                jobs_in_order(state.pending.keys(), state@.pending),
                state@.queued,
            ),
            calibration <= i,
            calibration == count_at(waiting.take(i as int), JobPriority::P2),
            cfd_cores == total_need(waiting.take(i as int), "cfd"@),
            py_cpus == total_need(waiting.take(i as int), "py"@),
        decreases count - i,
    {
        let job: &JobEntry = if i < pending as u64 {
            state.pending.value_at(i as usize)
        } else {
            &state.queued[(i - pending as u64) as usize]
        };
        proof {
            assert(waiting[i as int] == job@);
            assert(waiting.take(i + 1).drop_last() =~= waiting.take(i as int));
            needs_only_grow(waiting, "cfd"@, i + 1);
            needs_only_grow(waiting, "py"@, i + 1);
        }
        if text::same(job.job_type.as_str(), "cfd") {
            match cfd_cores.checked_add(job.need) {
                Some(sum) => {
                    cfd_cores = sum;
                },
                None => {
                    return None;
                },
            }
        }
        if text::same(job.job_type.as_str(), "py") {
            match py_cpus.checked_add(job.need) {
                Some(sum) => {
                    py_cpus = sum;
                },
                None => {
                    return None;
                },
            }
        }
        if job.priority == JobPriority::P2 {
            calibration += 1;
        }
        i += 1;
    }
    proof {
        assert(waiting.take(waiting.len() as int) =~= waiting);
    }
    Some(
        Totals {
            running: state.pids.len() as u64,
            pending: pending as u64,
            queued: queued as u64,
            calibration,
            cfd_cores,
            py_cpus,
        },
    )
}

/// The line of totals.
pub open spec fn totals_text(t: Totals) -> Seq<char> {
    "运行: "@ + text::decimal(t.running as nat) + " | 排队: "@ + text::decimal(
        (t.pending + t.queued) as nat,
    ) + " (pending: "@ + text::decimal(t.pending as nat) + " + queued: "@ + text::decimal(
        t.queued as nat,
    ) + ") | P2等待: "@ + text::decimal(t.calibration as nat) + " | CFD: "@ + text::decimal(
        t.cfd_cores as nat,
    ) + "核 | Python: "@ + text::decimal(t.py_cpus as nat) + "CPU"@
}

/// The line of totals.
pub fn totals_line(t: &Totals) -> (r: String)
    requires
        t.pending + t.queued <= u64::MAX,
    ensures
        r@ == totals_text(*t),
{
    let mut r: String = "运行: ".to_owned();
    r.append(text::decimal_string(t.running).as_str());
    r.append(" | 排队: ");
    r.append(text::decimal_string(t.pending + t.queued).as_str());
    r.append(" (pending: ");
    r.append(text::decimal_string(t.pending).as_str());
    r.append(" + queued: ");
    r.append(text::decimal_string(t.queued).as_str());
    r.append(") | P2等待: ");
    r.append(text::decimal_string(t.calibration).as_str());
    r.append(" | CFD: ");
    r.append(text::decimal_string(t.cfd_cores).as_str());
    r.append("核 | Python: ");
    r.append(text::decimal_string(t.py_cpus).as_str());
    r.append("CPU");
    r
}

// ---------------------------------------------------------------------------
// Tables
// ---------------------------------------------------------------------------

/// The head of the table of waiting jobs; its first column has the given title.
pub open spec fn pending_head(first: Seq<char>) -> Seq<char> {
    text::centered(first, 8) + " "@ + text::centered("优先级"@, 8) + " "@ + text::centered(
        "类型"@,
        8,
    ) + " "@ + text::centered("需求"@, 10) + " "@ + text::centered("PID"@, 8) + " "@
        + text::centered("等待"@, 10) + " "@ + "命令"@
}

fn pending_head_line(first: &str) -> (r: String)
    ensures
        r@ == pending_head(first@),
{
    let mut r: String = String::new();
    text::push_centered(&mut r, first, 8);
    r.append(" ");
    text::push_centered(&mut r, "优先级", 8);
    r.append(" ");
    text::push_centered(&mut r, "类型", 8);
    r.append(" ");
    text::push_centered(&mut r, "需求", 10);
    r.append(" ");
    text::push_centered(&mut r, "PID", 8);
    r.append(" ");
    text::push_centered(&mut r, "等待", 10);
    r.append(" ");
    r.append("命令");
    proof {
        assert(r@ =~= pending_head(first@));
    }
    r
}

/// The head of the table of queued jobs.
pub open spec fn queued_head() -> Seq<char> {
    text::centered("作业"@, 8) + " "@ + text::centered("优先级"@, 8) + " "@ + text::centered(
        "类型"@,
        8,
    ) + " "@ + text::centered("需求"@, 10) + " "@ + text::centered("等待"@, 12) + " "@ + "命令"@
}

fn queued_head_line() -> (r: String)
    ensures
        r@ == queued_head(),
{
    let mut r: String = String::new();
    text::push_centered(&mut r, "作业", 8);
    r.append(" ");
    text::push_centered(&mut r, "优先级", 8);
    r.append(" ");
    text::push_centered(&mut r, "类型", 8);
    r.append(" ");
    text::push_centered(&mut r, "需求", 10);
    r.append(" ");
    text::push_centered(&mut r, "等待", 12);
    r.append(" ");
    r.append("命令");
    proof {
        assert(r@ =~= queued_head());
    }
    r
}

/// The rows of the running jobs in the list, in the given order.
pub open spec fn running_rows(
    keys: Seq<Seq<char>>,
    jobs: Map<Seq<char>, JobView>,
    order: Seq<usize>,
    elapsed: Seq<Seq<char>>,
) -> Seq<Seq<char>> {
    order.map_values(
        |k: usize| running_row(keys[k as int], jobs[keys[k as int]], elapsed[k as int]),
    )
}

/// The rows of the waiting jobs.
pub open spec fn pending_rows(
    keys: Seq<Seq<char>>,
    jobs: Map<Seq<char>, JobView>,
    elapsed: Seq<Seq<char>>,
) -> Seq<Seq<char>> {
    Seq::new(keys.len(), |k: int| pending_row(keys[k], jobs[keys[k]], elapsed[k]))
}

/// The rows of the queued jobs.
pub open spec fn queued_rows(queued: Seq<JobView>, elapsed: Seq<Seq<char>>) -> Seq<Seq<char>> {
    Seq::new(queued.len(), |k: int| queued_row(queued[k], elapsed[k]))
}

/// The table of the waiting jobs under the given lines; nothing where none waits.
pub open spec fn pending_table(
    head: Seq<Seq<char>>,
    keys: Seq<Seq<char>>,
    jobs: Map<Seq<char>, JobView>,
    elapsed: Seq<Seq<char>>,
) -> Seq<Seq<char>> {
    if keys.len() == 0 {
        Seq::empty()
    } else {
        head + seq![rule(98)] + pending_rows(keys, jobs, elapsed)
    }
}

/// The table of the queued jobs under the given title; nothing where the queue is empty.
pub open spec fn queued_table(
    title: Seq<char>,
    queued: Seq<JobView>,
    elapsed: Seq<Seq<char>>,
) -> Seq<Seq<char>> {
    if queued.len() == 0 {
        Seq::empty()
    } else {
        seq![Seq::<char>::empty(), title, queued_head(), rule(82)] + queued_rows(queued, elapsed)
    }
}

fn push_pending_rows(lines: &mut Vec<String>, jobs: &Table<JobEntry>, elapsed: &Vec<String>)
    requires
        elapsed@.len() == jobs.keys().len(),
    ensures
        text::string_views(final(lines)@) == text::string_views(old(lines)@) + pending_rows(
            jobs.keys(),
            jobs@,
            text::string_views(elapsed@),
        ),
{
    let n: usize = jobs.len();
    let ghost before = text::string_views(lines@);
    let ghost rows = pending_rows(jobs.keys(), jobs@, text::string_views(elapsed@));
    let mut k: usize = 0;
    while k < n
        invariant
            k <= n,
            n == jobs.keys().len(),
            elapsed@.len() == n,
            rows == pending_rows(jobs.keys(), jobs@, text::string_views(elapsed@)),
            text::string_views(lines@) =~= before + rows.take(k as int),
        decreases n - k,
    {
        let line = pending_line(
            jobs.key_at(k).as_str(),
            jobs.value_at(k),
            elapsed[k].as_str(),
        );
        proof {
            assert(rows[k as int] == line@);
        }
        push_line(lines, line);
        k += 1;
    }
    proof {
        assert(rows.take(n as int) =~= rows);
    }
}

fn push_queued_table(
    lines: &mut Vec<String>,
    title: &str,
    state: &CoreschedState,
    elapsed: &Vec<String>,
)
    requires
        elapsed@.len() == state@.queued.len(),
    ensures
        text::string_views(final(lines)@) == text::string_views(old(lines)@) + queued_table(
            title@,
            state@.queued,
            text::string_views(elapsed@),
        ),
{
    let ghost before = text::string_views(lines@);
    let n: usize = state.queued.len();
    if n == 0 {
        proof {
            assert(before + Seq::<Seq<char>>::empty() =~= before);
        }
        return;
    }
    push_line(lines, String::new());
    push_line(lines, title.to_owned());
    push_line(lines, queued_head_line());
    push_line(lines, rule_string(82));
    let ghost head = text::string_views(lines@);
    let ghost rows = queued_rows(state@.queued, text::string_views(elapsed@));
    let mut k: usize = 0;
    while k < n
        invariant
            k <= n,
            n == state.queued@.len(),
            elapsed@.len() == n,
            rows == queued_rows(state@.queued, text::string_views(elapsed@)),
            text::string_views(lines@) =~= head + rows.take(k as int),
        decreases n - k,
    {
        let line = queued_line(&state.queued[k], elapsed[k].as_str());
        proof {
            assert(state@.queued[k as int] == state.queued@[k as int]@);
            assert(rows[k as int] == line@);
        }
        push_line(lines, line);
        k += 1;
    }
    proof {
        assert(rows.take(n as int) =~= rows);
        assert(text::string_views(lines@) =~= before + queued_table(
            title@,
            state@.queued,
            text::string_views(elapsed@),
        ));
    }
}

// ---------------------------------------------------------------------------
// The list
// ---------------------------------------------------------------------------

/// The texts for how long the jobs have been running or waiting: of the running jobs and the
/// waiting jobs in the order of their tables, and of the queue.
#[derive(Debug)]
pub struct Ages {
    pub running: Vec<String>,
    pub pending: Vec<String>,
    pub queued: Vec<String>,
}

/// The part of the list on the running jobs; nothing where none runs.
pub open spec fn running_part(
    keys: Seq<Seq<char>>,
    jobs: Map<Seq<char>, JobView>,
    order: Seq<usize>,
    elapsed: Seq<Seq<char>>,
) -> Seq<Seq<char>> {
    if keys.len() == 0 {
        Seq::empty()
    } else {
        seq!["── 运行中 ──"@] + running_rows(keys, jobs, order, elapsed)
    }
}

/// The list: the totals, the running jobs, the waiting jobs and the queue.
pub open spec fn list_text_lines(
    state: CoreschedState,
    t: Totals,
    order: Seq<usize>,
    ages: Ages,
) -> Seq<Seq<char>> {
    seq![totals_text(t)] + running_part(
        state.pids.keys(),
        state@.pids,
        order,
        text::string_views(ages.running@),
    ) + pending_table(
        seq![Seq::<char>::empty(), "── 等待分配 (pending) ──"@, pending_head("作业"@)],
        state.pending.keys(),
        state@.pending,
        text::string_views(ages.pending@),
    ) + queued_table(
        "── 内置队列 (queued) ──"@,
        state@.queued,
        text::string_views(ages.queued@),
    )
}

/// The list of jobs, given its totals.
pub fn list_lines(state: &CoreschedState, t: &Totals, ages: &Ages) -> (r: Vec<String>)
    requires
        t.pending + t.queued <= u64::MAX,
        ages.running@.len() == state.pids.keys().len(),
        ages.pending@.len() == state.pending.keys().len(),
        ages.queued@.len() == state@.queued.len(),
    ensures
        exists|order: Seq<usize>| #[trigger]
            sorts_jobs(jobs_in_order(state.pids.keys(), state@.pids), order) && text::string_views(
                r@,
            ) == list_text_lines(*state, *t, order, *ages),
{
    let mut lines: Vec<String> = Vec::new();
    push_line(&mut lines, totals_line(t));
    let order = running_order(&state.pids);
    let ghost keys = state.pids.keys();
    let ghost elapsed = text::string_views(ages.running@);
    proof {
        assert(text::string_views(lines@) =~= seq![totals_text(*t)]);
    }
    if state.pids.len() > 0 {
        push_line(&mut lines, "── 运行中 ──".to_owned());
        let ghost head = text::string_views(lines@);
        let ghost rows = running_rows(keys, state@.pids, order@, elapsed);
        let mut i: usize = 0;
        while i < order.len()
            invariant
                i <= order@.len(),
                keys == state.pids.keys(),
                elapsed == text::string_views(ages.running@),
                ages.running@.len() == keys.len(),
                sorts_jobs(jobs_in_order(keys, state@.pids), order@),
                rows == running_rows(keys, state@.pids, order@, elapsed),
                text::string_views(lines@) =~= head + rows.take(i as int),
            decreases order.len() - i,
        {
            let k: usize = order[i];
            let line = running_line(
                state.pids.key_at(k).as_str(),
                state.pids.value_at(k),
                ages.running[k].as_str(),
            );
            proof {
                assert(rows[i as int] == line@);
            }
            push_line(&mut lines, line);
            i += 1;
        }
        proof {
            assert(rows.take(rows.len() as int) =~= rows);
        }
    }
    let ghost first = seq![totals_text(*t)] + running_part(keys, state@.pids, order@, elapsed);
    proof {
        assert(text::string_views(lines@) =~= first);
    }
    let ghost head = seq![
        Seq::<char>::empty(),
        "── 等待分配 (pending) ──"@,
        pending_head("作业"@),
    ];
    if state.pending.len() > 0 {
        push_line(&mut lines, String::new());
        push_line(&mut lines, "── 等待分配 (pending) ──".to_owned());
        push_line(&mut lines, pending_head_line("作业"));
        push_line(&mut lines, rule_string(98));
        proof {
            assert(text::string_views(lines@) =~= first + head + seq![rule(98)]);
        }
        push_pending_rows(&mut lines, &state.pending, &ages.pending);
    }
    let ghost second = first + pending_table(
        head,
        state.pending.keys(),
        state@.pending,
        text::string_views(ages.pending@),
    );
    proof {
        assert(text::string_views(lines@) =~= second);
    }
    push_queued_table(&mut lines, "── 内置队列 (queued) ──", state, &ages.queued);
    proof {
        assert(text::string_views(lines@) =~= list_text_lines(*state, *t, order@, *ages));
    }
    lines
}

/// The list of jobs with their totals; nothing where a sum does not fit 64 bits.
pub fn list_report(state: &CoreschedState, ages: &Ages) -> (r: Option<Vec<String>>)
    requires
        ages.running@.len() == state.pids.keys().len(),
        ages.pending@.len() == state.pending.keys().len(),
        ages.queued@.len() == state@.queued.len(),
    ensures
        match r {
            Some(lines) => totals_fit(*state) && exists|order: Seq<usize>| #[trigger]
                sorts_jobs(jobs_in_order(state.pids.keys(), state@.pids), order)
                    && text::string_views(lines@) == list_text_lines(
                    *state,
                    totals_of(*state),
                    order,
                    *ages,
                ),
            None => !totals_fit(*state),
        },
{
    match totals(state) {
        Some(t) => Some(list_lines(state, &t, ages)),
        None => None,
    }
}

// ---------------------------------------------------------------------------
// The allocation map
// ---------------------------------------------------------------------------

/// How a core is used, in words.
pub open spec fn core_use(st: StateView, core: u8) -> Seq<char> {
    if scheduler::core_marked(st, core) {
        "CFD"@
    } else if !scheduler::core_free(st, core) {
        "PY"@
    } else {
        "空闲"@
    }
}

/// The row of a core in the map.
pub open spec fn core_row(st: StateView, reserved: Seq<u8>, core: u8) -> Seq<char> {
    let (a, b) = topology::core_cpus(core)->0;
    "  Core "@ + text::left(text::decimal(core as nat), 4) + " "@ + text::left(
        core_use(st, core),
        8,
    ) + " "@ + text::left(text::decimal(a as nat) + ","@ + text::decimal(b as nat), 12) + " "@
        + if reserved.contains(core) {
        "仅 P2"@
    } else {
        ""@
    }
}

fn core_line(state: &CoreschedState, reserved: &Vec<u8>, core: u8) -> (r: String)
    requires
        core < topology::core_count(),
    ensures
        r@ == core_row(state@, reserved@, core),
{
    let (a, b) = match topology::logical_cpus(core) {
        Some(pair) => pair,
        None => (0, 0),
    };
    let mut r: String = "  Core ".to_owned();
    text::push_left(&mut r, text::decimal_string(core as u64).as_str(), 4);
    r.append(" ");
    let used = if scheduler::core_is_marked(state, core) {
        "CFD"
    } else if !scheduler::physical_core_is_free(state, core) {
        "PY"
    } else {
        "空闲"
    };
    text::push_left(&mut r, used, 8);
    r.append(" ");
    let mut pair = text::decimal_string(a as u64);
    pair.append(",");
    pair.append(text::decimal_string(b as u64).as_str());
    text::push_left(&mut r, pair.as_str(), 12);
    r.append(" ");
    if state::holds_number(reserved, core) {
        r.append("仅 P2");
    } else {
        r.append("");
    }
    r
}

/// The sign of a CPU in the map: in use, of a reserved core, or free.
pub open spec fn cpu_sign(st: StateView, reserved: Seq<u8>, cpu: u8) -> char {
    if !scheduler::cpu_free(st, cpu) {
        '█'
    } else if scheduler::cpus_of(reserved).contains(cpu) {
        'H'
    } else if topology::first_numbers(topology::cpu_count()).contains(cpu) {
        '░'
    } else {
        '·'
    }
}

/// The signs of the CPUs from `from` up to `to`.
pub open spec fn cpu_signs(st: StateView, reserved: Seq<u8>, from: nat, to: nat) -> Seq<char> {
    Seq::new((to - from) as nat, |i: int| cpu_sign(st, reserved, (from + i) as u8))
}

fn push_cpu_signs(r: &mut String, state: &CoreschedState, reserved: &Vec<u8>, from: u8, to: u8)
    requires
        from <= to,
    ensures
        final(r)@ == old(r)@ + cpu_signs(state@, reserved@, from as nat, to as nat),
{
    let barred = scheduler::cpus_of_cores(reserved);
    let ghost signs = cpu_signs(state@, reserved@, from as nat, to as nat);
    let mut cpu: u8 = from;
    proof {
        assert(old(r)@ + signs.take(0) =~= old(r)@);
    }
    while cpu < to
        invariant
            from <= cpu <= to,
            barred@ == scheduler::cpus_of(reserved@),
            signs == cpu_signs(state@, reserved@, from as nat, to as nat),
            r@ == old(r)@ + signs.take(cpu - from),
        decreases to - cpu,
    {
        let k = key_string(cpu);
        let used = match state.cpus.get(k.as_str()) {
            Some(v) => v.is_some(),
            None => false,
        };
        let sign = if used {
            '█'
        } else if state::holds_number(&barred, cpu) {
            'H'
        } else if topology::is_schedulable_cpu(cpu) {
            '░'
        } else {
            '·'
        };
        proof {
            assert(signs[cpu - from] == sign);
            assert(signs.take(cpu - from + 1) =~= signs.take(cpu - from).push(sign));
        }
        r.push(sign);
        cpu += 1;
    }
    proof {
        assert(signs.take(to - from) =~= signs);
    }
}

/// The line on what each priority may use.
pub open spec fn capacity_text(st: StateView, reserved: Seq<u8>) -> Seq<char> {
    let low = scheduler::eligible_cpu_list(st, JobPriority::P1);
    let high = scheduler::eligible_cpu_list(st, JobPriority::P2);
    if reserved.len() > 0 {
        "         P0/P1 上限: "@ + text::decimal(low.len()) + " 逻辑CPU；P2 上限: "@
            + text::decimal(high.len()) + "；P2 优先: "@ + text::join(
            pin::decimals(seqs::at_most(high, reserved.len() * 2)),
            ","@,
        ) + "；H = "@ + jobs::cores_text(reserved) + " 的 P2 专用逻辑CPU"@
    } else {
        "         --cpus 可调度上限: "@ + text::decimal(low.len())
            + " 逻辑CPU；· 表示保留给物理核/系统"@
    }
}

fn first_of(list: &Vec<u8>, n: usize) -> (r: Vec<u8>)
    ensures
        r@ == seqs::at_most(list@, n as nat),
{
    let mut r: Vec<u8> = Vec::new();
    let mut i: usize = 0;
    while i < list.len() && i < n
        invariant
            i <= list@.len(),
            i <= n,
            r@ =~= list@.take(i as int),
        decreases list.len() - i,
    {
        r.push(list[i]);
        i += 1;
    }
    proof {
        assert(r@ =~= seqs::at_most(list@, n as nat));
    }
    r
}

fn capacity_line(state: &CoreschedState, reserved: &Vec<u8>) -> (r: String)
    requires
        reserved@.len() <= topology::core_count(),
        forall|i: int| 0 <= i < reserved@.len() ==> #[trigger] reserved@[i] < topology::core_count(),
    ensures
        r@ == capacity_text(state@, reserved@),
{
    let low = scheduler::eligible_cpus(state, JobPriority::P1);
    let high = scheduler::eligible_cpus(state, JobPriority::P2);
    if reserved.len() > 0 {
        let mut r: String = "         P0/P1 上限: ".to_owned();
        r.append(text::decimal_string(low.len() as u64).as_str());
        r.append(" 逻辑CPU；P2 上限: ");
        r.append(text::decimal_string(high.len() as u64).as_str());
        r.append("；P2 优先: ");
        let preferred = first_of(&high, reserved.len() * 2);
        r.append(pin::pin_str(preferred.as_slice()).as_str());
        r.append("；H = ");
        r.append(jobs::describe_cores(reserved).as_str());
        r.append(" 的 P2 专用逻辑CPU");
        r
    } else {
        let mut r: String = "         --cpus 可调度上限: ".to_owned();
        r.append(text::decimal_string(low.len() as u64).as_str());
        r.append(" 逻辑CPU；· 表示保留给物理核/系统");
        r
    }
}

/// The head of the table of cores.
pub open spec fn cores_head() -> Seq<char> {
    text::centered("物理核"@, 8) + " "@ + text::centered("类型"@, 8) + " "@ + text::centered(
        "CPUs"@,
        12,
    ) + " "@ + "策略"@
}

/// The rows of all cores.
pub open spec fn core_rows(st: StateView, reserved: Seq<u8>) -> Seq<Seq<char>> {
    Seq::new(topology::core_count(), |c: int| core_row(st, reserved, c as u8))
}

/// The map: the cores, the CPUs, and what each priority may use.
pub open spec fn map_lines(st: StateView) -> Seq<Seq<char>> {
    let reserved = state::normalized(st.reserved);
    seq![Seq::<char>::empty(), cores_head(), rule(48)] + core_rows(st, reserved) + seq![
        Seq::<char>::empty(),
        "逻辑CPU: 0 1 2 3 4 5 6 7  8 9 10 11 12 13 14 15"@,
        "         "@ + cpu_signs(st, reserved, 0, 8) + "  "@ + cpu_signs(st, reserved, 8, 16),
        capacity_text(st, reserved),
        Seq::<char>::empty(),
    ]
}

fn map_part(state: &CoreschedState) -> (r: Vec<String>)
    ensures
        text::string_views(r@) == map_lines(state@),
{
    let reserved = scheduler::reserved_physical_cores(state);
    let mut lines: Vec<String> = Vec::new();
    push_line(&mut lines, String::new());
    let mut head: String = String::new();
    text::push_centered(&mut head, "物理核", 8);
    head.append(" ");
    text::push_centered(&mut head, "类型", 8);
    head.append(" ");
    text::push_centered(&mut head, "CPUs", 12);
    head.append(" ");
    head.append("策略");
    proof {
        assert(head@ =~= cores_head());
    }
    push_line(&mut lines, head);
    push_line(&mut lines, rule_string(48));
    let ghost top = text::string_views(lines@);
    let ghost rows = core_rows(state@, reserved@);
    let mut core: u8 = 0;
    while core < 8
        invariant
            core <= 8,
            rows == core_rows(state@, reserved@),
            text::string_views(lines@) =~= top + rows.take(core as int),
        decreases 8 - core,
    {
        let line = core_line(state, &reserved, core);
        proof {
            assert(rows[core as int] == line@);
        }
        push_line(&mut lines, line);
        core += 1;
    }
    proof {
        assert(rows.take(8) =~= rows);
        assert(top =~= seq![Seq::<char>::empty(), cores_head(), rule(48)]);
        state::normalized_cores(state@.reserved);
        assert forall|i: int| 0 <= i < reserved@.len() implies #[trigger] reserved@[i]
            < topology::core_count() by {
            assert(reserved@.contains(reserved@[i]));
        }
    }
    push_line(&mut lines, String::new());
    push_line(
        &mut lines,
        "逻辑CPU: 0 1 2 3 4 5 6 7  8 9 10 11 12 13 14 15".to_owned(),
    );
    let mut signs: String = "         ".to_owned();
    push_cpu_signs(&mut signs, state, &reserved, 0, 8);
    signs.append("  ");
    push_cpu_signs(&mut signs, state, &reserved, 8, 16);
    push_line(&mut lines, signs);
    push_line(&mut lines, capacity_line(state, &reserved));
    push_line(&mut lines, String::new());
    proof {
        assert(text::string_views(lines@) =~= map_lines(state@));
    }
    lines
}

/// The head of the table of running jobs.
pub open spec fn status_head() -> Seq<char> {
    text::centered("作业"@, 6) + " "@ + text::centered("优先级"@, 8) + " "@ + text::centered(
        "类型"@,
        8,
    ) + " "@ + text::centered("CPUs"@, 14) + " "@ + text::centered("PID"@, 8) + " "@
        + text::centered("耗时"@, 10) + " "@ + text::centered("进度"@, 8) + " "@ + text::centered(
        "ETA"@,
        18,
    ) + " "@ + "阶段"@
}

fn status_head_line() -> (r: String)
    ensures
        r@ == status_head(),
{
    let mut r: String = String::new();
    text::push_centered(&mut r, "作业", 6);
    r.append(" ");
    text::push_centered(&mut r, "优先级", 8);
    r.append(" ");
    text::push_centered(&mut r, "类型", 8);
    r.append(" ");
    text::push_centered(&mut r, "CPUs", 14);
    r.append(" ");
    text::push_centered(&mut r, "PID", 8);
    r.append(" ");
    text::push_centered(&mut r, "耗时", 10);
    r.append(" ");
    text::push_centered(&mut r, "进度", 8);
    r.append(" ");
    text::push_centered(&mut r, "ETA", 18);
    r.append(" ");
    r.append("阶段");
    proof {
        assert(r@ =~= status_head());
    }
    r
}

/// The part of the map on the running jobs.
pub open spec fn standings_part(
    keys: Seq<Seq<char>>,
    jobs: Map<Seq<char>, JobView>,
    order: Seq<usize>,
    standings: Seq<Standing>,
) -> Seq<Seq<char>> {
    if keys.len() == 0 {
        seq!["  (无运行中的作业)"@]
    } else {
        seq![status_head(), rule(120)] + order.map_values(
            |k: usize| status_row(keys[k as int], jobs[keys[k as int]], standings[k as int]@),
        )
    }
}

/// The title of the queue in the map.
pub open spec fn queue_title(n: nat) -> Seq<char> {
    "── 内置队列 (queued: "@ + text::decimal(n) + ") ──"@
}

/// The allocation map with the jobs.
pub open spec fn status_text_lines(
    state: CoreschedState,
    order: Seq<usize>,
    standings: Seq<Standing>,
    ages: Ages,
) -> Seq<Seq<char>> {
    map_lines(state@) + standings_part(state.pids.keys(), state@.pids, order, standings)
        + pending_table(
        seq![Seq::<char>::empty(), pending_head("等待作业"@)],
        state.pending.keys(),
        state@.pending,
        text::string_views(ages.pending@),
    ) + queued_table(
        queue_title(state@.queued.len()),
        state@.queued,
        text::string_views(ages.queued@),
    )
}

/// The allocation map with the jobs.
pub fn status_lines(state: &CoreschedState, standings: &Vec<Standing>, ages: &Ages) -> (r: Vec<
    String,
>)
    requires
        standings@.len() == state.pids.keys().len(),
        ages.pending@.len() == state.pending.keys().len(),
        ages.queued@.len() == state@.queued.len(),
    ensures
        exists|order: Seq<usize>| #[trigger]
            sorts_jobs(jobs_in_order(state.pids.keys(), state@.pids), order) && text::string_views(
                r@,
            ) == status_text_lines(*state, order, standings@, *ages),
{
    let mut lines = map_part(state);
    let order = running_order(&state.pids);
    let ghost keys = state.pids.keys();
    let ghost map = map_lines(state@);
    if state.pids.len() == 0 {
        push_line(&mut lines, "  (无运行中的作业)".to_owned());
    } else {
        push_line(&mut lines, status_head_line());
        push_line(&mut lines, rule_string(120));
        let ghost head = text::string_views(lines@);
        let ghost rows = order@.map_values(
            |k: usize| status_row(keys[k as int], state@.pids[keys[k as int]], standings@[k as int]@),
        );
        let mut i: usize = 0;
        while i < order.len()
            invariant
                i <= order@.len(),
                keys == state.pids.keys(),
                standings@.len() == keys.len(),
                sorts_jobs(jobs_in_order(keys, state@.pids), order@),
                rows == order@.map_values(
                    |k: usize|
                        status_row(
                            keys[k as int],
                            state@.pids[keys[k as int]],
                            standings@[k as int]@,
                        ),
                ),
                text::string_views(lines@) =~= head + rows.take(i as int),
            decreases order.len() - i,
        {
            let k: usize = order[i];
            let line = status_line(
                state.pids.key_at(k).as_str(),
                state.pids.value_at(k),
                &standings[k],
            );
            proof {
                assert(rows[i as int] == line@);
            }
            push_line(&mut lines, line);
            i += 1;
        }
        proof {
            assert(rows.take(rows.len() as int) =~= rows);
            assert(head =~= map + seq![status_head(), rule(120)]);
        }
    }
    let ghost first = map + standings_part(keys, state@.pids, order@, standings@);
    proof {
        assert(text::string_views(lines@) =~= first);
    }
    let ghost head = seq![Seq::<char>::empty(), pending_head("等待作业"@)];
    if state.pending.len() > 0 {
        push_line(&mut lines, String::new());
        push_line(&mut lines, pending_head_line("等待作业"));
        push_line(&mut lines, rule_string(98));
        proof {
            assert(text::string_views(lines@) =~= first + head + seq![rule(98)]);
        }
        push_pending_rows(&mut lines, &state.pending, &ages.pending);
    }
    let ghost second = first + pending_table(
        head,
        state.pending.keys(),
        state@.pending,
        text::string_views(ages.pending@),
    );
    proof {
        assert(text::string_views(lines@) =~= second);
    }
    let mut title: String = "── 内置队列 (queued: ".to_owned();
    title.append(text::decimal_string(state.queued.len() as u64).as_str());
    title.append(") ──");
    push_queued_table(&mut lines, title.as_str(), state, &ages.queued);
    proof {
        assert(text::string_views(lines@) =~= status_text_lines(
            *state,
            order@,
            standings@,
            *ages,
        ));
    }
    lines
}

} // verus!
