//! What the tables of jobs and of progress show, cell by cell.

use crate::laws::showing;
use crate::laws::submitting;
use crate::pin;
use crate::progress;
use crate::progress::ProgressInfo;
use crate::report;
use crate::report::{Ages, Standing, StandingView, Totals};
use crate::scheduler;
use crate::soundness;
use crate::state;
use crate::state::{CoreschedState, JobPriority, JobView, StateView};
use crate::summary;
use crate::text;
use crate::topology;
use vstd::prelude::*;

verus! {

/// How wide a field of the given width is for a text.
pub open spec fn width_of(s: Seq<char>, width: nat) -> nat {
    if s.len() < width {
        width
    } else {
        s.len()
    }
}

/// A longer text shows its last two parts together.
pub broadcast proof fn shows_last_two(x: Seq<char>, a: Seq<char>, b: Seq<char>)
    ensures
        #[trigger] showing::shows(x + a + b, a + b),
{
    let s = x + a + b;
    assert(s.subrange(x.len() as int, x.len() as int + (a + b).len()) =~= a + b);
}

/// A longer text shows its last three parts together.
pub broadcast proof fn shows_last_three(x: Seq<char>, a: Seq<char>, b: Seq<char>, c: Seq<char>)
    ensures
        #[trigger] showing::shows(x + a + b + c, a + b + c),
{
    let s = x + a + b + c;
    assert(s.subrange(x.len() as int, x.len() as int + (a + b + c).len()) =~= a + b + c);
}

// ---------------------------------------------------------------------------
// Cells
// ---------------------------------------------------------------------------

/// The units of a job are shown one and all, in brackets: its cores where it holds cores, else its
/// CPUs.
pub proof fn units_are_shown(job: JobView, unit: u8)
    ensures
        job.cores is Some && job.cores->0.contains(unit) ==> showing::shows(
            report::units_text(job),
            text::decimal(unit as nat),
        ),
        job.cores is None && job.cpus is Some && job.cpus->0.contains(unit) ==> showing::shows(
            report::units_text(job),
            text::decimal(unit as nat),
        ),
        job.cores == Some(seq![unit]) ==> report::units_text(job) == seq!['['] + text::decimal(
            unit as nat,
        ) + seq![']'],
        job.cores is None && job.cpus is None ==> report::units_text(job).len() == 0,
{
    broadcast use showing::shows_in_front, showing::shows_behind;

    reveal_strlit("[");
    reveal_strlit("]");
    assert("["@ =~= seq!['['] && "]"@ =~= seq![']']);
    let list = match job.cores {
        Some(cores) => cores,
        None => match job.cpus {
            Some(cpus) => cpus,
            None => Seq::empty(),
        },
    };
    if list.contains(unit) {
        let i = list.index_of(unit);
        assert(pin::decimals(list)[i] == text::decimal(unit as nat));
        submitting::joined_list_shows_each_part(pin::decimals(list), ", "@, i);
    }
    if job.cores == Some(seq![unit]) {
        assert(pin::decimals(seq![unit])[0] == text::decimal(unit as nat));
    }
}

/// The process of a job is shown by its number, zero where it has none; what it asks for by the
/// number of units and the name of the unit.
pub proof fn process_and_need_are_shown(job: JobView)
    ensures
        job.pid is Some ==> report::pid_text(job) == text::decimal(job.pid->0 as nat),
        job.pid is None ==> report::pid_text(job) == text::decimal(0),
        job.job_type == "cfd"@ ==> report::need_text(job) == text::decimal(job.need as nat) + "核"@,
        job.job_type != "cfd"@ ==> report::need_text(job) == text::decimal(job.need as nat)
            + "CPU"@,
{
}

// ---------------------------------------------------------------------------
// Rows
// ---------------------------------------------------------------------------

/// The row of a running job shows its ID, level, kind, units, process and age, and nothing else.
pub proof fn running_row_shows_the_job(jid: Seq<char>, job: JobView, elapsed: Seq<char>)
    ensures
        ({
            let row = report::running_row(jid, job, elapsed);
            &&& showing::shows(row, jid)
            &&& showing::shows(row, job.priority.label())
            &&& showing::shows(row, job.job_type)
            &&& showing::shows(row, report::units_text(job))
            &&& showing::shows(row, report::pid_text(job))
            &&& showing::shows(row, elapsed)
            &&& row.len() == 2 + width_of(jid, 6) + 1 + 1 + 1 + width_of(job.job_type, 8) + 1
                + width_of(report::units_text(job), 14) + 1 + width_of(report::pid_text(job), 8) + 1
                + elapsed.len()
        }),
{
    broadcast use showing::shows_in_front, showing::shows_behind;

    reveal_strlit("  ");
    reveal_strlit(" ");
    labels_are_short(job.priority);
    showing::field_shows_its_text(jid, 6);
    showing::field_shows_its_text(job.job_type, 8);
    showing::field_shows_its_text(report::units_text(job), 14);
    showing::field_shows_its_text(report::pid_text(job), 8);
    showing::shows_itself(job.priority.label());
    showing::shows_itself(elapsed);
}

proof fn labels_are_short(p: JobPriority)
    ensures
        p.label().len() == 1,
{
    reveal_strlit("0");
    reveal_strlit("1");
    reveal_strlit("2");
    reveal_strlit("3");
}

/// The row of a waiting job shows its ID, level, kind, need, process, age and command, and nothing
/// else.
pub proof fn pending_row_shows_the_job(jid: Seq<char>, job: JobView, elapsed: Seq<char>)
    ensures
        ({
            let row = report::pending_row(jid, job, elapsed);
            &&& showing::shows(row, jid)
            &&& showing::shows(row, job.priority.label())
            &&& showing::shows(row, job.job_type)
            &&& showing::shows(row, report::need_text(job))
            &&& showing::shows(row, report::pid_text(job))
            &&& showing::shows(row, elapsed)
            &&& showing::shows(row, summary::summary_of(job.cmd))
            &&& row.len() == 2 + width_of(jid, 6) + 1 + 1 + 1 + width_of(job.job_type, 8) + 1
                + width_of(report::need_text(job), 10) + 1 + width_of(report::pid_text(job), 8) + 1
                + elapsed.len() + 3 + summary::summary_of(job.cmd).len()
        }),
{
    broadcast use showing::shows_in_front, showing::shows_behind;

    reveal_strlit("  ");
    reveal_strlit(" ");
    reveal_strlit("   ");
    labels_are_short(job.priority);
    showing::field_shows_its_text(jid, 6);
    showing::field_shows_its_text(job.job_type, 8);
    showing::field_shows_its_text(report::need_text(job), 10);
    showing::field_shows_its_text(report::pid_text(job), 8);
    showing::shows_itself(job.priority.label());
    showing::shows_itself(elapsed);
    showing::shows_itself(summary::summary_of(job.cmd));
}

/// The row of a queued job shows its ID, level, kind, need, age and command, and nothing else.
pub proof fn queued_row_shows_the_job(job: JobView, elapsed: Seq<char>)
    ensures
        ({
            let row = report::queued_row(job, elapsed);
            &&& showing::shows(row, job.jid)
            &&& showing::shows(row, job.priority.label())
            &&& showing::shows(row, job.job_type)
            &&& showing::shows(row, report::need_text(job))
            &&& showing::shows(row, elapsed)
            &&& showing::shows(row, summary::summary_of(job.cmd))
            &&& row.len() == 2 + width_of(job.jid, 6) + 1 + 1 + 1 + width_of(job.job_type, 8) + 1
                + width_of(report::need_text(job), 10) + 1 + elapsed.len() + 3
                + summary::summary_of(job.cmd).len()
        }),
{
    broadcast use showing::shows_in_front, showing::shows_behind;

    reveal_strlit("  ");
    reveal_strlit(" ");
    reveal_strlit("   ");
    labels_are_short(job.priority);
    showing::field_shows_its_text(job.jid, 6);
    showing::field_shows_its_text(job.job_type, 8);
    showing::field_shows_its_text(report::need_text(job), 10);
    showing::shows_itself(job.priority.label());
    showing::shows_itself(elapsed);
    showing::shows_itself(summary::summary_of(job.cmd));
}

/// The row of a running job in the allocation map shows its ID, level, kind, units and process and
/// how far it has come, and nothing else.
pub proof fn status_row_shows_the_job(jid: Seq<char>, job: JobView, standing: StandingView)
    ensures
        ({
            let row = report::status_row(jid, job, standing);
            &&& showing::shows(row, jid)
            &&& showing::shows(row, job.priority.label())
            &&& showing::shows(row, job.job_type)
            &&& showing::shows(row, report::units_text(job))
            &&& showing::shows(row, report::pid_text(job))
            &&& showing::shows(row, standing.elapsed)
            &&& showing::shows(row, standing.percent)
            &&& showing::shows(row, standing.eta)
            &&& showing::shows(row, standing.phase)
            &&& row.len() == 2 + width_of(jid, 4) + 1 + 1 + 1 + width_of(job.job_type, 8) + 1
                + width_of(report::units_text(job), 14) + 1 + width_of(report::pid_text(job), 8) + 1
                + width_of(standing.elapsed, 10) + 1 + width_of(standing.percent, 8) + 1 + width_of(
                standing.eta,
                18,
            ) + 1 + standing.phase.len()
        }),
{
    broadcast use showing::shows_in_front, showing::shows_behind;

    reveal_strlit("  ");
    reveal_strlit(" ");
    labels_are_short(job.priority);
    showing::field_shows_its_text(jid, 4);
    showing::field_shows_its_text(job.job_type, 8);
    showing::field_shows_its_text(report::units_text(job), 14);
    showing::field_shows_its_text(report::pid_text(job), 8);
    showing::field_shows_its_text(standing.elapsed, 10);
    showing::field_shows_its_text(standing.percent, 8);
    showing::field_shows_its_text(standing.eta, 18);
    showing::shows_itself(job.priority.label());
    showing::shows_itself(standing.phase);
}

// ---------------------------------------------------------------------------
// Totals
// ---------------------------------------------------------------------------

/// What a list of jobs asks for, and how many of them are of a level, adds up job by job.
pub proof fn totals_add_up(
    a: Seq<JobView>,
    b: Seq<JobView>,
    job: JobView,
    job_type: Seq<char>,
    priority: JobPriority,
)
    ensures
        report::total_need(a + b, job_type) == report::total_need(a, job_type) + report::total_need(
            b,
            job_type,
        ),
        report::count_at(a + b, priority) == report::count_at(a, priority) + report::count_at(
            b,
            priority,
        ),
        report::total_need(seq![job], job_type) == if job.job_type == job_type {
            job.need as nat
        } else {
            0
        },
        report::count_at(seq![job], priority) == if job.priority == priority {
            1nat
        } else {
            0
        },
        report::total_need(Seq::empty(), job_type) == 0,
        report::count_at(Seq::empty(), priority) == 0,
    decreases b.len(),
{
    reveal_with_fuel(report::total_need, 2);
    reveal_with_fuel(report::count_at, 2);
    assert(seq![job].drop_last() =~= Seq::<JobView>::empty());
    if b.len() == 0 {
        assert(a + b =~= a);
    } else {
        totals_add_up(a, b.drop_last(), job, job_type, priority);
        assert((a + b).drop_last() =~= a + b.drop_last());
        assert((a + b).last() == b.last());
    }
}

/// The totals of a state are those of its jobs: how many run, wait and are queued and, of those
/// that wait or are queued, how many are of P2 and how many cores and CPUs they ask for.
pub proof fn totals_are_those_of_the_state(state: CoreschedState)
    requires
        report::totals_fit(state),
    ensures
        ({
            let t = report::totals_of(state);
            let waiting = report::jobs_in_order(state.pending.keys(), state@.pending);
            &&& t.running == state.pids.keys().len() as u64
            &&& t.pending == state.pending.keys().len()
            &&& t.queued == state@.queued.len()
            &&& t.calibration == report::count_at(waiting, JobPriority::P2) + report::count_at(
                state@.queued,
                JobPriority::P2,
            )
            &&& t.cfd_cores == report::total_need(waiting, "cfd"@) + report::total_need(
                state@.queued,
                "cfd"@,
            )
            &&& t.py_cpus == report::total_need(waiting, "py"@) + report::total_need(
                state@.queued,
                "py"@,
            )
        }),
{
    let waiting = report::jobs_in_order(state.pending.keys(), state@.pending);
    let job = waiting[0];
    totals_add_up(waiting, state@.queued, job, "cfd"@, JobPriority::P2);
    totals_add_up(waiting, state@.queued, job, "py"@, JobPriority::P2);
    counts_are_small(report::all_waiting(state), JobPriority::P2);
}

proof fn counts_are_small(jobs: Seq<JobView>, priority: JobPriority)
    ensures
        report::count_at(jobs, priority) <= jobs.len(),
    decreases jobs.len(),
{
    if jobs.len() > 0 {
        counts_are_small(jobs.drop_last(), priority);
    }
}

/// The line of totals tells every figure under its name.
pub proof fn totals_are_told(t: Totals)
    ensures
        ({
            let told = report::totals_text(t);
            &&& showing::shows(told, "运行: "@ + text::decimal(t.running as nat))
            &&& showing::shows(told, " | 排队: "@ + text::decimal((t.pending + t.queued) as nat))
            &&& showing::shows(told, " (pending: "@ + text::decimal(t.pending as nat))
            &&& showing::shows(told, " + queued: "@ + text::decimal(t.queued as nat) + ") | P2等待: "@)
            &&& showing::shows(
                told,
                ") | P2等待: "@ + text::decimal(t.calibration as nat) + " | CFD: "@,
            )
            &&& showing::shows(
                told,
                " | CFD: "@ + text::decimal(t.cfd_cores as nat) + "核 | Python: "@,
            )
            &&& showing::shows(
                told,
                "核 | Python: "@ + text::decimal(t.py_cpus as nat) + "CPU"@,
            )
        }),
{
    broadcast use {showing::shows_in_front, showing::shows_behind, shows_last_two, shows_last_three};

    showing::shows_itself("运行: "@ + text::decimal(t.running as nat));
}

// ---------------------------------------------------------------------------
// The list
// ---------------------------------------------------------------------------

/// Every running job has one row in the list, and the rows come by the first unit that the jobs
/// hold; a job's first unit is the first of its cores, else of its CPUs.
pub proof fn running_jobs_are_listed_by_their_first_unit(
    keys: Seq<Seq<char>>,
    by_id: Map<Seq<char>, JobView>,
    order: Seq<usize>,
    elapsed: Seq<Seq<char>>,
    i: int,
    j: int,
)
    requires
        report::sorts_jobs(report::jobs_in_order(keys, by_id), order),
        0 <= i < j < keys.len(),
    ensures
        ({
            let rows = report::running_rows(keys, by_id, order, elapsed);
            let a = by_id[keys[order[i] as int]];
            let b = by_id[keys[order[j] as int]];
            &&& rows.len() == keys.len()
            &&& order[i] != order[j]
            &&& order[i] < keys.len()
            &&& rows[i] == report::running_row(
                keys[order[i] as int],
                a,
                elapsed[order[i] as int],
            )
            &&& a.cores is Some && a.cores->0.len() > 0 && b.cores is Some && b.cores->0.len() > 0
                ==> a.cores->0[0] <= b.cores->0[0]
            &&& a.cores is None && a.cpus is Some && a.cpus->0.len() > 0 && b.cores is None
                && b.cpus is Some && b.cpus->0.len() > 0 ==> a.cpus->0[0] <= b.cpus->0[0]
            &&& a.cores is Some && a.cores->0.len() > 0 && b.cores is None && b.cpus is Some
                && b.cpus->0.len() > 0 ==> a.cores->0[0] <= b.cpus->0[0]
            &&& a.cores is None && a.cpus is Some && a.cpus->0.len() > 0 && b.cores is Some
                && b.cores->0.len() > 0 ==> a.cpus->0[0] <= b.cores->0[0]
            &&& a.cores is None && a.cpus is None && b.cores is Some && b.cores->0.len() > 0
                ==> b.cores->0[0] >= 99
        }),
{
    let jobs = report::jobs_in_order(keys, by_id);
    assert(report::comes_before(jobs, order[i], order[j]));
    assert(order[i] < jobs.len() && order[j] < jobs.len());
}

/// The list holds the line of totals, then a row for each running job, each waiting job and each
/// queued job, under the title of its part, and no part where there are no such jobs.
pub proof fn list_has_a_row_for_each_job(
    state: CoreschedState,
    t: Totals,
    order: Seq<usize>,
    ages: Ages,
    i: int,
    j: int,
    k: int,
)
    requires
        order.len() == state.pids.keys().len(),
        ages.running@.len() == state.pids.keys().len(),
        ages.pending@.len() == state.pending.keys().len(),
        ages.queued@.len() == state@.queued.len(),
    ensures
        ({
            let lines = report::list_text_lines(state, t, order, ages);
            let running = state.pids.keys().len();
            let waiting = state.pending.keys().len();
            let queued = state@.queued.len();
            let first = 1 + if running == 0 {
                0
            } else {
                running as int + 1
            };
            let second = first + if waiting == 0 {
                0
            } else {
                waiting as int + 4
            };
            &&& lines.len() == second + if queued == 0 {
                0
            } else {
                queued as int + 4
            }
            &&& lines[0] == report::totals_text(t)
            &&& 0 <= i < running ==> lines[2 + i] == report::running_row(
                state.pids.keys()[order[i] as int],
                state@.pids[state.pids.keys()[order[i] as int]],
                text::string_views(ages.running@)[order[i] as int],
            )
            &&& 0 <= j < waiting ==> lines[first + 4 + j] == report::pending_row(
                state.pending.keys()[j],
                state@.pending[state.pending.keys()[j]],
                ages.pending@[j]@,
            )
            &&& 0 <= k < queued ==> lines[second + 4 + k] == report::queued_row(
                state@.queued[k],
                ages.queued@[k]@,
            )
        }),
{
    let running_part = report::running_part(
        state.pids.keys(),
        state@.pids,
        order,
        text::string_views(ages.running@),
    );
    let rows = report::running_rows(
        state.pids.keys(),
        state@.pids,
        order,
        text::string_views(ages.running@),
    );
    if state.pids.keys().len() > 0 {
        assert(running_part.len() == rows.len() + 1);
        if 0 <= i < state.pids.keys().len() {
            assert(running_part[1 + i] == rows[i]);
        }
    }
}

/// The allocation map ends with a row for each running job, each waiting job and each queued job.
pub proof fn status_has_a_row_for_each_job(
    state: CoreschedState,
    order: Seq<usize>,
    standings: Seq<Standing>,
    ages: Ages,
    i: int,
    j: int,
    k: int,
)
    requires
        order.len() == state.pids.keys().len(),
        standings.len() == state.pids.keys().len(),
        ages.pending@.len() == state.pending.keys().len(),
        ages.queued@.len() == state@.queued.len(),
    ensures
        ({
            let lines = report::status_text_lines(state, order, standings, ages);
            let map = report::map_lines(state@).len() as int;
            let running = state.pids.keys().len();
            let waiting = state.pending.keys().len();
            let queued = state@.queued.len();
            let first = map + if running == 0 {
                1
            } else {
                running as int + 2
            };
            let second = first + if waiting == 0 {
                0
            } else {
                waiting as int + 3
            };
            &&& lines.len() == second + if queued == 0 {
                0
            } else {
                queued as int + 4
            }
            &&& lines.take(map) == report::map_lines(state@)
            &&& 0 <= i < running ==> lines[map + 2 + i] == report::status_row(
                state.pids.keys()[order[i] as int],
                state@.pids[state.pids.keys()[order[i] as int]],
                standings[order[i] as int]@,
            )
            &&& 0 <= j < waiting ==> lines[first + 3 + j] == report::pending_row(
                state.pending.keys()[j],
                state@.pending[state.pending.keys()[j]],
                ages.pending@[j]@,
            )
            &&& 0 <= k < queued ==> lines[second + 4 + k] == report::queued_row(
                state@.queued[k],
                ages.queued@[k]@,
            )
        }),
{
    let lines = report::status_text_lines(state, order, standings, ages);
    let map = report::map_lines(state@);
    assert(lines.take(map.len() as int) =~= map);
}

// ---------------------------------------------------------------------------
// The map of the CPUs
// ---------------------------------------------------------------------------

/// A CPU is shown as in use exactly where a running job holds it, alone or with its core; else as
/// kept for P2 exactly where its core is reserved; else as free. The signs stand in two groups of
/// eight, in the order of the CPUs.
pub proof fn cpu_is_shown_as_it_is_held(st: StateView, cpu: u8)
    requires
        soundness::consistent(st),
        cpu < topology::cpu_count(),
    ensures
        ({
            let line = report::map_lines(st)[13];
            let at = if cpu < 8 {
                9 + cpu as int
            } else {
                11 + cpu as int
            };
            let held = exists|jid: Seq<char>| #[trigger]
                st.pids.contains_key(jid) && ((st.pids[jid].cpus is Some
                    && st.pids[jid].cpus->0.contains(cpu)) || (st.pids[jid].cores is Some
                    && exists|core: u8|
                    st.pids[jid].cores->0.contains(core) && #[trigger] topology::on_core(
                        cpu,
                        core,
                    )));
            let kept = exists|core: u8|
                st.reserved.contains(core) && #[trigger] topology::on_core(cpu, core);
            &&& line.len() == 27
            &&& line[at] == '█' <==> held
            &&& line[at] == 'H' <==> !held && kept
            &&& line[at] == '░' <==> !held && !kept
        }),
{
    reveal_strlit("         ");
    reveal_strlit("  ");
    let reserved = state::normalized(st.reserved);
    let line = report::map_lines(st)[13];
    let low = report::cpu_signs(st, reserved, 0, 8);
    let high = report::cpu_signs(st, reserved, 8, 16);
    assert(line =~= "         "@ + low + "  "@ + high);
    let at = if cpu < 8 {
        9 + cpu as int
    } else {
        11 + cpu as int
    };
    if cpu < 8 {
        assert(line[at] == low[cpu as int]);
    } else {
        assert(line[at] == high[cpu - 8]);
    }
    assert(line[at] == report::cpu_sign(st, reserved, cpu));
    let held = exists|jid: Seq<char>| #[trigger]
        st.pids.contains_key(jid) && ((st.pids[jid].cpus is Some && st.pids[jid].cpus->0.contains(
            cpu,
        )) || (st.pids[jid].cores is Some && exists|core: u8|
            st.pids[jid].cores->0.contains(core) && #[trigger] topology::on_core(cpu, core)));
    assert(held == !scheduler::cpu_free(st, cpu)) by {
        if held {
            let jid = choose|jid: Seq<char>| #[trigger]
                st.pids.contains_key(jid) && ((st.pids[jid].cpus is Some
                    && st.pids[jid].cpus->0.contains(cpu)) || (st.pids[jid].cores is Some
                    && exists|core: u8|
                    st.pids[jid].cores->0.contains(core) && #[trigger] topology::on_core(
                        cpu,
                        core,
                    )));
            held_by(st.pids[jid], cpu);
            assert(soundness::holds_cpu(st, jid, cpu));
        }
        if !scheduler::cpu_free(st, cpu) {
            let jid = choose|jid: Seq<char>| #[trigger] soundness::holds_cpu(st, jid, cpu);
            held_by(st.pids[jid], cpu);
            assert(st.pids.contains_key(jid));
        }
    }
    let kept = exists|core: u8|
        st.reserved.contains(core) && #[trigger] topology::on_core(cpu, core);
    state::normalized_cores(st.reserved);
    assert(kept == scheduler::cpus_of(reserved).contains(cpu)) by {
        on_listed(reserved, cpu);
        if kept {
            let core = choose|core: u8|
                st.reserved.contains(core) && #[trigger] topology::on_core(cpu, core);
            assert(reserved.contains(core) && topology::on_core(cpu, core));
        }
    }
    topology::first_numbers_members(topology::cpu_count());
}

proof fn on_listed(cores: Seq<u8>, cpu: u8)
    ensures
        scheduler::cpus_of(cores).contains(cpu) == exists|core: u8|
            cores.contains(core) && #[trigger] topology::on_core(cpu, core),
{
    scheduler::cpus_of_members(cores, cpu);
    if scheduler::cpus_of(cores).contains(cpu) {
        let i = choose|i: int| 0 <= i < cores.len() && topology::on_core(cpu, #[trigger] cores[i]);
        assert(cores.contains(cores[i]) && topology::on_core(cpu, cores[i]));
    }
    if exists|core: u8| cores.contains(core) && #[trigger] topology::on_core(cpu, core) {
        let core = choose|core: u8|
            cores.contains(core) && #[trigger] topology::on_core(cpu, core);
        assert(topology::on_core(cpu, cores[cores.index_of(core)]));
    }
}

proof fn held_by(job: JobView, cpu: u8)
    ensures
        scheduler::held_cpus(job).contains(cpu) == ((job.cpus is Some && job.cpus->0.contains(cpu))
            || (job.cores is Some && exists|core: u8|
            job.cores->0.contains(core) && #[trigger] topology::on_core(cpu, core))),
{
    let cores = scheduler::held_cores(job);
    on_listed(cores, cpu);
    let a = scheduler::cpus_of(cores);
    let b = match job.cpus {
        Some(cpus) => cpus,
        None => Seq::empty(),
    };
    let s = a + b;
    if s.contains(cpu) {
        let i = s.index_of(cpu);
        if i < a.len() {
            assert(a[i] == cpu);
        } else {
            assert(b[i - a.len()] == cpu);
        }
    }
    if a.contains(cpu) {
        assert(s[a.index_of(cpu)] == cpu);
    }
    if b.contains(cpu) {
        assert(s[a.len() + b.index_of(cpu)] == cpu);
    }
}

/// A core's row names the core and its two CPUs and is marked as kept for P2 exactly where the core
/// is reserved.
pub proof fn core_row_marks_reserved_cores(st: StateView, core: u8)
    requires
        core < topology::core_count(),
    ensures
        ({
            let row = report::map_lines(st)[3 + core as int];
            let (a, b) = topology::core_cpus(core)->0;
            &&& showing::shows(row, "  Core "@ + text::left(text::decimal(core as nat), 4))
            &&& showing::shows(row, text::decimal(a as nat) + ","@ + text::decimal(b as nat))
            &&& row[row.len() - 1] == '2' <==> st.reserved.contains(core)
            &&& st.reserved.contains(core) ==> showing::shows(row, "仅 P2"@)
        }),
{
    broadcast use showing::shows_in_front, showing::shows_behind;

    reveal_strlit("仅 P2");
    reveal_strlit("");
    reveal_strlit(" ");
    let reserved = state::normalized(st.reserved);
    let (a, b) = topology::core_cpus(core)->0;
    let pair = text::decimal(a as nat) + ","@ + text::decimal(b as nat);
    state::normalized_cores(st.reserved);
    showing::shows_itself("  Core "@ + text::left(text::decimal(core as nat), 4));
    showing::field_shows_its_text(pair, 12);
    showing::shows_itself("仅 P2"@);
    assert(report::map_lines(st)[3 + core as int] == report::core_rows(st, reserved)[core as int]);
    let row = report::core_row(st, reserved, core);
    if !reserved.contains(core) {
        assert(""@ =~= Seq::<char>::empty());
        assert(row.last() == ' ');
    } else {
        assert(row.last() == '2');
    }
}

/// The line on capacities tells how many CPUs P0 and P1 and, under a reservation, P2 may use, which
/// P2 takes first, and every reserved core.
pub proof fn capacities_are_told(st: StateView, core: u8)
    ensures
        ({
            let told = report::map_lines(st)[14];
            let reserved = state::normalized(st.reserved);
            let low = scheduler::eligible_cpu_list(st, JobPriority::P1);
            let high = scheduler::eligible_cpu_list(st, JobPriority::P2);
            &&& reserved.len() > 0 ==> {
                &&& showing::shows(told, "         P0/P1 上限: "@ + text::decimal(low.len()))
                &&& showing::shows(
                    told,
                    " 逻辑CPU；P2 上限: "@ + text::decimal(high.len()) + "；P2 优先: "@,
                )
            }
            &&& reserved.len() == 0 ==> showing::shows(
                told,
                "         --cpus 可调度上限: "@ + text::decimal(low.len()),
            )
            &&& reserved.len() > 0 && 2 * reserved.len() <= high.len() ==> showing::shows(
                told,
                "；P2 优先: "@ + text::join(
                    pin::decimals(high.take((2 * reserved.len()) as int)),
                    ","@,
                ) + "；H = "@,
            )
            &&& reserved.contains(core) ==> showing::shows(told, text::decimal(core as nat))
        }),
{
    broadcast use {showing::shows_in_front, showing::shows_behind, shows_last_three};

    let reserved = state::normalized(st.reserved);
    let low = scheduler::eligible_cpu_list(st, JobPriority::P1);
    showing::shows_itself("         P0/P1 上限: "@ + text::decimal(low.len()));
    showing::shows_itself("         --cpus 可调度上限: "@ + text::decimal(low.len()));
    if reserved.contains(core) {
        let parts = reserved.map_values(|c: u8| crate::jobs::core_text(c));
        let i = reserved.index_of(core);
        assert(parts[i] == crate::jobs::core_text(core));
        submitting::joined_list_shows_each_part(parts, "；"@, i);
        showing::shows_itself(text::decimal(core as nat));
        assert(showing::shows(crate::jobs::core_text(core), text::decimal(core as nat)));
        submitting::shown_in_shown(
            text::join(parts, "；"@),
            crate::jobs::core_text(core),
            text::decimal(core as nat),
        );
        assert(showing::shows(crate::jobs::cores_text(reserved), text::decimal(core as nat)));
    }
}

// ---------------------------------------------------------------------------
// Progress
// ---------------------------------------------------------------------------

/// The row of a job's progress shows its ID and units, the cells for the percentage, the simulated
/// time, the steps and the time that is left, the phase and the speed, and nothing else.
pub proof fn progress_row_shows_its_cells(info: ProgressInfo)
    ensures
        ({
            let row = progress::progress_row(info);
            let phase = match info.phase {
                Some(p) => p@,
                None => "-"@,
            };
            let speed = match progress::step_speed(info) {
                Some(s) => s,
                None => "N/A"@,
            };
            &&& showing::shows(row, info.jid@)
            &&& showing::shows(row, info.core_label@)
            &&& showing::shows(row, progress::percent_cell(info))
            &&& showing::shows(row, progress::time_cell(info))
            &&& showing::shows(row, progress::steps_cell(info))
            &&& showing::shows(row, progress::eta_cell(info))
            &&& showing::shows(row, phase)
            &&& showing::shows(row, speed)
            &&& row.len() == 2 + width_of(info.jid@, 4) + 1 + width_of(info.core_label@, 8) + 1
                + width_of(progress::percent_cell(info), 8) + 1 + width_of(
                progress::time_cell(info),
                16,
            ) + 1 + width_of(progress::steps_cell(info), 12) + 1 + width_of(
                progress::eta_cell(info),
                18,
            ) + 1 + width_of(phase, 20) + 1 + speed.len()
        }),
{
    broadcast use showing::shows_in_front, showing::shows_behind;

    reveal_strlit("  ");
    reveal_strlit(" ");
    showing::field_shows_its_text(info.jid@, 4);
    showing::field_shows_its_text(info.core_label@, 8);
    showing::field_shows_its_text(progress::percent_cell(info), 8);
    showing::field_shows_its_text(progress::time_cell(info), 16);
    showing::field_shows_its_text(progress::steps_cell(info), 12);
    showing::field_shows_its_text(progress::eta_cell(info), 18);
    showing::field_shows_its_text(progress::text_or(info.phase, "-"@), 20);
    let speed = match progress::step_speed(info) {
        Some(s) => s,
        None => "N/A"@,
    };
    showing::shows_itself(speed);
}

/// The cells of a row hold the figures where they are known, and say so where they are not: the
/// percentage, how far the simulated time has come of its end, how many steps are done of how many,
/// the time that is left, and the seconds for each step once one is done.
pub proof fn progress_cells_hold_the_figures(info: ProgressInfo)
    ensures
        info.progress_pct matches Some(p) ==> progress::percent_cell(info) == text::right(p@, 5)
            + "%"@,
        info.progress_pct is None ==> progress::percent_cell(info) == "   N/A"@,
        info.current_time matches Some(c) ==> info.end_time matches Some(e) ==> progress::time_cell(
            info,
        ) == c@ + "/"@ + e@,
        info.current_time matches Some(c) ==> info.end_time is None ==> progress::time_cell(info)
            == c@ + "/?"@,
        info.current_time is None ==> progress::time_cell(info) == "?/?"@,
        info.steps_done matches Some(d) ==> info.steps_total matches Some(n)
            ==> progress::steps_cell(info) == text::decimal(d as nat) + "/"@ + text::decimal(
            n as nat,
        ),
        info.steps_done matches Some(d) ==> info.steps_total is None ==> progress::steps_cell(info)
            == text::decimal(d as nat) + "/?"@,
        info.steps_done is None ==> progress::steps_cell(info) == "N/A"@,
        info.eta_seconds matches Some(left) ==> progress::eta_cell(info) == "剩余≈"@
            + progress::duration_text(left),
        info.eta_seconds is None ==> progress::eta_cell(info) == "N/A"@,
        info.steps_done matches Some(d) ==> info.step_seconds matches Some(s) ==> d > 0
            ==> progress::step_speed(info) == Some(s@ + "s/步"@),
        info.steps_done is None || info.steps_done == Some(0u64) || info.step_seconds is None
            ==> progress::step_speed(info) is None,
{
}

/// The detailed view of a job begins with its ID, its units and how long it has been running; a
/// fault follows and ends it.
pub proof fn detail_begins_with_the_job(info: ProgressInfo)
    ensures
        ({
            let lines = progress::detail(info);
            &&& lines.len() > 0
            &&& lines[0] == "作业 "@ + info.jid@ + "  核心 "@ + info.core_label@ + "  已运行 "@
                + progress::duration_text(info.wall_elapsed)
            &&& info.error matches Some(fault) ==> lines.len() == 2 && lines[1] == "  错误: "@
                + fault.words()
            &&& info.error is None ==> lines.len() > 1
        }),
{
}

/// The detailed view of a job without a fault tells everything that is known: the phase, the
/// simulated time, the steps, the speed, the time that is left with the time of day at which it
/// ends, and the case.
pub proof fn detail_tells_what_is_known(info: ProgressInfo)
    requires
        info.error is None,
    ensures
        ({
            let lines = progress::detail(info);
            &&& info.phase matches Some(p) ==> lines.contains("  当前阶段:  "@ + p@)
            &&& info.case_dir matches Some(d) ==> lines.contains("  Case:      "@ + d@)
            &&& info.eta_seconds matches Some(left) ==> lines.contains(
                "  预计剩余:  "@ + progress::duration_text(left),
            ) && lines.contains("  预计完成:  "@ + progress::time_of_day(info.finish_time))
            &&& info.start_time matches Some(s) ==> info.current_time is Some && info.end_time
                is Some ==> lines.contains("  阶段起点:  "@ + s@)
            &&& info.steps_done matches Some(d) ==> info.step_seconds matches Some(s) ==> d > 0
                ==> lines.contains("  平均步速:  "@ + (s@ + "s/步"@))
            &&& info.steps_done matches Some(d) ==> info.steps_total matches Some(n)
                ==> info.delta_t matches Some(dt) ==> lines.contains(
                "  时间步:    "@ + text::decimal(d as nat) + " / "@ + text::decimal(n as nat)
                    + "  (deltaT="@ + dt@ + ")"@,
            )
            &&& info.steps_done matches Some(d) ==> info.steps_total is None
                && info.adaptive_time_step ==> lines.contains(
                "  时间步:    "@ + text::decimal(d as nat) + " / ?  (自适应)"@,
            )
            &&& info.current_time matches Some(c) ==> info.end_time matches Some(e)
                ==> info.progress_pct matches Some(p) ==> lines.contains(
                "  仿真时间:  "@ + c@ + " / "@ + e@ + "  ("@ + p@ + "%)"@,
            )
            &&& info.current_time matches Some(c) ==> info.end_time is None ==> lines.contains(
                "  仿真时间:  "@ + c@ + " / ?"@,
            )
            &&& info.current_time matches Some(c) ==> info.end_time matches Some(e)
                ==> info.progress_pct is None ==> lines.contains(
                "  仿真时间:  "@ + c@ + " / "@ + e@ + "  ("@ + "0.0"@ + "%)"@,
            )
            &&& info.steps_done matches Some(d) ==> info.delta_t matches Some(dt)
                ==> info.steps_total is None && !info.adaptive_time_step ==> lines.contains(
                "  时间步:    "@ + text::decimal(d as nat) + " / ?  (deltaT="@ + dt@ + ")"@,
            )
            &&& info.current_time is None ==> lines.contains("  仿真时间:  (等待日志输出)"@)
        }),
{
    let head = seq![progress::detail_head(info)];
    let phase = progress::line_list(
        match info.phase {
            Some(p) => Some("  当前阶段:  "@ + p@),
            None => None,
        },
    );
    let time = progress::time_lines(info);
    let steps = progress::line_list(progress::steps_line(info));
    let speed = progress::line_list(
        match progress::step_speed(info) {
            Some(s) => Some("  平均步速:  "@ + s),
            None => None,
        },
    );
    let eta = progress::eta_lines(info);
    let case = progress::line_list(
        match info.case_dir {
            Some(d) => Some("  Case:      "@ + d@),
            None => None,
        },
    );
    let lines = progress::detail(info);
    assert(lines =~= head + phase + time + steps + speed + eta + case);
    let a = head.len() as int;
    let b = a + phase.len();
    let c = b + time.len();
    let d = c + steps.len();
    let e = d + speed.len();
    let f = e + eta.len();
    if info.phase is Some {
        assert(lines[a] == phase[0]);
    }
    assert(lines[b] == time[0]);
    if time.len() > 1 {
        assert(lines[b + 1] == time[1]);
    }
    if steps.len() > 0 {
        assert(lines[c] == steps[0]);
    }
    if speed.len() > 0 {
        assert(lines[d] == speed[0]);
    }
    if eta.len() > 0 {
        assert(lines[e] == eta[0]);
        assert(lines[e + 1] == eta[1]);
    }
    if case.len() > 0 {
        assert(lines[f] == case[0]);
    }
}

/// The title of the queue tells how many jobs are in it.
pub proof fn queue_title_tells_the_number(n: nat)
    ensures
        showing::shows(report::queue_title(n), text::decimal(n)),
{
    broadcast use showing::shows_in_front, showing::shows_behind;

    showing::shows_itself(text::decimal(n));
}

} // verus!
