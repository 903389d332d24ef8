//! When jobs start, in which order, and on what.

use crate::jobs;
use crate::jobs::JobKind;
use crate::scheduler;
use crate::seqs;
use crate::soundness;
use crate::state;
use crate::state::{JobPriority, JobView, StateView, Timestamp};
use crate::topology;
use vstd::prelude::*;

verus! {

/// Different members of a list are no more than the list is long.
pub proof fn distinct_members_are_no_more(units: Seq<u8>, list: Seq<u8>)
    requires
        units.no_duplicates(),
        forall|u: u8| #[trigger] units.contains(u) ==> list.contains(u),
    ensures
        units.len() <= list.len(),
{
    units.unique_seq_to_set();
    list.lemma_cardinality_of_set();
    vstd::seq_lib::seq_to_set_is_finite(list);
    assert(units.to_set().subset_of(list.to_set()));
    vstd::set_lib::lemma_len_subset(units.to_set(), list.to_set());
}

/// The free units of a kind, as a list: those that a priority may use and that the tables do not
/// show as taken.
proof fn free_units(st: StateView, priority: JobPriority, u: u8)
    ensures
        scheduler::free_cores(st, priority).contains(u) == (scheduler::eligible_cores(
            st,
            priority,
        ).contains(u) && scheduler::core_free(st, u)),
        scheduler::free_cpus(st, priority).contains(u) == (scheduler::eligible_cpu_list(
            st,
            priority,
        ).contains(u) && scheduler::cpu_free(st, u)),
{
    seqs::filter_members(
        scheduler::eligible_cores(st, priority),
        |c: u8| scheduler::core_free(st, c),
        u,
    );
    seqs::filter_members(
        scheduler::eligible_cpu_list(st, priority),
        |c: u8| scheduler::cpu_free(st, c),
        u,
    );
}

/// As many units are available as there are different ones that the priority may use and that are
/// free: whoever finds `units.len()` of them finds no more than that.
proof fn found_units_are_available(
    st: StateView,
    job_type: Seq<char>,
    priority: JobPriority,
    units: Seq<u8>,
)
    requires
        units.no_duplicates(),
        job_type == "cfd"@ ==> forall|u: u8| #[trigger]
            units.contains(u) ==> scheduler::eligible_cores(st, priority).contains(u)
                && scheduler::core_free(st, u),
        job_type != "cfd"@ ==> job_type == "py"@ && forall|u: u8| #[trigger]
            units.contains(u) ==> scheduler::eligible_cpu_list(st, priority).contains(u)
                && scheduler::cpu_free(st, u),
    ensures
        units.len() <= scheduler::available(st, job_type, priority),
{
    let list = if job_type == "cfd"@ {
        scheduler::free_cores(st, priority)
    } else {
        scheduler::free_cpus(st, priority)
    };
    assert forall|u: u8| #[trigger] units.contains(u) implies list.contains(u) by {
        free_units(st, priority, u);
    }
    distinct_members_are_no_more(units, list);
}

/// A `run` job starts whenever it can: where no other waiting job and no queued job is above it,
/// and there are as many different free units for it as it asks for, the attempt succeeds. Then it
/// runs, with as many units as it asked for, and waits no more.
pub proof fn run_starts_whenever_it_can(
    st: StateView,
    jid: Seq<char>,
    kind: JobKind,
    n: u8,
    priority: JobPriority,
    units: Seq<u8>,
    now: Timestamp,
    command: Seq<Seq<char>>,
    output: Seq<char>,
)
    requires
        forall|other: Seq<char>| #[trigger]
            st.pending.contains_key(other) && other != jid ==> st.pending[other].priority.rank()
                <= priority.rank(),
        forall|i: int|
            0 <= i < st.queued.len() ==> (#[trigger] st.queued[i]).priority.rank()
                <= priority.rank(),
        units.no_duplicates(),
        units.len() == n,
        kind == JobKind::Cfd ==> forall|u: u8| #[trigger]
            units.contains(u) ==> {
                &&& scheduler::eligible_cores(st, priority).contains(u)
                &&& !(st.cfd.contains_key(state::key(u)) && st.cfd[state::key(u)])
                &&& forall|cpu: u8| #[trigger]
                    topology::on_core(cpu, u) ==> !(st.cpus.contains_key(state::key(cpu))
                        && st.cpus[state::key(cpu)] is Some)
            },
        kind == JobKind::Py ==> forall|u: u8| #[trigger]
            units.contains(u) ==> {
                &&& scheduler::eligible_cpu_list(st, priority).contains(u)
                &&& !(st.cpus.contains_key(state::key(u)) && st.cpus[state::key(u)] is Some)
            },
    ensures
        jobs::may_start(st, jid, kind, n, priority),
        ({
            let after = jobs::run_started(st, jid, kind, n, priority, now, command, output);
            let job = after.pids[jid];
            &&& after.pids.contains_key(jid)
            &&& !after.pending.contains_key(jid)
            &&& kind == JobKind::Cfd ==> job.cpus is None && job.cores is Some
                && job.cores->0.len() == n
            &&& kind == JobKind::Py ==> job.cores is None && job.cpus is Some
                && job.cpus->0.len() == n
        }),
{
    jobs::kinds_differ();
    scheduler::eligible_lists_are_sound(st, priority);
    if kind == JobKind::Cfd {
        assert forall|u: u8| #[trigger] units.contains(u) implies scheduler::core_free(st, u) by {
            assert(scheduler::eligible_cores(st, priority).contains(u));
            let (a, b) = topology::core_cpus(u)->0;
            assert(topology::on_core(a, u) && topology::on_core(b, u));
        }
    }
    found_units_are_available(st, kind.stored_name(), priority, units);
    soundness::full_grant(st, kind.stored_name(), n, priority);
}

/// A `run` job starts only where it may: nothing waits or is queued above it, and it is given as
/// many different units as it asks for, all of them units that its priority may use and that no
/// table shows as taken.
pub proof fn run_starts_only_where_it_may(
    st: StateView,
    jid: Seq<char>,
    kind: JobKind,
    n: u8,
    priority: JobPriority,
    now: Timestamp,
    command: Seq<Seq<char>>,
    output: Seq<char>,
)
    requires
        jobs::may_start(st, jid, kind, n, priority),
    ensures
        forall|other: Seq<char>| #[trigger]
            st.pending.contains_key(other) && other != jid ==> st.pending[other].priority.rank()
                <= priority.rank(),
        forall|i: int|
            0 <= i < st.queued.len() ==> (#[trigger] st.queued[i]).priority.rank()
                <= priority.rank(),
        ({
            let job =
                jobs::run_started(st, jid, kind, n, priority, now, command, output).pids[jid];
            let units = if kind == JobKind::Cfd {
                job.cores->0
            } else {
                job.cpus->0
            };
            &&& units.no_duplicates()
            &&& units.len() == n
            &&& kind == JobKind::Cfd ==> forall|u: u8| #[trigger]
                units.contains(u) ==> {
                    &&& scheduler::eligible_cores(st, priority).contains(u)
                    &&& !(st.cfd.contains_key(state::key(u)) && st.cfd[state::key(u)])
                    &&& forall|cpu: u8| #[trigger]
                        topology::on_core(cpu, u) ==> !(st.cpus.contains_key(state::key(cpu))
                            && st.cpus[state::key(cpu)] is Some)
                }
            &&& kind == JobKind::Py ==> forall|u: u8| #[trigger]
                units.contains(u) ==> {
                    &&& scheduler::eligible_cpu_list(st, priority).contains(u)
                    &&& !(st.cpus.contains_key(state::key(u)) && st.cpus[state::key(u)] is Some)
                }
        }),
{
    jobs::kinds_differ();
    soundness::granted_units_are_free(st, kind.stored_name(), n, priority);
    soundness::full_grant(st, kind.stored_name(), n, priority);
}

/// A job that starts is entered with what it was submitted with, and is bound to exactly the CPUs
/// that its entry holds. Every other job, the queue, the reservation and the counter stay.
pub proof fn started_run_is_what_was_submitted(
    st: StateView,
    jid: Seq<char>,
    kind: JobKind,
    n: u8,
    priority: JobPriority,
    now: Timestamp,
    command: Seq<Seq<char>>,
    output: Seq<char>,
    other: Seq<char>,
    cpu: u8,
)
    ensures
        ({
            let after = jobs::run_started(st, jid, kind, n, priority, now, command, output);
            let job = after.pids[jid];
            let bound = scheduler::pin_list(
                kind.stored_name(),
                scheduler::grant(st, kind.stored_name(), n, priority),
            );
            &&& job.jid == jid
            &&& job.need == n
            &&& job.priority == priority
            &&& job.start == Some(now)
            &&& job.pid is None && job.submit is None
            &&& job.output == Some(output)
            &&& job.job_type == "cfd"@ <==> kind == JobKind::Cfd
            &&& job.job_type == "py"@ <==> kind == JobKind::Py
            &&& bound.contains(cpu) == ((job.cpus is Some && job.cpus->0.contains(cpu)) || (
            job.cores is Some && exists|core: u8|
                job.cores->0.contains(core) && #[trigger] topology::on_core(cpu, core)))
            &&& other != jid ==> (after.pids.contains_key(other) == st.pids.contains_key(other)
                && after.pending.contains_key(other) == st.pending.contains_key(other)
                && after.pids[other] == st.pids[other] && after.pending[other]
                == st.pending[other])
            &&& after.queued == st.queued
            &&& after.reserved == st.reserved
            &&& after.next_jid == st.next_jid
        }),
{
    jobs::kinds_differ();
    let units = scheduler::grant(st, kind.stored_name(), n, priority);
    if kind == JobKind::Cfd {
        bound_cpus(units, cpu);
    }
}

proof fn bound_cpus(cores: Seq<u8>, cpu: u8)
    ensures
        scheduler::cpus_of(cores).contains(cpu) == exists|core: u8|
            cores.contains(core) && #[trigger] topology::on_core(cpu, core),
{
    scheduler::cpus_of_members(cores, cpu);
    if scheduler::cpus_of(cores).contains(cpu) {
        let i = choose|i: int| 0 <= i < cores.len() && topology::on_core(cpu, #[trigger] cores[i]);
        assert(cores.contains(cores[i]) && topology::on_core(cpu, cores[i]));
    }
    if exists|core: u8| cores.contains(core) && #[trigger] topology::on_core(cpu, core) {
        let core = choose|core: u8|
            cores.contains(core) && #[trigger] topology::on_core(cpu, core);
        let i = cores.index_of(core);
        assert(topology::on_core(cpu, cores[i]));
    }
}

// ---------------------------------------------------------------------------
// The queue
// ---------------------------------------------------------------------------

/// The next job is the first queued one of the highest queued level, where no waiting `run` job is
/// above that level; where one is, there is no next job.
pub proof fn next_job_is_the_first_of_the_highest_level(st: StateView, i: int)
    ensures
        scheduler::is_next(st, i) <==> {
            &&& 0 <= i < st.queued.len()
            &&& forall|j: int|
                0 <= j < st.queued.len() ==> (#[trigger] st.queued[j]).priority.rank()
                    <= st.queued[i].priority.rank()
            &&& forall|j: int|
                0 <= j < st.queued.len() && (#[trigger] st.queued[j]).priority
                    == st.queued[i].priority ==> i <= j
            &&& forall|jid: Seq<char>| #[trigger]
                st.pending.contains_key(jid) ==> st.pending[jid].priority.rank()
                    <= st.queued[i].priority.rank()
        },
{
    if 0 <= i < st.queued.len() {
        let level = st.queued[i].priority;
        assert forall|j: int| 0 <= j < st.queued.len() implies ((#[trigger] st.queued[j]).priority
            == level) == (st.queued[j].priority.rank() == level.rank()) by {
            ranks_tell_levels(st.queued[j].priority, level);
        }
        if scheduler::higher_pending(st, level, None) {
            let jid = choose|jid: Seq<char>| #[trigger]
                st.pending.contains_key(jid) && st.pending[jid].priority.rank() > level.rank();
            assert(st.pending.contains_key(jid));
        }
    }
}

/// Different levels have different ranks.
pub proof fn ranks_tell_levels(a: JobPriority, b: JobPriority)
    ensures
        a.rank() == b.rank() <==> a == b,
        a == JobPriority::P0 && b != JobPriority::P0 ==> a.rank() < b.rank(),
        a == JobPriority::P1 && (b == JobPriority::P2 || b == JobPriority::P3) ==> a.rank()
            < b.rank(),
        a == JobPriority::P2 && b == JobPriority::P3 ==> a.rank() < b.rank(),
{
}

/// A queue that is not empty is served: where no waiting `run` job is above all queued jobs, there
/// is a next job.
pub proof fn queue_is_served(st: StateView, top: int)
    requires
        0 <= top < st.queued.len(),
        forall|jid: Seq<char>| #[trigger]
            st.pending.contains_key(jid) ==> st.pending[jid].priority.rank()
                <= st.queued[top].priority.rank(),
    ensures
        exists|i: int| scheduler::is_next(st, i),
{
    let head = first_of_the_highest(st.queued, st.queued.len() as int);
    assert(st.queued[top].priority.rank() <= st.queued[head].priority.rank());
    assert forall|j: int|
        0 <= j < st.queued.len() && (#[trigger] st.queued[j]).priority
            == st.queued[head].priority implies head <= j by {
        if j < head {
            assert(st.queued[j].priority.rank() < st.queued[head].priority.rank());
        }
    }
    next_job_is_the_first_of_the_highest_level(st, head);
    assert(scheduler::is_next(st, head));
}

proof fn first_of_the_highest(queued: Seq<JobView>, n: int) -> (i: int)
    requires
        0 < n <= queued.len(),
    ensures
        0 <= i < n,
        forall|j: int|
            0 <= j < n ==> (#[trigger] queued[j]).priority.rank() <= queued[i].priority.rank(),
        forall|j: int|
            0 <= j < i ==> (#[trigger] queued[j]).priority.rank() < queued[i].priority.rank(),
    decreases n,
{
    if n == 1 {
        0
    } else {
        let before = first_of_the_highest(queued, n - 1);
        if queued[n - 1].priority.rank() > queued[before].priority.rank() {
            n - 1
        } else {
            before
        }
    }
}

/// A queued job is dispatched whenever there are as many different free units for it as it asks
/// for. Then it runs, and holds that many units.
pub proof fn queued_job_is_dispatched_whenever_it_can(
    st: StateView,
    i: int,
    parsed: Option<Seq<Seq<char>>>,
    start: Timestamp,
    units: Seq<u8>,
)
    requires
        0 <= i < st.queued.len(),
        units.no_duplicates(),
        units.len() == st.queued[i].need,
        st.queued[i].job_type == "cfd"@ || st.queued[i].job_type == "py"@,
        st.queued[i].job_type == "cfd"@ ==> forall|u: u8| #[trigger]
            units.contains(u) ==> {
                &&& scheduler::eligible_cores(st, st.queued[i].priority).contains(u)
                &&& !(st.cfd.contains_key(state::key(u)) && st.cfd[state::key(u)])
                &&& forall|cpu: u8| #[trigger]
                    topology::on_core(cpu, u) ==> !(st.cpus.contains_key(state::key(cpu))
                        && st.cpus[state::key(cpu)] is Some)
            },
        st.queued[i].job_type == "py"@ ==> forall|u: u8| #[trigger]
            units.contains(u) ==> {
                &&& scheduler::eligible_cpu_list(st, st.queued[i].priority).contains(u)
                &&& !(st.cpus.contains_key(state::key(u)) && st.cpus[state::key(u)] is Some)
            },
    ensures
        ({
            let job = st.queued[i];
            let (after, info) = scheduler::dispatched(st, i, parsed, start);
            let entry = after.pids[job.jid];
            &&& info is Some
            &&& after.pids.contains_key(job.jid)
            &&& after.queued == st.queued.remove(i)
            &&& job.job_type == "cfd"@ ==> entry.cpus is None && entry.cores is Some
                && entry.cores->0.len() == job.need
            &&& job.job_type == "py"@ ==> entry.cores is None && entry.cpus is Some
                && entry.cpus->0.len() == job.need
        }),
{
    let job = st.queued[i];
    jobs::kinds_differ();
    scheduler::eligible_lists_are_sound(st, job.priority);
    if job.job_type == "cfd"@ {
        assert forall|u: u8| #[trigger] units.contains(u) implies scheduler::core_free(st, u) by {
            assert(scheduler::eligible_cores(st, job.priority).contains(u));
            let (a, b) = topology::core_cpus(u)->0;
            assert(topology::on_core(a, u) && topology::on_core(b, u));
        }
    }
    found_units_are_available(st, job.job_type, job.priority, units);
    scheduler::available_is_small(st, job.job_type, job.priority);
    soundness::full_grant(st, job.job_type, job.need as u8, job.priority);
}

/// A queued job is dispatched only where it is of a known kind and is given as many different
/// units as it asks for, all of them units that its priority may use and that no table shows as
/// taken. What it is to run is what it was queued with.
pub proof fn queued_job_is_dispatched_only_where_it_may(
    st: StateView,
    i: int,
    parsed: Option<Seq<Seq<char>>>,
    start: Timestamp,
    cpu: u8,
)
    requires
        0 <= i < st.queued.len(),
        scheduler::dispatched(st, i, parsed, start).1 is Some,
    ensures
        ({
            let job = st.queued[i];
            let (after, info) = scheduler::dispatched(st, i, parsed, start);
            let entry = after.pids[job.jid];
            let told = info->0;
            let units = if job.job_type == "cfd"@ {
                entry.cores->0
            } else {
                entry.cpus->0
            };
            &&& job.job_type == "cfd"@ || job.job_type == "py"@
            &&& units.no_duplicates()
            &&& units.len() == job.need
            &&& job.job_type == "cfd"@ ==> forall|u: u8| #[trigger]
                units.contains(u) ==> {
                    &&& scheduler::eligible_cores(st, job.priority).contains(u)
                    &&& !(st.cfd.contains_key(state::key(u)) && st.cfd[state::key(u)])
                    &&& forall|c: u8| #[trigger]
                        topology::on_core(c, u) ==> !(st.cpus.contains_key(state::key(c))
                            && st.cpus[state::key(c)] is Some)
                }
            &&& job.job_type == "py"@ ==> forall|u: u8| #[trigger]
                units.contains(u) ==> {
                    &&& scheduler::eligible_cpu_list(st, job.priority).contains(u)
                    &&& !(st.cpus.contains_key(state::key(u)) && st.cpus[state::key(u)] is Some)
                }
            &&& told.jid == job.jid && entry.jid == job.jid
            &&& told.job_type == job.job_type && entry.job_type == job.job_type
            &&& told.priority == job.priority && entry.priority == job.priority
            &&& told.need == job.need && entry.need == job.need
            &&& told.submit == job.submit && entry.submit == job.submit
            &&& entry.start == Some(start)
            &&& job.cmd is Some ==> told.cmd == job.cmd->0 && entry.cmd == job.cmd
            &&& job.output is Some ==> told.output == job.output->0 && entry.output == job.output
            &&& job.cmd is None ==> told.cmd.len() == 0
            &&& job.output is None ==> told.output.len() == 0
            &&& parsed is Some ==> told.args == parsed->0
            &&& parsed is None && job.cmd is Some ==> told.args == seq![job.cmd->0]
            &&& told.pin_cpus.contains(cpu) == ((entry.cpus is Some && entry.cpus->0.contains(cpu))
                || (entry.cores is Some && exists|core: u8|
                entry.cores->0.contains(core) && #[trigger] topology::on_core(cpu, core)))
        }),
{
    let job = st.queued[i];
    jobs::kinds_differ();
    scheduler::available_is_small(st, job.job_type, job.priority);
    soundness::granted_units_are_free(st, job.job_type, job.need as u8, job.priority);
    soundness::full_grant(st, job.job_type, job.need as u8, job.priority);
    bound_cpus(scheduler::grant(st, job.job_type, job.need as u8, job.priority), cpu);
}

/// A job that is tried and not dispatched leaves everything as it was.
pub proof fn job_that_is_not_dispatched_changes_nothing(
    st: StateView,
    i: int,
    parsed: Option<Seq<Seq<char>>>,
    start: Timestamp,
)
    requires
        scheduler::dispatched(st, i, parsed, start).1 is None,
    ensures
        scheduler::dispatched(st, i, parsed, start).0 == st,
{
}

// ---------------------------------------------------------------------------
// What is lacking
// ---------------------------------------------------------------------------

/// What a job lacks is the least number that would do: with that many units fewer it could start
/// now, and with one more than that it could not.
pub proof fn shortage_is_the_least_that_would_do(
    st: StateView,
    job_type: Seq<char>,
    n: u8,
    priority: JobPriority,
    m: u8,
)
    requires
        job_type == "cfd"@ || job_type == "py"@,
    ensures
        0 <= scheduler::shortage(st, job_type, n, priority) <= n,
        scheduler::shortage(st, job_type, m, priority) == 0 ==> scheduler::shortage(
            st,
            job_type,
            n,
            priority,
        ) <= if m <= n {
            n - m
        } else {
            0
        },
        scheduler::shortage(st, job_type, n, priority) == n - scheduler::grant(
            st,
            job_type,
            n,
            priority,
        ).len(),
{
}

// ---------------------------------------------------------------------------
// The order in which units are taken
// ---------------------------------------------------------------------------

/// Units are taken in the order in which the priority prefers them: no unit is granted while one
/// that stands before it is free and not granted.
pub proof fn units_are_taken_in_order(
    st: StateView,
    job_type: Seq<char>,
    n: u8,
    priority: JobPriority,
    early: int,
    late: int,
)
    requires
        job_type == "cfd"@ || job_type == "py"@,
        ({
            let list = if job_type == "cfd"@ {
                scheduler::eligible_cores(st, priority)
            } else {
                scheduler::eligible_cpu_list(st, priority)
            };
            &&& 0 <= early < late < list.len()
            &&& scheduler::grant(st, job_type, n, priority).contains(list[late])
            &&& job_type == "cfd"@ ==> scheduler::core_free(st, list[early])
            &&& job_type == "py"@ ==> scheduler::cpu_free(st, list[early])
        }),
    ensures
        ({
            let list = if job_type == "cfd"@ {
                scheduler::eligible_cores(st, priority)
            } else {
                scheduler::eligible_cpu_list(st, priority)
            };
            scheduler::grant(st, job_type, n, priority).contains(list[early])
        }),
{
    jobs::kinds_differ();
    scheduler::eligible_lists_are_sound(st, priority);
    let (list, free) = if job_type == "cfd"@ {
        (scheduler::eligible_cores(st, priority), |c: u8| scheduler::core_free(st, c))
    } else {
        (scheduler::eligible_cpu_list(st, priority), |c: u8| scheduler::cpu_free(st, c))
    };
    let kept = list.filter(free);
    let taken = scheduler::grant(st, job_type, n, priority);
    let k = taken.index_of(list[late]);
    assert(kept[k] == list[late]);
    seqs::filter_members(list, free, list[late]);
    assert(kept.contains(list[late]));
    let (a, b) = seqs::filter_keeps_order(list, free, early, late);
    seqs::filter_keeps_distinct(list, free);
    assert(b == k);
    assert(taken[a] == list[early]);
}

/// What is left of an ascending list ascends.
proof fn kept_numbers_ascend(list: Seq<u8>, p: spec_fn(u8) -> bool)
    requires
        forall|i: int, j: int| 0 <= i < j < list.len() ==> #[trigger] list[i] < #[trigger] list[j],
    ensures
        forall|i: int, j: int|
            0 <= i < j < list.filter(p).len() ==> #[trigger] list.filter(p)[i]
                < #[trigger] list.filter(p)[j],
    decreases list.len(),
{
    reveal(Seq::filter);
    if list.len() > 0 {
        let front = list.drop_last();
        kept_numbers_ascend(front, p);
        let kept = front.filter(p);
        let all = list.filter(p);
        assert forall|i: int, j: int| 0 <= i < j < all.len() implies #[trigger] all[i]
            < #[trigger] all[j] by {
            if j < kept.len() {
                assert(all[i] == kept[i] && all[j] == kept[j]);
            } else {
                seqs::filter_members(front, p, kept[i]);
                assert(kept.contains(kept[i]));
                let k = front.index_of(kept[i]);
                assert(list[k] < list[list.len() - 1]);
            }
        }
    }
}

/// Cores are taken in their order, but for those that a priority prefers: P3 takes the last core
/// first, P2 its own and then the reserved ones in the order of the reservation.
pub proof fn cores_are_preferred_in_order(st: StateView, priority: JobPriority, i: int, j: int)
    requires
        0 <= i < j < scheduler::eligible_cores(st, priority).len(),
    ensures
        ({
            let list = scheduler::eligible_cores(st, priority);
            let reserved = state::normalized(st.reserved);
            &&& priority.rank() < 2 ==> list[i] < list[j]
            &&& priority == JobPriority::P3 ==> list[0] == topology::core_count() - 1
            &&& priority == JobPriority::P3 && i > 0 ==> list[i] < list[j]
            &&& priority == JobPriority::P2 ==> list[0] == topology::core_count() - 2
            &&& priority == JobPriority::P2 && i > 0 && reserved.contains(list[j])
                ==> reserved.contains(list[i]) && reserved.index_of(list[i]) < reserved.index_of(
                list[j],
            )
            &&& priority == JobPriority::P2 && i > 0 && !reserved.contains(list[i]) ==> list[i]
                < list[j]
        }),
{
    let list = scheduler::eligible_cores(st, priority);
    let first = scheduler::preferred(st, priority);
    let pool = topology::first_numbers(topology::core_count());
    let keep = |c: u8| !scheduler::barred(st, priority).contains(c) && !first.contains(c);
    let rest = pool.filter(keep);
    let reserved = state::normalized(st.reserved);
    kept_numbers_ascend(pool, keep);
    topology::first_numbers_members(topology::core_count());
    state::normalized_cores(st.reserved);
    if i >= first.len() {
        assert(list[i] == rest[i - first.len()]);
    }
    if j >= first.len() {
        assert(list[j] == rest[j - first.len()]);
        seqs::filter_members(pool, keep, list[j]);
        assert(rest.contains(list[j]));
    }
    if priority == JobPriority::P2 {
        let own = scheduler::option_list(scheduler::exclusive_core(priority));
        let usable = |c: u8| !scheduler::forbidden(priority).contains(c) && !own.contains(c);
        let kept = reserved.filter(usable);
        assert(first =~= own + kept);
        assert(own =~= seq![6u8]);
        assert(scheduler::forbidden(priority) =~= seq![7u8]);
        assert(list[0] == 6);
        assert forall|c: u8| kept.contains(c) == (reserved.contains(c) && c != 6 && c != 7) by {
            seqs::filter_members(reserved, usable, c);
            assert(seq![7u8][0] == 7 && seq![6u8][0] == 6);
            assert(seq![7u8].contains(c) == (c == 7));
            assert(seq![6u8].contains(c) == (c == 6));
        }
        if i > 0 {
            if i < first.len() {
                assert(list[i] == kept[i - 1]);
                assert(kept.contains(list[i]));
            }
            if j < first.len() {
                assert(list[j] == kept[j - 1]);
                assert(kept.contains(list[j]));
                let (a, b) = kept_in_order(reserved, usable, i - 1, j - 1);
                assert(reserved.index_of(list[i]) == a);
                assert(reserved.index_of(list[j]) == b);
            } else {
                if reserved.contains(list[j]) {
                    soundness::eligible_cores_by_priority(st, priority, list[j]);
                    assert(list.contains(list[j]));
                    if list[j] != 6 {
                        assert(kept.contains(list[j]));
                        assert(first[1 + kept.index_of(list[j])] == list[j]);
                    } else {
                        assert(first[0] == 6);
                    }
                    assert(first.contains(list[j]));
                }
            }
        }
    }
}

/// Of two elements that filtering keeps, the first in what is left is the first in the list.
proof fn kept_in_order(list: Seq<u8>, p: spec_fn(u8) -> bool, i: int, j: int) -> (at: (int, int))
    requires
        list.no_duplicates(),
        0 <= i < j < list.filter(p).len(),
    ensures
        0 <= at.0 < at.1 < list.len(),
        list[at.0] == list.filter(p)[i],
        list[at.1] == list.filter(p)[j],
{
    let kept = list.filter(p);
    seqs::filter_members(list, p, kept[i]);
    seqs::filter_members(list, p, kept[j]);
    assert(kept.contains(kept[i]) && kept.contains(kept[j]));
    let a = list.index_of(kept[i]);
    let b = list.index_of(kept[j]);
    seqs::filter_keeps_distinct(list, p);
    if a > b {
        let (x, y) = seqs::filter_keeps_order(list, p, b, a);
        assert(kept[x] == kept[j] && kept[y] == kept[i]);
        assert(x == j && y == i);
    }
    (a, b)
}

/// CPUs are taken in their order, but for those of the cores that a priority prefers: these come
/// first, core by core, each with its two CPUs one after the other.
pub proof fn cpus_are_preferred_in_order(st: StateView, priority: JobPriority, i: int, j: int)
    requires
        0 <= i < j < scheduler::eligible_cpu_list(st, priority).len(),
    ensures
        ({
            let list = scheduler::eligible_cpu_list(st, priority);
            let first = scheduler::preferred(st, priority);
            &&& list.len() >= 2 * first.len()
            &&& i >= 2 * first.len() ==> list[i] < list[j]
            &&& 0 <= i < first.len() ==> topology::core_cpus(first[i]) == Some(
                (list[2 * i], list[2 * i + 1]),
            )
            &&& priority.rank() < 2 ==> first.len() == 0
            &&& priority == JobPriority::P3 ==> first == seq![(topology::core_count() - 1) as u8]
        }),
{
    let list = scheduler::eligible_cpu_list(st, priority);
    let first = scheduler::preferred(st, priority);
    let front = scheduler::cpus_of(first);
    let pool = topology::first_numbers(topology::cpu_count());
    let keep = |c: u8| !scheduler::cpus_of(scheduler::barred(st, priority)).contains(c)
        && !front.contains(c);
    kept_numbers_ascend(pool, keep);
    scheduler::preferred_cores_are_sound(st, priority);
    pairs_follow_each_other(first);
    if i >= front.len() {
        assert(list[i] == pool.filter(keep)[i - front.len()]);
        assert(list[j] == pool.filter(keep)[j - front.len()]);
    }
    if 0 <= i < first.len() {
        assert(list[2 * i] == front[2 * i]);
        assert(list[2 * i + 1] == front[2 * i + 1]);
    }
    if priority == JobPriority::P3 {
        assert(first =~= seq![7u8]);
    }
}

proof fn pairs_follow_each_other(cores: Seq<u8>)
    requires
        forall|i: int| 0 <= i < cores.len() ==> #[trigger] cores[i] < topology::core_count(),
    ensures
        scheduler::cpus_of(cores).len() == 2 * cores.len(),
        forall|i: int|
            0 <= i < cores.len() ==> topology::core_cpus(#[trigger] cores[i]) == Some(
                (scheduler::cpus_of(cores)[2 * i], scheduler::cpus_of(cores)[2 * i + 1]),
            ),
    decreases cores.len(),
{
    if cores.len() > 0 {
        let front = cores.drop_last();
        assert forall|i: int| 0 <= i < front.len() implies #[trigger] front[i]
            < topology::core_count() by {
            assert(front[i] == cores[i]);
        }
        pairs_follow_each_other(front);
        let all = scheduler::cpus_of(cores);
        let before = scheduler::cpus_of(front);
        assert forall|i: int| 0 <= i < cores.len() implies topology::core_cpus(#[trigger] cores[i])
            == Some((all[2 * i], all[2 * i + 1])) by {
            if i < front.len() {
                assert(front[i] == cores[i]);
                assert(all[2 * i] == before[2 * i]);
                assert(all[2 * i + 1] == before[2 * i + 1]);
            } else {
                assert(cores[i] < topology::core_count());
            }
        }
    }
}

/// A job is bound to its CPUs in the order in which it was given them: one by one, or core by core
/// with the two CPUs of a core one after the other.
pub proof fn jobs_are_bound_in_order(units: Seq<u8>, i: int)
    requires
        0 <= i < units.len(),
    ensures
        scheduler::pin_list("py"@, units) == units,
        (forall|k: int| 0 <= k < units.len() ==> #[trigger] units[k] < topology::core_count()) ==> {
            let bound = scheduler::pin_list("cfd"@, units);
            &&& bound.len() == 2 * units.len()
            &&& topology::core_cpus(units[i]) == Some((bound[2 * i], bound[2 * i + 1]))
        },
{
    jobs::kinds_differ();
    if forall|k: int| 0 <= k < units.len() ==> #[trigger] units[k] < topology::core_count() {
        pairs_follow_each_other(units);
    }
}

/// A job that ends takes nothing from others: every other running job stays as it is, and what it
/// holds stays marked.
pub proof fn ended_job_takes_nothing_from_others(
    st: StateView,
    jid: Seq<char>,
    other: Seq<char>,
    cpu: u8,
    core: u8,
)
    requires
        soundness::consistent(st),
        other != jid,
        st.pids.contains_key(other),
    ensures
        ({
            let after = scheduler::released(st, jid);
            let job = st.pids[other];
            &&& after.pids.contains_key(other)
            &&& after.pids[other] == job
            &&& !after.pids.contains_key(jid)
            &&& job.cpus is Some && job.cpus->0.contains(cpu) ==> after.cpus.contains_key(
                state::key(cpu),
            ) && after.cpus[state::key(cpu)] is Some
            &&& job.cores is Some && job.cores->0.contains(core) ==> after.cfd.contains_key(
                state::key(core),
            ) && after.cfd[state::key(core)]
        }),
{
    let after = scheduler::released(st, jid);
    let job = st.pids[other];
    soundness::releasing_keeps_consistency(st, jid);
    if job.cpus is Some && job.cpus->0.contains(cpu) {
        let front = scheduler::cpus_of(scheduler::held_cores(job));
        let all = scheduler::held_cpus(job);
        assert(all[front.len() + job.cpus->0.index_of(cpu)] == cpu);
        assert(soundness::holds_cpu(after, other, cpu));
        assert(!scheduler::cpu_free(after, cpu));
    }
    if job.cores is Some && job.cores->0.contains(core) {
        assert(soundness::holds_core(after, other, core));
        assert(scheduler::core_marked(after, core));
    }
}

} // verus!
