//! What every operation of the scheduler keeps: the allocation tables say exactly what the running
//! jobs hold, no CPU is held twice, and every job stands in one place.

use crate::ids;
use crate::jobs;
use crate::jobs::JobKind;
use crate::outside;
use crate::scheduler;
use crate::scheduler::DispatchView;
use crate::seqs;
use crate::state;
use crate::state::{JobPriority, JobView, StateView, Timestamp};
use crate::topology;
use vstd::prelude::*;

verus! {

// ---------------------------------------------------------------------------
// The two invariants
// ---------------------------------------------------------------------------

/// Whether a running job holds a CPU.
pub open spec fn holds_cpu(st: StateView, jid: Seq<char>, cpu: u8) -> bool {
    st.pids.contains_key(jid) && scheduler::held_cpus(st.pids[jid]).contains(cpu)
}

/// Whether a running job holds a physical core as a whole.
pub open spec fn holds_core(st: StateView, jid: Seq<char>, core: u8) -> bool {
    st.pids.contains_key(jid) && scheduler::held_cores(st.pids[jid]).contains(core)
}

/// The tables tell exactly what is held: a CPU is in use where a running job holds it and a core
/// is marked where one holds it; no CPU is held by two jobs.
pub open spec fn accounts(st: StateView) -> bool {
    &&& forall|cpu: u8| #[trigger]
        scheduler::cpu_free(st, cpu) == !exists|jid: Seq<char>| #[trigger] holds_cpu(st, jid, cpu)
    &&& forall|core: u8| #[trigger]
        scheduler::core_marked(st, core) == exists|jid: Seq<char>| #[trigger]
            holds_core(st, jid, core)
    &&& forall|a: Seq<char>, b: Seq<char>, cpu: u8|
        #![trigger holds_cpu(st, a, cpu), holds_cpu(st, b, cpu)]
        holds_cpu(st, a, cpu) && holds_cpu(st, b, cpu) ==> a == b
    &&& forall|jid: Seq<char>, core: u8| #[trigger]
        holds_core(st, jid, core) ==> core < topology::core_count()
}

/// Every job stands in one place: it runs, or it waits for an allocation, or it is queued once.
pub open spec fn in_one_place(st: StateView) -> bool {
    &&& forall|jid: Seq<char>| #[trigger]
        st.pids.contains_key(jid) ==> !st.pending.contains_key(jid)
    &&& forall|i: int|
        0 <= i < st.queued.len() ==> !st.pids.contains_key((#[trigger] st.queued[i]).jid)
            && !st.pending.contains_key(st.queued[i].jid)
    &&& forall|i: int, j: int|
        0 <= i < st.queued.len() && 0 <= j < st.queued.len() && i != j ==> (
        #[trigger] st.queued[i]).jid != (#[trigger] st.queued[j]).jid
}

/// The invariant of the scheduler's state.
pub open spec fn consistent(st: StateView) -> bool {
    accounts(st) && in_one_place(st)
}

/// The state before any job is consistent.
pub proof fn fresh_state_is_consistent()
    ensures
        consistent(state::fresh_state()),
{
    let st = state::fresh_state();
    assert forall|cpu: u8| scheduler::cpu_free(st, cpu) by {
        state::key_is_in_keys(topology::first_numbers(topology::cpu_count()), cpu);
    }
    assert forall|core: u8| !scheduler::core_marked(st, core) by {
        state::key_is_in_keys(topology::first_numbers(topology::core_count()), core);
    }
}

/// Bringing a state up to the topology keeps it consistent.
pub proof fn migrating_keeps_consistency(st: StateView)
    requires
        consistent(st),
    ensures
        consistent(state::migrated(st)),
{
    let after = state::migrated(st);
    assert forall|cpu: u8| #[trigger]
        scheduler::cpu_free(after, cpu) == !exists|jid: Seq<char>| #[trigger]
            holds_cpu(after, jid, cpu) by {
        assert(scheduler::cpu_free(after, cpu) == scheduler::cpu_free(st, cpu));
        assert forall|jid: Seq<char>| #[trigger] holds_cpu(after, jid, cpu) == holds_cpu(
            st,
            jid,
            cpu,
        ) by {}
        if exists|jid: Seq<char>| #[trigger] holds_cpu(st, jid, cpu) {
            let jid = choose|jid: Seq<char>| #[trigger] holds_cpu(st, jid, cpu);
            assert(holds_cpu(after, jid, cpu));
        }
    }
    assert forall|core: u8| #[trigger]
        scheduler::core_marked(after, core) == exists|jid: Seq<char>| #[trigger]
            holds_core(after, jid, core) by {
        assert(scheduler::core_marked(after, core) == scheduler::core_marked(st, core));
        if exists|jid: Seq<char>| #[trigger] holds_core(st, jid, core) {
            let jid = choose|jid: Seq<char>| #[trigger] holds_core(st, jid, core);
            assert(holds_core(after, jid, core));
        }
        assert forall|jid: Seq<char>| #[trigger] holds_core(after, jid, core) implies holds_core(
            st,
            jid,
            core,
        ) by {}
    }
    assert forall|a: Seq<char>, b: Seq<char>, cpu: u8|
        #![trigger holds_cpu(after, a, cpu), holds_cpu(after, b, cpu)]
        holds_cpu(after, a, cpu) && holds_cpu(after, b, cpu) implies a == b by {
        assert(holds_cpu(st, a, cpu) && holds_cpu(st, b, cpu));
    }
    assert forall|jid: Seq<char>, core: u8| #[trigger] holds_core(after, jid, core) implies core
        < topology::core_count() by {
        assert(holds_core(st, jid, core));
    }
}

// ---------------------------------------------------------------------------
// Accounts depend on the tables and the running jobs alone
// ---------------------------------------------------------------------------

proof fn accounts_carry_over(st: StateView, after: StateView)
    requires
        accounts(st),
        after.cfd == st.cfd,
        after.cpus == st.cpus,
        forall|jid: Seq<char>| #[trigger]
            after.pids.contains_key(jid) == st.pids.contains_key(jid),
        forall|jid: Seq<char>| #[trigger]
            st.pids.contains_key(jid) ==> after.pids[jid].cores == st.pids[jid].cores
                && after.pids[jid].cpus == st.pids[jid].cpus,
    ensures
        accounts(after),
{
    assert forall|jid: Seq<char>, cpu: u8| #[trigger]
        holds_cpu(after, jid, cpu) == holds_cpu(st, jid, cpu) by {
        if st.pids.contains_key(jid) {
            assert(after.pids.contains_key(jid));
        }
    }
    assert forall|jid: Seq<char>, core: u8| #[trigger]
        holds_core(after, jid, core) == holds_core(st, jid, core) by {
        if st.pids.contains_key(jid) {
            assert(after.pids.contains_key(jid));
        }
    }
    assert forall|cpu: u8| #[trigger]
        scheduler::cpu_free(after, cpu) == !exists|jid: Seq<char>| #[trigger]
            holds_cpu(after, jid, cpu) by {
        assert(scheduler::cpu_free(after, cpu) == scheduler::cpu_free(st, cpu));
        if exists|jid: Seq<char>| #[trigger] holds_cpu(st, jid, cpu) {
            let jid = choose|jid: Seq<char>| #[trigger] holds_cpu(st, jid, cpu);
            assert(holds_cpu(after, jid, cpu));
        }
    }
    assert forall|core: u8| #[trigger]
        scheduler::core_marked(after, core) == exists|jid: Seq<char>| #[trigger]
            holds_core(after, jid, core) by {
        assert(scheduler::core_marked(after, core) == scheduler::core_marked(st, core));
        if exists|jid: Seq<char>| #[trigger] holds_core(st, jid, core) {
            let jid = choose|jid: Seq<char>| #[trigger] holds_core(st, jid, core);
            assert(holds_core(after, jid, core));
        }
    }
}

// ---------------------------------------------------------------------------
// Release
// ---------------------------------------------------------------------------

/// What a release does to a CPU and to a core.
pub proof fn releasing_frees_what_was_held(st: StateView, jid: Seq<char>, cpu: u8, core: u8)
    ensures
        holds_cpu(st, jid, cpu) ==> scheduler::cpu_free(scheduler::released(st, jid), cpu),
        !holds_cpu(st, jid, cpu) ==> scheduler::cpu_free(scheduler::released(st, jid), cpu)
            == scheduler::cpu_free(st, cpu),
        holds_core(st, jid, core) ==> !scheduler::core_marked(scheduler::released(st, jid), core),
        !holds_core(st, jid, core) ==> scheduler::core_marked(scheduler::released(st, jid), core)
            == scheduler::core_marked(st, core),
{
    if st.pids.contains_key(jid) {
        state::key_is_in_keys(scheduler::held_cpus(st.pids[jid]), cpu);
        state::key_is_in_keys(scheduler::held_cores(st.pids[jid]), core);
    }
}

/// The CPUs of a held core are held.
proof fn cores_bring_their_cpus(st: StateView, jid: Seq<char>, core: u8)
    requires
        holds_core(st, jid, core),
        core < topology::core_count(),
    ensures
        holds_cpu(st, jid, core),
{
    let job = st.pids[jid];
    let cores = scheduler::held_cores(job);
    let i = cores.index_of(core);
    assert(topology::on_core(core, cores[i]));
    scheduler::cpus_of_members(cores, core);
    let own = scheduler::cpus_of(cores);
    let j = own.index_of(core);
    assert(scheduler::held_cpus(job)[j] == core);
}

proof fn no_core_is_held_twice(st: StateView, a: Seq<char>, b: Seq<char>, core: u8)
    requires
        accounts(st),
        holds_core(st, a, core),
        holds_core(st, b, core),
    ensures
        a == b,
{
    cores_bring_their_cpus(st, a, core);
    cores_bring_their_cpus(st, b, core);
}

/// A release keeps the state consistent.
pub proof fn releasing_keeps_consistency(st: StateView, jid: Seq<char>)
    requires
        consistent(st),
    ensures
        consistent(scheduler::released(st, jid)),
{
    let after = scheduler::released(st, jid);
    assert forall|j: Seq<char>, cpu: u8| #[trigger]
        holds_cpu(after, j, cpu) == (holds_cpu(st, j, cpu) && j != jid) by {}
    assert forall|j: Seq<char>, core: u8| #[trigger]
        holds_core(after, j, core) == (holds_core(st, j, core) && j != jid) by {}
    assert forall|cpu: u8| #[trigger]
        scheduler::cpu_free(after, cpu) == !exists|j: Seq<char>| #[trigger]
            holds_cpu(after, j, cpu) by {
        releasing_frees_what_was_held(st, jid, cpu, 0);
        if !scheduler::cpu_free(after, cpu) {
            assert(!scheduler::cpu_free(st, cpu));
            let j = choose|j: Seq<char>| #[trigger] holds_cpu(st, j, cpu);
            assert(holds_cpu(after, j, cpu));
        }
        if exists|j: Seq<char>| #[trigger] holds_cpu(after, j, cpu) {
            let j = choose|j: Seq<char>| #[trigger] holds_cpu(after, j, cpu);
            assert(holds_cpu(st, j, cpu));
            assert(!holds_cpu(st, jid, cpu));
            assert(!scheduler::cpu_free(st, cpu));
        }
    }
    assert forall|core: u8| #[trigger]
        scheduler::core_marked(after, core) == exists|j: Seq<char>| #[trigger]
            holds_core(after, j, core) by {
        releasing_frees_what_was_held(st, jid, 0, core);
        if scheduler::core_marked(after, core) {
            assert(scheduler::core_marked(st, core));
            let j = choose|j: Seq<char>| #[trigger] holds_core(st, j, core);
            assert(holds_core(after, j, core));
        }
        if exists|j: Seq<char>| #[trigger] holds_core(after, j, core) {
            let j = choose|j: Seq<char>| #[trigger] holds_core(after, j, core);
            assert(holds_core(st, j, core));
            if holds_core(st, jid, core) {
                no_core_is_held_twice(st, j, jid, core);
            }
            assert(scheduler::core_marked(st, core));
        }
    }
    assert forall|a: Seq<char>, b: Seq<char>, cpu: u8|
        #![trigger holds_cpu(after, a, cpu), holds_cpu(after, b, cpu)]
        holds_cpu(after, a, cpu) && holds_cpu(after, b, cpu) implies a == b by {
        assert(holds_cpu(st, a, cpu) && holds_cpu(st, b, cpu));
    }
    assert forall|j: Seq<char>, core: u8| #[trigger] holds_core(after, j, core) implies core
        < topology::core_count() by {
        assert(holds_core(st, j, core));
    }
    assert forall|i: int| 0 <= i < after.queued.len() implies !after.pids.contains_key(
        (#[trigger] after.queued[i]).jid,
    ) && !after.pending.contains_key(after.queued[i].jid) by {
        assert(after.queued[i] == st.queued[i]);
    }
}

/// Cleaning up after processes that are gone keeps the state consistent.
pub proof fn cleaning_up_keeps_consistency(
    st: StateView,
    running: Seq<Seq<char>>,
    waiting: Seq<Seq<char>>,
)
    requires
        consistent(st),
    ensures
        consistent(scheduler::cleaned(st, running, waiting)),
{
    releasing_all_keeps_consistency(st, running);
    scheduler::releasing_keeps_pending(st, running);
    let freed = scheduler::released_all(st, running);
    let after = scheduler::cleaned(st, running, waiting);
    accounts_carry_over(freed, after);
    assert forall|jid: Seq<char>| #[trigger] after.pending.contains_key(jid) implies
        freed.pending.contains_key(jid) by {
        removing_takes_no_others(st.pending, waiting, jid);
    }
    assert forall|jid: Seq<char>| #[trigger] after.pids.contains_key(jid) implies
        !after.pending.contains_key(jid) by {
        if after.pending.contains_key(jid) {
            assert(freed.pending.contains_key(jid));
            assert(freed.pids.contains_key(jid));
        }
    }
    assert forall|i: int| 0 <= i < after.queued.len() implies !after.pids.contains_key(
        (#[trigger] after.queued[i]).jid,
    ) && !after.pending.contains_key(after.queued[i].jid) by {
        assert(after.queued[i] == freed.queued[i]);
        if after.pending.contains_key(after.queued[i].jid) {
            assert(freed.pending.contains_key(after.queued[i].jid));
        }
    }
}

proof fn releasing_all_keeps_consistency(st: StateView, jids: Seq<Seq<char>>)
    requires
        consistent(st),
    ensures
        consistent(scheduler::released_all(st, jids)),
    decreases jids.len(),
{
    if jids.len() > 0 {
        releasing_all_keeps_consistency(st, jids.drop_last());
        releasing_keeps_consistency(scheduler::released_all(st, jids.drop_last()), jids.last());
    }
}

/// What is left of a table without some keys.
pub proof fn removing_takes_no_others(
    m: Map<Seq<char>, JobView>,
    jids: Seq<Seq<char>>,
    jid: Seq<char>,
)
    ensures
        scheduler::without_all(m, jids).contains_key(jid) == (m.contains_key(jid)
            && !jids.contains(jid)),
        scheduler::without_all(m, jids).contains_key(jid) ==> scheduler::without_all(m, jids)[jid]
            == m[jid],
    decreases jids.len(),
{
    if jids.len() > 0 {
        let front = jids.drop_last();
        removing_takes_no_others(m, front, jid);
        if jids.contains(jid) {
            let i = jids.index_of(jid);
            if i < front.len() {
                assert(front[i] == jid);
            }
        }
        if front.contains(jid) {
            let i = front.index_of(jid);
            assert(jids[i] == jid);
        }
        if jids.last() == jid {
            assert(jids[jids.len() - 1] == jid);
        }
    }
}

/// A cleanup takes out exactly the jobs it is given: every other running job stays as it is.
pub proof fn cleaning_up_keeps_living_jobs(
    st: StateView,
    running: Seq<Seq<char>>,
    waiting: Seq<Seq<char>>,
    jid: Seq<char>,
)
    ensures
        scheduler::cleaned(st, running, waiting).pids.contains_key(jid) == (st.pids.contains_key(
            jid,
        ) && !running.contains(jid)),
        scheduler::cleaned(st, running, waiting).pids.contains_key(jid) ==> scheduler::cleaned(
            st,
            running,
            waiting,
        ).pids[jid] == st.pids[jid],
        scheduler::cleaned(st, running, waiting).pending.contains_key(jid) == (
        st.pending.contains_key(jid) && !waiting.contains(jid)),
        scheduler::cleaned(st, running, waiting).queued == st.queued,
{
    released_all_pids(st, running);
    removing_takes_no_others(st.pids, running, jid);
    removing_takes_no_others(st.pending, waiting, jid);
    scheduler::releasing_keeps_pending(st, running);
}

proof fn released_all_pids(st: StateView, jids: Seq<Seq<char>>)
    ensures
        scheduler::released_all(st, jids).pids == scheduler::without_all(st.pids, jids),
    decreases jids.len(),
{
    if jids.len() > 0 {
        let before = scheduler::released_all(st, jids.drop_last());
        released_all_pids(st, jids.drop_last());
        assert(scheduler::released(before, jids.last()).pids =~= before.pids.remove(jids.last()));
    }
}

// ---------------------------------------------------------------------------
// Allocation
// ---------------------------------------------------------------------------

/// The units that a job gets exist, are free, eligible to its priority, and come once each.
pub proof fn granted_units_are_free(
    st: StateView,
    job_type: Seq<char>,
    n: u8,
    priority: JobPriority,
)
    ensures
        ({
            let units = scheduler::grant(st, job_type, n, priority);
            &&& units.no_duplicates()
            &&& units.len() <= n
            &&& job_type == "cfd"@ ==> forall|u: u8| #[trigger]
                units.contains(u) ==> scheduler::eligible_cores(st, priority).contains(u)
                    && scheduler::core_free(st, u) && u < topology::core_count()
            &&& job_type != "cfd"@ ==> forall|u: u8| #[trigger]
                units.contains(u) ==> scheduler::eligible_cpu_list(st, priority).contains(u)
                    && scheduler::cpu_free(st, u) && u < topology::cpu_count()
        }),
{
    scheduler::eligible_lists_are_sound(st, priority);
    let units = scheduler::grant(st, job_type, n, priority);
    let (list, free) = if job_type == "cfd"@ {
        (scheduler::eligible_cores(st, priority), |c: u8| scheduler::core_free(st, c))
    } else {
        (scheduler::eligible_cpu_list(st, priority), |c: u8| scheduler::cpu_free(st, c))
    };
    seqs::filter_keeps_distinct(list, free);
    assert forall|u: u8| #[trigger] units.contains(u) implies list.contains(u) && free(u) by {
        let i = units.index_of(u);
        assert(list.filter(free)[i] == u);
        seqs::filter_members(list, free, u);
    }
}

/// Where a job lacks nothing, it gets as many units as it asks for.
pub proof fn full_grant(st: StateView, job_type: Seq<char>, n: u8, priority: JobPriority)
    requires
        scheduler::shortage(st, job_type, n, priority) == 0,
        job_type == "cfd"@ || job_type == "py"@,
    ensures
        scheduler::grant(st, job_type, n, priority).len() == n,
{
}

/// Whether `after` is `st` with one more running job, which holds the units granted to it.
pub open spec fn takes_grant(
    st: StateView,
    after: StateView,
    jid: Seq<char>,
    job_type: Seq<char>,
    n: u8,
    priority: JobPriority,
) -> bool {
    let units = scheduler::grant(st, job_type, n, priority);
    &&& after.pids.contains_key(jid)
    &&& after.pids == st.pids.insert(jid, after.pids[jid])
    &&& after.cfd == scheduler::mark_grant(st, job_type, units).cfd
    &&& after.cpus == scheduler::mark_grant(st, job_type, units).cpus
    &&& job_type == "cfd"@ ==> after.pids[jid].cores == Some(units) && after.pids[jid].cpus is None
    &&& job_type != "cfd"@ ==> after.pids[jid].cores is None && after.pids[jid].cpus == Some(units)
}

/// The CPUs that a job holds with its grant, and what the grant does to a CPU and to a core.
proof fn grant_is_taken(
    st: StateView,
    after: StateView,
    jid: Seq<char>,
    job_type: Seq<char>,
    n: u8,
    priority: JobPriority,
    cpu: u8,
    core: u8,
)
    requires
        takes_grant(st, after, jid, job_type, n, priority),
    ensures
        holds_cpu(after, jid, cpu) ==> scheduler::cpu_free(st, cpu) && !scheduler::cpu_free(
            after,
            cpu,
        ),
        !holds_cpu(after, jid, cpu) ==> scheduler::cpu_free(after, cpu) == scheduler::cpu_free(
            st,
            cpu,
        ),
        holds_core(after, jid, core) ==> core < topology::core_count() && !scheduler::core_marked(
            st,
            core,
        ) && scheduler::core_marked(after, core),
        !holds_core(after, jid, core) ==> scheduler::core_marked(after, core)
            == scheduler::core_marked(st, core),
{
    let units = scheduler::grant(st, job_type, n, priority);
    let job = after.pids[jid];
    granted_units_are_free(st, job_type, n, priority);
    if job_type == "cfd"@ {
        assert(scheduler::held_cores(job) == units);
        assert(scheduler::held_cpus(job) =~= scheduler::cpus_of(units));
        scheduler::marking_cores_takes_their_cpus(st, units, cpu);
        assert(scheduler::cpu_free(after, cpu) == scheduler::cpu_free(
            scheduler::mark_cores(st, units),
            cpu,
        ));
        if scheduler::cpus_of(units).contains(cpu) {
            scheduler::cpus_of_members(units, cpu);
            let i = choose|i: int|
                0 <= i < units.len() && topology::on_core(cpu, #[trigger] units[i]);
            assert(units.contains(units[i]));
            assert(scheduler::core_free(st, units[i]));
        }
        state::key_is_in_keys(units, core);
    } else {
        assert(scheduler::held_cores(job) =~= Seq::<u8>::empty());
        assert(scheduler::cpus_of(Seq::empty()) =~= Seq::<u8>::empty());
        assert(scheduler::held_cpus(job) =~= units);
        scheduler::marking_keeps_other_cpus(st, units, cpu);
        assert(scheduler::cpu_free(after, cpu) == scheduler::cpu_free(
            scheduler::mark_cpus(st, units),
            cpu,
        ));
    }
}

proof fn taking_a_grant_keeps_accounts(
    st: StateView,
    after: StateView,
    jid: Seq<char>,
    job_type: Seq<char>,
    n: u8,
    priority: JobPriority,
)
    requires
        accounts(st),
        !st.pids.contains_key(jid),
        takes_grant(st, after, jid, job_type, n, priority),
    ensures
        accounts(after),
{
    assert forall|j: Seq<char>, cpu: u8| j != jid implies #[trigger] holds_cpu(after, j, cpu)
        == holds_cpu(st, j, cpu) by {}
    assert forall|j: Seq<char>, core: u8| j != jid implies #[trigger] holds_core(after, j, core)
        == holds_core(st, j, core) by {}
    assert forall|cpu: u8| #[trigger]
        scheduler::cpu_free(after, cpu) == !exists|j: Seq<char>| #[trigger]
            holds_cpu(after, j, cpu) by {
        grant_is_taken(st, after, jid, job_type, n, priority, cpu, 0);
        if !scheduler::cpu_free(after, cpu) && !holds_cpu(after, jid, cpu) {
            let j = choose|j: Seq<char>| #[trigger] holds_cpu(st, j, cpu);
            assert(holds_cpu(after, j, cpu));
        }
        if exists|j: Seq<char>| #[trigger] holds_cpu(after, j, cpu) {
            let j = choose|j: Seq<char>| #[trigger] holds_cpu(after, j, cpu);
            if j != jid {
                assert(holds_cpu(st, j, cpu));
                assert(!scheduler::cpu_free(st, cpu));
            }
        }
    }
    assert forall|core: u8| #[trigger]
        scheduler::core_marked(after, core) == exists|j: Seq<char>| #[trigger]
            holds_core(after, j, core) by {
        grant_is_taken(st, after, jid, job_type, n, priority, 0, core);
        if scheduler::core_marked(after, core) && !holds_core(after, jid, core) {
            let j = choose|j: Seq<char>| #[trigger] holds_core(st, j, core);
            assert(holds_core(after, j, core));
        }
        if exists|j: Seq<char>| #[trigger] holds_core(after, j, core) {
            let j = choose|j: Seq<char>| #[trigger] holds_core(after, j, core);
            if j != jid {
                assert(holds_core(st, j, core));
                assert(scheduler::core_marked(st, core));
            }
        }
    }
    assert forall|a: Seq<char>, b: Seq<char>, cpu: u8|
        #![trigger holds_cpu(after, a, cpu), holds_cpu(after, b, cpu)]
        holds_cpu(after, a, cpu) && holds_cpu(after, b, cpu) implies a == b by {
        grant_is_taken(st, after, jid, job_type, n, priority, cpu, 0);
        if a != jid {
            assert(holds_cpu(st, a, cpu));
            assert(!scheduler::cpu_free(st, cpu));
        }
        if b != jid {
            assert(holds_cpu(st, b, cpu));
            assert(!scheduler::cpu_free(st, cpu));
        }
    }
    assert forall|j: Seq<char>, core: u8| #[trigger] holds_core(after, j, core) implies core
        < topology::core_count() by {
        grant_is_taken(st, after, jid, job_type, n, priority, 0, core);
        if j != jid {
            assert(holds_core(st, j, core));
        }
    }
}

// ---------------------------------------------------------------------------
// Dispatch and start
// ---------------------------------------------------------------------------

/// A dispatch keeps the state consistent.
pub proof fn dispatching_keeps_consistency(
    st: StateView,
    i: int,
    parsed: Option<Seq<Seq<char>>>,
    start: Timestamp,
)
    requires
        consistent(st),
        0 <= i < st.queued.len(),
    ensures
        consistent(scheduler::dispatched(st, i, parsed, start).0),
{
    let (after, info) = scheduler::dispatched(st, i, parsed, start);
    let job = st.queued[i];
    let n = job.need as u8;
    if after != st {
        let rest = StateView { queued: st.queued.remove(i), ..st };
        accounts_carry_over(st, rest);
        if info is Some {
            freeness_ignores_the_queue(st, rest, job.job_type, n, job.priority);
            taking_a_grant_keeps_accounts(rest, after, job.jid, job.job_type, n, job.priority);
        }
        assert forall|k: int| 0 <= k < after.queued.len() implies !after.pids.contains_key(
            (#[trigger] after.queued[k]).jid,
        ) && !after.pending.contains_key(after.queued[k].jid) by {
            let m = if k < i {
                k
            } else {
                k + 1
            };
            assert(after.queued[k] == st.queued[m]);
        }
        assert forall|k: int, l: int|
            0 <= k < after.queued.len() && 0 <= l < after.queued.len() && k != l implies (
        #[trigger] after.queued[k]).jid != (#[trigger] after.queued[l]).jid by {
            let m = if k < i {
                k
            } else {
                k + 1
            };
            let o = if l < i {
                l
            } else {
                l + 1
            };
            assert(after.queued[k] == st.queued[m]);
            assert(after.queued[l] == st.queued[o]);
        }
    }
}

proof fn freeness_ignores_the_queue(
    st: StateView,
    rest: StateView,
    job_type: Seq<char>,
    n: u8,
    priority: JobPriority,
)
    requires
        rest.cfd == st.cfd,
        rest.cpus == st.cpus,
        rest.reserved == st.reserved,
    ensures
        scheduler::grant(rest, job_type, n, priority) == scheduler::grant(
            st,
            job_type,
            n,
            priority,
        ),
{
    seqs::filter_agrees(
        scheduler::eligible_cores(st, priority),
        |c: u8| scheduler::core_free(rest, c),
        |c: u8| scheduler::core_free(st, c),
    );
    seqs::filter_agrees(
        scheduler::eligible_cpu_list(st, priority),
        |c: u8| scheduler::cpu_free(rest, c),
        |c: u8| scheduler::cpu_free(st, c),
    );
}

/// The start of a `run` job that waits keeps the state consistent.
pub proof fn starting_keeps_consistency(
    st: StateView,
    jid: Seq<char>,
    kind: JobKind,
    n: u8,
    priority: JobPriority,
    now: Timestamp,
    command: Seq<Seq<char>>,
    output: Seq<char>,
)
    requires
        consistent(st),
        st.pending.contains_key(jid),
    ensures
        consistent(jobs::run_started(st, jid, kind, n, priority, now, command, output)),
{
    let after = jobs::run_started(st, jid, kind, n, priority, now, command, output);
    jobs::kinds_differ();
    taking_a_grant_keeps_accounts(st, after, jid, kind.stored_name(), n, priority);
    assert forall|k: int| 0 <= k < after.queued.len() implies !after.pids.contains_key(
        (#[trigger] after.queued[k]).jid,
    ) && !after.pending.contains_key(after.queued[k].jid) by {
        assert(after.queued[k] == st.queued[k]);
    }
}

/// A new job ID is used nowhere, so registering a `run` job under it keeps the state consistent.
pub proof fn registering_keeps_consistency(
    st: StateView,
    after: StateView,
    jid: Seq<char>,
    job: JobView,
)
    requires
        consistent(st),
        !st.pids.contains_key(jid),
        forall|i: int| 0 <= i < st.queued.len() ==> (#[trigger] st.queued[i]).jid != jid,
        after == (StateView {
            pending: st.pending.insert(jid, job),
            next_jid: after.next_jid,
            ..st
        }),
    ensures
        consistent(after),
{
    accounts_carry_over(st, after);
    assert forall|k: int| 0 <= k < after.queued.len() implies !after.pids.contains_key(
        (#[trigger] after.queued[k]).jid,
    ) && !after.pending.contains_key(after.queued[k].jid) by {
        assert(after.queued[k] == st.queued[k]);
    }
}

/// A new job ID is used nowhere, so queueing a job under it keeps the state consistent.
pub proof fn enqueueing_keeps_consistency(st: StateView, after: StateView, job: JobView)
    requires
        consistent(st),
        !st.pids.contains_key(job.jid),
        !st.pending.contains_key(job.jid),
        forall|i: int| 0 <= i < st.queued.len() ==> (#[trigger] st.queued[i]).jid != job.jid,
        after == (StateView { queued: st.queued.push(job), next_jid: after.next_jid, ..st }),
    ensures
        consistent(after),
{
    accounts_carry_over(st, after);
    assert forall|k: int| 0 <= k < after.queued.len() implies !after.pids.contains_key(
        (#[trigger] after.queued[k]).jid,
    ) && !after.pending.contains_key(after.queued[k].jid) by {
        if k < st.queued.len() {
            assert(after.queued[k] == st.queued[k]);
        }
    }
    assert forall|k: int, l: int|
        0 <= k < after.queued.len() && 0 <= l < after.queued.len() && k != l implies (
    #[trigger] after.queued[k]).jid != (#[trigger] after.queued[l]).jid by {
        if k < st.queued.len() {
            assert(after.queued[k] == st.queued[k]);
        }
        if l < st.queued.len() {
            assert(after.queued[l] == st.queued[l]);
        }
    }
}

/// A dispatched job goes back to the queue with the state consistent.
pub proof fn requeueing_keeps_consistency(st: StateView, info: DispatchView)
    requires
        consistent(st),
        st.pids.contains_key(info.jid),
    ensures
        consistent(jobs::requeued(st, info)),
{
    releasing_keeps_consistency(st, info.jid);
    let freed = scheduler::released(st, info.jid);
    let after = jobs::requeued(st, info);
    accounts_carry_over(freed, after);
    assert(after.queued[0].jid == info.jid);
    assert forall|k: int| 0 <= k < after.queued.len() implies !after.pids.contains_key(
        (#[trigger] after.queued[k]).jid,
    ) && !after.pending.contains_key(after.queued[k].jid) by {
        if k > 0 {
            assert(after.queued[k] == st.queued[k - 1]);
        }
    }
    assert forall|k: int, l: int|
        0 <= k < after.queued.len() && 0 <= l < after.queued.len() && k != l implies (
    #[trigger] after.queued[k]).jid != (#[trigger] after.queued[l]).jid by {
        if k > 0 {
            assert(after.queued[k] == st.queued[k - 1]);
        }
        if l > 0 {
            assert(after.queued[l] == st.queued[l - 1]);
        }
    }
}

/// Recording the process of a job keeps the state consistent.
pub proof fn recording_a_process_keeps_consistency(st: StateView, jid: Seq<char>, pid: u32)
    requires
        consistent(st),
    ensures
        consistent(StateView { pending: jobs::with_pid(st.pending, jid, pid), ..st }),
        consistent(StateView { pids: jobs::with_pid(st.pids, jid, pid), ..st }),
{
    let waiting = StateView { pending: jobs::with_pid(st.pending, jid, pid), ..st };
    accounts_carry_over(st, waiting);
    let running = StateView { pids: jobs::with_pid(st.pids, jid, pid), ..st };
    accounts_carry_over(st, running);
    assert forall|j: Seq<char>| #[trigger] running.pids.contains_key(j) implies
        !running.pending.contains_key(j) by {
        assert(st.pids.contains_key(j));
    }
    assert forall|k: int| 0 <= k < st.queued.len() implies !running.pids.contains_key(
        (#[trigger] running.queued[k]).jid,
    ) && !running.pending.contains_key(running.queued[k].jid) by {
        assert(!st.pids.contains_key(st.queued[k].jid));
    }
    assert forall|k: int| 0 <= k < st.queued.len() implies !waiting.pids.contains_key(
        (#[trigger] waiting.queued[k]).jid,
    ) && !waiting.pending.contains_key(waiting.queued[k].jid) by {
        assert(!st.pids.contains_key(st.queued[k].jid));
    }
}

/// Withdrawing a waiting job and taking a job out of the queue keep the state consistent.
pub proof fn cancelling_keeps_consistency(st: StateView, jid: Seq<char>, i: int)
    requires
        consistent(st),
    ensures
        consistent(StateView { pending: st.pending.remove(jid), ..st }),
        0 <= i < st.queued.len() ==> consistent(StateView { queued: st.queued.remove(i), ..st }),
{
    let withdrawn = StateView { pending: st.pending.remove(jid), ..st };
    accounts_carry_over(st, withdrawn);
    assert forall|k: int| 0 <= k < st.queued.len() implies !withdrawn.pids.contains_key(
        (#[trigger] withdrawn.queued[k]).jid,
    ) && !withdrawn.pending.contains_key(withdrawn.queued[k].jid) by {
        assert(!st.pids.contains_key(st.queued[k].jid));
    }
    if 0 <= i < st.queued.len() {
        let after = StateView { queued: st.queued.remove(i), ..st };
        accounts_carry_over(st, after);
        assert forall|k: int| 0 <= k < after.queued.len() implies !after.pids.contains_key(
            (#[trigger] after.queued[k]).jid,
        ) && !after.pending.contains_key(after.queued[k].jid) by {
            assert(after.queued[k] == st.queued[if k < i {
                k
            } else {
                k + 1
            }]);
        }
        assert forall|k: int, l: int|
            0 <= k < after.queued.len() && 0 <= l < after.queued.len() && k != l implies (
        #[trigger] after.queued[k]).jid != (#[trigger] after.queued[l]).jid by {
            assert(after.queued[k] == st.queued[if k < i {
                k
            } else {
                k + 1
            }]);
            assert(after.queued[l] == st.queued[if l < i {
                l
            } else {
                l + 1
            }]);
        }
    }
}

// ---------------------------------------------------------------------------
// Every state that can be reached
// ---------------------------------------------------------------------------

/// What can happen to the scheduler's state.
pub enum Operation {
    /// A `run` job is registered under a new ID.
    Register { jid: Seq<char>, job: JobView, next_jid: u64 },
    /// A job is queued under a new ID.
    Enqueue { job: JobView, next_jid: u64 },
    /// A waiting `run` job starts.
    Start {
        jid: Seq<char>,
        kind: JobKind,
        n: u8,
        priority: JobPriority,
        now: Timestamp,
        command: Seq<Seq<char>>,
        output: Seq<char>,
    },
    /// A queued job is dispatched, where it can be.
    Dispatch { i: int, parsed: Option<Seq<Seq<char>>>, start: Timestamp },
    /// A dispatched job goes back to the queue.
    Requeue { info: DispatchView },
    /// A job ends.
    Release { jid: Seq<char> },
    /// Jobs whose processes are gone are taken out.
    CleanUp { running: Seq<Seq<char>>, waiting: Seq<Seq<char>> },
    /// The process of a waiting job is recorded.
    RecordWaiting { jid: Seq<char>, pid: u32 },
    /// The process of a running job is recorded.
    RecordRunning { jid: Seq<char>, pid: u32 },
    /// A waiting job is withdrawn.
    Withdraw { jid: Seq<char> },
    /// A queued job is cancelled.
    Dequeue { i: int },
    /// A job without a process is cleared.
    Clear { jid: Seq<char> },
    /// The reservation is set.
    Reserve { cores: Seq<u8> },
    /// The state is read back and brought up to the topology.
    Migrate,
}

/// Whether a job ID is new.
pub open spec fn is_new(st: StateView, jid: Seq<char>) -> bool {
    &&& !st.pids.contains_key(jid)
    &&& !st.pending.contains_key(jid)
    &&& forall|i: int| 0 <= i < st.queued.len() ==> (#[trigger] st.queued[i]).jid != jid
}

/// An ID that is not taken is new.
pub proof fn untaken_ids_are_new(st: StateView, existing: Seq<Seq<char>>, jid: Seq<char>)
    requires
        !ids::is_taken(st, existing, jid),
    ensures
        is_new(st, jid),
{
    assert forall|i: int| 0 <= i < st.queued.len() implies (#[trigger] st.queued[i]).jid != jid by {
        assert(ids::queued_jid(st, i) == st.queued[i].jid);
    }
}

/// Whether an operation can happen in a state.
pub open spec fn can_happen(st: StateView, op: Operation) -> bool {
    match op {
        Operation::Register { jid, job, next_jid } => is_new(st, jid),
        Operation::Enqueue { job, next_jid } => is_new(st, job.jid),
        Operation::Start { jid, kind, n, priority, now, command, output } =>
            st.pending.contains_key(jid) && jobs::may_start(st, jid, kind, n, priority),
        Operation::Dispatch { i, parsed, start } => scheduler::is_next(st, i),
        Operation::Requeue { info } => st.pids.contains_key(info.jid),
        Operation::Dequeue { i } => 0 <= i < st.queued.len(),
        _ => true,
    }
}

/// The state after an operation.
pub open spec fn after(st: StateView, op: Operation) -> StateView {
    match op {
        Operation::Register { jid, job, next_jid } => StateView {
            pending: st.pending.insert(jid, job),
            next_jid,
            ..st
        },
        Operation::Enqueue { job, next_jid } => StateView {
            queued: st.queued.push(job),
            next_jid,
            ..st
        },
        Operation::Start { jid, kind, n, priority, now, command, output } => jobs::run_started(
            st,
            jid,
            kind,
            n,
            priority,
            now,
            command,
            output,
        ),
        Operation::Dispatch { i, parsed, start } => scheduler::dispatched(st, i, parsed, start).0,
        Operation::Requeue { info } => jobs::requeued(st, info),
        Operation::Release { jid } => scheduler::released(st, jid),
        Operation::CleanUp { running, waiting } => scheduler::cleaned(st, running, waiting),
        Operation::RecordWaiting { jid, pid } => StateView {
            pending: jobs::with_pid(st.pending, jid, pid),
            ..st
        },
        Operation::RecordRunning { jid, pid } => StateView {
            pids: jobs::with_pid(st.pids, jid, pid),
            ..st
        },
        Operation::Withdraw { jid } => StateView { pending: st.pending.remove(jid), ..st },
        Operation::Dequeue { i } => StateView { queued: st.queued.remove(i), ..st },
        Operation::Clear { jid } => StateView {
            pending: st.pending.remove(jid),
            ..scheduler::released(st, jid)
        },
        Operation::Reserve { cores } => StateView { reserved: state::normalized(cores), ..st },
        Operation::Migrate => state::migrated(st),
    }
}

/// The state after a history of operations, from the state before any job.
pub open spec fn reached(history: Seq<Operation>) -> StateView
    decreases history.len(),
{
    if history.len() == 0 {
        state::fresh_state()
    } else {
        after(reached(history.drop_last()), history.last())
    }
}

/// Whether each operation of a history could happen when it did.
pub open spec fn is_history(history: Seq<Operation>) -> bool
    decreases history.len(),
{
    history.len() == 0 || (is_history(history.drop_last()) && can_happen(
        reached(history.drop_last()),
        history.last(),
    ))
}

/// Every operation keeps the state consistent.
pub proof fn operations_keep_consistency(st: StateView, op: Operation)
    requires
        consistent(st),
        can_happen(st, op),
    ensures
        consistent(after(st, op)),
{
    match op {
        Operation::Register { jid, job, next_jid } => {
            registering_keeps_consistency(st, after(st, op), jid, job);
        },
        Operation::Enqueue { job, next_jid } => {
            enqueueing_keeps_consistency(st, after(st, op), job);
        },
        Operation::Start { jid, kind, n, priority, now, command, output } => {
            starting_keeps_consistency(st, jid, kind, n, priority, now, command, output);
        },
        Operation::Dispatch { i, parsed, start } => {
            dispatching_keeps_consistency(st, i, parsed, start);
        },
        Operation::Requeue { info } => {
            requeueing_keeps_consistency(st, info);
        },
        Operation::Release { jid } => {
            releasing_keeps_consistency(st, jid);
        },
        Operation::CleanUp { running, waiting } => {
            cleaning_up_keeps_consistency(st, running, waiting);
        },
        Operation::RecordWaiting { jid, pid } => {
            recording_a_process_keeps_consistency(st, jid, pid);
        },
        Operation::RecordRunning { jid, pid } => {
            recording_a_process_keeps_consistency(st, jid, pid);
        },
        Operation::Withdraw { jid } => {
            cancelling_keeps_consistency(st, jid, 0);
        },
        Operation::Dequeue { i } => {
            cancelling_keeps_consistency(st, Seq::empty(), i);
        },
        Operation::Clear { jid } => {
            releasing_keeps_consistency(st, jid);
            cancelling_keeps_consistency(scheduler::released(st, jid), jid, 0);
        },
        Operation::Reserve { cores } => {
            reserving_keeps_consistency(st, state::normalized(cores));
        },
        Operation::Migrate => {
            migrating_keeps_consistency(st);
        },
    }
}

proof fn reserving_keeps_consistency(st: StateView, cores: Seq<u8>)
    requires
        consistent(st),
    ensures
        consistent(StateView { reserved: cores, ..st }),
{
    let after = StateView { reserved: cores, ..st };
    accounts_carry_over(st, after);
    assert forall|i: int| 0 <= i < after.queued.len() implies !after.pids.contains_key(
        (#[trigger] after.queued[i]).jid,
    ) && !after.pending.contains_key(after.queued[i].jid) by {
        assert(!st.pids.contains_key(st.queued[i].jid));
    }
}

/// In every state that can be reached the tables tell exactly what is held, no CPU is held by two
/// jobs, and every job stands in one place.
pub proof fn reached_states_are_consistent(history: Seq<Operation>)
    requires
        is_history(history),
    ensures
        consistent(reached(history)),
    decreases history.len(),
{
    if history.len() == 0 {
        fresh_state_is_consistent();
    } else {
        reached_states_are_consistent(history.drop_last());
        operations_keep_consistency(reached(history.drop_last()), history.last());
    }
}

// ---------------------------------------------------------------------------
// One operation undoes another
// ---------------------------------------------------------------------------

/// A job that ends gives back what it got: after a dispatch and the end of the job, the same CPUs
/// and cores are free as before. Where the tables cover the topology, they are the same tables, and
/// nothing has changed but that the job is no longer queued.
pub proof fn release_undoes_dispatch(
    st: StateView,
    i: int,
    parsed: Option<Seq<Seq<char>>>,
    start: Timestamp,
    cpu: u8,
    core: u8,
)
    requires
        consistent(st),
        0 <= i < st.queued.len(),
        scheduler::dispatched(st, i, parsed, start).1 is Some,
    ensures
        ({
            let after = scheduler::released(
                scheduler::dispatched(st, i, parsed, start).0,
                st.queued[i].jid,
            );
            &&& scheduler::cpu_free(after, cpu) == scheduler::cpu_free(st, cpu)
            &&& scheduler::core_marked(after, core) == scheduler::core_marked(st, core)
            &&& after.pids == st.pids
            &&& after.pending == st.pending
            &&& after.queued == st.queued.remove(i)
            &&& state::migrated(st) == st ==> after == (StateView {
                queued: st.queued.remove(i),
                ..st
            })
        }),
{
    let job = st.queued[i];
    let n = job.need as u8;
    let rest = StateView { queued: st.queued.remove(i), ..st };
    let middle = scheduler::dispatched(st, i, parsed, start).0;
    let after = scheduler::released(middle, job.jid);
    freeness_ignores_the_queue(st, rest, job.job_type, n, job.priority);
    grant_is_taken(rest, middle, job.jid, job.job_type, n, job.priority, cpu, core);
    releasing_frees_what_was_held(middle, job.jid, cpu, core);
    assert(scheduler::cpu_free(rest, cpu) == scheduler::cpu_free(st, cpu));
    assert(scheduler::core_marked(rest, core) == scheduler::core_marked(st, core));
    assert(after.pids =~= st.pids);
    if state::migrated(st) == st {
        let units = scheduler::grant(st, job.job_type, n, job.priority);
        granted_units_are_free(st, job.job_type, n, job.priority);
        assert(scheduler::cpus_of(Seq::empty()) =~= Seq::<u8>::empty());
        let held = scheduler::pin_list(job.job_type, units);
        assert(scheduler::held_cpus(middle.pids[job.jid]) =~= held);
        assert forall|k: int| 0 <= k < held.len() implies scheduler::cpu_free(st, #[trigger] held[k])
            && held[k] < topology::cpu_count() by {
            if job.job_type == "cfd"@ {
                assert(held.contains(held[k]));
                scheduler::cpus_of_members(units, held[k]);
                let c = choose|c: int|
                    0 <= c < units.len() && topology::on_core(held[k], #[trigger] units[c]);
                assert(units.contains(units[c]));
            } else {
                assert(units.contains(units[k]));
            }
        }
        assert forall|key: Seq<char>| state::keys_of(held).contains(key) implies
            st.cpus.contains_key(key) && st.cpus[key] is None by {
            let k = choose|k: int| 0 <= k < held.len() && key == state::key(#[trigger] held[k]);
            all_units_have_keys(held[k]);
            assert(state::migrated(st).cpus.contains_key(key));
        }
        assert(after.cpus =~= st.cpus);
        if job.job_type == "cfd"@ {
            assert forall|key: Seq<char>| state::keys_of(units).contains(key) implies
                st.cfd.contains_key(key) && !st.cfd[key] by {
                let k = choose|k: int|
                    0 <= k < units.len() && key == state::key(#[trigger] units[k]);
                assert(units.contains(units[k]));
                all_units_have_keys(units[k]);
                assert(state::migrated(st).cfd.contains_key(key));
            }
        }
        assert(after.cfd =~= st.cfd);
    }
}

proof fn all_units_have_keys(unit: u8)
    ensures
        unit < topology::cpu_count() ==> state::keys_of(
            topology::first_numbers(topology::cpu_count()),
        ).contains(state::key(unit)),
        unit < topology::core_count() ==> state::keys_of(
            topology::first_numbers(topology::core_count()),
        ).contains(state::key(unit)),
{
    let cpus = topology::first_numbers(topology::cpu_count());
    let cores = topology::first_numbers(topology::core_count());
    if unit < topology::cpu_count() {
        assert(cpus[unit as int] == unit);
    }
    if unit < topology::core_count() {
        assert(cores[unit as int] == unit);
    }
}

/// A dispatch that could not be carried out is undone by requeueing: the job stands at the front
/// of the queue, and the same CPUs and cores are free as before.
pub proof fn requeue_undoes_dispatch(
    st: StateView,
    i: int,
    parsed: Option<Seq<Seq<char>>>,
    start: Timestamp,
    cpu: u8,
    core: u8,
)
    requires
        consistent(st),
        0 <= i < st.queued.len(),
        scheduler::dispatched(st, i, parsed, start).1 is Some,
    ensures
        ({
            let (middle, info) = scheduler::dispatched(st, i, parsed, start);
            let after = jobs::requeued(middle, info->0);
            let job = st.queued[i];
            let back = after.queued[0];
            &&& scheduler::cpu_free(after, cpu) == scheduler::cpu_free(st, cpu)
            &&& scheduler::core_marked(after, core) == scheduler::core_marked(st, core)
            &&& after.pids == st.pids
            &&& after.queued == seq![back] + st.queued.remove(i)
            &&& back.jid == job.jid
            &&& back.job_type == job.job_type
            &&& back.priority == job.priority
            &&& back.submit == job.submit
            &&& back.need == job.need
            &&& state::text_or_empty(back.cmd) == state::text_or_empty(job.cmd)
            &&& state::text_or_empty(back.output) == state::text_or_empty(job.output)
        }),
{
    release_undoes_dispatch(st, i, parsed, start, cpu, core);
    scheduler::available_is_small(st, st.queued[i].job_type, st.queued[i].priority);
}

/// A job whose dispatch could not be carried out is the next to be tried again.
pub proof fn requeued_job_is_next_again(
    st: StateView,
    i: int,
    parsed: Option<Seq<Seq<char>>>,
    start: Timestamp,
)
    requires
        scheduler::is_next(st, i),
        scheduler::dispatched(st, i, parsed, start).1 is Some,
    ensures
        ({
            let (middle, info) = scheduler::dispatched(st, i, parsed, start);
            scheduler::is_next(jobs::requeued(middle, info->0), 0)
        }),
{
    let (middle, info) = scheduler::dispatched(st, i, parsed, start);
    let after = jobs::requeued(middle, info->0);
    let level = st.queued[i].priority;
    assert(after.queued[0].priority == level);
    assert forall|j: int| 0 <= j < after.queued.len() implies (
    #[trigger] after.queued[j]).priority.rank() <= level.rank() by {
        if j > 0 {
            let rest = st.queued.remove(i);
            assert(after.queued[j] == rest[j - 1]);
            assert(rest[j - 1] == st.queued[if j - 1 < i {
                j - 1
            } else {
                j
            }]);
        }
    }
    assert(after.pending == st.pending);
    assert(!scheduler::higher_pending(st, level, None));
    assert forall|jid: Seq<char>| #[trigger] after.pending.contains_key(jid) implies
        after.pending[jid].priority.rank() <= level.rank() by {
        assert(st.pending.contains_key(jid));
    }
}

/// A job that is cancelled in the queue is in no place afterwards.
pub proof fn cancelled_job_is_nowhere(st: StateView, jid: Seq<char>, i: int)
    requires
        consistent(st),
        jobs::first_queued(st.queued, jid, i),
    ensures
        is_new(StateView { queued: st.queued.remove(i), ..st }, jid),
{
    let left = st.queued.remove(i);
    assert forall|j: int| 0 <= j < left.len() implies (#[trigger] left[j]).jid != jid by {
        let k = if j < i {
            j
        } else {
            j + 1
        };
        assert(left[j] == st.queued[k]);
        assert(st.queued[i].jid == jid);
    }
    assert(!st.pids.contains_key(st.queued[i].jid));
}

/// A dispatch loses no job and makes none: the dispatched job runs, every other one stays where
/// it was, and the queue keeps its order.
pub proof fn dispatch_moves_one_job(
    st: StateView,
    i: int,
    parsed: Option<Seq<Seq<char>>>,
    start: Timestamp,
    jid: Seq<char>,
)
    requires
        consistent(st),
        0 <= i < st.queued.len(),
        scheduler::dispatched(st, i, parsed, start).1 is Some,
    ensures
        ({
            let after = scheduler::dispatched(st, i, parsed, start).0;
            &&& after.pids.contains_key(jid) == (st.pids.contains_key(jid) || jid
                == st.queued[i].jid)
            &&& st.pids.contains_key(jid) ==> after.pids[jid] == st.pids[jid]
            &&& after.pending == st.pending
            &&& after.queued == st.queued.remove(i)
        }),
{
}

/// A dispatched job runs with what it was queued with, holds exactly as many units as it asked for,
/// and is bound to exactly the CPUs that it holds.
pub proof fn dispatched_job_is_bound_to_what_it_holds(
    st: StateView,
    i: int,
    parsed: Option<Seq<Seq<char>>>,
    start: Timestamp,
)
    requires
        0 <= i < st.queued.len(),
        scheduler::dispatched(st, i, parsed, start).1 is Some,
    ensures
        ({
            let (after, info) = scheduler::dispatched(st, i, parsed, start);
            let job = after.pids[st.queued[i].jid];
            &&& (info->0).pin_cpus == scheduler::held_cpus(job)
            &&& (info->0).jid == st.queued[i].jid
            &&& job.jid == st.queued[i].jid
            &&& job.priority == st.queued[i].priority
            &&& job.need == st.queued[i].need
            &&& job.job_type == "cfd"@ ==> scheduler::held_cores(job).len() == job.need
            &&& job.job_type != "cfd"@ ==> scheduler::held_cpus(job).len() == job.need
            &&& job.start == Some(start)
        }),
{
    scheduler::available_is_small(st, st.queued[i].job_type, st.queued[i].priority);
    let (after, info) = scheduler::dispatched(st, i, parsed, start);
    let job = after.pids[st.queued[i].jid];
    assert(scheduler::cpus_of(Seq::empty()) =~= Seq::<u8>::empty());
    assert((info->0).pin_cpus =~= scheduler::held_cpus(job));
}

/// The arguments of a job come back from the queue as they were given, where the stored text
/// reads as the list that was stored.
pub proof fn queued_command_comes_back(
    st: StateView,
    i: int,
    args: Seq<Seq<char>>,
    start: Timestamp,
)
    requires
        0 <= i < st.queued.len(),
        st.queued[i].cmd == Some(outside::json_text(args)),
        outside::json_strings(outside::json_text(args)) == Some(args),
    ensures
        ({
            let parsed = outside::json_strings(state::text_or_empty(st.queued[i].cmd));
            let info = scheduler::dispatched(st, i, parsed, start).1;
            info is Some ==> (info->0).args == args
        }),
{
}

/// A queued job is not dispatched where it asks for more units than are available to its priority,
/// however many that is, or where its kind is unknown: nothing changes, so it stays queued.
pub proof fn unmet_job_stays_queued(
    st: StateView,
    i: int,
    parsed: Option<Seq<Seq<char>>>,
    start: Timestamp,
)
    requires
        0 <= i < st.queued.len(),
        ({
            let job = st.queued[i];
            ||| job.need as nat > scheduler::available(st, job.job_type, job.priority)
            ||| job.job_type != "cfd"@ && job.job_type != "py"@
        }),
    ensures
        scheduler::dispatched(st, i, parsed, start) == (st, None::<scheduler::DispatchView>),
{
}

// ---------------------------------------------------------------------------
// The order of the queue
// ---------------------------------------------------------------------------

/// The queue is served by level and, within a level, in the order of arrival: no queued job and
/// no waiting `run` job is above the next job, and no job of its level is before it.
pub proof fn queue_is_served_in_order(st: StateView, i: int, j: int, jid: Seq<char>)
    requires
        scheduler::is_next(st, i),
    ensures
        0 <= j < st.queued.len() ==> st.queued[j].priority.rank() <= st.queued[i].priority.rank(),
        0 <= j < st.queued.len() && st.queued[j].priority == st.queued[i].priority ==> i <= j,
        st.pending.contains_key(jid) ==> st.pending[jid].priority.rank()
            <= st.queued[i].priority.rank(),
{
    if st.pending.contains_key(jid) {
        assert(!scheduler::higher_pending(st, st.queued[i].priority, None));
    }
}

/// Only one job is next.
pub proof fn one_job_is_next(st: StateView, i: int, j: int)
    requires
        scheduler::is_next(st, i),
        scheduler::is_next(st, j),
    ensures
        i == j,
{
    assert(st.queued[i].priority.rank() <= st.queued[j].priority.rank());
    assert(st.queued[j].priority.rank() <= st.queued[i].priority.rank());
}

/// Where no `run` job waits, a queue that is not empty has a next job.
pub proof fn waiting_queue_has_a_next(st: StateView) -> (i: int)
    requires
        st.queued.len() > 0,
        forall|jid: Seq<char>| !st.pending.contains_key(jid),
    ensures
        scheduler::is_next(st, i),
{
    head_of_prefix(st.queued, st.queued.len() as int)
}

proof fn head_of_prefix(queued: Seq<JobView>, n: int) -> (i: int)
    requires
        0 < n <= queued.len(),
    ensures
        0 <= i < n,
        forall|j: int|
            0 <= j < n ==> (#[trigger] queued[j]).priority.rank() <= queued[i].priority.rank(),
        forall|j: int|
            0 <= j < i ==> (#[trigger] queued[j]).priority.rank() < queued[i].priority.rank(),
    decreases n,
{
    if n == 1 {
        0
    } else {
        let before = head_of_prefix(queued, n - 1);
        if queued[n - 1].priority.rank() > queued[before].priority.rank() {
            n - 1
        } else {
            before
        }
    }
}

/// A `run` job does not start while work waits above it.
pub proof fn runs_yield_to_higher_levels(
    st: StateView,
    jid: Seq<char>,
    kind: JobKind,
    n: u8,
    priority: JobPriority,
    other: Seq<char>,
    i: int,
)
    requires
        jobs::may_start(st, jid, kind, n, priority),
    ensures
        st.pending.contains_key(other) && other != jid ==> st.pending[other].priority.rank()
            <= priority.rank(),
        0 <= i < st.queued.len() ==> st.queued[i].priority.rank() <= priority.rank(),
{
}

// ---------------------------------------------------------------------------
// Who may use what
// ---------------------------------------------------------------------------

/// The last core is for the top level alone, the second-to-last for the two top levels, and a
/// reserved core is closed to P0 and P1; every other core is for all.
pub proof fn eligible_cores_by_priority(st: StateView, priority: JobPriority, core: u8)
    ensures
        scheduler::eligible_cores(st, priority).contains(core) == (core < topology::core_count()
            && (core == topology::core_count() - 1 ==> priority.rank() >= 3) && (core
            == topology::core_count() - 2 ==> priority.rank() >= 2) && (state::normalized(
            st.reserved,
        ).contains(core) ==> priority.rank() >= 2)),
{
    let own = scheduler::option_list(scheduler::exclusive_core(priority));
    let closed = scheduler::forbidden(priority);
    let reserved = state::normalized(st.reserved);
    let first = scheduler::preferred(st, priority);
    let barred = scheduler::barred(st, priority);
    let pool = topology::first_numbers(topology::core_count());
    let keep = |c: u8| !barred.contains(c) && !first.contains(c);
    topology::first_numbers_members(topology::core_count());
    seqs::filter_members(pool, keep, core);
    joined_members(first, pool.filter(keep), core);
    state::normalized_cores(st.reserved);
    match priority {
        JobPriority::P3 => {
            assert(own[0] == 7);
            assert(own.contains(core) == (core == 7));
        },
        JobPriority::P2 => {
            let usable = |c: u8| !closed.contains(c) && !own.contains(c);
            assert(own[0] == 6 && closed[0] == 7);
            assert(own.contains(core) == (core == 6));
            assert(closed.contains(core) == (core == 7));
            seqs::filter_members(reserved, usable, core);
            joined_members(own, reserved.filter(usable), core);
        },
        _ => {
            assert(closed[0] == 7 && closed[1] == 6);
            assert(closed.contains(core) == (core == 7 || core == 6));
            joined_members(closed, reserved, core);
        },
    }
}

/// A CPU is eligible where its core is.
pub proof fn eligible_cpus_by_priority(st: StateView, priority: JobPriority, cpu: u8, core: u8)
    requires
        topology::on_core(cpu, core),
    ensures
        scheduler::eligible_cpu_list(st, priority).contains(cpu) == scheduler::eligible_cores(
            st,
            priority,
        ).contains(core),
{
    let first_cores = scheduler::preferred(st, priority);
    let barred_cores = scheduler::barred(st, priority);
    let first = scheduler::cpus_of(first_cores);
    let barred = scheduler::cpus_of(barred_cores);
    let pool = topology::first_numbers(topology::cpu_count());
    let keep = |c: u8| !barred.contains(c) && !first.contains(c);
    topology::first_numbers_members(topology::cpu_count());
    seqs::filter_members(pool, keep, cpu);
    joined_members(first, pool.filter(keep), cpu);
    on_listed_core(first_cores, cpu, core);
    on_listed_core(barred_cores, cpu, core);
    let core_pool = topology::first_numbers(topology::core_count());
    let core_keep = |c: u8| !barred_cores.contains(c) && !first_cores.contains(c);
    topology::first_numbers_members(topology::core_count());
    seqs::filter_members(core_pool, core_keep, core);
    joined_members(first_cores, core_pool.filter(core_keep), core);
}

proof fn on_listed_core(cores: Seq<u8>, cpu: u8, core: u8)
    requires
        topology::on_core(cpu, core),
    ensures
        scheduler::cpus_of(cores).contains(cpu) == cores.contains(core),
{
    scheduler::cpus_of_members(cores, cpu);
    if scheduler::cpus_of(cores).contains(cpu) {
        let i = choose|i: int| 0 <= i < cores.len() && topology::on_core(cpu, #[trigger] cores[i]);
        topology::cores_share_no_cpu(cpu, core, cores[i]);
        assert(cores[i] == core);
    }
    if cores.contains(core) {
        let i = cores.index_of(core);
        assert(topology::on_core(cpu, cores[i]));
    }
}

proof fn joined_members(a: Seq<u8>, b: Seq<u8>, x: u8)
    ensures
        (a + b).contains(x) == (a.contains(x) || b.contains(x)),
{
    if (a + b).contains(x) {
        let i = (a + b).index_of(x);
        if i < a.len() {
            assert(a[i] == x);
        } else {
            assert(b[i - a.len()] == x);
        }
    }
    if a.contains(x) {
        assert((a + b)[a.index_of(x)] == x);
    }
    if b.contains(x) {
        assert((a + b)[a.len() + b.index_of(x)] == x);
    }
}

/// A higher level may use whatever a lower one may.
pub proof fn higher_levels_may_use_more(
    st: StateView,
    low: JobPriority,
    high: JobPriority,
    core: u8,
)
    requires
        low.rank() <= high.rank(),
        scheduler::eligible_cores(st, low).contains(core),
    ensures
        scheduler::eligible_cores(st, high).contains(core),
{
    eligible_cores_by_priority(st, low, core);
    eligible_cores_by_priority(st, high, core);
}

/// A reserved core is closed to P0 and P1, with its CPUs, whichever core it is.
pub proof fn reserved_cores_are_closed_to_low_priorities(
    st: StateView,
    priority: JobPriority,
    core: u8,
    cpu: u8,
)
    requires
        priority.rank() < 2,
        state::normalized(st.reserved).contains(core),
        topology::on_core(cpu, core),
    ensures
        !scheduler::eligible_cores(st, priority).contains(core),
        !scheduler::eligible_cpu_list(st, priority).contains(cpu),
{
    eligible_cores_by_priority(st, priority, core);
    eligible_cpus_by_priority(st, priority, cpu, core);
}

/// No job of P0 or P1 is ever granted a reserved core, or a CPU of one.
pub proof fn low_priorities_get_no_reserved_core(
    st: StateView,
    n: u8,
    priority: JobPriority,
    core: u8,
    cpu: u8,
)
    requires
        priority.rank() < 2,
        state::normalized(st.reserved).contains(core),
        topology::on_core(cpu, core),
    ensures
        !scheduler::grant(st, "cfd"@, n, priority).contains(core),
        !scheduler::grant(st, "py"@, n, priority).contains(cpu),
{
    reserved_cores_are_closed_to_low_priorities(st, priority, core, cpu);
    jobs::kinds_differ();
    granted_units_are_free(st, "cfd"@, n, priority);
    granted_units_are_free(st, "py"@, n, priority);
}

/// A fresh state reserves the last quarter of the cores, and these are closed to P0 and P1, with
/// their CPUs.
pub proof fn default_reservation_excludes_low_priorities(
    priority: JobPriority,
    core: u8,
    cpu: u8,
)
    requires
        priority.rank() < 2,
        topology::default_reserved().contains(core),
        topology::on_core(cpu, core),
    ensures
        !scheduler::eligible_cores(state::fresh_state(), priority).contains(core),
        !scheduler::eligible_cpu_list(state::fresh_state(), priority).contains(cpu),
{
    let i = topology::default_reserved().index_of(core);
    assert(core == 6 + i);
    eligible_cores_by_priority(state::fresh_state(), priority, core);
    eligible_cpus_by_priority(state::fresh_state(), priority, cpu, core);
}

/// The cores that P2 takes first are its own and the reserved ones that it may use.
pub proof fn preferred_by_calibration(st: StateView, core: u8)
    ensures
        scheduler::preferred(st, JobPriority::P2).contains(core) == (core == topology::core_count()
            - 2 || (state::normalized(st.reserved).contains(core) && core
            != topology::core_count() - 1)),
{
    let own = scheduler::option_list(scheduler::exclusive_core(JobPriority::P2));
    let closed = scheduler::forbidden(JobPriority::P2);
    let reserved = state::normalized(st.reserved);
    let usable = |c: u8| !closed.contains(c) && !own.contains(c);
    assert(own[0] == 6 && closed[0] == 7);
    assert(own.contains(core) == (core == 6));
    assert(closed.contains(core) == (core == 7));
    seqs::filter_members(reserved, usable, core);
    joined_members(own, reserved.filter(usable), core);
}

/// A P2 job prefers the reserved cores: as long as a reserved core that it may use is free and not
/// granted to it, it is granted no core but its own and reserved ones. The same holds of the CPUs
/// of these cores.
pub proof fn calibration_prefers_reserved_cores(
    st: StateView,
    n: u8,
    reserved_core: u8,
    other_core: u8,
    reserved_cpu: u8,
    other_cpu: u8,
)
    requires
        state::normalized(st.reserved).contains(reserved_core),
        reserved_core != topology::core_count() - 1,
        !state::normalized(st.reserved).contains(other_core),
        other_core != topology::core_count() - 2,
        topology::on_core(reserved_cpu, reserved_core),
        topology::on_core(other_cpu, other_core),
    ensures
        scheduler::core_free(st, reserved_core) && scheduler::grant(
            st,
            "cfd"@,
            n,
            JobPriority::P2,
        ).contains(other_core) ==> scheduler::grant(st, "cfd"@, n, JobPriority::P2).contains(
            reserved_core,
        ),
        scheduler::cpu_free(st, reserved_cpu) && scheduler::grant(
            st,
            "py"@,
            n,
            JobPriority::P2,
        ).contains(other_cpu) ==> scheduler::grant(st, "py"@, n, JobPriority::P2).contains(
            reserved_cpu,
        ),
{
    let priority = JobPriority::P2;
    let first = scheduler::preferred(st, priority);
    let cores = scheduler::eligible_cores(st, priority);
    let cpus = scheduler::eligible_cpu_list(st, priority);
    jobs::kinds_differ();
    scheduler::eligible_lists_are_sound(st, priority);
    preferred_by_calibration(st, reserved_core);
    preferred_by_calibration(st, other_core);
    on_listed_core(first, reserved_cpu, reserved_core);
    on_listed_core(first, other_cpu, other_core);
    let core_is_free = |c: u8| scheduler::core_free(st, c);
    let cpu_is_open = |c: u8| scheduler::cpu_free(st, c);
    assert(cores.take(first.len() as int) =~= first);
    assert(cpus.take(scheduler::cpus_of(first).len() as int) =~= scheduler::cpus_of(first));
    if scheduler::core_free(st, reserved_core) {
        earlier_units_come_first(cores, core_is_free, n, first, reserved_core, other_core);
    }
    if scheduler::cpu_free(st, reserved_cpu) {
        earlier_units_come_first(
            cpus,
            cpu_is_open,
            n,
            scheduler::cpus_of(first),
            reserved_cpu,
            other_cpu,
        );
    }
}

/// Of a list that begins with `first`, nothing behind `first` is taken before all of `first` that
/// is free.
proof fn earlier_units_come_first(
    list: Seq<u8>,
    free: spec_fn(u8) -> bool,
    n: u8,
    first: Seq<u8>,
    early: u8,
    late: u8,
)
    requires
        list.no_duplicates(),
        first.len() <= list.len(),
        list.take(first.len() as int) == first,
        first.contains(early),
        free(early),
        !first.contains(late),
    ensures
        seqs::at_most(list.filter(free), n as nat).contains(late) ==> seqs::at_most(
            list.filter(free),
            n as nat,
        ).contains(early),
{
    let kept = list.filter(free);
    let taken = seqs::at_most(kept, n as nat);
    if taken.contains(late) {
        let k = taken.index_of(late);
        assert(kept[k] == late);
        assert(kept.contains(late));
        seqs::filter_members(list, free, late);
        let i = first.index_of(early);
        let j = list.index_of(late);
        assert(list.take(first.len() as int)[i] == list[i]);
        if j < first.len() {
            assert(list.take(first.len() as int)[j] == late);
        }
        let (a, b) = seqs::filter_keeps_order(list, free, i, j);
        seqs::filter_keeps_distinct(list, free);
        assert(b == k);
        assert(taken[a] == early);
    }
}

/// A P2 job takes the core that is its own before any other: where that core is free, it is the
/// first it gets.
pub proof fn calibration_prefers_its_core(st: StateView, n: u8)
    requires
        n > 0,
        scheduler::core_free(st, (topology::core_count() - 2) as u8),
    ensures
        scheduler::grant(st, "cfd"@, n, JobPriority::P2).len() > 0,
        scheduler::grant(st, "cfd"@, n, JobPriority::P2)[0] == topology::core_count() - 2,
        topology::default_reserved().contains((topology::core_count() - 2) as u8),
{
    let list = scheduler::eligible_cores(st, JobPriority::P2);
    let free = |c: u8| scheduler::core_free(st, c);
    assert(list[0] == 6);
    seqs::filter_none(list, free);
    seqs::filter_next(list, free, 0);
    seqs::filter_of_prefix(list, free, 1);
    assert(list.take(1).filter(free).len() == 1);
    assert(list.take(1).filter(free)[0] == 6);
    assert(list.filter(free).take(1)[0] == list.filter(free)[0]);
    assert(topology::default_reserved()[0] == 6);
}

/// A state in which nothing runs or waits, with the reservation of `st`.
pub open spec fn idle_state(st: StateView) -> StateView {
    StateView { reserved: st.reserved, ..state::fresh_state() }
}

/// A request is admitted exactly where it could be met on an idle machine under the same
/// reservation.
pub proof fn admitted_requests_can_be_met(
    st: StateView,
    job_type: Seq<char>,
    n: u8,
    priority: JobPriority,
)
    ensures
        (n <= jobs::request_limit(st, job_type, priority)) == (scheduler::shortage(
            idle_state(st),
            job_type,
            n,
            priority,
        ) == 0),
{
    let idle = idle_state(st);
    scheduler::eligible_lists_are_sound(st, priority);
    let cores = scheduler::eligible_cores(st, priority);
    let cpus = scheduler::eligible_cpu_list(st, priority);
    assert(scheduler::eligible_cores(idle, priority) == cores);
    assert(scheduler::eligible_cpu_list(idle, priority) == cpus);
    assert forall|cpu: u8| scheduler::cpu_free(idle, cpu) by {
        state::key_is_in_keys(topology::first_numbers(topology::cpu_count()), cpu);
    }
    assert forall|i: int| 0 <= i < cores.len() implies scheduler::core_free(
        idle,
        #[trigger] cores[i],
    ) by {
        assert(cores.contains(cores[i]));
        state::key_is_in_keys(topology::first_numbers(topology::core_count()), cores[i]);
    }
    keeping_all_keeps_all(cores, |c: u8| scheduler::core_free(idle, c));
    keeping_all_keeps_all(cpus, |c: u8| scheduler::cpu_free(idle, c));
}

proof fn keeping_all_keeps_all(s: Seq<u8>, p: spec_fn(u8) -> bool)
    requires
        forall|i: int| 0 <= i < s.len() ==> p(#[trigger] s[i]),
    ensures
        s.filter(p) == s,
    decreases s.len(),
{
    reveal(Seq::filter);
    if s.len() > 0 {
        let front = s.drop_last();
        assert forall|i: int| 0 <= i < front.len() implies p(#[trigger] front[i]) by {
            assert(front[i] == s[i]);
        }
        keeping_all_keeps_all(front, p);
        assert(p(s[s.len() - 1]));
        assert(front.push(s.last()) =~= s);
    }
}

} // verus!
