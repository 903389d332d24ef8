//! The scheduling engine.
//!
//! Allocation policy, by priority:
//! - P3 alone may use the last physical core; it may use all others too.
//! - P2 and P3 alone may use the second-to-last core.
//! - P1 and P0 use the shared pool, that is all but the last two cores and the reserved ones.
//! - P2 takes its own core first, then the reserved cores that it may use, then the others.
//! - `cfd` jobs get whole physical cores (both hyperthreads), `py` jobs get logical CPUs.

use crate::outside;
use crate::outside::{parse_json_strings, Liveness, Probe};
use crate::seqs;
use crate::state;
use crate::state::{
    key_string, CoreschedState, JobEntry, JobPriority, JobView, StateView, Timestamp,
};
use crate::table::Table;
use crate::text;
use crate::topology;
use vstd::prelude::*;

verus! {

// ---------------------------------------------------------------------------
// Which cores and CPUs a priority may use
// ---------------------------------------------------------------------------

/// The core that `priority` takes first, and that lower levels may not use.
pub open spec fn exclusive_core(priority: JobPriority) -> Option<u8> {
    match priority {
        JobPriority::P3 if topology::core_count() >= 1 => Some((topology::core_count() - 1) as u8),
        JobPriority::P2 if topology::core_count() >= 2 => Some((topology::core_count() - 2) as u8),
        _ => None,
    }
}

/// The element of an option as a list.
pub open spec fn option_list(core: Option<u8>) -> Seq<u8> {
    match core {
        Some(c) => seq![c],
        None => Seq::empty(),
    }
}

/// The cores that `priority` may not use: those of the strictly higher levels.
pub open spec fn forbidden(priority: JobPriority) -> Seq<u8> {
    match priority {
        JobPriority::P3 => Seq::empty(),
        JobPriority::P2 => option_list(exclusive_core(JobPriority::P3)),
        _ => option_list(exclusive_core(JobPriority::P3)) + option_list(
            exclusive_core(JobPriority::P2),
        ),
    }
}

/// The logical CPUs of one core.
pub open spec fn cpus_of_core(core: u8) -> Seq<u8> {
    match topology::core_cpus(core) {
        Some((a, b)) => seq![a, b],
        None => Seq::empty(),
    }
}

/// The logical CPUs of a list of cores, core by core.
pub open spec fn cpus_of(cores: Seq<u8>) -> Seq<u8>
    decreases cores.len(),
{
    if cores.len() == 0 {
        Seq::empty()
    } else {
        cpus_of(cores.drop_last()) + cpus_of_core(cores.last())
    }
}

/// The cores that `priority` may not use in a state: those of the strictly higher levels and, for
/// P0 and P1, the reserved ones.
pub open spec fn barred(st: StateView, priority: JobPriority) -> Seq<u8> {
    if priority.rank() < 2 {
        forbidden(priority) + state::normalized(st.reserved)
    } else {
        forbidden(priority)
    }
}

/// The cores that `priority` takes first in a state: its exclusive core and, for P2, the reserved
/// cores that it may use.
pub open spec fn preferred(st: StateView, priority: JobPriority) -> Seq<u8> {
    let own = option_list(exclusive_core(priority));
    if priority == JobPriority::P2 {
        own + state::normalized(st.reserved).filter(
            |c: u8| !forbidden(priority).contains(c) && !own.contains(c),
        )
    } else {
        own
    }
}

/// The cores that `priority` may use: those it prefers first, then the others in order.
pub open spec fn eligible_cores(st: StateView, priority: JobPriority) -> Seq<u8> {
    preferred(st, priority) + topology::first_numbers(topology::core_count()).filter(
        |c: u8| !barred(st, priority).contains(c) && !preferred(st, priority).contains(c),
    )
}

/// The CPUs that `priority` may use: those of the cores it prefers first, then the others in order.
pub open spec fn eligible_cpu_list(st: StateView, priority: JobPriority) -> Seq<u8> {
    let first = cpus_of(preferred(st, priority));
    first + topology::first_numbers(topology::cpu_count()).filter(
        |c: u8| !cpus_of(barred(st, priority)).contains(c) && !first.contains(c),
    )
}

/// The core that `priority` takes first and that no lower level may use.
pub fn priority_exclusive_core(priority: JobPriority) -> (r: Option<u8>)
    ensures
        r == exclusive_core(priority),
{
    let total: u8 = topology::num_physical_cores() as u8;
    match priority {
        JobPriority::P3 if total >= 1 => Some(total - 1),
        JobPriority::P2 if total >= 2 => Some(total - 2),
        _ => None,
    }
}

/// The cores that `priority` may not use.
pub fn forbidden_cores(priority: JobPriority) -> (r: Vec<u8>)
    ensures
        r@ == forbidden(priority),
{
    let mut r: Vec<u8> = Vec::new();
    if priority != JobPriority::P3 {
        if let Some(core) = priority_exclusive_core(JobPriority::P3) {
            r.push(core);
        }
        if priority != JobPriority::P2 {
            if let Some(core) = priority_exclusive_core(JobPriority::P2) {
                r.push(core);
            }
        }
    }
    proof {
        assert(r@ =~= forbidden(priority));
    }
    r
}

/// Appends the logical CPUs of a core.
fn push_core_cpus(cpus: &mut Vec<u8>, core: u8)
    ensures
        final(cpus)@ == old(cpus)@ + cpus_of_core(core),
{
    if let Some((a, b)) = topology::logical_cpus(core) {
        cpus.push(a);
        if b != a {
            cpus.push(b);
        }
    }
    proof {
        assert(cpus@ =~= old(cpus)@ + cpus_of_core(core));
    }
}

/// The logical CPUs of a list of cores, core by core.
pub fn cpus_of_cores(cores: &Vec<u8>) -> (r: Vec<u8>)
    ensures
        r@ == cpus_of(cores@),
{
    let mut r: Vec<u8> = Vec::new();
    let mut i: usize = 0;
    while i < cores.len()
        invariant
            i <= cores@.len(),
            r@ == cpus_of(cores@.take(i as int)),
        decreases cores.len() - i,
    {
        push_core_cpus(&mut r, cores[i]);
        proof {
            assert(cores@.take(i + 1).drop_last() =~= cores@.take(i as int));
        }
        i += 1;
    }
    proof {
        assert(cores@.take(cores@.len() as int) =~= cores@);
    }
    r
}

/// The CPUs that `priority` may not use.
pub fn forbidden_cpus(priority: JobPriority) -> (r: Vec<u8>)
    ensures
        r@ == cpus_of(forbidden(priority)),
{
    let cores = forbidden_cores(priority);
    cpus_of_cores(&cores)
}

/// `own`, then the numbers of `pool` that are neither in `own` nor in `closed`.
fn own_then_others(own: Vec<u8>, pool: &Vec<u8>, closed: &Vec<u8>) -> (r: Vec<u8>)
    requires
        pool@.no_duplicates(),
    ensures
        r@ == own@ + pool@.filter(|c: u8| !closed@.contains(c) && !own@.contains(c)),
{
    let ghost first = own@;
    let ghost keep = |c: u8| !closed@.contains(c) && !first.contains(c);
    let mut r = own;
    let mut i: usize = 0;
    proof {
        seqs::filter_none(pool@, keep);
        assert(r@ =~= first + pool@.take(0).filter(keep));
    }
    while i < pool.len()
        invariant
            i <= pool@.len(),
            pool@.no_duplicates(),
            keep == (|c: u8| !closed@.contains(c) && !first.contains(c)),
            r@ == first + pool@.take(i as int).filter(keep),
        decreases pool.len() - i,
    {
        let c: u8 = pool[i];
        let ghost kept = pool@.take(i as int).filter(keep);
        let skip = state::holds_number(closed, c) || state::holds_number(&r, c);
        proof {
            seqs::filter_next(pool@, keep, i as int);
            seqs::filter_members(pool@.take(i as int), keep, c);
            if r@.contains(c) && !first.contains(c) {
                let j = r@.index_of(c);
                assert(kept[j - first.len()] == c);
                assert(kept.contains(c));
                let m = pool@.take(i as int).index_of(c);
                assert(pool@[m] == pool@[i as int]);
            }
            if first.contains(c) {
                let j = first.index_of(c);
                assert(r@[j] == c);
            }
        }
        if !skip {
            r.push(c);
            proof {
                assert(r@ =~= first + kept.push(c));
            }
        }
        i += 1;
    }
    proof {
        assert(pool@.take(pool@.len() as int) =~= pool@);
    }
    r
}

/// The cores that `priority` may not use in a state.
pub fn barred_cores(state: &CoreschedState, priority: JobPriority) -> (r: Vec<u8>)
    ensures
        r@ == barred(state@, priority),
{
    let mut r = forbidden_cores(priority);
    if priority.level() < 2 {
        let mut reserved = reserved_physical_cores(state);
        r.append(&mut reserved);
    }
    r
}

/// The cores that `priority` takes first in a state.
pub fn preferred_cores(state: &CoreschedState, priority: JobPriority) -> (r: Vec<u8>)
    ensures
        r@ == preferred(state@, priority),
{
    let mut own: Vec<u8> = Vec::new();
    if let Some(core) = priority_exclusive_core(priority) {
        own.push(core);
    }
    proof {
        assert(own@ =~= option_list(exclusive_core(priority)));
        state::normalized_cores(state@.reserved);
    }
    if priority == JobPriority::P2 {
        let reserved = reserved_physical_cores(state);
        let closed = forbidden_cores(priority);
        own_then_others(own, &reserved, &closed)
    } else {
        own
    }
}

/// The CPUs that a job of the given priority may use.
pub fn eligible_cpus(state: &CoreschedState, priority: JobPriority) -> (r: Vec<u8>)
    ensures
        r@ == eligible_cpu_list(state@, priority),
{
    let first = cpus_of_cores(&preferred_cores(state, priority));
    let closed = cpus_of_cores(&barred_cores(state, priority));
    let pool = topology::schedulable_cpus();
    own_then_others(first, &pool, &closed)
}

/// The physical cores that a job of the given priority may use.
pub fn eligible_physical_cores(state: &CoreschedState, priority: JobPriority) -> (r: Vec<u8>)
    ensures
        r@ == eligible_cores(state@, priority),
{
    let first = preferred_cores(state, priority);
    let closed = barred_cores(state, priority);
    let pool = topology::physical_cores();
    own_then_others(first, &pool, &closed)
}

/// The reserved cores.
pub fn reserved_physical_cores(state: &CoreschedState) -> (r: Vec<u8>)
    ensures
        r@ == state::normalized(state@.reserved),
{
    let cores = state.reserved_cores();
    let mut r: Vec<u8> = Vec::new();
    let mut i: usize = 0;
    while i < cores.len()
        invariant
            i <= cores@.len(),
            cores@ == state::normalized(state@.reserved),
            r@ == cores@.take(i as int),
        decreases cores.len() - i,
    {
        proof {
            state::normalized_cores(state@.reserved);
            assert(cores@.contains(cores@[i as int]));
            assert(cores@.take(i + 1) =~= cores@.take(i as int).push(cores@[i as int]));
        }
        if topology::logical_cpus(cores[i]).is_some() {
            r.push(cores[i]);
        }
        i += 1;
    }
    proof {
        assert(cores@.take(cores@.len() as int) =~= cores@);
    }
    r
}

// ---------------------------------------------------------------------------
// What is free
// ---------------------------------------------------------------------------

/// Whether a logical CPU is free.
pub open spec fn cpu_free(st: StateView, cpu: u8) -> bool {
    !(st.cpus.contains_key(state::key(cpu)) && st.cpus[state::key(cpu)] is Some)
}

/// Whether a core is marked as allocated as a whole.
pub open spec fn core_marked(st: StateView, core: u8) -> bool {
    st.cfd.contains_key(state::key(core)) && st.cfd[state::key(core)]
}

/// Whether a physical core exists and is free, with both of its hyperthreads.
pub open spec fn core_free(st: StateView, core: u8) -> bool {
    &&& !core_marked(st, core)
    &&& topology::core_cpus(core) matches Some((a, b)) && cpu_free(st, a) && cpu_free(st, b)
}

/// The free cores that `priority` may use, in the order in which it takes them.
pub open spec fn free_cores(st: StateView, priority: JobPriority) -> Seq<u8> {
    eligible_cores(st, priority).filter(|c: u8| core_free(st, c))
}

/// The free CPUs that `priority` may use, in the order in which it takes them.
pub open spec fn free_cpus(st: StateView, priority: JobPriority) -> Seq<u8> {
    eligible_cpu_list(st, priority).filter(|c: u8| cpu_free(st, c))
}

/// `st` with the given cores allocated as a whole.
pub open spec fn mark_cores(st: StateView, cores: Seq<u8>) -> StateView {
    StateView {
        cfd: state::overwrite(st.cfd, state::keys_of(cores), true),
        cpus: state::overwrite(st.cpus, state::keys_of(cpus_of(cores)), Some(true)),
        ..st
    }
}

/// `st` with the given CPUs allocated.
pub open spec fn mark_cpus(st: StateView, cpus: Seq<u8>) -> StateView {
    StateView { cpus: state::overwrite(st.cpus, state::keys_of(cpus), Some(true)), ..st }
}

fn cpu_is_free(state: &CoreschedState, cpu: u8) -> (r: bool)
    ensures
        r == cpu_free(state@, cpu),
{
    let k = key_string(cpu);
    match state.cpus.get(k.as_str()) {
        Some(v) => v.is_none(),
        None => true,
    }
}

/// Whether a core is marked as allocated as a whole.
pub fn core_is_marked(state: &CoreschedState, core: u8) -> (r: bool)
    ensures
        r == core_marked(state@, core),
{
    let k = key_string(core);
    match state.cfd.get(k.as_str()) {
        Some(v) => *v,
        None => false,
    }
}

/// Whether a physical core exists and is free, with both of its hyperthreads.
pub fn physical_core_is_free(state: &CoreschedState, core: u8) -> (r: bool)
    ensures
        r == core_free(state@, core),
{
    if core_is_marked(state, core) {
        return false;
    }
    match topology::logical_cpus(core) {
        Some((first, second)) => cpu_is_free(state, first) && cpu_is_free(state, second),
        None => false,
    }
}

// ---------------------------------------------------------------------------
// Allocation
// ---------------------------------------------------------------------------

/// The CPUs of a list of cores, by membership.
pub proof fn cpus_of_members(cores: Seq<u8>, cpu: u8)
    ensures
        cpus_of(cores).contains(cpu) == exists|i: int|
            0 <= i < cores.len() && topology::on_core(cpu, #[trigger] cores[i]),
    decreases cores.len(),
{
    if cores.len() > 0 {
        let front = cores.drop_last();
        let last = cores.last();
        cpus_of_members(front, cpu);
        let before = cpus_of(front);
        let own = cpus_of_core(last);
        if cpus_of(cores).contains(cpu) {
            let i = cpus_of(cores).index_of(cpu);
            if i < before.len() {
                assert(before[i] == cpu);
                assert(before.contains(cpu));
                let j = choose|j: int|
                    0 <= j < front.len() && topology::on_core(cpu, #[trigger] front[j]);
                assert(topology::on_core(cpu, cores[j]));
            } else {
                assert(own[i - before.len()] == cpu);
                assert(topology::on_core(cpu, cores[cores.len() - 1]));
            }
        }
        if exists|i: int| 0 <= i < cores.len() && topology::on_core(cpu, #[trigger] cores[i]) {
            let j = choose|j: int|
                0 <= j < cores.len() && topology::on_core(cpu, #[trigger] cores[j]);
            if j < front.len() {
                assert(topology::on_core(cpu, front[j]));
                assert(before.contains(cpu));
                let i = before.index_of(cpu);
                assert(cpus_of(cores)[i] == cpu);
            } else {
                let (a, b) = topology::core_cpus(last)->0;
                if cpu == a {
                    assert(cpus_of(cores)[before.len() as int] == cpu);
                } else {
                    assert(cpus_of(cores)[before.len() as int + 1] == cpu);
                }
            }
        }
    }
}

proof fn overwrite_one_more<V>(m: Map<Seq<char>, V>, ks: Set<Seq<char>>, k: Seq<char>, v: V)
    ensures
        state::overwrite(m, ks.insert(k), v) == state::overwrite(m, ks, v).insert(k, v),
{
    assert(state::overwrite(m, ks.insert(k), v) =~= state::overwrite(m, ks, v).insert(k, v));
}

proof fn overwrite_nothing<V>(m: Map<Seq<char>, V>, v: V)
    ensures
        state::overwrite(m, state::keys_of(Seq::empty()), v) == m,
{
    assert(state::overwrite(m, state::keys_of(Seq::empty()), v) =~= m);
}

/// Marking the CPUs in a list does not change whether a CPU outside the list is free.
pub proof fn marking_keeps_other_cpus(st: StateView, cpus: Seq<u8>, cpu: u8)
    ensures
        cpus.contains(cpu) ==> !cpu_free(mark_cpus(st, cpus), cpu),
        !cpus.contains(cpu) ==> cpu_free(mark_cpus(st, cpus), cpu) == cpu_free(st, cpu),
{
    state::key_is_in_keys(cpus, cpu);
}

/// Marking cores takes exactly their CPUs.
pub proof fn marking_cores_takes_their_cpus(st: StateView, cores: Seq<u8>, cpu: u8)
    ensures
        cpus_of(cores).contains(cpu) ==> !cpu_free(mark_cores(st, cores), cpu),
        !cpus_of(cores).contains(cpu) ==> cpu_free(mark_cores(st, cores), cpu) == cpu_free(st, cpu),
{
    state::key_is_in_keys(cpus_of(cores), cpu);
}

/// Marking cores does not change whether another core is free.
pub proof fn marking_keeps_other_cores(st: StateView, cores: Seq<u8>, core: u8)
    requires
        !cores.contains(core),
    ensures
        core_free(mark_cores(st, cores), core) == core_free(st, core),
{
    state::key_is_in_keys(cores, core);
    if topology::core_cpus(core) is Some {
        let (a, b) = topology::core_cpus(core)->0;
        marking_cores_takes_their_cpus(st, cores, a);
        marking_cores_takes_their_cpus(st, cores, b);
        cpus_of_members(cores, a);
        cpus_of_members(cores, b);
        assert forall|i: int| 0 <= i < cores.len() implies !topology::on_core(a, #[trigger] cores[i])
            && !topology::on_core(b, cores[i]) by {
            if topology::on_core(a, cores[i]) {
                topology::cores_share_no_cpu(a, core, cores[i]);
            }
            if topology::on_core(b, cores[i]) {
                topology::cores_share_no_cpu(b, core, cores[i]);
            }
            assert(cores.contains(cores[i]));
        }
    }
}

/// The CPUs of different cores that exist are different CPUs that exist.
pub proof fn cpus_of_distinct_cores(cores: Seq<u8>)
    requires
        cores.no_duplicates(),
        forall|i: int| 0 <= i < cores.len() ==> #[trigger] cores[i] < topology::core_count(),
    ensures
        cpus_of(cores).no_duplicates(),
        forall|i: int|
            0 <= i < cpus_of(cores).len() ==> #[trigger] cpus_of(cores)[i] < topology::cpu_count(),
    decreases cores.len(),
{
    if cores.len() > 0 {
        let front = cores.drop_last();
        let last = cores.last();
        assert forall|i: int| 0 <= i < front.len() implies #[trigger] front[i]
            < topology::core_count() by {
            assert(front[i] == cores[i]);
        }
        cpus_of_distinct_cores(front);
        let (a, b) = topology::core_cpus(last)->0;
        let before = cpus_of(front);
        assert(!before.contains(a) && !before.contains(b)) by {
            cpus_of_members(front, a);
            cpus_of_members(front, b);
            assert forall|i: int| 0 <= i < front.len() implies !topology::on_core(
                a,
                #[trigger] front[i],
            ) && !topology::on_core(b, front[i]) by {
                assert(cores[i] != cores[cores.len() - 1]);
            }
        }
        let all = cpus_of(cores);
        assert(all =~= before.push(a).push(b));
        assert forall|i: int, j: int| 0 <= i < all.len() && 0 <= j < all.len() && i != j implies
            all[i] != all[j] by {
            if i < before.len() {
                assert(before.contains(before[i]));
            }
            if j < before.len() {
                assert(before.contains(before[j]));
            }
        }
    }
}

/// No core is preferred twice, all of them exist, and none is barred.
pub proof fn preferred_cores_are_sound(st: StateView, priority: JobPriority)
    ensures
        preferred(st, priority).no_duplicates(),
        forall|i: int|
            0 <= i < preferred(st, priority).len() ==> #[trigger] preferred(st, priority)[i]
                < topology::core_count(),
        forall|c: u8| #[trigger]
            preferred(st, priority).contains(c) ==> !barred(st, priority).contains(c),
{
    let own = option_list(exclusive_core(priority));
    let list = preferred(st, priority);
    if priority == JobPriority::P2 {
        let reserved = state::normalized(st.reserved);
        let keep = |c: u8| !forbidden(priority).contains(c) && !own.contains(c);
        let kept = reserved.filter(keep);
        state::normalized_cores(st.reserved);
        seqs::filter_keeps_distinct(reserved, keep);
        assert forall|i: int| 0 <= i < kept.len() implies #[trigger] kept[i]
            < topology::core_count() && keep(kept[i]) by {
            seqs::filter_members(reserved, keep, kept[i]);
            assert(kept.contains(kept[i]));
            assert(reserved.contains(kept[i]));
        }
        assert forall|i: int, j: int| 0 <= i < list.len() && 0 <= j < list.len() && i != j implies
            list[i] != list[j] by {
            if i >= own.len() {
                assert(list[i] == kept[i - own.len()]);
            } else {
                assert(own.contains(list[i]));
            }
            if j >= own.len() {
                assert(list[j] == kept[j - own.len()]);
            } else {
                assert(own.contains(list[j]));
            }
        }
        assert forall|i: int| 0 <= i < list.len() implies #[trigger] list[i]
            < topology::core_count() by {
            if i >= own.len() {
                assert(list[i] == kept[i - own.len()]);
            }
        }
        assert forall|c: u8| #[trigger] list.contains(c) implies !barred(st, priority).contains(
            c,
        ) by {
            let i = list.index_of(c);
            if i >= own.len() {
                assert(list[i] == kept[i - own.len()]);
            } else {
                assert(own[i] == 6);
            }
        }
    } else if priority == JobPriority::P3 {
        assert(barred(st, priority) =~= Seq::<u8>::empty());
    }
}

/// No core and no CPU is eligible twice, and all of them exist.
pub proof fn eligible_lists_are_sound(st: StateView, priority: JobPriority)
    ensures
        eligible_cores(st, priority).no_duplicates(),
        eligible_cpu_list(st, priority).no_duplicates(),
        forall|c: u8| eligible_cores(st, priority).contains(c) ==> c < topology::core_count(),
        forall|c: u8| eligible_cpu_list(st, priority).contains(c) ==> c < topology::cpu_count(),
        eligible_cores(st, priority).len() <= topology::core_count(),
        eligible_cpu_list(st, priority).len() <= topology::cpu_count(),
{
    topology::first_numbers_members(topology::core_count());
    topology::first_numbers_members(topology::cpu_count());
    let cores = topology::first_numbers(topology::core_count());
    let cpus = topology::first_numbers(topology::cpu_count());
    let first = preferred(st, priority);
    let keep = |c: u8| !barred(st, priority).contains(c) && !first.contains(c);
    preferred_cores_are_sound(st, priority);
    assert forall|i: int| 0 <= i < first.len() implies cores.contains(#[trigger] first[i]) by {}
    own_then_kept(first, cores, keep);
    let first_cpus = cpus_of(first);
    let keep_cpus = |c: u8| !cpus_of(barred(st, priority)).contains(c) && !first_cpus.contains(c);
    cpus_of_distinct_cores(first);
    assert forall|i: int| 0 <= i < first_cpus.len() implies cpus.contains(
        #[trigger] first_cpus[i],
    ) by {}
    own_then_kept(first_cpus, cpus, keep_cpus);
    assert forall|c: u8| eligible_cores(st, priority).contains(c) implies c
        < topology::core_count() by {
        assert(cores.contains(c));
    }
    assert forall|c: u8| eligible_cpu_list(st, priority).contains(c) implies c
        < topology::cpu_count() by {
        assert(cpus.contains(c));
    }
}

proof fn own_then_kept(own: Seq<u8>, pool: Seq<u8>, keep: spec_fn(u8) -> bool)
    requires
        own.no_duplicates(),
        pool.no_duplicates(),
        forall|c: u8| own.contains(c) ==> !keep(c),
        forall|i: int| 0 <= i < own.len() ==> pool.contains(#[trigger] own[i]),
    ensures
        (own + pool.filter(keep)).no_duplicates(),
        forall|c: u8| (own + pool.filter(keep)).contains(c) ==> pool.contains(c),
        (own + pool.filter(keep)).len() <= pool.len(),
{
    let kept = pool.filter(keep);
    let all = own + kept;
    seqs::filter_keeps_distinct(pool, keep);
    assert forall|c: u8| all.contains(c) implies pool.contains(c) by {
        seqs::filter_members(pool, keep, c);
        let i = all.index_of(c);
        if i < own.len() {
            assert(own[i] == c);
        } else {
            assert(kept[i - own.len()] == c);
            assert(kept.contains(c));
        }
    }
    assert forall|i: int, j: int| 0 <= i < all.len() && 0 <= j < all.len() && i != j implies all[i]
        != all[j] by {
        if i < own.len() && j >= own.len() {
            seqs::filter_members(pool, keep, all[j]);
            assert(kept[j - own.len()] == all[j]);
            assert(kept.contains(all[j]));
            assert(own[i] == all[i]);
            assert(own.contains(all[i]));
        }
        if j < own.len() && i >= own.len() {
            seqs::filter_members(pool, keep, all[i]);
            assert(kept[i - own.len()] == all[i]);
            assert(kept.contains(all[i]));
            assert(own[j] == all[j]);
            assert(own.contains(all[j]));
        }
    }
    all.unique_seq_to_set();
    pool.unique_seq_to_set();
    assert forall|c: u8| all.to_set().contains(c) implies pool.to_set().contains(c) by {
        assert(all.contains(c));
    }
    vstd::set_lib::lemma_len_subset(all.to_set(), pool.to_set());
}

/// Allocates up to `n` physical cores for a job of the given priority: the first free ones among
/// those it may use.
pub fn alloc_cfd_for_priority(state: &mut CoreschedState, n: u8, priority: JobPriority) -> (r: Vec<
    u8,
>)
    ensures
        r@ == seqs::at_most(free_cores(old(state)@, priority), n as nat),
        final(state)@ == mark_cores(old(state)@, r@),
{
    let list = eligible_physical_cores(state, priority);
    let ghost st = state@;
    let ghost free = |c: u8| core_free(st, c);
    let mut got: Vec<u8> = Vec::new();
    let mut i: usize = 0;
    proof {
        eligible_lists_are_sound(st, priority);
        seqs::filter_none(list@, free);
        overwrite_nothing(st.cfd, true);
        overwrite_nothing(st.cpus, Some(true));
        assert(cpus_of(got@) =~= Seq::<u8>::empty());
        assert(got@ =~= Seq::<u8>::empty());
    }
    while i < list.len() && got.len() < n as usize
        invariant
            i <= list@.len(),
            list@ == eligible_cores(st, priority),
            list@.no_duplicates(),
            forall|c: u8| list@.contains(c) ==> c < topology::core_count(),
            free == (|c: u8| core_free(st, c)),
            got@.len() <= n,
            got@ == list@.take(i as int).filter(free),
            state@ == mark_cores(st, got@),
        decreases list.len() - i,
    {
        let c: u8 = list[i];
        let ghost before = got@;
        proof {
            seqs::filter_next(list@, free, i as int);
            seqs::filter_members(list@.take(i as int), free, c);
            if before.contains(c) {
                let m = list@.take(i as int).index_of(c);
                assert(list@[m] == list@[i as int]);
            }
            marking_keeps_other_cores(st, before, c);
        }
        if physical_core_is_free(state, c) {
            state.cfd.insert(key_string(c), true);
            if let Some((a, b)) = topology::logical_cpus(c) {
                state.cpus.insert(key_string(a), Some(true));
                state.cpus.insert(key_string(b), Some(true));
                proof {
                    let ks = state::keys_of(cpus_of(before));
                    state::keys_of_push(before, c);
                    overwrite_one_more(st.cfd, state::keys_of(before), state::key(c), true);
                    assert(before.push(c).drop_last() =~= before);
                    assert(cpus_of(before.push(c)) =~= cpus_of(before).push(a).push(b));
                    state::keys_of_push(cpus_of(before), a);
                    state::keys_of_push(cpus_of(before).push(a), b);
                    overwrite_one_more(st.cpus, ks, state::key(a), Some(true));
                    overwrite_one_more(st.cpus, ks.insert(state::key(a)), state::key(b), Some(true));
                }
            }
            got.push(c);
        }
        i += 1;
    }
    proof {
        seqs::filter_of_prefix(list@, free, i as int);
        assert(list@.take(list@.len() as int) =~= list@);
        assert(got@ =~= seqs::at_most(free_cores(st, priority), n as nat));
    }
    got
}

/// Allocates up to `n` logical CPUs for a job of the given priority: the first free ones among
/// those it may use.
pub fn alloc_py_for_priority(state: &mut CoreschedState, n: u8, priority: JobPriority) -> (r: Vec<
    u8,
>)
    ensures
        r@ == seqs::at_most(free_cpus(old(state)@, priority), n as nat),
        final(state)@ == mark_cpus(old(state)@, r@),
{
    let list = eligible_cpus(state, priority);
    let ghost st = state@;
    let ghost free = |c: u8| cpu_free(st, c);
    let mut got: Vec<u8> = Vec::new();
    let mut i: usize = 0;
    proof {
        eligible_lists_are_sound(st, priority);
        seqs::filter_none(list@, free);
        overwrite_nothing(st.cpus, Some(true));
        assert(got@ =~= Seq::<u8>::empty());
    }
    while i < list.len() && got.len() < n as usize
        invariant
            i <= list@.len(),
            list@ == eligible_cpu_list(st, priority),
            list@.no_duplicates(),
            free == (|c: u8| cpu_free(st, c)),
            got@.len() <= n,
            got@ == list@.take(i as int).filter(free),
            state@ == mark_cpus(st, got@),
        decreases list.len() - i,
    {
        let c: u8 = list[i];
        let ghost before = got@;
        proof {
            seqs::filter_next(list@, free, i as int);
            seqs::filter_members(list@.take(i as int), free, c);
            if before.contains(c) {
                let m = list@.take(i as int).index_of(c);
                assert(list@[m] == list@[i as int]);
            }
            marking_keeps_other_cpus(st, before, c);
        }
        if cpu_is_free(state, c) {
            state.cpus.insert(key_string(c), Some(true));
            proof {
                state::keys_of_push(before, c);
                overwrite_one_more(st.cpus, state::keys_of(before), state::key(c), Some(true));
            }
            got.push(c);
        }
        i += 1;
    }
    proof {
        seqs::filter_of_prefix(list@, free, i as int);
        assert(list@.take(list@.len() as int) =~= list@);
        assert(got@ =~= seqs::at_most(free_cpus(st, priority), n as nat));
    }
    got
}

// ---------------------------------------------------------------------------
// Release
// ---------------------------------------------------------------------------

/// The cores that a job holds as a whole.
pub open spec fn held_cores(job: JobView) -> Seq<u8> {
    match job.cores {
        Some(cores) => cores,
        None => Seq::empty(),
    }
}

/// The CPUs that a job holds: those of its cores, and those it holds one by one.
pub open spec fn held_cpus(job: JobView) -> Seq<u8> {
    cpus_of(held_cores(job)) + match job.cpus {
        Some(cpus) => cpus,
        None => Seq::empty(),
    }
}

/// `st` after a running job has gone: its entry is out and what it held is free. Where no such
/// job runs, `st` itself.
pub open spec fn released(st: StateView, jid: Seq<char>) -> StateView {
    if st.pids.contains_key(jid) {
        let job = st.pids[jid];
        StateView {
            cfd: state::overwrite(st.cfd, state::keys_of(held_cores(job)), false),
            cpus: state::overwrite(st.cpus, state::keys_of(held_cpus(job)), None),
            pids: st.pids.remove(jid),
            ..st
        }
    } else {
        st
    }
}

/// Puts a value under the keys of a list of numbers.
fn put_all<V: View + Copy>(table: &mut Table<V>, list: &Vec<u8>, value: V)
    ensures
        final(table)@ == state::overwrite(old(table)@, state::keys_of(list@), value@),
{
    let mut i: usize = 0;
    let ghost before = table@;
    proof {
        overwrite_nothing(before, value@);
        assert(list@.take(0) =~= Seq::<u8>::empty());
    }
    while i < list.len()
        invariant
            i <= list@.len(),
            table@ == state::overwrite(before, state::keys_of(list@.take(i as int)), value@),
        decreases list.len() - i,
    {
        table.insert(key_string(list[i]), value);
        proof {
            let done = list@.take(i as int);
            assert(list@.take(i + 1) =~= done.push(list@[i as int]));
            state::keys_of_push(done, list@[i as int]);
            overwrite_one_more(before, state::keys_of(done), state::key(list@[i as int]), value@);
        }
        i += 1;
    }
    proof {
        assert(list@.take(list@.len() as int) =~= list@);
    }
}

proof fn overwrite_twice<V>(m: Map<Seq<char>, V>, a: Seq<u8>, b: Seq<u8>, v: V)
    ensures
        state::overwrite(state::overwrite(m, state::keys_of(a), v), state::keys_of(b), v)
            == state::overwrite(m, state::keys_of(a + b), v),
{
    assert forall|k: Seq<char>|
        state::keys_of(a + b).contains(k) == (state::keys_of(a).contains(k) || state::keys_of(
            b,
        ).contains(k)) by {
        if state::keys_of(a + b).contains(k) {
            let i = choose|i: int| 0 <= i < (a + b).len() && k == state::key(#[trigger] (a + b)[i]);
            if i < a.len() {
                assert(a[i] == (a + b)[i]);
            } else {
                assert(b[i - a.len()] == (a + b)[i]);
            }
        }
        if state::keys_of(a).contains(k) {
            let i = choose|i: int| 0 <= i < a.len() && k == state::key(#[trigger] a[i]);
            assert((a + b)[i] == a[i]);
        }
        if state::keys_of(b).contains(k) {
            let i = choose|i: int| 0 <= i < b.len() && k == state::key(#[trigger] b[i]);
            assert((a + b)[a.len() + i] == b[i]);
        }
    }
    assert(state::overwrite(state::overwrite(m, state::keys_of(a), v), state::keys_of(b), v)
        =~= state::overwrite(m, state::keys_of(a + b), v));
}

/// Frees what a running job holds and takes its entry out.
pub fn free_job(state: &mut CoreschedState, jid: &str)
    ensures
        final(state)@ == released(old(state)@, jid@),
{
    let entry = match state.pids.remove(jid) {
        Some(e) => e,
        None => {
            proof {
                assert(state@.pids =~= old(state)@.pids);
            }
            return;
        },
    };
    let ghost st = old(state)@;
    let ghost job = entry@;
    proof {
        overwrite_nothing(st.cfd, false);
        overwrite_nothing(st.cpus, None);
        assert(cpus_of(Seq::empty()) =~= Seq::<u8>::empty());
    }
    if let Some(cores) = &entry.cores {
        put_all(&mut state.cfd, cores, false);
        let threads = cpus_of_cores(cores);
        put_all(&mut state.cpus, &threads, None);
    }
    proof {
        assert(state@.cfd == state::overwrite(st.cfd, state::keys_of(held_cores(job)), false));
        assert(state@.cpus == state::overwrite(
            st.cpus,
            state::keys_of(cpus_of(held_cores(job))),
            None,
        ));
    }
    if let Some(cpus) = &entry.cpus {
        put_all(&mut state.cpus, cpus, None);
        proof {
            overwrite_twice(st.cpus, cpus_of(held_cores(job)), cpus@, None);
        }
    } else {
        proof {
            assert(held_cpus(job) =~= cpus_of(held_cores(job)));
        }
    }
}

// ---------------------------------------------------------------------------
// Cleaning up after processes that are gone
// ---------------------------------------------------------------------------

/// `st` after each of the given running jobs has gone.
pub open spec fn released_all(st: StateView, jids: Seq<Seq<char>>) -> StateView
    decreases jids.len(),
{
    if jids.len() == 0 {
        st
    } else {
        released(released_all(st, jids.drop_last()), jids.last())
    }
}

/// `m` without the given keys.
pub open spec fn without_all(m: Map<Seq<char>, JobView>, jids: Seq<Seq<char>>) -> Map<
    Seq<char>,
    JobView,
>
    decreases jids.len(),
{
    if jids.len() == 0 {
        m
    } else {
        without_all(m, jids.drop_last()).remove(jids.last())
    }
}

/// Of the first `n` jobs, those with a process that a probe found gone.
pub open spec fn gone_among(
    jids: Seq<Seq<char>>,
    jobs: Map<Seq<char>, JobView>,
    probes: Seq<Liveness>,
    n: nat,
) -> Seq<Seq<char>>
    decreases n,
{
    if n == 0 {
        Seq::empty()
    } else {
        let front = gone_among(jids, jobs, probes, (n - 1) as nat);
        if jobs[jids[n - 1]].pid is Some && probes[n - 1] == Liveness::Gone {
            front.push(jids[n - 1])
        } else {
            front
        }
    }
}

/// `st` without the running jobs `running` and the waiting jobs `waiting`.
pub open spec fn cleaned(
    st: StateView,
    running: Seq<Seq<char>>,
    waiting: Seq<Seq<char>>,
) -> StateView {
    StateView { pending: without_all(st.pending, waiting), ..released_all(st, running) }
}

/// Whether `jids` names different jobs of a table that have a process.
pub open spec fn have_processes(jids: Seq<Seq<char>>, jobs: Map<Seq<char>, JobView>) -> bool {
    &&& jids.no_duplicates()
    &&& forall|i: int|
        0 <= i < jids.len() ==> jobs.contains_key(#[trigger] jids[i]) && jobs[jids[i]].pid is Some
}

/// The processes of the jobs in a table, in its order; nothing for a job without one.
pub open spec fn processes_of(keys: Seq<Seq<char>>, jobs: Map<Seq<char>, JobView>) -> Seq<
    Option<u32>,
> {
    keys.map_values(|k: Seq<char>| jobs[k].pid)
}

/// The processes to be probed for the jobs in a table: that of each job, in the table's order.
pub fn probe_targets(jobs: &Table<JobEntry>) -> (r: Vec<Option<u32>>)
    ensures
        r@ == processes_of(jobs.keys(), jobs@),
{
    let n: usize = jobs.len();
    let mut r: Vec<Option<u32>> = Vec::new();
    let mut i: usize = 0;
    while i < n
        invariant
            i <= n,
            n == jobs.keys().len(),
            r@ =~= processes_of(jobs.keys(), jobs@).take(i as int),
        decreases n - i,
    {
        r.push(jobs.value_at(i).pid);
        i += 1;
    }
    proof {
        assert(r@ =~= processes_of(jobs.keys(), jobs@));
    }
    r
}

/// Whether there is one probe for each process, in their order, and none where there is no process.
pub open spec fn probes_on(probes: Seq<Option<Probe>>, targets: Seq<Option<u32>>) -> bool {
    &&& probes.len() == targets.len()
    &&& forall|i: int|
        0 <= i < probes.len() ==> match #[trigger] probes[i] {
            Some(probe) => targets[i] == Some(probe.of()),
            None => targets[i] is None,
        }
}

/// What a list of probes tells.
pub open spec fn findings(probes: Seq<Option<Probe>>) -> Seq<Liveness> {
    probes.map_values(
        |p: Option<Probe>|
            match p {
                Some(probe) => probe.tells(),
                None => Liveness::Unknown,
            },
    )
}

/// Of the jobs in a table, those whose process a probe found gone.
pub open spec fn gone_by(
    jids: Seq<Seq<char>>,
    jobs: Map<Seq<char>, JobView>,
    probes: Seq<Option<Probe>>,
) -> Seq<Seq<char>> {
    gone_among(jids, jobs, findings(probes), jids.len())
}

/// Probes processes, one after the other.
fn probe_all(targets: &Vec<Option<u32>>) -> (r: Vec<Option<Probe>>)
    ensures
        probes_on(r@, targets@),
{
    let mut r: Vec<Option<Probe>> = Vec::new();
    let mut i: usize = 0;
    while i < targets.len()
        invariant
            i <= targets@.len(),
            probes_on(r@, targets@.take(i as int)),
        decreases targets.len() - i,
    {
        let ghost before = r@;
        match targets[i] {
            Some(pid) => {
                r.push(Some(outside::probe_process(pid)));
            },
            None => {
                r.push(None);
            },
        }
        proof {
            assert forall|j: int| 0 <= j < r@.len() implies match #[trigger] r@[j] {
                Some(probe) => targets@.take(i + 1)[j] == Some(probe.of()),
                None => targets@.take(i + 1)[j] is None,
            } by {
                if j < i {
                    assert(r@[j] == before[j]);
                    assert(targets@.take(i + 1)[j] == targets@.take(i as int)[j]);
                }
            }
        }
        i += 1;
    }
    proof {
        assert(targets@.take(targets@.len() as int) =~= targets@);
    }
    r
}

/// What the probes of processes tell.
fn answers(targets: &Vec<Option<u32>>, probes: &Vec<Option<Probe>>) -> (r: Vec<Liveness>)
    requires
        probes_on(probes@, targets@),
    ensures
        r@ == findings(probes@),
{
    let mut r: Vec<Liveness> = Vec::new();
    let mut i: usize = 0;
    while i < targets.len()
        invariant
            i <= targets@.len(),
            probes_on(probes@, targets@),
            r@ =~= findings(probes@).take(i as int),
        decreases targets.len() - i,
    {
        match &probes[i] {
            Some(probe) => {
                if let Some(pid) = targets[i] {
                    r.push(probe.answer_for(pid));
                }
            },
            None => {
                r.push(Liveness::Unknown);
            },
        }
        i += 1;
    }
    proof {
        assert(r@ =~= findings(probes@));
    }
    r
}

/// The jobs of a table with a process that the probes found gone.
fn gone_jobs(jobs: &Table<JobEntry>, probes: &Vec<Liveness>) -> (r: Vec<String>)
    requires
        probes@.len() == jobs.keys().len(),
    ensures
        text::string_views(r@) == gone_among(jobs.keys(), jobs@, probes@, probes@.len()),
{
    let n: usize = jobs.len();
    let mut r: Vec<String> = Vec::new();
    let mut i: usize = 0;
    proof {
        assert(text::string_views(r@) =~= Seq::<Seq<char>>::empty());
    }
    while i < n
        invariant
            i <= n,
            n == jobs.keys().len(),
            probes@.len() == n,
            text::string_views(r@) == gone_among(jobs.keys(), jobs@, probes@, i as nat),
        decreases n - i,
    {
        let ghost before = text::string_views(r@);
        if jobs.value_at(i).pid.is_some() && probes[i] == Liveness::Gone {
            let jid = jobs.key_at(i).clone();
            r.push(jid);
            proof {
                assert(text::string_views(r@) =~= before.push(jid@));
            }
        }
        i += 1;
    }
    r
}

/// Takes out the jobs whose processes the probes found gone, and frees what they held. There is
/// one probe for each running job and one for each waiting job. Returns how many jobs went.
pub fn clean_up(
    state: &mut CoreschedState,
    running: &Vec<Liveness>,
    waiting: &Vec<Liveness>,
) -> (r: usize)
    requires
        running@.len() == old(state).pids.keys().len(),
        waiting@.len() == old(state).pending.keys().len(),
        running@.len() + waiting@.len() <= usize::MAX,
    ensures
        ({
            let gone = gone_among(
                old(state).pids.keys(),
                old(state)@.pids,
                running@,
                running@.len(),
            );
            let gone_waiting = gone_among(
                old(state).pending.keys(),
                old(state)@.pending,
                waiting@,
                waiting@.len(),
            );
            &&& final(state)@ == cleaned(old(state)@, gone, gone_waiting)
            &&& r == gone.len() + gone_waiting.len()
        }),
{
    let gone = gone_jobs(&state.pids, running);
    let gone_waiting = gone_jobs(&state.pending, waiting);
    let ghost st = state@;
    let ghost names = text::string_views(gone@);
    let ghost names_waiting = text::string_views(gone_waiting@);
    proof {
        gone_are_few(state.pids.keys(), st.pids, running@, running@.len());
        gone_are_few(state.pending.keys(), st.pending, waiting@, waiting@.len());
        assert(names.take(0) =~= Seq::<Seq<char>>::empty());
    }
    let mut i: usize = 0;
    while i < gone.len()
        invariant
            i <= gone@.len(),
            names == text::string_views(gone@),
            state@ == released_all(st, names.take(i as int)),
        decreases gone.len() - i,
    {
        free_job(state, gone[i].as_str());
        proof {
            assert(names.take(i + 1).drop_last() =~= names.take(i as int));
        }
        i += 1;
    }
    let ghost freed = state@;
    proof {
        assert(names.take(names.len() as int) =~= names);
        releasing_keeps_pending(st, names);
        assert(names_waiting.take(0) =~= Seq::<Seq<char>>::empty());
    }
    let mut j: usize = 0;
    while j < gone_waiting.len()
        invariant
            j <= gone_waiting@.len(),
            names_waiting == text::string_views(gone_waiting@),
            freed.pending == st.pending,
            state@ == (StateView {
                pending: without_all(st.pending, names_waiting.take(j as int)),
                ..freed
            }),
        decreases gone_waiting.len() - j,
    {
        let _ = state.pending.remove(gone_waiting[j].as_str());
        proof {
            assert(names_waiting.take(j + 1).drop_last() =~= names_waiting.take(j as int));
        }
        j += 1;
    }
    proof {
        assert(names_waiting.take(names_waiting.len() as int) =~= names_waiting);
    }
    gone.len() + gone_waiting.len()
}

/// Releasing jobs does not touch the waiting jobs, the queue, the reservation or the counter.
pub proof fn releasing_keeps_pending(st: StateView, jids: Seq<Seq<char>>)
    ensures
        released_all(st, jids).pending == st.pending,
        released_all(st, jids).queued == st.queued,
        released_all(st, jids).reserved == st.reserved,
        released_all(st, jids).next_jid == st.next_jid,
    decreases jids.len(),
{
    if jids.len() > 0 {
        releasing_keeps_pending(st, jids.drop_last());
    }
}

proof fn gone_are_few(
    jids: Seq<Seq<char>>,
    jobs: Map<Seq<char>, JobView>,
    probes: Seq<Liveness>,
    n: nat,
)
    requires
        n <= jids.len(),
    ensures
        gone_among(jids, jobs, probes, n).len() <= n,
        forall|i: int|
            0 <= i < gone_among(jids, jobs, probes, n).len() ==> jids.take(n as int).contains(
                #[trigger] gone_among(jids, jobs, probes, n)[i],
            ) && jobs[gone_among(jids, jobs, probes, n)[i]].pid is Some,
        jids.no_duplicates() ==> gone_among(jids, jobs, probes, n).no_duplicates(),
    decreases n,
{
    if n > 0 {
        let m = (n - 1) as nat;
        gone_are_few(jids, jobs, probes, m);
        let front = gone_among(jids, jobs, probes, m);
        let all = gone_among(jids, jobs, probes, n);
        assert(jids.take(n as int)[m as int] == jids[m as int]);
        assert forall|i: int| 0 <= i < all.len() implies jids.take(n as int).contains(
            #[trigger] all[i],
        ) && jobs[all[i]].pid is Some by {
            if i < front.len() {
                assert(all[i] == front[i]);
                let j = jids.take(m as int).index_of(front[i]);
                assert(jids.take(n as int)[j] == front[i]);
            }
        }
        if jids.no_duplicates() && front.contains(jids[m as int]) {
            let i = front.index_of(jids[m as int]);
            assert(jids.take(m as int).contains(front[i]));
            let j = jids.take(m as int).index_of(front[i]);
            assert(jids[j] == jids[m as int]);
        }
    }
}

/// The jobs that probes found gone are different jobs of the table, each with a process.
pub proof fn gone_have_processes(
    jids: Seq<Seq<char>>,
    jobs: Map<Seq<char>, JobView>,
    probes: Seq<Liveness>,
)
    requires
        jids.no_duplicates(),
        probes.len() == jids.len(),
        forall|jid: Seq<char>| #[trigger] jids.contains(jid) ==> jobs.contains_key(jid),
    ensures
        have_processes(gone_among(jids, jobs, probes, probes.len()), jobs),
{
    let gone = gone_among(jids, jobs, probes, probes.len());
    gone_are_few(jids, jobs, probes, probes.len());
    assert(jids.take(probes.len() as int) =~= jids);
    assert forall|i: int| 0 <= i < gone.len() implies jobs.contains_key(#[trigger] gone[i]) by {
        assert(jids.contains(gone[i]));
    }
}

/// Takes out jobs whose processes are gone: the process of each running and each waiting job is
/// probed, and a probe that finds no such process counts; where the probe cannot tell, the job
/// stays. Returns how many jobs went. Which probes find their process gone depends on the machine.
pub fn orphan_cleanup(state: &mut CoreschedState) -> (r: usize)
    requires
        old(state)@.pids.dom().len() + old(state)@.pending.dom().len() <= usize::MAX,
    ensures
        exists|running: Seq<Option<Probe>>, waiting: Seq<Option<Probe>>|
            {
                &&& #[trigger] probes_on(
                    running,
                    processes_of(old(state).pids.keys(), old(state)@.pids),
                )
                &&& #[trigger] probes_on(
                    waiting,
                    processes_of(old(state).pending.keys(), old(state)@.pending),
                )
                &&& have_processes(
                    gone_by(old(state).pids.keys(), old(state)@.pids, running),
                    old(state)@.pids,
                )
                &&& have_processes(
                    gone_by(old(state).pending.keys(), old(state)@.pending, waiting),
                    old(state)@.pending,
                )
                &&& final(state)@ == cleaned(
                    old(state)@,
                    gone_by(old(state).pids.keys(), old(state)@.pids, running),
                    gone_by(old(state).pending.keys(), old(state)@.pending, waiting),
                )
                &&& r == gone_by(old(state).pids.keys(), old(state)@.pids, running).len() + gone_by(
                    old(state).pending.keys(),
                    old(state)@.pending,
                    waiting,
                ).len()
            },
{
    let targets = probe_targets(&state.pids);
    let targets_waiting = probe_targets(&state.pending);
    let probes = probe_all(&targets);
    let probes_waiting = probe_all(&targets_waiting);
    let running = answers(&targets, &probes);
    let waiting = answers(&targets_waiting, &probes_waiting);
    let _ = state.pids.len();
    let _ = state.pending.len();
    proof {
        gone_have_processes(state.pids.keys(), state@.pids, running@);
        gone_have_processes(state.pending.keys(), state@.pending, waiting@);
        assert(probes_on(probes@, processes_of(state.pids.keys(), state@.pids)));
        assert(probes_on(probes_waiting@, processes_of(state.pending.keys(), state@.pending)));
    }
    clean_up(state, &running, &waiting)
}

// ---------------------------------------------------------------------------
// Waiting and the queue
// ---------------------------------------------------------------------------

/// How many units of its kind a job of the given priority could get now.
pub open spec fn available(st: StateView, job_type: Seq<char>, priority: JobPriority) -> nat {
    if job_type == "cfd"@ {
        free_cores(st, priority).len()
    } else if job_type == "py"@ {
        free_cpus(st, priority).len()
    } else {
        0
    }
}

/// How many units a job of `n` units lacks.
pub open spec fn shortage(
    st: StateView,
    job_type: Seq<char>,
    n: u8,
    priority: JobPriority,
) -> int {
    if n <= available(st, job_type, priority) {
        0
    } else {
        n - available(st, job_type, priority)
    }
}

/// How many more units of its kind a job needs than it could get.
pub fn needed_for_priority(
    state: &CoreschedState,
    job_type: &str,
    n: u8,
    priority: JobPriority,
) -> (r: u8)
    ensures
        r == shortage(state@, job_type@, n, priority),
{
    let cfd = text::same(job_type, "cfd");
    let py = text::same(job_type, "py");
    if !cfd && !py {
        return n;
    }
    let list = if cfd {
        eligible_physical_cores(state, priority)
    } else {
        eligible_cpus(state, priority)
    };
    let ghost st = state@;
    let ghost free = if cfd {
        |c: u8| core_free(st, c)
    } else {
        |c: u8| cpu_free(st, c)
    };
    let mut count: u8 = 0;
    let mut i: usize = 0;
    proof {
        eligible_lists_are_sound(st, priority);
        seqs::filter_none(list@, free);
    }
    while i < list.len()
        invariant
            i <= list@.len() <= 16,
            count <= i,
            st == state@,
            free == if cfd {
                |c: u8| core_free(st, c)
            } else {
                |c: u8| cpu_free(st, c)
            },
            count == list@.take(i as int).filter(free).len(),
        decreases list.len() - i,
    {
        let c: u8 = list[i];
        proof {
            seqs::filter_next(list@, free, i as int);
        }
        let is_free = if cfd {
            physical_core_is_free(state, c)
        } else {
            cpu_is_free(state, c)
        };
        if is_free {
            count += 1;
        }
        i += 1;
    }
    proof {
        assert(list@.take(list@.len() as int) =~= list@);
        assert(count == available(st, job_type@, priority));
    }
    if n <= count {
        0
    } else {
        n - count
    }
}

/// Whether a job other than `exclude` waits for an allocation at a higher level.
pub open spec fn higher_pending(
    st: StateView,
    priority: JobPriority,
    exclude: Option<Seq<char>>,
) -> bool {
    exists|jid: Seq<char>| #[trigger]
        st.pending.contains_key(jid) && st.pending[jid].priority.rank() > priority.rank() && Some(
            jid,
        ) != exclude
}

/// Whether a job is queued at a higher level.
pub open spec fn higher_queued(st: StateView, priority: JobPriority) -> bool {
    exists|i: int|
        0 <= i < st.queued.len() && (#[trigger] st.queued[i]).priority.rank() > priority.rank()
}

/// The text of an optional reference.
pub open spec fn str_of(s: Option<&str>) -> Option<Seq<char>> {
    match s {
        Some(x) => Some(x@),
        None => None,
    }
}

/// Whether a `run` job of a higher priority waits for an allocation.
pub fn has_higher_priority_pending(
    state: &CoreschedState,
    priority: JobPriority,
    exclude_jid: Option<&str>,
) -> (r: bool)
    ensures
        r == higher_pending(state@, priority, str_of(exclude_jid)),
{
    let n: usize = state.pending.len();
    let ghost keys = state.pending.keys();
    let ghost exclude = str_of(exclude_jid);
    let mut i: usize = 0;
    while i < n
        invariant
            i <= n,
            n == keys.len(),
            keys == state.pending.keys(),
            exclude == str_of(exclude_jid),
            forall|k: Seq<char>| keys.contains(k) == state@.pending.contains_key(k),
            forall|j: int|
                0 <= j < i ==> state@.pending[#[trigger] keys[j]].priority.rank()
                    <= priority.rank() || Some(keys[j]) == exclude,
        decreases n - i,
    {
        let jid = state.pending.key_at(i);
        let entry = state.pending.value_at(i);
        let excluded = match exclude_jid {
            Some(x) => text::same(jid.as_str(), x),
            None => false,
        };
        if entry.priority.level() > priority.level() && !excluded {
            proof {
                assert(keys.contains(keys[i as int]));
                assert(state@.pending.contains_key(keys[i as int]));
            }
            return true;
        }
        i += 1;
    }
    proof {
        assert forall|jid: Seq<char>| #[trigger] state@.pending.contains_key(jid) implies
            state@.pending[jid].priority.rank() <= priority.rank() || Some(jid) == exclude by {
            assert(keys.contains(jid));
            let j = keys.index_of(jid);
            assert(keys[j] == jid);
        }
    }
    false
}

/// Whether a `run` job must yield to work that waits at a higher level.
pub fn has_higher_priority_waiting(
    state: &CoreschedState,
    priority: JobPriority,
    exclude_pending_jid: Option<&str>,
) -> (r: bool)
    ensures
        r == (higher_pending(state@, priority, str_of(exclude_pending_jid)) || higher_queued(
            state@,
            priority,
        )),
{
    if has_higher_priority_pending(state, priority, exclude_pending_jid) {
        return true;
    }
    let mut i: usize = 0;
    while i < state.queued.len()
        invariant
            i <= state.queued@.len(),
            forall|j: int|
                0 <= j < i ==> (#[trigger] state@.queued[j]).priority.rank() <= priority.rank(),
        decreases state.queued@.len() - i,
    {
        let above = state.queued[i].priority.level() > priority.level();
        proof {
            assert(state@.queued[i as int] == state.queued@[i as int]@);
        }
        if above {
            return true;
        }
        i += 1;
    }
    false
}

/// Whether the `i`-th queued job is the first one of the highest level in the queue.
pub open spec fn heads_queue(queued: Seq<JobView>, i: int) -> bool {
    &&& 0 <= i < queued.len()
    &&& forall|j: int|
        0 <= j < queued.len() ==> (#[trigger] queued[j]).priority.rank()
            <= queued[i].priority.rank()
    &&& forall|j: int|
        0 <= j < i ==> (#[trigger] queued[j]).priority.rank() < queued[i].priority.rank()
}

/// Whether the `i`-th queued job is the one to dispatch next.
pub open spec fn is_next(st: StateView, i: int) -> bool {
    heads_queue(st.queued, i) && !higher_pending(st, st.queued[i].priority, None)
}

/// The position of the queued job to dispatch next: the first of the highest level, unless a
/// `run` job waits at a still higher one.
pub fn next_queued_job_index(state: &CoreschedState) -> (r: Option<usize>)
    ensures
        match r {
            Some(i) => is_next(state@, i as int),
            None => forall|i: int| !is_next(state@, i),
        },
{
    if state.queued.len() == 0 {
        return None;
    }
    let mut best: usize = 0;
    let mut i: usize = 1;
    while i < state.queued.len()
        invariant
            best < i <= state.queued@.len(),
            forall|j: int|
                0 <= j < i ==> (#[trigger] state@.queued[j]).priority.rank()
                    <= state@.queued[best as int].priority.rank(),
            forall|j: int|
                0 <= j < best ==> (#[trigger] state@.queued[j]).priority.rank()
                    < state@.queued[best as int].priority.rank(),
        decreases state.queued@.len() - i,
    {
        if state.queued[i].priority.level() > state.queued[best].priority.level() {
            proof {
                assert(state@.queued[i as int] == state.queued@[i as int]@);
                assert(state@.queued[best as int] == state.queued@[best as int]@);
            }
            best = i;
        }
        proof {
            assert(state@.queued[i as int] == state.queued@[i as int]@);
        }
        i += 1;
    }
    proof {
        assert(heads_queue(state@.queued, best as int));
        assert forall|k: int| is_next(state@, k) implies k == best by {
            assert(state@.queued[k].priority.rank() <= state@.queued[best as int].priority.rank());
            assert(state@.queued[best as int].priority.rank() <= state@.queued[k].priority.rank());
        }
        assert(state@.queued[best as int] == state.queued@[best as int]@);
    }
    if has_higher_priority_pending(state, state.queued[best].priority, None) {
        None
    } else {
        Some(best)
    }
}

// ---------------------------------------------------------------------------
// Dispatch
// ---------------------------------------------------------------------------

/// What is needed to start a dispatched job.
#[derive(Debug)]
pub struct JobDispatchInfo {
    pub jid: String,
    pub job_type: String,
    pub priority: JobPriority,
    pub need: u8,
    pub cmd: String,
    pub args: Vec<String>,
    pub output: String,
    pub submit: Option<Timestamp>,
    pub pin_cpus: Vec<u8>,
}

/// What a dispatch record holds.
#[verifier::ext_equal]
pub struct DispatchView {
    pub jid: Seq<char>,
    pub job_type: Seq<char>,
    pub priority: JobPriority,
    pub need: u8,
    pub cmd: Seq<char>,
    pub args: Seq<Seq<char>>,
    pub output: Seq<char>,
    pub submit: Option<Timestamp>,
    pub pin_cpus: Seq<u8>,
}

impl View for JobDispatchInfo {
    type V = DispatchView;

    open spec fn view(&self) -> DispatchView {
        DispatchView {
            jid: self.jid@,
            job_type: self.job_type@,
            priority: self.priority,
            need: self.need,
            cmd: self.cmd@,
            args: text::string_views(self.args@),
            output: self.output@,
            submit: self.submit,
            pin_cpus: self.pin_cpus@,
        }
    }
}

/// What an optional dispatch record holds.
pub open spec fn dispatch_of(info: Option<JobDispatchInfo>) -> Option<DispatchView> {
    match info {
        Some(x) => Some(x@),
        None => None,
    }
}

/// The units that a job gets: cores or CPUs, by its kind.
pub open spec fn grant(st: StateView, job_type: Seq<char>, n: u8, priority: JobPriority) -> Seq<
    u8,
> {
    if job_type == "cfd"@ {
        seqs::at_most(free_cores(st, priority), n as nat)
    } else {
        seqs::at_most(free_cpus(st, priority), n as nat)
    }
}

/// `st` with the given units allocated to a job of the given kind.
pub open spec fn mark_grant(st: StateView, job_type: Seq<char>, units: Seq<u8>) -> StateView {
    if job_type == "cfd"@ {
        mark_cores(st, units)
    } else {
        mark_cpus(st, units)
    }
}

/// The CPUs that a job with the given units is bound to.
pub open spec fn pin_list(job_type: Seq<char>, units: Seq<u8>) -> Seq<u8> {
    if job_type == "cfd"@ {
        cpus_of(units)
    } else {
        units
    }
}

/// The arguments of a stored command: the parsed list, or the command itself where it is no list.
pub open spec fn arguments(cmd: Seq<char>, parsed: Option<Seq<Seq<char>>>) -> Seq<Seq<char>> {
    match parsed {
        Some(args) => args,
        None => seq![cmd],
    }
}

/// The entry of a queued job that has been given the units `units`.
pub open spec fn started_job(job: JobView, n: u8, units: Seq<u8>, start: Timestamp) -> JobView {
    JobView {
        need: n as u64,
        pid: None,
        start: Some(start),
        cmd: Some(state::text_or_empty(job.cmd)),
        output: Some(state::text_or_empty(job.output)),
        cores: if job.job_type == "cfd"@ {
            Some(units)
        } else {
            None
        },
        cpus: if job.job_type == "cfd"@ {
            None
        } else {
            Some(units)
        },
        ..job
    }
}

/// Whether a job can be given its units now: it is of a known kind, and there are as many as it
/// asks for.
pub open spec fn can_be_met(st: StateView, job: JobView) -> bool {
    &&& job.job_type == "cfd"@ || job.job_type == "py"@
    &&& job.need as nat <= available(st, job.job_type, job.priority)
}

/// What comes of trying to dispatch the `i`-th queued job: the state after it, and the record of
/// the dispatch. Nothing changes where the job cannot be given its units.
pub open spec fn dispatched(
    st: StateView,
    i: int,
    parsed: Option<Seq<Seq<char>>>,
    start: Timestamp,
) -> (StateView, Option<DispatchView>) {
    let job = st.queued[i];
    let n = job.need as u8;
    let rest = StateView { queued: st.queued.remove(i), ..st };
    if !can_be_met(st, job) {
        (st, None)
    } else {
        let units = grant(st, job.job_type, n, job.priority);
        let marked = mark_grant(rest, job.job_type, units);
        (
            StateView {
                pids: marked.pids.insert(job.jid, started_job(job, n, units, start)),
                ..marked
            },
            Some(
                DispatchView {
                    jid: job.jid,
                    job_type: job.job_type,
                    priority: job.priority,
                    need: n,
                    cmd: state::text_or_empty(job.cmd),
                    args: arguments(state::text_or_empty(job.cmd), parsed),
                    output: state::text_or_empty(job.output),
                    submit: job.submit,
                    pin_cpus: pin_list(job.job_type, units),
                },
            ),
        )
    }
}

/// Allocates units for a job of a known kind.
pub fn alloc_for_priority(
    state: &mut CoreschedState,
    job_type: &str,
    n: u8,
    priority: JobPriority,
) -> (r: Vec<u8>)
    ensures
        r@ == grant(old(state)@, job_type@, n, priority),
        final(state)@ == mark_grant(old(state)@, job_type@, r@),
{
    if text::same(job_type, "cfd") {
        alloc_cfd_for_priority(state, n, priority)
    } else {
        alloc_py_for_priority(state, n, priority)
    }
}

/// The CPUs that a job with the given units is bound to.
pub fn pin_cpus_for(job_type: &str, units: &Vec<u8>) -> (r: Vec<u8>)
    ensures
        r@ == pin_list(job_type@, units@),
{
    if text::same(job_type, "cfd") {
        cpus_of_cores(units)
    } else {
        state::copy_numbers(units)
    }
}

/// No more units are ever available than there are CPUs.
pub proof fn available_is_small(st: StateView, job_type: Seq<char>, priority: JobPriority)
    ensures
        available(st, job_type, priority) <= topology::cpu_count(),
{
    eligible_lists_are_sound(st, priority);
    let cores = eligible_cores(st, priority);
    let cpus = eligible_cpu_list(st, priority);
    let core_is_free = |c: u8| core_free(st, c);
    let cpu_is_open = |c: u8| cpu_free(st, c);
    seqs::filter_is_no_longer(cores, core_is_free);
    seqs::filter_is_no_longer(cpus, cpu_is_open);
}

proof fn queue_without(state_queue: Seq<JobEntry>, left: Seq<JobEntry>, i: int)
    requires
        0 <= i < state_queue.len(),
        left == state_queue.remove(i),
    ensures
        state::job_views(left) == state::job_views(state_queue).remove(i),
{
    assert(state::job_views(left) =~= state::job_views(state_queue).remove(i));
}

/// Tries to dispatch the queued job at `index`, whose stored command was parsed to `parsed`.
pub fn dispatch_at(
    state: &mut CoreschedState,
    index: usize,
    parsed: Option<Vec<String>>,
    start: Timestamp,
) -> (r: Option<JobDispatchInfo>)
    requires
        index < old(state)@.queued.len(),
    ensures
        (final(state)@, dispatch_of(r)) == dispatched(
            old(state)@,
            index as int,
            strings_of(parsed),
            start,
        ),
{
    let ghost st = state@;
    proof {
        assert(st.queued[index as int] == state.queued@[index as int]@);
        available_is_small(
            st,
            st.queued[index as int].job_type,
            st.queued[index as int].priority,
        );
    }
    let need: u64 = state.queued[index].need;
    let priority = state.queued[index].priority;
    let cfd = text::same(state.queued[index].job_type.as_str(), "cfd");
    let py = text::same(state.queued[index].job_type.as_str(), "py");
    if need > 255 || !(cfd || py) {
        return None;
    }
    let n: u8 = need as u8;
    let lacking = needed_for_priority(
        state,
        state.queued[index].job_type.as_str(),
        n,
        priority,
    );
    if lacking > 0 {
        return None;
    }
    let ghost queue = state.queued@;
    let removed = state.queued.remove(index);
    let job = match removed {
        Some(job) => job,
        None => {
            return None;
        },
    };
    proof {
        queue_without(queue, state.queued@, index as int);
        assert(job@ == st.queued[index as int]);
    }
    let cmd = state::copy_text_or_empty(&job.cmd);
    let output = state::copy_text_or_empty(&job.output);
    let args: Vec<String> = match parsed {
        Some(list) => list,
        None => {
            let mut list: Vec<String> = Vec::new();
            list.push(cmd.clone());
            proof {
                assert(text::string_views(list@) =~= seq![cmd@]);
            }
            list
        },
    };
    let ghost rest = state@;
    proof {
        assert(free_cores(rest, priority) == free_cores(st, priority)) by {
            seqs::filter_agrees(
                eligible_cores(st, priority),
                |c: u8| core_free(rest, c),
                |c: u8| core_free(st, c),
            );
        }
        assert(free_cpus(rest, priority) == free_cpus(st, priority)) by {
            seqs::filter_agrees(
                eligible_cpu_list(st, priority),
                |c: u8| cpu_free(rest, c),
                |c: u8| cpu_free(st, c),
            );
        }
    }
    let units = alloc_for_priority(state, job.job_type.as_str(), n, priority);
    let pin_cpus = pin_cpus_for(job.job_type.as_str(), &units);
    let jid = job.jid.clone();
    let job_type = job.job_type.clone();
    let (cores, cpus) = if cfd {
        (Some(units), None)
    } else {
        (None, Some(units))
    };
    let entry = JobEntry {
        jid: job.jid,
        job_type: job.job_type,
        need: n as u64,
        pid: None,
        submit: job.submit,
        start: Some(start),
        cmd: Some(cmd.clone()),
        output: Some(output.clone()),
        cores,
        cpus,
        priority,
    };
    state.pids.insert(jid.clone(), entry);
    Some(
        JobDispatchInfo {
            jid,
            job_type,
            priority,
            need: n,
            cmd,
            args,
            output,
            submit: job.submit,
            pin_cpus,
        },
    )
}

/// The views of an optional list of strings.
pub open spec fn strings_of(v: Option<Vec<String>>) -> Option<Seq<Seq<char>>> {
    match v {
        Some(x) => Some(text::string_views(x@)),
        None => None,
    }
}

/// Tries to dispatch the next queued job: allocates its units and moves it to the running jobs.
/// There is no dispatch where the queue is empty, where the job at its head must wait for a `run`
/// job of a higher level, or where it lacks units.
pub fn try_dispatch_one(state: &mut CoreschedState, start: Timestamp) -> (r: Option<
    JobDispatchInfo,
>)
    ensures
        (forall|i: int| !is_next(old(state)@, i)) ==> r is None && final(state)@ == old(state)@,
        forall|i: int| #[trigger]
            is_next(old(state)@, i) ==> (final(state)@, dispatch_of(r)) == dispatched(
                old(state)@,
                i,
                outside::json_strings(state::text_or_empty(old(state)@.queued[i].cmd)),
                start,
            ),
{
    let index = match next_queued_job_index(state) {
        Some(index) => index,
        None => {
            return None;
        },
    };
    proof {
        assert forall|i: int| #[trigger] is_next(state@, i) implies i == index by {
            let q = state@.queued;
            assert(q[i].priority.rank() <= q[index as int].priority.rank());
            assert(q[index as int].priority.rank() <= q[i].priority.rank());
        }
        assert(state@.queued[index as int] == state.queued@[index as int]@);
    }
    let cmd = state::copy_text_or_empty(&state.queued[index].cmd);
    let parsed = parse_json_strings(cmd.as_str());
    dispatch_at(state, index, parsed, start)
}

} // verus!
