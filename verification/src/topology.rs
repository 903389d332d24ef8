//! CPU topology: 8 physical cores, each with 2 hyperthreads (logical CPUs).
//!
//! Physical core `c` holds the logical CPUs `c` and `c + 8`.

use vstd::prelude::*;

verus! {

/// The number of physical cores.
pub open spec fn core_count() -> nat {
    8
}

/// The number of logical CPUs.
pub open spec fn cpu_count() -> nat {
    16
}

/// The two logical CPUs of a physical core.
pub open spec fn core_cpus(core: u8) -> Option<(u8, u8)> {
    if core < core_count() {
        Some((core, (core + core_count()) as u8))
    } else {
        None
    }
}

/// The numbers from zero up to `n`, in order.
pub open spec fn first_numbers(n: nat) -> Seq<u8> {
    Seq::new(n, |i: int| i as u8)
}

/// Whether `cpu` is one of the hyperthreads of `core`.
pub open spec fn on_core(cpu: u8, core: u8) -> bool {
    core_cpus(core) matches Some((a, b)) && (cpu == a || cpu == b)
}

/// A quarter of the cores, rounded up.
pub open spec fn reserved_share() -> nat {
    (core_count() + 3) / 4
}

/// The cores reserved by default: the last quarter of them, on machines with at least 4 cores.
pub open spec fn default_reserved() -> Seq<u8> {
    if core_count() >= 4 {
        Seq::new(reserved_share(), |i: int| (core_count() - reserved_share() + i) as u8)
    } else {
        Seq::empty()
    }
}

/// The number of physical cores.
pub fn num_physical_cores() -> (r: usize)
    ensures
        r == core_count(),
{
    8
}

/// The number of logical CPUs.
pub fn num_logical_cpus() -> (r: usize)
    ensures
        r == cpu_count(),
{
    16
}

/// The two logical CPUs that belong to a physical core.
pub fn logical_cpus(physical: u8) -> (r: Option<(u8, u8)>)
    ensures
        r == core_cpus(physical),
{
    if physical < 8 {
        Some((physical, physical + 8))
    } else {
        None
    }
}

fn numbers_below(n: u8) -> (r: Vec<u8>)
    ensures
        r@ == first_numbers(n as nat),
{
    let mut r: Vec<u8> = Vec::new();
    let mut i: u8 = 0;
    while i < n
        invariant
            i <= n,
            r@ =~= first_numbers(i as nat),
        decreases n - i,
    {
        r.push(i);
        i += 1;
    }
    r
}

/// All physical core numbers.
pub fn physical_cores() -> (r: Vec<u8>)
    ensures
        r@ == first_numbers(core_count()),
{
    numbers_below(8)
}

/// All logical CPU numbers.
pub fn all_cpus() -> (r: Vec<u8>)
    ensures
        r@ == first_numbers(cpu_count()),
{
    numbers_below(16)
}

/// The logical CPUs that may be assigned to regular `--cpus` jobs: all hardware threads. The
/// priority policy then takes whole cores away from the lower levels.
pub fn schedulable_cpus() -> (r: Vec<u8>)
    ensures
        r@ == first_numbers(cpu_count()),
{
    all_cpus()
}

/// Whether a logical CPU may be assigned to regular `--cpus` jobs.
pub fn is_schedulable_cpu(cpu: u8) -> (r: bool)
    ensures
        r == first_numbers(cpu_count()).contains(cpu),
{
    proof {
        if cpu < cpu_count() {
            assert(first_numbers(cpu_count())[cpu as int] == cpu);
        }
    }
    cpu < 16
}

/// The cores reserved by default.
pub fn default_reserved_cores() -> (r: Vec<u8>)
    ensures
        r@ == default_reserved(),
{
    let total: usize = num_physical_cores();
    let mut r: Vec<u8> = Vec::new();
    if total >= 4 {
        let share: usize = (total + 3) / 4;
        let mut i: usize = 0;
        while i < share
            invariant
                i <= share,
                total == core_count(),
                share == reserved_share(),
                r@ =~= default_reserved().take(i as int),
            decreases share - i,
        {
            r.push((total - share + i) as u8);
            i += 1;
        }
    }
    r
}

/// The numbers below `n` are those in the list of the first `n` numbers.
pub proof fn first_numbers_members(n: nat)
    requires
        n <= 256,
    ensures
        forall|c: u8| #[trigger] first_numbers(n).contains(c) == (c < n),
        first_numbers(n).no_duplicates(),
{
    assert forall|c: u8| c < n implies #[trigger] first_numbers(n).contains(c) by {
        assert(first_numbers(n)[c as int] == c);
    }
}

/// No logical CPU belongs to two physical cores.
pub proof fn cores_share_no_cpu(cpu: u8, a: u8, b: u8)
    requires
        on_core(cpu, a),
        on_core(cpu, b),
    ensures
        a == b,
{
}

/// Every logical CPU belongs to a physical core.
pub proof fn every_cpu_is_on_a_core(cpu: u8) -> (core: u8)
    requires
        cpu < cpu_count(),
    ensures
        core < core_count(),
        on_core(cpu, core),
{
    if cpu < core_count() {
        cpu
    } else {
        (cpu - core_count()) as u8
    }
}

/// By default two cores are reserved, the last two.
pub proof fn default_reservation_is_the_last_two_cores()
    ensures
        default_reserved() =~= seq![6u8, 7u8],
{
}

} // verus!
