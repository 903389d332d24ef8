//! CPU affinity: binding a process to logical CPUs.

use crate::outside;
use crate::outside::{add_to_cpu_set, bind_current_process, new_cpu_set, Binding};
use crate::text;
use nix::sched::CpuSet;
use vstd::prelude::*;

verus! {

/// The numbers of a list as a set.
pub open spec fn members(cpus: Seq<u8>) -> Set<nat> {
    cpus.map_values(|c: u8| c as nat).to_set()
}

/// The set of the given CPUs.
pub fn cpu_set_of(cpus: &[u8]) -> (r: Result<CpuSet, i32>)
    ensures
        r matches Ok(set) && outside::cpu_set_members(set) == members(cpus@),
{
    let mut set = new_cpu_set();
    let mut i: usize = 0;
    proof {
        assert(members(cpus@.take(0)) =~= Set::<nat>::empty());
    }
    while i < cpus.len()
        invariant
            i <= cpus@.len(),
            outside::cpu_set_members(set) == members(cpus@.take(i as int)),
        decreases cpus@.len() - i,
    {
        match add_to_cpu_set(&mut set, cpus[i] as usize) {
            Ok(_) => {},
            Err(e) => {
                return Err(e);
            },
        }
        proof {
            let done = cpus@.take(i as int).map_values(|c: u8| c as nat);
            let more = cpus@.take(i + 1).map_values(|c: u8| c as nat);
            assert(more =~= done.push(cpus@[i as int] as nat));
            assert forall|x: nat| more.to_set().contains(x) == done.to_set().insert(
                cpus@[i as int] as nat,
            ).contains(x) by {
                if done.contains(x) {
                    let j = done.index_of(x);
                    assert(more[j] == x);
                }
                assert(more[i as int] == cpus@[i as int] as nat);
            }
            assert(more.to_set() =~= done.to_set().insert(cpus@[i as int] as nat));
        }
        i += 1;
    }
    proof {
        assert(cpus@.take(cpus@.len() as int) =~= cpus@);
    }
    Ok(set)
}

/// Binds the current process to the given CPUs. The result, an error number where it fails, is the
/// system's.
pub fn pin_to_cpus(cpus: &[u8]) -> (r: Result<(), i32>)
    ensures
        exists|binding: Binding| binding.of() == members(cpus@) && r == #[trigger] binding.tells(),
{
    match cpu_set_of(cpus) {
        Ok(set) => {
            let binding = bind_current_process(set);
            assert(binding.of() == members(cpus@));
            binding.result()
        },
        Err(e) => Err(e),
    }
}

/// The decimal forms of a list of numbers.
pub open spec fn decimals(list: Seq<u8>) -> Seq<Seq<char>> {
    list.map_values(|c: u8| text::decimal(c as nat))
}

/// The decimal forms of a list of numbers.
pub fn decimal_strings(list: &[u8]) -> (r: Vec<String>)
    ensures
        text::string_views(r@) == decimals(list@),
{
    let mut r: Vec<String> = Vec::new();
    let mut i: usize = 0;
    while i < list.len()
        invariant
            i <= list@.len(),
            text::string_views(r@) =~= decimals(list@.take(i as int)),
        decreases list@.len() - i,
    {
        let ghost before = text::string_views(r@);
        let item = text::decimal_string(list[i] as u64);
        r.push(item);
        proof {
            assert(text::string_views(r@) =~= before.push(item@));
            assert(list@.take(i + 1) =~= list@.take(i as int).push(list@[i as int]));
        }
        i += 1;
    }
    proof {
        assert(list@.take(list@.len() as int) =~= list@);
    }
    r
}

/// The CPUs as a comma-separated list, in the format of `taskset -c`.
pub fn pin_str(cpus: &[u8]) -> (r: String)
    ensures
        r@ == text::join(decimals(cpus@), ","@),
{
    let parts = decimal_strings(cpus);
    text::join_strings(&parts, ",")
}

} // verus!
