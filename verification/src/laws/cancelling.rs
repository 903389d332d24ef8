//! What a cancelled job is signalled with.

use crate::process;
use crate::process::CancelStep;
use vstd::prelude::*;

verus! {

/// Every process of a cancelled job is asked to end and later ended, and between the two there is
/// the pause.
pub proof fn every_process_is_signalled(groups: Seq<u32>, processes: Seq<u32>, pid: u32)
    requires
        processes.contains(pid),
    ensures
        exists|a: int, p: int, b: int|
            {
                &&& 0 <= a < p < b < process::cancel_steps(groups, processes).len()
                &&& #[trigger] process::cancel_steps(groups, processes)[a]
                    == CancelStep::Terminate(pid as i32)
                &&& #[trigger] process::cancel_steps(groups, processes)[p] is Pause
                &&& #[trigger] process::cancel_steps(groups, processes)[b] == CancelStep::Kill(
                    pid as i32,
                )
            },
{
    let steps = process::cancel_steps(groups, processes);
    let targets = process::signal_targets(groups, processes);
    let i = groups.len() + processes.index_of(pid);
    let p = targets.len() as int;
    assert(targets[i] == pid as i32);
    assert(steps[i] == CancelStep::Terminate(pid as i32));
    assert(steps[p] is Pause);
    assert(steps[p + 1 + i] == CancelStep::Kill(pid as i32));
}

/// Every process group of a cancelled job is asked to end and later ended, as a group, and between
/// the two there is the pause.
pub proof fn every_group_is_signalled(groups: Seq<u32>, processes: Seq<u32>, group: u32)
    requires
        groups.contains(group),
        0 < group <= i32::MAX,
    ensures
        exists|a: int, p: int, b: int|
            {
                &&& 0 <= a < p < b < process::cancel_steps(groups, processes).len()
                &&& #[trigger] process::cancel_steps(groups, processes)[a]
                    == CancelStep::Terminate((-group) as i32)
                &&& #[trigger] process::cancel_steps(groups, processes)[p] is Pause
                &&& #[trigger] process::cancel_steps(groups, processes)[b] == CancelStep::Kill(
                    (-group) as i32,
                )
            },
{
    let steps = process::cancel_steps(groups, processes);
    let targets = process::signal_targets(groups, processes);
    let i = groups.index_of(group);
    let p = targets.len() as int;
    assert(targets[i] == (-group) as i32);
    assert(steps[i] == CancelStep::Terminate((-group) as i32));
    assert(steps[p] is Pause);
    assert(steps[p + 1 + i] == CancelStep::Kill((-group) as i32));
}

/// Nothing else is signalled, each target is asked to end once and ended once, no target is ended
/// before the pause or asked after it, and the pause of a quarter of a second comes once. Groups
/// come before processes.
pub proof fn only_the_job_is_signalled(groups: Seq<u32>, processes: Seq<u32>, at: int)
    requires
        0 <= at < process::cancel_steps(groups, processes).len(),
    ensures
        ({
            let steps = process::cancel_steps(groups, processes);
            let half = groups.len() + processes.len();
            &&& steps.len() == 2 * half + 1
            &&& steps[half as int] == CancelStep::Pause(250)
            &&& at < half ==> steps[at] is Terminate
            &&& at > half ==> steps[at] is Kill
            &&& at < groups.len() ==> steps[at] == CancelStep::Terminate(
                (-(groups[at] as i32)) as i32,
            )
            &&& groups.len() <= at < half ==> steps[at] == CancelStep::Terminate(
                processes[at - groups.len()] as i32,
            )
            &&& at < half ==> steps[half + 1 + at] == CancelStep::Kill(steps[at]->Terminate_0)
        }),
{
}

/// The groups of a job are those of its processes that one of its own processes leads: a group
/// counts where a process of the job has its number and the system puts a process of the job in it.
/// Numbers of processes fit 31 bits.
pub proof fn job_groups_are_led_by_the_job(
    processes: Seq<u32>,
    groups: Seq<Option<i32>>,
    group: u32,
)
    requires
        forall|i: int| 0 <= i < processes.len() ==> #[trigger] processes[i] <= i32::MAX,
    ensures
        process::is_job_group(processes, groups, group) <==> group > 0 && processes.contains(group)
            && group <= i32::MAX && groups.contains(Some(group as i32)),
{
    if process::is_job_group(processes, groups, group) {
        let (i, j) = choose|i: int, j: int|
            {
                &&& 0 <= i < groups.len()
                &&& 0 <= j < processes.len()
                &&& #[trigger] groups[i] == Some(#[trigger] processes[j] as i32)
                &&& processes[j] as i32 > 0
                &&& group == (processes[j] as i32) as u32
            };
        assert(processes[j] == group);
        assert(groups[i] == Some(group as i32));
    }
    if group > 0 && processes.contains(group) && group <= i32::MAX && groups.contains(
        Some(group as i32),
    ) {
        let i = groups.index_of(Some(group as i32));
        let j = processes.index_of(group);
        assert(groups[i] == Some(processes[j] as i32));
    }
}

} // verus!
