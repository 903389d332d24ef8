//! Processes of a job: walking its process tree, finding its process groups, and the order in
//! which a cancelled job is signalled.

use crate::outside;
use crate::outside::{GroupReply, Liveness, Probe};
use crate::text;
use vstd::prelude::*;

verus! {

/// Whether a probe found a process that exists, whether or not it may be signalled.
pub fn found_alive(probe: Liveness) -> (r: bool)
    ensures
        r == (probe == Liveness::Alive || probe == Liveness::Denied),
{
    probe == Liveness::Alive || probe == Liveness::Denied
}

/// Whether a process exists: what a probe of it tells. The answer is the system's.
pub fn is_alive(pid: u32) -> (r: bool)
    ensures
        exists|probe: Probe|
            probe.of() == pid && r == (#[trigger] probe.tells() == Liveness::Alive || probe.tells()
                == Liveness::Denied),
{
    let probe = outside::probe_process(pid);
    let answer = probe.answer_for(pid);
    found_alive(answer)
}

// ---------------------------------------------------------------------------
// Process tree
// ---------------------------------------------------------------------------

/// The numbers that a list of words spells; other words are passed over.
pub open spec fn numbers_in(words: Seq<Seq<char>>) -> Seq<u32>
    decreases words.len(),
{
    if words.len() == 0 {
        Seq::empty()
    } else {
        let front = numbers_in(words.drop_last());
        match text::unsigned(words.last(), u32::MAX as nat) {
            Some(n) => front.push(n as u32),
            None => front,
        }
    }
}

/// `known` with the new ones among `children`; zero is no process.
pub open spec fn with_children(known: Seq<u32>, children: Seq<u32>) -> Seq<u32>
    decreases children.len(),
{
    if children.len() == 0 {
        known
    } else {
        let front = with_children(known, children.drop_last());
        let child = children.last();
        if child > 0 && !front.contains(child) {
            front.push(child)
        } else {
            front
        }
    }
}

/// The walk over a process tree: the processes found so far, each once and the root first, and
/// how many of them were already asked for their children.
#[derive(Debug)]
pub struct TreeWalk {
    processes: Vec<u32>,
    asked: usize,
}

/// What a walk holds.
pub struct WalkView {
    pub processes: Seq<u32>,
    pub asked: nat,
}

impl View for TreeWalk {
    type V = WalkView;

    closed spec fn view(&self) -> WalkView {
        WalkView { processes: self.processes@, asked: self.asked as nat }
    }
}

/// Whether a list holds a process.
pub fn holds_process(list: &Vec<u32>, pid: u32) -> (r: bool)
    ensures
        r == list@.contains(pid),
{
    let mut i: usize = 0;
    while i < list.len()
        invariant
            i <= list@.len(),
            forall|j: int| 0 <= j < i ==> list@[j] != pid,
        decreases list.len() - i,
    {
        if list[i] == pid {
            return true;
        }
        i += 1;
    }
    false
}

/// The process numbers in a text, separated by white space.
pub fn parse_children(content: &str) -> (r: Vec<u32>)
    ensures
        r@ == numbers_in(text::words(content@)),
{
    let cs = text::to_chars(content);
    let words = text::word_list(&cs);
    let ghost all = text::views(words@);
    let mut r: Vec<u32> = Vec::new();
    let mut i: usize = 0;
    while i < words.len()
        invariant
            i <= words@.len(),
            all == text::views(words@),
            r@ =~= numbers_in(all.take(i as int)),
        decreases words.len() - i,
    {
        proof {
            assert(all.take(i + 1).drop_last() =~= all.take(i as int));
            assert(all.take(i + 1).last() == words@[i as int]@);
        }
        if let Some(n) = text::parse_unsigned(&words[i], u32::MAX as u64) {
            r.push(n as u32);
        }
        i += 1;
    }
    proof {
        assert(all.take(all.len() as int) =~= all);
    }
    r
}

impl TreeWalk {
    #[verifier::type_invariant]
    spec fn well_formed(self) -> bool {
        &&& self.processes@.len() > 0
        &&& self.processes@.no_duplicates()
        &&& self.asked <= self.processes@.len()
    }

    /// A walk from the root process.
    pub fn new(root: u32) -> (r: TreeWalk)
        ensures
            r@ == (WalkView { processes: seq![root], asked: 0 }),
    {
        let mut processes: Vec<u32> = Vec::new();
        processes.push(root);
        proof {
            assert(processes@ =~= seq![root]);
        }
        TreeWalk { processes, asked: 0 }
    }

    /// The next process to be asked for its children; nothing where all were asked.
    pub fn next(&mut self) -> (r: Option<u32>)
        ensures
            final(self)@.processes == old(self)@.processes,
            match r {
                Some(pid) => {
                    &&& old(self)@.asked < old(self)@.processes.len()
                    &&& pid == old(self)@.processes[old(self)@.asked as int]
                    &&& final(self)@.asked == old(self)@.asked + 1
                },
                None => {
                    &&& old(self)@.asked == old(self)@.processes.len()
                    &&& final(self)@.asked == old(self)@.asked
                },
            },
    {
        proof {
            use_type_invariant(&*self);
        }
        if self.asked < self.processes.len() {
            let pid: u32 = self.processes[self.asked];
            self.asked = self.asked + 1;
            Some(pid)
        } else {
            None
        }
    }

    /// Takes in the children of a process, from the text in which the system lists them.
    pub fn add_children(&mut self, content: &str)
        ensures
            final(self)@.asked == old(self)@.asked,
            final(self)@.processes == with_children(
                old(self)@.processes,
                numbers_in(text::words(content@)),
            ),
    {
        proof {
            use_type_invariant(&*self);
        }
        let children = parse_children(content);
        let ghost known = self.processes@;
        let asked: usize = self.asked;
        let mut processes: Vec<u32> = Vec::new();
        self.asked = 0;
        let mut i: usize = 0;
        // A private copy, so that the walk stays well formed while it grows.
        while i < self.processes.len()
            invariant
                i <= self.processes@.len(),
                self.processes@ == known,
                self.asked == 0,
                processes@ == known.take(i as int),
            decreases self.processes.len() - i,
        {
            processes.push(self.processes[i]);
            proof {
                assert(known.take(i + 1) =~= known.take(i as int).push(known[i as int]));
            }
            i += 1;
        }
        proof {
            assert(known.take(known.len() as int) =~= known);
            assert(children@.take(0) =~= Seq::<u32>::empty());
        }
        let mut j: usize = 0;
        while j < children.len()
            invariant
                j <= children@.len(),
                processes@ == with_children(known, children@.take(j as int)),
                processes@.len() >= known.len(),
                processes@.no_duplicates(),
            decreases children.len() - j,
        {
            let child: u32 = children[j];
            proof {
                assert(children@.take(j + 1).drop_last() =~= children@.take(j as int));
            }
            if child > 0 && !holds_process(&processes, child) {
                processes.push(child);
            }
            j += 1;
        }
        proof {
            assert(children@.take(children@.len() as int) =~= children@);
        }
        *self = TreeWalk { processes, asked };
    }

    /// The processes found. Each is in the list once.
    pub fn processes(&self) -> (r: &Vec<u32>)
        ensures
            r@ == self@.processes,
            r@.len() > 0,
            r@.no_duplicates(),
    {
        proof {
            use_type_invariant(self);
        }
        &self.processes
    }
}

/// What a walk takes in: it keeps what it knew, in place, and holds every child.
pub proof fn children_are_taken_in(known: Seq<u32>, children: Seq<u32>, pid: u32)
    ensures
        known.len() <= with_children(known, children).len(),
        with_children(known, children).take(known.len() as int) == known,
        with_children(known, children).contains(pid) == (known.contains(pid) || (pid > 0
            && children.contains(pid))),
    decreases children.len(),
{
    let all = with_children(known, children);
    if children.len() == 0 {
        assert(known.take(known.len() as int) =~= known);
    } else {
        let rest = children.drop_last();
        let front = with_children(known, rest);
        let child = children.last();
        children_are_taken_in(known, rest, pid);
        children_are_taken_in(known, rest, child);
        assert(all.take(known.len() as int) =~= front.take(known.len() as int));
        if all.contains(pid) {
            let i = all.index_of(pid);
            if i < front.len() {
                assert(front[i] == pid);
                assert(front.contains(pid));
                if rest.contains(pid) {
                    let j = rest.index_of(pid);
                    assert(children[j] == pid);
                }
            } else {
                assert(children[children.len() - 1] == pid);
            }
        }
        if front.contains(pid) {
            let i = front.index_of(pid);
            assert(all[i] == pid);
        }
        if children.contains(pid) && pid > 0 {
            let j = children.index_of(pid);
            if j < rest.len() {
                assert(rest[j] == pid);
            } else if !front.contains(pid) {
                assert(all[all.len() - 1] == pid);
            }
        }
    }
}

// ---------------------------------------------------------------------------
// Process groups
// ---------------------------------------------------------------------------

/// Whether `group` is the group of one of the processes and is led by one of them.
pub open spec fn is_job_group(processes: Seq<u32>, groups: Seq<Option<i32>>, group: u32) -> bool {
    exists|i: int, j: int|
        {
            &&& 0 <= i < groups.len()
            &&& 0 <= j < processes.len()
            &&& #[trigger] groups[i] == Some(#[trigger] processes[j] as i32)
            &&& processes[j] as i32 > 0
            &&& group == (processes[j] as i32) as u32
        }
}

/// Whether `r` lists the job's groups in ascending order, each once.
pub open spec fn lists_job_groups(
    r: Seq<u32>,
    processes: Seq<u32>,
    groups: Seq<Option<i32>>,
) -> bool {
    &&& forall|a: int, b: int| 0 <= a < b < r.len() ==> r[a] < r[b]
    &&& forall|g: u32| #[trigger] r.contains(g) == is_job_group(processes, groups, g)
}

/// Puts a number into an ascending list, unless it is there.
fn insert_ascending(list: &mut Vec<u32>, n: u32)
    requires
        forall|a: int, b: int| 0 <= a < b < old(list)@.len() ==> old(list)@[a] < old(list)@[b],
    ensures
        forall|a: int, b: int|
            0 <= a < b < final(list)@.len() ==> final(list)@[a] < final(list)@[b],
        forall|g: u32| #[trigger]
            final(list)@.contains(g) == (old(list)@.contains(g) || g == n),
{
    let mut at: usize = 0;
    while at < list.len() && list[at] < n
        invariant
            at <= list@.len(),
            list@ == old(list)@,
            forall|j: int| 0 <= j < at ==> list@[j] < n,
        decreases list.len() - at,
    {
        at += 1;
    }
    let ghost before = list@;
    if at < list.len() && list[at] == n {
        assert(before[at as int] == n);
        return;
    }
    list.insert(at, n);
    proof {
        let after = list@;
        assert forall|g: u32| #[trigger] after.contains(g) == (before.contains(g) || g == n) by {
            if after.contains(g) {
                let i = after.index_of(g);
                if i < at {
                    assert(before[i] == g);
                } else if i > at {
                    assert(before[i - 1] == g);
                }
            }
            if before.contains(g) {
                let i = before.index_of(g);
                if i < at {
                    assert(after[i] == g);
                } else {
                    assert(after[i + 1] == g);
                }
            }
            assert(after[at as int] == n);
        }
    }
}

/// Whether a process group is led by one of the processes.
fn is_led_by(processes: &Vec<u32>, group: i32) -> (r: bool)
    ensures
        r == exists|j: int| 0 <= j < processes@.len() && #[trigger] processes@[j] as i32 == group,
{
    let mut j: usize = 0;
    while j < processes.len()
        invariant
            j <= processes@.len(),
            forall|k: int| 0 <= k < j ==> #[trigger] processes@[k] as i32 != group,
        decreases processes.len() - j,
    {
        if processes[j] as i32 == group {
            return true;
        }
        j += 1;
    }
    false
}

/// The groups that belong to the job: those, among the groups of its processes, that one of its
/// processes leads. `groups` gives for each process its group, where the system told it.
pub fn groups_among(processes: &Vec<u32>, groups: &Vec<Option<i32>>) -> (r: Vec<u32>)
    ensures
        lists_job_groups(r@, processes@, groups@),
{
    let mut r: Vec<u32> = Vec::new();
    let mut i: usize = 0;
    proof {
        assert forall|g: u32| !is_job_group(processes@, groups@.take(0), g) by {}
    }
    while i < groups.len()
        invariant
            i <= groups@.len(),
            lists_job_groups(r@, processes@, groups@.take(i as int)),
        decreases groups.len() - i,
    {
        let ghost before = r@;
        let ghost seen = groups@.take(i as int);
        let ghost more = groups@.take(i + 1);
        let ghost mut added: Option<u32> = None;
        if let Some(group) = groups[i] {
            if group > 0 && is_led_by(processes, group) {
                insert_ascending(&mut r, group as u32);
                proof {
                    added = Some(group as u32);
                }
            }
        }
        proof {
            assert forall|g: u32| #[trigger] r@.contains(g) == is_job_group(
                processes@,
                more,
                g,
            ) by {
                assert(r@.contains(g) == (before.contains(g) || added == Some(g)));
                assert(before.contains(g) == is_job_group(processes@, seen, g));
                if is_job_group(processes@, seen, g) {
                    let (a, b) = choose|a: int, b: int|
                        {
                            &&& 0 <= a < seen.len()
                            &&& 0 <= b < processes@.len()
                            &&& #[trigger] seen[a] == Some(#[trigger] processes@[b] as i32)
                            &&& processes@[b] as i32 > 0
                            &&& g == (processes@[b] as i32) as u32
                        };
                    assert(more[a] == seen[a]);
                }
                if is_job_group(processes@, more, g) {
                    let (a, b) = choose|a: int, b: int|
                        {
                            &&& 0 <= a < more.len()
                            &&& 0 <= b < processes@.len()
                            &&& #[trigger] more[a] == Some(#[trigger] processes@[b] as i32)
                            &&& processes@[b] as i32 > 0
                            &&& g == (processes@[b] as i32) as u32
                        };
                    if a < i {
                        assert(seen[a] == more[a]);
                    }
                }
                if added == Some(g) {
                    let group = groups@[i as int]->0;
                    let b = choose|b: int|
                        0 <= b < processes@.len() && #[trigger] processes@[b] as i32 == group;
                    assert(more[i as int] == Some(processes@[b] as i32));
                }
            }
        }
        i += 1;
    }
    proof {
        assert(groups@.take(groups@.len() as int) =~= groups@);
    }
    r
}

/// Whether there is one reply for each process, in their order.
pub open spec fn replies_on(replies: Seq<GroupReply>, processes: Seq<u32>) -> bool {
    &&& replies.len() == processes.len()
    &&& forall|i: int| 0 <= i < replies.len() ==> (#[trigger] replies[i]).of() == processes[i]
}

/// What a list of replies tells.
pub open spec fn groups_told(replies: Seq<GroupReply>) -> Seq<Option<i32>> {
    replies.map_values(|x: GroupReply| x.tells())
}

/// Asks for the groups of processes, one after the other.
fn ask_for_groups(processes: &Vec<u32>) -> (r: Vec<GroupReply>)
    ensures
        replies_on(r@, processes@),
{
    let mut r: Vec<GroupReply> = Vec::new();
    let mut i: usize = 0;
    while i < processes.len()
        invariant
            i <= processes@.len(),
            r@.len() == i,
            forall|j: int| 0 <= j < i ==> (#[trigger] r@[j]).of() == processes@[j],
        decreases processes.len() - i,
    {
        r.push(outside::process_group(processes[i]));
        i += 1;
    }
    r
}

/// The groups that belong to the job with the given processes, in ascending order. In which
/// groups the processes are is the system's answer.
pub fn job_process_groups(processes: &Vec<u32>) -> (r: Vec<u32>)
    ensures
        exists|replies: Seq<GroupReply>|
            replies_on(replies, processes@) && lists_job_groups(
                r@,
                processes@,
                #[trigger] groups_told(replies),
            ),
{
    let replies = ask_for_groups(processes);
    let mut groups: Vec<Option<i32>> = Vec::new();
    let mut i: usize = 0;
    while i < processes.len()
        invariant
            i <= processes@.len(),
            replies_on(replies@, processes@),
            groups@ =~= groups_told(replies@).take(i as int),
        decreases processes.len() - i,
    {
        groups.push(replies[i].answer_for(processes[i]));
        i += 1;
    }
    proof {
        assert(groups@ =~= groups_told(replies@));
    }
    groups_among(processes, &groups)
}

// ---------------------------------------------------------------------------
// Cancelling
// ---------------------------------------------------------------------------

/// One step of cancelling a job.
#[derive(Clone, Copy, Debug, PartialEq, Eq, Structural)]
pub enum CancelStep {
    /// Ask the target to end. A negative target is a process group.
    Terminate(i32),
    /// Wait, so that the job can flush its output.
    Pause(u64),
    /// End the target.
    Kill(i32),
}

/// The signal targets: the groups, then the processes.
pub open spec fn signal_targets(groups: Seq<u32>, processes: Seq<u32>) -> Seq<i32> {
    groups.map_values(|g: u32| (-(g as i32)) as i32) + processes.map_values(|p: u32| p as i32)
}

/// The steps of cancelling: every target is asked to end; after a pause every target is ended.
pub open spec fn cancel_steps(groups: Seq<u32>, processes: Seq<u32>) -> Seq<CancelStep> {
    let targets = signal_targets(groups, processes);
    targets.map_values(|t: i32| CancelStep::Terminate(t)).push(CancelStep::Pause(250))
        + targets.map_values(|t: i32| CancelStep::Kill(t))
}

/// The steps of cancelling a job with the given groups and processes.
pub fn cancel_plan(groups: &Vec<u32>, processes: &Vec<u32>) -> (r: Vec<CancelStep>)
    requires
        forall|i: int| 0 <= i < groups@.len() ==> #[trigger] groups@[i] as i32 != i32::MIN,
    ensures
        r@ == cancel_steps(groups@, processes@),
{
    let mut targets: Vec<i32> = Vec::new();
    let mut i: usize = 0;
    while i < groups.len()
        invariant
            i <= groups@.len(),
            forall|i: int| 0 <= i < groups@.len() ==> #[trigger] groups@[i] as i32 != i32::MIN,
            targets@ =~= groups@.take(i as int).map_values(|g: u32| (-(g as i32)) as i32),
        decreases groups.len() - i,
    {
        assert(groups@[i as int] as i32 != i32::MIN);
        targets.push(-(groups[i] as i32));
        i += 1;
    }
    let mut j: usize = 0;
    while j < processes.len()
        invariant
            j <= processes@.len(),
            targets@ =~= groups@.map_values(|g: u32| (-(g as i32)) as i32) + processes@.take(
                j as int,
            ).map_values(|p: u32| p as i32),
        decreases processes.len() - j,
    {
        targets.push(processes[j] as i32);
        j += 1;
    }
    proof {
        assert(targets@ =~= signal_targets(groups@, processes@));
    }
    let mut r: Vec<CancelStep> = Vec::new();
    let mut k: usize = 0;
    while k < targets.len()
        invariant
            k <= targets@.len(),
            r@ =~= targets@.take(k as int).map_values(|t: i32| CancelStep::Terminate(t)),
        decreases targets.len() - k,
    {
        r.push(CancelStep::Terminate(targets[k]));
        k += 1;
    }
    r.push(CancelStep::Pause(250));
    let ghost asked = r@;
    let mut m: usize = 0;
    while m < targets.len()
        invariant
            m <= targets@.len(),
            r@ =~= asked + targets@.take(m as int).map_values(|t: i32| CancelStep::Kill(t)),
        decreases targets.len() - m,
    {
        r.push(CancelStep::Kill(targets[m]));
        m += 1;
    }
    proof {
        assert(targets@.take(targets@.len() as int) =~= targets@);
        assert(r@ =~= cancel_steps(groups@, processes@));
    }
    r
}

/// The steps of cancelling the job with the given processes. In which groups they are is the
/// system's answer.
pub fn plan_cancellation(processes: &Vec<u32>) -> (r: Vec<CancelStep>)
    ensures
        exists|replies: Seq<GroupReply>, led: Seq<u32>|
            {
                &&& replies_on(replies, processes@)
                &&& #[trigger] lists_job_groups(led, processes@, groups_told(replies))
                &&& r@ == cancel_steps(led, processes@)
            },
{
    let led = job_process_groups(processes);
    proof {
        let replies = choose|replies: Seq<GroupReply>|
            replies_on(replies, processes@) && lists_job_groups(
                led@,
                processes@,
                #[trigger] groups_told(replies),
            );
        assert forall|i: int| 0 <= i < led@.len() implies #[trigger] led@[i] as i32
            != i32::MIN by {
            assert(led@.contains(led@[i]));
            assert(is_job_group(processes@, groups_told(replies), led@[i]));
        }
    }
    cancel_plan(&led, processes)
}

/// A cancelled job is cancelled as a whole: each of its processes and groups is first asked to end
/// and later ended.
pub proof fn cancelling_reaches_every_target(groups: Seq<u32>, processes: Seq<u32>, target: i32)
    requires
        signal_targets(groups, processes).contains(target),
    ensures
        exists|i: int, j: int|
            {
                &&& 0 <= i < j < cancel_steps(groups, processes).len()
                &&& #[trigger] cancel_steps(groups, processes)[i] == CancelStep::Terminate(target)
                &&& #[trigger] cancel_steps(groups, processes)[j] == CancelStep::Kill(target)
            },
{
    let targets = signal_targets(groups, processes);
    let steps = cancel_steps(groups, processes);
    let i = targets.index_of(target);
    let j = targets.len() + 1 + i;
    assert(steps[i] == CancelStep::Terminate(target));
    assert(steps[j] == CancelStep::Kill(target));
}

} // verus!
