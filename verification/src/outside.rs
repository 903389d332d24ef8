//! Calls into outside crates, with what the library relies on of them.

use crate::state;
use crate::text;
use nix::sched::CpuSet;
use vstd::prelude::*;

verus! {

/// What `serde_json::from_str` reads from a text as a list of strings; nothing where the text is
/// no JSON array of strings.
pub uninterp spec fn json_strings(text: Seq<char>) -> Option<Seq<Seq<char>>>;

/// What `serde_json::to_string` writes for a list of strings.
pub uninterp spec fn json_text(items: Seq<Seq<char>>) -> Seq<char>;

/// Calls `serde_json::from_str` for a list of strings. Claimed: the result depends on the text
/// alone.
#[verifier::external_body]
pub(crate) fn parse_json_strings(text: &str) -> (r: Option<Vec<String>>)
    ensures
        match r {
            Some(items) => json_strings(text@) == Some(text::string_views(items@)),
            None => json_strings(text@) is None,
        },
{
    serde_json::from_str::<Vec<String>>(text).ok()
}

/// Calls `serde_json::to_string` for a list of strings. Claimed: it succeeds, the result depends
/// on the list alone, and `serde_json::from_str` reads the list back from it.
#[verifier::external_body]
pub(crate) fn write_json_strings(items: &Vec<String>) -> (r: Option<String>)
    ensures
        state::text_of(r) == Some(json_text(text::string_views(items@))),
        r matches Some(text) ==> json_strings(text@) == Some(text::string_views(items@)),
{
    serde_json::to_string(items).ok()
}

/// What a probe of a process tells.
#[derive(Clone, Copy, Debug, PartialEq, Eq, Structural)]
pub enum Liveness {
    /// The process exists and may be signalled.
    Alive,
    /// The process exists but may not be signalled.
    Denied,
    /// There is no such process.
    Gone,
    /// It cannot be told.
    Unknown,
}

/// The answer to a probe, with the process that was probed.
#[derive(Debug)]
pub struct Probe {
    pid: u32,
    liveness: Liveness,
}

impl Probe {
    /// The process that was probed.
    pub closed spec fn of(&self) -> u32 {
        self.pid
    }

    /// What the probe tells.
    pub closed spec fn tells(&self) -> Liveness {
        self.liveness
    }

    /// What the probe tells of the process that was probed.
    pub fn answer_for(&self, pid: u32) -> (r: Liveness)
        requires
            self.of() == pid,
        ensures
            r == self.tells(),
    {
        self.liveness
    }
}

/// Calls `nix::sys::signal::kill` without a signal, which only checks the target. Claimed: the
/// answer is one on the given process. What it is depends on the processes of the machine.
#[verifier::external_body]
pub(crate) fn probe_process(pid: u32) -> (r: Probe)
    ensures
        r.of() == pid,
{
    let liveness = match nix::sys::signal::kill(nix::unistd::Pid::from_raw(pid as i32), None) {
        Ok(()) => Liveness::Alive,
        Err(nix::errno::Errno::EPERM) => Liveness::Denied,
        Err(nix::errno::Errno::ESRCH) => Liveness::Gone,
        Err(_) => Liveness::Unknown,
    };
    Probe { pid, liveness }
}

/// The group of a process, where the system told it, with the process that was asked for.
#[derive(Debug)]
pub struct GroupReply {
    pid: u32,
    group: Option<i32>,
}

impl GroupReply {
    /// The process that was asked for.
    pub closed spec fn of(&self) -> u32 {
        self.pid
    }

    /// What the system told.
    pub closed spec fn tells(&self) -> Option<i32> {
        self.group
    }

    /// What the system told of the process that was asked for.
    pub fn answer_for(&self, pid: u32) -> (r: Option<i32>)
        requires
            self.of() == pid,
        ensures
            r == self.tells(),
    {
        self.group
    }
}

/// Calls `nix::unistd::getpgid`; nothing where it fails. Claimed: the reply is one on the given
/// process. What it is depends on the processes of the machine.
#[verifier::external_body]
pub(crate) fn process_group(pid: u32) -> (r: GroupReply)
    ensures
        r.of() == pid,
{
    let group = nix::unistd::getpgid(Some(nix::unistd::Pid::from_raw(pid as i32)));
    GroupReply { pid, group: group.ok().map(|g| g.as_raw()) }
}

/// Declares the set type of `nix`.
#[verifier::external_type_specification]
#[verifier::external_body]
pub struct ExCpuSet(nix::sched::CpuSet);

/// The CPUs in a set.
pub uninterp spec fn cpu_set_members(set: CpuSet) -> Set<nat>;

/// Calls `CpuSet::new`. Claimed: the set is empty.
#[verifier::external_body]
pub(crate) fn new_cpu_set() -> (r: CpuSet)
    ensures
        cpu_set_members(r) == Set::<nat>::empty(),
{
    CpuSet::new()
}

/// Calls `CpuSet::set`. Claimed: it adds the CPU where its number is below 1024, the size of a
/// Linux CPU set, and otherwise fails and leaves the set as it is.
#[verifier::external_body]
pub(crate) fn add_to_cpu_set(set: &mut CpuSet, cpu: usize) -> (r: Result<(), i32>)
    ensures
        cpu < 1024 ==> r is Ok && cpu_set_members(*final(set)) == cpu_set_members(
            *old(set),
        ).insert(cpu as nat),
        cpu >= 1024 ==> r is Err && *final(set) == *old(set),
{
    set.set(cpu).map_err(|e| e as i32)
}

/// What came of binding the calling thread to CPUs, with the CPUs that it was to be bound to.
pub struct Binding {
    set: CpuSet,
    result: Result<(), i32>,
}

impl Binding {
    /// The CPUs that the thread was to be bound to.
    pub closed spec fn of(&self) -> Set<nat> {
        cpu_set_members(self.set)
    }

    /// What the system told: an error number where the binding failed.
    pub closed spec fn tells(&self) -> Result<(), i32> {
        self.result
    }

    /// What the system told.
    pub fn result(self) -> (r: Result<(), i32>)
        ensures
            r == self.tells(),
    {
        self.result
    }
}

/// Calls `nix::sched::sched_setaffinity` for the calling thread. Claimed: the answer is one on the
/// given set. What it is, an error number where the call fails, depends on the machine.
#[verifier::external_body]
pub(crate) fn bind_current_process(set: CpuSet) -> (r: Binding)
    ensures
        r.of() == cpu_set_members(set),
{
    let result = nix::sched::sched_setaffinity(nix::unistd::Pid::from_raw(0), &set);
    Binding { set, result: result.map_err(|e| e as i32) }
}

} // verus!
