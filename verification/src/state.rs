//! Scheduler state: jobs, their priorities, the allocation tables and the paths they live under.

use crate::table::Table;
use crate::text;
use crate::topology;
use std::collections::VecDeque;
use vstd::prelude::*;

verus! {

// ---------------------------------------------------------------------------
// Priorities
// ---------------------------------------------------------------------------

/// The priority of a job. A higher level is served first.
#[derive(Clone, Copy, Debug, PartialEq, Eq, Structural, PartialOrd, Ord)]
pub enum JobPriority {
    /// Batch sweeps; the default.
    P0,
    /// Batches above normal.
    P1,
    /// Calibration runs.
    P2,
    /// The top level: it may use every core, and alone may use the last one.
    P3,
}

impl JobPriority {
    /// The level as a number.
    pub open spec fn rank(self) -> int {
        match self {
            JobPriority::P0 => 0,
            JobPriority::P1 => 1,
            JobPriority::P2 => 2,
            JobPriority::P3 => 3,
        }
    }

    /// The label under which a priority is stored and shown.
    pub open spec fn label(self) -> Seq<char> {
        match self {
            JobPriority::P0 => "0"@,
            JobPriority::P1 => "1"@,
            JobPriority::P2 => "2"@,
            JobPriority::P3 => "3"@,
        }
    }

    /// The level as a number.
    pub fn level(self) -> (r: u8)
        ensures
            r == self.rank(),
    {
        match self {
            JobPriority::P0 => 0,
            JobPriority::P1 => 1,
            JobPriority::P2 => 2,
            JobPriority::P3 => 3,
        }
    }

    /// The label of the priority.
    pub fn as_str(self) -> (r: &'static str)
        ensures
            r@ == self.label(),
    {
        match self {
            JobPriority::P0 => "0",
            JobPriority::P1 => "1",
            JobPriority::P2 => "2",
            JobPriority::P3 => "3",
        }
    }

    /// The priority that a user asks for by its number. The top level is not on offer.
    pub open spec fn requested(value: Seq<char>) -> Option<JobPriority> {
        if value == "0"@ {
            Some(JobPriority::P0)
        } else if value == "1"@ {
            Some(JobPriority::P1)
        } else if value == "2"@ {
            Some(JobPriority::P2)
        } else {
            None
        }
    }

    /// The priority that a user asks for by its number.
    pub fn from_str(value: &str) -> (r: Result<JobPriority, String>)
        ensures
            match r {
                Ok(p) => JobPriority::requested(value@) == Some(p),
                Err(e) => JobPriority::requested(value@) is None && e@
                    == "priority must be 0, 1, or 2"@,
            },
    {
        if text::same(value, "0") {
            Ok(JobPriority::P0)
        } else if text::same(value, "1") {
            Ok(JobPriority::P1)
        } else if text::same(value, "2") {
            Ok(JobPriority::P2)
        } else {
            Err("priority must be 0, 1, or 2".to_owned())
        }
    }

    /// The priority stored under a label: its number, or one of the words of older state files.
    pub open spec fn stored(label: Seq<char>) -> Option<JobPriority> {
        if label == "0"@ || label == "low"@ || label == "normal"@ {
            Some(JobPriority::P0)
        } else if label == "1"@ {
            Some(JobPriority::P1)
        } else if label == "2"@ || label == "high"@ {
            Some(JobPriority::P2)
        } else if label == "3"@ {
            Some(JobPriority::P3)
        } else {
            None
        }
    }

    /// The priority stored under a label.
    pub fn from_label(label: &str) -> (r: Option<JobPriority>)
        ensures
            r == JobPriority::stored(label@),
    {
        if text::same(label, "0") || text::same(label, "low") || text::same(label, "normal") {
            Some(JobPriority::P0)
        } else if text::same(label, "1") {
            Some(JobPriority::P1)
        } else if text::same(label, "2") || text::same(label, "high") {
            Some(JobPriority::P2)
        } else if text::same(label, "3") {
            Some(JobPriority::P3)
        } else {
            None
        }
    }
}

impl Default for JobPriority {
    fn default() -> (r: Self)
        ensures
            r == JobPriority::P0,
    {
        JobPriority::P0
    }
}

proof fn labels_differ()
    ensures
        "0"@ != "1"@,
        "0"@ != "2"@,
        "0"@ != "3"@,
        "1"@ != "2"@,
        "1"@ != "3"@,
        "2"@ != "3"@,
        "1"@ != "low"@,
        "1"@ != "normal"@,
        "2"@ != "low"@,
        "2"@ != "normal"@,
        "3"@ != "low"@,
        "3"@ != "normal"@,
        "3"@ != "high"@,
{
    reveal_strlit("0");
    reveal_strlit("1");
    reveal_strlit("2");
    reveal_strlit("3");
    reveal_strlit("low");
    reveal_strlit("normal");
    reveal_strlit("high");
    assert("0"@[0] == '0');
    assert("1"@[0] == '1');
    assert("2"@[0] == '2');
    assert("3"@[0] == '3');
    assert("low"@.len() == 3);
    assert("normal"@.len() == 6);
    assert("high"@.len() == 4);
}

/// A user who asks for the label of a level that is on offer gets that level.
pub proof fn requested_label_is_the_priority(p: JobPriority)
    requires
        p != JobPriority::P3,
    ensures
        JobPriority::requested(p.label()) == Some(p),
{
    labels_differ();
}

/// What is stored of a priority is read back as the same priority.
pub proof fn stored_label_is_the_priority(p: JobPriority)
    ensures
        JobPriority::stored(p.label()) == Some(p),
{
    labels_differ();
}

// ---------------------------------------------------------------------------
// Jobs
// ---------------------------------------------------------------------------

/// A point in time: seconds since the Unix epoch, as the bit pattern of a double. The scheduler
/// only carries it along.
#[derive(Clone, Copy, Debug, PartialEq, Eq, Structural)]
pub struct Timestamp {
    pub bits: u64,
}

/// A job that runs, waits or is queued.
#[derive(Debug)]
pub struct JobEntry {
    pub jid: String,
    /// `cfd` for physical cores, `py` for logical CPUs.
    pub job_type: String,
    pub need: u64,
    pub pid: Option<u32>,
    pub submit: Option<Timestamp>,
    pub start: Option<Timestamp>,
    pub cmd: Option<String>,
    pub output: Option<String>,
    pub cores: Option<Vec<u8>>,
    pub cpus: Option<Vec<u8>>,
    pub priority: JobPriority,
}

/// What a job entry holds.
#[verifier::ext_equal]
pub struct JobView {
    pub jid: Seq<char>,
    pub job_type: Seq<char>,
    pub need: u64,
    pub pid: Option<u32>,
    pub submit: Option<Timestamp>,
    pub start: Option<Timestamp>,
    pub cmd: Option<Seq<char>>,
    pub output: Option<Seq<char>>,
    pub cores: Option<Seq<u8>>,
    pub cpus: Option<Seq<u8>>,
    pub priority: JobPriority,
}

/// The text of an optional string.
pub open spec fn text_of(s: Option<String>) -> Option<Seq<char>> {
    match s {
        Some(x) => Some(x@),
        None => None,
    }
}

/// The numbers of an optional list.
pub open spec fn list_of(v: Option<Vec<u8>>) -> Option<Seq<u8>> {
    match v {
        Some(x) => Some(x@),
        None => None,
    }
}

impl View for JobEntry {
    type V = JobView;

    open spec fn view(&self) -> JobView {
        JobView {
            jid: self.jid@,
            job_type: self.job_type@,
            need: self.need,
            pid: self.pid,
            submit: self.submit,
            start: self.start,
            cmd: text_of(self.cmd),
            output: text_of(self.output),
            cores: list_of(self.cores),
            cpus: list_of(self.cpus),
            priority: self.priority,
        }
    }
}

/// A copy of a list of numbers.
pub fn copy_numbers(v: &Vec<u8>) -> (r: Vec<u8>)
    ensures
        r@ == v@,
{
    let r = v.clone();
    proof {
        assert(r@ =~= v@);
    }
    r
}

/// The text of an optional string; empty where there is none.
pub open spec fn text_or_empty(s: Option<Seq<char>>) -> Seq<char> {
    match s {
        Some(x) => x,
        None => Seq::empty(),
    }
}

/// A copy of an optional string's text; empty where there is none.
pub fn copy_text_or_empty(s: &Option<String>) -> (r: String)
    ensures
        r@ == text_or_empty(text_of(*s)),
{
    match s {
        Some(x) => x.clone(),
        None => String::new(),
    }
}

// ---------------------------------------------------------------------------
// State
// ---------------------------------------------------------------------------

/// The scheduler's state.
#[derive(Debug)]
pub struct CoreschedState {
    /// By physical core number: whether the whole core is allocated.
    pub cfd: Table<bool>,
    /// By logical CPU number: a value where the CPU is in use.
    pub cpus: Table<Option<bool>>,
    /// Running jobs by job ID.
    pub pids: Table<JobEntry>,
    /// Jobs that wait for an allocation, by job ID.
    pub pending: Table<JobEntry>,
    /// The durable queue.
    pub queued: VecDeque<JobEntry>,
    /// The physical cores that are reserved: closed to P0 and P1, preferred by P2.
    pub reserved_physical_cores: Vec<u8>,
    /// The number of the next job ID.
    pub next_jid: u64,
}

/// What the state holds.
#[verifier::ext_equal]
pub struct StateView {
    pub cfd: Map<Seq<char>, bool>,
    pub cpus: Map<Seq<char>, Option<bool>>,
    pub pids: Map<Seq<char>, JobView>,
    pub pending: Map<Seq<char>, JobView>,
    pub queued: Seq<JobView>,
    pub reserved: Seq<u8>,
    pub next_jid: u64,
}

/// The views of a list of jobs.
pub open spec fn job_views(jobs: Seq<JobEntry>) -> Seq<JobView> {
    jobs.map_values(|j: JobEntry| j@)
}

impl View for CoreschedState {
    type V = StateView;

    open spec fn view(&self) -> StateView {
        StateView {
            cfd: self.cfd@,
            cpus: self.cpus@,
            pids: self.pids@,
            pending: self.pending@,
            queued: job_views(self.queued@),
            reserved: self.reserved_physical_cores@,
            next_jid: self.next_jid,
        }
    }
}

/// The key of a core or CPU number in the tables.
pub open spec fn key(n: u8) -> Seq<char> {
    text::decimal(n as nat)
}

/// The keys of a list of core or CPU numbers.
pub open spec fn keys_of(list: Seq<u8>) -> Set<Seq<char>> {
    Set::new(|k: Seq<char>| exists|i: int| 0 <= i < list.len() && k == key(#[trigger] list[i]))
}

/// `m` with `v` under each of the keys `ks`.
pub open spec fn overwrite<V>(m: Map<Seq<char>, V>, ks: Set<Seq<char>>, v: V) -> Map<
    Seq<char>,
    V,
> {
    Map::new(
        |k: Seq<char>| m.contains_key(k) || ks.contains(k),
        |k: Seq<char>|
            if ks.contains(k) {
                v
            } else {
                m[k]
            },
    )
}

/// `m` with `v` under those of the keys `ks` that it lacks.
pub open spec fn fill<V>(m: Map<Seq<char>, V>, ks: Set<Seq<char>>, v: V) -> Map<Seq<char>, V> {
    Map::new(
        |k: Seq<char>| m.contains_key(k) || ks.contains(k),
        |k: Seq<char>|
            if m.contains_key(k) {
                m[k]
            } else {
                v
            },
    )
}

/// `list` without numbers that name no core and without repetitions.
pub open spec fn normalized(list: Seq<u8>) -> Seq<u8>
    decreases list.len(),
{
    if list.len() == 0 {
        Seq::empty()
    } else {
        let front = normalized(list.drop_last());
        let core = list.last();
        if core < topology::core_count() && !front.contains(core) {
            front.push(core)
        } else {
            front
        }
    }
}

/// The state before any job: everything free, the default reservation.
pub open spec fn fresh_state() -> StateView {
    StateView {
        cfd: overwrite(Map::empty(), keys_of(topology::first_numbers(topology::core_count())), false),
        cpus: overwrite(Map::empty(), keys_of(topology::first_numbers(topology::cpu_count())), None),
        pids: Map::empty(),
        pending: Map::empty(),
        queued: Seq::empty(),
        reserved: topology::default_reserved(),
        next_jid: 1,
    }
}

/// `st` with tables that cover the topology and a normalized reservation.
pub open spec fn migrated(st: StateView) -> StateView {
    StateView {
        cfd: fill(st.cfd, keys_of(topology::first_numbers(topology::core_count())), false),
        cpus: fill(st.cpus, keys_of(topology::first_numbers(topology::cpu_count())), None),
        reserved: normalized(st.reserved),
        ..st
    }
}

/// The keys of a list with one more number.
pub proof fn keys_of_push(list: Seq<u8>, n: u8)
    ensures
        keys_of(list.push(n)) == keys_of(list).insert(key(n)),
{
    let longer = list.push(n);
    assert forall|k: Seq<char>| keys_of(longer).contains(k) implies keys_of(list).insert(
        key(n),
    ).contains(k) by {
        let i = choose|i: int| 0 <= i < longer.len() && k == key(#[trigger] longer[i]);
        if i < list.len() {
            assert(longer[i] == list[i]);
        }
    }
    assert forall|k: Seq<char>| keys_of(list).insert(key(n)).contains(k) implies keys_of(
        longer,
    ).contains(k) by {
        if k == key(n) {
            assert(longer[list.len() as int] == n);
        } else {
            let i = choose|i: int| 0 <= i < list.len() && k == key(#[trigger] list[i]);
            assert(longer[i] == list[i]);
        }
    }
    assert(keys_of(longer) =~= keys_of(list).insert(key(n)));
}

/// Different numbers have different keys.
pub proof fn keys_are_distinct(a: u8, b: u8)
    ensures
        key(a) == key(b) ==> a == b,
{
    text::decimal_is_injective(a as nat, b as nat);
}

/// A number's key is among the keys of a list exactly where the number is in the list.
pub proof fn key_is_in_keys(list: Seq<u8>, n: u8)
    ensures
        keys_of(list).contains(key(n)) == list.contains(n),
{
    if keys_of(list).contains(key(n)) {
        let i = choose|i: int| 0 <= i < list.len() && key(n) == key(#[trigger] list[i]);
        keys_are_distinct(n, list[i]);
    }
    if list.contains(n) {
        let i = list.index_of(n);
        assert(list[i] == n);
    }
}

/// What normalizing keeps: each core that exists, once.
pub proof fn normalized_cores(list: Seq<u8>)
    ensures
        normalized(list).no_duplicates(),
        forall|c: u8| #[trigger]
            normalized(list).contains(c) == (list.contains(c) && c < topology::core_count()),
        normalized(list).len() <= topology::core_count(),
    decreases list.len(),
{
    if list.len() > 0 {
        let front = list.drop_last();
        normalized_cores(front);
        let core = list.last();
        let r = normalized(list);
        assert forall|c: u8| #[trigger] r.contains(c) == (list.contains(c) && c
            < topology::core_count()) by {
            if r.contains(c) {
                let i = r.index_of(c);
                if i < normalized(front).len() {
                    assert(normalized(front)[i] == c);
                    assert(normalized(front).contains(c));
                    let j = front.index_of(c);
                    assert(list[j] == c);
                } else {
                    assert(list[list.len() - 1] == c);
                }
            }
            if list.contains(c) && c < topology::core_count() {
                let j = list.index_of(c);
                if j < front.len() {
                    assert(front[j] == c);
                    assert(normalized(front).contains(c));
                    let i = normalized(front).index_of(c);
                    assert(r[i] == c);
                } else {
                    assert(c == core);
                    if normalized(front).contains(c) {
                        let i = normalized(front).index_of(c);
                        assert(r[i] == c);
                    } else {
                        assert(r[r.len() - 1] == c);
                    }
                }
            }
        }
    }
    let r = normalized(list);
    let cores = topology::first_numbers(topology::core_count());
    r.unique_seq_to_set();
    cores.unique_seq_to_set();
    assert forall|c: u8| r.to_set().contains(c) implies cores.to_set().contains(c) by {
        assert(r.contains(c));
        assert(cores[c as int] == c);
    }
    vstd::set_lib::lemma_len_subset(r.to_set(), cores.to_set());
}

/// A list of existing cores without repetitions is not changed by normalizing.
pub proof fn normalizing_keeps_normal_lists(list: Seq<u8>)
    requires
        list.no_duplicates(),
        forall|i: int| 0 <= i < list.len() ==> #[trigger] list[i] < topology::core_count(),
    ensures
        normalized(list) == list,
    decreases list.len(),
{
    if list.len() > 0 {
        let front = list.drop_last();
        normalizing_keeps_normal_lists(front);
        assert(list =~= front.push(list.last()));
        if front.contains(list.last()) {
            let i = front.index_of(list.last());
            assert(list[i] == list[list.len() - 1]);
        }
    }
}

/// Normalizing twice is normalizing once.
pub proof fn normalizing_is_idempotent(list: Seq<u8>)
    ensures
        normalized(normalized(list)) == normalized(list),
{
    normalized_cores(list);
    let r = normalized(list);
    assert forall|i: int| 0 <= i < r.len() implies #[trigger] r[i] < topology::core_count() by {
        assert(r.contains(r[i]));
    }
    normalizing_keeps_normal_lists(r);
}

/// Migrating a migrated state changes nothing.
pub proof fn migrating_is_idempotent(st: StateView)
    ensures
        migrated(migrated(st)) == migrated(st),
{
    normalizing_is_idempotent(st.reserved);
    assert(migrated(migrated(st)).cfd =~= migrated(st).cfd);
    assert(migrated(migrated(st)).cpus =~= migrated(st).cpus);
}

/// Migrating keeps every entry that the tables hold.
pub proof fn migrating_keeps_entries(st: StateView, k: Seq<char>)
    ensures
        st.cfd.contains_key(k) ==> migrated(st).cfd.contains_key(k) && migrated(st).cfd[k]
            == st.cfd[k],
        st.cpus.contains_key(k) ==> migrated(st).cpus.contains_key(k) && migrated(st).cpus[k]
            == st.cpus[k],
        migrated(st).pids == st.pids,
        migrated(st).pending == st.pending,
        migrated(st).queued == st.queued,
        migrated(st).next_jid == st.next_jid,
{
}

/// The fresh state needs no migration.
pub proof fn fresh_state_is_migrated()
    ensures
        migrated(fresh_state()) == fresh_state(),
{
    topology::default_reservation_is_the_last_two_cores();
    normalizing_keeps_normal_lists(topology::default_reserved());
    assert(migrated(fresh_state()).cfd =~= fresh_state().cfd);
    assert(migrated(fresh_state()).cpus =~= fresh_state().cpus);
}

/// The key of a core or CPU number.
pub fn key_string(n: u8) -> (r: String)
    ensures
        r@ == key(n),
{
    text::decimal_string(n as u64)
}

/// The reservation that holds where none was ever configured.
pub fn default_reserved_physical_cores() -> (r: Vec<u8>)
    ensures
        r@ == topology::default_reserved(),
{
    topology::default_reserved_cores()
}

/// Whether a list holds a number.
pub fn holds_number(list: &Vec<u8>, n: u8) -> (r: bool)
    ensures
        r == list@.contains(n),
{
    let mut i: usize = 0;
    while i < list.len()
        invariant
            i <= list@.len(),
            forall|j: int| 0 <= j < i ==> list@[j] != n,
        decreases list.len() - i,
    {
        if list[i] == n {
            return true;
        }
        i += 1;
    }
    false
}

/// Drops numbers that name no core, and repetitions.
pub fn normalize_reserved_physical_cores(cores: &Vec<u8>) -> (r: Vec<u8>)
    ensures
        r@ == normalized(cores@),
{
    let max_core: u8 = topology::num_physical_cores() as u8;
    let mut r: Vec<u8> = Vec::new();
    let mut i: usize = 0;
    while i < cores.len()
        invariant
            i <= cores@.len(),
            max_core == topology::core_count(),
            r@ == normalized(cores@.take(i as int)),
        decreases cores.len() - i,
    {
        let core: u8 = cores[i];
        proof {
            assert(cores@.take(i + 1).drop_last() =~= cores@.take(i as int));
        }
        if core < max_core && !holds_number(&r, core) {
            r.push(core);
        }
        i += 1;
    }
    proof {
        assert(cores@.take(cores@.len() as int) =~= cores@);
    }
    r
}

/// Puts a value under the keys `0..n` of a table.
fn fill_table<V: View + Copy>(table: &mut Table<V>, n: u8, value: V)
    ensures
        final(table)@ == fill(old(table)@, keys_of(topology::first_numbers(n as nat)), value@),
{
    let mut i: u8 = 0;
    proof {
        assert(fill(old(table)@, keys_of(topology::first_numbers(0)), value@) =~= old(table)@);
    }
    while i < n
        invariant
            i <= n,
            table@ == fill(old(table)@, keys_of(topology::first_numbers(i as nat)), value@),
        decreases n - i,
    {
        let k = key_string(i);
        let ghost before = table@;
        if !table.contains_key(k.as_str()) {
            table.insert(k, value);
        }
        proof {
            let list = topology::first_numbers(i as nat);
            assert(topology::first_numbers((i + 1) as nat) =~= list.push(i));
            keys_of_push(list, i);
            assert(table@ =~= fill(
                old(table)@,
                keys_of(topology::first_numbers((i + 1) as nat)),
                value@,
            ));
        }
        i += 1;
    }
}

impl Default for CoreschedState {
    fn default() -> (r: Self)
        ensures
            r@ == fresh_state(),
    {
        let mut cfd: Table<bool> = Table::new();
        fill_table(&mut cfd, topology::num_physical_cores() as u8, false);
        let mut cpus: Table<Option<bool>> = Table::new();
        fill_table(&mut cpus, topology::num_logical_cpus() as u8, None);
        let r = CoreschedState {
            cfd,
            cpus,
            pids: Table::new(),
            pending: Table::new(),
            queued: VecDeque::new(),
            reserved_physical_cores: default_reserved_physical_cores(),
            next_jid: 1,
        };
        proof {
            assert(r@.cfd =~= fresh_state().cfd);
            assert(r@.cpus =~= fresh_state().cpus);
            assert(r@.queued =~= fresh_state().queued);
        }
        r
    }
}

impl CoreschedState {
    /// Fills gaps in the tables, so that they cover the topology, and normalizes the reservation.
    pub fn migrate(&mut self)
        ensures
            final(self)@ == migrated(old(self)@),
    {
        fill_table(&mut self.cfd, topology::num_physical_cores() as u8, false);
        fill_table(&mut self.cpus, topology::num_logical_cpus() as u8, None);
        self.reserved_physical_cores = normalize_reserved_physical_cores(
            &self.reserved_physical_cores,
        );
    }

    /// The reserved cores.
    pub fn reserved_cores(&self) -> (r: Vec<u8>)
        ensures
            r@ == normalized(self@.reserved),
    {
        normalize_reserved_physical_cores(&self.reserved_physical_cores)
    }

    /// Replaces the reservation.
    pub fn set_reserved_cores(&mut self, cores: Vec<u8>)
        ensures
            final(self)@ == (StateView { reserved: normalized(cores@), ..old(self)@ }),
    {
        self.reserved_physical_cores = normalize_reserved_physical_cores(&cores);
    }
}

// ---------------------------------------------------------------------------
// The reservation as it is stored
// ---------------------------------------------------------------------------

/// A stored reservation: nothing, one core, or a list of cores. A number that is no unsigned
/// integer is `None`.
#[derive(Debug)]
pub enum ReservedValue {
    Null,
    Number(Option<u64>),
    List(Vec<Option<u64>>),
    Other,
}

/// What is wrong with a stored reservation.
#[derive(Clone, Copy, Debug, PartialEq, Eq, Structural)]
pub enum ReservedCoresError {
    /// The one core is no small unsigned integer.
    CoreNotInteger,
    /// A core in the list is no small unsigned integer.
    CoresNotIntegers,
    /// The value is neither a number nor a list.
    WrongShape,
}

impl ReservedCoresError {
    /// The error in words.
    pub fn message(self) -> (r: &'static str)
        ensures
            r@ == match self {
                ReservedCoresError::CoreNotInteger => "reserved physical core must be an integer"@,
                ReservedCoresError::CoresNotIntegers => "reserved physical cores must be integers"@,
                ReservedCoresError::WrongShape =>
                    "reserved physical cores must be an integer or an array of integers"@,
            },
    {
        match self {
            ReservedCoresError::CoreNotInteger => "reserved physical core must be an integer",
            ReservedCoresError::CoresNotIntegers => "reserved physical cores must be integers",
            ReservedCoresError::WrongShape =>
                "reserved physical cores must be an integer or an array of integers",
        }
    }
}

/// Whether a number fits a core number.
pub open spec fn is_small(value: Option<u64>) -> bool {
    value is Some && value->0 <= u8::MAX
}

/// The numbers of a list, as core numbers.
pub open spec fn small_numbers(values: Seq<Option<u64>>) -> Seq<u8> {
    values.map_values(|v: Option<u64>| (v->0) as u8)
}

/// The reservation that a stored value gives.
pub open spec fn reservation(value: ReservedValue) -> Result<Seq<u8>, ReservedCoresError> {
    match value {
        ReservedValue::Null => Ok(topology::default_reserved()),
        ReservedValue::Number(n) => if is_small(n) {
            Ok(normalized(seq![(n->0) as u8]))
        } else {
            Err(ReservedCoresError::CoreNotInteger)
        },
        ReservedValue::List(values) => if forall|i: int|
            0 <= i < values@.len() ==> is_small(#[trigger] values@[i]) {
            Ok(normalized(small_numbers(values@)))
        } else {
            Err(ReservedCoresError::CoresNotIntegers)
        },
        ReservedValue::Other => Err(ReservedCoresError::WrongShape),
    }
}

/// The reservation that a stored value gives: nothing stands for the default, one core for a list
/// of one; an empty list is an explicit clearing.
pub fn read_reserved_cores(value: &ReservedValue) -> (r: Result<Vec<u8>, ReservedCoresError>)
    ensures
        match r {
            Ok(cores) => reservation(*value) == Ok::<Seq<u8>, ReservedCoresError>(cores@),
            Err(e) => reservation(*value) == Err::<Seq<u8>, ReservedCoresError>(e),
        },
{
    match value {
        ReservedValue::Null => Ok(default_reserved_physical_cores()),
        ReservedValue::Number(n) => {
            match n {
                Some(core) if *core <= 255 => {
                    let mut list: Vec<u8> = Vec::new();
                    list.push(*core as u8);
                    proof {
                        assert(list@ =~= seq![*core as u8]);
                    }
                    Ok(normalize_reserved_physical_cores(&list))
                },
                _ => Err(ReservedCoresError::CoreNotInteger),
            }
        },
        ReservedValue::List(values) => {
            let mut list: Vec<u8> = Vec::new();
            let mut i: usize = 0;
            while i < values.len()
                invariant
                    i <= values@.len(),
                    *value == ReservedValue::List(*values),
                    forall|j: int| 0 <= j < i ==> is_small(#[trigger] values@[j]),
                    list@ == small_numbers(values@.take(i as int)),
                decreases values.len() - i,
            {
                match values[i] {
                    Some(core) if core <= 255 => {
                        list.push(core as u8);
                        proof {
                            assert(list@ =~= small_numbers(values@.take(i + 1)));
                        }
                    },
                    _ => {
                        proof {
                            assert(!is_small(values@[i as int]));
                        }
                        return Err(ReservedCoresError::CoresNotIntegers);
                    },
                }
                i += 1;
            }
            proof {
                assert(values@.take(values@.len() as int) =~= values@);
            }
            Ok(normalize_reserved_physical_cores(&list))
        },
        ReservedValue::Other => Err(ReservedCoresError::WrongShape),
    }
}

} // verus!
