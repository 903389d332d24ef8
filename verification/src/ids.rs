//! Job IDs: `j` and a number of at least four digits.

use crate::state::{CoreschedState, JobEntry, StateView};
use crate::text;
use std::collections::VecDeque;
use vstd::prelude::*;

verus! {

/// The job ID of a number.
pub open spec fn jid_of(n: nat) -> Seq<char> {
    seq!['j'] + text::zero_padded(n, 4)
}

/// The job ID of the `i`-th queued job.
pub open spec fn queued_jid(st: StateView, i: int) -> Seq<char> {
    st.queued[i].jid
}

/// Whether a job ID is in use: by a job of the state, or by an output file that is still there.
pub open spec fn is_taken(st: StateView, existing: Seq<Seq<char>>, jid: Seq<char>) -> bool {
    ||| existing.contains(jid)
    ||| st.pids.contains_key(jid)
    ||| st.pending.contains_key(jid)
    ||| exists|i: int| 0 <= i < st.queued.len() && #[trigger] queued_jid(st, i) == jid
}

/// The number of IDs that can be in use.
pub open spec fn taken_bound(st: StateView, existing: Seq<Seq<char>>) -> nat {
    existing.len() + st.pids.dom().len() + st.pending.dom().len() + st.queued.len()
}

/// The IDs in use.
spec fn taken_set(st: StateView, existing: Seq<Seq<char>>) -> Set<Seq<char>> {
    existing.to_set().union(st.pids.dom()).union(st.pending.dom()).union(
        st.queued.map_values(|j: crate::state::JobView| j.jid).to_set(),
    )
}

proof fn seq_set_len<A>(s: Seq<A>)
    ensures
        s.to_set().finite(),
        s.to_set().len() <= s.len(),
    decreases s.len(),
{
    if s.len() == 0 {
        assert(s.to_set() =~= Set::empty());
    } else {
        let front = s.drop_last();
        seq_set_len(front);
        assert forall|x: A| s.to_set().contains(x) == front.to_set().insert(s.last()).contains(
            x,
        ) by {
            if s.contains(x) {
                let i = s.index_of(x);
                if i < front.len() {
                    assert(front[i] == x);
                }
            }
            if front.contains(x) {
                let i = front.index_of(x);
                assert(s[i] == x);
            }
            assert(s[s.len() - 1] == s.last());
        }
        assert(s.to_set() =~= front.to_set().insert(s.last()));
    }
}

proof fn taken_set_is_small(st: StateView, existing: Seq<Seq<char>>)
    requires
        st.pids.dom().finite(),
        st.pending.dom().finite(),
    ensures
        taken_set(st, existing).finite(),
        taken_set(st, existing).len() <= taken_bound(st, existing),
{
    let queue = st.queued.map_values(|j: crate::state::JobView| j.jid);
    seq_set_len(existing);
    seq_set_len(queue);
    let a = existing.to_set();
    let b = a.union(st.pids.dom());
    let c = b.union(st.pending.dom());
    vstd::set_lib::lemma_len_union(a, st.pids.dom());
    vstd::set_lib::lemma_len_union(b, st.pending.dom());
    vstd::set_lib::lemma_len_union(c, queue.to_set());
}

proof fn taken_is_in_set(st: StateView, existing: Seq<Seq<char>>, jid: Seq<char>)
    requires
        is_taken(st, existing, jid),
    ensures
        taken_set(st, existing).contains(jid),
{
    let queue = st.queued.map_values(|j: crate::state::JobView| j.jid);
    if exists|i: int| 0 <= i < st.queued.len() && #[trigger] queued_jid(st, i) == jid {
        let i = choose|i: int| 0 <= i < st.queued.len() && #[trigger] queued_jid(st, i) == jid;
        assert(queue[i] == jid);
    }
}

proof fn leading_zeros(s: Seq<char>, zeros: nat, t: Seq<char>)
    requires
        s == Seq::new(zeros, |i: int| '0') + t,
    ensures
        text::digits_value(s) == text::digits_value(t),
    decreases t.len(),
{
    if t.len() == 0 {
        all_zeros(zeros);
        assert(s =~= Seq::new(zeros, |i: int| '0'));
    } else {
        assert(s.drop_last() =~= Seq::new(zeros, |i: int| '0') + t.drop_last());
        leading_zeros(s.drop_last(), zeros, t.drop_last());
    }
}

proof fn all_zeros(zeros: nat)
    ensures
        text::digits_value(Seq::new(zeros, |i: int| '0')) == 0,
    decreases zeros,
{
    let s = Seq::new(zeros, |i: int| '0');
    if zeros > 0 {
        all_zeros((zeros - 1) as nat);
        assert(s.drop_last() =~= Seq::new((zeros - 1) as nat, |i: int| '0'));
    }
}

/// A job ID tells its number.
pub proof fn jid_tells_its_number(n: nat)
    ensures
        jid_of(n).len() >= 5,
        text::digits_value(jid_of(n).drop_first()) == n,
{
    let t = text::decimal(n);
    let zeros = text::lacking(t, 4);
    text::decimal_round_trip(n);
    leading_zeros(text::zero_padded(n, 4), zeros, t);
    assert(jid_of(n).drop_first() =~= text::zero_padded(n, 4));
}

/// Different numbers have different job IDs.
pub proof fn jids_differ(a: nat, b: nat)
    requires
        a != b,
    ensures
        jid_of(a) != jid_of(b),
{
    jid_tells_its_number(a);
    jid_tells_its_number(b);
}

/// Where `n` IDs in a row are taken, at least `n` IDs can be in use.
proof fn taken_run_is_bounded(st: StateView, existing: Seq<Seq<char>>, from: nat, to: nat)
    requires
        from <= to,
        st.pids.dom().finite(),
        st.pending.dom().finite(),
        forall|m: nat| from <= m < to ==> is_taken(st, existing, #[trigger] jid_of(m)),
    ensures
        to - from <= taken_bound(st, existing),
{
    let run = Seq::new((to - from) as nat, |i: int| jid_of((from + i) as nat));
    assert forall|i: int, j: int| 0 <= i < run.len() && 0 <= j < run.len() && i != j implies run[i]
        != run[j] by {
        jids_differ((from + i) as nat, (from + j) as nat);
    }
    run.unique_seq_to_set();
    taken_set_is_small(st, existing);
    assert forall|x: Seq<char>| run.to_set().contains(x) implies taken_set(st, existing).contains(
        x,
    ) by {
        let i = run.index_of(x);
        assert(run[i] == jid_of((from + i) as nat));
        taken_is_in_set(st, existing, x);
    }
    vstd::set_lib::lemma_len_subset(run.to_set(), taken_set(st, existing));
}

/// The job ID of a number.
pub fn jid_string(n: u64) -> (r: String)
    ensures
        r@ == jid_of(n as nat),
{
    let mut r: String = String::new();
    r.push('j');
    text::push_zero_padded(&mut r, n, 4);
    proof {
        assert(r@ =~= jid_of(n as nat));
    }
    r
}

fn names_hold(names: &Vec<String>, jid: &String) -> (r: bool)
    ensures
        r == text::string_views(names@).contains(jid@),
{
    let mut i: usize = 0;
    while i < names.len()
        invariant
            i <= names@.len(),
            forall|j: int| 0 <= j < i ==> text::string_views(names@)[j] != jid@,
        decreases names.len() - i,
    {
        if names[i] == *jid {
            proof {
                assert(text::string_views(names@)[i as int] == jid@);
            }
            return true;
        }
        i += 1;
    }
    false
}

/// The position of the first queued job with the given ID.
pub fn queue_position(queue: &VecDeque<JobEntry>, jid: &str) -> (r: Option<usize>)
    ensures
        match r {
            Some(i) => {
                &&& i < queue@.len()
                &&& queue@[i as int].jid@ == jid@
                &&& forall|j: int| 0 <= j < i ==> (#[trigger] queue@[j]).jid@ != jid@
            },
            None => forall|j: int| 0 <= j < queue@.len() ==> (#[trigger] queue@[j]).jid@ != jid@,
        },
{
    let wanted = jid.to_owned();
    let mut i: usize = 0;
    while i < queue.len()
        invariant
            i <= queue@.len(),
            wanted@ == jid@,
            forall|j: int| 0 <= j < i ==> (#[trigger] queue@[j]).jid@ != jid@,
        decreases queue@.len() - i,
    {
        if queue[i].jid == wanted {
            return Some(i);
        }
        i += 1;
    }
    None
}

fn taken(state: &CoreschedState, existing: &Vec<String>, jid: &String) -> (r: bool)
    ensures
        r == is_taken(state@, text::string_views(existing@), jid@),
{
    let in_queue = queue_position(&state.queued, jid.as_str());
    proof {
        match in_queue {
            Some(i) => {
                assert(queued_jid(state@, i as int) == jid@);
            },
            None => {
                assert forall|i: int| 0 <= i < state@.queued.len() implies #[trigger] queued_jid(
                    state@,
                    i,
                ) != jid@ by {
                    assert(state.queued@[i].jid@ != jid@);
                }
            },
        }
    }
    names_hold(existing, jid) || state.pids.contains_key(jid.as_str())
        || state.pending.contains_key(jid.as_str()) || in_queue.is_some()
}

/// Whether the ID of a number can be handed out: the counter has not passed it, it is not in use,
/// and the counter can move past it.
pub open spec fn is_open_number(st: StateView, existing: Seq<Seq<char>>, n: nat) -> bool {
    &&& st.next_jid <= n < u64::MAX
    &&& !is_taken(st, existing, jid_of(n))
}

/// Whether there is an ID to hand out.
pub open spec fn has_room(st: StateView, existing: Seq<Seq<char>>) -> bool {
    exists|n: nat| #[trigger] is_open_number(st, existing, n)
}

/// Whether `jid` is the least free ID of a state, from its counter on, and `next` is the counter
/// just past it.
pub open spec fn is_next_id(
    st: StateView,
    existing: Seq<Seq<char>>,
    jid: Seq<char>,
    next: u64,
) -> bool {
    &&& st.next_jid < next
    &&& jid == jid_of((next - 1) as nat)
    &&& !is_taken(st, existing, jid)
    &&& forall|m: nat|
        st.next_jid <= m < next - 1 ==> is_taken(st, existing, #[trigger] jid_of(m))
}

/// Where the counter and the number of IDs in use stay below the limit together, there is an ID to
/// hand out.
pub proof fn few_ids_leave_room(st: StateView, existing: Seq<Seq<char>>)
    requires
        st.pids.dom().finite(),
        st.pending.dom().finite(),
        st.next_jid + taken_bound(st, existing) < u64::MAX,
    ensures
        has_room(st, existing),
{
    if !has_room(st, existing) {
        let to = st.next_jid as nat + taken_bound(st, existing) + 1;
        assert forall|m: nat| st.next_jid <= m < to implies is_taken(
            st,
            existing,
            #[trigger] jid_of(m),
        ) by {
            assert(!is_open_number(st, existing, m));
        }
        taken_run_is_bounded(st, existing, st.next_jid as nat, to);
    }
}

/// Tells whether there is an ID to hand out.
pub fn room_for_id(state: &CoreschedState, existing: &Vec<String>) -> (r: bool)
    ensures
        r == has_room(state@, text::string_views(existing@)),
{
    let ghost st = state@;
    let ghost names = text::string_views(existing@);
    let mut n: u64 = state.next_jid;
    while n < u64::MAX
        invariant
            state@ == st,
            names == text::string_views(existing@),
            st.next_jid <= n,
            forall|m: nat| st.next_jid <= m < n ==> is_taken(st, names, #[trigger] jid_of(m)),
        decreases u64::MAX - n,
    {
        let jid = jid_string(n);
        if !taken(state, existing, &jid) {
            proof {
                assert(is_open_number(st, names, n as nat));
            }
            return true;
        }
        n += 1;
    }
    proof {
        assert forall|m: nat| !(#[trigger] is_open_number(st, names, m)) by {
            if st.next_jid <= m < n {
                assert(is_taken(st, names, jid_of(m)));
            }
        }
    }
    false
}

/// Hands out the next job ID: the first one, from the state's counter on, that neither a job of
/// the state nor one of the `existing` output files uses. The counter moves past it.
pub fn next_jid(state: &mut CoreschedState, existing: &Vec<String>) -> (r: String)
    requires
        has_room(old(state)@, text::string_views(existing@)),
    ensures
        final(state)@ == (StateView { next_jid: final(state)@.next_jid, ..old(state)@ }),
        is_next_id(
            old(state)@,
            text::string_views(existing@),
            r@,
            final(state)@.next_jid,
        ),
{
    let ghost st = state@;
    let ghost names = text::string_views(existing@);
    let ghost open = choose|n: nat| #[trigger] is_open_number(st, names, n);
    let mut n: u64 = state.next_jid;
    let mut jid = jid_string(n);
    while taken(state, existing, &jid)
        invariant
            state@ == st,
            names == text::string_views(existing@),
            is_open_number(st, names, open),
            st.next_jid <= n <= open,
            jid@ == jid_of(n as nat),
            forall|m: nat| st.next_jid <= m < n ==> is_taken(st, names, #[trigger] jid_of(m)),
        decreases u64::MAX - n,
    {
        n += 1;
        jid = jid_string(n);
    }
    state.next_jid = n + 1;
    jid
}

/// IDs grow: of two IDs handed out one after the other the second has the greater number, so that
/// no ID is handed out twice, whatever happened to the state in between. Where they have the same
/// length, the second sorts after the first.
pub proof fn later_jids_are_greater(
    st: StateView,
    existing: Seq<Seq<char>>,
    first: Seq<char>,
    counter: u64,
    later: StateView,
    existing_later: Seq<Seq<char>>,
    second: Seq<char>,
    counter_later: u64,
)
    requires
        is_next_id(st, existing, first, counter),
        later.next_jid >= counter,
        is_next_id(later, existing_later, second, counter_later),
    ensures
        first != second,
        text::digits_value(first.drop_first()) < text::digits_value(second.drop_first()),
        first.len() == second.len() ==> sorts_before(first, second),
        counter < counter_later,
{
    let a = (counter - 1) as nat;
    let b = (counter_later - 1) as nat;
    jids_differ(a, b);
    jid_tells_its_number(a);
    jid_tells_its_number(b);
    if first.len() == second.len() {
        jids_sort_by_number(a, b);
    }
}

/// Handing out an ID moves the counter by at most one more than the number of IDs in use.
pub proof fn counter_moves_past_the_ids_in_use(
    st: StateView,
    existing: Seq<Seq<char>>,
    jid: Seq<char>,
    next: u64,
)
    requires
        st.pids.dom().finite(),
        st.pending.dom().finite(),
        is_next_id(st, existing, jid, next),
    ensures
        next <= st.next_jid + taken_bound(st, existing) + 1,
{
    taken_run_is_bounded(st, existing, st.next_jid as nat, (next - 1) as nat);
}

/// Only one ID is the next: two answers for the same state are the same.
pub proof fn next_id_is_unique(
    st: StateView,
    existing: Seq<Seq<char>>,
    a: Seq<char>,
    next_a: u64,
    b: Seq<char>,
    next_b: u64,
)
    requires
        is_next_id(st, existing, a, next_a),
        is_next_id(st, existing, b, next_b),
    ensures
        a == b,
        next_a == next_b,
{
    if next_a < next_b {
        assert(is_taken(st, existing, jid_of((next_a - 1) as nat)));
    }
    if next_b < next_a {
        assert(is_taken(st, existing, jid_of((next_b - 1) as nat)));
    }
}

/// Whether `a` comes before `b` in a list of strings sorted by characters.
pub open spec fn sorts_before(a: Seq<char>, b: Seq<char>) -> bool {
    exists|i: int|
        0 <= i < a.len() && i < b.len() && #[trigger] a.take(i) == b.take(i) && a[i] < b[i]
}

proof fn digits_sort_by_value(a: Seq<char>, b: Seq<char>)
    requires
        a.len() == b.len(),
        forall|i: int| 0 <= i < a.len() ==> text::is_digit(#[trigger] a[i]),
        forall|i: int| 0 <= i < b.len() ==> text::is_digit(#[trigger] b[i]),
    ensures
        text::digits_value(a) == text::digits_value(b) ==> a == b,
        text::digits_value(a) < text::digits_value(b) ==> sorts_before(a, b),
    decreases a.len(),
{
    if a.len() == 0 {
        assert(a =~= b);
    } else {
        let fa = a.drop_last();
        let fb = b.drop_last();
        assert(text::is_digit(a[a.len() - 1]) && text::is_digit(b[b.len() - 1]));
        digits_sort_by_value(fa, fb);
        assert(a =~= fa.push(a.last()));
        assert(b =~= fb.push(b.last()));
        if text::digits_value(a) < text::digits_value(b) {
            if text::digits_value(fa) < text::digits_value(fb) {
                let i = choose|i: int|
                    0 <= i < fa.len() && i < fb.len() && #[trigger] fa.take(i) == fb.take(i)
                        && fa[i] < fb[i];
                assert(a.take(i) =~= fa.take(i));
                assert(b.take(i) =~= fb.take(i));
                assert(a[i] < b[i]);
            } else {
                let i = a.len() - 1;
                assert(a.take(i) =~= fa);
                assert(b.take(i) =~= fb);
                assert(a[i] < b[i]);
            }
        }
    }
}

/// IDs of the same length sort by their numbers, so that a later ID sorts after an earlier one.
pub proof fn jids_sort_by_number(a: nat, b: nat)
    requires
        a < b,
        jid_of(a).len() == jid_of(b).len(),
    ensures
        sorts_before(jid_of(a), jid_of(b)),
{
    let da = text::zero_padded(a, 4);
    let db = text::zero_padded(b, 4);
    jid_tells_its_number(a);
    jid_tells_its_number(b);
    text::decimal_round_trip(a);
    text::decimal_round_trip(b);
    assert(jid_of(a).drop_first() =~= da);
    assert(jid_of(b).drop_first() =~= db);
    digits_sort_by_value(da, db);
    let i = choose|i: int|
        0 <= i < da.len() && i < db.len() && #[trigger] da.take(i) == db.take(i) && da[i] < db[i];
    assert(jid_of(a).take(i + 1) =~= seq!['j'] + da.take(i));
    assert(jid_of(b).take(i + 1) =~= seq!['j'] + db.take(i));
    assert(jid_of(a)[i + 1] == da[i]);
    assert(jid_of(b)[i + 1] == db[i]);
}

/// Below ten thousand all IDs have the same length.
pub proof fn small_jids_have_four_digits(n: nat)
    requires
        n < 10000,
    ensures
        jid_of(n).len() == 5,
{
    reveal_with_fuel(text::decimal, 5);
}

} // verus!
