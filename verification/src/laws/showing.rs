//! What the reports show of the state and of the jobs.

use crate::jobs;
use crate::progress;
use crate::report;
use crate::scheduler;
use crate::seqs;
use crate::soundness;
use crate::state;
use crate::state::{JobPriority, JobView, StateView};
use crate::text;
use crate::topology;
use vstd::prelude::*;

verus! {

// ---------------------------------------------------------------------------
// Texts in texts
// ---------------------------------------------------------------------------

/// Whether `part` stands somewhere in `s`.
pub open spec fn shows(s: Seq<char>, part: Seq<char>) -> bool {
    exists|i: int|
        0 <= i <= s.len() - part.len() && #[trigger] s.subrange(i, i + part.len()) == part
}

/// A text shows itself.
pub proof fn shows_itself(s: Seq<char>)
    ensures
        shows(s, s),
{
    assert(s.subrange(0, 0int + s.len()) =~= s);
}

/// A longer text shows what its front shows.
pub broadcast proof fn shows_in_front(a: Seq<char>, b: Seq<char>, part: Seq<char>)
    requires
        shows(a, part),
    ensures
        #[trigger] shows(a + b, part),
{
    let i = choose|i: int|
        0 <= i <= a.len() - part.len() && #[trigger] a.subrange(i, i + part.len()) == part;
    assert((a + b).subrange(i, i + part.len()) =~= a.subrange(i, i + part.len()));
}

/// A longer text shows what its back shows.
pub broadcast proof fn shows_behind(a: Seq<char>, b: Seq<char>, part: Seq<char>)
    requires
        shows(b, part),
    ensures
        #[trigger] shows(a + b, part),
{
    let i = choose|i: int|
        0 <= i <= b.len() - part.len() && #[trigger] b.subrange(i, i + part.len()) == part;
    assert((a + b).subrange(a.len() + i, a.len() + i + part.len()) =~= b.subrange(
        i,
        i + part.len(),
    ));
}

/// A field shows what stands in it.
pub proof fn field_shows_its_text(s: Seq<char>, width: nat)
    ensures
        shows(text::left(s, width), s),
        shows(text::right(s, width), s),
        shows(text::centered(s, width), s),
        text::left(s, width).len() >= width,
        text::right(s, width).len() >= width,
        text::centered(s, width).len() >= width,
        s.len() <= width ==> text::left(s, width).len() == width && text::right(s, width).len()
            == width && text::centered(s, width).len() == width,
        text::left(s, width).take(s.len() as int) == s,
        text::right(s, width).skip(text::right(s, width).len() - s.len()) == s,
        s.len() <= width ==> text::centered(s, width).subrange(
            (width - s.len()) / 2,
            (width - s.len()) / 2 + s.len(),
        ) == s,
        forall|i: int|
            s.len() <= i < text::left(s, width).len() ==> #[trigger] text::left(s, width)[i] == ' ',
        forall|i: int|
            0 <= i < text::right(s, width).len() - s.len() ==> #[trigger] text::right(s, width)[i]
                == ' ',
{
    let gap = text::lacking(s, width);
    let l = text::left(s, width);
    let r = text::right(s, width);
    let c = text::centered(s, width);
    assert(l.subrange(0, 0int + s.len()) =~= s);
    assert(l.take(s.len() as int) =~= s);
    assert(r.subrange(gap as int, gap as int + s.len()) =~= s);
    assert(r.skip(r.len() - s.len()) =~= s);
    assert(c.subrange((gap / 2) as int, (gap / 2) as int + s.len()) =~= s);
}

/// A run of digits ends where another character stands: two texts that begin with numbers are the
/// same only where the numbers are.
pub proof fn leading_numbers_agree(
    a: nat,
    x: char,
    rest_a: Seq<char>,
    b: nat,
    y: char,
    rest_b: Seq<char>,
)
    requires
        !text::is_digit(x),
        !text::is_digit(y),
        text::decimal(a) + seq![x] + rest_a == text::decimal(b) + seq![y] + rest_b,
    ensures
        a == b,
        x == y,
        rest_a == rest_b,
{
    let da = text::decimal(a);
    let db = text::decimal(b);
    text::decimal_round_trip(a);
    text::decimal_round_trip(b);
    let s = da + seq![x] + rest_a;
    let t = db + seq![y] + rest_b;
    assert(s[da.len() as int] == x);
    assert(t[db.len() as int] == y);
    if da.len() < db.len() {
        assert(t[da.len() as int] == db[da.len() as int]);
        assert(text::is_digit(db[da.len() as int]));
    }
    if db.len() < da.len() {
        assert(s[db.len() as int] == da[db.len() as int]);
        assert(text::is_digit(da[db.len() as int]));
    }
    assert(s.take(da.len() as int) =~= da);
    assert(t.take(db.len() as int) =~= db);
    assert(s.skip(da.len() as int + 1) =~= rest_a);
    assert(t.skip(db.len() as int + 1) =~= rest_b);
}

// ---------------------------------------------------------------------------
// Times
// ---------------------------------------------------------------------------

/// A duration denotes the seconds given: it is made of hours, minutes and seconds with their marks,
/// which add up to them. Minutes and seconds stay below sixty, and hours and minutes are left out
/// where there are none in front.
pub proof fn duration_denotes_its_seconds(seconds: u64) -> (parts: (nat, nat, nat))
    ensures
        3600 * parts.0 + 60 * parts.1 + parts.2 == seconds,
        parts.1 < 60,
        parts.2 < 60,
        parts.0 > 0 ==> progress::duration_text(Some(seconds)) == text::decimal(parts.0) + "h"@
            + text::decimal(parts.1) + "m"@ + text::decimal(parts.2) + "s"@,
        parts.0 == 0 && parts.1 > 0 ==> progress::duration_text(Some(seconds)) == text::decimal(
            parts.1,
        ) + "m"@ + text::decimal(parts.2) + "s"@,
        parts.0 == 0 && parts.1 == 0 ==> progress::duration_text(Some(seconds)) == text::decimal(
            parts.2,
        ) + "s"@,
{
    let h = (seconds / 3600) as nat;
    let m = ((seconds % 3600) / 60) as nat;
    let s = (seconds % 60) as nat;
    assert(3600 * h + 60 * m + s == seconds) by {
        assert(seconds == 3600 * (seconds / 3600) + seconds % 3600);
        assert(seconds % 3600 == 60 * ((seconds % 3600) / 60) + (seconds % 3600) % 60);
        assert((seconds % 3600) % 60 == seconds % 60);
    }
    (h, m, s)
}

spec fn seconds_part(s: nat) -> Seq<char> {
    text::decimal(s) + seq!['s'] + Seq::<char>::empty()
}

spec fn minutes_part(m: nat, s: nat) -> Seq<char> {
    text::decimal(m) + seq!['m'] + seconds_part(s)
}

spec fn hours_part(h: nat, m: nat, s: nat) -> Seq<char> {
    text::decimal(h) + seq!['h'] + minutes_part(m, s)
}

proof fn duration_by_parts(seconds: u64) -> (parts: (nat, nat, nat))
    ensures
        3600 * parts.0 + 60 * parts.1 + parts.2 == seconds,
        progress::duration_text(Some(seconds)) == if parts.0 > 0 {
            hours_part(parts.0, parts.1, parts.2)
        } else if parts.1 > 0 {
            minutes_part(parts.1, parts.2)
        } else {
            seconds_part(parts.2)
        },
{
    reveal_strlit("h");
    reveal_strlit("m");
    reveal_strlit("s");
    let (h, m, s) = duration_denotes_its_seconds(seconds);
    let shown = progress::duration_text(Some(seconds));
    assert("h"@ =~= seq!['h'] && "m"@ =~= seq!['m'] && "s"@ =~= seq!['s']);
    if h > 0 {
        assert(shown =~= hours_part(h, m, s));
    } else if m > 0 {
        assert(shown =~= minutes_part(m, s));
    } else {
        assert(shown =~= seconds_part(s));
    }
    (h, m, s)
}

/// Different durations have different texts.
pub proof fn durations_differ(a: u64, b: u64)
    requires
        progress::duration_text(Some(a)) == progress::duration_text(Some(b)),
    ensures
        a == b,
{
    let (ha, ma, sa) = duration_by_parts(a);
    let (hb, mb, sb) = duration_by_parts(b);
    let empty = Seq::<char>::empty();
    let (na, xa, ra) = if ha > 0 {
        (ha, 'h', minutes_part(ma, sa))
    } else if ma > 0 {
        (ma, 'm', seconds_part(sa))
    } else {
        (sa, 's', empty)
    };
    let (nb, xb, rb) = if hb > 0 {
        (hb, 'h', minutes_part(mb, sb))
    } else if mb > 0 {
        (mb, 'm', seconds_part(sb))
    } else {
        (sb, 's', empty)
    };
    leading_numbers_agree(na, xa, ra, nb, xb, rb);
    if ha > 0 {
        leading_numbers_agree(ma, 'm', seconds_part(sa), mb, 'm', seconds_part(sb));
    }
    if ha > 0 || ma > 0 {
        leading_numbers_agree(sa, 's', empty, sb, 's', empty);
    }
}

/// A duration that is no number is shown as such, and no number of seconds is.
pub proof fn missing_duration_is_told_apart(seconds: u64)
    ensures
        progress::duration_text(None) == "N/A"@,
        progress::duration_text(Some(seconds)) != progress::duration_text(None),
{
    reveal_strlit("N/A");
    reveal_strlit("s");
    let shown = progress::duration_text(Some(seconds));
    assert(shown.last() == 's');
}

/// A time of day denotes the seconds since midnight: two digits each for hours, minutes and
/// seconds, with colons between them.
pub proof fn time_of_day_denotes_its_seconds(seconds: u64)
    ensures
        ({
            let shown = progress::time_of_day(seconds);
            let h = text::digits_value(shown.subrange(0, 2));
            let m = text::digits_value(shown.subrange(3, 5));
            let s = text::digits_value(shown.subrange(6, 8));
            &&& shown.len() == 8
            &&& shown[2] == ':' && shown[5] == ':'
            &&& forall|i: int|
                0 <= i < 8 && i != 2 && i != 5 ==> text::is_digit(#[trigger] shown[i])
            &&& h < 24 && m < 60 && s < 60
            &&& 3600 * h + 60 * m + s == seconds % 86400
        }),
{
    reveal_strlit(":");
    let h = (seconds / 3600 % 24) as nat;
    let m = ((seconds % 3600) / 60) as nat;
    let s = (seconds % 60) as nat;
    let shown = progress::time_of_day(seconds);
    padded_two(h);
    padded_two(m);
    padded_two(s);
    let th = text::zero_padded(h, 2);
    let tm = text::zero_padded(m, 2);
    let ts = text::zero_padded(s, 2);
    assert(shown =~= th + seq![':'] + tm + seq![':'] + ts);
    assert(shown.subrange(0, 2) =~= th);
    assert(shown.subrange(3, 5) =~= tm);
    assert(shown.subrange(6, 8) =~= ts);
    assert forall|i: int| 0 <= i < 8 && i != 2 && i != 5 implies text::is_digit(
        #[trigger] shown[i],
    ) by {
        if i < 2 {
            assert(shown[i] == th[i]);
        } else if i < 5 {
            assert(shown[i] == tm[i - 3]);
        } else {
            assert(shown[i] == ts[i - 6]);
        }
    }
    assert(3600 * h + 60 * m + s == seconds % 86400) by {
        let day = seconds / 86400;
        let rest = seconds % 86400;
        assert(seconds == 86400 * day + rest);
        assert(seconds / 3600 == 24 * day + rest / 3600);
        assert(rest / 3600 < 24);
        assert((24 * day + rest / 3600) % 24 == rest / 3600);
        assert(seconds % 3600 == rest % 3600);
        assert(seconds % 60 == rest % 60);
        assert(rest == 3600 * (rest / 3600) + rest % 3600);
        assert(rest % 3600 == 60 * ((rest % 3600) / 60) + (rest % 3600) % 60);
        assert((rest % 3600) % 60 == rest % 60);
    }
}

proof fn padded_two(n: nat)
    requires
        n < 100,
    ensures
        text::zero_padded(n, 2).len() == 2,
        text::digits_value(text::zero_padded(n, 2)) == n,
        text::is_digit(text::zero_padded(n, 2)[0]),
        text::is_digit(text::zero_padded(n, 2)[1]),
{
    text::two_digits(n);
    text::decimal_round_trip(n);
    let d = text::decimal(n);
    let p = text::zero_padded(n, 2);
    assert(text::is_digit(d[0]));
    if d.len() == 1 {
        assert(p =~= seq!['0', d[0]]);
        reveal_with_fuel(text::digits_value, 3);
        assert(p.drop_last() =~= seq!['0']);
        assert(p.drop_last().drop_last() =~= Seq::<char>::empty());
        assert(d.drop_last() =~= Seq::<char>::empty());
    } else {
        assert(d.len() == 2);
        assert(p =~= d);
        assert(text::is_digit(d[1]));
    }
}

// ---------------------------------------------------------------------------
// The map of the cores
// ---------------------------------------------------------------------------

/// A core is shown as idle exactly where no running job holds it or one of its CPUs, that is where
/// a job could be given it; as a whole core in use exactly where a running job holds it; and
/// otherwise as in use by single CPUs.
pub proof fn core_is_shown_as_it_is_held(st: StateView, core: u8)
    requires
        soundness::consistent(st),
        core < topology::core_count(),
    ensures
        ({
            let row = report::map_lines(st)[3 + core as int];
            let whole = exists|jid: Seq<char>| #[trigger]
                st.pids.contains_key(jid) && st.pids[jid].cores is Some
                    && st.pids[jid].cores->0.contains(core);
            let single = exists|jid: Seq<char>, cpu: u8|
                #![trigger st.pids.contains_key(jid), topology::on_core(cpu, core)]
                st.pids.contains_key(jid) && topology::on_core(cpu, core) && st.pids[jid].cpus
                    is Some && st.pids[jid].cpus->0.contains(cpu);
            &&& row.len() >= 20
            &&& row.subrange(12, 20) == text::left("CFD"@, 8) <==> whole
            &&& row.subrange(12, 20) == text::left("PY"@, 8) <==> !whole && single
            &&& row.subrange(12, 20) == text::left("空闲"@, 8) <==> !whole && !single
            &&& row.subrange(12, 20) == text::left("空闲"@, 8) <==> scheduler::grant(
                st,
                "cfd"@,
                8,
                JobPriority::P3,
            ).contains(core)
        }),
{
    reveal_strlit("CFD");
    reveal_strlit("PY");
    reveal_strlit("空闲");
    let row = report::map_lines(st)[3 + core as int];
    let word = report::core_use(st, core);
    core_row_columns(st, core);
    assert(text::left("CFD"@, 8)[0] == 'C');
    assert(text::left("PY"@, 8)[0] == 'P');
    assert(text::left("空闲"@, 8)[0] == '空');
    let whole = exists|jid: Seq<char>| #[trigger]
        st.pids.contains_key(jid) && st.pids[jid].cores is Some && st.pids[jid].cores->0.contains(
            core,
        );
    let single = exists|jid: Seq<char>, cpu: u8|
        #![trigger st.pids.contains_key(jid), topology::on_core(cpu, core)]
        st.pids.contains_key(jid) && topology::on_core(cpu, core) && st.pids[jid].cpus is Some
            && st.pids[jid].cpus->0.contains(cpu);
    let (a, b) = topology::core_cpus(core)->0;
    assert(topology::on_core(a, core) && topology::on_core(b, core));
    assert(scheduler::core_marked(st, core) == whole) by {
        if scheduler::core_marked(st, core) {
            let jid = choose|jid: Seq<char>| #[trigger] soundness::holds_core(st, jid, core);
            assert(st.pids.contains_key(jid));
        }
        if whole {
            let jid = choose|jid: Seq<char>| #[trigger]
                st.pids.contains_key(jid) && st.pids[jid].cores is Some
                    && st.pids[jid].cores->0.contains(core);
            assert(soundness::holds_core(st, jid, core));
        }
    }
    assert(single ==> !scheduler::core_free(st, core)) by {
        if single {
            let (jid, cpu) = choose|jid: Seq<char>, cpu: u8|
                #![trigger st.pids.contains_key(jid), topology::on_core(cpu, core)]
                st.pids.contains_key(jid) && topology::on_core(cpu, core) && st.pids[jid].cpus
                    is Some && st.pids[jid].cpus->0.contains(cpu);
            held_one_by_one(st.pids[jid], cpu);
            assert(soundness::holds_cpu(st, jid, cpu));
            assert(!scheduler::cpu_free(st, cpu));
        }
    }
    assert(!whole && !scheduler::core_free(st, core) ==> single) by {
        if !whole && !scheduler::core_free(st, core) {
            let cpu = if !scheduler::cpu_free(st, a) {
                a
            } else {
                b
            };
            assert(!scheduler::cpu_free(st, cpu));
            let jid = choose|jid: Seq<char>| #[trigger] soundness::holds_cpu(st, jid, cpu);
            let job = st.pids[jid];
            held_one_by_one(job, cpu);
            if scheduler::cpus_of(scheduler::held_cores(job)).contains(cpu) {
                scheduler::cpus_of_members(scheduler::held_cores(job), cpu);
                let i = choose|i: int|
                    0 <= i < scheduler::held_cores(job).len() && topology::on_core(
                        cpu,
                        #[trigger] scheduler::held_cores(job)[i],
                    );
                topology::cores_share_no_cpu(cpu, core, scheduler::held_cores(job)[i]);
                assert(scheduler::held_cores(job).contains(core));
                assert(whole);
            }
            assert(st.pids.contains_key(jid) && topology::on_core(cpu, core));
        }
    }
    assert(scheduler::core_free(st, core) == scheduler::grant(
        st,
        "cfd"@,
        8,
        JobPriority::P3,
    ).contains(core)) by {
        let list = scheduler::eligible_cores(st, JobPriority::P3);
        let free = |c: u8| scheduler::core_free(st, c);
        seqs::filter_members(list, free, core);
        seqs::filter_is_no_longer(list, free);
        scheduler::eligible_lists_are_sound(st, JobPriority::P3);
        soundness::eligible_cores_by_priority(st, JobPriority::P3, core);
        assert(list.filter(free).len() <= 8);
        assert(scheduler::grant(st, "cfd"@, 8, JobPriority::P3) =~= list.filter(free));
    }
}

proof fn held_one_by_one(job: JobView, cpu: u8)
    ensures
        scheduler::held_cpus(job).contains(cpu) == (scheduler::cpus_of(
            scheduler::held_cores(job),
        ).contains(cpu) || (job.cpus is Some && job.cpus->0.contains(cpu))),
{
    let a = scheduler::cpus_of(scheduler::held_cores(job));
    let b = match job.cpus {
        Some(cpus) => cpus,
        None => Seq::empty(),
    };
    let s = a + b;
    if s.contains(cpu) {
        let i = s.index_of(cpu);
        if i < a.len() {
            assert(a[i] == cpu);
        } else {
            assert(b[i - a.len()] == cpu);
        }
    }
    if a.contains(cpu) {
        assert(s[a.index_of(cpu)] == cpu);
    }
    if b.contains(cpu) {
        assert(s[a.len() + b.index_of(cpu)] == cpu);
    }
}

proof fn core_row_columns(st: StateView, core: u8)
    requires
        core < topology::core_count(),
    ensures
        report::map_lines(st).len() == 16,
        ({
            let row = report::map_lines(st)[3 + core as int];
            &&& row == report::core_row(st, state::normalized(st.reserved), core)
            &&& row.len() >= 34
            &&& row.take(7) == "  Core "@
            &&& row.subrange(7, 8) == text::decimal(core as nat)
            &&& row.subrange(12, 20) == text::left(report::core_use(st, core), 8)
        }),
{
    reveal_strlit("  Core ");
    reveal_strlit(" ");
    reveal_strlit(",");
    reveal_strlit("CFD");
    reveal_strlit("PY");
    reveal_strlit("空闲");
    let reserved = state::normalized(st.reserved);
    let lines = report::map_lines(st);
    assert(lines[3 + core as int] == report::core_rows(st, reserved)[core as int]);
    let row = report::core_row(st, reserved, core);
    let number = text::decimal(core as nat);
    assert(number.len() == 1) by {
        reveal_with_fuel(text::decimal, 2);
    }
    let cell = text::left(number, 4);
    let used = text::left(report::core_use(st, core), 8);
    assert(cell.len() == 4);
    assert(used.len() == 8);
    let (a, b) = topology::core_cpus(core)->0;
    let pair = text::left(text::decimal(a as nat) + ","@ + text::decimal(b as nat), 12);
    assert(pair.len() >= 12);
    let end = if reserved.contains(core) {
        "仅 P2"@
    } else {
        ""@
    };
    assert(row =~= "  Core "@ + cell + " "@ + used + " "@ + pair + " "@ + end);
    assert(row.take(7) =~= "  Core "@);
    assert(row.subrange(7, 8) =~= number);
    assert(row.subrange(12, 20) =~= used);
}

} // verus!
