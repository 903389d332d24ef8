//! What the operations on texts come to: splitting and joining, trimming, numbers and prefixes.

use crate::text;
use crate::text::CharSet;
use vstd::prelude::*;

verus! {

// ---------------------------------------------------------------------------
// Splitting and joining
// ---------------------------------------------------------------------------

/// A text is split at every separator and nowhere else: at a separator into what both sides are
/// split into, and a text without one not at all.
pub proof fn text_is_split_at_separators(a: Seq<char>, c: char, b: Seq<char>, set: CharSet)
    ensures
        set.has(c) ==> text::split(a + seq![c] + b, set) == text::split(a, set) + text::split(
            b,
            set,
        ),
        (forall|i: int| 0 <= i < a.len() ==> !set.has(#[trigger] a[i])) ==> text::split(a, set)
            == seq![a],
{
    if set.has(c) {
        split_at(a, c, b, set);
    }
    if forall|i: int| 0 <= i < a.len() ==> !set.has(#[trigger] a[i]) {
        unsplit(a, set);
    }
}

proof fn split_at(a: Seq<char>, c: char, b: Seq<char>, set: CharSet)
    requires
        set.has(c),
    ensures
        text::split(a + seq![c] + b, set) == text::split(a, set) + text::split(b, set),
    decreases b.len(),
{
    let whole = a + seq![c] + b;
    text::split_is_nonempty(b, set);
    if b.len() == 0 {
        assert(whole.drop_last() =~= a);
        assert(text::split(whole, set) =~= text::split(a, set) + text::split(b, set));
    } else {
        split_at(a, c, b.drop_last(), set);
        text::split_is_nonempty(b.drop_last(), set);
        assert(whole.drop_last() =~= a + seq![c] + b.drop_last());
        assert(text::split(whole, set) =~= text::split(a, set) + text::split(b, set));
    }
}

proof fn unsplit(a: Seq<char>, set: CharSet)
    requires
        forall|i: int| 0 <= i < a.len() ==> !set.has(#[trigger] a[i]),
    ensures
        text::split(a, set) == seq![a],
    decreases a.len(),
{
    if a.len() == 0 {
        assert(a =~= Seq::<char>::empty());
    } else {
        let front = a.drop_last();
        assert forall|i: int| 0 <= i < front.len() implies !set.has(#[trigger] front[i]) by {
            assert(front[i] == a[i]);
        }
        unsplit(front, set);
        assert(!set.has(a[a.len() - 1]));
        assert(front.push(a.last()) =~= a);
        assert(text::split(a, set) =~= seq![a]);
    }
}

/// Pieces are the runs between separators: those of the two sides of a separator, one run where
/// there is no separator, and none in an empty text.
pub proof fn pieces_are_runs_between_separators(a: Seq<char>, c: char, b: Seq<char>, set: CharSet)
    ensures
        set.has(c) ==> text::pieces(a + seq![c] + b, set) == text::pieces(a, set) + text::pieces(
            b,
            set,
        ),
        (forall|i: int| 0 <= i < a.len() ==> !set.has(#[trigger] a[i])) && a.len() > 0
            ==> text::pieces(a, set) == seq![a],
        text::pieces(Seq::empty(), set) == Seq::<Seq<char>>::empty(),
{
    let full = |w: Seq<char>| w.len() > 0;
    text_is_split_at_separators(a, c, b, set);
    if set.has(c) {
        Seq::filter_distributes_over_add(text::split(a, set), text::split(b, set), full);
    }
    if (forall|i: int| 0 <= i < a.len() ==> !set.has(#[trigger] a[i])) && a.len() > 0 {
        one_kept(a, full);
    }
    unsplit(Seq::empty(), set);
    let none = seq![Seq::<char>::empty()];
    reveal(Seq::filter);
    assert(none.drop_last() =~= Seq::<Seq<char>>::empty());
    assert(none.drop_last().filter(full) =~= Seq::<Seq<char>>::empty());
}

proof fn one_kept(a: Seq<char>, p: spec_fn(Seq<char>) -> bool)
    requires
        p(a),
    ensures
        seq![a].filter(p) == seq![a],
{
    reveal(Seq::filter);
    assert(seq![a].drop_last() =~= Seq::<Seq<char>>::empty());
    assert(seq![a].drop_last().filter(p) =~= Seq::<Seq<char>>::empty());
    assert(seq![a].filter(p) =~= seq![a]);
}

/// Words are the runs between white space.
pub proof fn words_are_runs_between_white_space(a: Seq<char>, c: char, b: Seq<char>)
    ensures
        text::is_space(c) ==> text::words(a + seq![c] + b) == text::words(a) + text::words(b),
        (forall|i: int| 0 <= i < a.len() ==> !text::is_space(#[trigger] a[i])) && a.len() > 0
            ==> text::words(a) == seq![a],
        text::words(Seq::empty()) == Seq::<Seq<char>>::empty(),
        text::is_space(' ') && text::is_space('\n') && text::is_space('\t') && text::is_space('\r'),
{
    pieces_are_runs_between_separators(a, c, b, CharSet::Space);
    if forall|i: int| 0 <= i < a.len() ==> !text::is_space(#[trigger] a[i]) {
        assert forall|i: int| 0 <= i < a.len() implies !CharSet::Space.has(#[trigger] a[i]) by {
            assert(!text::is_space(a[i]));
        }
    }
}

/// Lines end at line feeds, with a carriage return before it or not: the first line of a text is
/// what stands before its first line feed, and the other lines are those of the rest. What follows
/// the last line feed is a line where it is not empty.
pub proof fn lines_end_at_line_feeds(a: Seq<char>, b: Seq<char>)
    requires
        forall|i: int| 0 <= i < a.len() ==> #[trigger] a[i] != '\n',
    ensures
        text::lines(a + seq!['\n'] + b) == seq![
            if a.len() > 0 && a[a.len() - 1] == '\r' {
                a.drop_last()
            } else {
                a
            },
        ] + text::lines(b),
        a.len() > 0 ==> text::lines(a) == seq![a],
        text::lines(Seq::empty()) == Seq::<Seq<char>>::empty(),
{
    let set = CharSet::One('\n');
    text_is_split_at_separators(a, '\n', b, set);
    unsplit(a, set);
    unsplit(Seq::empty(), set);
    text::split_is_nonempty(b, set);
    let rest = text::split(b, set);
    let whole = text::split(a + seq!['\n'] + b, set);
    assert(whole == seq![a] + rest);
    assert(whole.last() == rest.last());
    assert(whole.drop_last() =~= seq![a] + rest.drop_last());
    let strip = |p: Seq<char>| text::strip_return(p);
    assert(whole.drop_last().map_values(strip) =~= seq![text::strip_return(a)]
        + rest.drop_last().map_values(strip));
    assert(text::lines(a + seq!['\n'] + b) =~= seq![text::strip_return(a)] + text::lines(b));
    assert(seq![a].drop_last().map_values(strip) =~= Seq::<Seq<char>>::empty());
    let none = seq![Seq::<char>::empty()];
    assert(none.drop_last().map_values(strip) =~= Seq::<Seq<char>>::empty());
    if a.len() > 0 {
        assert(text::lines(a) =~= seq![a]);
    }
    assert(text::lines(Seq::empty()) =~= Seq::<Seq<char>>::empty());
}

/// Parts are joined in their order, with the separator between each two and nowhere else.
pub proof fn parts_are_joined_in_order(a: Seq<Seq<char>>, b: Seq<Seq<char>>, sep: Seq<char>)
    ensures
        a.len() > 0 && b.len() > 0 ==> text::join(a + b, sep) == text::join(a, sep) + sep
            + text::join(b, sep),
        a.len() == 1 ==> text::join(a, sep) == a[0],
        a.len() == 0 ==> text::join(a, sep).len() == 0,
    decreases b.len(),
{
    if a.len() > 0 && b.len() > 0 {
        let whole = a + b;
        assert(whole.drop_last() =~= a + b.drop_last());
        if b.len() == 1 {
            assert(a + b.drop_last() =~= a);
            assert(text::join(b, sep) == b[0]);
        } else {
            parts_are_joined_in_order(a, b.drop_last(), sep);
            assert(text::join(whole, sep) =~= text::join(a, sep) + sep + text::join(b, sep));
        }
    }
}

/// Splitting undoes joining where no part holds the separator.
pub proof fn splitting_undoes_joining(parts: Seq<Seq<char>>, c: char)
    requires
        parts.len() > 0,
        forall|k: int, i: int|
            0 <= k < parts.len() && 0 <= i < parts[k].len() ==> #[trigger] parts[k][i] != c,
    ensures
        text::split(text::join(parts, seq![c]), CharSet::One(c)) == parts,
    decreases parts.len(),
{
    let set = CharSet::One(c);
    let last = parts.last();
    assert forall|i: int| 0 <= i < last.len() implies !set.has(#[trigger] last[i]) by {
        assert(parts[parts.len() - 1][i] != c);
    }
    unsplit(last, set);
    if parts.len() == 1 {
        assert(parts =~= seq![parts[0]]);
    } else {
        let front = parts.drop_last();
        assert forall|k: int, i: int| 0 <= k < front.len() && 0 <= i < front[k].len() implies
            #[trigger] front[k][i] != c by {
            assert(parts[k][i] != c);
        }
        splitting_undoes_joining(front, c);
        split_at(text::join(front, seq![c]), c, last, set);
        assert(text::join(parts, seq![c]) =~= text::join(front, seq![c]) + seq![c] + last);
        assert(front + seq![last] =~= parts);
    }
}

// ---------------------------------------------------------------------------
// Trimming
// ---------------------------------------------------------------------------

/// Trimming takes characters of the set off both ends, all of them and no others.
pub proof fn trimming_takes_the_ends_off(s: Seq<char>, set: CharSet) -> (at: (int, int))
    ensures
        0 <= at.0 <= at.1 <= s.len(),
        text::trim(s, set) == s.subrange(at.0, at.1),
        forall|i: int| 0 <= i < at.0 || at.1 <= i < s.len() ==> set.has(#[trigger] s[i]),
        at.0 < at.1 ==> !set.has(s[at.0]) && !set.has(s[at.1 - 1]),
{
    let a = front_end(s, set);
    let front = s.skip(a);
    let b = back_end(front, set);
    assert(text::trim(s, set) =~= s.subrange(a, a + b));
    assert forall|i: int| 0 <= i < a || a + b <= i < s.len() implies set.has(#[trigger] s[i]) by {
        if i >= a {
            assert(front[i - a] == s[i]);
        }
    }
    if b > 0 {
        assert(front[0] == s[a]);
        assert(front[b - 1] == s[a + b - 1]);
    }
    (a, a + b)
}

proof fn front_end(s: Seq<char>, set: CharSet) -> (a: int)
    ensures
        0 <= a <= s.len(),
        text::trim_front(s, set) == s.skip(a),
        forall|i: int| 0 <= i < a ==> set.has(#[trigger] s[i]),
        a < s.len() ==> !set.has(s[a]),
    decreases s.len(),
{
    if s.len() > 0 && set.has(s[0]) {
        let rest = s.drop_first();
        let a = front_end(rest, set);
        assert(rest.skip(a) =~= s.skip(a + 1));
        assert forall|i: int| 0 <= i < a + 1 implies set.has(#[trigger] s[i]) by {
            if i > 0 {
                assert(rest[i - 1] == s[i]);
            }
        }
        if a + 1 < s.len() {
            assert(rest[a] == s[a + 1]);
        }
        a + 1
    } else {
        assert(s.skip(0) =~= s);
        0
    }
}

proof fn back_end(s: Seq<char>, set: CharSet) -> (b: int)
    ensures
        0 <= b <= s.len(),
        text::trim_back(s, set) == s.take(b),
        forall|i: int| b <= i < s.len() ==> set.has(#[trigger] s[i]),
        b > 0 ==> !set.has(s[b - 1]),
        (exists|i: int| 0 <= i < s.len() && !set.has(#[trigger] s[i])) ==> b > 0,
    decreases s.len(),
{
    if s.len() > 0 && set.has(s.last()) {
        let rest = s.drop_last();
        let b = back_end(rest, set);
        assert(rest.take(b) =~= s.take(b));
        assert forall|i: int| b <= i < s.len() implies set.has(#[trigger] s[i]) by {
            if i < rest.len() {
                assert(rest[i] == s[i]);
            }
        }
        if b > 0 {
            assert(rest[b - 1] == s[b - 1]);
        }
        b
    } else {
        assert(s.take(s.len() as int) =~= s);
        s.len() as int
    }
}

/// Where trimming the back of a text ends.
pub proof fn trimmed_back_end(s: Seq<char>, set: CharSet) -> (b: int)
    ensures
        0 <= b <= s.len(),
        text::trim_back(s, set) == s.take(b),
        forall|i: int| b <= i < s.len() ==> set.has(#[trigger] s[i]),
        b > 0 ==> !set.has(s[b - 1]),
{
    back_end(s, set)
}

/// A text whose ends are not in the set has nothing to trim.
pub proof fn nothing_to_trim(s: Seq<char>, set: CharSet)
    requires
        s.len() > 0,
        !set.has(s[0]),
        !set.has(s[s.len() - 1]),
    ensures
        text::trim(s, set) == s,
        text::trim_back(s, set) == s,
{
}

/// A character of the set at either end comes off, and no more where the rest does not begin and
/// end with the set.
pub proof fn ends_come_off(whole: Seq<char>, s: Seq<char>, c: char, set: CharSet)
    requires
        s.len() > 0,
        whole == seq![c] + s + seq![c],
        set.has(c),
        !set.has(s[0]),
        !set.has(s[s.len() - 1]),
    ensures
        text::trim(whole, set) == s,
{
    let rest = whole.drop_first();
    assert(rest =~= s + seq![c]);
    assert(rest.drop_last() =~= s);
    assert(text::trim_front(rest, set) == rest);
    assert(text::trim_back(s, set) == s);
}

// ---------------------------------------------------------------------------
// Numbers
// ---------------------------------------------------------------------------

/// A number's decimal form has no zero in front, but for zero itself.
pub proof fn decimal_has_no_zero_in_front(n: nat)
    ensures
        n > 0 ==> text::decimal(n)[0] != '0',
        text::decimal(0) == seq!['0'],
    decreases n,
{
    if n >= 10 {
        decimal_has_no_zero_in_front(n / 10);
        text::decimal_round_trip(n / 10);
        assert(text::decimal(n)[0] == text::decimal(n / 10)[0]);
    }
}

/// A number is read from digits with an optional plus sign in front, and only where it is not above
/// the limit; zeros in front do not count.
pub proof fn numbers_are_read_from_digits(s: Seq<char>, max: nat, n: nat)
    ensures
        text::unsigned(s, max) is Some ==> {
            let value = text::unsigned(s, max)->0;
            &&& value <= max
            &&& s.len() > 0
            &&& forall|i: int|
                1 <= i < s.len() ==> '0' <= #[trigger] s[i] && s[i] <= '9'
            &&& s[0] == '+' || ('0' <= s[0] && s[0] <= '9')
            &&& s[0] == '+' ==> s.len() > 1
        },
        n <= max ==> text::unsigned(text::decimal(n), max) == Some(n),
        n <= max ==> text::unsigned(seq!['+'] + text::decimal(n), max) == Some(n),
        n <= max ==> text::unsigned(seq!['0'] + text::decimal(n), max) == Some(n),
        n > max ==> text::unsigned(text::decimal(n), max) is None,
{
    let d = text::decimal(n);
    text::decimal_round_trip(n);
    text::unsigned_of_decimal(n, max);
    assert((seq!['+'] + d).drop_first() =~= d);
    let zero = seq!['0'] + d;
    zero_in_front(d);
    assert forall|i: int| 0 <= i < zero.len() implies text::is_digit(#[trigger] zero[i]) by {
        if i > 0 {
            assert(zero[i] == d[i - 1]);
        }
    }
    assert(text::strip_plus(zero) == zero);
    if text::unsigned(s, max) is Some {
        let body = text::strip_plus(s);
        assert(text::is_digits(body));
        if s[0] == '+' {
            assert forall|i: int| 1 <= i < s.len() implies '0' <= #[trigger] s[i] && s[i]
                <= '9' by {
                assert(body[i - 1] == s[i]);
            }
        } else {
            assert(body[0] == s[0]);
        }
    }
}

proof fn zero_in_front(d: Seq<char>)
    ensures
        text::digits_value(seq!['0'] + d) == text::digits_value(d),
    decreases d.len(),
{
    let longer = seq!['0'] + d;
    if d.len() == 0 {
        assert(longer =~= seq!['0']);
        assert(longer.drop_last() =~= Seq::<char>::empty());
        assert(text::digits_value(longer.drop_last()) == 0);
    } else {
        assert(longer.drop_last() =~= seq!['0'] + d.drop_last());
        zero_in_front(d.drop_last());
    }
}

/// Each further digit counts ten times what stands before it and itself.
pub proof fn digits_count_by_tens(s: Seq<char>, d: nat)
    requires
        d < 10,
    ensures
        text::digits_value(s.push(text::digit_char(d))) == 10 * text::digits_value(s) + d,
        text::digit_char(0) == '0' && text::digit_char(1) == '1' && text::digit_char(2) == '2'
            && text::digit_char(3) == '3' && text::digit_char(4) == '4' && text::digit_char(5)
            == '5' && text::digit_char(6) == '6' && text::digit_char(7) == '7' && text::digit_char(
            8,
        ) == '8' && text::digit_char(9) == '9',
{
    assert(s.push(text::digit_char(d)).drop_last() =~= s);
}

// ---------------------------------------------------------------------------
// Searching
// ---------------------------------------------------------------------------

/// A text begins with what stands in front of some rest, ends with what stands behind some front,
/// and holds what stands between the two.
pub proof fn parts_are_found_where_they_stand(a: Seq<char>, b: Seq<char>, c: Seq<char>)
    ensures
        text::begins_with(a + b, a),
        text::finishes_with(a + b, b),
        text::holds(a + b + c, b),
{
    assert((a + b).take(a.len() as int) =~= a);
    assert((a + b).skip((a + b).len() - b.len()) =~= b);
    assert((a + b + c).subrange(a.len() as int, a.len() as int + b.len()) =~= b);
}

/// What a text is found to begin or end with, or to hold, stands there.
pub proof fn found_parts_stand_there(s: Seq<char>, part: Seq<char>) -> (at: int)
    ensures
        text::begins_with(s, part) ==> s == part + s.skip(part.len() as int) && part.len()
            <= s.len(),
        text::finishes_with(s, part) ==> part.len() <= s.len() && s == s.take(
            s.len() - part.len(),
        ) + part,
        text::holds(s, part) ==> 0 <= at <= s.len() - part.len() && s == s.take(at) + part + s.skip(
            at + part.len(),
        ),
{
    if text::begins_with(s, part) {
        assert(s =~= s.take(part.len() as int) + s.skip(part.len() as int));
    }
    if text::finishes_with(s, part) {
        let n = s.len() - part.len();
        assert(s =~= s.take(n) + s.skip(n));
    }
    if text::holds(s, part) {
        let i = choose|i: int|
            0 <= i <= s.len() - part.len() && #[trigger] s.subrange(i, i + part.len()) == part;
        assert(s =~= s.take(i) + s.subrange(i, i + part.len()) + s.skip(i + part.len()));
        i
    } else {
        0
    }
}

} // verus!
