//! Text handling over sequences of characters: trimming, splitting, numbers and padding.

use vstd::prelude::*;

verus! {

/// `String::push` appends one character to the end of the string.
pub assume_specification[ String::push ](s: &mut String, ch: char)
    ensures
        final(s)@ == old(s)@.push(ch),
;

/// A set of characters that trimming and splitting look for.
#[derive(Clone, Copy, Debug)]
pub enum CharSet {
    /// The Unicode white space characters.
    Space,
    /// A single or a double quote.
    Quote,
    /// One given character.
    One(char),
}

/// The characters with the Unicode property `White_Space`.
pub open spec fn is_space(c: char) -> bool {
    let n = c as u32;
    ||| 9 <= n <= 13
    ||| n == 0x20
    ||| n == 0x85
    ||| n == 0xA0
    ||| n == 0x1680
    ||| 0x2000 <= n <= 0x200A
    ||| n == 0x2028
    ||| n == 0x2029
    ||| n == 0x202F
    ||| n == 0x205F
    ||| n == 0x3000
}

impl CharSet {
    /// Whether the set holds `c`.
    pub open spec fn has(self, c: char) -> bool {
        match self {
            CharSet::Space => is_space(c),
            CharSet::Quote => c == '\'' || c == '"',
            CharSet::One(x) => c == x,
        }
    }

    /// Whether the set holds `c`.
    pub fn admits(&self, c: char) -> (r: bool)
        ensures
            r == self.has(c),
    {
        match self {
            CharSet::Space => {
                let n: u32 = c as u32;
                (9 <= n && n <= 13) || n == 0x20 || n == 0x85 || n == 0xA0 || n == 0x1680
                    || (0x2000 <= n && n <= 0x200A) || n == 0x2028 || n == 0x2029 || n == 0x202F
                    || n == 0x205F || n == 0x3000
            },
            CharSet::Quote => c == '\'' || c == '"',
            CharSet::One(x) => c == *x,
        }
    }
}

/// The characters of a string.
pub fn to_chars(s: &str) -> (r: Vec<char>)
    ensures
        r@ == s@,
{
    let mut r: Vec<char> = Vec::new();
    for c in it: s.chars()
        invariant
            it.seq() == s@,
            r@ == s@.take(it.index() as int),
    {
        r.push(c);
        proof {
            assert(s@.take(it.index() + 1) =~= s@.take(it.index() as int).push(c));
        }
    }
    proof {
        assert(s@.take(s@.len() as int) =~= s@);
    }
    r
}

/// The string made of the given characters.
pub fn from_chars(cs: &Vec<char>) -> (r: String)
    ensures
        r@ == cs@,
{
    let mut r: String = String::new();
    let mut i: usize = 0;
    while i < cs.len()
        invariant
            i <= cs.len(),
            r@ == cs@.take(i as int),
        decreases cs.len() - i,
    {
        r.push(cs[i]);
        i += 1;
        proof {
            assert(cs@.take(i as int) =~= cs@.take(i - 1).push(cs@[i - 1]));
        }
    }
    proof {
        assert(cs@.take(cs@.len() as int) =~= cs@);
    }
    r
}

/// The strings made of the given character vectors.
pub fn to_strings(parts: &Vec<Vec<char>>) -> (r: Vec<String>)
    ensures
        string_views(r@) == views(parts@),
{
    let mut r: Vec<String> = Vec::new();
    let mut i: usize = 0;
    while i < parts.len()
        invariant
            i <= parts@.len(),
            string_views(r@) =~= views(parts@).take(i as int),
        decreases parts.len() - i,
    {
        let ghost before = string_views(r@);
        let part = from_chars(&parts[i]);
        r.push(part);
        proof {
            assert(string_views(r@) =~= before.push(part@));
        }
        i += 1;
    }
    proof {
        assert(views(parts@).take(parts@.len() as int) =~= views(parts@));
    }
    r
}

/// Whether two strings hold the same characters.
pub fn same(a: &str, b: &str) -> (r: bool)
    ensures
        r == (a@ == b@),
{
    a.to_owned() == b.to_owned()
}

/// A copy of the characters `from..to`.
pub fn slice(cs: &Vec<char>, from: usize, to: usize) -> (r: Vec<char>)
    requires
        from <= to <= cs@.len(),
    ensures
        r@ == cs@.subrange(from as int, to as int),
{
    let mut r: Vec<char> = Vec::new();
    let mut i: usize = from;
    while i < to
        invariant
            from <= i <= to <= cs@.len(),
            r@ == cs@.subrange(from as int, i as int),
        decreases to - i,
    {
        r.push(cs[i]);
        i += 1;
        proof {
            assert(cs@.subrange(from as int, i as int) =~= cs@.subrange(from as int, i - 1).push(
                cs@[i - 1],
            ));
        }
    }
    r
}

/// Appends the characters of `tail` to `head`.
pub fn append_chars(head: &mut Vec<char>, tail: &Vec<char>)
    ensures
        final(head)@ == old(head)@ + tail@,
{
    let mut i: usize = 0;
    while i < tail.len()
        invariant
            i <= tail.len(),
            head@ == old(head)@ + tail@.take(i as int),
        decreases tail.len() - i,
    {
        head.push(tail[i]);
        i += 1;
        proof {
            assert(tail@.take(i as int) =~= tail@.take(i - 1).push(tail@[i - 1]));
        }
    }
    proof {
        assert(tail@.take(tail@.len() as int) =~= tail@);
    }
}

/// Whether two character vectors are equal.
pub fn same_chars(a: &Vec<char>, b: &Vec<char>) -> (r: bool)
    ensures
        r == (a@ == b@),
{
    if a.len() != b.len() {
        return false;
    }
    let mut i: usize = 0;
    while i < a.len()
        invariant
            i <= a.len(),
            a.len() == b.len(),
            forall|j: int| 0 <= j < i ==> a@[j] == b@[j],
        decreases a.len() - i,
    {
        if a[i] != b[i] {
            return false;
        }
        i += 1;
    }
    proof {
        assert(a@ =~= b@);
    }
    true
}

// ---------------------------------------------------------------------------
// Trimming
// ---------------------------------------------------------------------------

/// `s` without the longest run of characters of `set` at its front.
pub open spec fn trim_front(s: Seq<char>, set: CharSet) -> Seq<char>
    decreases s.len(),
{
    if s.len() > 0 && set.has(s[0]) {
        trim_front(s.drop_first(), set)
    } else {
        s
    }
}

/// `s` without the longest run of characters of `set` at its back.
pub open spec fn trim_back(s: Seq<char>, set: CharSet) -> Seq<char>
    decreases s.len(),
{
    if s.len() > 0 && set.has(s.last()) {
        trim_back(s.drop_last(), set)
    } else {
        s
    }
}

/// `s` without the characters of `set` at either end.
pub open spec fn trim(s: Seq<char>, set: CharSet) -> Seq<char> {
    trim_back(trim_front(s, set), set)
}

/// Drops the characters of `set` at the front.
pub fn trimmed_front(cs: &Vec<char>, set: CharSet) -> (r: Vec<char>)
    ensures
        r@ == trim_front(cs@, set),
{
    let mut i: usize = 0;
    proof {
        assert(cs@.skip(0) =~= cs@);
    }
    while i < cs.len() && set.admits(cs[i])
        invariant
            i <= cs.len(),
            trim_front(cs@.skip(i as int), set) == trim_front(cs@, set),
        decreases cs.len() - i,
    {
        proof {
            assert(cs@.skip(i as int).drop_first() =~= cs@.skip(i + 1));
        }
        i += 1;
    }
    slice(cs, i, cs.len())
}

/// Drops the characters of `set` at the back.
pub fn trimmed_back(cs: &Vec<char>, set: CharSet) -> (r: Vec<char>)
    ensures
        r@ == trim_back(cs@, set),
{
    let mut n: usize = cs.len();
    proof {
        assert(cs@.take(n as int) =~= cs@);
    }
    while n > 0 && set.admits(cs[n - 1])
        invariant
            n <= cs.len(),
            trim_back(cs@.take(n as int), set) == trim_back(cs@, set),
        decreases n,
    {
        proof {
            assert(cs@.take(n as int).drop_last() =~= cs@.take(n - 1));
        }
        n -= 1;
    }
    slice(cs, 0, n)
}

/// Drops the characters of `set` at both ends.
pub fn trimmed(cs: &Vec<char>, set: CharSet) -> (r: Vec<char>)
    ensures
        r@ == trim(cs@, set),
{
    let front = trimmed_front(cs, set);
    trimmed_back(&front, set)
}

// ---------------------------------------------------------------------------
// Splitting and joining
// ---------------------------------------------------------------------------

/// The views of a list of character vectors.
pub open spec fn views(v: Seq<Vec<char>>) -> Seq<Seq<char>> {
    v.map_values(|x: Vec<char>| x@)
}

/// The views of a list of strings.
pub open spec fn string_views(v: Seq<String>) -> Seq<Seq<char>> {
    v.map_values(|x: String| x@)
}

/// The pieces of `s` between the characters of `set`, empty pieces among them.
pub open spec fn split(s: Seq<char>, set: CharSet) -> Seq<Seq<char>>
    decreases s.len(),
{
    if s.len() == 0 {
        seq![Seq::<char>::empty()]
    } else {
        let front = split(s.drop_last(), set);
        if set.has(s.last()) {
            front.push(Seq::<char>::empty())
        } else {
            front.drop_last().push(front.last().push(s.last()))
        }
    }
}

/// The pieces of `s` between the characters of `set` that are not empty.
pub open spec fn pieces(s: Seq<char>, set: CharSet) -> Seq<Seq<char>> {
    split(s, set).filter(|w: Seq<char>| w.len() > 0)
}

/// The runs of characters between white space.
pub open spec fn words(s: Seq<char>) -> Seq<Seq<char>> {
    pieces(s, CharSet::Space)
}

/// `s` without one carriage return at its end.
pub open spec fn strip_return(s: Seq<char>) -> Seq<char> {
    if s.len() > 0 && s.last() == '\r' {
        s.drop_last()
    } else {
        s
    }
}

/// The lines of `s`, without their line endings (LF or CR LF; optional after the last line).
pub open spec fn lines(s: Seq<char>) -> Seq<Seq<char>> {
    let pieces = split(s, CharSet::One('\n'));
    let ended = pieces.drop_last().map_values(|p: Seq<char>| strip_return(p));
    if pieces.last().len() == 0 {
        ended
    } else {
        ended.push(pieces.last())
    }
}

/// The parts, with `sep` between each two of them.
pub open spec fn join(parts: Seq<Seq<char>>, sep: Seq<char>) -> Seq<char>
    decreases parts.len(),
{
    if parts.len() == 0 {
        Seq::<char>::empty()
    } else if parts.len() == 1 {
        parts[0]
    } else {
        join(parts.drop_last(), sep) + sep + parts.last()
    }
}

/// Splitting always gives at least one piece.
pub proof fn split_is_nonempty(s: Seq<char>, set: CharSet)
    ensures
        split(s, set).len() > 0,
    decreases s.len(),
{
    if s.len() > 0 {
        split_is_nonempty(s.drop_last(), set);
    }
}

/// The pieces of `cs` between the characters of `set`.
pub fn split_chars(cs: &Vec<char>, set: CharSet) -> (r: Vec<Vec<char>>)
    ensures
        views(r@) == split(cs@, set),
        r@.len() > 0,
{
    let mut done: Vec<Vec<char>> = Vec::new();
    let mut cur: Vec<char> = Vec::new();
    let mut i: usize = 0;
    proof {
        assert(views(done@).push(cur@) =~= split(cs@.take(0), set));
    }
    while i < cs.len()
        invariant
            i <= cs.len(),
            views(done@).push(cur@) == split(cs@.take(i as int), set),
        decreases cs.len() - i,
    {
        let c = cs[i];
        let ghost before = views(done@);
        let ghost piece = cur@;
        proof {
            assert(cs@.take(i + 1).drop_last() =~= cs@.take(i as int));
            assert(cs@.take(i + 1).last() == c);
            assert(before.push(piece).drop_last() =~= before);
        }
        if set.admits(c) {
            done.push(cur);
            cur = Vec::new();
            proof {
                assert(views(done@) =~= before.push(piece));
            }
        } else {
            cur.push(c);
        }
        i += 1;
    }
    let ghost before = views(done@);
    let ghost piece = cur@;
    done.push(cur);
    proof {
        assert(views(done@) =~= before.push(piece));
        assert(cs@.take(cs@.len() as int) =~= cs@);
    }
    done
}

/// The runs of characters between white space.
pub fn word_list(cs: &Vec<char>) -> (r: Vec<Vec<char>>)
    ensures
        views(r@) == words(cs@),
{
    piece_list(cs, CharSet::Space)
}

/// The pieces of `cs` between the characters of `set` that are not empty.
pub fn piece_list(cs: &Vec<char>, set: CharSet) -> (r: Vec<Vec<char>>)
    ensures
        views(r@) == pieces(cs@, set),
{
    let pieces = split_chars(cs, set);
    let ghost all = views(pieces@);
    let ghost keep = |w: Seq<char>| w.len() > 0;
    let mut r: Vec<Vec<char>> = Vec::new();
    let mut i: usize = 0;
    proof {
        reveal(Seq::filter);
        assert(all.take(0).filter(keep) =~= Seq::<Seq<char>>::empty());
    }
    while i < pieces.len()
        invariant
            i <= pieces.len(),
            all == views(pieces@),
            keep == (|w: Seq<char>| w.len() > 0),
            views(r@) == all.take(i as int).filter(keep),
        decreases pieces.len() - i,
    {
        let ghost before = views(r@);
        proof {
            reveal(Seq::filter);
            assert(all.take(i + 1).drop_last() =~= all.take(i as int));
            assert(all.take(i + 1).last() == pieces@[i as int]@);
        }
        if pieces[i].len() > 0 {
            let piece = slice(&pieces[i], 0, pieces[i].len());
            proof {
                assert(piece@ =~= pieces@[i as int]@);
            }
            r.push(piece);
            proof {
                assert(views(r@) =~= before.push(piece@));
            }
        }
        i += 1;
    }
    proof {
        assert(all.take(all.len() as int) =~= all);
    }
    r
}

/// The lines of `cs`, without their line endings.
pub fn line_list(cs: &Vec<char>) -> (r: Vec<Vec<char>>)
    ensures
        views(r@) == lines(cs@),
{
    let pieces = split_chars(cs, CharSet::One('\n'));
    let ghost all = views(pieces@);
    let mut r: Vec<Vec<char>> = Vec::new();
    let mut i: usize = 0;
    let last: usize = pieces.len() - 1;
    let ghost ended = all.drop_last().map_values(|p: Seq<char>| strip_return(p));
    while i < last
        invariant
            i <= last,
            last == pieces.len() - 1,
            all == views(pieces@),
            ended == all.drop_last().map_values(|p: Seq<char>| strip_return(p)),
            views(r@) =~= ended.take(i as int),
        decreases last - i,
    {
        let ghost before = views(r@);
        let n: usize = pieces[i].len();
        let end: usize = if n > 0 && pieces[i][n - 1] == '\r' {
            n - 1
        } else {
            n
        };
        let line = slice(&pieces[i], 0, end);
        proof {
            assert(line@ =~= strip_return(pieces@[i as int]@));
        }
        r.push(line);
        proof {
            assert(views(r@) =~= before.push(line@));
        }
        i += 1;
    }
    proof {
        assert(ended.take(last as int) =~= ended);
    }
    if pieces[last].len() > 0 {
        let ghost before = views(r@);
        let line = slice(&pieces[last], 0, pieces[last].len());
        proof {
            assert(line@ =~= all.last());
        }
        r.push(line);
        proof {
            assert(views(r@) =~= before.push(line@));
        }
    }
    r
}

/// The parts, with `sep` between each two of them.
pub fn join_strings(parts: &Vec<String>, sep: &str) -> (r: String)
    ensures
        r@ == join(string_views(parts@), sep@),
{
    let mut r: String = String::new();
    let ghost all = string_views(parts@);
    let mut i: usize = 0;
    while i < parts.len()
        invariant
            i <= parts.len(),
            all == string_views(parts@),
            r@ =~= join(all.take(i as int), sep@),
        decreases parts.len() - i,
    {
        proof {
            assert(all.take(i + 1).drop_last() =~= all.take(i as int));
            assert(all.take(i + 1).last() == parts@[i as int]@);
        }
        if i > 0 {
            r.append(sep);
        }
        r.append(parts[i].as_str());
        i += 1;
    }
    proof {
        assert(all.take(all.len() as int) =~= all);
    }
    r
}

// ---------------------------------------------------------------------------
// Searching
// ---------------------------------------------------------------------------

/// Whether `s` holds a character of `set`.
pub open spec fn has_char(s: Seq<char>, set: CharSet) -> bool {
    exists|i: int| 0 <= i < s.len() && set.has(#[trigger] s[i])
}

/// Whether `s` begins with `head`.
pub open spec fn begins_with(s: Seq<char>, head: Seq<char>) -> bool {
    head.len() <= s.len() && s.take(head.len() as int) == head
}

/// Whether `s` ends with `tail`.
pub open spec fn finishes_with(s: Seq<char>, tail: Seq<char>) -> bool {
    tail.len() <= s.len() && s.skip(s.len() - tail.len()) == tail
}

/// Whether `part` occurs in `s`.
pub open spec fn holds(s: Seq<char>, part: Seq<char>) -> bool {
    exists|i: int|
        0 <= i <= s.len() - part.len() && #[trigger] s.subrange(i, i + part.len()) == part
}

/// Whether `cs` holds a character of `set`.
pub fn contains_char(cs: &Vec<char>, set: CharSet) -> (r: bool)
    ensures
        r == has_char(cs@, set),
{
    let mut i: usize = 0;
    while i < cs.len()
        invariant
            i <= cs.len(),
            forall|j: int| 0 <= j < i ==> !set.has(#[trigger] cs@[j]),
        decreases cs.len() - i,
    {
        if set.admits(cs[i]) {
            return true;
        }
        i += 1;
    }
    false
}

/// Whether `part` stands in `cs` at position `at`.
fn matches_at(cs: &Vec<char>, part: &Vec<char>, at: usize) -> (r: bool)
    requires
        at + part@.len() <= cs@.len(),
    ensures
        r == (cs@.subrange(at as int, at + part@.len()) == part@),
{
    let total: usize = cs.len();
    let size: usize = part.len();
    assert(at + size <= total);
    let piece = slice(cs, at, at + size);
    same_chars(&piece, part)
}

/// Whether `cs` begins with `head`.
pub fn starts_with(cs: &Vec<char>, head: &str) -> (r: bool)
    ensures
        r == begins_with(cs@, head@),
{
    let head = to_chars(head);
    head.len() <= cs.len() && matches_at(cs, &head, 0)
}

/// Whether `cs` ends with `tail`.
pub fn ends_with(cs: &Vec<char>, tail: &str) -> (r: bool)
    ensures
        r == finishes_with(cs@, tail@),
{
    let tail = to_chars(tail);
    tail.len() <= cs.len() && matches_at(cs, &tail, cs.len() - tail.len())
}

/// Whether `part` occurs in `cs`.
pub fn contains(cs: &Vec<char>, part: &str) -> (r: bool)
    ensures
        r == holds(cs@, part@),
{
    let pattern = to_chars(part);
    if pattern.len() > cs.len() {
        return false;
    }
    let starts: usize = cs.len() - pattern.len();
    let mut i: usize = 0;
    loop
        invariant
            pattern@ == part@,
            starts == cs@.len() - pattern@.len(),
            0 <= i <= starts,
            forall|j: int| 0 <= j < i ==> #[trigger] cs@.subrange(j, j + part@.len()) != part@,
        decreases starts - i,
    {
        if matches_at(cs, &pattern, i) {
            return true;
        }
        if i == starts {
            return false;
        }
        i += 1;
    }
}

// ---------------------------------------------------------------------------
// Numbers
// ---------------------------------------------------------------------------

/// The decimal digit for a value below ten.
pub open spec fn digit_char(d: nat) -> char {
    if d == 0 {
        '0'
    } else if d == 1 {
        '1'
    } else if d == 2 {
        '2'
    } else if d == 3 {
        '3'
    } else if d == 4 {
        '4'
    } else if d == 5 {
        '5'
    } else if d == 6 {
        '6'
    } else if d == 7 {
        '7'
    } else if d == 8 {
        '8'
    } else {
        '9'
    }
}

/// Whether `c` is a decimal digit.
pub open spec fn is_digit(c: char) -> bool {
    '0' <= c <= '9'
}

/// The value of a decimal digit.
pub open spec fn digit_value(c: char) -> nat {
    (c as u32 - '0' as u32) as nat
}

/// `n` in decimal, without leading zeros.
pub open spec fn decimal(n: nat) -> Seq<char>
    decreases n,
{
    if n < 10 {
        seq![digit_char(n)]
    } else {
        decimal(n / 10).push(digit_char(n % 10))
    }
}

/// The number that a run of digits stands for.
pub open spec fn digits_value(s: Seq<char>) -> nat
    decreases s.len(),
{
    if s.len() == 0 {
        0
    } else {
        digits_value(s.drop_last()) * 10 + digit_value(s.last())
    }
}

/// Whether `s` is a non-empty run of digits.
pub open spec fn is_digits(s: Seq<char>) -> bool {
    s.len() > 0 && forall|i: int| 0 <= i < s.len() ==> is_digit(#[trigger] s[i])
}

/// `s` without a plus sign at its front.
pub open spec fn strip_plus(s: Seq<char>) -> Seq<char> {
    if s.len() > 0 && s[0] == '+' {
        s.drop_first()
    } else {
        s
    }
}

/// The unsigned number that `s` spells: digits after an optional plus sign, at most `max`.
pub open spec fn unsigned(s: Seq<char>, max: nat) -> Option<nat> {
    let body = strip_plus(s);
    if is_digits(body) && digits_value(body) <= max {
        Some(digits_value(body))
    } else {
        None
    }
}

proof fn digit_round_trip(d: nat)
    requires
        d < 10,
    ensures
        is_digit(digit_char(d)),
        digit_value(digit_char(d)) == d,
{
}

/// A number's decimal form is a run of digits that stands for the number.
pub proof fn decimal_round_trip(n: nat)
    ensures
        is_digits(decimal(n)),
        digits_value(decimal(n)) == n,
    decreases n,
{
    digit_round_trip(n % 10);
    if n < 10 {
        assert(decimal(n).drop_last() =~= Seq::<char>::empty());
        assert(digits_value(decimal(n).drop_last()) == 0);
        assert(digits_value(decimal(n)) == n);
    } else {
        decimal_round_trip(n / 10);
        assert(decimal(n).drop_last() =~= decimal(n / 10));
    }
}

/// Different numbers have different decimal forms.
pub proof fn decimal_is_injective(a: nat, b: nat)
    ensures
        decimal(a) == decimal(b) ==> a == b,
{
    decimal_round_trip(a);
    decimal_round_trip(b);
}

/// Reading back a number's decimal form gives the number.
pub proof fn unsigned_of_decimal(n: nat, max: nat)
    ensures
        unsigned(decimal(n), max) == if n <= max {
            Some(n)
        } else {
            None
        },
{
    decimal_round_trip(n);
    assert(is_digit(decimal(n)[0]));
    assert(strip_plus(decimal(n)) == decimal(n));
}

proof fn digits_value_of_prefix(s: Seq<char>, i: int)
    requires
        0 <= i <= s.len(),
    ensures
        digits_value(s.take(i)) <= digits_value(s),
    decreases s.len() - i,
{
    if i == s.len() {
        assert(s.take(i) =~= s);
    } else {
        digits_value_of_prefix(s, i + 1);
        assert(s.take(i + 1).drop_last() =~= s.take(i));
    }
}

/// The decimal digit for a value below ten.
fn digit(d: u64) -> (r: char)
    requires
        d < 10,
    ensures
        r == digit_char(d as nat),
{
    if d == 0 {
        '0'
    } else if d == 1 {
        '1'
    } else if d == 2 {
        '2'
    } else if d == 3 {
        '3'
    } else if d == 4 {
        '4'
    } else if d == 5 {
        '5'
    } else if d == 6 {
        '6'
    } else if d == 7 {
        '7'
    } else if d == 8 {
        '8'
    } else {
        '9'
    }
}

/// `n` in decimal.
pub fn decimal_string(n: u64) -> (r: String)
    ensures
        r@ == decimal(n as nat),
    decreases n,
{
    if n < 10 {
        let mut r: String = String::new();
        r.push(digit(n));
        proof {
            assert(r@ =~= seq![digit_char(n as nat)]);
        }
        r
    } else {
        let mut r = decimal_string(n / 10);
        r.push(digit(n % 10));
        r
    }
}

/// The unsigned number, at most `max`, that `cs` spells.
pub fn parse_unsigned(cs: &Vec<char>, max: u64) -> (r: Option<u64>)
    ensures
        match r {
            Some(n) => unsigned(cs@, max as nat) == Some(n as nat),
            None => unsigned(cs@, max as nat) is None,
        },
{
    let start: usize = if cs.len() > 0 && cs[0] == '+' {
        1
    } else {
        0
    };
    let ghost body = strip_plus(cs@);
    assert(body =~= cs@.skip(start as int));
    if start == cs.len() {
        return None;
    }
    let mut n: u64 = 0;
    let mut i: usize = start;
    while i < cs.len()
        invariant
            start <= i <= cs.len(),
            body == cs@.skip(start as int),
            body == strip_plus(cs@),
            start < cs@.len(),
            n <= max,
            n == digits_value(body.take(i - start)),
            forall|j: int| 0 <= j < i - start ==> is_digit(#[trigger] body[j]),
        decreases cs.len() - i,
    {
        let c = cs[i];
        proof {
            assert(body[i - start] == c);
            assert(body.take(i - start + 1).drop_last() =~= body.take(i - start));
            digits_value_of_prefix(body, i - start + 1);
        }
        if c < '0' || c > '9' {
            return None;
        }
        let d: u64 = (c as u32 - '0' as u32) as u64;
        if d > max || n > (max - d) / 10 {
            return None;
        }
        n = n * 10 + d;
        i += 1;
    }
    proof {
        assert(body.take(body.len() as int) =~= body);
    }
    Some(n)
}

// ---------------------------------------------------------------------------
// Padding
// ---------------------------------------------------------------------------

/// `n` spaces.
pub open spec fn spaces(n: nat) -> Seq<char> {
    Seq::new(n, |i: int| ' ')
}

/// How many characters `s` lacks to be `width` long.
pub open spec fn lacking(s: Seq<char>, width: nat) -> nat {
    if s.len() >= width {
        0
    } else {
        (width - s.len()) as nat
    }
}

/// `s` on the left of a field of the given width.
pub open spec fn left(s: Seq<char>, width: nat) -> Seq<char> {
    s + spaces(lacking(s, width))
}

/// `s` on the right of a field of the given width.
pub open spec fn right(s: Seq<char>, width: nat) -> Seq<char> {
    spaces(lacking(s, width)) + s
}

/// `s` in the middle of a field of the given width; an odd space goes to the right.
pub open spec fn centered(s: Seq<char>, width: nat) -> Seq<char> {
    let gap = lacking(s, width);
    spaces(gap / 2) + s + spaces((gap - gap / 2) as nat)
}

/// `n` in decimal, filled with zeros on the left to the given width.
pub open spec fn zero_padded(n: nat, width: nat) -> Seq<char> {
    Seq::new(lacking(decimal(n), width), |i: int| '0') + decimal(n)
}

/// A number below a hundred, filled to two digits, has two.
pub proof fn two_digits(n: nat)
    requires
        n < 100,
    ensures
        zero_padded(n, 2).len() == 2,
{
    reveal_with_fuel(decimal, 2);
    assert(decimal(n).len() == if n < 10 {
        1nat
    } else {
        2
    });
}

/// Appends `n` times the character `c`.
pub fn push_repeated(r: &mut String, c: char, n: usize)
    ensures
        final(r)@ == old(r)@ + Seq::new(n as nat, |i: int| c),
{
    let mut i: usize = 0;
    proof {
        assert(old(r)@ + Seq::new(0, |i: int| c) =~= old(r)@);
    }
    while i < n
        invariant
            i <= n,
            r@ == old(r)@ + Seq::new(i as nat, |i: int| c),
        decreases n - i,
    {
        r.push(c);
        i += 1;
        proof {
            assert(Seq::new(i as nat, |i: int| c) =~= Seq::new((i - 1) as nat, |i: int| c).push(c));
        }
    }
}

fn gap(s: &str, width: usize) -> (r: usize)
    ensures
        r == lacking(s@, width as nat),
{
    let n: usize = s.unicode_len();
    if n >= width {
        0
    } else {
        width - n
    }
}

/// Appends `s` on the left of a field of the given width.
pub fn push_left(r: &mut String, s: &str, width: usize)
    ensures
        final(r)@ == old(r)@ + left(s@, width as nat),
{
    let missing = gap(s, width);
    r.append(s);
    push_repeated(r, ' ', missing);
    proof {
        assert(r@ =~= old(r)@ + left(s@, width as nat));
    }
}

/// Appends `s` on the right of a field of the given width.
pub fn push_right(r: &mut String, s: &str, width: usize)
    ensures
        final(r)@ == old(r)@ + right(s@, width as nat),
{
    let missing = gap(s, width);
    push_repeated(r, ' ', missing);
    r.append(s);
    proof {
        assert(r@ =~= old(r)@ + right(s@, width as nat));
    }
}

/// Appends `s` in the middle of a field of the given width.
pub fn push_centered(r: &mut String, s: &str, width: usize)
    ensures
        final(r)@ == old(r)@ + centered(s@, width as nat),
{
    let missing = gap(s, width);
    push_repeated(r, ' ', missing / 2);
    r.append(s);
    push_repeated(r, ' ', missing - missing / 2);
    proof {
        assert(r@ =~= old(r)@ + centered(s@, width as nat));
    }
}

/// Appends `n` in decimal, filled with zeros on the left to the given width.
pub fn push_zero_padded(r: &mut String, n: u64, width: usize)
    ensures
        final(r)@ == old(r)@ + zero_padded(n as nat, width as nat),
{
    let digits = decimal_string(n);
    let missing = gap(digits.as_str(), width);
    push_repeated(r, '0', missing);
    r.append(digits.as_str());
    proof {
        assert(r@ =~= old(r)@ + zero_padded(n as nat, width as nat));
    }
}

} // verus!
