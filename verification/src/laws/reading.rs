//! What is read from commands, logs and the system.

use crate::laws::texts;
use crate::pattern;
use crate::process;
use crate::progress;
use crate::progress::{FoundView, LogFile, ProcessFacts, ProcessLink};
use crate::text;
use crate::text::CharSet;
use vstd::prelude::*;

verus! {

// ---------------------------------------------------------------------------
// Case directories
// ---------------------------------------------------------------------------

/// A candidate is an absolute path that stands in the raw text.
pub proof fn candidate_stands_in_the_raw_text(raw: Seq<char>) -> (at: (int, int))
    requires
        progress::candidate(raw) is Some,
    ensures
        0 <= at.0 < at.1 <= raw.len(),
        progress::candidate(raw) == Some(raw.subrange(at.0, at.1)),
        raw[at.0] == '/',
{
    reveal_strlit("/");
    let (a, b) = texts::trimming_takes_the_ends_off(raw, CharSet::Space);
    let one = raw.subrange(a, b);
    let (c, d) = texts::trimming_takes_the_ends_off(one, CharSet::One('"'));
    let two = one.subrange(c, d);
    let (e, f) = texts::trimming_takes_the_ends_off(two, CharSet::One('\''));
    let three = two.subrange(e, f);
    let g = texts::trimmed_back_end(three, CharSet::One('\\'));
    let found = three.take(g);
    assert(progress::candidate(raw) == Some(found));
    assert(found.take(1)[0] == '/');
    assert(found =~= raw.subrange(a + c + e, a + c + e + g));
    (a + c + e, a + c + e + g)
}

/// An absolute path that ends with no blank, quote or back slash is a candidate as it stands, and
/// with blanks or quotes around it.
pub proof fn absolute_paths_are_candidates(path: Seq<char>)
    requires
        path.len() > 0,
        path[0] == '/',
        path[path.len() - 1] != '"' && path[path.len() - 1] != '\'' && path[path.len() - 1] != '\\'
            && !text::is_space(path[path.len() - 1]),
    ensures
        progress::candidate(path) == Some(path),
        progress::candidate(seq!['"'] + path + seq!['"']) == Some(path),
        progress::candidate(seq!['\''] + path + seq!['\'']) == Some(path),
        progress::candidate(seq![' '] + path + seq![' ']) == Some(path),
        progress::candidate(path + seq!['\\']) == Some(path),
{
    plain_candidate(path);
    reveal_strlit("/");
    assert(path.take(1) =~= "/"@);
    texts::nothing_to_trim(path, CharSet::Space);
    texts::nothing_to_trim(path, CharSet::One('"'));
    texts::nothing_to_trim(path, CharSet::One('\''));
    texts::nothing_to_trim(path, CharSet::One('\\'));
    let q = seq!['"'] + path + seq!['"'];
    assert(progress::candidate(q) == Some(path)) by {
        texts::nothing_to_trim(q, CharSet::Space);
        texts::ends_come_off(q, path, '"', CharSet::One('"'));
    }
    let s = seq!['\''] + path + seq!['\''];
    assert(progress::candidate(s) == Some(path)) by {
        texts::nothing_to_trim(s, CharSet::Space);
        texts::nothing_to_trim(s, CharSet::One('"'));
        texts::ends_come_off(s, path, '\'', CharSet::One('\''));
    }
    let w = seq![' '] + path + seq![' '];
    assert(progress::candidate(w) == Some(path)) by {
        texts::ends_come_off(w, path, ' ', CharSet::Space);
    }
    let k = path + seq!['\\'];
    assert(progress::candidate(k) == Some(path)) by {
        texts::nothing_to_trim(k, CharSet::Space);
        texts::nothing_to_trim(k, CharSet::One('"'));
        texts::nothing_to_trim(k, CharSet::One('\''));
        assert(k.drop_last() =~= path);
    }
}

proof fn plain_candidate(path: Seq<char>)
    requires
        path.len() > 0,
        path[0] == '/',
        path[path.len() - 1] != '"' && path[path.len() - 1] != '\'' && path[path.len() - 1] != '\\'
            && !text::is_space(path[path.len() - 1]),
    ensures
        progress::candidate(path) == Some(path),
{
    reveal_strlit("/");
    texts::nothing_to_trim(path, CharSet::Space);
    texts::nothing_to_trim(path, CharSet::One('"'));
    texts::nothing_to_trim(path, CharSet::One('\''));
    texts::nothing_to_trim(path, CharSet::One('\\'));
    assert(path.take(1) =~= "/"@);
}

/// The candidates of a list of matches are those of each match, in order, up to the first match
/// without its group.
pub proof fn matches_give_candidates_in_order(
    a: Seq<Option<Seq<char>>>,
    b: Seq<Option<Seq<char>>>,
    raw: Seq<char>,
)
    requires
        forall|i: int| 0 <= i < a.len() ==> (#[trigger] a[i]) is Some,
    ensures
        progress::group_candidates(a + b) == progress::group_candidates(a)
            + progress::group_candidates(b),
        progress::group_candidates(a + seq![None] + b) == progress::group_candidates(a),
        progress::group_candidates(seq![Some(raw)]) == match progress::candidate(raw) {
            Some(path) => seq![path],
            None => Seq::<Seq<char>>::empty(),
        },
        progress::group_candidates(Seq::empty()) == Seq::<Seq<char>>::empty(),
    decreases a.len(),
{
    reveal_with_fuel(progress::group_candidates, 2);
    let one = seq![Some(raw)];
    assert(one.drop_first() =~= Seq::<Option<Seq<char>>>::empty());
    assert(progress::group_candidates(one) =~= progress::candidate_list(raw));
    let stop = a + seq![None] + b;
    if a.len() == 0 {
        assert(a + b =~= b);
        assert(progress::group_candidates(a) + progress::group_candidates(b)
            =~= progress::group_candidates(b));
    } else {
        let rest = a.drop_first();
        assert forall|i: int| 0 <= i < rest.len() implies (#[trigger] rest[i]) is Some by {
            assert(rest[i] == a[i + 1]);
        }
        matches_give_candidates_in_order(rest, b, raw);
        assert((a + b).drop_first() =~= rest + b);
        assert(stop.drop_first() =~= rest + seq![None] + b);
        assert(a[0] is Some);
        assert(progress::group_candidates(a + b) =~= progress::group_candidates(a)
            + progress::group_candidates(b));
    }
}

/// Candidates come by how likely they are: the case line of a log header before a change of
/// directory before any other path. A search that finds nothing takes nothing from the others; one
/// that cannot be made ends the list.
pub proof fn candidates_come_likeliest_first(
    case_line: FoundView,
    quoted: FoundView,
    plain: FoundView,
    paths: Option<Seq<Option<Seq<char>>>>,
    raw: Seq<char>,
    path: Seq<char>,
)
    ensures
        progress::candidate(raw) == Some(path) ==> {
            &&& progress::ranked(FoundView::Group(raw), quoted, plain, paths) == seq![path]
                + progress::ranked(FoundView::Nothing, quoted, plain, paths)
            &&& progress::ranked(FoundView::Nothing, FoundView::Group(raw), plain, paths) == seq![
                path,
            ] + progress::ranked(FoundView::Nothing, FoundView::Nothing, plain, paths)
            &&& progress::ranked(
                FoundView::Nothing,
                FoundView::Nothing,
                FoundView::Group(raw),
                paths,
            ) == seq![path] + progress::ranked(
                FoundView::Nothing,
                FoundView::Nothing,
                FoundView::Nothing,
                paths,
            )
        },
        progress::candidate(raw) is None ==> {
            &&& progress::ranked(FoundView::Group(raw), quoted, plain, paths) == progress::ranked(
                FoundView::Nothing,
                quoted,
                plain,
                paths,
            )
            &&& progress::ranked(case_line, FoundView::Group(raw), plain, paths)
                == progress::ranked(case_line, FoundView::Nothing, plain, paths)
            &&& progress::ranked(case_line, quoted, FoundView::Group(raw), paths)
                == progress::ranked(case_line, quoted, FoundView::Nothing, paths)
        },
        progress::ranked(FoundView::Stop, quoted, plain, paths).len() == 0,
        progress::ranked(FoundView::Nothing, FoundView::Stop, plain, paths).len() == 0,
        progress::ranked(FoundView::Nothing, FoundView::Nothing, FoundView::Stop, paths).len() == 0,
        paths is Some ==> progress::ranked(
            FoundView::Nothing,
            FoundView::Nothing,
            FoundView::Nothing,
            paths,
        ) == progress::group_candidates(paths->0),
        progress::ranked(
            FoundView::Nothing,
            FoundView::Nothing,
            FoundView::Nothing,
            None,
        ).len() == 0,
{
    if progress::candidate(raw) is None {
        let last = progress::listed_candidates(paths);
        let none = Seq::<Seq<char>>::empty();
        assert(none + last =~= last);
        let third = progress::and_on(plain, last);
        assert(none + third =~= third);
        let second = progress::and_on(quoted, third);
        assert(none + second =~= second);
    }
}

/// A search gives the text of the group of the first match; it ends the list where the pattern
/// cannot be used or the match has no group.
pub proof fn search_gives_the_first_group(
    expression: Seq<char>,
    s: Seq<char>,
    group: Seq<char>,
)
    ensures
        progress::found(expression, s) == FoundView::Group(group) <==> pattern::compiles(expression)
            && pattern::first_match(expression, s) == Some(Some(group)),
        progress::found(expression, s) == FoundView::Nothing <==> pattern::compiles(expression)
            && pattern::first_match(expression, s) is None,
        progress::group_in(expression, s) == Some(group) <==> pattern::compiles(expression)
            && pattern::first_match(expression, s) == Some(Some(group)),
{
}

/// The candidates in a command that reads as a list are those in each argument, in order, then
/// those in the arguments together, then those in the command as it stands.
pub proof fn command_candidates_come_in_order(
    cmd: Seq<char>,
    a: Seq<Seq<char>>,
    b: Seq<Seq<char>>,
    argument: Seq<char>,
)
    ensures
        progress::argument_candidates(a + b) == progress::argument_candidates(a)
            + progress::argument_candidates(b),
        progress::argument_candidates(seq![argument]) == progress::text_candidates(argument),
        progress::argument_candidates(Seq::empty()).len() == 0,
        progress::command_candidates(cmd, None) == progress::text_candidates(cmd),
        progress::command_candidates(cmd, Some(a)) == progress::argument_candidates(a)
            + progress::text_candidates(text::join(a, " "@)) + progress::text_candidates(cmd),
    decreases b.len(),
{
    reveal_with_fuel(progress::argument_candidates, 2);
    assert(seq![argument].drop_last() =~= Seq::<Seq<char>>::empty());
    assert(progress::argument_candidates(seq![argument]) =~= progress::text_candidates(argument));
    if b.len() == 0 {
        assert(a + b =~= a);
        assert(progress::argument_candidates(a) + progress::argument_candidates(b)
            =~= progress::argument_candidates(a));
    } else {
        command_candidates_come_in_order(cmd, a, b.drop_last(), argument);
        assert((a + b).drop_last() =~= a + b.drop_last());
        assert((a + b).last() == b.last());
        assert(progress::argument_candidates(a + b) =~= progress::argument_candidates(a)
            + progress::argument_candidates(b));
    }
}

// ---------------------------------------------------------------------------
// Lines of logs
// ---------------------------------------------------------------------------

/// The texts that are there keep their order and are all that is kept.
pub proof fn present_texts_keep_their_order(
    a: Seq<Option<Seq<char>>>,
    b: Seq<Option<Seq<char>>>,
    s: Seq<char>,
)
    ensures
        progress::present(a + b) == progress::present(a) + progress::present(b),
        progress::present(seq![Some(s)]) == seq![s],
        progress::present(seq![None::<Seq<char>>]).len() == 0,
        progress::present(Seq::empty()).len() == 0,
    decreases b.len(),
{
    reveal_with_fuel(progress::present, 2);
    let one = seq![Some(s)];
    let none = seq![None::<Seq<char>>];
    assert(one.drop_last() =~= Seq::<Option<Seq<char>>>::empty());
    assert(none.drop_last() =~= Seq::<Option<Seq<char>>>::empty());
    assert(progress::present(one) =~= seq![s]);
    if b.len() == 0 {
        assert(a + b =~= a);
        assert(progress::present(a) + progress::present(b) =~= progress::present(a));
    } else {
        present_texts_keep_their_order(a, b.drop_last(), s);
        assert((a + b).drop_last() =~= a + b.drop_last());
        assert((a + b).last() == b.last());
        assert(progress::present(a + b) =~= progress::present(a) + progress::present(b));
    }
}

/// Each line is searched by itself.
pub proof fn lines_are_searched_one_by_one(expression: Seq<char>, lines: Seq<Seq<char>>, i: int)
    requires
        0 <= i < lines.len(),
    ensures
        progress::line_groups(expression, lines).len() == lines.len(),
        progress::line_groups(expression, lines)[i] == progress::group_in(expression, lines[i]),
        progress::line_matches(expression, lines).len() == lines.len(),
        progress::line_matches(expression, lines)[i] == pattern::has_match(expression, lines[i]),
{
}

/// A count is of every yes and of nothing else.
pub proof fn every_yes_counts(a: Seq<bool>, b: Seq<bool>)
    ensures
        progress::yes_count(a + b) == progress::yes_count(a) + progress::yes_count(b),
        progress::yes_count(seq![true]) == 1,
        progress::yes_count(seq![false]) == 0,
        progress::yes_count(Seq::empty()) == 0,
    decreases b.len(),
{
    reveal_with_fuel(progress::yes_count, 2);
    assert(seq![true].drop_last() =~= Seq::<bool>::empty());
    assert(seq![false].drop_last() =~= Seq::<bool>::empty());
    if b.len() == 0 {
        assert(a + b =~= a);
    } else {
        every_yes_counts(a, b.drop_last());
        assert((a + b).drop_last() =~= a + b.drop_last());
        assert((a + b).last() == b.last());
    }
}

/// Each line that has a word gives its first, in order.
pub proof fn lines_give_their_first_words(a: Seq<Seq<char>>, b: Seq<Seq<char>>, line: Seq<char>)
    ensures
        progress::first_words(a + b) == progress::first_words(a) + progress::first_words(b),
        text::words(line).len() > 0 ==> progress::first_words(seq![line]) == seq![
            text::words(line)[0],
        ],
        text::words(line).len() == 0 ==> progress::first_words(seq![line]).len() == 0,
        progress::first_words(Seq::empty()).len() == 0,
    decreases b.len(),
{
    reveal_with_fuel(progress::first_words, 2);
    assert(seq![line].drop_last() =~= Seq::<Seq<char>>::empty());
    if text::words(line).len() > 0 {
        assert(progress::first_words(seq![line]) =~= seq![text::words(line)[0]]);
    }
    if b.len() == 0 {
        assert(a + b =~= a);
        assert(progress::first_words(a) + progress::first_words(b) =~= progress::first_words(a));
    } else {
        lines_give_their_first_words(a, b.drop_last(), line);
        assert((a + b).drop_last() =~= a + b.drop_last());
        assert((a + b).last() == b.last());
        assert(progress::first_words(a + b) =~= progress::first_words(a) + progress::first_words(
            b,
        ));
    }
}

/// What is looked for in commands, control dictionaries and logs.
pub proof fn patterns_that_are_looked_for()
    ensures
        progress::LOG_CASE@ == r"(?m)^Case\s*:\s*(.+?)\s*$"@,
        progress::QUOTED_CD@ == r#"cd\s+["\u{201c}]?([/][^"\s;]+)"#@,
        progress::PLAIN_CD@ == r"cd\s+(/[^\s;]+)"@,
        progress::ABSOLUTE_PATH@ == r#"(?:"|')?(/[^\s"'`;]+)(?:"|')?"#@,
        progress::END_TIME@ == r"endTime\s+([0-9.eE+\-]+)\s*;"@,
        progress::DELTA_T@ == r"deltaT\s+([0-9.eE+\-]+)\s*;"@,
        progress::ADJUST_TIME_STEP@ == r"adjustTimeStep\s+(true|yes|on|1)\s*;"@,
        progress::CURRENT_TIME@
            == r"^(?:Time\s*=\s*|DYNAMIC-HOTSPOT\s+time=|EC-BLOCK-SUMMARY\s+time=)([0-9.eE+\-]+)"@,
        progress::STEP_TIME@ == r"^Time\s*=\s*([0-9.eE+\-]+)"@,
        progress::step_pattern(true) == r"^deltaT\s*=\s*[0-9.eE+\-]+"@,
        progress::step_pattern(false) == r"^Time\s*=\s*[0-9.eE+\-]+"@,
{
}

// ---------------------------------------------------------------------------
// Log files
// ---------------------------------------------------------------------------

/// A log is a file whose name begins with `log`.
pub proof fn logs_are_named_so(name: Seq<char>)
    ensures
        progress::is_log(name) <==> name.len() >= 3 && name[0] == 'l' && name[1] == 'o' && name[2]
            == 'g',
        progress::is_log("log.run"@),
{
    reveal_strlit("log");
    reveal_strlit("log.run");
    assert("log.run"@.take(3) =~= "log"@);
    if name.len() >= 3 && name[0] == 'l' && name[1] == 'o' && name[2] == 'g' {
        assert(name.take(3) =~= "log"@);
    }
    if progress::is_log(name) {
        assert(name.take(3)[0] == 'l' && name.take(3)[1] == 'o' && name.take(3)[2] == 'g');
    }
}

/// The log that was changed last is a log; no log has a later time, a log without a time is never
/// taken before one with a time, and of logs of the same time the last in the list is taken. So it
/// is one log.
pub proof fn latest_log_is_the_latest(files: Seq<LogFile>, i: int, j: int)
    requires
        progress::is_latest_log(files, i),
        0 <= j < files.len(),
        progress::is_log(files[j].name@),
    ensures
        0 <= i < files.len(),
        progress::is_log(files[i].name@),
        files[j].modified is Some ==> files[i].modified is Some && files[j].modified->0
            <= files[i].modified->0,
        files[j].modified == files[i].modified ==> j <= i,
        progress::is_latest_log(files, j) ==> j == i,
{
}

/// The solver's log is taken before all others: it is the first file named `log.run`.
pub proof fn solver_log_is_named_so(files: Seq<LogFile>, i: int)
    ensures
        progress::is_solver_log(files, i) <==> {
            &&& 0 <= i < files.len()
            &&& files[i].name@ == "log.run"@
            &&& forall|j: int| 0 <= j < i ==> (#[trigger] files[j]).name@ != "log.run"@
        },
        progress::has_solver_log(files) <==> exists|j: int|
            0 <= j < files.len() && (#[trigger] files[j]).name@ == "log.run"@,
{
}

// ---------------------------------------------------------------------------
// Processes
// ---------------------------------------------------------------------------

/// The fields of a process are read behind its command name, whatever brackets and blanks the name
/// holds.
pub proof fn fields_stand_behind_the_name(front: Seq<char>, rest: Seq<char>)
    requires
        forall|i: int| 0 <= i < rest.len() ==> #[trigger] rest[i] != ')',
    ensures
        progress::fields_of(front + seq![')'] + rest) == Some(text::words(rest)),
        progress::fields_of(rest) is None,
{
    bracket_at(front, rest);
    no_bracket(rest);
    let stat = front + seq![')'] + rest;
    assert(stat.skip(front.len() as int + 1) =~= rest);
}

proof fn bracket_at(front: Seq<char>, rest: Seq<char>)
    requires
        forall|i: int| 0 <= i < rest.len() ==> #[trigger] rest[i] != ')',
    ensures
        progress::last_bracket(front + seq![')'] + rest) == Some(front.len() as int),
    decreases rest.len(),
{
    let stat = front + seq![')'] + rest;
    if rest.len() > 0 {
        let shorter = rest.drop_last();
        assert forall|i: int| 0 <= i < shorter.len() implies #[trigger] shorter[i] != ')' by {
            assert(shorter[i] == rest[i]);
        }
        bracket_at(front, shorter);
        assert(stat.drop_last() =~= front + seq![')'] + shorter);
        assert(stat.last() == rest[rest.len() - 1]);
    }
}

proof fn no_bracket(rest: Seq<char>)
    requires
        forall|i: int| 0 <= i < rest.len() ==> #[trigger] rest[i] != ')',
    ensures
        progress::last_bracket(rest) is None,
    decreases rest.len(),
{
    if rest.len() > 0 {
        let shorter = rest.drop_last();
        assert forall|i: int| 0 <= i < shorter.len() implies #[trigger] shorter[i] != ')' by {
            assert(shorter[i] == rest[i]);
        }
        assert(rest[rest.len() - 1] != ')');
        no_bracket(shorter);
    }
}

/// The children of a process are those that name it as their parent, in the order of the list.
pub proof fn children_name_their_parent(
    a: Seq<ProcessLink>,
    b: Seq<ProcessLink>,
    pid: u32,
    link: ProcessLink,
)
    ensures
        progress::children_of(a + b, pid) == progress::children_of(a, pid) + progress::children_of(
            b,
            pid,
        ),
        link.parent == pid ==> progress::children_of(seq![link], pid) == seq![link.pid],
        link.parent != pid ==> progress::children_of(seq![link], pid).len() == 0,
{
    let own = |l: ProcessLink| l.parent == pid;
    let number = |l: ProcessLink| l.pid;
    Seq::filter_distributes_over_add(a, b, own);
    assert((a.filter(own) + b.filter(own)).map_values(number) =~= a.filter(own).map_values(number)
        + b.filter(own).map_values(number));
    reveal(Seq::filter);
    let one = seq![link];
    assert(one.drop_last() =~= Seq::<ProcessLink>::empty());
    assert(one.drop_last().filter(own) =~= Seq::<ProcessLink>::empty());
    if link.parent == pid {
        assert(one.filter(own) =~= one);
        assert(progress::children_of(one, pid) =~= seq![link.pid]);
    }
}

/// A process tree holds nothing but the processes it starts from and children of processes in it,
/// and starts with the first of them.
pub proof fn tree_holds_only_descendants(
    links: Seq<ProcessLink>,
    queue: Seq<u32>,
    limit: nat,
    pid: u32,
)
    requires
        progress::walk(links, queue, limit) is Some,
        (progress::walk(links, queue, limit)->0).contains(pid),
    ensures
        ({
            let tree = progress::walk(links, queue, limit)->0;
            ||| queue.contains(pid)
            ||| exists|parent: u32| #[trigger]
                tree.contains(parent) && progress::children_of(links, parent).contains(pid)
        }),
        queue.len() > 0 ==> (progress::walk(links, queue, limit)->0)[0] == queue[0],
    decreases limit,
{
    let tree = progress::walk(links, queue, limit)->0;
    if queue.len() > 0 {
        let first = queue[0];
        let children = progress::children_of(links, first);
        let next = queue.drop_first() + children;
        let rest = progress::walk(links, next, (limit - 1) as nat)->0;
        assert(tree =~= seq![first] + rest);
        let k = tree.index_of(pid);
        if k == 0 {
            assert(queue[0] == pid);
        } else {
            assert(rest[k - 1] == pid);
            assert(rest.contains(pid));
            tree_holds_only_descendants(links, next, (limit - 1) as nat, pid);
            if next.contains(pid) {
                let i = next.index_of(pid);
                if i < queue.len() - 1 {
                    assert(queue[i + 1] == pid);
                } else {
                    assert(children[i - (queue.len() - 1)] == pid);
                    assert(tree[0] == first);
                    assert(tree.contains(first));
                }
            } else {
                let parent = choose|parent: u32| #[trigger]
                    rest.contains(parent) && progress::children_of(links, parent).contains(pid);
                let i = rest.index_of(parent);
                assert(tree[i + 1] == parent);
                assert(tree.contains(parent));
            }
        }
    }
}

/// A process tree is found exactly where as many steps are allowed as it has processes; more steps
/// give the same tree.
pub proof fn tree_is_found_where_the_steps_suffice(
    links: Seq<ProcessLink>,
    queue: Seq<u32>,
    limit: nat,
    more: nat,
)
    requires
        progress::walk(links, queue, limit) is Some,
    ensures
        (progress::walk(links, queue, limit)->0).len() <= limit,
        more >= (progress::walk(links, queue, limit)->0).len() ==> progress::walk(
            links,
            queue,
            more,
        ) == progress::walk(links, queue, limit),
        more < (progress::walk(links, queue, limit)->0).len() ==> progress::walk(
            links,
            queue,
            more,
        ) is None,
    decreases limit,
{
    if queue.len() > 0 {
        let next = queue.drop_first() + progress::children_of(links, queue[0]);
        if more > 0 {
            tree_is_found_where_the_steps_suffice(
                links,
                next,
                (limit - 1) as nat,
                (more - 1) as nat,
            );
        } else {
            tree_is_found_where_the_steps_suffice(links, next, (limit - 1) as nat, 0);
        }
    }
}

/// A command line is that of a solver where one of its words is: one that holds `openFuelCell` or
/// ends with `Foam`. Words are separated by zero characters.
pub proof fn solver_is_told_by_its_words(a: Seq<char>, b: Seq<char>, word: Seq<char>)
    requires
        forall|i: int| 0 <= i < word.len() ==> #[trigger] word[i] != '\0',
    ensures
        progress::is_solver(a + seq!['\0'] + b) <==> progress::is_solver(a) || progress::is_solver(
            b,
        ),
        progress::is_solver(word) <==> text::holds(word, "openFuelCell"@) || text::finishes_with(
            word,
            "Foam"@,
        ),
{
    let set = CharSet::One('\0');
    let whole = a + seq!['\0'] + b;
    let left = text::split(a, set);
    let right = text::split(b, set);
    texts::text_is_split_at_separators(a, '\0', b, set);
    texts::text_is_split_at_separators(word, '\0', b, set);
    assert forall|i: int| 0 <= i < word.len() implies !set.has(#[trigger] word[i]) by {
        assert(word[i] != '\0');
    }
    assert(text::split(word, set)[0] == word);
    reveal_strlit("openFuelCell");
    let name = "openFuelCell"@;
    assert forall|k: int| 0 <= k < name.len() implies #[trigger] name[k] != '\0' by {}
    held_on_one_side(a, b, name);
    let all = text::split(whole, set);
    assert(all == left + right);
    if exists|i: int| 0 <= i < left.len() && text::finishes_with(#[trigger] left[i], "Foam"@) {
        let i = choose|i: int| 0 <= i < left.len() && text::finishes_with(
            #[trigger] left[i],
            "Foam"@,
        );
        assert(all[i] == left[i]);
    }
    if exists|i: int| 0 <= i < right.len() && text::finishes_with(#[trigger] right[i], "Foam"@) {
        let i = choose|i: int| 0 <= i < right.len() && text::finishes_with(
            #[trigger] right[i],
            "Foam"@,
        );
        assert(all[left.len() + i] == right[i]);
    }
    if exists|i: int| 0 <= i < all.len() && text::finishes_with(#[trigger] all[i], "Foam"@) {
        let i = choose|i: int| 0 <= i < all.len() && text::finishes_with(
            #[trigger] all[i],
            "Foam"@,
        );
        if i < left.len() {
            assert(left[i] == all[i]);
        } else {
            assert(right[i - left.len()] == all[i]);
        }
    }
}

proof fn held_on_one_side(a: Seq<char>, b: Seq<char>, part: Seq<char>)
    requires
        part.len() > 0,
        forall|k: int| 0 <= k < part.len() ==> #[trigger] part[k] != '\0',
    ensures
        text::holds(a + seq!['\0'] + b, part) <==> text::holds(a, part) || text::holds(b, part),
{
    let whole = a + seq!['\0'] + b;
    if text::holds(whole, part) {
        let i = choose|i: int|
            0 <= i <= whole.len() - part.len() && #[trigger] whole.subrange(i, i + part.len())
                == part;
        let found = whole.subrange(i, i + part.len());
        if i + part.len() <= a.len() {
            assert(a.subrange(i, i + part.len()) =~= found);
        } else if i > a.len() {
            let j = i - a.len() - 1;
            assert(b.subrange(j, j + part.len()) =~= found);
        } else {
            assert(found[a.len() - i] == whole[a.len() as int]);
            assert(part[a.len() - i] == '\0');
        }
    }
    if text::holds(a, part) {
        let i = choose|i: int|
            0 <= i <= a.len() - part.len() && #[trigger] a.subrange(i, i + part.len()) == part;
        assert(whole.subrange(i, i + part.len()) =~= a.subrange(i, i + part.len()));
    }
    if text::holds(b, part) {
        let i = choose|i: int|
            0 <= i <= b.len() - part.len() && #[trigger] b.subrange(i, i + part.len()) == part;
        let j = a.len() + 1 + i;
        assert(whole.subrange(j, j + part.len()) =~= b.subrange(i, i + part.len()));
    }
}

/// The active case is shown by the first solver in a case directory and, where there is no such
/// solver, by the last process in one. So it is one process, and there is one wherever a process is
/// in a case directory.
pub proof fn active_case_is_the_solvers(processes: Seq<ProcessFacts>, i: int, j: int)
    requires
        progress::shows_active_case(processes, i),
        0 <= j < processes.len(),
        processes[j].in_case,
    ensures
        processes[i].in_case,
        processes[j].solver ==> processes[i].solver && i <= j,
        !processes[i].solver ==> j <= i && !processes[j].solver,
        progress::shows_active_case(processes, j) ==> i == j,
{
}

/// The processes that a list of words names are the numbers among them, in order.
pub proof fn words_name_processes_in_order(a: Seq<Seq<char>>, b: Seq<Seq<char>>, pid: u32)
    ensures
        process::numbers_in(a + b) == process::numbers_in(a) + process::numbers_in(b),
        process::numbers_in(seq![text::decimal(pid as nat)]) == seq![pid],
        process::numbers_in(Seq::empty()).len() == 0,
    decreases b.len(),
{
    reveal_with_fuel(process::numbers_in, 2);
    let one = seq![text::decimal(pid as nat)];
    text::unsigned_of_decimal(pid as nat, u32::MAX as nat);
    assert(one.drop_last() =~= Seq::<Seq<char>>::empty());
    assert(process::numbers_in(one) =~= seq![pid]);
    if b.len() == 0 {
        assert(a + b =~= a);
        assert(process::numbers_in(a) + process::numbers_in(b) =~= process::numbers_in(a));
    } else {
        words_name_processes_in_order(a, b.drop_last(), pid);
        assert((a + b).drop_last() =~= a + b.drop_last());
        assert((a + b).last() == b.last());
        assert(process::numbers_in(a + b) =~= process::numbers_in(a) + process::numbers_in(b));
    }
}

/// A word that is no number names no process.
pub proof fn other_words_name_no_process(word: Seq<char>)
    requires
        text::unsigned(word, u32::MAX as nat) is None,
    ensures
        process::numbers_in(seq![word]).len() == 0,
{
    assert(seq![word].drop_last() =~= Seq::<Seq<char>>::empty());
    reveal_with_fuel(process::numbers_in, 2);
}

/// A walk takes in new processes behind those it knows, each once, and none with number zero.
pub proof fn walk_takes_in_new_processes(known: Seq<u32>, children: Seq<u32>, i: int)
    requires
        known.no_duplicates(),
    ensures
        ({
            let all = process::with_children(known, children);
            &&& all.no_duplicates()
            &&& known.len() <= all.len() <= known.len() + children.len()
            &&& known.len() <= i < all.len() ==> all[i] > 0 && children.contains(all[i])
                && !known.contains(all[i])
        }),
    decreases children.len(),
{
    let all = process::with_children(known, children);
    if children.len() > 0 {
        let rest = children.drop_last();
        let front = process::with_children(known, rest);
        let child = children.last();
        walk_takes_in_new_processes(known, rest, i);
        if known.len() <= i < all.len() {
            if i < front.len() {
                let k = rest.index_of(front[i]);
                assert(children[k] == all[i]);
            } else {
                process::children_are_taken_in(known, rest, child);
                assert(children[children.len() - 1] == all[i]);
            }
        }
    }
}

/// The children of some processes, in the order of their parents.
pub open spec fn children_of_all(links: Seq<ProcessLink>, parents: Seq<u32>) -> Seq<u32>
    decreases parents.len(),
{
    if parents.len() == 0 {
        Seq::empty()
    } else {
        progress::children_of(links, parents[0]) + children_of_all(links, parents.drop_first())
    }
}

/// A process tree comes level by level: behind the processes it starts from stand the children of
/// the first process in the tree, then those of the second, and so on.
pub proof fn tree_comes_level_by_level(links: Seq<ProcessLink>, queue: Seq<u32>, limit: nat)
    requires
        progress::walk(links, queue, limit) is Some,
    ensures
        ({
            let tree = progress::walk(links, queue, limit)->0;
            tree == queue + children_of_all(links, tree)
        }),
    decreases limit,
{
    let tree = progress::walk(links, queue, limit)->0;
    if queue.len() == 0 {
        assert(tree =~= queue + children_of_all(links, tree));
    } else {
        let children = progress::children_of(links, queue[0]);
        let next = queue.drop_first() + children;
        tree_comes_level_by_level(links, next, (limit - 1) as nat);
        let rest = progress::walk(links, next, (limit - 1) as nat)->0;
        assert(tree =~= seq![queue[0]] + rest);
        assert(tree.drop_first() =~= rest);
        assert(tree =~= queue + (children + children_of_all(links, rest)));
    }
}

/// Every process of a list is asked for its group, and what is told is what was told of it.
pub proof fn every_process_is_asked_for_its_group(
    replies: Seq<crate::outside::GroupReply>,
    processes: Seq<u32>,
    i: int,
)
    requires
        process::replies_on(replies, processes),
        0 <= i < processes.len(),
    ensures
        replies.len() == processes.len(),
        replies[i].of() == processes[i],
        process::groups_told(replies).len() == processes.len(),
        process::groups_told(replies)[i] == replies[i].tells(),
{
}

/// The process of every job of a table is probed, and what is found is what its probe tells.
pub proof fn every_jobs_process_is_probed(
    probes: Seq<Option<crate::outside::Probe>>,
    keys: Seq<Seq<char>>,
    by_id: Map<Seq<char>, crate::state::JobView>,
    i: int,
)
    requires
        crate::scheduler::probes_on(probes, crate::scheduler::processes_of(keys, by_id)),
        0 <= i < keys.len(),
    ensures
        probes.len() == keys.len(),
        crate::scheduler::findings(probes).len() == keys.len(),
        by_id[keys[i]].pid matches Some(pid) ==> probes[i] matches Some(probe) && probe.of() == pid
            && crate::scheduler::findings(probes)[i] == probe.tells(),
        by_id[keys[i]].pid is None ==> crate::scheduler::findings(probes)[i]
            == crate::outside::Liveness::Unknown,
{
    let targets = crate::scheduler::processes_of(keys, by_id);
    assert(targets[i] == by_id[keys[i]].pid);
    assert(match probes[i] {
        Some(probe) => targets[i] == Some(probe.of()),
        None => targets[i] is None,
    });
}

/// The jobs that probes find gone are those of the table with a process whose probe told so.
pub proof fn jobs_are_gone_where_their_probes_tell(
    keys: Seq<Seq<char>>,
    by_id: Map<Seq<char>, crate::state::JobView>,
    probes: Seq<Option<crate::outside::Probe>>,
    jid: Seq<char>,
)
    requires
        crate::scheduler::probes_on(probes, crate::scheduler::processes_of(keys, by_id)),
    ensures
        crate::scheduler::gone_by(keys, by_id, probes).contains(jid) <==> exists|i: int|
            0 <= i < keys.len() && #[trigger] keys[i] == jid && probes[i] is Some && (
            probes[i]->0).tells() == crate::outside::Liveness::Gone,
{
    crate::laws::submitting::gone_jobs_are_those_found_gone(
        keys,
        by_id,
        crate::scheduler::findings(probes),
        keys.len(),
        jid,
    );
    assert forall|i: int| 0 <= i < keys.len() implies (by_id[#[trigger] keys[i]].pid is Some
        && crate::scheduler::findings(probes)[i] == crate::outside::Liveness::Gone) == (probes[i]
        is Some && (probes[i]->0).tells() == crate::outside::Liveness::Gone) by {
        every_jobs_process_is_probed(probes, keys, by_id, i);
        assert(crate::scheduler::processes_of(keys, by_id)[i] == by_id[keys[i]].pid);
    }
}

} // verus!
