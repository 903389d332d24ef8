//! Progress of OpenFOAM cases and of scripts.
//!
//! The case directory comes from the job's command (`cd "..."`), from the log header
//! (`Case : /path`) or from the working directory of a solver process. `system/controlDict` gives
//! `endTime` and `deltaT`, the log gives the current `Time = X`.

use crate::outside;
use crate::pattern;
use crate::scheduler;
use crate::text;
use crate::text::CharSet;
use vstd::prelude::*;

verus! {

// ---------------------------------------------------------------------------
// Case directories in commands and logs
// ---------------------------------------------------------------------------

/// The case line of a log header.
pub const LOG_CASE: &'static str = r"(?m)^Case\s*:\s*(.+?)\s*$";

/// A change of directory to a path that may be quoted.
pub const QUOTED_CD: &'static str = r#"cd\s+["\u{201c}]?([/][^"\s;]+)"#;

/// A change of directory to a plain path.
pub const PLAIN_CD: &'static str = r"cd\s+(/[^\s;]+)";

/// An absolute path.
pub const ABSOLUTE_PATH: &'static str = r#"(?:"|')?(/[^\s"'`;]+)(?:"|')?"#;

/// What a search for a case directory comes to.
#[derive(Debug)]
pub enum Found {
    /// The search ends here.
    Stop,
    /// There is no match.
    Nothing,
    /// The text of the match's group.
    Group(String),
}

/// What a search for a case directory comes to.
#[verifier::ext_equal]
pub enum FoundView {
    Stop,
    Nothing,
    Group(Seq<char>),
}

impl View for Found {
    type V = FoundView;

    open spec fn view(&self) -> FoundView {
        match self {
            Found::Stop => FoundView::Stop,
            Found::Nothing => FoundView::Nothing,
            Found::Group(g) => FoundView::Group(g@),
        }
    }
}

/// What the first match of a pattern gives.
pub open spec fn found(expression: Seq<char>, s: Seq<char>) -> FoundView {
    if !pattern::compiles(expression) {
        FoundView::Stop
    } else {
        match pattern::first_match(expression, s) {
            None => FoundView::Nothing,
            Some(None) => FoundView::Stop,
            Some(Some(group)) => FoundView::Group(group),
        }
    }
}

fn find(expression: &str, s: &str) -> (r: Found)
    ensures
        r@ == found(expression@, s@),
{
    match pattern::compile(expression) {
        None => Found::Stop,
        Some(re) => match pattern::find_first(&re, s) {
            None => Found::Nothing,
            Some(None) => Found::Stop,
            Some(Some(group)) => Found::Group(group),
        },
    }
}

/// The absolute path in a raw candidate: without white space, quotes and back slashes around it.
pub open spec fn candidate(raw: Seq<char>) -> Option<Seq<char>> {
    let trimmed = text::trim_back(
        text::trim(
            text::trim(text::trim(raw, CharSet::Space), CharSet::One('"')),
            CharSet::One('\''),
        ),
        CharSet::One('\\'),
    );
    if text::begins_with(trimmed, "/"@) {
        Some(trimmed)
    } else {
        None
    }
}

/// The candidate as a list.
pub open spec fn candidate_list(raw: Seq<char>) -> Seq<Seq<char>> {
    match candidate(raw) {
        Some(path) => seq![path],
        None => Seq::empty(),
    }
}

fn push_candidate(list: &mut Vec<String>, raw: &str)
    ensures
        text::string_views(final(list)@) == text::string_views(old(list)@) + candidate_list(raw@),
{
    let ghost before = text::string_views(list@);
    let chars = text::trimmed(&text::to_chars(raw), CharSet::Space);
    let chars = text::trimmed(&chars, CharSet::One('"'));
    let chars = text::trimmed(&chars, CharSet::One('\''));
    let chars = text::trimmed_back(&chars, CharSet::One('\\'));
    if text::starts_with(&chars, "/") {
        let path = text::from_chars(&chars);
        list.push(path);
        proof {
            assert(text::string_views(list@) =~= before + seq![path@]);
        }
    } else {
        proof {
            assert(before + Seq::<Seq<char>>::empty() =~= before);
        }
    }
}

/// The candidates among the groups of all matches; a match without the group ends the search.
pub open spec fn group_candidates(groups: Seq<Option<Seq<char>>>) -> Seq<Seq<char>>
    decreases groups.len(),
{
    if groups.len() == 0 {
        Seq::empty()
    } else {
        match groups[0] {
            Some(group) => candidate_list(group) + group_candidates(groups.drop_first()),
            None => Seq::empty(),
        }
    }
}

/// The absolute paths that a search for all of them found; nothing where it could not be made.
pub open spec fn listed_candidates(groups: Option<Seq<Option<Seq<char>>>>) -> Seq<Seq<char>> {
    match groups {
        Some(groups) => group_candidates(groups),
        None => Seq::empty(),
    }
}

/// What a search for all absolute paths in a text finds.
pub open spec fn paths_in(s: Seq<char>) -> Option<Seq<Option<Seq<char>>>> {
    if pattern::compiles(ABSOLUTE_PATH@) {
        Some(pattern::all_matches(ABSOLUTE_PATH@, s))
    } else {
        None
    }
}

/// The groups of an optional list.
pub open spec fn groups_of(groups: Option<Vec<Option<String>>>) -> Option<Seq<Option<Seq<char>>>> {
    match groups {
        Some(v) => Some(pattern::group_views(v@)),
        None => None,
    }
}

/// The candidate of one search, and those of the search after it.
pub open spec fn and_on(first: FoundView, rest: Seq<Seq<char>>) -> Seq<Seq<char>> {
    match first {
        FoundView::Stop => Seq::empty(),
        FoundView::Nothing => rest,
        FoundView::Group(group) => candidate_list(group) + rest,
    }
}

/// The candidates of the searches, the likeliest first.
pub open spec fn ranked(
    case_line: FoundView,
    quoted: FoundView,
    plain: FoundView,
    paths: Option<Seq<Option<Seq<char>>>>,
) -> Seq<Seq<char>> {
    and_on(case_line, and_on(quoted, and_on(plain, listed_candidates(paths))))
}

/// The candidates for the case directory in a text, the likeliest first: the case line of a log
/// header, a change of directory, any absolute path.
pub open spec fn text_candidates(s: Seq<char>) -> Seq<Seq<char>> {
    ranked(found(LOG_CASE@, s), found(QUOTED_CD@, s), found(PLAIN_CD@, s), paths_in(s))
}

fn push_listed_candidates(list: &mut Vec<String>, groups: &Vec<Option<String>>)
    ensures
        text::string_views(final(list)@) == text::string_views(old(list)@) + group_candidates(
            pattern::group_views(groups@),
        ),
{
    let ghost before = text::string_views(list@);
    let ghost all = pattern::group_views(groups@);
    let mut i: usize = 0;
    proof {
        assert(all.skip(0) =~= all);
    }
    while i < groups.len()
        invariant
            i <= groups@.len(),
            all == pattern::group_views(groups@),
            before == text::string_views(old(list)@),
            before + group_candidates(all) == text::string_views(list@) + group_candidates(
                all.skip(i as int),
            ),
        decreases groups.len() - i,
    {
        proof {
            assert(all.skip(i as int)[0] == crate::state::text_of(groups@[i as int]));
            assert(all.skip(i as int).drop_first() =~= all.skip(i + 1));
        }
        match &groups[i] {
            Some(group) => {
                let ghost longer = text::string_views(list@);
                push_candidate(list, group.as_str());
                proof {
                    assert(longer + (candidate_list(group@) + group_candidates(all.skip(i + 1)))
                        =~= longer + candidate_list(group@) + group_candidates(all.skip(i + 1)));
                }
            },
            None => {
                proof {
                    assert(text::string_views(list@) + Seq::<Seq<char>>::empty()
                        =~= text::string_views(list@));
                }
                return;
            },
        }
        i += 1;
    }
    proof {
        assert(all.skip(all.len() as int) =~= Seq::<Option<Seq<char>>>::empty());
        assert(text::string_views(list@) + Seq::<Seq<char>>::empty() =~= text::string_views(list@));
    }
}

/// The candidates of the searches, the likeliest first, given what they found.
pub fn rank_candidates(
    case_line: &Found,
    quoted: &Found,
    plain: &Found,
    paths: &Option<Vec<Option<String>>>,
) -> (r: Vec<String>)
    ensures
        text::string_views(r@) == ranked(case_line@, quoted@, plain@, groups_of(*paths)),
{
    let mut list: Vec<String> = Vec::new();
    let ghost listed = listed_candidates(groups_of(*paths));
    let ghost third = and_on(plain@, listed);
    let ghost second = and_on(quoted@, third);
    let ghost none = Seq::<Seq<char>>::empty();
    proof {
        assert(text::string_views(list@) =~= none);
    }
    match case_line {
        Found::Stop => {
            return list;
        },
        Found::Nothing => {},
        Found::Group(group) => {
            push_candidate(&mut list, group.as_str());
        },
    }
    let ghost one = text::string_views(list@);
    assert(one + second =~= ranked(case_line@, quoted@, plain@, groups_of(*paths)));
    match quoted {
        Found::Stop => {
            proof {
                assert(one + none =~= one);
            }
            return list;
        },
        Found::Nothing => {},
        Found::Group(group) => {
            push_candidate(&mut list, group.as_str());
        },
    }
    let ghost two = text::string_views(list@);
    assert(two + third =~= one + second);
    match plain {
        Found::Stop => {
            proof {
                assert(two + none =~= two);
            }
            return list;
        },
        Found::Nothing => {},
        Found::Group(group) => {
            push_candidate(&mut list, group.as_str());
        },
    }
    let ghost three = text::string_views(list@);
    assert(three + listed =~= two + third);
    match paths {
        Some(groups) => {
            push_listed_candidates(&mut list, groups);
        },
        None => {
            proof {
                assert(three + none =~= three);
            }
        },
    }
    list
}

/// The candidates for the case directory in a text, such as a job's output.
pub fn candidates_in_text(s: &str) -> (r: Vec<String>)
    ensures
        text::string_views(r@) == text_candidates(s@),
{
    let case_line = find(LOG_CASE, s);
    let quoted = find(QUOTED_CD, s);
    let plain = find(PLAIN_CD, s);
    let paths: Option<Vec<Option<String>>> = match pattern::compile(ABSOLUTE_PATH) {
        Some(re) => Some(pattern::find_all(&re, s)),
        None => None,
    };
    rank_candidates(&case_line, &quoted, &plain, &paths)
}

fn push_text_candidates(list: &mut Vec<String>, s: &str)
    ensures
        text::string_views(final(list)@) == text::string_views(old(list)@) + text_candidates(s@),
{
    let ghost before = text::string_views(list@);
    let mut more = candidates_in_text(s);
    let ghost added = text::string_views(more@);
    list.append(&mut more);
    proof {
        assert(text::string_views(list@) =~= before + added);
    }
}

/// The candidates in each of some arguments, in order.
pub open spec fn argument_candidates(arguments: Seq<Seq<char>>) -> Seq<Seq<char>>
    decreases arguments.len(),
{
    if arguments.len() == 0 {
        Seq::empty()
    } else {
        argument_candidates(arguments.drop_last()) + text_candidates(arguments.last())
    }
}

/// The candidates in a command that reads as the list `parsed`: those in each argument, those in
/// the arguments together, those in the command as it stands.
pub open spec fn command_candidates(cmd: Seq<char>, parsed: Option<Seq<Seq<char>>>) -> Seq<
    Seq<char>,
> {
    match parsed {
        Some(arguments) => argument_candidates(arguments) + text_candidates(
            text::join(arguments, " "@),
        ) + text_candidates(cmd),
        None => text_candidates(cmd),
    }
}

/// The candidates for the case directory in a command, given how it reads as a list.
pub fn candidates_in_arguments(cmd: &str, parsed: Option<Vec<String>>) -> (r: Vec<String>)
    ensures
        text::string_views(r@) == command_candidates(cmd@, scheduler::strings_of(parsed)),
{
    let mut r: Vec<String> = Vec::new();
    if let Some(arguments) = &parsed {
        let ghost all = text::string_views(arguments@);
        let mut i: usize = 0;
        while i < arguments.len()
            invariant
                i <= arguments@.len(),
                all == text::string_views(arguments@),
                text::string_views(r@) =~= argument_candidates(all.take(i as int)),
            decreases arguments.len() - i,
        {
            push_text_candidates(&mut r, arguments[i].as_str());
            proof {
                assert(all.take(i + 1).drop_last() =~= all.take(i as int));
                assert(all.take(i + 1).last() == arguments@[i as int]@);
            }
            i += 1;
        }
        proof {
            assert(all.take(all.len() as int) =~= all);
        }
        let whole = text::join_strings(arguments, " ");
        push_text_candidates(&mut r, whole.as_str());
    }
    push_text_candidates(&mut r, cmd);
    proof {
        assert(text::string_views(r@) =~= command_candidates(cmd@, scheduler::strings_of(parsed)));
    }
    r
}

/// The candidates for the case directory in a job's stored command.
pub fn candidates_in_command(cmd: &str) -> (r: Vec<String>)
    ensures
        text::string_views(r@) == command_candidates(cmd@, outside::json_strings(cmd@)),
{
    let parsed = outside::parse_json_strings(cmd);
    candidates_in_arguments(cmd, parsed)
}

/// What the file system tells of a candidate.
#[derive(Clone, Copy, Debug)]
pub struct CandidateFacts {
    /// It is a case directory.
    pub is_case: bool,
    /// It is a file.
    pub is_file: bool,
    /// The directory it stands in is a case directory.
    pub parent_is_case: bool,
}

/// Whether a candidate leads to a case: it is one, or it is a file in one.
pub open spec fn leads_to_case(facts: CandidateFacts) -> bool {
    facts.is_case || (facts.is_file && facts.parent_is_case)
}

/// Whether a candidate leads to a case; true where the case is the directory it stands in.
pub fn case_of_candidate(facts: CandidateFacts) -> (r: Option<bool>)
    ensures
        r == if facts.is_case {
            Some(false)
        } else if facts.is_file && facts.parent_is_case {
            Some(true)
        } else {
            None
        },
        r is Some == leads_to_case(facts),
{
    if facts.is_case {
        Some(false)
    } else if facts.is_file && facts.parent_is_case {
        Some(true)
    } else {
        None
    }
}

// ---------------------------------------------------------------------------
// Control dictionaries and logs
// ---------------------------------------------------------------------------

/// The end time in a control dictionary.
pub const END_TIME: &'static str = r"endTime\s+([0-9.eE+\-]+)\s*;";

/// The time step in a control dictionary.
pub const DELTA_T: &'static str = r"deltaT\s+([0-9.eE+\-]+)\s*;";

/// The switch for adaptive time steps in a control dictionary.
pub const ADJUST_TIME_STEP: &'static str = r"adjustTimeStep\s+(true|yes|on|1)\s*;";

/// A log line that tells the current time.
pub const CURRENT_TIME: &'static str = r"^(?:Time\s*=\s*|DYNAMIC-HOTSPOT\s+time=|EC-BLOCK-SUMMARY\s+time=)([0-9.eE+\-]+)";

/// A log line that starts a time step.
pub const STEP_TIME: &'static str = r"^Time\s*=\s*([0-9.eE+\-]+)";

/// A log line that tells the length of an adaptive time step.
pub const ADAPTIVE_STEP: &'static str = r"^deltaT\s*=\s*[0-9.eE+\-]+";

/// A log line of a time step, for counting.
pub const FIXED_STEP: &'static str = r"^Time\s*=\s*[0-9.eE+\-]+";

/// The group of a pattern's first match.
pub open spec fn group_in(expression: Seq<char>, s: Seq<char>) -> Option<Seq<char>> {
    if pattern::compiles(expression) {
        match pattern::first_match(expression, s) {
            Some(group) => group,
            None => None,
        }
    } else {
        None
    }
}

fn find_group(expression: &str, s: &str) -> (r: Option<String>)
    ensures
        crate::state::text_of(r) == group_in(expression@, s@),
{
    match pattern::compile(expression) {
        Some(re) => match pattern::find_first(&re, s) {
            Some(group) => group,
            None => None,
        },
        None => None,
    }
}

/// The text of `endTime` in a control dictionary.
pub fn end_time_text(content: &str) -> (r: Option<String>)
    ensures
        crate::state::text_of(r) == group_in(END_TIME@, content@),
{
    find_group(END_TIME, content)
}

/// The text of `deltaT` in a control dictionary.
pub fn delta_t_text(content: &str) -> (r: Option<String>)
    ensures
        crate::state::text_of(r) == group_in(DELTA_T@, content@),
{
    find_group(DELTA_T, content)
}

/// Whether a control dictionary asks for adaptive time steps.
pub fn parse_adjust_time_step(content: &str) -> (r: bool)
    ensures
        r == (pattern::compiles(ADJUST_TIME_STEP@) && pattern::has_match(
            ADJUST_TIME_STEP@,
            content@,
        )),
{
    match pattern::compile(ADJUST_TIME_STEP) {
        Some(re) => pattern::matches(&re, content),
        None => false,
    }
}

/// The texts that are there, in order.
pub open spec fn present(groups: Seq<Option<Seq<char>>>) -> Seq<Seq<char>>
    decreases groups.len(),
{
    if groups.len() == 0 {
        Seq::empty()
    } else {
        let front = present(groups.drop_last());
        match groups.last() {
            Some(group) => front.push(group),
            None => front,
        }
    }
}

/// The groups of a pattern in each of some lines.
pub open spec fn line_groups(expression: Seq<char>, lines: Seq<Seq<char>>) -> Seq<
    Option<Seq<char>>,
> {
    lines.map_values(|line: Seq<char>| group_in(expression, line))
}

/// The texts that are there, in order.
pub fn present_groups(groups: &Vec<Option<String>>) -> (r: Vec<String>)
    ensures
        text::string_views(r@) == present(pattern::group_views(groups@)),
{
    let ghost all = pattern::group_views(groups@);
    let mut r: Vec<String> = Vec::new();
    let mut i: usize = 0;
    while i < groups.len()
        invariant
            i <= groups@.len(),
            all == pattern::group_views(groups@),
            text::string_views(r@) =~= present(all.take(i as int)),
        decreases groups.len() - i,
    {
        let ghost before = text::string_views(r@);
        proof {
            assert(all.take(i + 1).drop_last() =~= all.take(i as int));
            assert(all.take(i + 1).last() == crate::state::text_of(groups@[i as int]));
        }
        if let Some(group) = &groups[i] {
            let group = group.clone();
            r.push(group);
            proof {
                assert(text::string_views(r@) =~= before.push(group@));
            }
        }
        i += 1;
    }
    proof {
        assert(all.take(all.len() as int) =~= all);
    }
    r
}

fn groups_in_lines(expression: &str, log: &str) -> (r: Vec<Option<String>>)
    ensures
        pattern::group_views(r@) == line_groups(expression@, text::lines(log@)),
{
    let lines = text::line_list(&text::to_chars(log));
    let ghost all = line_groups(expression@, text::lines(log@));
    let compiled = pattern::compile(expression);
    let mut r: Vec<Option<String>> = Vec::new();
    let mut i: usize = 0;
    while i < lines.len()
        invariant
            i <= lines@.len(),
            all == line_groups(expression@, text::views(lines@)),
            compiled is Some == pattern::compiles(expression@),
            compiled matches Some(re) ==> pattern::pattern_of(re) == expression@,
            pattern::group_views(r@) =~= all.take(i as int),
        decreases lines.len() - i,
    {
        let ghost before = pattern::group_views(r@);
        let line = text::from_chars(&lines[i]);
        let group: Option<String> = match &compiled {
            Some(re) => match pattern::find_first(re, line.as_str()) {
                Some(group) => group,
                None => None,
            },
            None => None,
        };
        proof {
            assert(text::views(lines@)[i as int] == line@);
            assert(all[i as int] == crate::state::text_of(group));
        }
        r.push(group);
        proof {
            assert(pattern::group_views(r@) =~= before.push(crate::state::text_of(group)));
        }
        i += 1;
    }
    proof {
        assert(all.take(all.len() as int) =~= all);
    }
    r
}

fn reversed(list: &Vec<String>) -> (r: Vec<String>)
    ensures
        text::string_views(r@) == text::string_views(list@).reverse(),
{
    let mut r: Vec<String> = Vec::new();
    let ghost all = text::string_views(list@);
    let mut i: usize = list.len();
    while i > 0
        invariant
            i <= list@.len(),
            all == text::string_views(list@),
            text::string_views(r@) =~= all.reverse().take(all.len() - i),
        decreases i,
    {
        let ghost before = text::string_views(r@);
        let item = list[i - 1].clone();
        r.push(item);
        proof {
            assert(text::string_views(r@) =~= before.push(item@));
            assert(all.reverse()[all.len() - i] == item@);
        }
        i -= 1;
    }
    proof {
        assert(all.reverse().take(all.len() as int) =~= all.reverse());
    }
    r
}

/// The texts of the times in a solver log, the last first.
pub fn current_time_texts(log: &str) -> (r: Vec<String>)
    ensures
        text::string_views(r@) == present(
            line_groups(CURRENT_TIME@, text::lines(log@)),
        ).reverse(),
{
    let forward = present_groups(&groups_in_lines(CURRENT_TIME, log));
    reversed(&forward)
}

/// The texts of the times at which the steps in a solver log start, the first first.
pub fn step_time_texts(log: &str) -> (r: Vec<String>)
    ensures
        text::string_views(r@) == present(line_groups(STEP_TIME@, text::lines(log@))),
{
    present_groups(&groups_in_lines(STEP_TIME, log))
}

/// How many of some answers are yes.
pub open spec fn yes_count(answers: Seq<bool>) -> nat
    decreases answers.len(),
{
    if answers.len() == 0 {
        0
    } else {
        yes_count(answers.drop_last()) + if answers.last() {
            1nat
        } else {
            0
        }
    }
}

/// Whether each of some lines matches a pattern.
pub open spec fn line_matches(expression: Seq<char>, lines: Seq<Seq<char>>) -> Seq<bool> {
    lines.map_values(|line: Seq<char>| pattern::has_match(expression, line))
}

/// How many of some answers are yes.
pub fn count_yes(answers: &Vec<bool>) -> (r: u64)
    ensures
        r == yes_count(answers@),
{
    let mut count: u64 = 0;
    let mut i: usize = 0;
    while i < answers.len()
        invariant
            i <= answers@.len(),
            count <= i,
            count == yes_count(answers@.take(i as int)),
        decreases answers.len() - i,
    {
        proof {
            assert(answers@.take(i + 1).drop_last() =~= answers@.take(i as int));
        }
        if answers[i] {
            count += 1;
        }
        i += 1;
    }
    proof {
        assert(answers@.take(answers@.len() as int) =~= answers@);
    }
    count
}

/// The pattern by which time steps are counted: adaptive steps tell their length once each, while
/// some solvers leave out most of the times.
pub open spec fn step_pattern(adaptive: bool) -> Seq<char> {
    if adaptive {
        ADAPTIVE_STEP@
    } else {
        FIXED_STEP@
    }
}

/// How many time steps a log shows.
pub fn count_time_steps(log: &str, adaptive: bool) -> (r: u64)
    ensures
        r == if pattern::compiles(step_pattern(adaptive)) {
            yes_count(line_matches(step_pattern(adaptive), text::lines(log@)))
        } else {
            0
        },
{
    let expression = if adaptive {
        ADAPTIVE_STEP
    } else {
        FIXED_STEP
    };
    let re = match pattern::compile(expression) {
        Some(re) => re,
        None => {
            return 0;
        },
    };
    let lines = text::line_list(&text::to_chars(log));
    let ghost all = line_matches(expression@, text::lines(log@));
    let mut answers: Vec<bool> = Vec::new();
    let mut i: usize = 0;
    while i < lines.len()
        invariant
            i <= lines@.len(),
            all == line_matches(expression@, text::views(lines@)),
            pattern::pattern_of(re) == expression@,
            answers@ =~= all.take(i as int),
        decreases lines.len() - i,
    {
        let line = text::from_chars(&lines[i]);
        proof {
            assert(text::views(lines@)[i as int] == line@);
        }
        answers.push(pattern::matches(&re, line.as_str()));
        i += 1;
    }
    proof {
        assert(all.take(all.len() as int) =~= all);
    }
    count_yes(&answers)
}

/// How many adaptive time steps a log shows, where it shows any.
pub fn adaptive_steps(log: &str) -> (r: Option<u64>)
    ensures
        ({
            let count = if pattern::compiles(ADAPTIVE_STEP@) {
                yes_count(line_matches(ADAPTIVE_STEP@, text::lines(log@)))
            } else {
                0
            };
            match r {
                Some(n) => n == count && n > 0,
                None => count == 0,
            }
        }),
{
    let count = count_time_steps(log, true);
    if count > 0 {
        Some(count)
    } else {
        None
    }
}

/// The first words of those lines that have one, in order.
pub open spec fn first_words(lines: Seq<Seq<char>>) -> Seq<Seq<char>>
    decreases lines.len(),
{
    if lines.len() == 0 {
        Seq::empty()
    } else {
        let front = first_words(lines.drop_last());
        let words = text::words(lines.last());
        if words.len() > 0 {
            front.push(words[0])
        } else {
            front
        }
    }
}

/// The texts of the times in a current summary, the last first: the first word of each line.
pub fn summary_time_texts(content: &str) -> (r: Vec<String>)
    ensures
        text::string_views(r@) == first_words(text::lines(content@)).reverse(),
{
    let lines = text::line_list(&text::to_chars(content));
    let ghost all = text::lines(content@);
    let mut forward: Vec<String> = Vec::new();
    let mut i: usize = 0;
    while i < lines.len()
        invariant
            i <= lines@.len(),
            all == text::views(lines@),
            text::string_views(forward@) =~= first_words(all.take(i as int)),
        decreases lines.len() - i,
    {
        let ghost before = text::string_views(forward@);
        let words = text::word_list(&lines[i]);
        proof {
            assert(all.take(i + 1).drop_last() =~= all.take(i as int));
            assert(all.take(i + 1).last() == lines@[i as int]@);
        }
        if words.len() > 0 {
            let word = text::from_chars(&words[0]);
            forward.push(word);
            proof {
                assert(text::views(words@)[0] == word@);
                assert(text::string_views(forward@) =~= before.push(word@));
            }
        }
        i += 1;
    }
    proof {
        assert(all.take(all.len() as int) =~= all);
    }
    reversed(&forward)
}

/// Whether a file is a log, by its name.
pub open spec fn is_log(name: Seq<char>) -> bool {
    text::begins_with(name, "log"@)
}

/// Whether a file is a log, by its name.
pub fn is_log_name(name: &str) -> (r: bool)
    ensures
        r == is_log(name@),
{
    text::starts_with(&text::to_chars(name), "log")
}

/// A file of a case directory: its name, and when it was changed, where that can be told.
#[derive(Debug)]
pub struct LogFile {
    pub name: String,
    pub modified: Option<i128>,
}

/// Whether a time of change is not later than another; an unknown one is the earliest.
pub open spec fn not_later(a: Option<i128>, b: Option<i128>) -> bool {
    a is None || (b is Some && a->0 <= b->0)
}

/// Whether the `i`-th file is the log that was changed last; of several, the last in the list.
pub open spec fn is_latest_log(files: Seq<LogFile>, i: int) -> bool {
    &&& 0 <= i < files.len()
    &&& is_log(files[i].name@)
    &&& forall|j: int|
        0 <= j < files.len() && is_log((#[trigger] files[j]).name@) ==> not_later(
            files[j].modified,
            files[i].modified,
        )
    &&& forall|j: int|
        i < j < files.len() && is_log((#[trigger] files[j]).name@) ==> files[j].modified
            != files[i].modified
}

/// The name under which a solver's log is looked for first.
pub open spec fn solver_log_name() -> Seq<char> {
    "log.run"@
}

/// Whether the `i`-th file is the first with the name of a solver's log.
pub open spec fn is_solver_log(files: Seq<LogFile>, i: int) -> bool {
    &&& 0 <= i < files.len()
    &&& files[i].name@ == solver_log_name()
    &&& forall|j: int| 0 <= j < i ==> (#[trigger] files[j]).name@ != solver_log_name()
}

/// Whether a file has the name of a solver's log.
pub open spec fn has_solver_log(files: Seq<LogFile>) -> bool {
    exists|i: int| 0 <= i < files.len() && (#[trigger] files[i]).name@ == solver_log_name()
}

fn solver_log(files: &Vec<LogFile>) -> (r: Option<usize>)
    ensures
        match r {
            Some(i) => is_solver_log(files@, i as int),
            None => !has_solver_log(files@),
        },
{
    let mut i: usize = 0;
    while i < files.len()
        invariant
            i <= files@.len(),
            forall|j: int| 0 <= j < i ==> (#[trigger] files@[j]).name@ != solver_log_name(),
        decreases files.len() - i,
    {
        if text::same(files[i].name.as_str(), "log.run") {
            return Some(i);
        }
        i += 1;
    }
    None
}

fn latest_log(files: &Vec<LogFile>) -> (r: Option<usize>)
    ensures
        match r {
            Some(i) => is_latest_log(files@, i as int),
            None => forall|i: int|
                0 <= i < files@.len() ==> !is_log((#[trigger] files@[i]).name@),
        },
{
    let mut best: Option<usize> = None;
    let mut i: usize = 0;
    while i < files.len()
        invariant
            i <= files@.len(),
            match best {
                Some(b) => b < i && is_log(files@[b as int].name@) && (forall|j: int|
                    0 <= j < i && is_log((#[trigger] files@[j]).name@) ==> not_later(
                        files@[j].modified,
                        files@[b as int].modified,
                    )) && (forall|j: int|
                    b < j < i && is_log((#[trigger] files@[j]).name@) ==> files@[j].modified
                        != files@[b as int].modified),
                None => forall|j: int| 0 <= j < i ==> !is_log((#[trigger] files@[j]).name@),
            },
        decreases files.len() - i,
    {
        if is_log_name(files[i].name.as_str()) {
            let better = match best {
                None => true,
                Some(b) => match files[b].modified {
                    None => true,
                    Some(t) => match files[i].modified {
                        Some(u) => t <= u,
                        None => false,
                    },
                },
            };
            if better {
                best = Some(i);
            }
        }
        i += 1;
    }
    best
}

/// The position of the solver's log: of the file with the known name, where there is one, and
/// otherwise of the log that was changed last.
pub fn find_log_file(files: &Vec<LogFile>) -> (r: Option<usize>)
    ensures
        match r {
            Some(i) => if has_solver_log(files@) {
                is_solver_log(files@, i as int)
            } else {
                is_latest_log(files@, i as int)
            },
            None => forall|i: int|
                0 <= i < files@.len() ==> !is_log((#[trigger] files@[i]).name@),
        },
{
    match solver_log(files) {
        Some(i) => {
            assert(has_solver_log(files@));
            Some(i)
        },
        None => latest_log(files),
    }
}

// ---------------------------------------------------------------------------
// Processes
// ---------------------------------------------------------------------------

/// Where the last closing bracket of a text stands.
pub open spec fn last_bracket(s: Seq<char>) -> Option<int>
    decreases s.len(),
{
    if s.len() == 0 {
        None
    } else if s.last() == ')' {
        Some(s.len() - 1)
    } else {
        last_bracket(s.drop_last())
    }
}

/// The fields of a process's `stat` file after its command name, which stands in brackets.
pub open spec fn fields_of(stat: Seq<char>) -> Option<Seq<Seq<char>>> {
    match last_bracket(stat) {
        Some(i) => Some(text::words(stat.skip(i + 1))),
        None => None,
    }
}

/// The fields of a process's `stat` file after its command name.
pub fn stat_fields(stat: &str) -> (r: Option<Vec<String>>)
    ensures
        scheduler::strings_of(r) == fields_of(stat@),
{
    let chars = text::to_chars(stat);
    let mut i: usize = chars.len();
    proof {
        assert(chars@.take(chars@.len() as int) =~= chars@);
    }
    while i > 0 && chars[i - 1] != ')'
        invariant
            i <= chars@.len(),
            last_bracket(chars@) == last_bracket(chars@.take(i as int)),
        decreases i,
    {
        proof {
            assert(chars@.take(i as int).drop_last() =~= chars@.take(i - 1));
        }
        i -= 1;
    }
    if i == 0 {
        return None;
    }
    let rest = text::slice(&chars, i, chars.len());
    proof {
        assert(chars@.take(i as int).last() == ')');
        assert(rest@ =~= chars@.skip(i as int));
    }
    Some(text::to_strings(&text::word_list(&rest)))
}

/// The parent in the fields of a `stat` file: the second field.
pub fn parent_process(fields: &Vec<String>) -> (r: Option<u32>)
    ensures
        match r {
            Some(pid) => fields@.len() > 1 && text::unsigned(fields@[1]@, u32::MAX as nat) == Some(
                pid as nat,
            ),
            None => fields@.len() <= 1 || text::unsigned(fields@[1]@, u32::MAX as nat) is None,
        },
{
    if fields.len() <= 1 {
        return None;
    }
    match text::parse_unsigned(&text::to_chars(fields[1].as_str()), u32::MAX as u64) {
        Some(pid) => Some(pid as u32),
        None => None,
    }
}

/// A process and its parent.
#[derive(Clone, Copy, Debug, PartialEq, Eq, Structural)]
pub struct ProcessLink {
    pub pid: u32,
    pub parent: u32,
}

/// The children of a process, in the order of the list.
pub open spec fn children_of(links: Seq<ProcessLink>, pid: u32) -> Seq<u32> {
    links.filter(|l: ProcessLink| l.parent == pid).map_values(|l: ProcessLink| l.pid)
}

/// The processes reached from a queue of processes, level by level, within `limit` steps; nothing
/// where more are needed.
pub open spec fn walk(links: Seq<ProcessLink>, queue: Seq<u32>, limit: nat) -> Option<Seq<u32>>
    decreases limit,
{
    if queue.len() == 0 {
        Some(Seq::empty())
    } else if limit == 0 {
        None
    } else {
        match walk(links, queue.drop_first() + children_of(links, queue[0]), (limit - 1) as nat) {
            Some(rest) => Some(seq![queue[0]] + rest),
            None => None,
        }
    }
}

/// A process with its descendants, level by level. A list of links that is not a tree, in which a
/// process would be reached again and again, gives nothing.
pub fn process_tree(links: &Vec<ProcessLink>, root: u32) -> (r: Option<Vec<u32>>)
    requires
        links@.len() < usize::MAX,
    ensures
        match r {
            Some(tree) => walk(links@, seq![root], (links@.len() + 1) as nat) == Some(tree@),
            None => walk(links@, seq![root], (links@.len() + 1) as nat) is None,
        },
{
    let limit: usize = links.len() + 1;
    let mut queue: Vec<u32> = Vec::new();
    queue.push(root);
    let mut done: usize = 0;
    let ghost whole = walk(links@, seq![root], limit as nat);
    proof {
        assert(queue@ =~= seq![root]);
        assert(queue@.skip(0) =~= queue@);
        match whole {
            Some(w) => {
                assert(queue@.take(0) + w =~= w);
            },
            None => {},
        }
    }
    while done < queue.len()
        invariant
            done <= queue@.len(),
            done <= limit,
            limit == links@.len() + 1,
            match walk(links@, queue@.skip(done as int), (limit - done) as nat) {
                Some(rest) => whole == Some(queue@.take(done as int) + rest),
                None => whole is None,
            },
            whole == walk(links@, seq![root], limit as nat),
        decreases limit - done,
    {
        proof {
            assert(queue@.skip(done as int).len() > 0);
        }
        if done == limit {
            return None;
        }
        let pid: u32 = queue[done];
        let ghost before = queue@;
        let ghost children = children_of(links@, pid);
        let ghost own = |l: ProcessLink| l.parent == pid;
        let ghost number = |l: ProcessLink| l.pid;
        let mut i: usize = 0;
        proof {
            crate::seqs::filter_none(links@, own);
            assert(queue@ =~= before + links@.take(0).filter(own).map_values(number));
        }
        while i < links.len()
            invariant
                i <= links@.len(),
                own == (|l: ProcessLink| l.parent == pid),
                number == (|l: ProcessLink| l.pid),
                queue@ == before + links@.take(i as int).filter(own).map_values(number),
            decreases links.len() - i,
        {
            proof {
                crate::seqs::filter_next(links@, own, i as int);
            }
            let ghost kept = links@.take(i as int).filter(own);
            if links[i].parent == pid {
                queue.push(links[i].pid);
                proof {
                    assert(kept.push(links@[i as int]).map_values(number) =~= kept.map_values(
                        number,
                    ).push(links@[i as int].pid));
                    assert(queue@ =~= before + kept.map_values(number).push(links@[i as int].pid));
                }
            }
            i += 1;
        }
        proof {
            assert(links@.take(links@.len() as int) =~= links@);
            assert(queue@ == before + children);
            let left = before.skip(done as int);
            assert(left[0] == pid);
            assert(left.drop_first() + children =~= queue@.skip(done + 1));
            match walk(links@, queue@.skip(done + 1), (limit - done - 1) as nat) {
                Some(rest) => {
                    assert(before.take(done as int) + (seq![pid] + rest) =~= queue@.take(done + 1)
                        + rest);
                },
                None => {},
            }
        }
        done += 1;
    }
    proof {
        assert(queue@.skip(done as int) =~= Seq::<u32>::empty());
        assert(queue@.take(done as int) + Seq::<u32>::empty() =~= queue@);
    }
    Some(queue)
}

/// A process tree holds the processes it starts from and, with each process, its children.
pub proof fn tree_is_closed(
    links: Seq<ProcessLink>,
    queue: Seq<u32>,
    limit: nat,
    pid: u32,
    child: u32,
)
    requires
        walk(links, queue, limit) is Some,
    ensures
        queue.contains(pid) ==> (walk(links, queue, limit)->0).contains(pid),
        (walk(links, queue, limit)->0).contains(pid) && children_of(links, pid).contains(child)
            ==> (walk(links, queue, limit)->0).contains(child),
    decreases limit,
{
    let tree = walk(links, queue, limit)->0;
    if queue.len() > 0 {
        let first = queue[0];
        let children = children_of(links, first);
        let next = queue.drop_first() + children;
        let rest = walk(links, next, (limit - 1) as nat)->0;
        tree_is_closed(links, next, (limit - 1) as nat, pid, child);
        tree_is_closed(links, next, (limit - 1) as nat, child, child);
        assert(tree =~= seq![first] + rest);
        assert forall|p: u32| rest.contains(p) implies tree.contains(p) by {
            let i = rest.index_of(p);
            assert(tree[i + 1] == p);
        }
        if queue.contains(pid) {
            let i = queue.index_of(pid);
            if i == 0 {
                assert(tree[0] == pid);
            } else {
                assert(next[i - 1] == pid);
                assert(next.contains(pid));
            }
        }
        if tree.contains(pid) && children_of(links, pid).contains(child) {
            let i = tree.index_of(pid);
            if i == 0 {
                let j = children.index_of(child);
                assert(next[queue.len() - 1 + j] == child);
                assert(next.contains(child));
            } else {
                assert(rest[i - 1] == pid);
                assert(rest.contains(pid));
            }
        }
    }
}

/// Whether a command line is that of a solver: it names `openFuelCell`, or one of its words, which
/// are separated by zero characters, ends with `Foam`.
pub open spec fn is_solver(cmdline: Seq<char>) -> bool {
    ||| text::holds(cmdline, "openFuelCell"@)
    ||| exists|i: int|
        0 <= i < text::split(cmdline, CharSet::One('\0')).len() && text::finishes_with(
            #[trigger] text::split(cmdline, CharSet::One('\0'))[i],
            "Foam"@,
        )
}

/// Whether a command line is that of a solver.
pub fn is_solver_cmdline(cmdline: &str) -> (r: bool)
    ensures
        r == is_solver(cmdline@),
{
    let chars = text::to_chars(cmdline);
    if text::contains(&chars, "openFuelCell") {
        return true;
    }
    let words = text::split_chars(&chars, CharSet::One('\0'));
    let ghost all = text::split(cmdline@, CharSet::One('\0'));
    let mut i: usize = 0;
    while i < words.len()
        invariant
            i <= words@.len(),
            all == text::views(words@),
            all == text::split(cmdline@, CharSet::One('\0')),
            forall|j: int| 0 <= j < i ==> !text::finishes_with(#[trigger] all[j], "Foam"@),
        decreases words.len() - i,
    {
        proof {
            assert(all[i as int] == words@[i as int]@);
        }
        if text::ends_with(&words[i], "Foam") {
            return true;
        }
        i += 1;
    }
    false
}

/// What is known of a process of a job.
#[derive(Clone, Copy, Debug)]
pub struct ProcessFacts {
    /// Its working directory is a case directory.
    pub in_case: bool,
    /// It is a solver.
    pub solver: bool,
}

/// Whether the `i`-th process shows the case that is active now: it is the first solver in a case
/// directory or, where there is none, the last process in one.
pub open spec fn shows_active_case(processes: Seq<ProcessFacts>, i: int) -> bool {
    &&& 0 <= i < processes.len()
    &&& processes[i].in_case
    &&& if processes[i].solver {
        forall|j: int| 0 <= j < i ==> !((#[trigger] processes[j]).in_case && processes[j].solver)
    } else {
        (forall|j: int|
            0 <= j < processes.len() ==> !((#[trigger] processes[j]).in_case
                && processes[j].solver)) && (forall|j: int|
            i < j < processes.len() ==> !(#[trigger] processes[j]).in_case)
    }
}

/// The position of the process that shows the case that is active now.
pub fn active_case(processes: &Vec<ProcessFacts>) -> (r: Option<usize>)
    ensures
        match r {
            Some(i) => shows_active_case(processes@, i as int),
            None => forall|i: int|
                0 <= i < processes@.len() ==> !(#[trigger] processes@[i]).in_case,
        },
{
    let mut fallback: Option<usize> = None;
    let mut i: usize = 0;
    while i < processes.len()
        invariant
            i <= processes@.len(),
            forall|j: int|
                0 <= j < i ==> !((#[trigger] processes@[j]).in_case && processes@[j].solver),
            match fallback {
                Some(f) => f < i && processes@[f as int].in_case && forall|j: int|
                    f < j < i ==> !(#[trigger] processes@[j]).in_case,
                None => forall|j: int| 0 <= j < i ==> !(#[trigger] processes@[j]).in_case,
            },
        decreases processes.len() - i,
    {
        if processes[i].in_case {
            if processes[i].solver {
                return Some(i);
            }
            fallback = Some(i);
        }
        i += 1;
    }
    fallback
}

// ---------------------------------------------------------------------------
// Progress figures
// ---------------------------------------------------------------------------

/// Whether the progress that a script reports makes sense.
pub fn is_valid_script_progress(completed: u64, total: u64) -> (r: bool)
    ensures
        r == (total > 0 && completed <= total),
{
    total > 0 && completed <= total
}

/// A duration in words; a duration that is no number of seconds has none.
pub open spec fn duration_text(seconds: Option<u64>) -> Seq<char> {
    match seconds {
        None => "N/A"@,
        Some(s) => if s < 60 {
            text::decimal(s as nat) + "s"@
        } else if s < 3600 {
            text::decimal((s / 60) as nat) + "m"@ + text::decimal((s % 60) as nat) + "s"@
        } else {
            text::decimal((s / 3600) as nat) + "h"@ + text::decimal(((s % 3600) / 60) as nat) + "m"@
                + text::decimal((s % 60) as nat) + "s"@
        },
    }
}

/// A duration in words: hours, minutes and seconds.
pub fn format_duration(seconds: Option<u64>) -> (r: String)
    ensures
        r@ == duration_text(seconds),
{
    match seconds {
        None => "N/A".to_owned(),
        Some(s) => {
            if s < 60 {
                let mut r = text::decimal_string(s);
                r.append("s");
                r
            } else if s < 3600 {
                let mut r = text::decimal_string(s / 60);
                r.append("m");
                r.append(text::decimal_string(s % 60).as_str());
                r.append("s");
                r
            } else {
                let mut r = text::decimal_string(s / 3600);
                r.append("h");
                r.append(text::decimal_string((s % 3600) / 60).as_str());
                r.append("m");
                r.append(text::decimal_string(s % 60).as_str());
                r.append("s");
                r
            }
        },
    }
}

/// The time of day of a Unix time.
pub open spec fn time_of_day(seconds: u64) -> Seq<char> {
    text::zero_padded((seconds / 3600 % 24) as nat, 2) + ":"@ + text::zero_padded(
        ((seconds % 3600) / 60) as nat,
        2,
    ) + ":"@ + text::zero_padded((seconds % 60) as nat, 2)
}

/// The time of day of a Unix time, as hours, minutes and seconds.
pub fn format_time_of_day(seconds: u64) -> (r: String)
    ensures
        r@ == time_of_day(seconds),
{
    let mut r: String = String::new();
    text::push_zero_padded(&mut r, seconds / 3600 % 24, 2);
    r.append(":");
    text::push_zero_padded(&mut r, (seconds % 3600) / 60, 2);
    r.append(":");
    text::push_zero_padded(&mut r, seconds % 60, 2);
    proof {
        assert(r@ =~= time_of_day(seconds));
    }
    r
}

/// A time of day has two digits for the hours, the minutes and the seconds.
pub proof fn time_of_day_has_a_fixed_length(seconds: u64)
    ensures
        time_of_day(seconds).len() == 8,
{
    reveal_strlit(":");
    text::two_digits((seconds / 3600 % 24) as nat);
    text::two_digits(((seconds % 3600) / 60) as nat);
    text::two_digits((seconds % 60) as nat);
}

/// What keeps a job's progress from being told.
#[derive(Clone, Copy, Debug, PartialEq, Eq, Structural)]
pub enum ProgressFault {
    /// Neither the command nor the output names a case.
    NoCase,
    /// The case has no solver log.
    NoLog,
}

impl ProgressFault {
    /// The fault in words.
    pub open spec fn words(self) -> Seq<char> {
        match self {
            ProgressFault::NoCase => "命令或输出中未找到 case 路径"@,
            ProgressFault::NoLog => "未找到求解器日志"@,
        }
    }

    /// The fault in words.
    pub fn message(self) -> (r: &'static str)
        ensures
            r@ == self.words(),
    {
        match self {
            ProgressFault::NoCase => "命令或输出中未找到 case 路径",
            ProgressFault::NoLog => "未找到求解器日志",
        }
    }
}

/// How far a job has come. Times of the simulation, percentages and speeds are given as text.
#[derive(Debug)]
pub struct ProgressInfo {
    pub jid: String,
    pub core_label: String,
    pub current_time: Option<String>,
    pub start_time: Option<String>,
    pub end_time: Option<String>,
    pub delta_t: Option<String>,
    pub adaptive_time_step: bool,
    pub progress_pct: Option<String>,
    /// Seconds on the wall clock, where they are a number.
    pub wall_elapsed: Option<u64>,
    /// Seconds that are left, where there is an estimate; `None` inside where it is no number.
    pub eta_seconds: Option<Option<u64>>,
    /// The Unix time of the estimated end.
    pub finish_time: u64,
    pub steps_done: Option<u64>,
    pub steps_total: Option<u64>,
    /// Seconds for each step.
    pub step_seconds: Option<String>,
    pub case_dir: Option<String>,
    pub phase: Option<String>,
    pub error: Option<ProgressFault>,
}

/// A text, or another in its place.
pub open spec fn text_or(s: Option<String>, other: Seq<char>) -> Seq<char> {
    match s {
        Some(x) => x@,
        None => other,
    }
}

fn str_or<'a>(s: &'a Option<String>, other: &'a str) -> (r: &'a str)
    ensures
        r@ == text_or(*s, other@),
{
    match s {
        Some(x) => x.as_str(),
        None => other,
    }
}

/// The percentage in a table row.
pub open spec fn percent_cell(info: ProgressInfo) -> Seq<char> {
    match info.progress_pct {
        Some(p) => text::right(p@, 5) + "%"@,
        None => "   N/A"@,
    }
}

/// The simulated time in a table row.
pub open spec fn time_cell(info: ProgressInfo) -> Seq<char> {
    match (info.current_time, info.end_time) {
        (Some(c), Some(e)) => c@ + "/"@ + e@,
        (Some(c), None) => c@ + "/?"@,
        _ => "?/?"@,
    }
}

/// The steps in a table row.
pub open spec fn steps_cell(info: ProgressInfo) -> Seq<char> {
    match (info.steps_done, info.steps_total) {
        (Some(d), Some(t)) => text::decimal(d as nat) + "/"@ + text::decimal(t as nat),
        (Some(d), None) => text::decimal(d as nat) + "/?"@,
        _ => "N/A"@,
    }
}

/// The estimate in a table row.
pub open spec fn eta_cell(info: ProgressInfo) -> Seq<char> {
    match info.eta_seconds {
        Some(seconds) => "剩余≈"@ + duration_text(seconds),
        None => "N/A"@,
    }
}

/// The seconds for each step, where a step has been done.
pub open spec fn step_speed(info: ProgressInfo) -> Option<Seq<char>> {
    match (info.steps_done, info.step_seconds) {
        (Some(d), Some(s)) => if d > 0 {
            Some(s@ + "s/步"@)
        } else {
            None
        },
        _ => None,
    }
}

/// The row of a job in the table of progress.
pub open spec fn progress_row(info: ProgressInfo) -> Seq<char> {
    "  "@ + text::left(info.jid@, 4) + " "@ + text::left(info.core_label@, 8) + " "@ + text::left(
        percent_cell(info),
        8,
    ) + " "@ + text::left(time_cell(info), 16) + " "@ + text::left(steps_cell(info), 12) + " "@
        + text::left(eta_cell(info), 18) + " "@ + text::left(text_or(info.phase, "-"@), 20) + " "@
        + match step_speed(info) {
        Some(s) => s,
        None => "N/A"@,
    }
}

fn speed_string(info: &ProgressInfo) -> (r: Option<String>)
    ensures
        crate::state::text_of(r) == step_speed(*info),
{
    match info.steps_done {
        Some(d) => if d > 0 {
            match &info.step_seconds {
                Some(s) => {
                    let mut r = s.clone();
                    r.append("s/步");
                    Some(r)
                },
                None => None,
            }
        } else {
            None
        },
        None => None,
    }
}

/// The row of a job in the table of progress.
pub fn row_line(info: &ProgressInfo) -> (r: String)
    ensures
        r@ == progress_row(*info),
{
    let mut r: String = "  ".to_owned();
    text::push_left(&mut r, info.jid.as_str(), 4);
    r.append(" ");
    text::push_left(&mut r, info.core_label.as_str(), 8);
    r.append(" ");
    let mut percent: String = String::new();
    match &info.progress_pct {
        Some(p) => {
            text::push_right(&mut percent, p.as_str(), 5);
            percent.append("%");
        },
        None => {
            percent.append("   N/A");
        },
    }
    proof {
        assert(percent@ =~= percent_cell(*info));
    }
    text::push_left(&mut r, percent.as_str(), 8);
    r.append(" ");
    let mut time: String = String::new();
    match &info.current_time {
        Some(c) => {
            time.append(c.as_str());
            match &info.end_time {
                Some(e) => {
                    time.append("/");
                    time.append(e.as_str());
                },
                None => {
                    time.append("/?");
                },
            }
        },
        None => {
            time.append("?/?");
        },
    }
    proof {
        assert(time@ =~= time_cell(*info));
    }
    text::push_left(&mut r, time.as_str(), 16);
    r.append(" ");
    let mut steps: String = String::new();
    match info.steps_done {
        Some(d) => {
            steps.append(text::decimal_string(d).as_str());
            match info.steps_total {
                Some(t) => {
                    steps.append("/");
                    steps.append(text::decimal_string(t).as_str());
                },
                None => {
                    steps.append("/?");
                },
            }
        },
        None => {
            steps.append("N/A");
        },
    }
    proof {
        assert(steps@ =~= steps_cell(*info));
    }
    text::push_left(&mut r, steps.as_str(), 12);
    r.append(" ");
    let eta: String = match info.eta_seconds {
        Some(seconds) => {
            let mut eta: String = "剩余≈".to_owned();
            eta.append(format_duration(seconds).as_str());
            eta
        },
        None => "N/A".to_owned(),
    };
    text::push_left(&mut r, eta.as_str(), 18);
    r.append(" ");
    text::push_left(&mut r, str_or(&info.phase, "-"), 20);
    r.append(" ");
    match speed_string(info) {
        Some(s) => {
            r.append(s.as_str());
        },
        None => {
            r.append("N/A");
        },
    }
    r
}

/// The head of the table of progress.
pub open spec fn progress_head() -> Seq<char> {
    text::centered("作业"@, 6) + " "@ + text::centered("核心"@, 8) + " "@ + text::centered(
        "进度"@,
        8,
    ) + " "@ + text::centered("当前/总时间"@, 16) + " "@ + text::centered("步数"@, 12) + " "@
        + text::centered("ETA"@, 18) + " "@ + text::centered("阶段"@, 20) + " "@ + "步速"@
}

/// The head of the table of progress: the titles, and a rule under them.
pub fn table_header() -> (r: (String, String))
    ensures
        r.0@ == progress_head(),
        r.1@ == Seq::new(88, |i: int| '-'),
{
    let mut head: String = String::new();
    text::push_centered(&mut head, "作业", 6);
    head.append(" ");
    text::push_centered(&mut head, "核心", 8);
    head.append(" ");
    text::push_centered(&mut head, "进度", 8);
    head.append(" ");
    text::push_centered(&mut head, "当前/总时间", 16);
    head.append(" ");
    text::push_centered(&mut head, "步数", 12);
    head.append(" ");
    text::push_centered(&mut head, "ETA", 18);
    head.append(" ");
    text::push_centered(&mut head, "阶段", 20);
    head.append(" ");
    head.append("步速");
    let mut rule: String = String::new();
    text::push_repeated(&mut rule, '-', 88);
    proof {
        assert(head@ =~= progress_head());
        assert(rule@ =~= Seq::new(88, |i: int| '-'));
    }
    (head, rule)
}

// ---------------------------------------------------------------------------
// The detailed view
// ---------------------------------------------------------------------------

/// A line as a list, where there is one.
pub open spec fn line_list(line: Option<Seq<char>>) -> Seq<Seq<char>> {
    match line {
        Some(s) => seq![s],
        None => Seq::empty(),
    }
}

/// The first line of the detailed view.
pub open spec fn detail_head(info: ProgressInfo) -> Seq<char> {
    "作业 "@ + info.jid@ + "  核心 "@ + info.core_label@ + "  已运行 "@ + duration_text(
        info.wall_elapsed,
    )
}

/// The lines on the simulated time.
pub open spec fn time_lines(info: ProgressInfo) -> Seq<Seq<char>> {
    match (info.current_time, info.end_time) {
        (Some(c), Some(e)) => seq![
            "  仿真时间:  "@ + c@ + " / "@ + e@ + "  ("@ + text_or(info.progress_pct, "0.0"@) + "%)"@,
        ] + line_list(
            match info.start_time {
                Some(s) => Some("  阶段起点:  "@ + s@),
                None => None,
            },
        ),
        (Some(c), None) => seq!["  仿真时间:  "@ + c@ + " / ?"@],
        _ => seq!["  仿真时间:  (等待日志输出)"@],
    }
}

/// The line on the steps.
pub open spec fn steps_line(info: ProgressInfo) -> Option<Seq<char>> {
    match info.steps_done {
        None => None,
        Some(d) => {
            let done = "  时间步:    "@ + text::decimal(d as nat);
            match (info.steps_total, info.delta_t) {
                (Some(t), Some(dt)) => Some(
                    done + " / "@ + text::decimal(t as nat) + "  (deltaT="@ + dt@ + ")"@,
                ),
                (Some(t), None) => None,
                (None, dt) => if info.adaptive_time_step {
                    Some(done + " / ?  (自适应)"@)
                } else {
                    match dt {
                        Some(dt) => Some(done + " / ?  (deltaT="@ + dt@ + ")"@),
                        None => None,
                    }
                },
            }
        },
    }
}

/// The lines on the estimate.
pub open spec fn eta_lines(info: ProgressInfo) -> Seq<Seq<char>> {
    match info.eta_seconds {
        Some(seconds) => seq![
            "  预计剩余:  "@ + duration_text(seconds),
            "  预计完成:  "@ + time_of_day(info.finish_time),
        ],
        None => Seq::empty(),
    }
}

/// The detailed view of a job's progress.
pub open spec fn detail(info: ProgressInfo) -> Seq<Seq<char>> {
    match info.error {
        Some(fault) => seq![detail_head(info), "  错误: "@ + fault.words()],
        None => seq![detail_head(info)] + line_list(
            match info.phase {
                Some(p) => Some("  当前阶段:  "@ + p@),
                None => None,
            },
        ) + time_lines(info) + line_list(steps_line(info)) + line_list(
            match step_speed(info) {
                Some(s) => Some("  平均步速:  "@ + s),
                None => None,
            },
        ) + eta_lines(info) + line_list(
            match info.case_dir {
                Some(d) => Some("  Case:      "@ + d@),
                None => None,
            },
        ),
    }
}

fn push_line(lines: &mut Vec<String>, line: String)
    ensures
        text::string_views(final(lines)@) == text::string_views(old(lines)@) + seq![line@],
{
    let ghost before = text::string_views(lines@);
    let ghost added = line@;
    lines.push(line);
    proof {
        assert(text::string_views(lines@) =~= before + seq![added]);
    }
}

fn titled(title: &str, value: &str) -> (r: String)
    ensures
        r@ == title@ + value@,
{
    let mut r: String = title.to_owned();
    r.append(value);
    r
}

fn push_time_lines(lines: &mut Vec<String>, info: &ProgressInfo)
    ensures
        text::string_views(final(lines)@) == text::string_views(old(lines)@) + time_lines(*info),
{
    let ghost before = text::string_views(lines@);
    match &info.current_time {
        Some(c) => {
            let mut line = titled("  仿真时间:  ", c.as_str());
            match &info.end_time {
                Some(e) => {
                    line.append(" / ");
                    line.append(e.as_str());
                    line.append("  (");
                    line.append(str_or(&info.progress_pct, "0.0"));
                    line.append("%)");
                    push_line(lines, line);
                    if let Some(s) = &info.start_time {
                        push_line(lines, titled("  阶段起点:  ", s.as_str()));
                    }
                },
                None => {
                    line.append(" / ?");
                    push_line(lines, line);
                },
            }
        },
        None => {
            push_line(lines, "  仿真时间:  (等待日志输出)".to_owned());
        },
    }
    proof {
        assert(text::string_views(lines@) =~= before + time_lines(*info));
    }
}

fn steps_string(info: &ProgressInfo) -> (r: Option<String>)
    ensures
        crate::state::text_of(r) == steps_line(*info),
{
    let d: u64 = match info.steps_done {
        Some(d) => d,
        None => {
            return None;
        },
    };
    let mut line = titled("  时间步:    ", text::decimal_string(d).as_str());
    match info.steps_total {
        Some(t) => match &info.delta_t {
            Some(dt) => {
                line.append(" / ");
                line.append(text::decimal_string(t).as_str());
                line.append("  (deltaT=");
                line.append(dt.as_str());
                line.append(")");
                Some(line)
            },
            None => None,
        },
        None => {
            if info.adaptive_time_step {
                line.append(" / ?  (自适应)");
                Some(line)
            } else {
                match &info.delta_t {
                    Some(dt) => {
                        line.append(" / ?  (deltaT=");
                        line.append(dt.as_str());
                        line.append(")");
                        Some(line)
                    },
                    None => None,
                }
            }
        },
    }
}

/// The detailed view of a job's progress, line by line.
pub fn detail_lines(info: &ProgressInfo) -> (r: Vec<String>)
    ensures
        text::string_views(r@) == detail(*info),
{
    let mut lines: Vec<String> = Vec::new();
    let mut head = titled("作业 ", info.jid.as_str());
    head.append("  核心 ");
    head.append(info.core_label.as_str());
    head.append("  已运行 ");
    head.append(format_duration(info.wall_elapsed).as_str());
    push_line(&mut lines, head);
    if let Some(fault) = info.error {
        push_line(&mut lines, titled("  错误: ", fault.message()));
        proof {
            assert(text::string_views(lines@) =~= detail(*info));
        }
        return lines;
    }
    if let Some(p) = &info.phase {
        push_line(&mut lines, titled("  当前阶段:  ", p.as_str()));
    }
    push_time_lines(&mut lines, info);
    if let Some(line) = steps_string(info) {
        push_line(&mut lines, line);
    }
    if let Some(s) = speed_string(info) {
        push_line(&mut lines, titled("  平均步速:  ", s.as_str()));
    }
    if let Some(seconds) = info.eta_seconds {
        push_line(&mut lines, titled("  预计剩余:  ", format_duration(seconds).as_str()));
        push_line(
            &mut lines,
            titled("  预计完成:  ", format_time_of_day(info.finish_time).as_str()),
        );
    }
    if let Some(d) = &info.case_dir {
        push_line(&mut lines, titled("  Case:      ", d.as_str()));
    }
    proof {
        assert(text::string_views(lines@) =~= detail(*info));
    }
    lines
}

} // verus!
