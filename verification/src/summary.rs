//! Short forms of job commands, for tables.

use crate::outside;
use crate::scheduler;
use crate::state;
use crate::text;
use crate::text::CharSet;
use vstd::prelude::*;

verus! {

// ---------------------------------------------------------------------------
// Paths
// ---------------------------------------------------------------------------

/// The last two components of a path, where it has two; else the path itself.
pub open spec fn path_tail(path: Seq<char>) -> Seq<char> {
    let parts = text::pieces(text::trim_back(path, CharSet::One('/')), CharSet::One('/'));
    if parts.len() >= 2 {
        parts[parts.len() - 2] + "/"@ + parts[parts.len() - 1]
    } else {
        path
    }
}

/// `s`, cut to its first 69 characters and three dots where it is longer than 72.
pub open spec fn cut(s: Seq<char>) -> Seq<char> {
    if s.len() <= 72 {
        s
    } else {
        s.take(69) + "..."@
    }
}

/// The short form of a path: without quotes around it, its last two components, cut.
pub open spec fn concise(value: Seq<char>) -> Seq<char> {
    cut(path_tail(text::trim(value, CharSet::Quote)))
}

/// The short form of a path.
pub fn concise_path(value: &str) -> (r: String)
    ensures
        r@ == concise(value@),
{
    let chars = text::trimmed(&text::to_chars(value), CharSet::Quote);
    let stem = text::trimmed_back(&chars, CharSet::One('/'));
    let parts = text::piece_list(&stem, CharSet::One('/'));
    let ghost pieces = text::pieces(text::trim_back(chars@, CharSet::One('/')), CharSet::One('/'));
    let tail: Vec<char> = if parts.len() >= 2 {
        let mut tail = text::slice(&parts[parts.len() - 2], 0, parts[parts.len() - 2].len());
        text::append_chars(&mut tail, &text::to_chars("/"));
        text::append_chars(&mut tail, &parts[parts.len() - 1]);
        proof {
            assert(pieces[pieces.len() - 2] == parts@[parts@.len() - 2]@);
            assert(pieces[pieces.len() - 1] == parts@[parts@.len() - 1]@);
            assert(tail@ =~= path_tail(chars@));
        }
        tail
    } else {
        chars
    };
    if tail.len() <= 72 {
        text::from_chars(&tail)
    } else {
        let mut r = text::from_chars(&text::slice(&tail, 0, 69));
        r.append("...");
        proof {
            assert(tail@.subrange(0, 69) =~= tail@.take(69));
        }
        r
    }
}

/// The short form of a path is short.
pub proof fn concise_paths_are_short(value: Seq<char>)
    ensures
        concise(value).len() <= 72,
{
    reveal_strlit("...");
    assert("..."@.len() == 3);
}

// ---------------------------------------------------------------------------
// Arguments
// ---------------------------------------------------------------------------

/// The last component of a path.
pub open spec fn file_name(argument: Seq<char>) -> Seq<char> {
    text::split(argument, CharSet::One('/')).last()
}

/// Whether an argument names a script.
pub open spec fn is_script(argument: Seq<char>) -> bool {
    let name = file_name(argument);
    ||| text::finishes_with(name, ".py"@)
    ||| text::finishes_with(name, ".sh"@)
    ||| text::finishes_with(name, ".bash"@)
    ||| text::finishes_with(name, ".jl"@)
    ||| text::finishes_with(name, ".R"@)
}

/// Whether an argument is a path: no option and no assignment.
pub open spec fn is_path(argument: Seq<char>) -> bool {
    &&& text::has_char(argument, CharSet::One('/'))
    &&& !text::begins_with(argument, "-"@)
    &&& !text::has_char(argument, CharSet::One('='))
}

/// Whether an argument is a program: no option, no assignment and no mere launcher.
pub open spec fn is_program(argument: Seq<char>) -> bool {
    &&& !text::begins_with(argument, "-"@)
    &&& !text::has_char(argument, CharSet::One('='))
    &&& argument != "env"@
    &&& argument != "command"@
}

fn names_script(argument: &str) -> (r: bool)
    ensures
        r == is_script(argument@),
{
    let parts = text::split_chars(&text::to_chars(argument), CharSet::One('/'));
    let name = &parts[parts.len() - 1];
    proof {
        assert(text::views(parts@).last() == name@);
    }
    text::ends_with(name, ".py") || text::ends_with(name, ".sh") || text::ends_with(name, ".bash")
        || text::ends_with(name, ".jl") || text::ends_with(name, ".R")
}

fn names_path(argument: &str) -> (r: bool)
    ensures
        r == is_path(argument@),
{
    let chars = text::to_chars(argument);
    text::contains_char(&chars, CharSet::One('/')) && !text::starts_with(&chars, "-")
        && !text::contains_char(&chars, CharSet::One('='))
}

fn names_program(argument: &str) -> (r: bool)
    ensures
        r == is_program(argument@),
{
    let chars = text::to_chars(argument);
    !text::starts_with(&chars, "-") && !text::contains_char(&chars, CharSet::One('='))
        && !text::same(argument, "env") && !text::same(argument, "command")
}

/// The kinds of argument that tell a command, the most telling first.
#[derive(Clone, Copy, Debug, PartialEq, Eq, Structural)]
pub enum Telling {
    Script,
    Path,
    Program,
}

/// Whether an argument is of the given kind.
pub open spec fn tells(kind: Telling, argument: Seq<char>) -> bool {
    match kind {
        Telling::Script => is_script(argument),
        Telling::Path => is_path(argument),
        Telling::Program => is_program(argument),
    }
}

/// The first argument of the given kind.
pub open spec fn first_telling(kind: Telling, arguments: Seq<Seq<char>>) -> Option<Seq<char>>
    decreases arguments.len(),
{
    if arguments.len() == 0 {
        None
    } else if tells(kind, arguments[0]) {
        Some(arguments[0])
    } else {
        first_telling(kind, arguments.drop_first())
    }
}

/// The argument that stands for a command: its first script, else its first path, else its first
/// program, else the whole command.
pub open spec fn telling_argument(command: Seq<char>, arguments: Seq<Seq<char>>) -> Seq<char> {
    match first_telling(Telling::Script, arguments) {
        Some(a) => a,
        None => match first_telling(Telling::Path, arguments) {
            Some(a) => a,
            None => match first_telling(Telling::Program, arguments) {
                Some(a) => a,
                None => command,
            },
        },
    }
}

/// The first argument of a kind is one of the kind with none before it.
pub proof fn telling_at(kind: Telling, arguments: Seq<Seq<char>>, i: int)
    requires
        0 <= i <= arguments.len(),
        forall|j: int| 0 <= j < i ==> !tells(kind, #[trigger] arguments[j]),
        i < arguments.len() ==> tells(kind, arguments[i]),
    ensures
        first_telling(kind, arguments) == if i < arguments.len() {
            Some(arguments[i])
        } else {
            None
        },
    decreases i,
{
    if i > 0 {
        let rest = arguments.drop_first();
        assert forall|j: int| 0 <= j < i - 1 implies !tells(kind, #[trigger] rest[j]) by {
            assert(rest[j] == arguments[j + 1]);
        }
        telling_at(kind, rest, i - 1);
    }
}

fn find_telling(kind: Telling, arguments: &Vec<String>) -> (r: Option<usize>)
    ensures
        match r {
            Some(i) => i < arguments@.len() && first_telling(
                kind,
                text::string_views(arguments@),
            ) == Some(arguments@[i as int]@),
            None => first_telling(kind, text::string_views(arguments@)) is None,
        },
{
    let ghost all = text::string_views(arguments@);
    let mut i: usize = 0;
    while i < arguments.len()
        invariant
            i <= arguments@.len(),
            all == text::string_views(arguments@),
            forall|j: int| 0 <= j < i ==> !tells(kind, #[trigger] all[j]),
        decreases arguments.len() - i,
    {
        let argument = arguments[i].as_str();
        let found = match kind {
            Telling::Script => names_script(argument),
            Telling::Path => names_path(argument),
            Telling::Program => names_program(argument),
        };
        if found {
            proof {
                assert(all[i as int] == argument@);
                telling_at(kind, all, i as int);
            }
            return Some(i);
        }
        i += 1;
    }
    proof {
        telling_at(kind, all, all.len() as int);
    }
    None
}

// ---------------------------------------------------------------------------
// Commands
// ---------------------------------------------------------------------------

/// The short form of a trimmed command that is not empty, given how it reads as a list.
pub open spec fn command_form(command: Seq<char>, parsed: Option<Seq<Seq<char>>>) -> Seq<char> {
    let arguments = match parsed {
        Some(arguments) => arguments,
        None => text::words(command),
    };
    concise(telling_argument(command, arguments))
}

/// The short form of a command, given how its trimmed text reads as a list.
pub open spec fn summarized(
    command: Option<Seq<char>>,
    parsed: Option<Seq<Seq<char>>>,
) -> Seq<char> {
    let trimmed = text::trim(state::text_or_empty(command), CharSet::Space);
    if trimmed.len() == 0 {
        "-"@
    } else {
        command_form(trimmed, parsed)
    }
}

/// The short form of a job's stored command.
pub open spec fn summary_of(command: Option<Seq<char>>) -> Seq<char> {
    summarized(
        command,
        outside::json_strings(text::trim(state::text_or_empty(command), CharSet::Space)),
    )
}

/// The short form of a trimmed command that is not empty, given how it reads as a list.
pub fn summarize(command: &str, parsed: Option<Vec<String>>) -> (r: String)
    ensures
        r@ == command_form(command@, scheduler::strings_of(parsed)),
{
    let arguments: Vec<String> = match parsed {
        Some(arguments) => arguments,
        None => text::to_strings(&text::word_list(&text::to_chars(command))),
    };
    if let Some(i) = find_telling(Telling::Script, &arguments) {
        return concise_path(arguments[i].as_str());
    }
    if let Some(i) = find_telling(Telling::Path, &arguments) {
        return concise_path(arguments[i].as_str());
    }
    if let Some(i) = find_telling(Telling::Program, &arguments) {
        return concise_path(arguments[i].as_str());
    }
    concise_path(command)
}

/// One compact command or script path for queue tables.
pub fn command_summary(command: Option<&str>) -> (r: String)
    ensures
        r@ == summary_of(scheduler::str_of(command)),
{
    let whole = match command {
        Some(command) => command,
        None => "",
    };
    proof {
        reveal_strlit("");
        assert(""@ =~= Seq::<char>::empty());
        assert(whole@ == state::text_or_empty(scheduler::str_of(command)));
    }
    let chars = text::trimmed(&text::to_chars(whole), CharSet::Space);
    if chars.len() == 0 {
        return "-".to_owned();
    }
    let trimmed = text::from_chars(&chars);
    let parsed = outside::parse_json_strings(trimmed.as_str());
    summarize(trimmed.as_str(), parsed)
}

} // verus!
