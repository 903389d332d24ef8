//! What stands for a command in a table.

use crate::laws::texts;
use crate::summary;
use crate::summary::Telling;
use crate::text;
use crate::text::CharSet;
use vstd::prelude::*;

verus! {

/// A path is shown by its last two parts, whatever stands before them and whether or not a slash
/// follows; a name alone by itself.
pub proof fn path_is_shown_by_its_last_two_parts(front: Seq<char>, a: Seq<char>, b: Seq<char>)
    requires
        a.len() > 0,
        b.len() > 0,
        forall|i: int| 0 <= i < a.len() ==> #[trigger] a[i] != '/',
        forall|i: int| 0 <= i < b.len() ==> #[trigger] b[i] != '/',
    ensures
        summary::path_tail(front + seq!['/'] + a + seq!['/'] + b) == a + seq!['/'] + b,
        summary::path_tail(front + seq!['/'] + a + seq!['/'] + b + seq!['/']) == a + seq!['/'] + b,
        summary::path_tail(a + seq!['/'] + b) == a + seq!['/'] + b,
        summary::path_tail(b) == b,
        summary::path_tail(seq!['/'] + b) == seq!['/'] + b,
{
    reveal_strlit("/");
    assert("/"@ =~= seq!['/']);
    let set = CharSet::One('/');
    let path = front + seq!['/'] + a + seq!['/'] + b;
    assert forall|i: int| 0 <= i < a.len() implies !set.has(#[trigger] a[i]) by {
        assert(a[i] != '/');
    }
    assert forall|i: int| 0 <= i < b.len() implies !set.has(#[trigger] b[i]) by {
        assert(b[i] != '/');
    }
    let none = Seq::<char>::empty();
    texts::pieces_are_runs_between_separators(front + seq!['/'] + a, '/', b, set);
    texts::pieces_are_runs_between_separators(front, '/', a, set);
    texts::pieces_are_runs_between_separators(a, '/', b, set);
    texts::pieces_are_runs_between_separators(b, '/', none, set);
    assert(path =~= front + seq!['/'] + a + seq!['/'] + b);
    assert(path.last() == b[b.len() - 1]);
    assert(text::trim_back(path, set) == path);
    let parts = text::pieces(path, set);
    assert(parts =~= text::pieces(front, set) + seq![a] + seq![b]);
    assert(summary::path_tail(path) =~= a + seq!['/'] + b);
    let closed = path + seq!['/'];
    assert(closed.drop_last() =~= path);
    assert(text::trim_back(closed, set) == path);
    assert(summary::path_tail(closed) =~= a + seq!['/'] + b);
    let short = a + seq!['/'] + b;
    assert(short.last() == b[b.len() - 1]);
    assert(text::trim_back(short, set) == short);
    assert(text::pieces(short, set) =~= seq![a] + seq![b]);
    assert(summary::path_tail(short) =~= short);
    assert(text::trim_back(b, set) == b);
    let rooted = seq!['/'] + b;
    assert(rooted.last() == b[b.len() - 1]);
    assert(text::trim_back(rooted, set) == rooted);
    texts::pieces_are_runs_between_separators(none, '/', b, set);
    assert(none + seq!['/'] + b =~= rooted);
    assert(text::pieces(rooted, set) =~= seq![b]);
}

/// A text of up to 72 characters is shown whole; of a longer one the first 69 characters are, and
/// three dots.
pub proof fn long_texts_are_cut(s: Seq<char>)
    ensures
        s.len() <= 72 ==> summary::cut(s) == s,
        s.len() > 72 ==> summary::cut(s).len() == 72 && summary::cut(s).take(69) == s.take(69)
            && summary::cut(s).skip(69) == seq!['.', '.', '.'],
{
    reveal_strlit("...");
    if s.len() > 72 {
        assert(summary::cut(s).take(69) =~= s.take(69));
        assert(summary::cut(s).skip(69) =~= seq!['.', '.', '.']);
    }
}

/// Quotes around a value are not shown.
pub proof fn quotes_are_not_shown(s: Seq<char>)
    requires
        s.len() > 0,
        s[0] != '\'' && s[0] != '"' && s[s.len() - 1] != '\'' && s[s.len() - 1] != '"',
    ensures
        summary::concise(s) == summary::cut(summary::path_tail(s)),
        summary::concise(seq!['"'] + s + seq!['"']) == summary::concise(s),
        summary::concise(seq!['\''] + s + seq!['\'']) == summary::concise(s),
{
    texts::nothing_to_trim(s, CharSet::Quote);
    texts::ends_come_off(seq!['"'] + s + seq!['"'], s, '"', CharSet::Quote);
    texts::ends_come_off(seq!['\''] + s + seq!['\''], s, '\'', CharSet::Quote);
}

/// A script is told by the end of its file name, wherever the file stands.
pub proof fn scripts_are_told_by_their_ending(front: Seq<char>, name: Seq<char>)
    requires
        forall|i: int| 0 <= i < name.len() ==> #[trigger] name[i] != '/',
    ensures
        summary::is_script(front + seq!['/'] + name) == summary::is_script(name),
        summary::is_script(name) <==> {
            ||| text::finishes_with(name, ".py"@)
            ||| text::finishes_with(name, ".sh"@)
            ||| text::finishes_with(name, ".bash"@)
            ||| text::finishes_with(name, ".jl"@)
            ||| text::finishes_with(name, ".R"@)
        },
{
    let set = CharSet::One('/');
    assert forall|i: int| 0 <= i < name.len() implies !set.has(#[trigger] name[i]) by {
        assert(name[i] != '/');
    }
    texts::text_is_split_at_separators(front, '/', name, set);
    texts::text_is_split_at_separators(name, '/', front, set);
    assert(text::split(name, set).last() == name);
    assert((text::split(front, set) + seq![name]).last() == name);
}

/// A path holds a slash and is no option and no assignment; a program is neither of the two and no
/// mere launcher.
pub proof fn paths_and_programs_are_told(argument: Seq<char>)
    ensures
        summary::is_path(argument) <==> {
            &&& argument.contains('/')
            &&& !(argument.len() > 0 && argument[0] == '-')
            &&& !argument.contains('=')
        },
        summary::is_program(argument) <==> {
            &&& !(argument.len() > 0 && argument[0] == '-')
            &&& !argument.contains('=')
            &&& argument != "env"@
            &&& argument != "command"@
        },
{
    reveal_strlit("-");
    assert("-"@ =~= seq!['-']);
    assert(text::has_char(argument, CharSet::One('/')) == argument.contains('/')) by {
        if argument.contains('/') {
            assert(CharSet::One('/').has(argument[argument.index_of('/')]));
        }
    }
    assert(text::has_char(argument, CharSet::One('=')) == argument.contains('=')) by {
        if argument.contains('=') {
            assert(CharSet::One('=').has(argument[argument.index_of('=')]));
        }
    }
    if argument.len() > 0 {
        assert(argument.take(1) =~= seq![argument[0]]);
        if argument[0] == '-' {
            assert(argument.take(1) =~= "-"@);
        }
        if argument.take(1) == "-"@ {
            assert(argument.take(1)[0] == '-');
        }
    }
}

/// A command is told by its first script; without a script by its first path; without a path by its
/// first program; else by itself.
pub proof fn command_is_told_by_its_first_script(
    command: Seq<char>,
    arguments: Seq<Seq<char>>,
    i: int,
)
    requires
        0 <= i < arguments.len(),
    ensures
        ({
            let told = summary::telling_argument(command, arguments);
            &&& summary::is_script(arguments[i]) && (forall|j: int|
                0 <= j < i ==> !summary::is_script(#[trigger] arguments[j])) ==> told
                == arguments[i]
            &&& summary::is_path(arguments[i]) && (forall|j: int|
                0 <= j < i ==> !summary::is_path(#[trigger] arguments[j])) && (forall|j: int|
                0 <= j < arguments.len() ==> !summary::is_script(#[trigger] arguments[j])) ==> told
                == arguments[i]
            &&& summary::is_program(arguments[i]) && (forall|j: int|
                0 <= j < i ==> !summary::is_program(#[trigger] arguments[j])) && (forall|j: int|
                0 <= j < arguments.len() ==> !summary::is_script(#[trigger] arguments[j])
                    && !summary::is_path(arguments[j])) ==> told == arguments[i]
        }),
{
    if summary::is_script(arguments[i]) && (forall|j: int|
        0 <= j < i ==> !summary::is_script(#[trigger] arguments[j])) {
        first_of_kind(Telling::Script, arguments, i);
    }
    if forall|j: int| 0 <= j < arguments.len() ==> !summary::is_script(#[trigger] arguments[j]) {
        first_of_kind(Telling::Script, arguments, arguments.len() as int);
        if summary::is_path(arguments[i]) && (forall|j: int|
            0 <= j < i ==> !summary::is_path(#[trigger] arguments[j])) {
            first_of_kind(Telling::Path, arguments, i);
        }
        if (forall|j: int| 0 <= j < arguments.len() ==> !summary::is_path(#[trigger] arguments[j]))
            && summary::is_program(arguments[i]) && (forall|j: int|
            0 <= j < i ==> !summary::is_program(#[trigger] arguments[j])) {
            first_of_kind(Telling::Path, arguments, arguments.len() as int);
            first_of_kind(Telling::Program, arguments, i);
        }
    }
    if (forall|j: int|
        0 <= j < arguments.len() ==> !summary::is_script(#[trigger] arguments[j])
            && !summary::is_path(arguments[j])) {
        assert forall|j: int| 0 <= j < arguments.len() implies !summary::is_path(
            #[trigger] arguments[j],
        ) by {
            assert(!summary::is_script(arguments[j]));
        }
        assert forall|j: int| 0 <= j < arguments.len() implies !summary::is_script(
            #[trigger] arguments[j],
        ) by {}
    }
}

proof fn first_of_kind(kind: Telling, arguments: Seq<Seq<char>>, i: int)
    requires
        0 <= i <= arguments.len(),
        forall|j: int|
            0 <= j < i ==> match kind {
                Telling::Script => !summary::is_script(#[trigger] arguments[j]),
                Telling::Path => !summary::is_path(arguments[j]),
                Telling::Program => !summary::is_program(arguments[j]),
            },
        i < arguments.len() ==> match kind {
            Telling::Script => summary::is_script(arguments[i]),
            Telling::Path => summary::is_path(arguments[i]),
            Telling::Program => summary::is_program(arguments[i]),
        },
    ensures
        summary::first_telling(kind, arguments) == if i < arguments.len() {
            Some(arguments[i])
        } else {
            None
        },
{
    assert forall|j: int| 0 <= j < i implies !summary::tells(kind, #[trigger] arguments[j]) by {}
    summary::telling_at(kind, arguments, i);
}

/// A command in which nothing tells it stands for itself.
pub proof fn command_without_telling_words(command: Seq<char>, arguments: Seq<Seq<char>>)
    requires
        forall|j: int|
            0 <= j < arguments.len() ==> !summary::is_script(#[trigger] arguments[j])
                && !summary::is_path(arguments[j]) && !summary::is_program(arguments[j]),
    ensures
        summary::telling_argument(command, arguments) == command,
{
    first_of_kind(Telling::Script, arguments, arguments.len() as int);
    first_of_kind(Telling::Path, arguments, arguments.len() as int);
    first_of_kind(Telling::Program, arguments, arguments.len() as int);
}

/// A command that is missing or blank is shown as a dash; any other by what tells it, of its
/// arguments where it reads as a list and of its words where it does not.
pub proof fn commands_are_summed_up(command: Seq<char>, parsed: Option<Seq<Seq<char>>>)
    ensures
        summary::summarized(None, parsed) == "-"@,
        (forall|i: int| 0 <= i < command.len() ==> text::is_space(#[trigger] command[i]))
            ==> summary::summarized(Some(command), parsed) == "-"@,
        command.len() > 0 && !text::is_space(command[0]) && !text::is_space(
            command[command.len() - 1],
        ) ==> summary::summarized(Some(command), parsed) == summary::concise(
            summary::telling_argument(
                command,
                if parsed is Some {
                    parsed->0
                } else {
                    text::words(command)
                },
            ),
        ),
{
    let none = Seq::<char>::empty();
    assert(text::trim(none, CharSet::Space) =~= none);
    if forall|i: int| 0 <= i < command.len() ==> text::is_space(#[trigger] command[i]) {
        let (a, b) = texts::trimming_takes_the_ends_off(command, CharSet::Space);
        if a < b {
            assert(text::is_space(command[a]));
        }
        assert(text::trim(command, CharSet::Space).len() == 0);
    }
    if command.len() > 0 && !text::is_space(command[0]) && !text::is_space(
        command[command.len() - 1],
    ) {
        texts::nothing_to_trim(command, CharSet::Space);
    }
}

} // verus!
