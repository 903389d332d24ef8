//! What command lines ask for.

use crate::cli;
use crate::cli::{CliError, CliView, SeenView, Subcommand, ValueOption};
use crate::state;
use crate::state::JobPriority;
use crate::text;
use vstd::prelude::*;

verus! {

// ---------------------------------------------------------------------------
// Names
// ---------------------------------------------------------------------------

/// A command is asked for by its name or its alias and by no other word.
pub proof fn commands_have_a_name_and_an_alias(word: Seq<char>, command: Subcommand)
    ensures
        cli::command_named(word) == Some(command) ==> {
            ||| word == command.spelled()
            ||| command == Subcommand::Run && word == "r"@
            ||| command == Subcommand::List && word == "ls"@
            ||| command == Subcommand::Status && word == "st"@
            ||| command == Subcommand::Enqueue && word == "enq"@
            ||| command == Subcommand::ReserveCore && word == "reserve"@
            ||| command == Subcommand::Progress && word == "pg"@
        },
        cli::command_named("r"@) == Some(Subcommand::Run),
        cli::command_named("ls"@) == Some(Subcommand::List),
        cli::command_named("st"@) == Some(Subcommand::Status),
        cli::command_named("enq"@) == Some(Subcommand::Enqueue),
        cli::command_named("reserve"@) == Some(Subcommand::ReserveCore),
        cli::command_named("pg"@) == Some(Subcommand::Progress),
{
    names_are_told_apart();
}

proof fn names_are_told_apart()
    ensures
        "run"@ =~= seq!['r', 'u', 'n'],
        "r"@ =~= seq!['r'],
        "list"@.len() == 4 && "list"@[0] == 'l',
        "ls"@ =~= seq!['l', 's'],
        "status"@.len() == 6 && "status"@[0] == 's',
        "st"@ =~= seq!['s', 't'],
        "cancel"@.len() == 6 && "cancel"@[0] == 'c',
        "wait"@.len() == 4 && "wait"@[0] == 'w',
        "tail"@.len() == 4 && "tail"@[0] == 't',
        "enqueue"@.len() == 7 && "enqueue"@[0] == 'e',
        "enq"@.len() == 3 && "enq"@[0] == 'e',
        "reserve-core"@.len() == 12 && "reserve-core"@[0] == 'r',
        "reserve"@.len() == 7 && "reserve"@[0] == 'r',
        "progress"@.len() == 8 && "progress"@[0] == 'p',
        "pg"@.len() == 2 && "pg"@[0] == 'p',
{
    reveal_strlit("run");
    reveal_strlit("r");
    reveal_strlit("list");
    reveal_strlit("ls");
    reveal_strlit("status");
    reveal_strlit("st");
    reveal_strlit("cancel");
    reveal_strlit("wait");
    reveal_strlit("tail");
    reveal_strlit("enqueue");
    reveal_strlit("enq");
    reveal_strlit("reserve-core");
    reveal_strlit("reserve");
    reveal_strlit("progress");
    reveal_strlit("pg");
}

/// A request is carried out under the name of the command that asked for it.
pub proof fn request_is_of_its_command(command: Subcommand, seen: SeenView)
    ensures
        cli::request(command, seen) matches Ok(view) ==> cli::subcommand_of(view) == command,
{
}

/// A long option is its name behind two dashes; a value may be attached with an equals sign.
pub proof fn long_options_are_read(name: Seq<char>, value: Seq<char>)
    requires
        name.len() > 0,
        forall|i: int| 0 <= i < name.len() ==> #[trigger] name[i] != '=',
    ensures
        ({
            let plain = "--"@ + name;
            let with_value = "--"@ + name + "="@ + value;
            &&& cli::is_option(plain) && cli::is_long(plain) && !cli::ends_options(plain)
            &&& cli::long_name(plain) == name && cli::attached(plain) is None
            &&& cli::is_option(with_value) && cli::is_long(with_value) && !cli::ends_options(
                with_value,
            )
            &&& cli::long_name(with_value) == name && cli::attached(with_value) == Some(value)
        }),
{
    reveal_strlit("--");
    reveal_strlit("=");
    cli::plain_option_is_read(name);
    let word = "--"@ + name + "="@ + value;
    let body = word.skip(2);
    assert(body =~= name + seq!['='] + value);
    assert forall|j: int| 0 <= j < name.len() implies #[trigger] body[j] != '=' by {
        assert(body[j] == name[j]);
    }
    cli::equals_stands_at(body, name.len() as int);
    assert(body.take(name.len() as int) =~= name);
    assert(body.skip(name.len() as int + 1) =~= value);
}

/// A word is an option where it is longer than one character and begins with a dash; two dashes
/// alone end the options.
pub proof fn options_begin_with_a_dash(word: Seq<char>)
    ensures
        cli::is_option(word) <==> word.len() > 1 && word[0] == '-',
        cli::is_long(word) ==> cli::is_option(word),
        cli::ends_options(word) <==> word == seq!['-', '-'],
{
    if cli::ends_options(word) {
        assert(word =~= seq!['-', '-']);
    }
}

/// A small number is given in digits, with a plus sign or not, and fits a byte; a negative one is
/// none but for zero.
pub proof fn small_numbers_fit_a_byte(s: Seq<char>, n: nat)
    ensures
        n <= 255 ==> cli::small_number(text::decimal(n)) == Some(n as u8),
        n > 255 ==> cli::small_number(text::decimal(n)) is None,
        cli::small_number(s) is None || s.len() > 0,
        s.len() > 0 && s[0] != '-' && s[0] != '+' && !text::is_digits(s) ==> cli::small_number(s)
            is None,
        s.len() > 0 && s[0] == '-' && cli::small_number(s) is Some ==> cli::small_number(s) == Some(
            0u8,
        ),
{
    text::decimal_round_trip(n);
    text::unsigned_of_decimal(n, 255);
    assert(text::is_digit(text::decimal(n)[0]));
}

// ---------------------------------------------------------------------------
// Options
// ---------------------------------------------------------------------------

proof fn option_names_are_plain()
    ensures
        "cfd"@ =~= seq!['c', 'f', 'd'],
        "cpus"@ =~= seq!['c', 'p', 'u', 's'],
        "priority"@.len() == 8 && "priority"@[0] == 'p',
        "timeout"@.len() == 7 && "timeout"@[0] == 't',
        "help"@ =~= seq!['h', 'e', 'l', 'p'],
        "all"@ =~= seq!['a', 'l', 'l'],
        "clear"@.len() == 5 && "clear"@[0] == 'c',
        forall|i: int| 0 <= i < "priority"@.len() ==> #[trigger] "priority"@[i] != '=',
        forall|i: int| 0 <= i < "timeout"@.len() ==> #[trigger] "timeout"@[i] != '=',
        forall|i: int| 0 <= i < "clear"@.len() ==> #[trigger] "clear"@[i] != '=',
{
    reveal_strlit("cfd");
    reveal_strlit("cpus");
    reveal_strlit("priority");
    reveal_strlit("timeout");
    reveal_strlit("help");
    reveal_strlit("all");
    reveal_strlit("clear");
}

/// The name of an option that takes a value.
pub open spec fn name_of(option: ValueOption) -> Seq<char> {
    match option {
        ValueOption::Cfd => "cfd"@,
        ValueOption::Cpus => "cpus"@,
        ValueOption::Priority => "priority"@,
        ValueOption::Timeout => "timeout"@,
    }
}

/// Jobs are asked for with the options for cores, CPUs and priority, a `run` job with a time limit
/// besides; no other command has options with a value, and no other name is one.
pub proof fn jobs_have_options(command: Subcommand, option: ValueOption, name: Seq<char>)
    ensures
        cli::option_named(command, name_of(option)) == Some(option) <==> command == Subcommand::Run
            || (command == Subcommand::Enqueue && option != ValueOption::Timeout),
        cli::option_named(command, name) == Some(option) ==> name == name_of(option) && (command
            == Subcommand::Run || command == Subcommand::Enqueue),
        cli::has_switch(command, name) <==> (command == Subcommand::Cancel && name == "all"@) || (
        command == Subcommand::ReserveCore && name == "clear"@),
{
    option_names_are_plain();
}

/// An option with a value in the next word is read with that value, and reading goes on behind it;
/// where the value is attached, behind the option itself. The two ways give the same.
pub proof fn option_is_read_with_its_value(
    command: Subcommand,
    words: Seq<Seq<char>>,
    i: int,
    seen: SeenView,
    option: ValueOption,
    value: Seq<char>,
    after: SeenView,
)
    requires
        0 <= i < words.len(),
        cli::option_named(command, name_of(option)) == Some(option),
        cli::with_option(seen, option, value, i, i) == Ok::<SeenView, CliError>(after),
    ensures
        words[i] == "--"@ + name_of(option) && i + 1 < words.len() && words[i + 1] == value
            && !cli::is_option(value) ==> cli::scan(command, words, i, false, seen) == cli::scan(
            command,
            words,
            i + 2,
            false,
            after,
        ),
        words[i] == "--"@ + name_of(option) + "="@ + value ==> cli::scan(
            command,
            words,
            i,
            false,
            seen,
        ) == cli::scan(command, words, i + 1, false, after),
        words[i] == "--"@ + name_of(option) && (i + 1 >= words.len() || cli::is_option(
            words[i + 1],
        )) ==> cli::scan(command, words, i, false, seen) == Err::<SeenView, CliError>(
            CliError::MissingValue(i as usize),
        ),
{
    option_name_is_plain(command, option);
    long_options_are_read(name_of(option), value);
    place_of_the_value_is_for_faults(seen, option, value, i, i + 1, after);
}

proof fn option_name_is_plain(command: Subcommand, option: ValueOption)
    requires
        cli::option_named(command, name_of(option)) == Some(option),
    ensures
        name_of(option).len() > 0,
        forall|k: int| 0 <= k < name_of(option).len() ==> #[trigger] name_of(option)[k] != '=',
        name_of(option) != "help"@,
        !cli::has_switch(command, name_of(option)),
{
    option_names_are_plain();
}

proof fn place_of_the_value_is_for_faults(
    seen: SeenView,
    option: ValueOption,
    value: Seq<char>,
    i: int,
    at: int,
    after: SeenView,
)
    requires
        cli::with_option(seen, option, value, i, i) == Ok::<SeenView, CliError>(after),
    ensures
        cli::with_option(seen, option, value, i, at) == Ok::<SeenView, CliError>(after),
{
}

/// A size is read as the number given, a priority as the level asked for, a time limit as the
/// seconds given; each once, and whatever else was read stays.
pub proof fn option_sets_what_it_names(
    seen: SeenView,
    n: u8,
    seconds: u64,
    priority: JobPriority,
    i: int,
    at: int,
)
    requires
        priority != JobPriority::P3,
    ensures
        seen.cfd is None ==> cli::with_option(
            seen,
            ValueOption::Cfd,
            text::decimal(n as nat),
            i,
            at,
        ) == Ok::<SeenView, CliError>(SeenView { cfd: Some(n), ..seen }),
        seen.cpus is None ==> cli::with_option(
            seen,
            ValueOption::Cpus,
            text::decimal(n as nat),
            i,
            at,
        ) == Ok::<SeenView, CliError>(SeenView { cpus: Some(n), ..seen }),
        seen.priority is None ==> cli::with_option(
            seen,
            ValueOption::Priority,
            priority.label(),
            i,
            at,
        ) == Ok::<SeenView, CliError>(SeenView { priority: Some(priority), ..seen }),
        seen.timeout is None ==> cli::with_option(
            seen,
            ValueOption::Timeout,
            text::decimal(seconds as nat),
            i,
            at,
        ) == Ok::<SeenView, CliError>(SeenView { timeout: Some(seconds), ..seen }),
{
    cli::decimal_is_a_plain_word(n as nat);
    cli::decimal_is_a_plain_word(seconds as nat);
    text::unsigned_of_decimal(seconds as nat, u64::MAX as nat);
    state::requested_label_is_the_priority(priority);
}

/// An option given twice is a fault at its second place, and a value that it cannot have a fault at
/// the place of the value.
pub proof fn option_faults_are_told(
    seen: SeenView,
    option: ValueOption,
    value: Seq<char>,
    i: int,
    at: int,
)
    ensures
        (option == ValueOption::Cfd && seen.cfd is Some) || (option == ValueOption::Cpus
            && seen.cpus is Some) || (option == ValueOption::Priority && seen.priority is Some) || (
        option == ValueOption::Timeout && seen.timeout is Some) <==> cli::with_option(
            seen,
            option,
            value,
            i,
            at,
        ) == Err::<SeenView, CliError>(CliError::Repeated(i as usize)),
        cli::with_option(seen, option, value, i, at) matches Err(e) ==> e == CliError::Repeated(
            i as usize,
        ) || e == CliError::InvalidValue(at as usize),
        (option == ValueOption::Cfd && seen.cfd is None && cli::small_number(value) is None) || (
        option == ValueOption::Cpus && seen.cpus is None && cli::small_number(value) is None) || (
        option == ValueOption::Priority && seen.priority is None && JobPriority::requested(value)
            is None) || (option == ValueOption::Timeout && seen.timeout is None && text::unsigned(
            value,
            u64::MAX as nat,
        ) is None) <==> cli::with_option(seen, option, value, i, at) == Err::<SeenView, CliError>(
            CliError::InvalidValue(at as usize),
        ),
{
}

/// A switch is read once, without a value.
pub proof fn switch_is_read_once(
    command: Subcommand,
    words: Seq<Seq<char>>,
    i: int,
    seen: SeenView,
)
    requires
        0 <= i < words.len(),
        (command == Subcommand::Cancel && words[i] == "--all"@) || (command
            == Subcommand::ReserveCore && words[i] == "--clear"@),
    ensures
        !seen.switch ==> cli::scan(command, words, i, false, seen) == cli::scan(
            command,
            words,
            i + 1,
            false,
            SeenView { switch: true, ..seen },
        ),
        seen.switch ==> cli::scan(command, words, i, false, seen) == Err::<SeenView, CliError>(
            CliError::Repeated(i as usize),
        ),
{
    reveal_strlit("--");
    reveal_strlit("--all");
    reveal_strlit("--clear");
    option_names_are_plain();
    reveal_strlit("clear");
    assert("--all"@ =~= "--"@ + "all"@);
    assert("--clear"@ =~= "--"@ + "clear"@);
    long_options_are_read("all"@, Seq::empty());
    long_options_are_read("clear"@, Seq::empty());
}

/// An option that a command does not have is a fault at its place; help is given wherever it is
/// asked for before the end of the options.
pub proof fn other_options_are_faults(
    command: Subcommand,
    words: Seq<Seq<char>>,
    i: int,
    seen: SeenView,
    name: Seq<char>,
)
    requires
        0 <= i < words.len(),
        name.len() > 0,
        forall|k: int| 0 <= k < name.len() ==> #[trigger] name[k] != '=',
    ensures
        words[i] == "--"@ + name && name != "help"@ && !cli::has_switch(command, name)
            && cli::option_named(command, name) is None ==> cli::scan(
            command,
            words,
            i,
            false,
            seen,
        ) == Err::<SeenView, CliError>(CliError::Unexpected(i as usize)),
        words[i] == "--help"@ || words[i] == "-h"@ ==> cli::scan(command, words, i, false, seen)
            == Err::<SeenView, CliError>(CliError::Help(Some(command))),
        words[i].len() > 1 && words[i][0] == '-' && words[i][1] != '-' && words[i][1] != 'h'
            ==> cli::scan(command, words, i, false, seen) == Err::<SeenView, CliError>(
            CliError::Unexpected(i as usize),
        ),
{
    reveal_strlit("--");
    reveal_strlit("--help");
    reveal_strlit("-h");
    option_names_are_plain();
    assert("--help"@ =~= "--"@ + "help"@);
    long_options_are_read(name, Seq::empty());
    long_options_are_read("help"@, Seq::empty());
}

/// Two dashes end the options.
pub proof fn two_dashes_end_the_options(
    command: Subcommand,
    words: Seq<Seq<char>>,
    i: int,
    seen: SeenView,
)
    requires
        0 <= i < words.len(),
        words[i] == "--"@,
    ensures
        cli::scan(command, words, i, false, seen) == cli::scan(command, words, i + 1, true, seen),
{
    reveal_strlit("--");
}

// ---------------------------------------------------------------------------
// Words
// ---------------------------------------------------------------------------

/// A word that is no option is taken by a cancellation and, as a number, by a reservation; by
/// commands on one job where it is the first; and by jobs only behind the end of the options. Any
/// other is a fault at its place.
pub proof fn words_are_taken_where_they_belong(
    command: Subcommand,
    words: Seq<Seq<char>>,
    i: int,
    seen: SeenView,
)
    requires
        0 <= i < words.len(),
        !cli::is_option(words[i]),
    ensures
        ({
            let read = cli::scan(command, words, i, false, seen);
            let unexpected = Err::<SeenView, CliError>(CliError::Unexpected(i as usize));
            let taken = SeenView { words: seen.words.push(words[i]), ..seen };
            match command {
                Subcommand::List | Subcommand::Status | Subcommand::Run | Subcommand::Enqueue => read
                    == unexpected,
                Subcommand::Wait | Subcommand::Tail | Subcommand::Progress => if seen.words.len()
                    == 0 {
                    read == cli::scan(command, words, i + 1, false, taken)
                } else {
                    read == unexpected
                },
                Subcommand::Cancel => read == cli::scan(command, words, i + 1, false, taken),
                Subcommand::ReserveCore => match cli::small_number(words[i]) {
                    Some(core) => read == cli::scan(
                        command,
                        words,
                        i + 1,
                        false,
                        SeenView { cores: seen.cores.push(core), ..taken },
                    ),
                    None => read == Err::<SeenView, CliError>(CliError::InvalidValue(i as usize)),
                },
            }
        }),
{
}

/// Where all words are read, what has been read stands.
pub proof fn reading_ends_with_the_words(
    command: Subcommand,
    words: Seq<Seq<char>>,
    after_options: bool,
    seen: SeenView,
)
    ensures
        cli::scan(command, words, words.len() as int, after_options, seen) == Ok::<
            SeenView,
            CliError,
        >(seen),
{
}

// ---------------------------------------------------------------------------
// Requests
// ---------------------------------------------------------------------------

/// A job is asked for with what was read: a size in cores or in CPUs, not both, the priority (the
/// lowest where none was given), the time limit (none where none was given) and its command, which
/// must not be missing.
pub proof fn job_request_holds_what_was_read(seen: SeenView)
    ensures
        ({
            let run = cli::request(Subcommand::Run, seen);
            let enqueue = cli::request(Subcommand::Enqueue, seen);
            let both = seen.cfd is Some && seen.cpus is Some;
            &&& run == Err::<CliView, CliError>(CliError::Conflict) <==> both
            &&& enqueue == Err::<CliView, CliError>(CliError::Conflict) <==> both
            &&& !both ==> (run == Err::<CliView, CliError>(CliError::MissingArgument)
                <==> seen.words.len() == 0)
            &&& !both ==> (enqueue == Err::<CliView, CliError>(CliError::MissingArgument)
                <==> seen.words.len() == 0)
            &&& run matches Ok(view) ==> view matches CliView::Run {
                cfd,
                cpus,
                priority,
                timeout,
                command,
            } && {
                &&& cfd == seen.cfd && cpus == seen.cpus && command == seen.words
                &&& seen.priority is Some ==> priority == seen.priority->0
                &&& seen.priority is None ==> priority == JobPriority::P0
                &&& seen.timeout is Some ==> timeout == seen.timeout->0
                &&& seen.timeout is None ==> timeout == 0
            }
            &&& enqueue matches Ok(view) ==> view matches CliView::Enqueue {
                cfd,
                cpus,
                priority,
                command,
            } && {
                &&& cfd == seen.cfd && cpus == seen.cpus && command == seen.words
                &&& seen.priority is Some ==> priority == seen.priority->0
                &&& seen.priority is None ==> priority == JobPriority::P0
            }
            &&& run is Err ==> both || seen.words.len() == 0
            &&& enqueue is Err ==> both || seen.words.len() == 0
        }),
{
}

/// The other commands are asked for with what was read: a cancellation with the jobs or all, a
/// reservation with the cores or a clearing, and never both or neither; a wait and a tail with one
/// job, the progress of one job or of all.
pub proof fn other_requests_hold_what_was_read(seen: SeenView)
    ensures
        cli::request(Subcommand::List, seen) == Ok::<CliView, CliError>(CliView::List),
        cli::request(Subcommand::Status, seen) == Ok::<CliView, CliError>(CliView::Status),
        cli::request(Subcommand::Cancel, seen) == if seen.switch && seen.words.len() > 0 {
            Err(CliError::Conflict)
        } else if seen.switch || seen.words.len() > 0 {
            Ok(CliView::Cancel { jids: seen.words, all: seen.switch })
        } else {
            Err::<CliView, CliError>(CliError::MissingArgument)
        },
        cli::request(Subcommand::ReserveCore, seen) == if seen.switch && seen.cores.len() > 0 {
            Err(CliError::Conflict)
        } else if seen.switch || seen.cores.len() > 0 {
            Ok(CliView::ReserveCore { cores: seen.cores, clear: seen.switch })
        } else {
            Err::<CliView, CliError>(CliError::MissingArgument)
        },
        seen.words.len() > 0 ==> {
            &&& cli::request(Subcommand::Wait, seen) == Ok::<CliView, CliError>(
                CliView::Wait { jid: seen.words[0] },
            )
            &&& cli::request(Subcommand::Tail, seen) == Ok::<CliView, CliError>(
                CliView::Tail { jid: seen.words[0] },
            )
            &&& cli::request(Subcommand::Progress, seen) == Ok::<CliView, CliError>(
                CliView::Progress { jid: Some(seen.words[0]) },
            )
        },
        seen.words.len() == 0 ==> {
            &&& cli::request(Subcommand::Wait, seen) == Err::<CliView, CliError>(
                CliError::MissingArgument,
            )
            &&& cli::request(Subcommand::Tail, seen) == Err::<CliView, CliError>(
                CliError::MissingArgument,
            )
            &&& cli::request(Subcommand::Progress, seen) == Ok::<CliView, CliError>(
                CliView::Progress { jid: None },
            )
        },
{
}

/// A command line is read from its second word on: the command, and what its other words say of
/// it, beginning with nothing said.
pub proof fn line_is_read_as_its_command(words: Seq<Seq<char>>, command: Subcommand)
    requires
        words.len() >= 2,
        cli::command_named(words[1]) == Some(command),
    ensures
        cli::parsed(words) == match cli::scan(
            command,
            words,
            2,
            false,
            SeenView {
                cfd: None,
                cpus: None,
                priority: None,
                timeout: None,
                switch: false,
                words: Seq::empty(),
                cores: Seq::empty(),
            },
        ) {
            Ok(seen) => cli::request(command, seen),
            Err(e) => Err::<CliView, CliError>(e),
        },
{
}

/// A line without a command asks for help or the version, or is a fault.
pub proof fn line_without_a_command(words: Seq<Seq<char>>)
    ensures
        words.len() < 2 ==> cli::parsed(words) == Err::<CliView, CliError>(
            CliError::MissingSubcommand,
        ),
        words.len() >= 2 && (words[1] == "--help"@ || words[1] == "-h"@) ==> cli::parsed(words)
            == Err::<CliView, CliError>(CliError::Help(None)),
        words.len() >= 2 && (words[1] == "--version"@ || words[1] == "-V"@) ==> cli::parsed(words)
            == Err::<CliView, CliError>(CliError::Version),
        words.len() >= 2 && !cli::is_option(words[1]) && cli::command_named(words[1]) is None
            ==> cli::parsed(words) == Err::<CliView, CliError>(CliError::Unexpected(1)),
        words.len() >= 2 && cli::command_named(words[1]) is None ==> cli::parsed(words) is Err,
{
    names_are_told_apart();
    reveal_strlit("--");
    reveal_strlit("--help");
    reveal_strlit("-h");
    reveal_strlit("--version");
    reveal_strlit("-V");
    reveal_strlit("help");
    reveal_strlit("version");
    assert("--help"@ =~= "--"@ + "help"@);
    assert("--version"@ =~= "--"@ + "version"@);
    assert("--help"@[0] == '-' && "--version"@[0] == '-' && "-h"@[0] == '-' && "-V"@[0] == '-');
    long_options_are_read("help"@, Seq::empty());
    long_options_are_read("version"@, Seq::empty());
    assert("help"@[0] == 'h' && "version"@[0] == 'v');
}

// ---------------------------------------------------------------------------
// Whole lines
// ---------------------------------------------------------------------------

/// Jobs to cancel are read as they are named, each once and in order.
pub proof fn cancel_line_is_read_back(jids: Seq<Seq<char>>)
    requires
        jids.len() > 0,
        forall|i: int| 0 <= i < jids.len() ==> !cli::is_option(#[trigger] jids[i]),
    ensures
        cli::parsed(seq!["coresched"@, "cancel"@] + jids) == Ok::<CliView, CliError>(
            CliView::Cancel { jids, all: false },
        ),
{
    let words = seq!["coresched"@, "cancel"@] + jids;
    cli::commands_are_named(Subcommand::Cancel);
    assert forall|i: int| 2 <= i < words.len() implies !cli::is_option(#[trigger] words[i]) by {
        assert(words[i] == jids[i - 2]);
    }
    plain_words_are_read(words, 2, cli::nothing_seen());
    assert(cli::nothing_seen().words + words.skip(2) =~= jids);
}

proof fn plain_words_are_read(words: Seq<Seq<char>>, i: int, seen: SeenView)
    requires
        2 <= i <= words.len(),
        forall|j: int| 2 <= j < words.len() ==> !cli::is_option(#[trigger] words[j]),
    ensures
        cli::scan(Subcommand::Cancel, words, i, false, seen) == Ok::<SeenView, CliError>(
            SeenView { words: seen.words + words.skip(i), ..seen },
        ),
    decreases words.len() - i,
{
    if i == words.len() {
        assert(seen.words + words.skip(i) =~= seen.words);
    } else {
        let next = SeenView { words: seen.words.push(words[i]), ..seen };
        words_are_taken_where_they_belong(Subcommand::Cancel, words, i, seen);
        plain_words_are_read(words, i + 1, next);
        assert(next.words + words.skip(i + 1) =~= seen.words + words.skip(i));
    }
}

/// Cores to reserve are read as they are numbered, in order.
pub proof fn reserve_line_is_read_back(cores: Seq<u8>)
    requires
        cores.len() > 0,
    ensures
        cli::parsed(
            seq!["coresched"@, "reserve-core"@] + cores.map_values(
                |c: u8| text::decimal(c as nat),
            ),
        ) == Ok::<CliView, CliError>(CliView::ReserveCore { cores, clear: false }),
{
    let numbers = cores.map_values(|c: u8| text::decimal(c as nat));
    let words = seq!["coresched"@, "reserve-core"@] + numbers;
    cli::commands_are_named(Subcommand::ReserveCore);
    assert forall|i: int| 2 <= i < words.len() implies #[trigger] words[i] == text::decimal(
        cores[i - 2] as nat,
    ) by {
        assert(words[i] == numbers[i - 2]);
    }
    numbers_are_read(words, cores, 2, cli::nothing_seen());
    assert(cli::nothing_seen().cores + cores.skip(0) =~= cores);
}

proof fn numbers_are_read(words: Seq<Seq<char>>, cores: Seq<u8>, i: int, seen: SeenView)
    requires
        2 <= i <= words.len(),
        words.len() == cores.len() + 2,
        forall|j: int|
            2 <= j < words.len() ==> #[trigger] words[j] == text::decimal(cores[j - 2] as nat),
    ensures
        cli::scan(Subcommand::ReserveCore, words, i, false, seen) matches Ok(after) && after.cores
            == seen.cores + cores.skip(i - 2) && after.switch == seen.switch,
    decreases words.len() - i,
{
    if i == words.len() {
        assert(seen.cores + cores.skip(i - 2) =~= seen.cores);
    } else {
        let core = cores[i - 2];
        cli::decimal_is_a_plain_word(core as nat);
        let next = SeenView {
            words: seen.words.push(words[i]),
            cores: seen.cores.push(core),
            ..seen
        };
        words_are_taken_where_they_belong(Subcommand::ReserveCore, words, i, seen);
        numbers_are_read(words, cores, i + 1, next);
        assert(next.cores + cores.skip(i - 1) =~= seen.cores + cores.skip(i - 2));
    }
}

/// A job for the queue is read as it was asked for: the size in CPUs, the priority and every word
/// of the command.
pub proof fn enqueue_line_is_read_back(
    n: u8,
    priority: JobPriority,
    command: Seq<Seq<char>>,
)
    requires
        command.len() > 0,
        priority != JobPriority::P3,
    ensures
        cli::parsed(
            seq![
                "coresched"@,
                "enqueue"@,
                "--cpus"@,
                text::decimal(n as nat),
                "--priority"@,
                priority.label(),
                "--"@,
            ] + command,
        ) == Ok::<CliView, CliError>(
            CliView::Enqueue { cfd: None, cpus: Some(n), priority, command },
        ),
{
    let words = seq![
        "coresched"@,
        "enqueue"@,
        "--cpus"@,
        text::decimal(n as nat),
        "--priority"@,
        priority.label(),
        "--"@,
    ] + command;
    reveal_strlit("--");
    reveal_strlit("--cpus");
    reveal_strlit("--priority");
    reveal_strlit("cpus");
    reveal_strlit("priority");
    reveal_strlit("0");
    reveal_strlit("1");
    reveal_strlit("2");
    assert("--cpus"@ =~= "--"@ + "cpus"@);
    assert("--priority"@ =~= "--"@ + "priority"@);
    cli::commands_are_named(Subcommand::Enqueue);
    cli::decimal_is_a_plain_word(n as nat);
    assert(!cli::is_option(priority.label()));
    let none = cli::nothing_seen();
    let first = SeenView { cpus: Some(n), ..none };
    let second = SeenView { priority: Some(priority), ..first };
    option_sets_what_it_names(none, n, 0, priority, 2, 2);
    option_sets_what_it_names(first, n, 0, priority, 4, 4);
    jobs_have_options(Subcommand::Enqueue, ValueOption::Cpus, "cpus"@);
    jobs_have_options(Subcommand::Enqueue, ValueOption::Priority, "priority"@);
    option_is_read_with_its_value(
        Subcommand::Enqueue,
        words,
        2,
        none,
        ValueOption::Cpus,
        text::decimal(n as nat),
        first,
    );
    option_is_read_with_its_value(
        Subcommand::Enqueue,
        words,
        4,
        first,
        ValueOption::Priority,
        priority.label(),
        second,
    );
    two_dashes_end_the_options(Subcommand::Enqueue, words, 6, second);
    cli::command_is_taken_word_by_word(Subcommand::Enqueue, words, 7, second);
    assert(second.words + words.skip(7) =~= command);
}

} // verus!
