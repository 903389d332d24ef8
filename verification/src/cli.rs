//! The command line: its grammar and the request that it stands for.
//!
//! A word that starts with `-` and is longer than that is an option; `--` ends the options. An
//! option's value follows it or is attached with `=`. `run` and `enqueue` take a command after
//! `--`, word by word. Faults are reported from left to right.

use crate::state::JobPriority;
use crate::text;
use vstd::prelude::*;

verus! {

// ---------------------------------------------------------------------------
// Requests
// ---------------------------------------------------------------------------

/// A request to the scheduler.
#[derive(Debug)]
#[allow(inconsistent_fields)]
pub enum Cli {
    /// Submit a job and bind it to CPUs.
    Run {
        cfd: Option<u8>,
        cpus: Option<u8>,
        priority: JobPriority,
        timeout: u64,
        command: Vec<String>,
    },
    /// List the jobs.
    List,
    /// Show the allocation map.
    Status,
    /// Cancel the named jobs, or all.
    Cancel { jids: Vec<String>, all: bool },
    /// Wait until a job has ended.
    Wait { jid: String },
    /// Show a job's output.
    Tail { jid: String },
    /// Put a job into the durable queue.
    Enqueue { cfd: Option<u8>, cpus: Option<u8>, priority: JobPriority, command: Vec<String> },
    /// Reserve physical cores, or clear the reservation.
    ReserveCore { cores: Vec<u8>, clear: bool },
    /// Show the progress of one job, or of all that run.
    Progress { jid: Option<String> },
}

/// What a request holds.
#[verifier::ext_equal]
#[allow(inconsistent_fields)]
pub enum CliView {
    Run {
        cfd: Option<u8>,
        cpus: Option<u8>,
        priority: JobPriority,
        timeout: u64,
        command: Seq<Seq<char>>,
    },
    List,
    Status,
    Cancel { jids: Seq<Seq<char>>, all: bool },
    Wait { jid: Seq<char> },
    Tail { jid: Seq<char> },
    Enqueue { cfd: Option<u8>, cpus: Option<u8>, priority: JobPriority, command: Seq<Seq<char>> },
    ReserveCore { cores: Seq<u8>, clear: bool },
    Progress { jid: Option<Seq<char>> },
}

impl View for Cli {
    type V = CliView;

    open spec fn view(&self) -> CliView {
        match self {
            Cli::Run { cfd, cpus, priority, timeout, command } => CliView::Run {
                cfd: *cfd,
                cpus: *cpus,
                priority: *priority,
                timeout: *timeout,
                command: text::string_views(command@),
            },
            Cli::List => CliView::List,
            Cli::Status => CliView::Status,
            Cli::Cancel { jids, all } => CliView::Cancel {
                jids: text::string_views(jids@),
                all: *all,
            },
            Cli::Wait { jid } => CliView::Wait { jid: jid@ },
            Cli::Tail { jid } => CliView::Tail { jid: jid@ },
            Cli::Enqueue { cfd, cpus, priority, command } => CliView::Enqueue {
                cfd: *cfd,
                cpus: *cpus,
                priority: *priority,
                command: text::string_views(command@),
            },
            Cli::ReserveCore { cores, clear } => CliView::ReserveCore {
                cores: cores@,
                clear: *clear,
            },
            Cli::Progress { jid } => CliView::Progress { jid: crate::state::text_of(*jid) },
        }
    }
}

/// The commands.
#[derive(Clone, Copy, Debug, PartialEq, Eq, Structural)]
pub enum Subcommand {
    Run,
    List,
    Status,
    Cancel,
    Wait,
    Tail,
    Enqueue,
    ReserveCore,
    Progress,
}

/// Why a command line is no request. A number is the position of the word at fault.
#[derive(Clone, Copy, Debug, PartialEq, Eq, Structural)]
pub enum CliError {
    /// Help is asked for, of one command or of all.
    Help(Option<Subcommand>),
    /// The version is asked for.
    Version,
    /// There is no command.
    MissingSubcommand,
    /// A word that nothing takes.
    Unexpected(usize),
    /// An option without its value.
    MissingValue(usize),
    /// A value attached to an option that takes none.
    UnexpectedValue(usize),
    /// A value that its option or place does not accept.
    InvalidValue(usize),
    /// An option that is given twice.
    Repeated(usize),
    /// Two things that exclude each other.
    Conflict,
    /// Something that the command needs is not there.
    MissingArgument,
}

impl Subcommand {
    /// The name of the command.
    pub open spec fn spelled(self) -> Seq<char> {
        match self {
            Subcommand::Run => "run"@,
            Subcommand::List => "list"@,
            Subcommand::Status => "status"@,
            Subcommand::Cancel => "cancel"@,
            Subcommand::Wait => "wait"@,
            Subcommand::Tail => "tail"@,
            Subcommand::Enqueue => "enqueue"@,
            Subcommand::ReserveCore => "reserve-core"@,
            Subcommand::Progress => "progress"@,
        }
    }

    /// The name of the command.
    pub fn name(self) -> (r: &'static str)
        ensures
            r@ == self.spelled(),
    {
        match self {
            Subcommand::Run => "run",
            Subcommand::List => "list",
            Subcommand::Status => "status",
            Subcommand::Cancel => "cancel",
            Subcommand::Wait => "wait",
            Subcommand::Tail => "tail",
            Subcommand::Enqueue => "enqueue",
            Subcommand::ReserveCore => "reserve-core",
            Subcommand::Progress => "progress",
        }
    }
}

/// The command of a request.
pub open spec fn subcommand_of(request: CliView) -> Subcommand {
    match request {
        CliView::Run { .. } => Subcommand::Run,
        CliView::List => Subcommand::List,
        CliView::Status => Subcommand::Status,
        CliView::Cancel { .. } => Subcommand::Cancel,
        CliView::Wait { .. } => Subcommand::Wait,
        CliView::Tail { .. } => Subcommand::Tail,
        CliView::Enqueue { .. } => Subcommand::Enqueue,
        CliView::ReserveCore { .. } => Subcommand::ReserveCore,
        CliView::Progress { .. } => Subcommand::Progress,
    }
}

/// The command with the given name or alias.
pub open spec fn command_named(word: Seq<char>) -> Option<Subcommand> {
    if word == "run"@ || word == "r"@ {
        Some(Subcommand::Run)
    } else if word == "list"@ || word == "ls"@ {
        Some(Subcommand::List)
    } else if word == "status"@ || word == "st"@ {
        Some(Subcommand::Status)
    } else if word == "cancel"@ {
        Some(Subcommand::Cancel)
    } else if word == "wait"@ {
        Some(Subcommand::Wait)
    } else if word == "tail"@ {
        Some(Subcommand::Tail)
    } else if word == "enqueue"@ || word == "enq"@ {
        Some(Subcommand::Enqueue)
    } else if word == "reserve-core"@ || word == "reserve"@ {
        Some(Subcommand::ReserveCore)
    } else if word == "progress"@ || word == "pg"@ {
        Some(Subcommand::Progress)
    } else {
        None
    }
}

fn find_command(word: &str) -> (r: Option<Subcommand>)
    ensures
        r == command_named(word@),
{
    if text::same(word, "run") || text::same(word, "r") {
        Some(Subcommand::Run)
    } else if text::same(word, "list") || text::same(word, "ls") {
        Some(Subcommand::List)
    } else if text::same(word, "status") || text::same(word, "st") {
        Some(Subcommand::Status)
    } else if text::same(word, "cancel") {
        Some(Subcommand::Cancel)
    } else if text::same(word, "wait") {
        Some(Subcommand::Wait)
    } else if text::same(word, "tail") {
        Some(Subcommand::Tail)
    } else if text::same(word, "enqueue") || text::same(word, "enq") {
        Some(Subcommand::Enqueue)
    } else if text::same(word, "reserve-core") || text::same(word, "reserve") {
        Some(Subcommand::ReserveCore)
    } else if text::same(word, "progress") || text::same(word, "pg") {
        Some(Subcommand::Progress)
    } else {
        None
    }
}

/// The help for the whole program.
pub const LONG_HELP: &'static str = "CPU core scheduler for Legend

Usage: coresched <COMMAND>

Commands:
  run           提交作业并绑定 CPU 核心 [aliases: r]
  list          列出排队中的作业 [aliases: ls]
  status        查看核心分配图 [aliases: st]
  cancel        取消作业 (可指定多个 JID，或 --all 取消全部)
  wait          等待作业完成
  tail          查看作业输出
  enqueue       将作业加入内置队列（不占用资源，不 fork waiter 进程） [aliases: enq]
  reserve-core  保留一个或多个物理核，仅允许优先级 2 的任务使用 [aliases: reserve]
  progress      查看作业仿真进度与预计剩余时间 [aliases: pg]

Options:
  -h, --help     Print help
  -V, --version  Print version

优先级: --priority 0（默认）、1、2；队列按 2→1→0 派发。
保留核: 默认 Core 6、7（逻辑 CPU 6,14,7,15）仅允许优先级 2 使用；P2 逻辑 CPU 优先顺序为 6,7,14,15。
调整: coresched reserve-core 6 7；清除: coresched reserve-core --clear。
";

/// The help for `run`.
pub const RUN_HELP: &'static str = "提交作业并绑定 CPU 核心

Usage: coresched run [OPTIONS] -- <COMMAND>...

Arguments:
  <COMMAND>...  后续命令 (after --)

Options:
      --cfd <N>            CFD 作业: 分配 N 个物理核 (整个 core)
      --cpus <N>           Python 作业: 分配 N 个逻辑 CPU
      --priority <LEVEL>   优先级: 0(默认)、1、2 [default: 0]
      --timeout <SECONDS>  分配超时 (秒), 0=无限等待 (默认: 0) [default: 0]
  -h, --help               Print help
";

/// The help for `list`.
pub const LIST_HELP: &'static str = "列出排队中的作业

Usage: coresched list

Options:
  -h, --help  Print help
";

/// The help for `status`.
pub const STATUS_HELP: &'static str = "查看核心分配图

Usage: coresched status

Options:
  -h, --help  Print help
";

/// The help for `cancel`.
pub const CANCEL_HELP: &'static str = "取消作业 (可指定多个 JID，或 --all 取消全部)

Usage: coresched cancel [OPTIONS] [JID]...

Arguments:
  [JID]...  作业 ID (可多个，如 j0001 j0002)

Options:
      --all   取消所有作业（运行中 + 排队中）
  -h, --help  Print help
";

/// The help for `wait`.
pub const WAIT_HELP: &'static str = "等待作业完成

Usage: coresched wait <JID>

Arguments:
  <JID>  作业 ID (如 j0001)

Options:
  -h, --help  Print help
";

/// The help for `tail`.
pub const TAIL_HELP: &'static str = "查看作业输出

Usage: coresched tail <JID>

Arguments:
  <JID>  作业 ID (如 j0001)

Options:
  -h, --help  Print help
";

/// The help for `enqueue`.
pub const ENQUEUE_HELP: &'static str = "将作业加入内置队列（不占用资源，不 fork waiter 进程）

Usage: coresched enqueue [OPTIONS] -- <COMMAND>...

Arguments:
  <COMMAND>...  后续命令 (after --)

Options:
      --cfd <N>           CFD 作业: 分配 N 个物理核 (整个 core)
      --cpus <N>          Python 作业: 分配 N 个逻辑 CPU
      --priority <LEVEL>  优先级: 0(默认)、1、2 [default: 0]
  -h, --help              Print help
";

/// The help for `reserve-core`.
pub const RESERVE_CORE_HELP: &'static str = "保留一个或多个物理核，仅允许优先级 2 的任务使用

Usage: coresched reserve-core [OPTIONS] [CORE]...

Arguments:
  [CORE]...  物理核编号 (0-7)，可一次指定多个

Options:
      --clear  清除现有保留
  -h, --help   Print help
";

/// The help for `progress`.
pub const PROGRESS_HELP: &'static str = "查看作业仿真进度与预计剩余时间

Usage: coresched progress [JID]

Arguments:
  [JID]  作业 ID (不指定则显示所有运行中 CFD 作业)

Options:
  -h, --help  Print help
";

/// The help for a command.
pub open spec fn help_of(command: Subcommand) -> Seq<char> {
    match command {
        Subcommand::Run => RUN_HELP@,
        Subcommand::List => LIST_HELP@,
        Subcommand::Status => STATUS_HELP@,
        Subcommand::Cancel => CANCEL_HELP@,
        Subcommand::Wait => WAIT_HELP@,
        Subcommand::Tail => TAIL_HELP@,
        Subcommand::Enqueue => ENQUEUE_HELP@,
        Subcommand::ReserveCore => RESERVE_CORE_HELP@,
        Subcommand::Progress => PROGRESS_HELP@,
    }
}

// ---------------------------------------------------------------------------
// Words
// ---------------------------------------------------------------------------

/// Whether a word is an option or the end of the options.
pub open spec fn is_option(word: Seq<char>) -> bool {
    word.len() >= 2 && word[0] == '-'
}

/// Whether a word is a long option.
pub open spec fn is_long(word: Seq<char>) -> bool {
    word.len() >= 2 && word[0] == '-' && word[1] == '-'
}

/// Whether a word ends the options.
pub open spec fn ends_options(word: Seq<char>) -> bool {
    is_long(word) && word.len() == 2
}

/// How many characters stand before the first equals sign.
pub open spec fn until_equals(s: Seq<char>) -> nat
    decreases s.len(),
{
    if s.len() == 0 || s[0] == '=' {
        0
    } else {
        1 + until_equals(s.drop_first())
    }
}

/// The name in a long option.
pub open spec fn long_name(word: Seq<char>) -> Seq<char> {
    word.skip(2).take(until_equals(word.skip(2)) as int)
}

/// The value that is attached to a long option.
pub open spec fn attached(word: Seq<char>) -> Option<Seq<char>> {
    let body = word.skip(2);
    if until_equals(body) < body.len() {
        Some(body.skip(until_equals(body) as int + 1))
    } else {
        None
    }
}

/// The first equals sign of a text is where none stands before it.
pub proof fn equals_stands_at(s: Seq<char>, n: int)
    requires
        0 <= n <= s.len(),
        forall|j: int| 0 <= j < n ==> #[trigger] s[j] != '=',
        n < s.len() ==> s[n] == '=',
    ensures
        until_equals(s) == n,
    decreases s.len(),
{
    if n > 0 {
        let rest = s.drop_first();
        assert forall|j: int| 0 <= j < n - 1 implies #[trigger] rest[j] != '=' by {
            assert(rest[j] == s[j + 1]);
        }
        equals_stands_at(rest, n - 1);
    }
}

/// The name in a long option, and the value attached to it.
fn split_long(word: &str) -> (r: (String, Option<String>))
    requires
        is_long(word@),
    ensures
        r.0@ == long_name(word@),
        crate::state::text_of(r.1) == attached(word@),
{
    let chars = text::to_chars(word);
    let ghost body = word@.skip(2);
    let mut i: usize = 2;
    while i < chars.len() && chars[i] != '='
        invariant
            2 <= i <= chars@.len(),
            chars@ == word@,
            body == word@.skip(2),
            forall|j: int| 0 <= j < i - 2 ==> #[trigger] body[j] != '=',
        decreases chars.len() - i,
    {
        i += 1;
    }
    proof {
        equals_stands_at(body, i - 2);
        assert(long_name(word@) =~= word@.subrange(2, i as int));
    }
    let name = text::from_chars(&text::slice(&chars, 2, i));
    if i < chars.len() {
        let value = text::from_chars(&text::slice(&chars, i + 1, chars.len()));
        proof {
            assert(value@ =~= body.skip(i - 2 + 1));
        }
        (name, Some(value))
    } else {
        (name, None)
    }
}

/// A small number as it may be given: digits after an optional sign.
pub open spec fn small_number(s: Seq<char>) -> Option<u8> {
    if s.len() > 0 && s[0] == '-' {
        if text::is_digits(s.drop_first()) && text::digits_value(s.drop_first()) == 0 {
            Some(0)
        } else {
            None
        }
    } else {
        match text::unsigned(s, 255) {
            Some(n) => Some(n as u8),
            None => None,
        }
    }
}

fn parse_small_number(word: &str) -> (r: Option<u8>)
    ensures
        r == small_number(word@),
{
    let chars = text::to_chars(word);
    if chars.len() > 0 && chars[0] == '-' {
        if chars.len() > 1 && chars[1] == '+' {
            proof {
                assert(word@.drop_first()[0] == '+');
            }
            return None;
        }
        let rest = text::slice(&chars, 1, chars.len());
        proof {
            assert(rest@ =~= word@.drop_first());
        }
        match text::parse_unsigned(&rest, 0) {
            Some(_) => Some(0),
            None => None,
        }
    } else {
        match text::parse_unsigned(&chars, 255) {
            Some(n) => Some(n as u8),
            None => None,
        }
    }
}

// ---------------------------------------------------------------------------
// Options
// ---------------------------------------------------------------------------

/// The options that take a value.
#[derive(Clone, Copy, Debug, PartialEq, Eq, Structural)]
pub enum ValueOption {
    Cfd,
    Cpus,
    Priority,
    Timeout,
}

/// The value option of a command with the given name.
pub open spec fn option_named(command: Subcommand, name: Seq<char>) -> Option<ValueOption> {
    if command == Subcommand::Run || command == Subcommand::Enqueue {
        if name == "cfd"@ {
            Some(ValueOption::Cfd)
        } else if name == "cpus"@ {
            Some(ValueOption::Cpus)
        } else if name == "priority"@ {
            Some(ValueOption::Priority)
        } else if name == "timeout"@ && command == Subcommand::Run {
            Some(ValueOption::Timeout)
        } else {
            None
        }
    } else {
        None
    }
}

fn find_option(command: Subcommand, name: &str) -> (r: Option<ValueOption>)
    ensures
        r == option_named(command, name@),
{
    if command == Subcommand::Run || command == Subcommand::Enqueue {
        if text::same(name, "cfd") {
            Some(ValueOption::Cfd)
        } else if text::same(name, "cpus") {
            Some(ValueOption::Cpus)
        } else if text::same(name, "priority") {
            Some(ValueOption::Priority)
        } else if text::same(name, "timeout") && command == Subcommand::Run {
            Some(ValueOption::Timeout)
        } else {
            None
        }
    } else {
        None
    }
}

/// Whether a command has a switch of the given name.
pub open spec fn has_switch(command: Subcommand, name: Seq<char>) -> bool {
    ||| command == Subcommand::Cancel && name == "all"@
    ||| command == Subcommand::ReserveCore && name == "clear"@
}

fn is_switch(command: Subcommand, name: &str) -> (r: bool)
    ensures
        r == has_switch(command, name@),
{
    (command == Subcommand::Cancel && text::same(name, "all")) || (command
        == Subcommand::ReserveCore && text::same(name, "clear"))
}

/// Whether a command takes one more word besides its options, after `count` of them.
pub open spec fn takes_word(command: Subcommand, count: nat, after_options: bool) -> bool {
    match command {
        Subcommand::List | Subcommand::Status => false,
        Subcommand::Wait | Subcommand::Tail | Subcommand::Progress => count == 0,
        Subcommand::Cancel | Subcommand::ReserveCore => true,
        Subcommand::Run | Subcommand::Enqueue => after_options,
    }
}

/// What has been read of a command line.
#[verifier::ext_equal]
pub struct SeenView {
    pub cfd: Option<u8>,
    pub cpus: Option<u8>,
    pub priority: Option<JobPriority>,
    pub timeout: Option<u64>,
    pub switch: bool,
    pub words: Seq<Seq<char>>,
    pub cores: Seq<u8>,
}

/// What has been read of a command line.
struct Seen {
    cfd: Option<u8>,
    cpus: Option<u8>,
    priority: Option<JobPriority>,
    timeout: Option<u64>,
    switch: bool,
    words: Vec<String>,
    cores: Vec<u8>,
}

impl Seen {
    spec fn view(&self) -> SeenView {
        SeenView {
            cfd: self.cfd,
            cpus: self.cpus,
            priority: self.priority,
            timeout: self.timeout,
            switch: self.switch,
            words: text::string_views(self.words@),
            cores: self.cores@,
        }
    }
}

/// Nothing read yet.
pub open spec fn nothing_seen() -> SeenView {
    SeenView {
        cfd: None,
        cpus: None,
        priority: None,
        timeout: None,
        switch: false,
        words: Seq::empty(),
        cores: Seq::empty(),
    }
}

/// What has been read with the value of one more option, which stands in the word `at`; the
/// option itself stands in the word `option_at`.
pub open spec fn with_option(
    seen: SeenView,
    option: ValueOption,
    value: Seq<char>,
    option_at: int,
    at: int,
) -> Result<SeenView, CliError> {
    match option {
        ValueOption::Cfd => if seen.cfd is Some {
            Err(CliError::Repeated(option_at as usize))
        } else if small_number(value) is Some {
            Ok(SeenView { cfd: small_number(value), ..seen })
        } else {
            Err(CliError::InvalidValue(at as usize))
        },
        ValueOption::Cpus => if seen.cpus is Some {
            Err(CliError::Repeated(option_at as usize))
        } else if small_number(value) is Some {
            Ok(SeenView { cpus: small_number(value), ..seen })
        } else {
            Err(CliError::InvalidValue(at as usize))
        },
        ValueOption::Priority => if seen.priority is Some {
            Err(CliError::Repeated(option_at as usize))
        } else if JobPriority::requested(value) is Some {
            Ok(SeenView { priority: JobPriority::requested(value), ..seen })
        } else {
            Err(CliError::InvalidValue(at as usize))
        },
        ValueOption::Timeout => if seen.timeout is Some {
            Err(CliError::Repeated(option_at as usize))
        } else {
            match text::unsigned(value, u64::MAX as nat) {
                Some(n) => Ok(SeenView { timeout: Some(n as u64), ..seen }),
                None => Err(CliError::InvalidValue(at as usize)),
            }
        },
    }
}

fn take_option(
    seen: &mut Seen,
    option: ValueOption,
    value: &str,
    option_at: usize,
    at: usize,
) -> (r: Option<CliError>)
    ensures
        match with_option(old(seen)@, option, value@, option_at as int, at as int) {
            Ok(after) => r is None && final(seen)@ == after,
            Err(e) => r == Some(e),
        },
{
    match option {
        ValueOption::Cfd => {
            if seen.cfd.is_some() {
                return Some(CliError::Repeated(option_at));
            }
            let number = parse_small_number(value);
            if number.is_none() {
                return Some(CliError::InvalidValue(at));
            }
            seen.cfd = number;
        },
        ValueOption::Cpus => {
            if seen.cpus.is_some() {
                return Some(CliError::Repeated(option_at));
            }
            let number = parse_small_number(value);
            if number.is_none() {
                return Some(CliError::InvalidValue(at));
            }
            seen.cpus = number;
        },
        ValueOption::Priority => {
            if seen.priority.is_some() {
                return Some(CliError::Repeated(option_at));
            }
            match JobPriority::from_str(value) {
                Ok(p) => {
                    seen.priority = Some(p);
                },
                Err(_) => {
                    return Some(CliError::InvalidValue(at));
                },
            }
        },
        ValueOption::Timeout => {
            if seen.timeout.is_some() {
                return Some(CliError::Repeated(option_at));
            }
            let chars = text::to_chars(value);
            match text::parse_unsigned(&chars, u64::MAX) {
                Some(n) => {
                    seen.timeout = Some(n);
                },
                None => {
                    return Some(CliError::InvalidValue(at));
                },
            }
        },
    }
    None
}

/// What has been read with one more word.
pub open spec fn with_word(seen: SeenView, command: Subcommand, word: Seq<char>) -> SeenView {
    SeenView {
        words: seen.words.push(word),
        cores: match small_number(word) {
            Some(core) if command == Subcommand::ReserveCore => seen.cores.push(core),
            _ => seen.cores,
        },
        ..seen
    }
}

// ---------------------------------------------------------------------------
// The grammar
// ---------------------------------------------------------------------------

/// What the words from the `i`-th on add to what has been read; `after_options` tells whether the
/// end of the options has been seen.
pub open spec fn scan(
    command: Subcommand,
    words: Seq<Seq<char>>,
    i: int,
    after_options: bool,
    seen: SeenView,
) -> Result<SeenView, CliError>
    decreases words.len() - i,
{
    if i >= words.len() {
        Ok(seen)
    } else {
        let word = words[i];
        if after_options || !is_option(word) {
            if !takes_word(command, seen.words.len(), after_options) {
                Err(CliError::Unexpected(i as usize))
            } else if command == Subcommand::ReserveCore && small_number(word) is None {
                Err(CliError::InvalidValue(i as usize))
            } else {
                scan(command, words, i + 1, after_options, with_word(seen, command, word))
            }
        } else if ends_options(word) {
            scan(command, words, i + 1, true, seen)
        } else if !is_long(word) {
            if word[1] == 'h' {
                Err(CliError::Help(Some(command)))
            } else {
                Err(CliError::Unexpected(i as usize))
            }
        } else if long_name(word) == "help"@ {
            if attached(word) is Some {
                Err(CliError::UnexpectedValue(i as usize))
            } else {
                Err(CliError::Help(Some(command)))
            }
        } else if has_switch(command, long_name(word)) {
            if attached(word) is Some {
                Err(CliError::UnexpectedValue(i as usize))
            } else if seen.switch {
                Err(CliError::Repeated(i as usize))
            } else {
                scan(command, words, i + 1, false, SeenView { switch: true, ..seen })
            }
        } else {
            match option_named(command, long_name(word)) {
                None => Err(CliError::Unexpected(i as usize)),
                Some(option) => match attached(word) {
                    Some(value) => match with_option(seen, option, value, i, i) {
                        Ok(after) => scan(command, words, i + 1, false, after),
                        Err(e) => Err(e),
                    },
                    None => if i + 1 < words.len() && !is_option(words[i + 1]) {
                        match with_option(seen, option, words[i + 1], i, i + 1) {
                            Ok(after) => scan(command, words, i + 2, false, after),
                            Err(e) => Err(e),
                        }
                    } else {
                        Err(CliError::MissingValue(i as usize))
                    },
                },
            }
        }
    }
}

/// The request that what has been read stands for.
pub open spec fn request(command: Subcommand, seen: SeenView) -> Result<CliView, CliError> {
    let priority = match seen.priority {
        Some(p) => p,
        None => JobPriority::P0,
    };
    match command {
        Subcommand::Run => if seen.cfd is Some && seen.cpus is Some {
            Err(CliError::Conflict)
        } else if seen.words.len() == 0 {
            Err(CliError::MissingArgument)
        } else {
            Ok(
                CliView::Run {
                    cfd: seen.cfd,
                    cpus: seen.cpus,
                    priority,
                    timeout: match seen.timeout {
                        Some(t) => t,
                        None => 0,
                    },
                    command: seen.words,
                },
            )
        },
        Subcommand::Enqueue => if seen.cfd is Some && seen.cpus is Some {
            Err(CliError::Conflict)
        } else if seen.words.len() == 0 {
            Err(CliError::MissingArgument)
        } else {
            Ok(
                CliView::Enqueue {
                    cfd: seen.cfd,
                    cpus: seen.cpus,
                    priority,
                    command: seen.words,
                },
            )
        },
        Subcommand::List => Ok(CliView::List),
        Subcommand::Status => Ok(CliView::Status),
        Subcommand::Cancel => if seen.switch && seen.words.len() > 0 {
            Err(CliError::Conflict)
        } else if !seen.switch && seen.words.len() == 0 {
            Err(CliError::MissingArgument)
        } else {
            Ok(CliView::Cancel { jids: seen.words, all: seen.switch })
        },
        Subcommand::Wait => if seen.words.len() == 0 {
            Err(CliError::MissingArgument)
        } else {
            Ok(CliView::Wait { jid: seen.words[0] })
        },
        Subcommand::Tail => if seen.words.len() == 0 {
            Err(CliError::MissingArgument)
        } else {
            Ok(CliView::Tail { jid: seen.words[0] })
        },
        Subcommand::ReserveCore => if seen.switch && seen.cores.len() > 0 {
            Err(CliError::Conflict)
        } else if !seen.switch && seen.cores.len() == 0 {
            Err(CliError::MissingArgument)
        } else {
            Ok(CliView::ReserveCore { cores: seen.cores, clear: seen.switch })
        },
        Subcommand::Progress => Ok(
            CliView::Progress {
                jid: if seen.words.len() == 0 {
                    None
                } else {
                    Some(seen.words[0])
                },
            },
        ),
    }
}

/// The request that a command line stands for. Its first word is the program.
pub open spec fn parsed(words: Seq<Seq<char>>) -> Result<CliView, CliError> {
    if words.len() < 2 {
        Err(CliError::MissingSubcommand)
    } else {
        let word = words[1];
        match command_named(word) {
            Some(command) => match scan(command, words, 2, false, nothing_seen()) {
                Ok(seen) => request(command, seen),
                Err(e) => Err(e),
            },
            None => if !is_option(word) {
                Err(CliError::Unexpected(1))
            } else if ends_options(word) {
                if words.len() == 2 {
                    Err(CliError::MissingSubcommand)
                } else {
                    Err(CliError::Unexpected(2))
                }
            } else if !is_long(word) {
                if word[1] == 'h' {
                    Err(CliError::Help(None))
                } else if word[1] == 'V' {
                    Err(CliError::Version)
                } else {
                    Err(CliError::Unexpected(1))
                }
            } else if long_name(word) == "help"@ || long_name(word) == "version"@ {
                if attached(word) is Some {
                    Err(CliError::UnexpectedValue(1))
                } else if long_name(word) == "help"@ {
                    Err(CliError::Help(None))
                } else {
                    Err(CliError::Version)
                }
            } else {
                Err(CliError::Unexpected(1))
            },
        }
    }
}

/// The texts of a list of words.
pub open spec fn word_views(words: Seq<&str>) -> Seq<Seq<char>> {
    words.map_values(|w: &str| w@)
}

fn word_takes(command: Subcommand, count: usize, after_options: bool) -> (r: bool)
    ensures
        r == takes_word(command, count as nat, after_options),
{
    match command {
        Subcommand::List => false,
        Subcommand::Status => false,
        Subcommand::Wait => count == 0,
        Subcommand::Tail => count == 0,
        Subcommand::Progress => count == 0,
        Subcommand::Cancel => true,
        Subcommand::ReserveCore => true,
        Subcommand::Run => after_options,
        Subcommand::Enqueue => after_options,
    }
}

fn take_word(seen: &mut Seen, command: Subcommand, word: &str)
    requires
        command == Subcommand::ReserveCore ==> small_number(word@) is Some,
    ensures
        final(seen)@ == with_word(old(seen)@, command, word@),
{
    let ghost before = seen@;
    seen.words.push(word.to_owned());
    if command == Subcommand::ReserveCore {
        if let Some(core) = parse_small_number(word) {
            seen.cores.push(core);
        }
    }
    proof {
        assert(text::string_views(seen.words@) =~= before.words.push(word@));
    }
}

fn first_two(word: &str) -> (r: (bool, bool, char))
    ensures
        r.0 == is_option(word@),
        r.1 == is_long(word@),
        is_option(word@) ==> r.2 == word@[1],
{
    let chars = text::to_chars(word);
    if chars.len() >= 2 && chars[0] == '-' {
        (true, chars[1] == '-', chars[1])
    } else {
        (false, false, ' ')
    }
}

fn read_words(command: Subcommand, words: &[&str]) -> (r: Result<Seen, CliError>)
    requires
        words@.len() >= 2,
    ensures
        match scan(command, word_views(words@), 2, false, nothing_seen()) {
            Ok(seen) => r is Ok && (r->Ok_0)@ == seen,
            Err(e) => r is Err && r->Err_0 == e,
        },
{
    let mut seen = Seen {
        cfd: None,
        cpus: None,
        priority: None,
        timeout: None,
        switch: false,
        words: Vec::new(),
        cores: Vec::new(),
    };
    let mut after_options = false;
    let mut i: usize = 2;
    let ghost all = word_views(words@);
    proof {
        assert(seen@ =~= nothing_seen());
    }
    while i < words.len()
        invariant
            2 <= i <= words@.len(),
            all == word_views(words@),
            scan(command, all, 2, false, nothing_seen()) == scan(
                command,
                all,
                i as int,
                after_options,
                seen@,
            ),
        decreases words.len() - i,
    {
        let word = words[i];
        assert(all[i as int] == word@);
        let (option, long, second) = first_two(word);
        if after_options || !option {
            if !word_takes(command, seen.words.len(), after_options) {
                return Err(CliError::Unexpected(i));
            }
            if command == Subcommand::ReserveCore && parse_small_number(word).is_none() {
                return Err(CliError::InvalidValue(i));
            }
            take_word(&mut seen, command, word);
            i += 1;
            continue;
        }
        if !long {
            if second == 'h' {
                return Err(CliError::Help(Some(command)));
            }
            return Err(CliError::Unexpected(i));
        }
        if word.unicode_len() == 2 {
            after_options = true;
            i += 1;
            continue;
        }
        let (name, value) = split_long(word);
        if text::same(name.as_str(), "help") {
            if value.is_some() {
                return Err(CliError::UnexpectedValue(i));
            }
            return Err(CliError::Help(Some(command)));
        }
        if is_switch(command, name.as_str()) {
            if value.is_some() {
                return Err(CliError::UnexpectedValue(i));
            }
            if seen.switch {
                return Err(CliError::Repeated(i));
            }
            seen.switch = true;
            i += 1;
            continue;
        }
        let option = match find_option(command, name.as_str()) {
            Some(option) => option,
            None => {
                return Err(CliError::Unexpected(i));
            },
        };
        match value {
            Some(value) => {
                if let Some(e) = take_option(&mut seen, option, value.as_str(), i, i) {
                    return Err(e);
                }
                i += 1;
            },
            None => {
                if i + 1 >= words.len() {
                    return Err(CliError::MissingValue(i));
                }
                let next = words[i + 1];
                assert(all[i + 1] == next@);
                if first_two(next).0 {
                    return Err(CliError::MissingValue(i));
                }
                if let Some(e) = take_option(&mut seen, option, next, i, i + 1) {
                    return Err(e);
                }
                i += 2;
            },
        }
    }
    Ok(seen)
}

fn first_word(words: Vec<String>) -> (r: Option<String>)
    ensures
        match r {
            Some(word) => words@.len() > 0 && word@ == words@[0]@,
            None => words@.len() == 0,
        },
{
    if words.len() == 0 {
        None
    } else {
        Some(words[0].clone())
    }
}

fn build(command: Subcommand, seen: Seen) -> (r: Result<Cli, CliError>)
    ensures
        match request(command, seen@) {
            Ok(view) => r is Ok && (r->Ok_0)@ == view,
            Err(e) => r is Err && r->Err_0 == e,
        },
{
    let priority = match seen.priority {
        Some(p) => p,
        None => JobPriority::P0,
    };
    match command {
        Subcommand::Run => {
            if seen.cfd.is_some() && seen.cpus.is_some() {
                return Err(CliError::Conflict);
            }
            if seen.words.len() == 0 {
                return Err(CliError::MissingArgument);
            }
            let timeout: u64 = match seen.timeout {
                Some(t) => t,
                None => 0,
            };
            Ok(
                Cli::Run {
                    cfd: seen.cfd,
                    cpus: seen.cpus,
                    priority,
                    timeout,
                    command: seen.words,
                },
            )
        },
        Subcommand::Enqueue => {
            if seen.cfd.is_some() && seen.cpus.is_some() {
                return Err(CliError::Conflict);
            }
            if seen.words.len() == 0 {
                return Err(CliError::MissingArgument);
            }
            Ok(Cli::Enqueue { cfd: seen.cfd, cpus: seen.cpus, priority, command: seen.words })
        },
        Subcommand::List => Ok(Cli::List),
        Subcommand::Status => Ok(Cli::Status),
        Subcommand::Cancel => {
            if seen.switch && seen.words.len() > 0 {
                return Err(CliError::Conflict);
            }
            if !seen.switch && seen.words.len() == 0 {
                return Err(CliError::MissingArgument);
            }
            Ok(Cli::Cancel { jids: seen.words, all: seen.switch })
        },
        Subcommand::Wait => match first_word(seen.words) {
            Some(jid) => Ok(Cli::Wait { jid }),
            None => Err(CliError::MissingArgument),
        },
        Subcommand::Tail => match first_word(seen.words) {
            Some(jid) => Ok(Cli::Tail { jid }),
            None => Err(CliError::MissingArgument),
        },
        Subcommand::ReserveCore => {
            if seen.switch && seen.cores.len() > 0 {
                return Err(CliError::Conflict);
            }
            if !seen.switch && seen.cores.len() == 0 {
                return Err(CliError::MissingArgument);
            }
            Ok(Cli::ReserveCore { cores: seen.cores, clear: seen.switch })
        },
        Subcommand::Progress => Ok(Cli::Progress { jid: first_word(seen.words) }),
    }
}

impl Cli {
    /// The request that a command line stands for. Its first word is the program.
    pub fn try_parse_from(words: &[&str]) -> (r: Result<Cli, CliError>)
        ensures
            match parsed(word_views(words@)) {
                Ok(view) => r is Ok && (r->Ok_0)@ == view,
                Err(e) => r is Err && r->Err_0 == e,
            },
    {
        if words.len() < 2 {
            return Err(CliError::MissingSubcommand);
        }
        let word = words[1];
        assert(word_views(words@)[1] == word@);
        if let Some(command) = find_command(word) {
            return match read_words(command, words) {
                Ok(seen) => build(command, seen),
                Err(e) => Err(e),
            };
        }
        let (option, long, second) = first_two(word);
        if !option {
            return Err(CliError::Unexpected(1));
        }
        if !long {
            return if second == 'h' {
                Err(CliError::Help(None))
            } else if second == 'V' {
                Err(CliError::Version)
            } else {
                Err(CliError::Unexpected(1))
            };
        }
        if word.unicode_len() == 2 {
            return if words.len() == 2 {
                Err(CliError::MissingSubcommand)
            } else {
                Err(CliError::Unexpected(2))
            };
        }
        let (name, value) = split_long(word);
        let help = text::same(name.as_str(), "help");
        if help || text::same(name.as_str(), "version") {
            if value.is_some() {
                return Err(CliError::UnexpectedValue(1));
            }
            return if help {
                Err(CliError::Help(None))
            } else {
                Err(CliError::Version)
            };
        }
        Err(CliError::Unexpected(1))
    }

    /// The help for the whole program.
    pub fn long_help() -> (r: &'static str)
        ensures
            r@ == LONG_HELP@,
    {
        LONG_HELP
    }

    /// The help for a command.
    pub fn command_help(command: Subcommand) -> (r: &'static str)
        ensures
            r@ == help_of(command),
    {
        match command {
            Subcommand::Run => RUN_HELP,
            Subcommand::List => LIST_HELP,
            Subcommand::Status => STATUS_HELP,
            Subcommand::Cancel => CANCEL_HELP,
            Subcommand::Wait => WAIT_HELP,
            Subcommand::Tail => TAIL_HELP,
            Subcommand::Enqueue => ENQUEUE_HELP,
            Subcommand::ReserveCore => RESERVE_CORE_HELP,
            Subcommand::Progress => PROGRESS_HELP,
        }
    }

    /// The name of the request's command.
    pub fn command_name(&self) -> (r: &'static str)
        ensures
            r@ == subcommand_of(self@).spelled(),
    {
        match self {
            Cli::Run { .. } => "run",
            Cli::List => "list",
            Cli::Status => "status",
            Cli::Cancel { .. } => "cancel",
            Cli::Wait { .. } => "wait",
            Cli::Tail { .. } => "tail",
            Cli::Enqueue { .. } => "enqueue",
            Cli::ReserveCore { .. } => "reserve-core",
            Cli::Progress { .. } => "progress",
        }
    }
}

// ---------------------------------------------------------------------------
// Laws of the grammar
// ---------------------------------------------------------------------------

/// After the end of the options every word belongs to the job's command, as it stands.
pub proof fn command_is_taken_word_by_word(
    command: Subcommand,
    words: Seq<Seq<char>>,
    i: int,
    seen: SeenView,
)
    requires
        command == Subcommand::Run || command == Subcommand::Enqueue,
        0 <= i <= words.len(),
    ensures
        scan(command, words, i, true, seen) == Ok::<SeenView, CliError>(
            SeenView { words: seen.words + words.skip(i), ..seen },
        ),
    decreases words.len() - i,
{
    if i == words.len() {
        assert(seen.words + words.skip(i) =~= seen.words);
    } else {
        let next = with_word(seen, command, words[i]);
        command_is_taken_word_by_word(command, words, i + 1, next);
        assert(next.words + words.skip(i + 1) =~= seen.words + words.skip(i));
    }
}

/// What a request that was read can be relied on: a job has a command and asks for cores or for
/// CPUs, not for both; a cancellation names jobs or means all; a reservation names cores or is
/// cleared.
pub proof fn requests_are_sound(words: Seq<Seq<char>>)
    ensures
        match parsed(words) {
            Ok(CliView::Run { cfd, cpus, priority, timeout, command }) => (cfd is None
                || cpus is None) && command.len() > 0,
            Ok(CliView::Enqueue { cfd, cpus, priority, command }) => (cfd is None || cpus is None)
                && command.len() > 0,
            Ok(CliView::Cancel { jids, all }) => all == (jids.len() == 0),
            Ok(CliView::ReserveCore { cores, clear }) => clear == (cores.len() == 0),
            _ => true,
        },
{
}

/// The name of each command names it.
pub proof fn commands_are_named(command: Subcommand)
    ensures
        command_named(command.spelled()) == Some(command),
{
    reveal_strlit("run");
    reveal_strlit("r");
    reveal_strlit("list");
    reveal_strlit("ls");
    reveal_strlit("status");
    reveal_strlit("st");
    reveal_strlit("cancel");
    reveal_strlit("wait");
    reveal_strlit("tail");
    reveal_strlit("enqueue");
    reveal_strlit("enq");
    reveal_strlit("reserve-core");
    reveal_strlit("reserve");
    reveal_strlit("progress");
    reveal_strlit("pg");
    let word = command.spelled();
    match command {
        Subcommand::Run => {},
        Subcommand::List => {
            assert(word[0] == 'l');
        },
        Subcommand::Status => {
            assert(word[0] == 's');
        },
        Subcommand::Cancel => {
            assert(word[0] == 'c');
        },
        Subcommand::Wait => {
            assert(word[0] == 'w');
        },
        Subcommand::Tail => {
            assert(word[0] == 't');
        },
        Subcommand::Enqueue => {
            assert(word[0] == 'e');
        },
        Subcommand::ReserveCore => {
            assert(word.len() == 12);
        },
        Subcommand::Progress => {
            assert(word[0] == 'p');
        },
    }
}

/// A long option without a value.
pub open spec fn plain_option(name: Seq<char>) -> Seq<char> {
    "--"@ + name
}

/// A long option without a value is read by its name.
pub proof fn plain_option_is_read(name: Seq<char>)
    requires
        name.len() > 0,
        forall|i: int| 0 <= i < name.len() ==> #[trigger] name[i] != '=',
    ensures
        is_option(plain_option(name)),
        is_long(plain_option(name)),
        !ends_options(plain_option(name)),
        long_name(plain_option(name)) == name,
        attached(plain_option(name)) is None,
{
    reveal_strlit("--");
    let word = plain_option(name);
    assert(word.skip(2) =~= name);
    equals_stands_at(name, name.len() as int);
    assert(name.take(name.len() as int) =~= name);
}

/// A number in decimal is no option and reads as the number.
pub proof fn decimal_is_a_plain_word(n: nat)
    ensures
        !is_option(text::decimal(n)),
        n <= 255 ==> small_number(text::decimal(n)) == Some(n as u8),
{
    text::decimal_round_trip(n);
    text::unsigned_of_decimal(n, 255);
    assert(text::is_digit(text::decimal(n)[0]));
}

/// The command line that asks for a `run` job with a size in cores.
pub open spec fn run_line(
    n: u8,
    priority: JobPriority,
    timeout: u64,
    command: Seq<Seq<char>>,
) -> Seq<Seq<char>> {
    seq![
        "coresched"@,
        "run"@,
        "--cfd"@,
        text::decimal(n as nat),
        "--priority"@,
        priority.label(),
        "--timeout"@,
        text::decimal(timeout as nat),
        "--"@,
    ] + command
}

/// A `run` job is read as it was asked for: the size, the priority, the time limit and every word
/// of the command.
pub proof fn run_line_is_read_back(
    n: u8,
    priority: JobPriority,
    timeout: u64,
    command: Seq<Seq<char>>,
)
    requires
        command.len() > 0,
        priority != JobPriority::P3,
    ensures
        parsed(run_line(n, priority, timeout, command)) == Ok::<CliView, CliError>(
            CliView::Run { cfd: Some(n), cpus: None, priority, timeout, command },
        ),
{
    let words = run_line(n, priority, timeout, command);
    reveal_strlit("--");
    reveal_strlit("--cfd");
    reveal_strlit("--priority");
    reveal_strlit("--timeout");
    reveal_strlit("cfd");
    reveal_strlit("cpus");
    reveal_strlit("priority");
    reveal_strlit("timeout");
    reveal_strlit("help");
    reveal_strlit("0");
    reveal_strlit("1");
    reveal_strlit("2");
    commands_are_named(Subcommand::Run);
    assert("--cfd"@ =~= plain_option("cfd"@));
    assert("--priority"@ =~= plain_option("priority"@));
    assert("--timeout"@ =~= plain_option("timeout"@));
    plain_option_is_read("cfd"@);
    plain_option_is_read("priority"@);
    plain_option_is_read("timeout"@);
    decimal_is_a_plain_word(n as nat);
    decimal_is_a_plain_word(timeout as nat);
    text::unsigned_of_decimal(timeout as nat, u64::MAX as nat);
    crate::state::requested_label_is_the_priority(priority);
    assert("cfd"@.len() == 3 && "help"@.len() == 4 && "cpus"@.len() == 4);
    assert("priority"@.len() == 8 && "timeout"@.len() == 7);
    let first = SeenView { cfd: Some(n), ..nothing_seen() };
    let second = SeenView { priority: Some(priority), ..first };
    let third = SeenView { timeout: Some(timeout), ..second };
    assert(scan(Subcommand::Run, words, 2, false, nothing_seen()) == scan(
        Subcommand::Run,
        words,
        4,
        false,
        first,
    ));
    assert(!is_option(priority.label()));
    assert(scan(Subcommand::Run, words, 4, false, first) == scan(
        Subcommand::Run,
        words,
        6,
        false,
        second,
    ));
    assert(scan(Subcommand::Run, words, 6, false, second) == scan(
        Subcommand::Run,
        words,
        8,
        false,
        third,
    ));
    assert(ends_options("--"@));
    assert(scan(Subcommand::Run, words, 8, false, third) == scan(
        Subcommand::Run,
        words,
        9,
        true,
        third,
    ));
    command_is_taken_word_by_word(Subcommand::Run, words, 9, third);
    assert(third.words + words.skip(9) =~= command);
}

} // verus!
