use coresched::cli::{Cli, CliError, Subcommand};
use coresched::state::JobPriority;

#[test]
fn test_parse_run_cfd() {
    let args = Cli::try_parse_from(&[
        "coresched",
        "run",
        "--cfd",
        "2",
        "--timeout",
        "0",
        "--",
        "echo",
        "hi",
    ]);
    assert!(args.is_ok());
    match args.unwrap() {
        Cli::Run {
            cfd, cpus, command, ..
        } => {
            assert_eq!(cfd, Some(2));
            assert_eq!(cpus, None);
            assert_eq!(command, vec!["echo".to_string(), "hi".to_string()]);
        }
        _ => panic!("expected Run"),
    }
}

#[test]
fn test_parse_run_cpus() {
    let args = Cli::try_parse_from(&[
        "coresched",
        "run",
        "--cpus",
        "4",
        "--timeout",
        "300",
        "--",
        "python3",
        "train.py",
    ]);
    assert!(args.is_ok());
    match args.unwrap() {
        Cli::Run {
            cfd,
            cpus,
            priority,
            ..
        } => {
            assert_eq!(cfd, None);
            assert_eq!(cpus, Some(4));
            assert_eq!(priority, JobPriority::P0);
        }
        _ => panic!("expected Run"),
    }
}

#[test]
fn test_parse_priority_two_enqueue() {
    let args = Cli::try_parse_from(&[
        "coresched",
        "enqueue",
        "--cpus",
        "1",
        "--priority",
        "2",
        "--",
        "echo",
        "hi",
    ]);
    assert!(args.is_ok());
    match args.unwrap() {
        Cli::Enqueue { priority, .. } => assert_eq!(priority, JobPriority::P2),
        _ => panic!("expected Enqueue"),
    }
}

#[test]
fn test_parse_reserve_core() {
    let args = Cli::try_parse_from(&["coresched", "reserve-core", "7"]);
    assert!(matches!(
        args.unwrap(),
        Cli::ReserveCore { cores, clear: false } if cores == vec![7]
    ));
}

#[test]
fn test_parse_multiple_reserved_cores() {
    let args = Cli::try_parse_from(&["coresched", "reserve-core", "6", "7"]);
    assert!(matches!(
        args.unwrap(),
        Cli::ReserveCore { cores, clear: false } if cores == vec![6, 7]
    ));
}

#[test]
fn test_top_level_help_describes_priority_and_reservation() {
    let help = Cli::long_help().to_string();
    assert!(help.contains("--priority 0（默认）、1、2"));
    assert!(help.contains("reserve-core"));
}

#[test]
fn test_parse_list() {
    let args = Cli::try_parse_from(&["coresched", "list"]);
    assert!(args.is_ok());
    assert!(matches!(args.unwrap(), Cli::List));
}

#[test]
fn test_parse_status() {
    let args = Cli::try_parse_from(&["coresched", "status"]);
    assert!(args.is_ok());
    assert!(matches!(args.unwrap(), Cli::Status));
}

#[test]
fn test_parse_cancel() {
    let args = Cli::try_parse_from(&["coresched", "cancel", "j0001"]);
    assert!(args.is_ok());
    match args.unwrap() {
        Cli::Cancel { jids, all } => {
            assert_eq!(jids, vec!["j0001"]);
            assert!(!all);
        }
        _ => panic!("expected Cancel"),
    }
}

#[test]
fn test_parse_cancel_multiple() {
    let args = Cli::try_parse_from(&["coresched", "cancel", "j0001", "j0003", "j0007"]);
    assert!(args.is_ok());
    match args.unwrap() {
        Cli::Cancel { jids, all } => {
            assert_eq!(jids, vec!["j0001", "j0003", "j0007"]);
            assert!(!all);
        }
        _ => panic!("expected Cancel"),
    }
}

#[test]
fn test_parse_cancel_all() {
    let args = Cli::try_parse_from(&["coresched", "cancel", "--all"]);
    assert!(args.is_ok());
    match args.unwrap() {
        Cli::Cancel { jids, all } => {
            assert!(jids.is_empty());
            assert!(all);
        }
        _ => panic!("expected Cancel"),
    }
}

#[test]
fn test_parse_wait() {
    let args = Cli::try_parse_from(&["coresched", "wait", "j0001"]);
    assert!(args.is_ok());
    match args.unwrap() {
        Cli::Wait { jid } => assert_eq!(jid, "j0001"),
        _ => panic!("expected Wait"),
    }
}

#[test]
fn test_parse_tail() {
    let args = Cli::try_parse_from(&["coresched", "tail", "j0001"]);
    assert!(args.is_ok());
    match args.unwrap() {
        Cli::Tail { jid } => assert_eq!(jid, "j0001"),
        _ => panic!("expected Tail"),
    }
}

fn fault(words: &[&str]) -> CliError {
    Cli::try_parse_from(words).unwrap_err()
}

#[test]
fn aliases_stand_for_their_commands() {
    let pairs = [
        ("ls", "list"),
        ("st", "status"),
        ("pg", "progress"),
        ("list", "list"),
        ("progress", "progress"),
    ];
    for (alias, name) in pairs {
        let request = Cli::try_parse_from(&["coresched", alias]).unwrap();
        assert_eq!(request.command_name(), name);
    }
    let run = Cli::try_parse_from(&["coresched", "r", "--cfd", "1", "--", "x"]).unwrap();
    assert_eq!(run.command_name(), "run");
    let enq = Cli::try_parse_from(&["coresched", "enq", "--cfd", "1", "--", "x"]).unwrap();
    assert_eq!(enq.command_name(), "enqueue");
    let reserve = Cli::try_parse_from(&["coresched", "reserve", "3"]).unwrap();
    assert_eq!(reserve.command_name(), "reserve-core");
    assert_eq!(Subcommand::Tail.name(), "tail");
}

#[test]
fn the_command_is_taken_word_by_word() {
    let request = Cli::try_parse_from(&[
        "coresched", "run", "--cfd", "1", "--", "sh", "-c", "--", "--help", "a b",
    ])
    .unwrap();
    match request {
        Cli::Run { command, .. } => {
            assert_eq!(command, vec!["sh", "-c", "--", "--help", "a b"]);
        }
        _ => panic!("expected Run"),
    }
}

#[test]
fn values_may_be_attached() {
    let request =
        Cli::try_parse_from(&["coresched", "run", "--cfd=+3", "--priority=1", "--timeout=60", "--", "x"])
            .unwrap();
    match request {
        Cli::Run {
            cfd,
            priority,
            timeout,
            ..
        } => {
            assert_eq!(cfd, Some(3));
            assert_eq!(priority, JobPriority::P1);
            assert_eq!(timeout, 60);
        }
        _ => panic!("expected Run"),
    }
    let zero = Cli::try_parse_from(&["coresched", "run", "--cpus=-0", "--", "x"]).unwrap();
    assert!(matches!(zero, Cli::Run { cpus: Some(0), .. }));
}

#[test]
fn help_and_version_are_told_apart_from_faults() {
    assert_eq!(fault(&["coresched", "--help"]), CliError::Help(None));
    assert_eq!(fault(&["coresched", "-h"]), CliError::Help(None));
    assert_eq!(fault(&["coresched", "--version"]), CliError::Version);
    assert_eq!(fault(&["coresched", "-V"]), CliError::Version);
    assert_eq!(
        fault(&["coresched", "run", "--help"]),
        CliError::Help(Some(Subcommand::Run))
    );
    assert_eq!(
        fault(&["coresched", "cancel", "a", "--all", "-h"]),
        CliError::Help(Some(Subcommand::Cancel))
    );
    assert_eq!(fault(&["coresched", "run", "-V"]), CliError::Unexpected(2));
    assert_eq!(fault(&["coresched", "--help=x"]), CliError::UnexpectedValue(1));
}

#[test]
fn faults_are_named() {
    assert_eq!(fault(&["coresched"]), CliError::MissingSubcommand);
    assert_eq!(fault(&["coresched", "--"]), CliError::MissingSubcommand);
    assert_eq!(fault(&["coresched", "--", "list"]), CliError::Unexpected(2));
    assert_eq!(fault(&["coresched", "help"]), CliError::Unexpected(1));
    assert_eq!(fault(&["coresched", "list", "x"]), CliError::Unexpected(2));
    assert_eq!(fault(&["coresched", "wait", "a", "b"]), CliError::Unexpected(3));
    assert_eq!(fault(&["coresched", "run", "--cfd", "2", "echo"]), CliError::Unexpected(4));
    assert_eq!(fault(&["coresched", "run", "--cfd"]), CliError::MissingValue(2));
    assert_eq!(fault(&["coresched", "run", "--cfd", "-1", "--", "x"]), CliError::MissingValue(2));
    assert_eq!(fault(&["coresched", "run", "--cfd", "256", "--", "x"]), CliError::InvalidValue(3));
    assert_eq!(fault(&["coresched", "run", "--cfd=-1", "--", "x"]), CliError::InvalidValue(2));
    assert_eq!(fault(&["coresched", "run", "--priority", "3", "--", "x"]), CliError::InvalidValue(3));
    assert_eq!(fault(&["coresched", "run", "--timeout=", "--", "x"]), CliError::InvalidValue(2));
    assert_eq!(
        fault(&["coresched", "enqueue", "--timeout", "1", "--", "x"]),
        CliError::Unexpected(2)
    );
    assert_eq!(
        fault(&["coresched", "run", "--cfd", "1", "--cfd", "2", "--", "x"]),
        CliError::Repeated(4)
    );
    assert_eq!(
        fault(&["coresched", "run", "--cfd", "1", "--cpus", "2", "--", "x"]),
        CliError::Conflict
    );
    assert_eq!(fault(&["coresched", "cancel", "a", "--all"]), CliError::Conflict);
    assert_eq!(fault(&["coresched", "cancel", "--all=yes"]), CliError::UnexpectedValue(2));
    assert_eq!(fault(&["coresched", "cancel"]), CliError::MissingArgument);
    assert_eq!(fault(&["coresched", "wait"]), CliError::MissingArgument);
    assert_eq!(fault(&["coresched", "run", "--cfd", "1", "--"]), CliError::MissingArgument);
    assert_eq!(fault(&["coresched", "reserve-core", "x"]), CliError::InvalidValue(2));
    assert_eq!(fault(&["coresched", "reserve-core", "1", "--clear"]), CliError::Conflict);
    assert_eq!(fault(&["coresched", "reserve-core"]), CliError::MissingArgument);
}

#[test]
fn optional_words_may_be_left_out() {
    assert!(matches!(
        Cli::try_parse_from(&["coresched", "progress"]).unwrap(),
        Cli::Progress { jid: None }
    ));
    match Cli::try_parse_from(&["coresched", "progress", "j0002"]).unwrap() {
        Cli::Progress { jid } => assert_eq!(jid.as_deref(), Some("j0002")),
        _ => panic!("expected Progress"),
    }
    assert!(matches!(
        Cli::try_parse_from(&["coresched", "reserve-core", "--clear"]).unwrap(),
        Cli::ReserveCore { clear: true, .. }
    ));
    assert!(matches!(Cli::try_parse_from(&["coresched", "list", "--"]).unwrap(), Cli::List));
    match Cli::try_parse_from(&["coresched", "cancel", "a", "--", "-b"]).unwrap() {
        Cli::Cancel { jids, .. } => assert_eq!(jids, vec!["a", "-b"]),
        _ => panic!("expected Cancel"),
    }
}

#[test]
fn each_command_has_its_own_help() {
    let run = Cli::command_help(Subcommand::Run);
    assert!(run.starts_with("提交作业并绑定 CPU 核心\n\nUsage: coresched run [OPTIONS] -- <COMMAND>...\n"));
    assert!(run.contains("      --timeout <SECONDS>  分配超时 (秒), 0=无限等待 (默认: 0) [default: 0]\n"));
    let enqueue = Cli::command_help(Subcommand::Enqueue);
    assert!(enqueue.contains("--priority <LEVEL>"));
    assert!(!enqueue.contains("--timeout"));
    assert!(Cli::command_help(Subcommand::Cancel).contains("      --all   取消所有作业（运行中 + 排队中）\n"));
    assert!(Cli::command_help(Subcommand::ReserveCore).contains("      --clear  清除现有保留\n"));
    assert!(Cli::command_help(Subcommand::Wait).contains("Usage: coresched wait <JID>\n"));
    assert!(Cli::command_help(Subcommand::Tail).contains("Usage: coresched tail <JID>\n"));
    assert!(Cli::command_help(Subcommand::Progress).contains("Usage: coresched progress [JID]\n"));
    assert!(Cli::command_help(Subcommand::List).contains("Usage: coresched list\n"));
    assert!(Cli::command_help(Subcommand::Status).contains("Usage: coresched status\n"));
}
