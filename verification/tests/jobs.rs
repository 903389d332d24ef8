use coresched::jobs::{
    after_attempt, all_jids, cancel, cancellation_message, check_reservation, cleared_message, enqueue,
    has_timed_out, job_environment, job_request, process_to_wait_for, register_run, requeue,
    reserve, reserved_message, set_pending_pid, set_running_pid, tail_lines, try_start_run,
    validate_request, withdraw, Cancellation, JobKind, WaitStep,
};
use coresched::scheduler::try_dispatch_one;
use coresched::state::{CoreschedState, JobPriority, Timestamp};
use coresched::summary::{command_summary, concise_path, summarize};

#[test]
fn command_summary_prefers_a_compact_script_path() {
    let command = r#"["env","OMP_NUM_THREADS=1","/home/tim/code/paper/timeSim/mpc/.venv-scip/bin/python","/home/tim/code/paper/timeSim/mpc/scripts/run_mr17_production_sizing.py","--grid-shard-index","7"]"#;
    assert_eq!(
        command_summary(Some(command)),
        "scripts/run_mr17_production_sizing.py"
    );
}

#[test]
fn command_summary_uses_a_single_program_when_no_script_is_present() {
    assert_eq!(command_summary(Some("/bin/sh -c sleep")), "bin/sh");
}

#[test]
fn summaries_of_other_commands() {
    assert_eq!(command_summary(None), "-");
    assert_eq!(command_summary(Some("  \n")), "-");
    assert_eq!(command_summary(Some("env A=1 solver -x")), "solver");
    assert_eq!(command_summary(Some("-a -b")), "-a -b");
    assert_eq!(command_summary(Some("[\"run me.sh\"]")), "run me.sh");
    assert_eq!(
        summarize("a b", Some(vec!["--x=/y".to_string(), "/p/q/r/".to_string()])),
        "q/r"
    );
}

#[test]
fn long_paths_are_cut() {
    let long = "x".repeat(80);
    let short = concise_path(&long);
    assert_eq!(short, format!("{}...", "x".repeat(69)));
    assert_eq!(concise_path(&"y".repeat(72)), "y".repeat(72));
    assert_eq!(concise_path("'/a//b/c/'"), "b/c");
    assert_eq!(concise_path("\"tool\""), "tool");
}

fn words(list: &[&str]) -> Vec<String> {
    list.iter().map(|w| w.to_string()).collect()
}

fn at(seconds: f64) -> Timestamp {
    Timestamp {
        bits: seconds.to_bits(),
    }
}

#[test]
fn requests_name_a_kind_and_a_size() {
    assert_eq!(job_request(Some(2), None), Some((JobKind::Cfd, 2)));
    assert_eq!(job_request(None, Some(4)), Some((JobKind::Py, 4)));
    assert_eq!(job_request(None, None), None);
    assert_eq!(JobKind::Cfd.name(), "cfd");
    assert_eq!(JobKind::Py.label(), "PY");
    assert_eq!(JobKind::Py.unit(), "逻辑CPU");
}

#[test]
fn requests_are_limited_by_priority() {
    let mut s = CoreschedState::default();
    assert_eq!(validate_request(&s, "cfd", 6, JobPriority::P0), Ok(()));
    assert_eq!(
        validate_request(&s, "cfd", 7, JobPriority::P0),
        Err("coresched: 0 优先级最多可申请 6 个物理核；Core 6, 7 已保留给优先级 2 任务".to_string())
    );
    assert_eq!(validate_request(&s, "py", 14, JobPriority::P2), Ok(()));
    s.set_reserved_cores(Vec::new());
    assert_eq!(
        validate_request(&s, "py", 13, JobPriority::P1),
        Err("coresched: 1 优先级最多可申请 12 个逻辑CPU".to_string())
    );
    assert!(validate_request(&s, "gpu", 1, JobPriority::P2).is_err());
    s.set_reserved_cores(vec![0, 1]);
    assert_eq!(validate_request(&s, "cfd", 4, JobPriority::P0), Ok(()));
    assert_eq!(
        validate_request(&s, "py", 9, JobPriority::P1),
        Err("coresched: 1 优先级最多可申请 8 个逻辑CPU；Core 0, 1 已保留给优先级 2 任务".to_string())
    );
    assert_eq!(validate_request(&s, "cfd", 7, JobPriority::P2), Ok(()));
}

#[test]
fn a_run_waits_starts_and_ends() {
    let mut s = CoreschedState::default();
    let command = words(&["solver", "-case", "x"]);
    let (jid, output) = register_run(
        &mut s,
        &Vec::new(),
        "/home/a",
        JobKind::Cfd,
        2,
        JobPriority::P1,
        100,
        at(1.0),
        &command,
    );
    assert_eq!(jid, "j0001");
    assert_eq!(output, "/home/a/.coresched/jobs/j0001.out");
    let entry = s.pending.get("j0001").unwrap();
    assert_eq!(entry.cmd.as_deref(), Some("solver -case x"));
    assert_eq!(entry.pid, Some(100));
    assert!(set_pending_pid(&mut s, "j0001", 101));
    assert!(!set_pending_pid(&mut s, "j0009", 101));
    assert_eq!(process_to_wait_for(&s, "j0001"), Some(101));
    let pin = try_start_run(
        &mut s,
        "j0001",
        JobKind::Cfd,
        2,
        JobPriority::P1,
        at(2.0),
        &command,
        &output,
    );
    assert_eq!(pin, Some(vec![0, 8, 1, 9]));
    assert!(!s.pending.contains_key("j0001"));
    let entry = s.pids.get("j0001").unwrap();
    assert_eq!(entry.cores, Some(vec![0, 1]));
    assert_eq!(entry.submit, None);
    assert_eq!(entry.start, Some(at(2.0)));
    assert!(set_running_pid(&mut s, "j0001", 102));
    assert_eq!(process_to_wait_for(&s, "j0001"), Some(102));
    assert_eq!(process_to_wait_for(&s, "j0002"), None);
}

#[test]
fn a_run_waits_for_higher_levels_and_for_units() {
    let mut s = CoreschedState::default();
    let command = words(&["x"]);
    for priority in [JobPriority::P0, JobPriority::P2] {
        register_run(
            &mut s,
            &Vec::new(),
            "/h",
            JobKind::Py,
            1,
            priority,
            1,
            at(0.0),
            &command,
        );
    }
    let low = try_start_run(&mut s, "j0001", JobKind::Py, 1, JobPriority::P0, at(0.0), &command, "o");
    assert_eq!(low, None);
    assert!(s.pending.contains_key("j0001"));
    withdraw(&mut s, "j0002");
    let big = try_start_run(&mut s, "j0001", JobKind::Py, 13, JobPriority::P0, at(0.0), &command, "o");
    assert_eq!(big, None);
    let low = try_start_run(&mut s, "j0001", JobKind::Py, 1, JobPriority::P0, at(0.0), &command, "o");
    assert_eq!(low, Some(vec![0]));
    assert!(matches!(after_attempt(Some(vec![3]), 99, 1), WaitStep::Run(cpus) if cpus == vec![3]));
    assert!(matches!(after_attempt(None, 11, 10), WaitStep::GiveUp));
    assert!(matches!(after_attempt(None, 10, 10), WaitStep::Sleep(5)));
    assert!(has_timed_out(11, 10));
    assert!(!has_timed_out(10, 10));
    assert!(!has_timed_out(1000, 0));
}

#[test]
fn a_queued_command_comes_back_and_a_requeue_undoes_a_dispatch() {
    let mut s = CoreschedState::default();
    let command = words(&["sh", "-c", "echo \"a b\" 中"]);
    let jid = enqueue(
        &mut s,
        &words(&["j0001"]),
        "/h",
        JobKind::Py,
        3,
        JobPriority::P2,
        at(5.0),
        &command,
    );
    assert_eq!(jid, "j0002");
    assert_eq!(
        s.queued[0].cmd.as_deref(),
        Some("[\"sh\",\"-c\",\"echo \\\"a b\\\" 中\"]")
    );
    let info = try_dispatch_one(&mut s, at(6.0)).unwrap();
    assert_eq!(info.args, command);
    assert_eq!(info.pin_cpus, vec![6, 14, 0]);
    assert_eq!(info.submit, Some(at(5.0)));
    assert_eq!(info.output, "/h/.coresched/jobs/j0002.out");
    requeue(&mut s, info);
    assert!(!s.pids.contains_key("j0002"));
    assert_eq!(s.cpus.get("14"), Some(&None));
    assert_eq!(s.queued.len(), 1);
    assert_eq!(s.queued[0].jid, "j0002");
    assert_eq!(s.queued[0].start, None);
    assert_eq!(s.queued[0].need, 3);
}

#[test]
fn the_environment_of_a_job() {
    let env = job_environment("/h", "j0003", "0,8", 1);
    let expected = [
        ("CORESCHED_JOB_ID", "j0003"),
        ("CORESCHED_PIN", "0,8"),
        ("CORESCHED_CPU_COUNT", "1"),
        ("CORESCHED_PROGRESS_FILE", "/h/.coresched/jobs/j0003.progress.json"),
    ];
    assert_eq!(env.len(), 4);
    for i in 0..4 {
        assert_eq!(env[i].0, expected[i].0);
        assert_eq!(env[i].1, expected[i].1);
    }
}

#[test]
fn cancelling_by_where_a_job_stands() {
    let mut s = CoreschedState::default();
    let command = words(&["x"]);
    let none = Vec::new();
    let (run, out) = register_run(
        &mut s, &none, "/h", JobKind::Py, 1, JobPriority::P0, 77, at(0.0), &command,
    );
    let queued = enqueue(&mut s, &none, "/h", JobKind::Py, 1, JobPriority::P0, at(0.0), &command);
    assert_eq!(all_jids(&s), vec![run.clone(), queued.clone()]);
    assert_eq!(cancel(&mut s, &queued), Cancellation::Removed);
    assert_eq!(s.queued.len(), 0);
    assert_eq!(cancel(&mut s, &run), Cancellation::Signal(77));
    assert!(s.pending.contains_key(&run));
    try_start_run(&mut s, &run, JobKind::Py, 1, JobPriority::P0, at(0.0), &command, &out).unwrap();
    assert_eq!(s.cpus.get("0"), Some(&Some(true)));
    assert_eq!(cancel(&mut s, &run), Cancellation::Cleared);
    assert_eq!(s.cpus.get("0"), Some(&None));
    assert_eq!(cancel(&mut s, &run), Cancellation::Unknown);
    assert_eq!(cancellation_message(Cancellation::Removed, "j1"), "已从队列移除 j1");
    assert_eq!(cancellation_message(Cancellation::Signal(7), "j1"), "已取消 j1 (pid=7)");
    assert_eq!(cancellation_message(Cancellation::Cleared, "j1"), "已清除孤儿作业 j1");
    assert_eq!(cancellation_message(Cancellation::Unknown, "j1"), "未找到 j1");
}

#[test]
fn the_tail_of_an_output() {
    let mut content = String::new();
    for i in 0..50 {
        content.push_str(&format!("line {}\r\n", i));
    }
    let tail = tail_lines(&content);
    assert_eq!(tail.len(), 40);
    assert_eq!(tail[0], "line 10");
    assert_eq!(tail[39], "line 49");
    assert_eq!(tail_lines("a\nb"), vec!["a", "b", ""]);
    assert_eq!(tail_lines(""), vec![""]);
}

#[test]
fn reservations() {
    let mut s = CoreschedState::default();
    assert_eq!(check_reservation(&vec![5, 5, 1]), Ok(vec![5, 1]));
    let fault = Err("coresched: 物理核必须在 0-7 范围内".to_string());
    assert_eq!(check_reservation(&vec![]), fault);
    assert_eq!(check_reservation(&vec![8]), fault);
    assert_eq!(reserve(&mut s, vec![5, 1]), vec![6, 7]);
    assert_eq!(s.reserved_cores(), vec![5, 1]);
    assert_eq!(reserve(&mut s, vec![]), vec![5, 1]);
    assert_eq!(cleared_message(&vec![5, 1]), "已取消 Core 5, 1 的优先级 2 保留");
    assert_eq!(cleared_message(&vec![]), "当前没有优先级 2 保留核");
    assert_eq!(
        reserved_message(&vec![6, 7], &vec![5, 1]),
        vec![
            "Core 5 (5,13)；Core 1 (1,9) 已保留，仅优先级 2 任务可新分配使用",
            "现有运行作业的绑定不变；该策略会在后续分配时生效。",
        ]
    );
    assert_eq!(
        reserved_message(&vec![1], &vec![1]),
        vec!["Core 1 (1,9) 已保持为优先级 2 专用"]
    );
}
