use coresched::progress::{
    active_case, adaptive_steps, candidates_in_arguments, candidates_in_command, candidates_in_text,
    case_of_candidate, count_time_steps, count_yes, current_time_texts, delta_t_text, detail_lines,
    end_time_text, find_log_file, format_duration, format_time_of_day, is_solver_cmdline,
    is_valid_script_progress, parent_process, parse_adjust_time_step, present_groups, process_tree,
    rank_candidates, row_line, stat_fields, step_time_texts, summary_time_texts, table_header,
    CandidateFacts, Found, LogFile, ProcessFacts, ProcessLink, ProgressFault, ProgressInfo,
};

#[test]
fn candidates_come_in_order() {
    assert_eq!(
        candidates_in_text("x\nCase   : /runs/a \ncd \"/runs/b\" && /opt/solve.sh"),
        vec!["/runs/a", "/runs/b", "/runs/a", "/runs/b", "/opt/solve.sh"]
    );
    assert_eq!(
        candidates_in_text("cd /runs/c; ./go"),
        vec!["/runs/c", "/runs/c", "/runs/c", "/go"]
    );
    assert!(candidates_in_text("nothing here").is_empty());
}

#[test]
fn candidates_are_ranked_by_what_was_found() {
    let group = |s: &str| Found::Group(s.to_string());
    let some = |s: &str| Some(s.to_string());
    assert_eq!(
        rank_candidates(
            &group(" \"/a\\\" "),
            &Found::Nothing,
            &group("b"),
            &Some(vec![some("/c"), some("'/d'"), None, some("/e")]),
        ),
        vec!["/a", "/c", "/d"]
    );
    assert_eq!(
        rank_candidates(&group("/a\\"), &Found::Stop, &group("/b"), &None),
        vec!["/a"]
    );
    assert!(rank_candidates(&Found::Stop, &group("/a"), &group("/b"), &None).is_empty());
    assert_eq!(
        rank_candidates(&Found::Nothing, &Found::Nothing, &group("/b"), &None),
        vec!["/b"]
    );
    assert_eq!(present_groups(&vec![None, some("x"), None, some("y")]), vec!["x", "y"]);
    assert_eq!(count_yes(&vec![true, false, true]), 2);
}

#[test]
fn candidates_in_a_stored_command() {
    assert_eq!(
        candidates_in_command("[\"run.sh\",\"/case/a\"]"),
        vec!["/case/a", "/case/a", "/case/a"]
    );
    assert_eq!(candidates_in_command("solve /case/b"), vec!["/case/b"]);
    assert_eq!(
        candidates_in_arguments("z", Some(vec!["/x".to_string()])),
        vec!["/x", "/x"]
    );
}

#[test]
fn a_candidate_is_a_case_or_a_file_in_one() {
    let facts = |is_case, is_file, parent_is_case| CandidateFacts {
        is_case,
        is_file,
        parent_is_case,
    };
    assert_eq!(case_of_candidate(facts(true, false, true)), Some(false));
    assert_eq!(case_of_candidate(facts(false, true, true)), Some(true));
    assert_eq!(case_of_candidate(facts(false, false, true)), None);
    assert_eq!(case_of_candidate(facts(false, true, false)), None);
}

#[test]
fn control_dictionaries() {
    let dict = "startTime 0;\nendTime  1.5e2 ;\ndeltaT 0.01;\nadjustTimeStep yes;\n";
    assert_eq!(end_time_text(dict).as_deref(), Some("1.5e2"));
    assert_eq!(delta_t_text(dict).as_deref(), Some("0.01"));
    assert!(parse_adjust_time_step(dict));
    assert!(!parse_adjust_time_step("adjustTimeStep no;"));
    assert_eq!(end_time_text("endTime x;"), None);
}

#[test]
fn times_in_a_log() {
    let log = "Time = 0.1\r\n  Time = 9\ndeltaT = 0.1\nDYNAMIC-HOTSPOT time=0.15\nTime = 0.2s\ndeltaT =0.2\n";
    assert_eq!(current_time_texts(log), vec!["0.2", "0.15", "0.1"]);
    assert_eq!(step_time_texts(log), vec!["0.1", "0.2"]);
    assert_eq!(count_time_steps(log, false), 2);
    assert_eq!(count_time_steps(log, true), 2);
    assert_eq!(count_time_steps("", true), 0);
    assert_eq!(adaptive_steps(log), Some(2));
    assert_eq!(adaptive_steps("Time = 1\n"), None);
    assert_eq!(summary_time_texts("a b\n\n 1.5 x\n"), vec!["1.5", "a"]);
}

#[test]
fn the_solvers_log_is_taken_before_later_ones() {
    let file = |name: &str, modified| LogFile {
        name: name.to_string(),
        modified,
    };
    let files = vec![
        file("log.reconstruct", Some(9)),
        file("log.run", Some(5)),
        file("log.run", Some(7)),
    ];
    assert_eq!(find_log_file(&files), Some(1));
    let unknown = vec![file("log.1", Some(9)), file("log.run", None)];
    assert_eq!(find_log_file(&unknown), Some(1));
}

#[test]
fn the_latest_log_is_taken() {
    let file = |name: &str, modified| LogFile {
        name: name.to_string(),
        modified,
    };
    let files = vec![
        file("log.1", Some(5)),
        file("other", Some(9)),
        file("log.2", Some(5)),
        file("log.old", None),
    ];
    assert_eq!(find_log_file(&files), Some(2));
    assert_eq!(find_log_file(&vec![file("x", Some(1))]), None);
    assert_eq!(find_log_file(&vec![file("log", None), file("log1", None)]), Some(1));
}

#[test]
fn stat_fields_follow_the_command_name() {
    let fields = stat_fields("12 (a) b) S 7 12 0").unwrap();
    assert_eq!(fields, vec!["S", "7", "12", "0"]);
    assert_eq!(parent_process(&fields), Some(7));
    assert_eq!(parent_process(&vec!["S".to_string()]), None);
    assert_eq!(parent_process(&vec!["S".to_string(), "x".to_string()]), None);
    assert_eq!(stat_fields("no brackets"), None);
}

#[test]
fn a_process_tree_level_by_level() {
    let link = |pid, parent| ProcessLink { pid, parent };
    let links = vec![link(2, 1), link(3, 1), link(9, 8), link(4, 2), link(5, 3)];
    assert_eq!(process_tree(&links, 1), Some(vec![1, 2, 3, 4, 5]));
    assert_eq!(process_tree(&links, 7), Some(vec![7]));
    assert_eq!(process_tree(&vec![link(1, 2), link(2, 1)], 1), None);
}

#[test]
fn solvers_show_the_active_case() {
    assert!(is_solver_cmdline("simpleFoam\0-case\0x"));
    assert!(is_solver_cmdline("/opt/openFuelCell/bin/x"));
    assert!(!is_solver_cmdline("Foamy\0x"));
    let facts = |in_case, solver| ProcessFacts { in_case, solver };
    assert_eq!(
        active_case(&vec![facts(true, false), facts(false, true), facts(true, true), facts(true, true)]),
        Some(2)
    );
    assert_eq!(
        active_case(&vec![facts(true, false), facts(true, false), facts(false, true)]),
        Some(1)
    );
    assert_eq!(active_case(&vec![facts(false, true)]), None);
}

#[test]
fn durations_and_times_of_day() {
    assert_eq!(format_duration(None), "N/A");
    assert_eq!(format_duration(Some(59)), "59s");
    assert_eq!(format_duration(Some(60)), "1m0s");
    assert_eq!(format_duration(Some(3599)), "59m59s");
    assert_eq!(format_duration(Some(7325)), "2h2m5s");
    assert_eq!(format_time_of_day(0), "00:00:00");
    assert_eq!(format_time_of_day(86_400 * 3 + 3_600 * 5 + 61), "05:01:01");
    assert!(is_valid_script_progress(3, 3));
    assert!(!is_valid_script_progress(4, 3));
    assert!(!is_valid_script_progress(0, 0));
}

fn info() -> ProgressInfo {
    ProgressInfo {
        jid: "j0001".to_string(),
        core_label: "[0, 1]".to_string(),
        current_time: Some("1.5000".to_string()),
        start_time: Some("0.5000".to_string()),
        end_time: Some("2.5000".to_string()),
        delta_t: Some("0.5".to_string()),
        adaptive_time_step: false,
        progress_pct: Some("50.0".to_string()),
        wall_elapsed: Some(61),
        eta_seconds: Some(Some(62)),
        finish_time: 3661,
        steps_done: Some(2),
        steps_total: Some(4),
        step_seconds: Some("30.5".to_string()),
        case_dir: Some("/runs/a".to_string()),
        phase: None,
        error: None,
    }
}

#[test]
fn rows_of_progress() {
    assert_eq!(
        row_line(&info()),
        format!(
            "  {:<4} {:<8} {:<8} {:<16} {:<12} {:<18} {:<20} {}",
            "j0001", "[0, 1]", " 50.0%", "1.5000/2.5000", "2/4", "剩余≈1m2s", "-", "30.5s/步"
        )
    );
    let mut bare = info();
    bare.progress_pct = None;
    bare.current_time = None;
    bare.steps_done = None;
    bare.eta_seconds = None;
    bare.phase = Some("mesh".to_string());
    assert_eq!(
        row_line(&bare),
        format!(
            "  {:<4} {:<8} {:<8} {:<16} {:<12} {:<18} {:<20} {}",
            "j0001", "[0, 1]", "   N/A", "?/?", "N/A", "N/A", "mesh", "N/A"
        )
    );
    let (head, rule) = table_header();
    assert_eq!(
        head,
        format!(
            "{:^6} {:^8} {:^8} {:^16} {:^12} {:^18} {:^20} {}",
            "作业", "核心", "进度", "当前/总时间", "步数", "ETA", "阶段", "步速"
        )
    );
    assert_eq!(rule, "-".repeat(88));
}

#[test]
fn details_of_progress() {
    assert_eq!(
        detail_lines(&info()),
        vec![
            "作业 j0001  核心 [0, 1]  已运行 1m1s",
            "  仿真时间:  1.5000 / 2.5000  (50.0%)",
            "  阶段起点:  0.5000",
            "  时间步:    2 / 4  (deltaT=0.5)",
            "  平均步速:  30.5s/步",
            "  预计剩余:  1m2s",
            "  预计完成:  01:01:01",
            "  Case:      /runs/a",
        ]
    );
    let mut adaptive = info();
    adaptive.adaptive_time_step = true;
    adaptive.steps_total = None;
    adaptive.eta_seconds = None;
    adaptive.case_dir = None;
    adaptive.end_time = None;
    adaptive.phase = Some("mesh".to_string());
    adaptive.step_seconds = None;
    assert_eq!(
        detail_lines(&adaptive),
        vec![
            "作业 j0001  核心 [0, 1]  已运行 1m1s",
            "  当前阶段:  mesh",
            "  仿真时间:  1.5000 / ?",
            "  时间步:    2 / ?  (自适应)",
        ]
    );
    let mut faulty = info();
    faulty.error = Some(ProgressFault::NoCase);
    assert_eq!(
        detail_lines(&faulty),
        vec![
            "作业 j0001  核心 [0, 1]  已运行 1m1s",
            "  错误: 命令或输出中未找到 case 路径",
        ]
    );
    assert_eq!(ProgressFault::NoLog.message(), "未找到求解器日志");
}
