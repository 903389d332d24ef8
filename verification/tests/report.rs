use coresched::report::{
    list_lines, list_report, running_order, status_lines, totals, Ages, Standing,
};
use coresched::scheduler::{alloc_cfd_for_priority, alloc_py_for_priority};
use coresched::state::{CoreschedState, JobEntry, JobPriority};

fn job(jid: &str, kind: &str, need: u64, priority: JobPriority) -> JobEntry {
    JobEntry {
        jid: jid.to_string(),
        job_type: kind.to_string(),
        need,
        pid: None,
        submit: None,
        start: None,
        cmd: None,
        output: None,
        cores: None,
        cpus: None,
        priority,
    }
}

fn texts(list: &[&str]) -> Vec<String> {
    list.iter().map(|t| t.to_string()).collect()
}

fn busy_state() -> CoreschedState {
    let mut s = CoreschedState::default();
    let mut py = job("j0001", "py", 2, JobPriority::P2);
    py.cpus = Some(alloc_py_for_priority(&mut s, 2, JobPriority::P2));
    py.pid = Some(41);
    let mut cfd = job("j0002", "cfd", 1, JobPriority::P0);
    cfd.cores = Some(alloc_cfd_for_priority(&mut s, 1, JobPriority::P0));
    s.pids.insert("j0001".to_string(), py);
    s.pids.insert("j0002".to_string(), cfd);
    let mut waiting = job("j0003", "cfd", 3, JobPriority::P2);
    waiting.pid = Some(7);
    waiting.cmd = Some("/opt/x/run.sh".to_string());
    s.pending.insert("j0003".to_string(), waiting);
    s.queued.push_back(job("j0004", "py", 5, JobPriority::P1));
    s
}

fn ages() -> Ages {
    Ages {
        running: texts(&["     10s", "     20s"]),
        pending: texts(&["      3s"]),
        queued: texts(&["       -"]),
    }
}

#[test]
fn totals_count_what_waits() {
    let mut s = busy_state();
    let t = totals(&s).unwrap();
    assert_eq!(t.running, 2);
    assert_eq!(t.pending, 1);
    assert_eq!(t.queued, 1);
    assert_eq!(t.calibration, 1);
    assert_eq!(t.cfd_cores, 3);
    assert_eq!(t.py_cpus, 5);
    s.queued.push_back(job("j0005", "py", u64::MAX, JobPriority::P1));
    assert!(totals(&s).is_none());
}

#[test]
fn running_jobs_are_shown_by_their_first_unit() {
    let s = busy_state();
    assert_eq!(running_order(&s.pids), vec![1, 0]);
}

#[test]
fn the_list_line_by_line() {
    let s = busy_state();
    let t = totals(&s).unwrap();
    let lines = list_lines(&s, &t, &ages());
    let expected = [
        "运行: 2 | 排队: 2 (pending: 1 + queued: 1) | P2等待: 1 | CFD: 3核 | Python: 5CPU".to_string(),
        "── 运行中 ──".to_string(),
        "  j0002  0 cfd      [0]            0             20s".to_string(),
        "  j0001  2 py       [6, 14]        41            10s".to_string(),
        String::new(),
        "── 等待分配 (pending) ──".to_string(),
        "   作业      优先级       类型        需求       PID        等待     命令".to_string(),
        "-".repeat(98),
        "  j0003  2 cfd      3核         7              3s   x/run.sh".to_string(),
        String::new(),
        "── 内置队列 (queued) ──".to_string(),
        "   作业      优先级       类型        需求          等待      命令".to_string(),
        "-".repeat(82),
        "  j0004  1 py       5CPU              -   -".to_string(),
    ];
    assert_eq!(lines.len(), expected.len());
    for i in 0..lines.len() {
        assert_eq!(lines[i], expected[i]);
    }
    assert_eq!(list_report(&s, &ages()), Some(lines));
}

#[test]
fn a_list_whose_sums_do_not_fit_is_not_made() {
    let mut s = busy_state();
    s.queued.push_back(job("j0005", "py", u64::MAX, JobPriority::P1));
    let mut more = ages();
    more.queued.push("       -".to_string());
    assert_eq!(list_report(&s, &more), None);
}

#[test]
fn an_empty_list_is_one_line() {
    let s = CoreschedState::default();
    let t = totals(&s).unwrap();
    let none = Ages {
        running: Vec::new(),
        pending: Vec::new(),
        queued: Vec::new(),
    };
    assert_eq!(
        list_lines(&s, &t, &none),
        vec!["运行: 0 | 排队: 0 (pending: 0 + queued: 0) | P2等待: 0 | CFD: 0核 | Python: 0CPU"]
    );
}

fn standing(elapsed: &str) -> Standing {
    Standing {
        elapsed: elapsed.to_string(),
        percent: "12.5%".to_string(),
        eta: "1m0s".to_string(),
        phase: "-".to_string(),
    }
}

#[test]
fn the_allocation_map() {
    let s = busy_state();
    let standings = vec![standing("     10s"), standing("     20s")];
    let lines = status_lines(&s, &standings, &ages());
    assert_eq!(lines[0], "");
    assert_eq!(lines[1], format!("{:^8} {:^8} {:^12} {}", "物理核", "类型", "CPUs", "策略"));
    assert_eq!(lines[2], "-".repeat(48));
    assert_eq!(lines[3], "  Core 0    CFD      0,8          ");
    assert_eq!(lines[4], "  Core 1    空闲       1,9          ");
    assert_eq!(lines[9], "  Core 6    PY       6,14         仅 P2");
    assert_eq!(lines[10], "  Core 7    空闲       7,15         仅 P2");
    assert_eq!(lines[12], "逻辑CPU: 0 1 2 3 4 5 6 7  8 9 10 11 12 13 14 15");
    assert_eq!(lines[13], "         █░░░░░█H  █░░░░░█H");
    assert_eq!(
        lines[14],
        "         P0/P1 上限: 12 逻辑CPU；P2 上限: 14；P2 优先: 6,14,0,1；H = Core 6 (6,14)；Core 7 (7,15) 的 P2 专用逻辑CPU"
    );
    assert_eq!(
        lines[16],
        format!(
            "{:^6} {:^8} {:^8} {:^14} {:^8} {:^10} {:^8} {:^18} {}",
            "作业", "优先级", "类型", "CPUs", "PID", "耗时", "进度", "ETA", "阶段"
        )
    );
    assert_eq!(lines[17], "-".repeat(120));
    assert_eq!(
        lines[18],
        "  j0002 0 cfd      [0]            0             20s   12.5%    1m0s               -"
    );
    assert_eq!(
        lines[21],
        format!(
            "{:^8} {:^8} {:^8} {:^10} {:^8} {:^10} {:^0}",
            "等待作业", "优先级", "类型", "需求", "PID", "等待", "命令"
        )
    );
    assert_eq!(lines[25], "── 内置队列 (queued: 1) ──");
    assert_eq!(lines.len(), 29);
}

#[test]
fn the_map_of_an_idle_machine_without_reservation() {
    let mut s = CoreschedState::default();
    s.set_reserved_cores(Vec::new());
    let none = Ages {
        running: Vec::new(),
        pending: Vec::new(),
        queued: Vec::new(),
    };
    let lines = status_lines(&s, &Vec::new(), &none);
    assert_eq!(lines[13], "         ░░░░░░░░  ░░░░░░░░");
    assert_eq!(
        lines[14],
        "         --cpus 可调度上限: 12 逻辑CPU；· 表示保留给物理核/系统"
    );
    assert_eq!(lines[16], "  (无运行中的作业)");
    assert_eq!(lines.len(), 17);
}

#[test]
fn the_map_follows_the_reservation() {
    let mut s = CoreschedState::default();
    s.set_reserved_cores(vec![2, 3]);
    let none = Ages {
        running: Vec::new(),
        pending: Vec::new(),
        queued: Vec::new(),
    };
    let lines = status_lines(&s, &Vec::new(), &none);
    assert_eq!(
        lines[14],
        "         P0/P1 上限: 8 逻辑CPU；P2 上限: 14；P2 优先: 6,14,2,10；H = Core 2 (2,10)；Core 3 (3,11) 的 P2 专用逻辑CPU"
    );
}
