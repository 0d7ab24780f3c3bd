use lpm::cpu::{parse_uptime, Uptime};
use lpm::proc_reader::{
    collect_all, enumerate, get_process_metrics, read_raw, Collected, ProcessFiles,
    ProcessMetrics, RawSnapshot, RecordRead,
};
use lpm::records::SnapshotError;

const STAT: &str = "1234 (myproc) S 1 1234 1234 0 -1 4194304 150 0 0 0 100 50 0 0 20 0 1 0 1000 \
                    10000000 500";
const STATUS: &str = "Name:\tmyproc\nVmRSS:\t  2048 kB\n";
const IO: &str = "read_bytes: 10\nwrite_bytes: 20\n";

fn text(s: &str) -> RecordRead {
    RecordRead::Text(s.to_string())
}

fn at(seconds: u64) -> Uptime {
    Uptime { seconds, nanos: 0 }
}

#[test]
fn snapshot_holds_what_the_three_records_say() {
    assert_eq!(
        read_raw(1234, &text(STAT), &text(STATUS), &text(IO)),
        Ok(RawSnapshot {
            pid: 1234,
            comm: "myproc".to_string(),
            user_ticks: 100,
            kernel_ticks: 50,
            start_ticks: 1000,
            mem_resident_kb: 2048,
            io_read_bytes: 10,
            io_write_bytes: 20,
        })
    );
}

#[test]
fn snapshot_takes_the_pid_from_the_caller() {
    let raw = read_raw(7, &text(STAT), &text(STATUS), &text(IO)).unwrap();
    assert_eq!(raw.pid, 7);
}

#[test]
fn snapshot_of_a_process_that_is_gone_is_not_found() {
    assert_eq!(
        read_raw(1, &RecordRead::NotFound, &text(STATUS), &text(IO)),
        Err(SnapshotError::NotFound)
    );
    assert_eq!(
        read_raw(1, &RecordRead::NotFound, &RecordRead::NotFound, &RecordRead::NotFound),
        Err(SnapshotError::NotFound)
    );
}

#[test]
fn snapshot_without_leave_to_read_stat_is_denied() {
    assert_eq!(
        read_raw(1, &RecordRead::PermissionDenied, &text(STATUS), &text(IO)),
        Err(SnapshotError::PermissionDenied)
    );
}

#[test]
fn snapshot_of_a_bad_stat_record_is_malformed() {
    assert_eq!(
        read_raw(1, &text("1 (x) S 1 2 3"), &text(STATUS), &text(IO)),
        Err(SnapshotError::Malformed)
    );
    assert_eq!(
        read_raw(1, &RecordRead::Invalid, &text(STATUS), &text(IO)),
        Err(SnapshotError::Malformed)
    );
}

#[test]
fn snapshot_counts_unreadable_memory_and_io_as_zero() {
    let raw = read_raw(1234, &text(STAT), &RecordRead::PermissionDenied, &RecordRead::NotFound)
        .unwrap();
    assert_eq!(raw.mem_resident_kb, 0);
    assert_eq!(raw.io_read_bytes, 0);
    assert_eq!(raw.io_write_bytes, 0);
    assert_eq!(raw.comm, "myproc");
    let raw = read_raw(1234, &text(STAT), &RecordRead::Invalid, &text(IO)).unwrap();
    assert_eq!(raw.mem_resident_kb, 0);
    assert_eq!(raw.io_read_bytes, 10);
    let raw = read_raw(1234, &text(STAT), &text(STATUS), &RecordRead::PermissionDenied).unwrap();
    assert_eq!(raw.mem_resident_kb, 2048);
    assert_eq!((raw.io_read_bytes, raw.io_write_bytes), (0, 0));
}

#[test]
fn metrics_from_records_end_to_end() {
    let uptime = parse_uptime("20.0 35.5\n").unwrap();
    let metrics =
        get_process_metrics(1234, &text(STAT), &text(STATUS), &text(IO), 100, uptime).unwrap();
    assert_eq!(
        metrics,
        ProcessMetrics {
            pid: 1234,
            comm: "myproc".to_string(),
            user: "user".to_string(),
            cpu_percent: 15,
            mem_resident_kb: 2048,
            io_read_bytes: 10,
            io_write_bytes: 20,
        }
    );
    assert_eq!(metrics.cpu_percent as f64, 15.0);
}

#[test]
fn metrics_hand_on_the_error_of_the_snapshot() {
    let st = text(STATUS);
    let io = text(IO);
    assert_eq!(
        get_process_metrics(1, &RecordRead::NotFound, &st, &io, 100, at(20)),
        Err(SnapshotError::NotFound)
    );
    assert_eq!(
        get_process_metrics(1, &RecordRead::PermissionDenied, &st, &io, 100, at(20)),
        Err(SnapshotError::PermissionDenied)
    );
    assert_eq!(
        get_process_metrics(1, &text("garbage"), &st, &io, 100, at(20)),
        Err(SnapshotError::Malformed)
    );
}

#[test]
fn enumerate_keeps_the_numeric_names() {
    let entries: Vec<String> = ["123", "self", "net", "1", "cpuinfo", "42"]
        .iter()
        .map(|s| s.to_string())
        .collect();
    assert_eq!(enumerate(&entries), vec![123, 1, 42]);
}

#[test]
fn enumerate_keeps_order_and_repeats() {
    let entries: Vec<String> =
        ["9", "3", "9", "+5", "007"].iter().map(|s| s.to_string()).collect();
    assert_eq!(enumerate(&entries), vec![9, 3, 9, 5, 7]);
}

#[test]
fn enumerate_passes_over_what_is_no_pid() {
    let entries: Vec<String> = ["", "-1", "1.5", "12a", " 12", "4294967296", "4294967295", "\u{FF10}"]
        .iter()
        .map(|s| s.to_string())
        .collect();
    assert_eq!(enumerate(&entries), vec![4294967295]);
    assert_eq!(enumerate(&Vec::new()), Vec::<u32>::new());
}

fn files(pid: u32, stat: RecordRead, uptime: Uptime) -> ProcessFiles {
    ProcessFiles { pid, stat, status: text(STATUS), io: text(IO), uptime }
}

#[test]
fn collect_all_leaves_out_processes_that_are_gone() {
    let reads = vec![
        files(1, text(STAT), at(20)),
        files(2, RecordRead::NotFound, at(20)),
        files(3, text(STAT), at(30)),
    ];
    let out = collect_all(&reads, 100);
    assert_eq!(out.len(), 2);
    assert_eq!(out[0].pid, 1);
    assert_eq!(out[0].outcome.as_ref().unwrap().cpu_percent, 15);
    assert_eq!(out[1].pid, 3);
    // Each process is measured against the uptime sampled for it.
    assert_eq!(out[1].outcome.as_ref().unwrap().cpu_percent, 8);
    assert_eq!(out[1].outcome.as_ref().unwrap().pid, 3);
}

#[test]
fn collect_all_reports_other_failures_and_goes_on() {
    let reads = vec![
        files(1, RecordRead::PermissionDenied, at(20)),
        files(2, text("2 (broken) S"), at(20)),
        files(3, RecordRead::NotFound, at(20)),
        files(4, text(STAT), at(20)),
    ];
    let out = collect_all(&reads, 100);
    assert_eq!(out.len(), 3);
    assert_eq!(out[0], Collected { pid: 1, outcome: Err(SnapshotError::PermissionDenied) });
    assert_eq!(out[1], Collected { pid: 2, outcome: Err(SnapshotError::Malformed) });
    assert_eq!(out[2].pid, 4);
    assert!(out[2].outcome.is_ok());
}

#[test]
fn collect_all_of_nothing_is_nothing() {
    assert_eq!(collect_all(&Vec::new(), 100), Vec::<Collected>::new());
    let reads = vec![files(1, RecordRead::NotFound, at(1))];
    assert_eq!(collect_all(&reads, 100), Vec::<Collected>::new());
}
