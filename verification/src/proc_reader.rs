//! One process's metrics, put together from what was read of its records.
//!
//! Nothing here touches the file system. The caller reads the records and
//! hands over what came of each read; this module decides what that
//! amounts to.

use crate::cpu::{cpu_percent, estimate, Uptime};
use crate::records::{
    io_bytes, parse_io, parse_stat, parse_status, resident_kb, stat_record, SnapshotError,
};
use crate::text::{as_u32, parse_u32};
use vstd::prelude::*;

verus! {

/// What came of reading one of the kernel's records.
#[derive(Clone, Debug, PartialEq, Eq)]
pub enum RecordRead {
    /// The record was read, and this is its text.
    Text(String),
    /// There is no such record: the process is gone.
    NotFound,
    /// The record may not be read by this user.
    PermissionDenied,
    /// The record was read and is not text.
    Invalid,
}

/// The mathematical value of a `RecordRead`.
pub enum RecordReadView {
    Text(Seq<char>),
    NotFound,
    PermissionDenied,
    Invalid,
}

impl View for RecordRead {
    type V = RecordReadView;

    open spec fn view(&self) -> RecordReadView {
        match *self {
            RecordRead::Text(s) => RecordReadView::Text(s@),
            RecordRead::NotFound => RecordReadView::NotFound,
            RecordRead::PermissionDenied => RecordReadView::PermissionDenied,
            RecordRead::Invalid => RecordReadView::Invalid,
        }
    }
}

/// What the kernel reports of one process at one instant.
#[derive(Clone, Debug, PartialEq, Eq)]
pub struct RawSnapshot {
    pub pid: u32,
    pub comm: String,
    pub user_ticks: u64,
    pub kernel_ticks: u64,
    pub start_ticks: u64,
    pub mem_resident_kb: u64,
    pub io_read_bytes: u64,
    pub io_write_bytes: u64,
}

/// The mathematical value of a `RawSnapshot`.
pub struct RawSnapshotView {
    pub pid: u32,
    pub comm: Seq<char>,
    pub user_ticks: u64,
    pub kernel_ticks: u64,
    pub start_ticks: u64,
    pub mem_resident_kb: u64,
    pub io_read_bytes: u64,
    pub io_write_bytes: u64,
}

impl View for RawSnapshot {
    type V = RawSnapshotView;

    open spec fn view(&self) -> RawSnapshotView {
        RawSnapshotView {
            pid: self.pid,
            comm: self.comm@,
            user_ticks: self.user_ticks,
            kernel_ticks: self.kernel_ticks,
            start_ticks: self.start_ticks,
            mem_resident_kb: self.mem_resident_kb,
            io_read_bytes: self.io_read_bytes,
            io_write_bytes: self.io_write_bytes,
        }
    }
}

/// The metrics of one process at one instant.
#[derive(Clone, Debug, PartialEq, Eq)]
pub struct ProcessMetrics {
    pub pid: u32,
    /// The command name.
    pub comm: String,
    /// The owning account. Accounts are not resolved: this is always
    /// `"user"`.
    pub user: String,
    /// Whole percent of the process's lifetime spent on a processor; one
    /// busy core counts as a hundred.
    pub cpu_percent: u128,
    pub mem_resident_kb: u64,
    pub io_read_bytes: u64,
    pub io_write_bytes: u64,
}

/// The mathematical value of a `ProcessMetrics`.
pub struct ProcessMetricsView {
    pub pid: u32,
    pub comm: Seq<char>,
    pub user: Seq<char>,
    pub cpu_percent: u128,
    pub mem_resident_kb: u64,
    pub io_read_bytes: u64,
    pub io_write_bytes: u64,
}

impl View for ProcessMetrics {
    type V = ProcessMetricsView;

    open spec fn view(&self) -> ProcessMetricsView {
        ProcessMetricsView {
            pid: self.pid,
            comm: self.comm@,
            user: self.user@,
            cpu_percent: self.cpu_percent,
            mem_resident_kb: self.mem_resident_kb,
            io_read_bytes: self.io_read_bytes,
            io_write_bytes: self.io_write_bytes,
        }
    }
}

/// The resident memory that a read of `status` amounts to: zero where the
/// record could not be read.
pub open spec fn memory_from(status: RecordReadView) -> u64 {
    match status {
        RecordReadView::Text(s) => resident_kb(s),
        _ => 0,
    }
}

/// The bytes read and written that a read of `io` amounts to: zero where
/// the record could not be read.
pub open spec fn io_from(io: RecordReadView) -> (u64, u64) {
    match io {
        RecordReadView::Text(s) => io_bytes(s),
        _ => (0, 0),
    }
}

/// The snapshot that three reads amount to. The `stat` record is
/// essential: where it is missing, forbidden or malformed there is no
/// snapshot. The other two are best effort.
pub open spec fn raw_snapshot(
    pid: u32,
    stat: RecordReadView,
    status: RecordReadView,
    io: RecordReadView,
) -> Result<RawSnapshotView, SnapshotError> {
    match stat {
        RecordReadView::NotFound => Err(SnapshotError::NotFound),
        RecordReadView::PermissionDenied => Err(SnapshotError::PermissionDenied),
        RecordReadView::Invalid => Err(SnapshotError::Malformed),
        RecordReadView::Text(line) => match stat_record(line) {
            None => Err(SnapshotError::Malformed),
            Some(rec) => Ok(
                RawSnapshotView {
                    pid,
                    comm: rec.comm,
                    user_ticks: rec.user_ticks,
                    kernel_ticks: rec.kernel_ticks,
                    start_ticks: rec.start_ticks,
                    mem_resident_kb: memory_from(status),
                    io_read_bytes: io_from(io).0,
                    io_write_bytes: io_from(io).1,
                },
            ),
        },
    }
}

/// Puts a process's snapshot together from what came of reading its
/// `stat`, `status` and `io` records.
pub fn read_raw(pid: u32, stat: &RecordRead, status: &RecordRead, io: &RecordRead) -> (r: Result<
    RawSnapshot,
    SnapshotError,
>)
    ensures
        match r {
            Ok(snapshot) => raw_snapshot(pid, stat@, status@, io@) == Ok::<
                RawSnapshotView,
                SnapshotError,
            >(snapshot@),
            Err(e) => raw_snapshot(pid, stat@, status@, io@) == Err::<
                RawSnapshotView,
                SnapshotError,
            >(e),
        },
        stat@ is NotFound ==> r == Err::<RawSnapshot, SnapshotError>(SnapshotError::NotFound),
{
    let rec = match stat {
        RecordRead::NotFound => {
            return Err(SnapshotError::NotFound);
        },
        RecordRead::PermissionDenied => {
            return Err(SnapshotError::PermissionDenied);
        },
        RecordRead::Invalid => {
            return Err(SnapshotError::Malformed);
        },
        RecordRead::Text(line) => match parse_stat(line.as_str()) {
            Ok(rec) => rec,
            Err(e) => {
                return Err(e);
            },
        },
    };
    let mem_resident_kb = match status {
        RecordRead::Text(s) => parse_status(s.as_str()),
        _ => 0,
    };
    let (io_read_bytes, io_write_bytes) = match io {
        RecordRead::Text(s) => parse_io(s.as_str()),
        _ => (0, 0),
    };
    Ok(
        RawSnapshot {
            pid,
            comm: rec.comm,
            user_ticks: rec.user_ticks,
            kernel_ticks: rec.kernel_ticks,
            start_ticks: rec.start_ticks,
            mem_resident_kb,
            io_read_bytes,
            io_write_bytes,
        },
    )
}

/// The metrics that a snapshot gives at `uptime`.
pub open spec fn metrics_of(
    raw: RawSnapshotView,
    ticks_per_second: u32,
    uptime: Uptime,
) -> ProcessMetricsView {
    ProcessMetricsView {
        pid: raw.pid,
        comm: raw.comm,
        user: "user"@,
        cpu_percent: cpu_percent(
            raw.user_ticks,
            raw.kernel_ticks,
            raw.start_ticks,
            ticks_per_second,
            uptime,
        ) as u128,
        mem_resident_kb: raw.mem_resident_kb,
        io_read_bytes: raw.io_read_bytes,
        io_write_bytes: raw.io_write_bytes,
    }
}

/// The metrics that three reads amount to at `uptime`, or why there are
/// none.
pub open spec fn process_metrics(
    pid: u32,
    stat: RecordReadView,
    status: RecordReadView,
    io: RecordReadView,
    ticks_per_second: u32,
    uptime: Uptime,
) -> Result<ProcessMetricsView, SnapshotError> {
    match raw_snapshot(pid, stat, status, io) {
        Ok(raw) => Ok(metrics_of(raw, ticks_per_second, uptime)),
        Err(e) => Err(e),
    }
}

/// The mathematical value of what collecting one process gave.
pub open spec fn outcome_view(r: Result<ProcessMetrics, SnapshotError>) -> Result<
    ProcessMetricsView,
    SnapshotError,
> {
    match r {
        Ok(m) => Ok(m@),
        Err(e) => Err(e),
    }
}

/// Puts a process's metrics together from what came of reading its
/// records, the clock ticks per second and the time since boot. An error of
/// the snapshot is handed on as it is; nothing is tried twice.
pub fn get_process_metrics(
    pid: u32,
    stat: &RecordRead,
    status: &RecordRead,
    io: &RecordRead,
    ticks_per_second: u32,
    uptime: Uptime,
) -> (r: Result<ProcessMetrics, SnapshotError>)
    ensures
        outcome_view(r) == process_metrics(pid, stat@, status@, io@, ticks_per_second, uptime),
        stat@ is NotFound ==> r == Err::<ProcessMetrics, SnapshotError>(SnapshotError::NotFound),
{
    match read_raw(pid, stat, status, io) {
        Ok(raw) => {
            let cpu_percent = estimate(
                raw.user_ticks,
                raw.kernel_ticks,
                raw.start_ticks,
                ticks_per_second,
                uptime,
            );
            Ok(
                ProcessMetrics {
                    pid: raw.pid,
                    comm: raw.comm,
                    user: "user".to_owned(),
                    cpu_percent,
                    mem_resident_kb: raw.mem_resident_kb,
                    io_read_bytes: raw.io_read_bytes,
                    io_write_bytes: raw.io_write_bytes,
                },
            )
        },
        Err(e) => Err(e),
    }
}

/// The character sequences of a list of strings.
pub open spec fn names_of(entries: Seq<String>) -> Seq<Seq<char>> {
    Seq::new(entries.len(), |i: int| entries[i]@)
}

/// The process ids among directory entries: the names that write an
/// unsigned 32-bit number, as that number, in the entries' order.
pub open spec fn pids_of(names: Seq<Seq<char>>) -> Seq<u32>
    decreases names.len(),
{
    if names.len() == 0 {
        Seq::empty()
    } else {
        match as_u32(names.last()) {
            Some(pid) => pids_of(names.drop_last()).push(pid),
            None => pids_of(names.drop_last()),
        }
    }
}

/// Picks the process ids out of the names of a directory's entries.
pub fn enumerate(entries: &Vec<String>) -> (r: Vec<u32>)
    ensures
        r@ == pids_of(names_of(entries@)),
{
    let ghost names = names_of(entries@);
    let mut r: Vec<u32> = Vec::new();
    let mut i: usize = 0;
    assert(names.take(0) =~= Seq::<Seq<char>>::empty());
    while i < entries.len()
        invariant
            i <= entries.len(),
            names == names_of(entries@),
            r@ == pids_of(names.take(i as int)),
        decreases entries.len() - i,
    {
        proof {
            assert(names.take(i + 1).drop_last() =~= names.take(i as int));
            assert(names.take(i + 1).last() == entries@[i as int]@);
        }
        if let Some(pid) = parse_u32(entries[i].as_str()) {
            r.push(pid);
        }
        i += 1;
    }
    assert(names.take(entries.len() as int) =~= names);
    r
}

/// A number is among the process ids exactly where some entry's name
/// writes it: names that are no numbers add nothing, and no number is
/// lost.
pub proof fn lemma_pids_are_the_numeric_names(names: Seq<Seq<char>>, pid: u32)
    ensures
        pids_of(names).contains(pid) <==> exists|i: int|
            0 <= i < names.len() && as_u32(#[trigger] names[i]) == Some(pid),
    decreases names.len(),
{
    if names.len() > 0 {
        let before = names.drop_last();
        lemma_pids_are_the_numeric_names(before, pid);
        let earlier = pids_of(before);
        if pids_of(names).contains(pid) {
            let k = choose|k: int| 0 <= k < pids_of(names).len() && pids_of(names)[k] == pid;
            if as_u32(names.last()) is Some && k == earlier.len() {
                assert(as_u32(names[names.len() - 1]) == Some(pid));
            } else {
                assert(earlier[k] == pid);
                assert(earlier.contains(pid));
                let i = choose|i: int|
                    0 <= i < before.len() && as_u32(#[trigger] before[i]) == Some(pid);
                assert(names[i] == before[i]);
            }
        }
        if exists|i: int| 0 <= i < names.len() && as_u32(#[trigger] names[i]) == Some(pid) {
            let i = choose|i: int| 0 <= i < names.len() && as_u32(#[trigger] names[i]) == Some(pid);
            if i == names.len() - 1 {
                assert(pids_of(names) == earlier.push(pid));
                assert(pids_of(names)[earlier.len() as int] == pid);
            } else {
                assert(before[i] == names[i]);
                assert(earlier.contains(pid));
                let k = choose|k: int| 0 <= k < earlier.len() && earlier[k] == pid;
                assert(pids_of(names)[k] == pid);
            }
        }
    }
}

/// What was read for one process: its records, and the time since boot
/// as it was sampled for this process.
#[derive(Clone, Debug, PartialEq, Eq)]
pub struct ProcessFiles {
    pub pid: u32,
    pub stat: RecordRead,
    pub status: RecordRead,
    pub io: RecordRead,
    pub uptime: Uptime,
}

/// The mathematical value of a `ProcessFiles`.
pub struct ProcessFilesView {
    pub pid: u32,
    pub stat: RecordReadView,
    pub status: RecordReadView,
    pub io: RecordReadView,
    pub uptime: Uptime,
}

impl View for ProcessFiles {
    type V = ProcessFilesView;

    open spec fn view(&self) -> ProcessFilesView {
        ProcessFilesView {
            pid: self.pid,
            stat: self.stat@,
            status: self.status@,
            io: self.io@,
            uptime: self.uptime,
        }
    }
}

/// What collecting one process gave: its metrics, or why there are none.
#[derive(Debug, PartialEq, Eq)]
pub struct Collected {
    pub pid: u32,
    pub outcome: Result<ProcessMetrics, SnapshotError>,
}

/// The mathematical value of a `Collected`.
pub struct CollectedView {
    pub pid: u32,
    pub outcome: Result<ProcessMetricsView, SnapshotError>,
}

impl View for Collected {
    type V = CollectedView;

    open spec fn view(&self) -> CollectedView {
        CollectedView { pid: self.pid, outcome: outcome_view(self.outcome) }
    }
}

/// The values of a list of reads.
pub open spec fn files_views(reads: Seq<ProcessFiles>) -> Seq<ProcessFilesView> {
    Seq::new(reads.len(), |i: int| reads[i]@)
}

/// The values of a list of outcomes.
pub open spec fn collected_views(out: Seq<Collected>) -> Seq<CollectedView> {
    Seq::new(out.len(), |i: int| out[i]@)
}

/// What collecting the process of one read gives.
pub open spec fn collected_one(f: ProcessFilesView, ticks_per_second: u32) -> CollectedView {
    CollectedView {
        pid: f.pid,
        outcome: process_metrics(f.pid, f.stat, f.status, f.io, ticks_per_second, f.uptime),
    }
}

/// What a pass over all processes gives: one outcome for each process, in
/// the order in which they were read, but none for a process that was gone
/// when its `stat` record was read.
pub open spec fn collected(reads: Seq<ProcessFilesView>, ticks_per_second: u32) -> Seq<
    CollectedView,
>
    decreases reads.len(),
{
    if reads.len() == 0 {
        Seq::empty()
    } else {
        let before = collected(reads.drop_last(), ticks_per_second);
        let one = collected_one(reads.last(), ticks_per_second);
        if one.outcome == Err::<ProcessMetricsView, SnapshotError>(SnapshotError::NotFound) {
            before
        } else {
            before.push(one)
        }
    }
}

/// Collects the metrics of every process that was read, one after the
/// other. A process that fails does not stop the pass; one that was gone
/// is left out.
pub fn collect_all(reads: &Vec<ProcessFiles>, ticks_per_second: u32) -> (r: Vec<Collected>)
    ensures
        collected_views(r@) == collected(files_views(reads@), ticks_per_second),
{
    let ghost all = files_views(reads@);
    let mut r: Vec<Collected> = Vec::new();
    let mut i: usize = 0;
    assert(all.take(0) =~= Seq::<ProcessFilesView>::empty());
    assert(collected_views(r@) =~= Seq::<CollectedView>::empty());
    while i < reads.len()
        invariant
            i <= reads.len(),
            all == files_views(reads@),
            collected_views(r@) == collected(all.take(i as int), ticks_per_second),
        decreases reads.len() - i,
    {
        let f = &reads[i];
        proof {
            assert(all.take(i + 1).drop_last() =~= all.take(i as int));
            assert(all.take(i + 1).last() == reads@[i as int]@);
        }
        let outcome = get_process_metrics(
            f.pid,
            &f.stat,
            &f.status,
            &f.io,
            ticks_per_second,
            f.uptime,
        );
        let gone = match outcome {
            Err(SnapshotError::NotFound) => true,
            _ => false,
        };
        if !gone {
            let ghost before = collected_views(r@);
            let one = Collected { pid: f.pid, outcome };
            r.push(one);
            assert(collected_views(r@) =~= before.push(one@));
        }
        i += 1;
    }
    assert(all.take(reads.len() as int) =~= all);
    r
}

/// No outcome of a pass says that a process was not found: such a process
/// is left out, not reported.
pub proof fn lemma_collected_omits_not_found(
    reads: Seq<ProcessFilesView>,
    ticks_per_second: u32,
    k: int,
)
    requires
        0 <= k < collected(reads, ticks_per_second).len(),
    ensures
        collected(reads, ticks_per_second)[k].outcome != Err::<ProcessMetricsView, SnapshotError>(
            SnapshotError::NotFound,
        ),
    decreases reads.len(),
{
    if reads.len() > 0 {
        let before = collected(reads.drop_last(), ticks_per_second);
        if k < before.len() {
            lemma_collected_omits_not_found(reads.drop_last(), ticks_per_second, k);
        }
    }
}

} // verus!
