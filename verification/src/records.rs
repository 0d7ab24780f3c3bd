//! The kernel's text records: a process's `stat`, `status` and `io`, and
//! the system's `meminfo`.
//!
//! Identity and scheduler ticks are essential: a `stat` record that does not
//! give them is malformed. Memory and I/O counters are best effort: what a
//! record does not give counts as zero.

use crate::text::{
    as_u64, chars_of, cut, find_first, find_last, line_spans, lines, parse_u64_in, starts_with,
    word_spans, words, Span,
};
use vstd::prelude::*;
use vstd::string::*;

verus! {

/// Why a process's snapshot could not be taken.
#[derive(Clone, Copy, Debug, PartialEq, Eq, Structural)]
pub enum SnapshotError {
    /// The process was gone when its record was read.
    NotFound,
    /// The record may not be read by this user.
    PermissionDenied,
    /// The record does not have the layout that is relied on.
    Malformed,
}

/// The position of the command name among the fields of `stat`.
pub const NAME_FIELD: usize = 1;

/// The position of the ticks spent in user mode among the fields of `stat`.
pub const USER_TICKS_FIELD: usize = 13;

/// The position of the ticks spent in kernel mode among the fields of `stat`.
pub const KERNEL_TICKS_FIELD: usize = 14;

/// The position of the start time, in ticks since boot, among the fields of
/// `stat`.
pub const START_TICKS_FIELD: usize = 21;

/// What is read from a process's `stat` record.
#[derive(Clone, Debug, PartialEq, Eq)]
pub struct StatRecord {
    pub comm: String,
    pub user_ticks: u64,
    pub kernel_ticks: u64,
    pub start_ticks: u64,
}

/// The mathematical value of a `StatRecord`.
pub struct StatView {
    pub comm: Seq<char>,
    pub user_ticks: u64,
    pub kernel_ticks: u64,
    pub start_ticks: u64,
}

impl View for StatRecord {
    type V = StatView;

    open spec fn view(&self) -> StatView {
        StatView {
            comm: self.comm@,
            user_ticks: self.user_ticks,
            kernel_ticks: self.kernel_ticks,
            start_ticks: self.start_ticks,
        }
    }
}

/// The fields of a `stat` record that follow the command name: the words
/// after the closing parenthesis at `close`. The first of them is the field
/// after the name.
pub open spec fn fields_after_name(line: Seq<char>, close: int) -> Seq<Seq<char>> {
    words(line.skip(close + 1))
}

/// The field at position `field` of the record, read as a number.
pub open spec fn numeric_field(after: Seq<Seq<char>>, field: usize) -> Option<u64> {
    let i = field - NAME_FIELD - 1;
    if 0 <= i < after.len() {
        as_u64(after[i])
    } else {
        None
    }
}

/// What a `stat` record says. The command name stands between the first
/// opening parenthesis and the last closing parenthesis of the record, so
/// that a name may itself hold spaces and parentheses. The other fields
/// are the words after that closing parenthesis, and the three that are
/// read must be numbers.
pub open spec fn stat_record(line: Seq<char>) -> Option<StatView> {
    let open = line.index_of_first('(');
    let close = line.index_of_last(')');
    if open is Some && close is Some && open.unwrap() < close.unwrap() {
        let after = fields_after_name(line, close.unwrap());
        let user = numeric_field(after, USER_TICKS_FIELD);
        let kernel = numeric_field(after, KERNEL_TICKS_FIELD);
        let start = numeric_field(after, START_TICKS_FIELD);
        if user is Some && kernel is Some && start is Some {
            Some(
                StatView {
                    comm: line.subrange(open.unwrap() + 1, close.unwrap()),
                    user_ticks: user.unwrap(),
                    kernel_ticks: kernel.unwrap(),
                    start_ticks: start.unwrap(),
                },
            )
        } else {
            None
        }
    } else {
        None
    }
}

/// Reads the field at position `field` from the words after the name.
fn read_field(v: &Vec<char>, after: &Vec<Span>, field: usize) -> (r: Option<u64>)
    requires
        crate::text::all_within(v@, after@),
        field > NAME_FIELD,
    ensures
        r == numeric_field(cut(v@, after@), field),
{
    let i = field - NAME_FIELD - 1;
    if i < after.len() {
        assert(after@[i as int].within(v@));
        parse_u64_in(v, after[i].start, after[i].end)
    } else {
        None
    }
}

/// Reads a process's `stat` record.
pub fn parse_stat(line: &str) -> (r: Result<StatRecord, SnapshotError>)
    ensures
        match r {
            Ok(rec) => stat_record(line@) == Some(rec@),
            Err(e) => e == SnapshotError::Malformed && stat_record(line@) is None,
        },
{
    let v = chars_of(line);
    let open = match find_first(&v, '(') {
        Some(i) => i,
        None => {
            return Err(SnapshotError::Malformed);
        },
    };
    let close = match find_last(&v, ')') {
        Some(i) => i,
        None => {
            return Err(SnapshotError::Malformed);
        },
    };
    proof {
        v@.index_of_first_ensures('(');
        v@.index_of_last_ensures(')');
    }
    if open >= close {
        return Err(SnapshotError::Malformed);
    }
    let after = word_spans(&v, close + 1, v.len());
    assert(v@.subrange(close + 1, v.len() as int) =~= v@.skip(close + 1));
    let user = read_field(&v, &after, USER_TICKS_FIELD);
    let kernel = read_field(&v, &after, KERNEL_TICKS_FIELD);
    let start = read_field(&v, &after, START_TICKS_FIELD);
    match (user, kernel, start) {
        (Some(user_ticks), Some(kernel_ticks), Some(start_ticks)) => {
            let comm = line.substring_char(open + 1, close).to_owned();
            Ok(StatRecord { comm, user_ticks, kernel_ticks, start_ticks })
        },
        _ => Err(SnapshotError::Malformed),
    }
}

/// The number that follows a line's key: its second word, if that is a
/// number.
pub open spec fn number_after_key(line: Seq<char>) -> Option<u64> {
    let w = words(line);
    if w.len() > 1 {
        as_u64(w[1])
    } else {
        None
    }
}

/// The number that follows a line's key, or zero where none does.
pub open spec fn value_or_zero(line: Seq<char>) -> u64 {
    match number_after_key(line) {
        Some(n) => n,
        None => 0,
    }
}

/// The first of the lines that begins with `key`.
pub open spec fn first_with_key(ls: Seq<Seq<char>>, key: Seq<char>) -> Option<Seq<char>>
    decreases ls.len(),
{
    if ls.len() == 0 {
        None
    } else if key.is_prefix_of(ls[0]) {
        Some(ls[0])
    } else {
        first_with_key(ls.skip(1), key)
    }
}

/// The last of the lines that begins with `key`.
pub open spec fn last_with_key(ls: Seq<Seq<char>>, key: Seq<char>) -> Option<Seq<char>>
    decreases ls.len(),
{
    if ls.len() == 0 {
        None
    } else if key.is_prefix_of(ls.last()) {
        Some(ls.last())
    } else {
        last_with_key(ls.drop_last(), key)
    }
}

/// The resident memory, in kilobytes, that a `status` record reports: the
/// number on its first `VmRSS:` line, and zero where there is no such line
/// or no number on it.
pub open spec fn resident_kb(status: Seq<char>) -> u64 {
    match first_with_key(lines(status), "VmRSS:"@) {
        Some(line) => value_or_zero(line),
        None => 0,
    }
}

/// The counter that the lines report under `key`: the number on the last
/// line that begins with `key`, and zero where there is no such line or no
/// number on it.
pub open spec fn counter(ls: Seq<Seq<char>>, key: Seq<char>) -> u64 {
    match last_with_key(ls, key) {
        Some(line) => value_or_zero(line),
        None => 0,
    }
}

/// The bytes read and written that an `io` record reports.
pub open spec fn io_bytes(io: Seq<char>) -> (u64, u64) {
    (counter(lines(io), "read_bytes:"@), counter(lines(io), "write_bytes:"@))
}

/// Reads the number that follows the key of the line at `line`.
fn read_number_after_key(v: &Vec<char>, line: Span) -> (r: Option<u64>)
    requires
        line.within(v@),
    ensures
        r == number_after_key(line.of(v@)),
{
    let w = word_spans(v, line.start, line.end);
    if w.len() > 1 {
        assert(w@[1].within(v@));
        assert(cut(v@, w@)[1] == w@[1].of(v@));
        parse_u64_in(v, w[1].start, w[1].end)
    } else {
        None
    }
}

/// Reads the counter that the lines of `v` report under `key`.
fn read_counter(v: &Vec<char>, ls: &Vec<Span>, key: &str) -> (r: u64)
    requires
        crate::text::all_within(v@, ls@),
    ensures
        r == counter(cut(v@, ls@), key@),
{
    let k = chars_of(key);
    let ghost all = cut(v@, ls@);
    let mut r: u64 = 0;
    let mut i: usize = 0;
    assert(all.take(0) =~= Seq::<Seq<char>>::empty());
    while i < ls.len()
        invariant
            i <= ls.len(),
            crate::text::all_within(v@, ls@),
            all == cut(v@, ls@),
            k@ == key@,
            r == counter(all.take(i as int), key@),
        decreases ls.len() - i,
    {
        let line = ls[i];
        assert(ls@[i as int].within(v@));
        proof {
            assert(all.take(i + 1).drop_last() =~= all.take(i as int));
            assert(all.take(i + 1).last() == line.of(v@));
        }
        if starts_with(v, line.start, line.end, &k) {
            r = match read_number_after_key(v, line) {
                Some(n) => n,
                None => 0,
            };
        }
        i += 1;
    }
    assert(all.take(ls.len() as int) =~= all);
    r
}

/// Reads the resident memory, in kilobytes, from a process's `status`
/// record.
pub fn parse_status(status: &str) -> (r: u64)
    ensures
        r == resident_kb(status@),
{
    let v = chars_of(status);
    let ls = line_spans(&v);
    let k = chars_of("VmRSS:");
    let ghost all = cut(v@, ls@);
    let mut i: usize = 0;
    assert(all.skip(0) =~= all);
    while i < ls.len()
        invariant
            i <= ls.len(),
            crate::text::all_within(v@, ls@),
            all == cut(v@, ls@),
            all == lines(status@),
            k@ == "VmRSS:"@,
            first_with_key(all.skip(i as int), "VmRSS:"@) == first_with_key(all, "VmRSS:"@),
        decreases ls.len() - i,
    {
        let line = ls[i];
        assert(ls@[i as int].within(v@));
        proof {
            assert(all.skip(i as int)[0] == line.of(v@));
            assert(all.skip(i as int).skip(1) =~= all.skip(i + 1));
        }
        if starts_with(&v, line.start, line.end, &k) {
            return match read_number_after_key(&v, line) {
                Some(n) => n,
                None => 0,
            };
        }
        i += 1;
    }
    0
}

/// Reads the bytes read and written from a process's `io` record.
pub fn parse_io(io: &str) -> (r: (u64, u64))
    ensures
        r == io_bytes(io@),
{
    let v = chars_of(io);
    let ls = line_spans(&v);
    (read_counter(&v, &ls, "read_bytes:"), read_counter(&v, &ls, "write_bytes:"))
}

/// The system's memory, in megabytes.
#[derive(Clone, Copy, Debug, PartialEq, Eq, Structural)]
pub struct SystemMemoryStats {
    pub total_mb: u64,
    pub used_mb: u64,
}

/// The counter that the lines report under `key` where every line that
/// begins with `key` must carry a number: the number on the last such
/// line, zero where there is no such line, and nothing where one of them
/// carries no number.
pub open spec fn required_counter(ls: Seq<Seq<char>>, key: Seq<char>) -> Option<u64>
    decreases ls.len(),
{
    if ls.len() == 0 {
        Some(0)
    } else {
        match required_counter(ls.drop_last(), key) {
            None => None,
            Some(before) => if key.is_prefix_of(ls.last()) {
                number_after_key(ls.last())
            } else {
                Some(before)
            },
        }
    }
}

/// The memory that a `meminfo` record reports. Its counters are in
/// kilobytes; used memory is what is left of the total when free memory,
/// buffers and cache are taken away; both figures are cut down to whole
/// megabytes. There is no answer where a counter's line carries no number
/// or where the parts exceed the total.
pub open spec fn memory_stats(meminfo: Seq<char>) -> Option<SystemMemoryStats> {
    let ls = lines(meminfo);
    let total = required_counter(ls, "MemTotal:"@);
    let free = required_counter(ls, "MemFree:"@);
    let buffers = required_counter(ls, "Buffers:"@);
    let cached = required_counter(ls, "Cached:"@);
    if total is Some && free is Some && buffers is Some && cached is Some && free.unwrap()
        + buffers.unwrap() + cached.unwrap() <= total.unwrap() {
        Some(
            SystemMemoryStats {
                total_mb: total.unwrap() / 1024,
                used_mb: ((total.unwrap() - free.unwrap() - buffers.unwrap() - cached.unwrap())
                    / 1024) as u64,
            },
        )
    } else {
        None
    }
}

/// Reads the counter under `key` from lines of which each that begins
/// with `key` must carry a number.
fn read_required_counter(v: &Vec<char>, ls: &Vec<Span>, key: &str) -> (r: Option<u64>)
    requires
        crate::text::all_within(v@, ls@),
    ensures
        r == required_counter(cut(v@, ls@), key@),
{
    let k = chars_of(key);
    let ghost all = cut(v@, ls@);
    let mut r: u64 = 0;
    let mut i: usize = 0;
    assert(all.take(0) =~= Seq::<Seq<char>>::empty());
    while i < ls.len()
        invariant
            i <= ls.len(),
            crate::text::all_within(v@, ls@),
            all == cut(v@, ls@),
            k@ == key@,
            required_counter(all.take(i as int), key@) == Some(r),
        decreases ls.len() - i,
    {
        let line = ls[i];
        assert(ls@[i as int].within(v@));
        proof {
            assert(all.take(i + 1).drop_last() =~= all.take(i as int));
            assert(all.take(i + 1).last() == line.of(v@));
        }
        if starts_with(v, line.start, line.end, &k) {
            match read_number_after_key(v, line) {
                Some(n) => {
                    r = n;
                },
                None => {
                    proof {
                        lemma_required_counter_stays_none(all, key@, i + 1);
                    }
                    return None;
                },
            }
        }
        i += 1;
    }
    assert(all.take(ls.len() as int) =~= all);
    Some(r)
}

/// Once a line that begins with `key` carries no number, no later line
/// brings the counter back.
proof fn lemma_required_counter_stays_none(ls: Seq<Seq<char>>, key: Seq<char>, n: int)
    requires
        0 <= n <= ls.len(),
        required_counter(ls.take(n), key) is None,
    ensures
        required_counter(ls, key) is None,
    decreases ls.len() - n,
{
    if n == ls.len() {
        assert(ls.take(n) =~= ls);
    } else {
        assert(ls.take(n + 1).drop_last() =~= ls.take(n));
        lemma_required_counter_stays_none(ls, key, n + 1);
    }
}

/// Reads total and used memory from the system's `meminfo` record.
pub fn get_memory_stats(meminfo: &str) -> (r: Option<SystemMemoryStats>)
    ensures
        r == memory_stats(meminfo@),
{
    let v = chars_of(meminfo);
    let ls = line_spans(&v);
    let total = read_required_counter(&v, &ls, "MemTotal:");
    let free = read_required_counter(&v, &ls, "MemFree:");
    let buffers = read_required_counter(&v, &ls, "Buffers:");
    let cached = read_required_counter(&v, &ls, "Cached:");
    match (total, free, buffers, cached) {
        (Some(total), Some(free), Some(buffers), Some(cached)) => {
            if free > total || buffers > total - free || cached > total - free - buffers {
                None
            } else {
                Some(
                    SystemMemoryStats {
                        total_mb: total / 1024,
                        used_mb: (total - free - buffers - cached) / 1024,
                    },
                )
            }
        },
        _ => None,
    }
}

/// No line begins with `key`.
pub open spec fn lacks_key(ls: Seq<Seq<char>>, key: Seq<char>) -> bool {
    forall|i: int| 0 <= i < ls.len() ==> !key.is_prefix_of(#[trigger] ls[i])
}

/// Among lines of which none begins with `key`, neither a first nor a
/// last one does.
pub proof fn lemma_lacking_key_finds_none(ls: Seq<Seq<char>>, key: Seq<char>)
    requires
        lacks_key(ls, key),
    ensures
        first_with_key(ls, key) is None,
        last_with_key(ls, key) is None,
    decreases ls.len(),
{
    if ls.len() > 0 {
        assert(!key.is_prefix_of(ls[0]));
        assert(!key.is_prefix_of(ls[ls.len() - 1]));
        let front = ls.drop_last();
        let back = ls.skip(1);
        assert forall|i: int| 0 <= i < front.len() implies !key.is_prefix_of(
            #[trigger] front[i],
        ) by {
            assert(front[i] == ls[i]);
        }
        assert forall|i: int| 0 <= i < back.len() implies !key.is_prefix_of(
            #[trigger] back[i],
        ) by {
            assert(back[i] == ls[i + 1]);
        }
        lemma_lacking_key_finds_none(front, key);
        lemma_lacking_key_finds_none(back, key);
    }
}

/// A `status` record without a `VmRSS:` line reports no resident memory.
pub proof fn lemma_status_without_rss_is_zero(status: Seq<char>)
    requires
        lacks_key(lines(status), "VmRSS:"@),
    ensures
        resident_kb(status) == 0,
{
    lemma_lacking_key_finds_none(lines(status), "VmRSS:"@);
}

/// An `io` record reports zero for each counter that it has no line for,
/// whatever it says of the other.
pub proof fn lemma_io_without_counter_is_zero(io: Seq<char>)
    ensures
        lacks_key(lines(io), "read_bytes:"@) ==> io_bytes(io).0 == 0,
        lacks_key(lines(io), "write_bytes:"@) ==> io_bytes(io).1 == 0,
{
    if lacks_key(lines(io), "read_bytes:"@) {
        lemma_lacking_key_finds_none(lines(io), "read_bytes:"@);
    }
    if lacks_key(lines(io), "write_bytes:"@) {
        lemma_lacking_key_finds_none(lines(io), "write_bytes:"@);
    }
}

/// The record that holds `name` in parentheses between `before` and
/// `after`.
pub open spec fn stat_line(before: Seq<char>, name: Seq<char>, after: Seq<char>) -> Seq<char> {
    before + seq!['('] + name + seq![')'] + after
}

/// The command name is read whole, whatever it holds: where no opening
/// parenthesis stands before the name's and no closing one after the
/// name's, the name that is read is all that stands between the two, and
/// the record is accepted exactly where the three numeric fields after
/// the name are numbers.
pub proof fn lemma_stat_name_is_whole(before: Seq<char>, name: Seq<char>, after: Seq<char>)
    requires
        !before.contains('('),
        !after.contains(')'),
    ensures
        ({
            let line = stat_line(before, name, after);
            let fields = words(after);
            &&& stat_record(line) is Some <==> numeric_field(fields, USER_TICKS_FIELD) is Some
                && numeric_field(fields, KERNEL_TICKS_FIELD) is Some && numeric_field(
                fields,
                START_TICKS_FIELD,
            ) is Some
            &&& stat_record(line) matches Some(rec) ==> rec.comm == name
        }),
{
    let line = stat_line(before, name, after);
    let open = before.len() as int;
    let close = open + 1 + name.len();
    assert(line[open] == '(');
    assert(line[close] == ')');
    line.index_of_first_ensures('(');
    line.index_of_last_ensures(')');
    let first = line.index_of_first('(').unwrap();
    let last = line.index_of_last(')').unwrap();
    if first < open {
        assert(before[first] == line[first]);
        assert(before.contains('('));
    }
    if last > close {
        assert(after[last - close - 1] == line[last]);
        assert(after.contains(')'));
    }
    assert(first == open);
    assert(last == close);
    assert(line.subrange(open + 1, close) =~= name);
    assert(line.skip(close + 1) =~= after);
}

} // verus!
