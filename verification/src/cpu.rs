//! The share of processor time that a process has used over its lifetime.
//!
//! The figure is cumulative: the time the process has spent on a processor
//! since it started, over the time that has passed since it started. It is
//! not a rate between two polls, and one busy thread on one core counts as
//! one hundred percent whatever the number of cores.
//!
//! All of it is exact arithmetic on whole numbers. Time since boot is held
//! in seconds and nanoseconds, ticks are counted as the kernel reports
//! them, and the percentage is the nearest whole number to the true ratio.

use crate::text::{
    all_digits, as_u64, chars_of, copy_span, cut, decimal, find_first, is_digit, lemma_decimal_bound,
    parse_digits, parse_unsigned, pow10, word_spans, words,
};
use vstd::arithmetic::div_mod::lemma_fundamental_div_mod_converse;
use vstd::prelude::*;

verus! {

/// Nanoseconds in one second.
pub const NANOS_PER_SECOND: u64 = 1_000_000_000;

/// The number of digits after the decimal point that a nanosecond count
/// holds.
pub const NANO_DIGITS: usize = 9;

/// The time since the system booted: `seconds` whole seconds and `nanos`
/// nanoseconds more.
#[derive(Clone, Copy, Debug, PartialEq, Eq, Structural)]
pub struct Uptime {
    pub seconds: u64,
    pub nanos: u32,
}

impl Uptime {
    /// The whole of the time in nanoseconds.
    pub open spec fn as_nanos(self) -> nat {
        self.seconds as nat * NANOS_PER_SECOND as nat + self.nanos as nat
    }
}

/// The time that has passed since the process started, in units of one
/// nanosecond divided by `ticks_per_second`: system uptime less the start
/// time, where the start time in seconds is `start_ticks /
/// ticks_per_second`. It is positive exactly where that difference is.
pub open spec fn elapsed_units(start_ticks: u64, ticks_per_second: u32, uptime: Uptime) -> int {
    uptime.as_nanos() * ticks_per_second - start_ticks * NANOS_PER_SECOND
}

/// A hundred times the processor time that the process has used, in the
/// units of `elapsed_units`: the time in seconds is `(user_ticks +
/// kernel_ticks) / ticks_per_second`.
pub open spec fn busy_units(user_ticks: u64, kernel_ticks: u64) -> int {
    100 * (user_ticks + kernel_ticks) * NANOS_PER_SECOND
}

/// The whole number nearest to `n / d`; of two that are equally near, the
/// greater.
pub open spec fn nearest(n: int, d: int) -> int
    recommends
        d > 0,
{
    (2 * n + d) / (2 * d)
}

/// The percentage of its lifetime that a process has spent on a processor,
/// to the nearest whole percent, and zero where no time has passed since it
/// started.
pub open spec fn cpu_percent(
    user_ticks: u64,
    kernel_ticks: u64,
    start_ticks: u64,
    ticks_per_second: u32,
    uptime: Uptime,
) -> int {
    let elapsed = elapsed_units(start_ticks, ticks_per_second, uptime);
    if elapsed > 0 {
        nearest(busy_units(user_ticks, kernel_ticks), elapsed)
    } else {
        0
    }
}

/// Rounding a quotient to the nearest whole number goes by its remainder:
/// up where twice the remainder reaches the divisor.
pub proof fn lemma_nearest_by_remainder(n: int, d: int, q: int, r: int)
    requires
        d > 0,
        0 <= r < d,
        n == q * d + r,
    ensures
        nearest(n, d) == if 2 * r >= d {
            q + 1
        } else {
            q
        },
{
    if 2 * r >= d {
        assert(2 * n + d == (q + 1) * (2 * d) + (2 * r - d)) by (nonlinear_arith)
            requires
                n == q * d + r,
        ;
        lemma_fundamental_div_mod_converse(2 * n + d, 2 * d, q + 1, 2 * r - d);
    } else {
        assert(2 * n + d == q * (2 * d) + (2 * r + d)) by (nonlinear_arith)
            requires
                n == q * d + r,
        ;
        lemma_fundamental_div_mod_converse(2 * n + d, 2 * d, q, 2 * r + d);
    }
}

/// Where time has passed since the process started, the estimate is not
/// negative and lies within half a percent of a hundred times processor
/// time over elapsed time; where that ratio lies midway between two whole
/// numbers, it is the greater.
pub proof fn lemma_estimate_is_nearest_percent(
    user_ticks: u64,
    kernel_ticks: u64,
    start_ticks: u64,
    ticks_per_second: u32,
    uptime: Uptime,
)
    requires
        elapsed_units(start_ticks, ticks_per_second, uptime) > 0,
    ensures
        ({
            let p = cpu_percent(user_ticks, kernel_ticks, start_ticks, ticks_per_second, uptime);
            let busy = busy_units(user_ticks, kernel_ticks);
            let elapsed = elapsed_units(start_ticks, ticks_per_second, uptime);
            &&& p >= 0
            &&& 2 * busy - elapsed < 2 * elapsed * p <= 2 * busy + elapsed
        }),
{
    let busy = busy_units(user_ticks, kernel_ticks);
    let elapsed = elapsed_units(start_ticks, ticks_per_second, uptime);
    let p = nearest(busy, elapsed);
    let x = 2 * busy + elapsed;
    let d = 2 * elapsed;
    vstd::arithmetic::div_mod::lemma_fundamental_div_mod(x, d);
    vstd::arithmetic::div_mod::lemma_mod_bound(x, d);
    vstd::arithmetic::div_mod::lemma_div_pos_is_pos(x, d);
    assert(d * p == 2 * elapsed * p) by (nonlinear_arith)
        requires
            d == 2 * elapsed,
    ;
}

/// Estimates the percentage of its lifetime that a process has spent on a
/// processor.
pub fn estimate(
    user_ticks: u64,
    kernel_ticks: u64,
    start_ticks: u64,
    ticks_per_second: u32,
    uptime: Uptime,
) -> (r: u128)
    ensures
        r == cpu_percent(user_ticks, kernel_ticks, start_ticks, ticks_per_second, uptime),
        elapsed_units(start_ticks, ticks_per_second, uptime) <= 0 ==> r == 0,
{
    let nanos: u128 = (uptime.seconds as u128) * (NANOS_PER_SECOND as u128) + (uptime.nanos as u128);
    assert(nanos * ticks_per_second <= 0xFFFF_FFFF_FFFF_FFFF_FFFF_FFFF_FFFF_FFFF) by (nonlinear_arith)
        requires
            nanos <= 0xFFFF_FFFF_FFFF_FFFF * 1_000_000_000 + 0xFFFF_FFFF,
            ticks_per_second <= 0xFFFF_FFFF,
    ;
    let since_boot: u128 = nanos * (ticks_per_second as u128);
    let until_start: u128 = (start_ticks as u128) * (NANOS_PER_SECOND as u128);
    if since_boot <= until_start {
        return 0;
    }
    let elapsed: u128 = since_boot - until_start;
    let busy: u128 = ((user_ticks as u128) + (kernel_ticks as u128)) * 100_000_000_000;
    let q: u128 = busy / elapsed;
    let rest: u128 = busy % elapsed;
    proof {
        vstd::arithmetic::div_mod::lemma_fundamental_div_mod(busy as int, elapsed as int);
        assert(q * elapsed == elapsed * q) by (nonlinear_arith);
        lemma_nearest_by_remainder(busy as int, elapsed as int, q as int, rest as int);
        assert(q <= busy) by (nonlinear_arith)
            requires
                busy == q * elapsed + rest,
                elapsed >= 1,
                rest >= 0,
                q >= 0,
        ;
    }
    if rest >= elapsed - rest {
        q + 1
    } else {
        q
    }
}

/// `frac` with zeros after it, up to `width` characters.
pub open spec fn pad_right(frac: Seq<char>, width: nat) -> Seq<char> {
    frac + Seq::new((width - frac.len()) as nat, |i: int| '0')
}

/// The time that one word writes: whole seconds, which may be followed by
/// a point and up to nine digits of a second.
pub open spec fn uptime_of_word(word: Seq<char>) -> Option<Uptime> {
    match word.index_of_first('.') {
        None => match as_u64(word) {
            Some(seconds) => Some(Uptime { seconds, nanos: 0 }),
            None => None,
        },
        Some(point) => {
            let frac = word.skip(point + 1);
            match as_u64(word.take(point)) {
                Some(seconds) => if frac.len() <= NANO_DIGITS && all_digits(frac) {
                    Some(Uptime { seconds, nanos: decimal(pad_right(frac, NANO_DIGITS as nat)) as u32 })
                } else {
                    None
                },
                None => None,
            }
        },
    }
}

/// The time since boot that an `uptime` record reports: what its first
/// word writes.
pub open spec fn uptime_of(record: Seq<char>) -> Option<Uptime> {
    let w = words(record);
    if w.len() == 0 {
        None
    } else {
        uptime_of_word(w[0])
    }
}

/// Reads the time since boot from the system's `uptime` record.
pub fn parse_uptime(record: &str) -> (r: Option<Uptime>)
    ensures
        r == uptime_of(record@),
{
    let v = chars_of(record);
    let w = word_spans(&v, 0, v.len());
    assert(v@.subrange(0, v.len() as int) =~= v@);
    if w.len() == 0 {
        return None;
    }
    assert(w@[0].within(v@));
    assert(cut(v@, w@)[0] == w@[0].of(v@));
    let word = copy_span(&v, w[0]);
    let n = word.len();
    let point = match find_first(&word, '.') {
        Some(i) => i,
        None => {
            assert(word@.subrange(0, n as int) =~= word@);
            return match parse_unsigned(&word, 0, n, u64::MAX) {
                Some(seconds) => Some(Uptime { seconds, nanos: 0 }),
                None => None,
            };
        },
    };
    proof {
        word@.index_of_first_ensures('.');
    }
    let ghost frac = word@.skip(point + 1);
    assert(word@.subrange(0, point as int) =~= word@.take(point as int));
    let seconds = match parse_unsigned(&word, 0, point, u64::MAX) {
        Some(s) => s,
        None => {
            return None;
        },
    };
    if n - (point + 1) > NANO_DIGITS {
        return None;
    }
    let mut padded: Vec<char> = Vec::new();
    let mut i: usize = 0;
    while i < NANO_DIGITS
        invariant
            i <= NANO_DIGITS,
            point + 1 <= n == word.len(),
            n - (point + 1) <= NANO_DIGITS,
            frac == word@.skip(point + 1),
            padded@ == pad_right(frac, NANO_DIGITS as nat).take(i as int),
        decreases NANO_DIGITS - i,
    {
        let c: char = if i < n - (point + 1) {
            word[point + 1 + i]
        } else {
            '0'
        };
        padded.push(c);
        assert(padded@ =~= pad_right(frac, NANO_DIGITS as nat).take(i + 1));
        i += 1;
    }
    let ghost full = pad_right(frac, NANO_DIGITS as nat);
    assert(padded@.subrange(0, NANO_DIGITS as int) =~= full);
    proof {
        if all_digits(frac) {
            assert forall|k: int| 0 <= k < full.len() implies is_digit(#[trigger] full[k]) by {
                if k < frac.len() {
                    assert(full[k] == frac[k]);
                }
            }
            lemma_decimal_bound(full);
            reveal_with_fuel(pow10, 10);
        } else {
            let k = choose|k: int| 0 <= k < frac.len() && !is_digit(#[trigger] frac[k]);
            assert(full[k] == frac[k]);
        }
    }
    match parse_digits(&padded, 0, NANO_DIGITS, 999_999_999) {
        Some(nanos) => Some(Uptime { seconds, nanos: nanos as u32 }),
        None => None,
    }
}

} // verus!
