//! Reading what ffmpeg prints while it runs: progress lines on standard
//! output and the tail of its error output.

use vstd::prelude::*;
use crate::filters::views;
use crate::text::{
    owned, chars_of, decimal, parse_reading, push_chars, push_decimal, push_str, reading_text,
    starts_with, starts_with_exec, string_from_chars, slice_chars, trim_chars, trimmed, Reading,
    lemma_decimal_is_digits, lemma_digits_trimmed, lemma_reading_of_digits, saturate_u64,
};

verus! {

/// The value of a progress line that reports the output time
/// (`out_time_us=` or `out_time_ms=`, both in microseconds).
pub open spec fn progress_value(line: Seq<char>) -> Option<Seq<char>> {
    if starts_with(line, "out_time_us="@) || starts_with(line, "out_time_ms="@) {
        Some(line.skip(12))
    } else {
        None
    }
}

/// The share of `duration_us` that a progress line reports done, in
/// millionths between 0 and 1000000: the value read as `f64::from_str`
/// reads it, negative values counting as nothing done and values past the
/// duration as all of it. `None` for other lines, unreadable values, a
/// value that is not a number, and a zero duration.
pub open spec fn progress_ppm(line: Seq<char>, duration_us: u64) -> Option<u64> {
    match progress_value(line) {
        None => None,
        Some(v) => match reading_text(trimmed(v)) {
            None => None,
            Some(t) => if duration_us == 0 {
                None
            } else {
                match t {
                    Reading::Finite { negative, micros } => if negative {
                        Some(0)
                    } else if micros as nat / duration_us as nat > 1_000_000 {
                        Some(1_000_000)
                    } else {
                        Some((micros as nat / duration_us as nat) as u64)
                    },
                    Reading::Infinite { negative } => Some(
                        if negative {
                            0
                        } else {
                            1_000_000
                        },
                    ),
                    Reading::NotANumber => None,
                }
            },
        },
    }
}

/// Reads a line of ffmpeg's `-progress` output.
pub fn progress_from_line(line: &str, duration_us: u64) -> (r: Option<u64>)
    ensures
        r == progress_ppm(line@, duration_us),
{
    let c = chars_of(line);
    let known = starts_with_exec(&c, "out_time_us=") || starts_with_exec(&c, "out_time_ms=");
    if !known {
        return None;
    }
    proof {
        reveal_strlit("out_time_us=");
        reveal_strlit("out_time_ms=");
    }
    let v = slice_chars(&c, 12, c.len());
    assert(v@ =~= line@.skip(12));
    let t = trim_chars(&v);
    match parse_reading(&t) {
        None => None,
        Some(d) => {
            if duration_us == 0 {
                None
            } else {
                match d {
                    Reading::Finite { negative, micros } => if negative {
                        Some(0)
                    } else if micros / duration_us > 1_000_000 {
                        Some(1_000_000)
                    } else {
                        Some(micros / duration_us)
                    },
                    Reading::Infinite { negative } => Some(
                        if negative {
                            0
                        } else {
                            1_000_000
                        },
                    ),
                    Reading::NotANumber => None,
                }
            }
        },
    }
}

/// How many lines of error output are kept.
pub open spec fn tail_limit() -> nat {
    30
}

/// The last `n` lines of `all`.
pub open spec fn last_lines(all: Seq<Seq<char>>, n: nat) -> Seq<Seq<char>> {
    if all.len() <= n {
        all
    } else {
        all.skip(all.len() - n)
    }
}

/// Adds a line of error output, dropping the oldest once thirty are kept.
pub fn push_tail(tail: &mut Vec<String>, line: String)
    requires
        old(tail)@.len() <= tail_limit(),
    ensures
        final(tail)@.len() <= tail_limit(),
        views(final(tail)@) == if old(tail)@.len() >= tail_limit() {
            views(old(tail)@).drop_first().push(line@)
        } else {
            views(old(tail)@).push(line@)
        },
{
    let ghost start = views(tail@);
    if tail.len() >= 30 {
        tail.remove(0);
        assert(views(tail@) =~= start.drop_first());
    }
    let ghost mid = views(tail@);
    tail.push(line);
    assert(views(tail@) =~= mid.push(line@));
}

/// The tail kept after any number of lines is the last thirty of them.
pub proof fn tail_keeps_last_lines(all: Seq<Seq<char>>, line: Seq<char>)
    ensures
        last_lines(all.push(line), tail_limit()) == if last_lines(all, tail_limit()).len()
            >= tail_limit() {
            last_lines(all, tail_limit()).drop_first().push(line)
        } else {
            last_lines(all, tail_limit()).push(line)
        },
{
    let n = tail_limit();
    if all.len() < n {
    } else {
        assert(last_lines(all.push(line), n) =~= last_lines(all, n).drop_first().push(line));
    }
}

/// Lines joined with newlines.
pub open spec fn join_lines(lines: Seq<Seq<char>>) -> Seq<char>
    decreases lines.len(),
{
    if lines.len() == 0 {
        Seq::empty()
    } else if lines.len() == 1 {
        lines[0]
    } else {
        join_lines(lines.drop_last()) + seq!['\n'] + lines.last()
    }
}

/// Joins lines with newlines.
pub fn join_tail(lines: &Vec<String>) -> (r: Vec<char>)
    ensures
        r@ == join_lines(views(lines@)),
{
    let ghost v = views(lines@);
    let mut r: Vec<char> = Vec::new();
    let mut i: usize = 0;
    while i < lines.len()
        invariant
            i <= lines.len(),
            v == views(lines@),
            r@ == join_lines(v.take(i as int)),
        decreases lines.len() - i,
    {
        let ghost before = r@;
        if i > 0 {
            r.push('\n');
        }
        let c = chars_of(lines[i].as_str());
        push_chars(&mut r, &c);
        proof {
            let t = v.take(i + 1);
            assert(t.drop_last() =~= v.take(i as int));
            assert(t.last() == lines@[i as int]@);
            if i == 0 {
                assert(r@ =~= join_lines(t));
            } else {
                assert(r@ =~= join_lines(t.drop_last()) + seq!['\n'] + t.last());
            }
        }
        i = i + 1;
    }
    assert(v.take(lines.len() as int) =~= v);
    r
}

/// The last `n` characters of `s`.
pub open spec fn last_chars(s: Seq<char>, n: nat) -> Seq<char> {
    if s.len() <= n {
        s
    } else {
        s.skip(s.len() - n)
    }
}

/// How `Option<i32>` is written by `{:?}`.
pub open spec fn debug_code(code: Option<i32>) -> Seq<char> {
    match code {
        Some(c) => "Some("@ + (if c < 0 {
            seq!['-'] + decimal((-c) as nat)
        } else {
            decimal(c as nat)
        }) + ")"@,
        None => "None"@,
    }
}

/// The error reported for a failed ffmpeg run: the last 1500 characters of
/// the collected error lines, or the exit code when they are empty.
pub open spec fn failure_text(tail: Seq<char>, code: Option<i32>) -> Seq<char> {
    if last_chars(tail, 1500).len() == 0 {
        "ffmpeg завершился с кодом "@ + debug_code(code)
    } else {
        last_chars(tail, 1500)
    }
}

/// Builds the error message of a failed run from its error lines and exit
/// code.
pub fn failure_message(lines: &Vec<String>, code: Option<i32>) -> (r: String)
    ensures
        r@ == failure_text(join_lines(views(lines@)), code),
{
    let joined = join_tail(lines);
    if joined.len() == 0 {
        let mut v = chars_of("ffmpeg завершился с кодом ");
        let ghost h = v@;
        match code {
            Some(c) => {
                push_str(&mut v, "Some(");
                if c < 0 {
                    v.push('-');
                    push_decimal(&mut v, (-(c as i64)) as u128);
                } else {
                    push_decimal(&mut v, c as u128);
                }
                push_str(&mut v, ")");
            },
            None => {
                push_str(&mut v, "None");
            },
        }
        assert(v@ =~= h + debug_code(code));
        return string_from_chars(&v);
    }
    let from: usize = if joined.len() <= 1500 { 0 } else { joined.len() - 1500 };
    let t = slice_chars(&joined, from, joined.len());
    assert(t@ =~= last_chars(joined@, 1500));
    string_from_chars(&t)
}


/// The message of a run stopped by a cancel.
pub fn cancelled_error() -> (r: String)
    ensures
        r@ == "Отменено"@,
{
    owned("Отменено")
}

/// The error of a failed encoder run: the cancel message when the job was
/// cancelled (the kill is what made the run fail), otherwise the run's own
/// error.
pub fn encoder_error(err: String, cancelled: bool) -> (r: String)
    ensures
        r@ == (if cancelled {
            "Отменено"@
        } else {
            err@
        }),
{
    if cancelled {
        cancelled_error()
    } else {
        err
    }
}

/// `out_time_ms` carries microseconds, as `out_time_us` does: both
/// report the same progress for every value and duration.
pub proof fn progress_units_agree(v: Seq<char>, duration_us: u64)
    ensures
        progress_ppm("out_time_ms="@ + v, duration_us) == progress_ppm("out_time_us="@ + v, duration_us),
{
    reveal_strlit("out_time_ms=");
    reveal_strlit("out_time_us=");
    let a = "out_time_ms="@ + v;
    let b = "out_time_us="@ + v;
    assert(a.take(12) =~= "out_time_ms="@);
    assert(b.take(12) =~= "out_time_us="@);
    assert(a.skip(12) =~= v);
    assert(b.skip(12) =~= v);
}

/// A progress line reporting `t` microseconds of a run of `duration_us`
/// microseconds reports `t / duration_us` of it done, in millionths, and
/// never more than all of it.
pub proof fn progress_is_time_over_duration(t: u64, duration_us: u64)
    requires
        duration_us > 0,
    ensures
        ({
            let micros = saturate_u64(t as nat * 1_000_000);
            let share: u64 = if micros as nat / duration_us as nat > 1_000_000 {
                1_000_000
            } else {
                (micros as nat / duration_us as nat) as u64
            };
            &&& progress_ppm("out_time_us="@ + decimal(t as nat), duration_us) == Some(share)
            &&& progress_ppm("out_time_ms="@ + decimal(t as nat), duration_us) == Some(share)
        }),
{
    let v = decimal(t as nat);
    lemma_decimal_is_digits(t as nat);
    lemma_digits_trimmed(v);
    lemma_reading_of_digits(v);
    progress_units_agree(v, duration_us);
    reveal_strlit("out_time_us=");
    let b = "out_time_us="@ + v;
    assert(b.take(12) =~= "out_time_us="@);
    assert(b.skip(12) =~= v);
}

/// Reported progress always lies between nothing and all of the duration.
pub proof fn progress_within_bounds(line: Seq<char>, duration_us: u64)
    ensures
        progress_ppm(line, duration_us) matches Some(v) ==> v <= 1_000_000,
{
}

} // verus!
