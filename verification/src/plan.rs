//! The encoder loops as state machines. The caller runs ffmpeg, measures
//! the file and probes its duration; the plans decide what to try next.

use vstd::prelude::*;
use crate::params::{valid_params, validate, validation_error, ConvertParams};
use crate::text::{same_text, Reading};

verus! {

/// Longest sticker, in microseconds.
pub open spec fn max_duration_us() -> nat {
    3_000_000
}

/// A measured duration above this (microseconds) counts as too long; the
/// margin absorbs container rounding.
pub open spec fn duration_tolerance_us() -> nat {
    3_005_000
}

/// Attempts after which a video that still does not fit is given up.
pub open spec fn max_attempts() -> nat {
    8
}

/// Bytes kept free for the container when budgeting the bitrate.
pub open spec fn container_reserve() -> nat {
    2048
}

/// The starting bitrate (kbit/s) that spends `target` bytes over `dur_us`
/// microseconds with an eight percent margin, kept within 40..4000.
pub open spec fn init_bitrate(target: nat, dur_us: nat) -> nat
    recommends
        dur_us > 0,
{
    let b = target * 7360 / dur_us;
    if b < 40 {
        40
    } else if b > 4000 {
        4000
    } else {
        b
    }
}

/// The bitrate after a miss: scaled by the ratio of the target to the size
/// reached, with a seven percent margin, and at least 40.
pub open spec fn shrunk_bitrate(bitrate: nat, target: nat, size: nat) -> nat
    recommends
        size > 0,
{
    let b = bitrate * target * 93 / (100 * size);
    if b < 40 {
        40
    } else {
        b
    }
}

/// A measured duration is longer than the tolerance: a positive finite
/// value above it, or positive infinity.
pub open spec fn too_long(m: Reading) -> bool {
    match m {
        Reading::Finite { negative, micros } => !negative && micros > duration_tolerance_us(),
        Reading::Infinite { negative } => !negative,
        Reading::NotANumber => false,
    }
}

/// The duration reported for a file that fits: the measured one when it
/// is a number that is not negative (`u64::MAX` for an infinite one),
/// otherwise the planned one.
pub open spec fn reported_duration(measured: Option<Reading>, planned: u64) -> u64 {
    match measured {
        Some(Reading::Finite { negative, micros }) => if negative {
            planned
        } else {
            micros
        },
        Some(Reading::Infinite { negative }) => if negative {
            planned
        } else {
            u64::MAX
        },
        _ => planned,
    }
}

/// The segment read on the retry after a too long measurement: shortened
/// in proportion so that the output lands at 2.98 s, and at least 100 ms
/// (an infinite measurement leaves nothing but the minimum).
pub open spec fn shortened_in(in_us: u64, m: Reading) -> nat {
    let s: nat = match m {
        Reading::Finite { micros, .. } => (in_us * 2_980_000) as nat / micros as nat,
        _ => 0,
    };
    if s < 100_000 {
        100_000
    } else {
        s
    }
}

/// The limits every finished video keeps: at most eight attempts; a file
/// is reported as fitting exactly when it is within the size limit; one
/// that is not was made by the eighth attempt and is reported with its
/// planned duration of at most three seconds.
pub open spec fn outcome_within_limits(o: ConvertOutcome, max_bytes: u64) -> bool {
    &&& 1 <= o.attempts <= max_attempts()
    &&& (o.fits <==> o.out_size <= max_bytes)
    &&& (!o.fits ==> o.attempts == max_attempts() && o.duration_us <= max_duration_us())
}

/// The frame rates to fall back through: the base rate, then those of 24,
/// 20 and 15 frames per second that do not exceed it by more than a
/// thousandth. Rates are frames per second times a million.
pub open spec fn fps_ladder(base: u64) -> Seq<u64> {
    seq![base] + (if 24_000_000 <= base + 1000 {
        seq![24_000_000u64]
    } else {
        Seq::empty()
    }) + (if 20_000_000 <= base + 1000 {
        seq![20_000_000u64]
    } else {
        Seq::empty()
    }) + (if 15_000_000 <= base + 1000 {
        seq![15_000_000u64]
    } else {
        Seq::empty()
    })
}

/// The frame rate of the source, or the limit when the source reports none,
/// capped by the limit.
pub open spec fn base_fps(p: ConvertParams) -> u64 {
    let src = if p.input_fps_micro > 0 {
        p.input_fps_micro
    } else {
        p.fps_limit_micro
    };
    if src < p.fps_limit_micro {
        src
    } else {
        p.fps_limit_micro
    }
}

/// The chosen segment, at least 50 ms long.
pub open spec fn segment_us(p: ConvertParams) -> nat {
    if p.trim_end_us - p.trim_start_us < 50_000 {
        50_000
    } else {
        (p.trim_end_us - p.trim_start_us) as nat
    }
}

/// One encoding attempt: its number (from 1), the frame rate, how much of
/// the input is read, how long the output is, and the bitrate.
#[derive(Clone, Copy, Debug, PartialEq, Eq, Structural)]
pub struct Attempt {
    pub number: u32,
    pub fps_micro: u64,
    pub in_us: u64,
    pub out_us: u64,
    pub bitrate: u32,
}

/// How a conversion ended. For stills, duration, bitrate and frame rate are
/// zero.
#[derive(Clone, Copy, Debug, PartialEq, Eq, Structural)]
pub struct ConvertOutcome {
    pub out_size: u64,
    pub fits: bool,
    pub duration_us: u64,
    pub attempts: u32,
    pub bitrate_kbps: u32,
    pub fps_micro: u64,
}

/// What the caller does next for a video.
#[derive(Clone, Copy, Debug, PartialEq, Eq, Structural)]
pub enum VideoAction {
    /// Run both passes of this attempt, then report the file size.
    Encode(Attempt),
    /// The file fits; probe its measured duration and report it.
    Measure,
    /// Done.
    Finish(ConvertOutcome),
}

/// Which report the plan waits for.
#[derive(Clone, Copy, Debug, PartialEq, Eq, Structural)]
pub enum VideoPhase {
    Encoding,
    Measuring,
    Finished,
}

/// The state of the two-pass size-fitting loop for videos and animations.
#[derive(Clone, Debug)]
pub struct VideoPlan {
    pub speed: bool,
    pub max_bytes: u64,
    pub target_bytes: u64,
    pub in_us: u64,
    pub out_us: u64,
    pub ladder: Vec<u64>,
    pub fps_idx: usize,
    pub bitrate: u32,
    pub attempts: u32,
    pub duration_retried: bool,
    pub last_size: u64,
    pub phase: VideoPhase,
}

impl VideoPlan {
    /// The invariant that every plan keeps.
    pub open spec fn wf(&self) -> bool {
        &&& 16 * 1024 <= self.max_bytes <= 4096 * 1024
        &&& self.target_bytes == self.max_bytes - container_reserve()
        &&& self.ladder@.len() >= 1
        &&& self.ladder@ == fps_ladder(self.ladder@[0])
        &&& self.fps_idx < self.ladder@.len()
        &&& 40 <= self.bitrate <= 4000
        &&& 1 <= self.attempts
        &&& self.attempts <= max_attempts()
        &&& 50_000 <= self.in_us <= 100_000_000_000
        &&& 0 < self.out_us <= max_duration_us()
        &&& (self.speed ==> self.out_us == max_duration_us())
        &&& (!self.speed ==> self.out_us == self.in_us)
        &&& (self.phase == VideoPhase::Measuring ==> self.last_size <= self.max_bytes)
    }

    /// The attempt the plan is at.
    pub open spec fn current(&self) -> Attempt {
        Attempt {
            number: self.attempts,
            fps_micro: self.ladder@[self.fps_idx as int],
            in_us: self.in_us,
            out_us: self.out_us,
            bitrate: self.bitrate,
        }
    }

    /// Starts the loop for `p`: the first attempt reads the segment (or all
    /// of it re-timed to three seconds when `speed` is set) at the base
    /// frame rate and the bitrate that spends the budget over the output.
    pub fn new(p: &ConvertParams) -> (r: (VideoPlan, Attempt))
        requires
            valid_params(*p),
        ensures
            r.0.wf(),
            r.0.speed == p.speed,
            r.0.max_bytes == p.max_kb * 1024,
            r.0.in_us == (if p.speed {
                segment_us(*p)
            } else if segment_us(*p) < max_duration_us() {
                segment_us(*p)
            } else {
                max_duration_us()
            }),
            r.0.ladder@ == fps_ladder(base_fps(*p)),
            r.1.fps_micro == (if 0 < p.input_fps_micro && p.input_fps_micro < p.fps_limit_micro {
                p.input_fps_micro
            } else {
                p.fps_limit_micro
            }),
            forall|i: int| 0 <= i < r.0.ladder@.len() ==> #[trigger] r.0.ladder@[i] <= p.fps_limit_micro
                + 1000,
            r.0.fps_idx == 0,
            r.0.bitrate == init_bitrate(r.0.target_bytes as nat, r.0.out_us as nat),
            r.0.attempts == 1,
            !r.0.duration_retried,
            r.0.phase == VideoPhase::Encoding,
            r.1 == r.0.current(),
    {
        let max_bytes = p.max_kb * 1024;
        let target = max_bytes - 2048;
        let seg: u64 = if p.trim_end_us - p.trim_start_us < 50_000 {
            50_000
        } else {
            p.trim_end_us - p.trim_start_us
        };
        let (in_us, out_us): (u64, u64) = if p.speed {
            (seg, 3_000_000)
        } else {
            let d: u64 = if seg < 3_000_000 { seg } else { 3_000_000 };
            (d, d)
        };
        let src = if p.input_fps_micro > 0 { p.input_fps_micro } else { p.fps_limit_micro };
        let base = if src < p.fps_limit_micro { src } else { p.fps_limit_micro };
        let ladder = make_ladder(base);
        let bitrate = init_bitrate_exec(target, out_us);
        let plan = VideoPlan {
            speed: p.speed,
            max_bytes,
            target_bytes: target,
            in_us,
            out_us,
            ladder,
            fps_idx: 0,
            bitrate,
            attempts: 1,
            duration_retried: false,
            last_size: 0,
            phase: VideoPhase::Encoding,
        };
        let first = Attempt {
            number: 1,
            fps_micro: plan.ladder[0],
            in_us,
            out_us,
            bitrate,
        };
        (plan, first)
    }

    /// Takes the size of the file the current attempt produced.
    ///
    /// A file within the limit is measured next. A larger one ends the loop
    /// after the eighth attempt; before that the bitrate shrinks in
    /// proportion to the overshoot, and once it falls under 150 kbit/s the
    /// next lower frame rate is taken with a fresh bitrate.
    pub fn after_encode(&mut self, size: u64) -> (a: VideoAction)
        requires
            old(self).wf(),
            old(self).phase == VideoPhase::Encoding,
        ensures
            final(self).wf(),
            final(self).speed == old(self).speed,
            final(self).max_bytes == old(self).max_bytes,
            final(self).target_bytes == old(self).target_bytes,
            final(self).in_us == old(self).in_us,
            final(self).out_us == old(self).out_us,
            final(self).ladder@ == old(self).ladder@,
            final(self).duration_retried == old(self).duration_retried,
            a matches VideoAction::Finish(o) ==> outcome_within_limits(o, old(self).max_bytes),
            size <= old(self).max_bytes ==> {
                &&& a == VideoAction::Measure
                &&& final(self).phase == VideoPhase::Measuring
                &&& final(self).last_size == size
                &&& final(self).current() == old(self).current()
            },
            size > old(self).max_bytes && old(self).attempts >= max_attempts() ==> {
                &&& a == VideoAction::Finish(
                    ConvertOutcome {
                        out_size: size,
                        fits: false,
                        duration_us: old(self).out_us,
                        attempts: old(self).attempts,
                        bitrate_kbps: old(self).bitrate,
                        fps_micro: old(self).current().fps_micro,
                    },
                )
                &&& final(self).phase == VideoPhase::Finished
                &&& final(self).current() == old(self).current()
            },
            size > old(self).max_bytes && old(self).attempts < max_attempts() ==> {
                let b = shrunk_bitrate(
                    old(self).bitrate as nat,
                    old(self).target_bytes as nat,
                    size as nat,
                );
                let step_down = b < 150 && old(self).fps_idx + 1 < old(self).ladder@.len();
                &&& final(self).fps_idx == (if step_down {
                    old(self).fps_idx + 1
                } else {
                    old(self).fps_idx as int
                })
                &&& final(self).bitrate == (if step_down {
                    init_bitrate(old(self).target_bytes as nat, old(self).out_us as nat)
                } else {
                    b
                })
                &&& final(self).attempts == old(self).attempts + 1
                &&& final(self).phase == VideoPhase::Encoding
                &&& a == VideoAction::Encode(final(self).current())
            },
    {
        if size <= self.max_bytes {
            self.phase = VideoPhase::Measuring;
            self.last_size = size;
            return VideoAction::Measure;
        }
        if self.attempts >= 8 {
            self.phase = VideoPhase::Finished;
            return VideoAction::Finish(
                ConvertOutcome {
                    out_size: size,
                    fits: false,
                    duration_us: self.out_us,
                    attempts: self.attempts,
                    bitrate_kbps: self.bitrate,
                    fps_micro: self.ladder[self.fps_idx],
                },
            );
        }
        let b = shrink_bitrate_exec(self.bitrate, self.target_bytes, size);
        if b < 150 && self.fps_idx + 1 < self.ladder.len() {
            self.fps_idx = self.fps_idx + 1;
            self.bitrate = init_bitrate_exec(self.target_bytes, self.out_us);
        } else {
            self.bitrate = b;
        }
        self.attempts = self.attempts + 1;
        VideoAction::Encode(
            Attempt {
                number: self.attempts,
                fps_micro: self.ladder[self.fps_idx],
                in_us: self.in_us,
                out_us: self.out_us,
                bitrate: self.bitrate,
            },
        )
    }

    /// Takes the measured duration of a file that fits (`None` when it
    /// could not be measured, which counts as the planned duration).
    ///
    /// A file longer than the tolerance is encoded once more from a segment
    /// shortened in proportion (at least 100 ms), as long as the correction
    /// has not been made yet and fewer than eight attempts were made.
    /// Otherwise the conversion ends with the file, which fits the size
    /// limit, and its measured duration.
    pub fn after_measure(&mut self, measured: Option<Reading>) -> (a: VideoAction)
        requires
            old(self).wf(),
            old(self).phase == VideoPhase::Measuring,
        ensures
            final(self).wf(),
            final(self).speed == old(self).speed,
            final(self).max_bytes == old(self).max_bytes,
            final(self).target_bytes == old(self).target_bytes,
            final(self).ladder@ == old(self).ladder@,
            final(self).fps_idx == old(self).fps_idx,
            final(self).bitrate == old(self).bitrate,
            a matches VideoAction::Finish(o) ==> outcome_within_limits(o, old(self).max_bytes),
            ({
                let long = measured is Some && too_long(measured->0);
                if long && !old(self).duration_retried && old(self).attempts < max_attempts() {
                    let new_in = shortened_in(old(self).in_us, measured->0);
                    &&& final(self).in_us == new_in
                    &&& final(self).out_us == (if old(self).speed {
                        old(self).out_us as nat
                    } else {
                        new_in
                    })
                    &&& final(self).duration_retried
                    &&& final(self).attempts == old(self).attempts + 1
                    &&& final(self).phase == VideoPhase::Encoding
                    &&& a == VideoAction::Encode(final(self).current())
                } else {
                    &&& final(self).phase == VideoPhase::Finished
                    &&& final(self).in_us == old(self).in_us
                    &&& final(self).out_us == old(self).out_us
                    &&& final(self).attempts == old(self).attempts
                    &&& final(self).duration_retried == old(self).duration_retried
                    &&& a == VideoAction::Finish(
                        ConvertOutcome {
                            out_size: old(self).last_size,
                            fits: true,
                            duration_us: reported_duration(measured, old(self).out_us),
                            attempts: old(self).attempts,
                            bitrate_kbps: old(self).bitrate,
                            fps_micro: old(self).current().fps_micro,
                        },
                    )
                }
            }),
    {
        let long = match measured {
            Some(Reading::Finite { negative, micros }) => !negative && micros > 3_005_000,
            Some(Reading::Infinite { negative }) => !negative,
            _ => false,
        };
        if long && !self.duration_retried && self.attempts < 8 {
            self.duration_retried = true;
            let ghost old_in = self.in_us as int;
            let shortened: u128 = match measured {
                Some(Reading::Finite { micros, .. }) => {
                    let q: u128 = self.in_us as u128 * 2_980_000 / micros as u128;
                    proof {
                        let m = micros as int;
                        assert(q <= old_in) by (nonlinear_arith)
                            requires
                                q == (old_in * 2_980_000) / m,
                                m > 3_005_000,
                                old_in >= 0,
                        ;
                    }
                    q
                },
                _ => 0,
            };
            let new_in: u64 = if shortened < 100_000 {
                100_000
            } else {
                shortened as u64
            };
            proof {
                assert(new_in == shortened_in(old_in as u64, measured->0));
            }
            self.in_us = new_in;
            if !self.speed {
                self.out_us = new_in;
            }
            self.attempts = self.attempts + 1;
            self.phase = VideoPhase::Encoding;
            return VideoAction::Encode(
                Attempt {
                    number: self.attempts,
                    fps_micro: self.ladder[self.fps_idx],
                    in_us: self.in_us,
                    out_us: self.out_us,
                    bitrate: self.bitrate,
                },
            );
        }
        let duration: u64 = match measured {
            Some(Reading::Finite { negative, micros }) => if negative {
                self.out_us
            } else {
                micros
            },
            Some(Reading::Infinite { negative }) => if negative {
                self.out_us
            } else {
                u64::MAX
            },
            _ => self.out_us,
        };
        self.phase = VideoPhase::Finished;
        VideoAction::Finish(
            ConvertOutcome {
                out_size: self.last_size,
                fits: true,
                duration_us: duration,
                attempts: self.attempts,
                bitrate_kbps: self.bitrate,
                fps_micro: self.ladder[self.fps_idx],
            },
        )
    }
}

/// Builds the frame-rate ladder for the base rate.
fn make_ladder(base: u64) -> (r: Vec<u64>)
    requires
        base <= 100_000_000_000,
    ensures
        r@ == fps_ladder(base),
{
    let mut v: Vec<u64> = Vec::new();
    v.push(base);
    if 24_000_000 <= base + 1000 {
        v.push(24_000_000);
    }
    if 20_000_000 <= base + 1000 {
        v.push(20_000_000);
    }
    if 15_000_000 <= base + 1000 {
        v.push(15_000_000);
    }
    assert(v@ =~= fps_ladder(base));
    v
}

/// Computes `init_bitrate`.
fn init_bitrate_exec(target: u64, dur_us: u64) -> (r: u32)
    requires
        dur_us > 0,
        target <= 4096 * 1024,
    ensures
        r == init_bitrate(target as nat, dur_us as nat),
        40 <= r <= 4000,
{
    let b: u64 = target * 7360 / dur_us;
    if b < 40 {
        40
    } else if b > 4000 {
        4000
    } else {
        b as u32
    }
}

/// Computes `shrunk_bitrate` for a file larger than the budget.
fn shrink_bitrate_exec(bitrate: u32, target: u64, size: u64) -> (r: u32)
    requires
        40 <= bitrate <= 4000,
        target < size,
        target <= 4096 * 1024,
    ensures
        r == shrunk_bitrate(bitrate as nat, target as nat, size as nat),
        40 <= r <= bitrate,
{
    proof {
        assert(bitrate as nat * target as nat <= 4000 * 4194304) by (nonlinear_arith)
            requires
                bitrate <= 4000,
                target <= 4194304,
        ;
    }
    let num: u128 = bitrate as u128 * target as u128 * 93;
    let den: u128 = 100 * size as u128;
    let b: u128 = num / den;
    proof {
        assert(num <= bitrate as nat * den) by (nonlinear_arith)
            requires
                num == bitrate * target * 93,
                den == 100 * size,
                target < size,
        ;
        assert(b <= bitrate as nat) by (nonlinear_arith)
            requires
                b == num / den,
                num <= bitrate as nat * den,
                den > 0,
        ;
    }
    if b < 40 {
        40
    } else {
        b as u32
    }
}


/// The quality levels tried for a still image, best first.
pub open spec fn crf_ladder() -> Seq<u32> {
    seq![30u32, 40, 50, 63]
}

/// What the caller does next for a still image.
#[derive(Clone, Copy, Debug, PartialEq, Eq, Structural)]
pub enum ImageAction {
    /// Encode the single frame at this quality, then report the file size.
    Encode(u32),
    Finish(ConvertOutcome),
}

/// The state of the quality ladder for a still image.
#[derive(Clone, Copy, Debug)]
pub struct ImagePlan {
    pub max_bytes: u64,
    pub attempts: u32,
    pub finished: bool,
}

impl ImagePlan {
    pub open spec fn wf(&self) -> bool {
        1 <= self.attempts <= crf_ladder().len()
    }

    /// The quality of the current attempt.
    pub open spec fn current_crf(&self) -> u32 {
        crf_ladder()[self.attempts - 1]
    }

    /// Starts at the best quality.
    pub fn new(p: &ConvertParams) -> (r: (ImagePlan, u32))
        requires
            valid_params(*p),
        ensures
            r.0.wf(),
            r.0.max_bytes == p.max_kb * 1024,
            r.0.attempts == 1,
            !r.0.finished,
            r.1 == r.0.current_crf(),
            r.1 == 30,
    {
        (ImagePlan { max_bytes: p.max_kb * 1024, attempts: 1, finished: false }, 30)
    }

    /// Takes the size of the file the current attempt produced: it is kept
    /// when it fits or when the lowest quality has been tried; otherwise the
    /// next lower quality is tried.
    pub fn after_encode(&mut self, size: u64) -> (a: ImageAction)
        requires
            old(self).wf(),
            !old(self).finished,
        ensures
            final(self).wf(),
            final(self).max_bytes == old(self).max_bytes,
            if size <= old(self).max_bytes || old(self).attempts == crf_ladder().len() {
                &&& final(self).finished
                &&& final(self).attempts == old(self).attempts
                &&& a == ImageAction::Finish(
                    ConvertOutcome {
                        out_size: size,
                        fits: size <= old(self).max_bytes,
                        duration_us: 0,
                        attempts: old(self).attempts,
                        bitrate_kbps: 0,
                        fps_micro: 0,
                    },
                )
            } else {
                &&& !final(self).finished
                &&& final(self).attempts == old(self).attempts + 1
                &&& a == ImageAction::Encode(final(self).current_crf())
            },
    {
        if size <= self.max_bytes || self.attempts == 4 {
            self.finished = true;
            return ImageAction::Finish(
                ConvertOutcome {
                    out_size: size,
                    fits: size <= self.max_bytes,
                    duration_us: 0,
                    attempts: self.attempts,
                    bitrate_kbps: 0,
                    fps_micro: 0,
                },
            );
        }
        self.attempts = self.attempts + 1;
        let crf: u32 = if self.attempts == 2 {
            40
        } else if self.attempts == 3 {
            50
        } else {
            63
        };
        ImageAction::Encode(crf)
    }
}

/// The loop a conversion runs, with its first step.
#[derive(Clone, Debug)]
pub enum Conversion {
    Still(ImagePlan, u32),
    Motion(VideoPlan, Attempt),
}

/// Validates the parameters and starts the loop that fits their kind:
/// the quality ladder for `"image"`, the bitrate loop for anything else.
pub fn plan_conversion(p: &ConvertParams) -> (r: Result<Conversion, String>)
    ensures
        match r {
            Err(e) => validation_error(*p) == Some(e@),
            Ok(c) => {
                &&& validation_error(*p) is None
                &&& (p.kind@ == "image"@ <==> c is Still)
                &&& match c {
                    Conversion::Still(plan, crf) => plan.wf() && plan.attempts == 1 && !plan.finished
                        && plan.max_bytes == p.max_kb * 1024 && crf == 30,
                    Conversion::Motion(plan, first) => {
                        &&& plan.wf()
                        &&& plan.attempts == 1
                        &&& plan.phase == VideoPhase::Encoding
                        &&& first == plan.current()
                        &&& plan.speed == p.speed
                        &&& plan.max_bytes == p.max_kb * 1024
                        &&& plan.target_bytes == plan.max_bytes - container_reserve()
                        &&& plan.in_us == (if p.speed {
                            segment_us(*p)
                        } else if segment_us(*p) < max_duration_us() {
                            segment_us(*p)
                        } else {
                            max_duration_us()
                        })
                        &&& plan.out_us == (if p.speed {
                            max_duration_us()
                        } else {
                            plan.in_us as nat
                        })
                        &&& plan.bitrate == init_bitrate(plan.target_bytes as nat, plan.out_us as nat)
                        &&& !plan.duration_retried
                        &&& plan.ladder@ == fps_ladder(base_fps(*p))
                        &&& plan.fps_idx == 0
                    },
                }
            },
        },
{
    match validate(p) {
        Err(e) => Err(e),
        Ok(()) => {
            if same_text(&p.kind, "image") {
                let (plan, crf) = ImagePlan::new(p);
                Ok(Conversion::Still(plan, crf))
            } else {
                let (plan, first) = VideoPlan::new(p);
                Ok(Conversion::Motion(plan, first))
            }
        },
    }
}

/// Every plan that keeps its invariant has made at most eight attempts,
/// the single duration correction included.
pub proof fn video_attempts_bounded(plan: VideoPlan)
    requires
        plan.wf(),
    ensures
        1 <= plan.attempts <= max_attempts(),
{
}

/// After a miss the bitrate never rises: the shrunk bitrate is at most the
/// old one, and it is exactly the floor of 40 or the proportional value.
pub proof fn shrunk_bitrate_not_above(bitrate: nat, target: nat, size: nat)
    requires
        40 <= bitrate,
        target < size,
    ensures
        40 <= shrunk_bitrate(bitrate, target, size) <= bitrate,
{
    let b = bitrate * target * 93 / (100 * size);
    assert(b <= bitrate) by (nonlinear_arith)
        requires
            b == bitrate * target * 93 / (100 * size),
            target < size,
    ;
}

/// The output of a video never runs longer than three seconds as planned,
/// and with `speed` it is exactly three seconds.
pub proof fn planned_duration_bounded(plan: VideoPlan)
    requires
        plan.wf(),
    ensures
        plan.current().out_us <= max_duration_us(),
        plan.speed ==> plan.current().out_us == max_duration_us(),
{
}


/// The frame-rate ladder starts at the base rate, holds at most four rates,
/// none of them exceeds the base by more than a thousandth of a frame per
/// second, and the fallback rates after the base strictly fall.
pub proof fn fps_ladder_bounded(base: u64)
    ensures
        fps_ladder(base)[0] == base,
        1 <= fps_ladder(base).len() <= 4,
        forall|i: int| 0 <= i < fps_ladder(base).len() ==> #[trigger] fps_ladder(base)[i] <= base + 1000,
        forall|i: int, j: int|
            1 <= i < j < fps_ladder(base).len() ==> #[trigger] fps_ladder(base)[j] < #[trigger] fps_ladder(base)[i],
{
    let l = fps_ladder(base);
    assert forall|i: int| 0 <= i < l.len() implies #[trigger] l[i] <= base + 1000 by {
    }
}

/// Still images are tried at strictly falling quality, at most four times.
pub proof fn crf_ladder_falls()
    ensures
        crf_ladder().len() == 4,
        forall|i: int, j: int| 0 <= i < j < 4 ==> crf_ladder()[i] < crf_ladder()[j],
{
}

/// No attempt runs above the frame-rate limit the user set: the first
/// runs at the source's rate when it is known and lower than the limit,
/// otherwise at the limit, and no rate of the ladder exceeds the limit by
/// more than a thousandth of a frame per second.
pub proof fn rates_within_limit(p: ConvertParams)
    requires
        valid_params(p),
    ensures
        fps_ladder(base_fps(p))[0] == (if 0 < p.input_fps_micro && p.input_fps_micro
            < p.fps_limit_micro {
            p.input_fps_micro
        } else {
            p.fps_limit_micro
        }),
        fps_ladder(base_fps(p))[0] <= p.fps_limit_micro,
        forall|i: int|
            0 <= i < fps_ladder(base_fps(p)).len() ==> #[trigger] fps_ladder(base_fps(p))[i]
                <= p.fps_limit_micro + 1000,
{
    fps_ladder_bounded(base_fps(p));
}

} // verus!
