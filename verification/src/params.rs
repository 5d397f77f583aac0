//! Conversion parameters as the user interface hands them over, and the
//! check that runs before any encoding.

use vstd::prelude::*;
use crate::text::{chars_of, ends_with, ends_with_exec, owned, push_chars, same_text, string_from_chars};

verus! {

/// Largest accepted time (microseconds) or frame rate (frames per second
/// times a million): the equivalent of 100000 seconds or frames per second.
pub open spec fn max_time_value() -> nat {
    100_000_000_000
}

/// Parameters of one conversion.
///
/// Times are in microseconds and frame rates in frames per second times a
/// million. A time or rate that was not a finite number between 0 and
/// 100000 is handed over as `u64::MAX`, which validation refuses.
#[derive(Clone, Debug)]
pub struct ConvertParams {
    pub input: String,
    /// `"image"`, `"anim"` or `"video"`.
    pub kind: String,
    pub out_dir: Option<String>,
    /// Output of an earlier attempt, written over when retrying.
    pub out_path: Option<String>,
    pub trim_start_us: u64,
    pub trim_end_us: u64,
    pub width: u32,
    pub height: u32,
    /// `"stretch"` or `"cover"`.
    pub scale_mode: String,
    /// Re-time the chosen segment to exactly three seconds.
    pub speed: bool,
    /// Only `"vp9"` is supported.
    pub format: String,
    pub fps_limit_micro: u64,
    pub input_fps_micro: u64,
    pub has_alpha: bool,
    pub max_kb: u64,
}

/// The output format used when the request names none.
pub fn default_format() -> (r: String)
    ensures
        r@ == "vp9"@,
{
    owned("vp9")
}

/// The error message for parameters that must be refused, or `None` when
/// they are acceptable. The checks run in this order and the first that
/// fails decides the message.
pub open spec fn validation_error(p: ConvertParams) -> Option<Seq<char>> {
    if p.format@ != "vp9"@ {
        Some("Неподдерживаемый выходной формат: "@ + p.format@)
    } else if p.scale_mode@ != "stretch"@ && p.scale_mode@ != "cover"@ {
        Some("Неподдерживаемый режим масштабирования"@)
    } else if !(16 <= p.width <= 1024) || !(16 <= p.height <= 1024) {
        Some("Недопустимый размер выхода"@)
    } else if p.trim_start_us > max_time_value() || p.trim_end_us > max_time_value()
        || p.fps_limit_micro > max_time_value() || p.input_fps_micro > max_time_value() {
        Some("Недопустимые параметры времени/частоты"@)
    } else if p.trim_end_us < p.trim_start_us {
        Some("Конец обрезки раньше начала"@)
    } else if !(16 <= p.max_kb <= 4096) {
        Some("Недопустимый лимит размера"@)
    } else if p.out_path is Some && !ends_with(p.out_path->0@, ".webm"@) {
        Some("Недопустимый путь выхода"@)
    } else {
        None
    }
}

/// Parameters that pass validation.
pub open spec fn valid_params(p: ConvertParams) -> bool {
    validation_error(p) is None
}

/// Checks the parameters before any work is done: the request crosses a
/// trust boundary, so nothing in it may cause arbitrary file writes or
/// unbounded work.
pub fn validate(p: &ConvertParams) -> (r: Result<(), String>)
    ensures
        match r {
            Ok(()) => validation_error(*p) is None,
            Err(e) => validation_error(*p) == Some(e@),
        },
{
    if !same_text(&p.format, "vp9") {
        let mut v = chars_of("Неподдерживаемый выходной формат: ");
        let f = chars_of(p.format.as_str());
        push_chars(&mut v, &f);
        return Err(string_from_chars(&v));
    }
    if !same_text(&p.scale_mode, "stretch") && !same_text(&p.scale_mode, "cover") {
        return Err(owned("Неподдерживаемый режим масштабирования"));
    }
    if !(16 <= p.width && p.width <= 1024) || !(16 <= p.height && p.height <= 1024) {
        return Err(owned("Недопустимый размер выхода"));
    }
    let max: u64 = 100_000_000_000;
    if p.trim_start_us > max || p.trim_end_us > max || p.fps_limit_micro > max
        || p.input_fps_micro > max {
        return Err(owned("Недопустимые параметры времени/частоты"));
    }
    if p.trim_end_us < p.trim_start_us {
        return Err(owned("Конец обрезки раньше начала"));
    }
    if !(16 <= p.max_kb && p.max_kb <= 4096) {
        return Err(owned("Недопустимый лимит размера"));
    }
    match &p.out_path {
        Some(op) => {
            let v = chars_of(op.as_str());
            if !ends_with_exec(&v, ".webm") {
                return Err(owned("Недопустимый путь выхода"));
            }
        },
        None => {},
    }
    Ok(())
}

} // verus!
