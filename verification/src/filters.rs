//! Command lines and filter graphs handed to ffmpeg.

use vstd::prelude::*;
use crate::params::ConvertParams;
use crate::platform::{null_sink, null_sink_spec, Platform};
use crate::text::{
    chars_of, decimal, decimal_string, fixed_point, owned, push_decimal, push_fixed, push_str,
    round_half_even, round_half_even_exec, string_from_chars,
};

verus! {

/// The texts of a list of strings.
pub open spec fn views(v: Seq<String>) -> Seq<Seq<char>> {
    v.map_values(|s: String| s@)
}

/// Appends one argument.
pub fn push_arg(args: &mut Vec<String>, s: String)
    ensures
        views(final(args)@) == views(old(args)@).push(s@),
{
    let ghost start = args@;
    args.push(s);
    assert(views(args@) =~= views(start).push(s@));
}

/// Appends one argument given as a literal.
pub fn push_lit(args: &mut Vec<String>, s: &str)
    ensures
        views(final(args)@) == views(old(args)@).push(s@),
{
    push_arg(args, owned(s));
}

/// `us` microseconds as seconds with three decimals (nearest millisecond,
/// ties to even).
pub open spec fn seconds_text(us: nat) -> Seq<char> {
    fixed_point(round_half_even(us, 1000), 3)
}

/// A bitrate in kilobits per second as ffmpeg reads it.
pub open spec fn kbps_text(b: nat) -> Seq<char> {
    decimal(b) + "k"@
}

/// The display aspect ratio `w:h`.
pub open spec fn aspect_text(p: ConvertParams) -> Seq<char> {
    decimal(p.width as nat) + ":"@ + decimal(p.height as nat)
}

/// A tempo `num / den` differs from 1 by more than a thousandth.
pub open spec fn tempo_changes(num: nat, den: nat) -> bool {
    if num >= den {
        1000 * (num - den) > den
    } else {
        1000 * (den - num) > den
    }
}

/// The scaling step: stretch to the frame, or scale up to cover it and crop.
pub open spec fn scale_filter(p: ConvertParams) -> Seq<char> {
    let w = decimal(p.width as nat);
    let h = decimal(p.height as nat);
    if p.scale_mode@ == "cover"@ {
        "scale="@ + w + ":"@ + h + ":force_original_aspect_ratio=increase:flags=lanczos,crop="@ + w
            + ":"@ + h
    } else {
        "scale="@ + w + ":"@ + h + ":flags=lanczos"@
    }
}

/// The pixel-format step: with an alpha plane when the input has one.
pub open spec fn format_filter(p: ConvertParams) -> Seq<char> {
    if p.has_alpha {
        "format=yuva420p"@
    } else {
        "format=yuv420p"@
    }
}

/// The filter graph: optional re-timing by the tempo `num / den` (six
/// decimals), an optional frame-rate step (four decimals), scaling, and the
/// pixel format, joined by commas.
pub open spec fn vf_chain_spec(p: ConvertParams, fps: Option<u64>, num: nat, den: nat) -> Seq<char> {
    (if tempo_changes(num, den) {
        "setpts=PTS*"@ + fixed_point(round_half_even(num * 1_000_000, den), 6) + ","@
    } else {
        Seq::empty()
    }) + (match fps {
        Some(f) => "fps="@ + fixed_point(round_half_even(f as nat, 100), 4) + ","@,
        None => Seq::empty(),
    }) + scale_filter(p) + ","@ + format_filter(p)
}

/// Appends the re-timing step when the tempo changes.
fn push_tempo_filter(v: &mut Vec<char>, num: u64, den: u64)
    requires
        den > 0,
    ensures
        final(v)@ == old(v)@ + (if tempo_changes(num as nat, den as nat) {
            "setpts=PTS*"@ + fixed_point(round_half_even(num as nat * 1_000_000, den as nat), 6)
                + ","@
        } else {
            Seq::empty()
        }),
{
    let ghost start = v@;
    let changes = if num >= den {
        (num - den) as u128 * 1000 > den as u128
    } else {
        (den - num) as u128 * 1000 > den as u128
    };
    if changes {
        push_str(v, "setpts=PTS*");
        let t = round_half_even_exec(num as u128 * 1_000_000, den as u128);
        push_fixed(v, t, 6);
        push_str(v, ",");
    }
    assert(v@ =~= start + (if tempo_changes(num as nat, den as nat) {
        "setpts=PTS*"@ + fixed_point(round_half_even(num as nat * 1_000_000, den as nat), 6) + ","@
    } else {
        Seq::empty()
    }));
}

/// Appends the frame-rate step when a rate is given.
fn push_fps_filter(v: &mut Vec<char>, fps: Option<u64>)
    ensures
        final(v)@ == old(v)@ + (match fps {
            Some(f) => "fps="@ + fixed_point(round_half_even(f as nat, 100), 4) + ","@,
            None => Seq::empty(),
        }),
{
    let ghost start = v@;
    match fps {
        Some(f) => {
            push_str(v, "fps=");
            let q = round_half_even_exec(f as u128, 100);
            push_fixed(v, q, 4);
            push_str(v, ",");
        },
        None => {},
    }
    assert(v@ =~= start + (match fps {
        Some(f) => "fps="@ + fixed_point(round_half_even(f as nat, 100), 4) + ","@,
        None => Seq::empty(),
    }));
}

/// Appends the scaling step.
fn push_scale_filter(v: &mut Vec<char>, p: &ConvertParams)
    ensures
        final(v)@ == old(v)@ + scale_filter(*p),
{
    let ghost start = v@;
    let w = decimal_string(p.width as u128);
    let h = decimal_string(p.height as u128);
    push_str(v, "scale=");
    push_str(v, w.as_str());
    push_str(v, ":");
    push_str(v, h.as_str());
    let cover = crate::text::same_text(&p.scale_mode, "cover");
    if cover {
        push_str(v, ":force_original_aspect_ratio=increase:flags=lanczos,crop=");
        push_str(v, w.as_str());
        push_str(v, ":");
        push_str(v, h.as_str());
    } else {
        push_str(v, ":flags=lanczos");
    }
    assert(v@ =~= start + scale_filter(*p));
}

/// Builds the filter graph for the parameters, an optional frame rate
/// (frames per second times a million) and the tempo `num / den` by which
/// the segment is re-timed.
pub fn vf_chain(p: &ConvertParams, fps: Option<u64>, num: u64, den: u64) -> (r: String)
    requires
        den > 0,
    ensures
        r@ == vf_chain_spec(*p, fps, num as nat, den as nat),
{
    let mut v: Vec<char> = Vec::new();
    push_tempo_filter(&mut v, num, den);
    push_fps_filter(&mut v, fps);
    push_scale_filter(&mut v, p);
    push_str(&mut v, ",");
    if p.has_alpha {
        push_str(&mut v, "format=yuva420p");
    } else {
        push_str(&mut v, "format=yuv420p");
    }
    assert(v@ =~= vf_chain_spec(*p, fps, num as nat, den as nat));
    string_from_chars(&v)
}


/// The arguments that every run starts with: overwrite, quiet logging, and
/// machine-readable progress on standard output.
pub open spec fn common_head() -> Seq<Seq<char>> {
    seq!["-y"@, "-hide_banner"@, "-loglevel"@, "error"@, "-progress"@, "pipe:1"@, "-nostats"@]
}

fn push_common_head(args: &mut Vec<String>)
    ensures
        views(final(args)@) == views(old(args)@) + common_head(),
{
    let ghost start = views(args@);
    push_lit(args, "-y");
    push_lit(args, "-hide_banner");
    push_lit(args, "-loglevel");
    push_lit(args, "error");
    push_lit(args, "-progress");
    push_lit(args, "pipe:1");
    push_lit(args, "-nostats");
    assert(views(args@) =~= start + common_head());
}

/// Input selection for a video attempt: optional seek, duration, input,
/// first video stream, filters and display aspect.
pub open spec fn video_input_args(p: ConvertParams, dur_us: nat, vf: Seq<char>) -> Seq<Seq<char>> {
    (if p.trim_start_us > 0 {
        seq!["-ss"@, seconds_text(p.trim_start_us as nat)]
    } else {
        Seq::empty()
    }) + seq!["-t"@, seconds_text(dur_us), "-i"@, p.input@, "-map"@, "0:v:0"@, "-vf"@, vf, "-aspect"@, aspect_text(p)]
}

/// Appends `us` microseconds as seconds with three decimals.
fn seconds_string(us: u64) -> (r: String)
    ensures
        r@ == seconds_text(us as nat),
{
    let mut v: Vec<char> = Vec::new();
    let ms = round_half_even_exec(us as u128, 1000);
    push_fixed(&mut v, ms, 3);
    assert(v@ =~= seconds_text(us as nat));
    string_from_chars(&v)
}

/// The display aspect ratio as text.
fn aspect_string(p: &ConvertParams) -> (r: String)
    ensures
        r@ == aspect_text(*p),
{
    let mut v: Vec<char> = Vec::new();
    push_decimal(&mut v, p.width as u128);
    push_str(&mut v, ":");
    push_decimal(&mut v, p.height as u128);
    assert(v@ =~= aspect_text(*p));
    string_from_chars(&v)
}

/// A bitrate with the kilobit suffix.
fn kbps_string(b: u32) -> (r: String)
    ensures
        r@ == kbps_text(b as nat),
{
    let mut v: Vec<char> = Vec::new();
    push_decimal(&mut v, b as u128);
    push_str(&mut v, "k");
    assert(v@ =~= kbps_text(b as nat));
    string_from_chars(&v)
}

fn push_video_input(args: &mut Vec<String>, p: &ConvertParams, dur_us: u64, vf: &str)
    ensures
        views(final(args)@) == views(old(args)@) + video_input_args(*p, dur_us as nat, vf@),
{
    let ghost start = views(args@);
    if p.trim_start_us > 0 {
        push_lit(args, "-ss");
        push_arg(args, seconds_string(p.trim_start_us));
    }
    push_lit(args, "-t");
    push_arg(args, seconds_string(dur_us));
    push_lit(args, "-i");
    push_arg(args, p.input.clone());
    push_lit(args, "-map");
    push_lit(args, "0:v:0");
    push_lit(args, "-vf");
    push_lit(args, vf);
    push_lit(args, "-aspect");
    push_arg(args, aspect_string(p));
    assert(views(args@) =~= start + video_input_args(*p, dur_us as nat, vf@));
}

/// VP9 rate control: target bitrate with a floor of half and a ceiling of
/// 29/20 of it, a faster first pass, row multithreading and a keyframe
/// every 120 frames.
pub open spec fn rate_args(bitrate: nat, pass: nat) -> Seq<Seq<char>> {
    seq![
        "-c:v"@,
        "libvpx-vp9"@,
        "-b:v"@,
        kbps_text(bitrate),
        "-minrate"@,
        kbps_text(bitrate / 2),
        "-maxrate"@,
        kbps_text(bitrate * 29 / 20),
        "-deadline"@,
        "good"@,
        "-cpu-used"@,
        if pass == 1 { "4"@ } else { "1"@ },
        "-row-mt"@,
        "1"@,
        "-g"@,
        "120"@,
    ]
}

fn push_rate(args: &mut Vec<String>, bitrate: u32, pass: u32)
    requires
        bitrate * 29 <= u32::MAX,
    ensures
        views(final(args)@) == views(old(args)@) + rate_args(bitrate as nat, pass as nat),
{
    let ghost start = views(args@);
    push_lit(args, "-c:v");
    push_lit(args, "libvpx-vp9");
    push_lit(args, "-b:v");
    push_arg(args, kbps_string(bitrate));
    push_lit(args, "-minrate");
    push_arg(args, kbps_string(bitrate / 2));
    push_lit(args, "-maxrate");
    push_arg(args, kbps_string(bitrate * 29 / 20));
    push_lit(args, "-deadline");
    push_lit(args, "good");
    push_lit(args, "-cpu-used");
    if pass == 1 {
        push_lit(args, "4");
    } else {
        push_lit(args, "1");
    }
    push_lit(args, "-row-mt");
    push_lit(args, "1");
    push_lit(args, "-g");
    push_lit(args, "120");
    assert(views(args@) =~= start + rate_args(bitrate as nat, pass as nat));
}

/// Alt-ref frames are incompatible with an alpha plane in libvpx.
pub open spec fn alt_ref_args(has_alpha: bool) -> Seq<Seq<char>> {
    if has_alpha {
        seq!["-auto-alt-ref"@, "0"@]
    } else {
        seq!["-auto-alt-ref"@, "1"@, "-lag-in-frames"@, "25"@]
    }
}

/// No audio, no subtitles, no metadata.
pub open spec fn strip_args() -> Seq<Seq<char>> {
    seq!["-an"@, "-sn"@, "-map_metadata"@, "-1"@]
}

fn push_alt_ref_and_strip(args: &mut Vec<String>, has_alpha: bool)
    ensures
        views(final(args)@) == views(old(args)@) + alt_ref_args(has_alpha) + strip_args(),
{
    let ghost start = views(args@);
    if has_alpha {
        push_lit(args, "-auto-alt-ref");
        push_lit(args, "0");
    } else {
        push_lit(args, "-auto-alt-ref");
        push_lit(args, "1");
        push_lit(args, "-lag-in-frames");
        push_lit(args, "25");
    }
    push_lit(args, "-an");
    push_lit(args, "-sn");
    push_lit(args, "-map_metadata");
    push_lit(args, "-1");
    assert(views(args@) =~= start + alt_ref_args(has_alpha) + strip_args());
}

/// Two-pass bookkeeping and the output: the first pass writes its statistics
/// only and discards the video into the null sink; the second writes WebM
/// to `part`.
pub open spec fn pass_args(pass: nat, passlog: Seq<char>, part: Seq<char>, platform: Platform) -> Seq<Seq<char>> {
    seq!["-pass"@, decimal(pass), "-passlogfile"@, passlog] + if pass == 1 {
        seq!["-f"@, "null"@, null_sink_spec(platform)]
    } else {
        seq!["-f"@, "webm"@, part]
    }
}

fn push_pass(args: &mut Vec<String>, pass: u32, passlog: &str, part: &str, platform: Platform)
    ensures
        views(final(args)@) == views(old(args)@) + pass_args(pass as nat, passlog@, part@, platform),
{
    let ghost start = views(args@);
    push_lit(args, "-pass");
    push_arg(args, decimal_string(pass as u128));
    push_lit(args, "-passlogfile");
    push_lit(args, passlog);
    if pass == 1 {
        push_lit(args, "-f");
        push_lit(args, "null");
        push_lit(args, null_sink(platform));
    } else {
        push_lit(args, "-f");
        push_lit(args, "webm");
        push_lit(args, part);
    }
    assert(views(args@) =~= start + pass_args(pass as nat, passlog@, part@, platform));
}

/// The full argument list of one pass of a video attempt.
pub open spec fn encode_args_spec(
    p: ConvertParams,
    dur_us: nat,
    bitrate: nat,
    vf: Seq<char>,
    pass: nat,
    passlog: Seq<char>,
    part: Seq<char>,
    platform: Platform,
) -> Seq<Seq<char>> {
    common_head() + video_input_args(p, dur_us, vf) + rate_args(bitrate, pass) + alt_ref_args(
        p.has_alpha,
    ) + strip_args() + pass_args(pass, passlog, part, platform)
}

/// The ffmpeg arguments of pass `pass` (1 or 2) of a two-pass VP9 encode of
/// `dur_us` microseconds of the input at `bitrate` kilobits per second.
pub fn encode_args(
    p: &ConvertParams,
    dur_us: u64,
    bitrate: u32,
    vf: &str,
    pass: u32,
    passlog: &str,
    part: &str,
    platform: Platform,
) -> (r: Vec<String>)
    requires
        bitrate * 29 <= u32::MAX,
    ensures
        views(r@) == encode_args_spec(
            *p,
            dur_us as nat,
            bitrate as nat,
            vf@,
            pass as nat,
            passlog@,
            part@,
            platform,
        ),
{
    let mut a: Vec<String> = Vec::new();
    assert(views(a@) =~= Seq::empty());
    push_common_head(&mut a);
    push_video_input(&mut a, p, dur_us, vf);
    push_rate(&mut a, bitrate, pass);
    push_alt_ref_and_strip(&mut a, p.has_alpha);
    push_pass(&mut a, pass, passlog, part, platform);
    assert(views(a@) =~= encode_args_spec(
        *p,
        dur_us as nat,
        bitrate as nat,
        vf@,
        pass as nat,
        passlog@,
        part@,
        platform,
    ));
    a
}

/// The argument list of one attempt on a still image: a single frame in
/// constant-quality mode at quality `crf`.
pub open spec fn image_args_spec(p: ConvertParams, vf: Seq<char>, crf: nat, part: Seq<char>) -> Seq<Seq<char>> {
    common_head() + seq![
        "-i"@,
        p.input@,
        "-map"@,
        "0:v:0"@,
        "-frames:v"@,
        "1"@,
        "-vf"@,
        vf,
        "-aspect"@,
        aspect_text(p),
        "-c:v"@,
        "libvpx-vp9"@,
        "-crf"@,
        decimal(crf),
        "-b:v"@,
        "0"@,
        "-cpu-used"@,
        "1"@,
        "-row-mt"@,
        "1"@,
    ] + strip_args() + seq!["-f"@, "webm"@, part]
}

/// The ffmpeg arguments that encode a still image at quality `crf`.
pub fn image_args(p: &ConvertParams, vf: &str, crf: u32, part: &str) -> (r: Vec<String>)
    ensures
        views(r@) == image_args_spec(*p, vf@, crf as nat, part@),
{
    let mut a: Vec<String> = Vec::new();
    assert(views(a@) =~= Seq::empty());
    push_common_head(&mut a);
    let ghost h = views(a@);
    push_lit(&mut a, "-i");
    push_arg(&mut a, p.input.clone());
    push_lit(&mut a, "-map");
    push_lit(&mut a, "0:v:0");
    push_lit(&mut a, "-frames:v");
    push_lit(&mut a, "1");
    push_lit(&mut a, "-vf");
    push_lit(&mut a, vf);
    push_lit(&mut a, "-aspect");
    push_arg(&mut a, aspect_string(p));
    push_lit(&mut a, "-c:v");
    push_lit(&mut a, "libvpx-vp9");
    push_lit(&mut a, "-crf");
    push_arg(&mut a, decimal_string(crf as u128));
    push_lit(&mut a, "-b:v");
    push_lit(&mut a, "0");
    push_lit(&mut a, "-cpu-used");
    push_lit(&mut a, "1");
    push_lit(&mut a, "-row-mt");
    push_lit(&mut a, "1");
    let ghost m = views(a@);
    push_alt_strip_only(&mut a);
    push_lit(&mut a, "-f");
    push_lit(&mut a, "webm");
    push_lit(&mut a, part);
    assert(views(a@) =~= image_args_spec(*p, vf@, crf as nat, part@));
    a
}

fn push_alt_strip_only(args: &mut Vec<String>)
    ensures
        views(final(args)@) == views(old(args)@) + strip_args(),
{
    let ghost start = views(args@);
    push_lit(args, "-an");
    push_lit(args, "-sn");
    push_lit(args, "-map_metadata");
    push_lit(args, "-1");
    assert(views(args@) =~= start + strip_args());
}

/// The argument list of the quick low-quality preview proxy.
pub open spec fn proxy_args_spec(input: Seq<char>, part: Seq<char>) -> Seq<Seq<char>> {
    common_head() + seq![
        "-i"@,
        input,
        "-map"@,
        "0:v:0"@,
        "-vf"@,
        "fps=15,scale=-2:256:flags=bilinear,format=yuv420p"@,
        "-c:v"@,
        "libvpx"@,
        "-crf"@,
        "40"@,
        "-b:v"@,
        "600k"@,
        "-deadline"@,
        "realtime"@,
        "-cpu-used"@,
        "16"@,
        "-an"@,
        "-sn"@,
        "-f"@,
        "webm"@,
        part,
    ]
}

/// The ffmpeg arguments of the preview proxy: VP8 at 15 frames per second
/// and 256 lines, tuned for speed.
pub fn proxy_args(input: &str, part: &str) -> (r: Vec<String>)
    ensures
        views(r@) == proxy_args_spec(input@, part@),
{
    let mut a: Vec<String> = Vec::new();
    assert(views(a@) =~= Seq::empty());
    push_common_head(&mut a);
    push_lit(&mut a, "-i");
    push_lit(&mut a, input);
    push_lit(&mut a, "-map");
    push_lit(&mut a, "0:v:0");
    push_lit(&mut a, "-vf");
    push_lit(&mut a, "fps=15,scale=-2:256:flags=bilinear,format=yuv420p");
    push_lit(&mut a, "-c:v");
    push_lit(&mut a, "libvpx");
    push_lit(&mut a, "-crf");
    push_lit(&mut a, "40");
    push_lit(&mut a, "-b:v");
    push_lit(&mut a, "600k");
    push_lit(&mut a, "-deadline");
    push_lit(&mut a, "realtime");
    push_lit(&mut a, "-cpu-used");
    push_lit(&mut a, "16");
    push_lit(&mut a, "-an");
    push_lit(&mut a, "-sn");
    push_lit(&mut a, "-f");
    push_lit(&mut a, "webm");
    push_lit(&mut a, part);
    assert(views(a@) =~= proxy_args_spec(input@, part@));
    a
}


/// Every pass starts with the common head, drops audio and subtitles,
/// names its pass number followed by the statistics prefix `passlog` (the
/// same for both passes, so that the second reads what the first wrote),
/// and ends by writing to the null sink (first pass) or as WebM to the
/// partial file (second pass).
pub proof fn encode_args_shape(
    p: ConvertParams,
    dur_us: nat,
    bitrate: nat,
    vf: Seq<char>,
    pass: nat,
    passlog: Seq<char>,
    part: Seq<char>,
    platform: Platform,
)
    ensures
        ({
            let a = encode_args_spec(p, dur_us, bitrate, vf, pass, passlog, part, platform);
            &&& a.take(7) == common_head()
            &&& a.contains("-an"@)
            &&& a.contains("-sn"@)
            &&& exists|i: int|
                0 <= i && i + 2 <= a.len() && #[trigger] a.subrange(i, i + 2) == seq![
                    "-pass"@,
                    decimal(pass),
                ]
            &&& exists|i: int|
                0 <= i && i + 4 <= a.len() && #[trigger] a.subrange(i, i + 4) == seq![
                    "-pass"@,
                    decimal(pass),
                    "-passlogfile"@,
                    passlog,
                ]
            &&& a.skip(a.len() - 3) == (if pass == 1 {
                seq!["-f"@, "null"@, null_sink_spec(platform)]
            } else {
                seq!["-f"@, "webm"@, part]
            })
        }),
{
    let h = common_head();
    let v = video_input_args(p, dur_us, vf);
    let r = rate_args(bitrate, pass);
    let t = alt_ref_args(p.has_alpha);
    let st = strip_args();
    let ps = pass_args(pass, passlog, part, platform);
    let a = encode_args_spec(p, dur_us, bitrate, vf, pass, passlog, part, platform);
    assert(a == h + v + r + t + st + ps);
    assert(a.take(7) =~= h);
    let base: int = (h.len() + v.len() + r.len() + t.len()) as int;
    assert(a[base] == st[0]);
    assert(a[base + 1] == st[1]);
    let q: int = base + st.len();
    assert(a.subrange(q, q + 2) =~= seq!["-pass"@, decimal(pass)]);
    assert(a.subrange(q, q + 4) =~= seq!["-pass"@, decimal(pass), "-passlogfile"@, passlog]);
    assert(a.skip(a.len() - 3) =~= ps.skip(4));
}

} // verus!
