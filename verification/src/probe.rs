//! Reading what ffprobe reports about a media file: which kind of input it
//! is, its frame size, duration and rate, transparency and audio, and
//! whether a browser can show it without a proxy.

use vstd::prelude::*;
use crate::text::{
    ascii_lowercase, ascii_lowercase_exec, chars_of, contains_exec, contains_seq, find_char,
    first_index, owned, parse_u64_text, saturate_u64, slice_chars, trim_chars, trimmed, u64_text,
    parse_reading, reading_text, Reading,
};

verus! {

/// The text of an optional string.
pub open spec fn opt_view(o: Option<String>) -> Option<Seq<char>> {
    match o {
        Some(s) => Some(s@),
        None => None,
    }
}

/// The text of an optional string, or nothing.
pub open spec fn or_empty(o: Option<Seq<char>>) -> Seq<char> {
    match o {
        Some(s) => s,
        None => Seq::empty(),
    }
}

/// The fields of one stream of an ffprobe report that the analysis reads;
/// a field is `None` when it is missing or of another JSON type.
#[derive(Clone, Debug)]
pub struct ProbeStream {
    pub codec_type: Option<String>,
    pub width: Option<u64>,
    pub height: Option<u64>,
    pub codec_name: Option<String>,
    pub pix_fmt: Option<String>,
    pub nb_frames: Option<String>,
    pub avg_frame_rate: Option<String>,
    pub r_frame_rate: Option<String>,
    /// The `alpha_mode` tag.
    pub alpha_mode: Option<String>,
}

pub struct ProbeStreamView {
    pub codec_type: Option<Seq<char>>,
    pub width: Option<u64>,
    pub height: Option<u64>,
    pub codec_name: Option<Seq<char>>,
    pub pix_fmt: Option<Seq<char>>,
    pub nb_frames: Option<Seq<char>>,
    pub avg_frame_rate: Option<Seq<char>>,
    pub r_frame_rate: Option<Seq<char>>,
    pub alpha_mode: Option<Seq<char>>,
}

impl View for ProbeStream {
    type V = ProbeStreamView;

    open spec fn view(&self) -> ProbeStreamView {
        ProbeStreamView {
            codec_type: opt_view(self.codec_type),
            width: self.width,
            height: self.height,
            codec_name: opt_view(self.codec_name),
            pix_fmt: opt_view(self.pix_fmt),
            nb_frames: opt_view(self.nb_frames),
            avg_frame_rate: opt_view(self.avg_frame_rate),
            r_frame_rate: opt_view(self.r_frame_rate),
            alpha_mode: opt_view(self.alpha_mode),
        }
    }
}

/// The parts of an ffprobe report (`-show_format -show_streams`) that the
/// analysis reads.
#[derive(Clone, Debug)]
pub struct ProbeReport {
    pub format_name: Option<String>,
    pub duration: Option<String>,
    pub streams: Vec<ProbeStream>,
}

pub struct ProbeReportView {
    pub format_name: Option<Seq<char>>,
    pub duration: Option<Seq<char>>,
    pub streams: Seq<ProbeStreamView>,
}

impl View for ProbeReport {
    type V = ProbeReportView;

    open spec fn view(&self) -> ProbeReportView {
        ProbeReportView {
            format_name: opt_view(self.format_name),
            duration: opt_view(self.duration),
            streams: self.streams@.map_values(|s: ProbeStream| s@),
        }
    }
}

/// What kind of input a file is.
#[derive(Clone, Copy, Debug, PartialEq, Eq, Structural)]
pub enum MediaKind {
    Image,
    Anim,
    Video,
}

/// The name the user interface knows a kind by.
pub open spec fn kind_name_spec(k: MediaKind) -> Seq<char> {
    match k {
        MediaKind::Image => "image"@,
        MediaKind::Anim => "anim"@,
        MediaKind::Video => "video"@,
    }
}

/// The name the user interface knows a kind by.
pub fn kind_name(k: MediaKind) -> (r: &'static str)
    ensures
        r@ == kind_name_spec(k),
{
    match k {
        MediaKind::Image => "image",
        MediaKind::Anim => "anim",
        MediaKind::Video => "video",
    }
}

/// What the converter knows about an input file. Durations are in
/// microseconds and frame rates in frames per second times a million.
#[derive(Clone, Debug)]
pub struct MediaInfo {
    pub kind: MediaKind,
    pub width: u32,
    pub height: u32,
    /// Zero for stills.
    pub duration_us: u64,
    pub fps_micro: u64,
    pub size_bytes: u64,
    pub vcodec: String,
    pub format_name: String,
    pub has_alpha: bool,
    pub has_audio: bool,
    /// The browser view shows the file directly, without a proxy.
    pub browser_playable: bool,
}

pub struct MediaInfoView {
    pub kind: MediaKind,
    pub width: u32,
    pub height: u32,
    pub duration_us: u64,
    pub fps_micro: u64,
    pub size_bytes: u64,
    pub vcodec: Seq<char>,
    pub format_name: Seq<char>,
    pub has_alpha: bool,
    pub has_audio: bool,
    pub browser_playable: bool,
}

impl View for MediaInfo {
    type V = MediaInfoView;

    open spec fn view(&self) -> MediaInfoView {
        MediaInfoView {
            kind: self.kind,
            width: self.width,
            height: self.height,
            duration_us: self.duration_us,
            fps_micro: self.fps_micro,
            size_bytes: self.size_bytes,
            vcodec: self.vcodec@,
            format_name: self.format_name@,
            has_alpha: self.has_alpha,
            has_audio: self.has_audio,
            browser_playable: self.browser_playable,
        }
    }
}

/// A reading greater than zero.
pub open spec fn reads_positive(r: Reading) -> bool {
    match r {
        Reading::Finite { negative, micros } => !negative && micros > 0,
        Reading::Infinite { negative } => !negative,
        Reading::NotANumber => false,
    }
}

/// One, as a reading.
pub open spec fn reading_one() -> Reading {
    Reading::Finite { negative: false, micros: 1_000_000 }
}

/// `n / d` in millionths for two positive readings: finite values are
/// divided (a positive quotient below one millionth gives one millionth,
/// a large one is held at `u64::MAX`); infinity over a finite value is
/// `u64::MAX`; a finite value over infinity is zero, and so is infinity
/// over infinity, which is not a number.
pub open spec fn ratio_of(n: Reading, d: Reading) -> u64 {
    match (n, d) {
        (Reading::Finite { micros: a, .. }, Reading::Finite { micros: b, .. }) => {
            let q = saturate_u64(a as nat * 1_000_000 / b as nat);
            if q == 0 {
                1
            } else {
                q
            }
        },
        (Reading::Infinite { .. }, Reading::Finite { .. }) => u64::MAX,
        _ => 0,
    }
}

/// A frame rate written `num/den` (frames per second times a million):
/// the text up to the first `/` is the numerator, the text up to the next
/// `/` the denominator (one when missing or unreadable), each read as
/// `f64::from_str` reads it; the rate is zero unless both are positive.
pub open spec fn rate_micro(s: Seq<char>) -> u64 {
    let k = first_index(s, '/');
    let num = reading_text(s.take(k));
    let den = if k < s.len() {
        let rest = s.skip(k + 1);
        match reading_text(rest.take(first_index(rest, '/'))) {
            Some(d) => d,
            None => reading_one(),
        }
    } else {
        reading_one()
    };
    match num {
        Some(n) => if reads_positive(n) && reads_positive(den) {
            ratio_of(n, den)
        } else {
            0
        },
        None => 0,
    }
}

/// Parses a frame rate such as `30000/1001` into frames per second times a
/// million.
pub fn parse_rate(s: &Vec<char>) -> (r: u64)
    ensures
        r == rate_micro(s@),
{
    let k = find_char(s, '/', 0);
    assert(s@.skip(0) =~= s@);
    let num_text = slice_chars(s, 0, k);
    assert(num_text@ =~= s@.take(k as int));
    let num = parse_reading(&num_text);
    let one = Reading::Finite { negative: false, micros: 1_000_000 };
    let den = if k < s.len() {
        let k2 = find_char(s, '/', k + 1);
        let den_text = slice_chars(s, k + 1, k2);
        proof {
            let rest = s@.skip(k + 1);
            assert(den_text@ =~= rest.take(first_index(rest, '/')));
        }
        match parse_reading(&den_text) {
            Some(d) => d,
            None => one,
        }
    } else {
        one
    };
    let n = match num {
        Some(n) => n,
        None => {
            return 0;
        },
    };
    let num_pos = match n {
        Reading::Finite { negative, micros } => !negative && micros > 0,
        Reading::Infinite { negative } => !negative,
        Reading::NotANumber => false,
    };
    let den_pos = match den {
        Reading::Finite { negative, micros } => !negative && micros > 0,
        Reading::Infinite { negative } => !negative,
        Reading::NotANumber => false,
    };
    if !(num_pos && den_pos) {
        return 0;
    }
    match (n, den) {
        (Reading::Finite { micros: a, .. }, Reading::Finite { micros: b, .. }) => {
            let q: u128 = a as u128 * 1_000_000 / b as u128;
            if q > 0xffff_ffff_ffff_ffffu128 {
                0xffff_ffff_ffff_ffff
            } else if q == 0 {
                1
            } else {
                q as u64
            }
        },
        (Reading::Infinite { .. }, Reading::Finite { .. }) => 0xffff_ffff_ffff_ffff,
        _ => 0,
    }
}

/// The rate of an optional field; a missing field reads as `0/1`.
pub open spec fn opt_rate(o: Option<Seq<char>>) -> u64 {
    match o {
        Some(s) => rate_micro(s),
        None => 0,
    }
}

fn opt_rate_exec(o: &Option<String>) -> (r: u64)
    ensures
        r == opt_rate(opt_view(*o)),
{
    match o {
        Some(s) => parse_rate(&chars_of(s.as_str())),
        None => 0,
    }
}

/// The average frame rate, or the real base rate when the average is not
/// positive.
pub open spec fn stream_fps(st: ProbeStreamView) -> u64 {
    let a = opt_rate(st.avg_frame_rate);
    if a > 0 {
        a
    } else {
        opt_rate(st.r_frame_rate)
    }
}

/// The stream is a video stream.
pub open spec fn is_video(st: ProbeStreamView) -> bool {
    st.codec_type == Some("video"@)
}

/// The stream is an audio stream.
pub open spec fn is_audio(st: ProbeStreamView) -> bool {
    st.codec_type == Some("audio"@)
}

/// `k` is the position of the first video stream, or the number of streams.
pub open spec fn is_first_video(streams: Seq<ProbeStreamView>, k: int) -> bool {
    0 <= k <= streams.len() && (forall|j: int| 0 <= j < k ==> !is_video(#[trigger] streams[j])) && (
    k == streams.len() || is_video(streams[k]))
}

/// The position of the first video stream, or the number of streams.
pub open spec fn first_video(streams: Seq<ProbeStreamView>) -> int {
    choose|k: int| is_first_video(streams, k)
}

/// Some stream is an audio stream.
pub open spec fn any_audio(streams: Seq<ProbeStreamView>) -> bool {
    exists|i: int| 0 <= i < streams.len() && is_audio(#[trigger] streams[i])
}

/// A frame dimension, zero when missing, at most 65536.
pub open spec fn clamp_dim(o: Option<u64>) -> u32 {
    match o {
        Some(v) => if v < 65536 {
            v as u32
        } else {
            65536
        },
        None => 0,
    }
}

/// A count written as text, zero when missing or unreadable.
pub open spec fn count_or_zero(o: Option<Seq<char>>) -> u64 {
    match o {
        Some(t) => match u64_text(t) {
            Some(v) => v,
            None => 0,
        },
        None => 0,
    }
}

/// A duration in seconds written as text, as microseconds rounded up (so
/// that a positive duration is never zero); `u64::MAX` for positive
/// infinity; zero when missing, unreadable, negative or not a number.
pub open spec fn seconds_or_zero(o: Option<Seq<char>>) -> u64 {
    match o {
        Some(t) => match reading_text(t) {
            Some(Reading::Finite { negative, micros }) => if negative {
                0
            } else {
                micros
            },
            Some(Reading::Infinite { negative }) => if negative {
                0
            } else {
                u64::MAX
            },
            _ => 0,
        },
        None => 0,
    }
}

/// The container is one of ffmpeg's still-image demuxers.
pub open spec fn is_image_container(f: Seq<char>) -> bool {
    ||| contains_seq(f, "image2"@)
    ||| contains_seq(f, "png_pipe"@)
    ||| contains_seq(f, "jpeg_pipe"@)
    ||| contains_seq(f, "webp_pipe"@)
    ||| contains_seq(f, "bmp_pipe"@)
    ||| contains_seq(f, "tiff_pipe"@)
}

/// The kind as the container and the frame count show it: a still-image
/// container with at most one frame is a still; a GIF is animated when it
/// lasts more than 90 ms or has several frames; animated WebP, APNG and
/// multi-frame image containers are animations; everything else is video.
pub open spec fn container_kind(f: Seq<char>, fmt_us: u64, nb_frames: u64) -> MediaKind {
    if is_image_container(f) && nb_frames <= 1 {
        MediaKind::Image
    } else if f == "gif"@ {
        if fmt_us > 90_000 || nb_frames > 1 {
            MediaKind::Anim
        } else {
            MediaKind::Image
        }
    } else if f == "webp_anim"@ || contains_seq(f, "apng"@) || is_image_container(f) {
        MediaKind::Anim
    } else {
        MediaKind::Video
    }
}

/// The pixel formats that carry an alpha plane.
pub open spec fn is_alpha_format(p: Seq<char>) -> bool {
    ||| p == "rgba"@
    ||| p == "bgra"@
    ||| p == "argb"@
    ||| p == "abgr"@
    ||| p == "ya8"@
    ||| p == "ya16le"@
    ||| p == "ya16be"@
    ||| p == "yuva420p"@
    ||| p == "yuva422p"@
    ||| p == "yuva444p"@
    ||| p == "yuva420p10le"@
    ||| p == "yuva420p12le"@
    ||| p == "yuva422p10le"@
    ||| p == "yuva422p12le"@
    ||| p == "yuva444p10le"@
    ||| p == "yuva444p12le"@
    ||| p == "yuva444p16le"@
    ||| p == "gbrap"@
    ||| p == "gbrap10le"@
    ||| p == "gbrap12le"@
    ||| p == "gbrap16le"@
    ||| p == "rgba64le"@
    ||| p == "rgba64be"@
}

/// A browser view plays the file directly: common image extensions always,
/// MP4 only with H.264, WebM only with VP8 or VP9.
pub open spec fn playable_in_browser(ext_lower: Seq<char>, vcodec: Seq<char>) -> bool {
    if ext_lower == "png"@ || ext_lower == "jpg"@ || ext_lower == "jpeg"@ || ext_lower == "webp"@
        || ext_lower == "bmp"@ || ext_lower == "gif"@ {
        true
    } else if ext_lower == "mp4"@ || ext_lower == "m4v"@ {
        vcodec == "h264"@
    } else if ext_lower == "webm"@ {
        vcodec == "vp8"@ || vcodec == "vp9"@
    } else {
        false
    }
}

/// The duration of `packets` frames at `fps` (ten frames per second when
/// the rate is unknown), in microseconds rounded up, so that a positive
/// duration is never zero.
pub open spec fn packets_duration(packets: u64, fps: u64) -> u64 {
    let f = if fps > 0 {
        fps
    } else {
        10_000_000
    };
    saturate_u64(((packets as nat * 1_000_000_000_000 + f - 1) / f as int) as nat)
}

/// The report needs a packet count: it names a moving kind but no positive
/// duration (animated WebP, for instance). The count only matters then.
pub open spec fn needs_packet_count(r: ProbeReportView) -> bool {
    let k = first_video(r.streams);
    k < r.streams.len() && clamp_dim(r.streams[k].width) != 0 && clamp_dim(r.streams[k].height)
        != 0 && container_kind(
        or_empty(r.format_name),
        seconds_or_zero(r.duration),
        count_or_zero(r.streams[k].nb_frames),
    ) != MediaKind::Image && seconds_or_zero(r.duration) == 0
}

/// What the report says of the file, or why it cannot be used. `packets`
/// is the number of video packets, which decides a report without duration:
/// at most one packet makes it a still, more give the duration at the
/// stream's frame rate.
pub open spec fn media_info_spec(r: ProbeReportView, ext: Seq<char>, size: u64, packets: u64) -> Result<
    MediaInfoView,
    Seq<char>,
> {
    let f = or_empty(r.format_name);
    let fmt_us = seconds_or_zero(r.duration);
    let k = first_video(r.streams);
    if k == r.streams.len() {
        Err("Видеопоток не найден"@)
    } else {
        let st = r.streams[k];
        let w = clamp_dim(st.width);
        let h = clamp_dim(st.height);
        if w == 0 || h == 0 {
            Err("Не удалось определить размеры кадра"@)
        } else {
            let nb = count_or_zero(st.nb_frames);
            let fps = stream_fps(st);
            let kind0 = container_kind(f, fmt_us, nb);
            let dur0: u64 = if kind0 == MediaKind::Image {
                0
            } else {
                fmt_us
            };
            let kind = if kind0 != MediaKind::Image && dur0 == 0 && packets <= 1 {
                MediaKind::Image
            } else {
                kind0
            };
            let dur = if kind0 != MediaKind::Image && dur0 == 0 && packets > 1 {
                packets_duration(packets, fps)
            } else {
                dur0
            };
            let vcodec = or_empty(st.codec_name);
            Ok(
                MediaInfoView {
                    kind,
                    width: w,
                    height: h,
                    duration_us: dur,
                    fps_micro: fps,
                    size_bytes: size,
                    vcodec,
                    format_name: f,
                    has_alpha: is_alpha_format(or_empty(st.pix_fmt)) || st.alpha_mode == Some(
                        "1"@,
                    ),
                    has_audio: any_audio(r.streams),
                    browser_playable: playable_in_browser(ascii_lowercase(ext), vcodec),
                },
            )
        }
    }
}


/// Whether an optional field holds exactly `lit`.
fn opt_is(o: &Option<String>, lit: &str) -> (r: bool)
    ensures
        r == (opt_view(*o) == Some(lit@)),
{
    match o {
        Some(s) => crate::text::same_text(s, lit),
        None => false,
    }
}

/// An optional field, or the empty string.
fn or_empty_string(o: &Option<String>) -> (r: String)
    ensures
        r@ == or_empty(opt_view(*o)),
{
    match o {
        Some(s) => owned(s.as_str()),
        None => String::new(),
    }
}

/// The position of the first video stream, or the number of streams.
fn find_video(streams: &Vec<ProbeStream>) -> (k: usize)
    ensures
        k <= streams.len(),
        k == first_video(streams@.map_values(|s: ProbeStream| s@)),
{
    let ghost v = streams@.map_values(|s: ProbeStream| s@);
    let mut k: usize = 0;
    while k < streams.len() && !opt_is(&streams[k].codec_type, "video")
        invariant
            k <= streams.len(),
            v == streams@.map_values(|s: ProbeStream| s@),
            forall|j: int| 0 <= j < k ==> !is_video(#[trigger] v[j]),
        decreases streams.len() - k,
    {
        assert(v[k as int] == streams@[k as int]@);
        k = k + 1;
    }
    proof {
        if k < streams.len() {
            assert(v[k as int] == streams@[k as int]@);
        }
        assert(is_first_video(v, k as int));
        let c = first_video(v);
        assert(is_first_video(v, c));
    }
    k
}

/// Whether some stream is an audio stream.
fn has_audio_stream(streams: &Vec<ProbeStream>) -> (r: bool)
    ensures
        r == any_audio(streams@.map_values(|s: ProbeStream| s@)),
{
    let ghost v = streams@.map_values(|s: ProbeStream| s@);
    let mut k: usize = 0;
    while k < streams.len()
        invariant
            k <= streams.len(),
            v == streams@.map_values(|s: ProbeStream| s@),
            forall|j: int| 0 <= j < k ==> !is_audio(#[trigger] v[j]),
        decreases streams.len() - k,
    {
        assert(v[k as int] == streams@[k as int]@);
        if opt_is(&streams[k].codec_type, "audio") {
            return true;
        }
        k = k + 1;
    }
    false
}

fn clamp_dim_exec(o: Option<u64>) -> (r: u32)
    ensures
        r == clamp_dim(o),
{
    match o {
        Some(v) => if v < 65536 {
            v as u32
        } else {
            65536
        },
        None => 0,
    }
}

fn count_or_zero_exec(o: &Option<String>) -> (r: u64)
    ensures
        r == count_or_zero(opt_view(*o)),
{
    match o {
        Some(t) => match parse_u64_text(&chars_of(t.as_str())) {
            Some(v) => v,
            None => 0,
        },
        None => 0,
    }
}

fn seconds_or_zero_exec(o: &Option<String>) -> (r: u64)
    ensures
        r == seconds_or_zero(opt_view(*o)),
{
    match o {
        Some(t) => match parse_reading(&chars_of(t.as_str())) {
            Some(Reading::Finite { negative, micros }) => if negative {
                0
            } else {
                micros
            },
            Some(Reading::Infinite { negative }) => if negative {
                0
            } else {
                u64::MAX
            },
            _ => 0,
        },
        None => 0,
    }
}

fn is_image_container_exec(f: &Vec<char>) -> (r: bool)
    ensures
        r == is_image_container(f@),
{
    contains_exec(f, "image2") || contains_exec(f, "png_pipe") || contains_exec(f, "jpeg_pipe")
        || contains_exec(f, "webp_pipe") || contains_exec(f, "bmp_pipe") || contains_exec(
        f,
        "tiff_pipe",
    )
}

fn container_kind_exec(f: &String, fmt_us: u64, nb_frames: u64) -> (r: MediaKind)
    ensures
        r == container_kind(f@, fmt_us, nb_frames),
{
    let fc = chars_of(f.as_str());
    let img = is_image_container_exec(&fc);
    if img && nb_frames <= 1 {
        MediaKind::Image
    } else if crate::text::same_text(f, "gif") {
        if fmt_us > 90_000 || nb_frames > 1 {
            MediaKind::Anim
        } else {
            MediaKind::Image
        }
    } else if crate::text::same_text(f, "webp_anim") || contains_exec(&fc, "apng") || img {
        MediaKind::Anim
    } else {
        MediaKind::Video
    }
}

fn is_alpha_format_exec(p: &String) -> (r: bool)
    ensures
        r == is_alpha_format(p@),
{
    let names = [
        "rgba",
        "bgra",
        "argb",
        "abgr",
        "ya8",
        "ya16le",
        "ya16be",
        "yuva420p",
        "yuva422p",
        "yuva444p",
        "yuva420p10le",
        "yuva420p12le",
        "yuva422p10le",
        "yuva422p12le",
        "yuva444p10le",
        "yuva444p12le",
        "yuva444p16le",
        "gbrap",
        "gbrap10le",
        "gbrap12le",
        "gbrap16le",
        "rgba64le",
        "rgba64be",
    ];
    let same = crate::text::same_text(p, names[0]) || crate::text::same_text(p, names[1])
        || crate::text::same_text(p, names[2]) || crate::text::same_text(p, names[3])
        || crate::text::same_text(p, names[4]) || crate::text::same_text(p, names[5])
        || crate::text::same_text(p, names[6]) || crate::text::same_text(p, names[7])
        || crate::text::same_text(p, names[8]) || crate::text::same_text(p, names[9])
        || crate::text::same_text(p, names[10]) || crate::text::same_text(p, names[11])
        || crate::text::same_text(p, names[12]) || crate::text::same_text(p, names[13])
        || crate::text::same_text(p, names[14]) || crate::text::same_text(p, names[15])
        || crate::text::same_text(p, names[16]) || crate::text::same_text(p, names[17])
        || crate::text::same_text(p, names[18]) || crate::text::same_text(p, names[19])
        || crate::text::same_text(p, names[20]) || crate::text::same_text(p, names[21])
        || crate::text::same_text(p, names[22]);
    same
}


fn playable_exec(ext_lower: &Vec<char>, vcodec: &String) -> (r: bool)
    ensures
        r == playable_in_browser(ext_lower@, vcodec@),
{
    let e = crate::text::string_from_chars(ext_lower);
    if crate::text::same_text(&e, "png") || crate::text::same_text(&e, "jpg")
        || crate::text::same_text(&e, "jpeg") || crate::text::same_text(&e, "webp")
        || crate::text::same_text(&e, "bmp") || crate::text::same_text(&e, "gif") {
        true
    } else if crate::text::same_text(&e, "mp4") || crate::text::same_text(&e, "m4v") {
        crate::text::same_text(vcodec, "h264")
    } else if crate::text::same_text(&e, "webm") {
        crate::text::same_text(vcodec, "vp8") || crate::text::same_text(vcodec, "vp9")
    } else {
        false
    }
}

fn packets_duration_exec(packets: u64, fps: u64) -> (r: u64)
    ensures
        r == packets_duration(packets, fps),
{
    let f: u64 = if fps > 0 { fps } else { 10_000_000 };
    let d: u128 = (packets as u128 * 1_000_000_000_000 + f as u128 - 1) / f as u128;
    if d > 0xffff_ffff_ffff_ffffu128 {
        0xffff_ffff_ffff_ffff
    } else {
        d as u64
    }
}

/// Whether the report needs a packet count (see `needs_packet_count`).
pub fn probe_needs_packet_count(report: &ProbeReport) -> (r: bool)
    ensures
        r == needs_packet_count(report@),
{
    let ghost v = report@;
    let k = find_video(&report.streams);
    if k == report.streams.len() {
        return false;
    }
    assert(v.streams[k as int] == report.streams@[k as int]@);
    let st = &report.streams[k];
    let w = clamp_dim_exec(st.width);
    let h = clamp_dim_exec(st.height);
    if w == 0 || h == 0 {
        return false;
    }
    let f = or_empty_string(&report.format_name);
    let fmt_us = seconds_or_zero_exec(&report.duration);
    let nb = count_or_zero_exec(&st.nb_frames);
    let kind0 = container_kind_exec(&f, fmt_us, nb);
    kind0 != MediaKind::Image && fmt_us == 0
}

/// Reads what the ffprobe report says of a file with extension `ext` and
/// `size` bytes. `packets` is the number of video packets in the file and
/// is read only when `probe_needs_packet_count` holds (pass 0 when the
/// count could not be had).
pub fn media_info(report: &ProbeReport, ext: &str, size: u64, packets: u64) -> (r: Result<
    MediaInfo,
    String,
>)
    ensures
        match (r, media_info_spec(report@, ext@, size, packets)) {
            (Ok(info), Ok(v)) => info@ == v,
            (Err(e), Err(m)) => e@ == m,
            _ => false,
        },
{
    let ghost v = report@;
    let k = find_video(&report.streams);
    if k == report.streams.len() {
        return Err(owned("Видеопоток не найден"));
    }
    assert(v.streams[k as int] == report.streams@[k as int]@);
    let st = &report.streams[k];
    let w = clamp_dim_exec(st.width);
    let h = clamp_dim_exec(st.height);
    if w == 0 || h == 0 {
        return Err(owned("Не удалось определить размеры кадра"));
    }
    let f = or_empty_string(&report.format_name);
    let fmt_us = seconds_or_zero_exec(&report.duration);
    let nb = count_or_zero_exec(&st.nb_frames);
    let a = opt_rate_exec(&st.avg_frame_rate);
    let fps = if a > 0 { a } else { opt_rate_exec(&st.r_frame_rate) };
    let kind0 = container_kind_exec(&f, fmt_us, nb);
    let dur0: u64 = if kind0 == MediaKind::Image { 0 } else { fmt_us };
    let mut kind = kind0;
    let mut dur = dur0;
    if kind0 != MediaKind::Image && dur0 == 0 {
        if packets <= 1 {
            kind = MediaKind::Image;
        } else {
            dur = packets_duration_exec(packets, fps);
        }
    }
    let vcodec = or_empty_string(&st.codec_name);
    let pix = or_empty_string(&st.pix_fmt);
    let has_alpha = is_alpha_format_exec(&pix) || opt_is(&st.alpha_mode, "1");
    let has_audio = has_audio_stream(&report.streams);
    let ext_lower = ascii_lowercase_exec(&chars_of(ext));
    let browser_playable = playable_exec(&ext_lower, &vcodec);
    Ok(
        MediaInfo {
            kind,
            width: w,
            height: h,
            duration_us: dur,
            fps_micro: fps,
            size_bytes: size,
            vcodec,
            format_name: f,
            has_alpha,
            has_audio,
            browser_playable,
        },
    )
}


/// The duration ffprobe prints for a finished file (`format=duration` as
/// CSV), in seconds: the trimmed text read as `f64::from_str` reads it.
pub open spec fn printed_duration(text: Seq<char>) -> Option<Reading> {
    reading_text(trimmed(text))
}

/// Reads the duration ffprobe printed for a finished file.
pub fn duration_from_text(text: &str) -> (r: Result<Reading, String>)
    ensures
        match r {
            Ok(d) => printed_duration(text@) == Some(d),
            Err(e) => printed_duration(text@) is None && e@ == "Не удалось определить длительность"@,
        },
{
    let t = trim_chars(&chars_of(text));
    match parse_reading(&t) {
        Some(d) => Ok(d),
        None => Err(owned("Не удалось определить длительность")),
    }
}

/// The packet count ffprobe printed (`stream=nb_read_packets` as CSV).
pub open spec fn printed_count(text: Seq<char>) -> Option<u64> {
    u64_text(trimmed(text))
}

/// Reads the packet count ffprobe printed.
pub fn packet_count_from_text(text: &str) -> (r: Result<u64, String>)
    ensures
        match r {
            Ok(n) => printed_count(text@) == Some(n),
            Err(e) => printed_count(text@) is None && e@ == "count_packets: нет данных"@,
        },
{
    let t = trim_chars(&chars_of(text));
    match parse_u64_text(&t) {
        Some(n) => Ok(n),
        None => Err(owned("count_packets: нет данных")),
    }
}


proof fn lemma_first_video_exists(s: Seq<ProbeStreamView>)
    ensures
        is_first_video(s, first_video(s)),
    decreases s.len(),
{
    if s.len() == 0 {
        assert(is_first_video(s, 0));
    } else {
        let u = s.drop_last();
        lemma_first_video_exists(u);
        let j = first_video(u);
        if j < u.len() {
            assert(is_first_video(s, j)) by {
                assert forall|m: int| 0 <= m < j implies !is_video(#[trigger] s[m]) by {
                    assert(s[m] == u[m]);
                }
                assert(s[j] == u[j]);
            }
        } else if is_video(s.last()) {
            assert(is_first_video(s, u.len() as int)) by {
                assert forall|m: int| 0 <= m < u.len() implies !is_video(#[trigger] s[m]) by {
                    assert(s[m] == u[m]);
                }
            }
        } else {
            assert(is_first_video(s, s.len() as int)) by {
                assert forall|m: int| 0 <= m < s.len() implies !is_video(#[trigger] s[m]) by {
                    if m < u.len() {
                        assert(s[m] == u[m]);
                    }
                }
            }
        }
    }
}

/// A still, and only a still, has no duration; and a file the report
/// accepts always has a frame of at least one by one pixel.
pub proof fn still_has_no_duration(r: ProbeReportView, ext: Seq<char>, size: u64, packets: u64)
    ensures
        media_info_spec(r, ext, size, packets) matches Ok(info) ==> (info.kind == MediaKind::Image
            <==> info.duration_us == 0) && info.width >= 1 && info.height >= 1,
{
    let k = first_video(r.streams);
    lemma_first_video_exists(r.streams);
    if packets > 1 && k < r.streams.len() {
        let fps = stream_fps(r.streams[k]);
        let f: int = if fps > 0 {
            fps as int
        } else {
            10_000_000
        };
        let x: int = packets * 1_000_000_000_000;
        assert((x + f - 1) / f >= 1) by (nonlinear_arith)
            requires
                x >= 1,
                f >= 1,
        ;
        assert(packets_duration(packets, fps) >= 1);
    }
}

/// Transparency is kept exactly for the formats that carry an alpha plane
/// (packed RGB with alpha, grey with alpha, planar YUV and GBR with alpha,
/// 64-bit RGBA) and for streams tagged `alpha_mode=1` (VP8/VP9 in WebM).
pub proof fn alpha_formats_keep_alpha(r: ProbeReportView, ext: Seq<char>, size: u64, packets: u64)
    ensures
        media_info_spec(r, ext, size, packets) matches Ok(info) ==> {
            let st = r.streams[first_video(r.streams)];
            let pf = or_empty(st.pix_fmt);
            let carries_alpha = {
            ||| pf == "rgba"@
            ||| pf == "bgra"@
            ||| pf == "argb"@
            ||| pf == "abgr"@
            ||| pf == "ya8"@
            ||| pf == "ya16le"@
            ||| pf == "ya16be"@
            ||| pf == "yuva420p"@
            ||| pf == "yuva422p"@
            ||| pf == "yuva444p"@
            ||| pf == "yuva420p10le"@
            ||| pf == "yuva420p12le"@
            ||| pf == "yuva422p10le"@
            ||| pf == "yuva422p12le"@
            ||| pf == "yuva444p10le"@
            ||| pf == "yuva444p12le"@
            ||| pf == "yuva444p16le"@
            ||| pf == "gbrap"@
            ||| pf == "gbrap10le"@
            ||| pf == "gbrap12le"@
            ||| pf == "gbrap16le"@
            ||| pf == "rgba64le"@
            ||| pf == "rgba64be"@
            };
            info.has_alpha == (carries_alpha || st.alpha_mode == Some("1"@))
        },
{
}

} // verus!
