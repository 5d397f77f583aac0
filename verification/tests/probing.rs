use sticker_nah::probe::{
    duration_from_text, kind_name, media_info, packet_count_from_text, parse_rate,
    probe_needs_packet_count, MediaKind, ProbeReport, ProbeStream,
};
use sticker_nah::text::Reading;

fn stream(codec_type: &str) -> ProbeStream {
    ProbeStream {
        codec_type: Some(codec_type.to_string()),
        width: None,
        height: None,
        codec_name: None,
        pix_fmt: None,
        nb_frames: None,
        avg_frame_rate: None,
        r_frame_rate: None,
        alpha_mode: None,
    }
}

fn video(w: u64, h: u64, codec: &str, pix: &str, rate: &str) -> ProbeStream {
    let mut s = stream("video");
    s.width = Some(w);
    s.height = Some(h);
    s.codec_name = Some(codec.to_string());
    s.pix_fmt = Some(pix.to_string());
    s.avg_frame_rate = Some(rate.to_string());
    s.r_frame_rate = Some(rate.to_string());
    s
}

fn report(format: &str, duration: Option<&str>, streams: Vec<ProbeStream>) -> ProbeReport {
    ProbeReport {
        format_name: Some(format.to_string()),
        duration: duration.map(|d| d.to_string()),
        streams,
    }
}

fn chars(s: &str) -> Vec<char> {
    s.chars().collect()
}

#[test]
fn frame_rates() {
    assert_eq!(parse_rate(&chars("30000/1001")), 29_970_029);
    assert_eq!(parse_rate(&chars("25/1")), 25_000_000);
    assert_eq!(parse_rate(&chars("0/0")), 0);
    assert_eq!(parse_rate(&chars("24")), 24_000_000);
    assert_eq!(parse_rate(&chars("30/abc")), 30_000_000);
    assert_eq!(parse_rate(&chars("30/-2")), 0);
    assert_eq!(parse_rate(&chars("12.5/1/7")), 12_500_000);
    assert_eq!(parse_rate(&chars("")), 0);
    // positive but below a millionth of a frame per second
    assert_eq!(parse_rate(&chars("1/3000000")), 1);
    // each side read as a floating-point text
    assert_eq!(parse_rate(&chars("1e3")), 1_000_000_000);
    assert_eq!(parse_rate(&chars("+30/1")), 30_000_000);
    assert_eq!(parse_rate(&chars("30/inf")), 0);
    assert_eq!(parse_rate(&chars("inf/1")), u64::MAX);
    assert_eq!(parse_rate(&chars("inf/inf")), 0);
    assert_eq!(parse_rate(&chars("NaN/1")), 0);
    assert_eq!(parse_rate(&chars("30/nan")), 0);
    assert_eq!(parse_rate(&chars("-30/1")), 0);
    assert_eq!(parse_rate(&chars("30/0")), 0);
    assert_eq!(parse_rate(&chars("abc")), 0);
}

#[test]
fn mp4_video_with_audio() {
    let r = report(
        "mov,mp4,m4a,3gp,3g2,mj2",
        Some("10.000000"),
        vec![stream("audio"), video(1920, 1080, "h264", "yuv420p", "30/1")],
    );
    assert!(!probe_needs_packet_count(&r));
    let info = media_info(&r, "MP4", 123, 0).unwrap();
    assert_eq!(info.kind, MediaKind::Video);
    assert_eq!(kind_name(info.kind), "video");
    assert_eq!((info.width, info.height), (1920, 1080));
    assert_eq!(info.duration_us, 10_000_000);
    assert_eq!(info.fps_micro, 30_000_000);
    assert_eq!(info.size_bytes, 123);
    assert_eq!(info.vcodec, "h264");
    assert!(info.has_audio);
    assert!(!info.has_alpha);
    assert!(info.browser_playable);
}

#[test]
fn still_png_with_alpha() {
    let mut v = video(800, 600, "png", "rgba", "25/1");
    v.nb_frames = Some("1".to_string());
    let r = report("png_pipe", None, vec![v]);
    let info = media_info(&r, "png", 5, 0).unwrap();
    assert_eq!(info.kind, MediaKind::Image);
    assert_eq!(info.duration_us, 0);
    assert!(info.has_alpha);
    assert!(info.browser_playable);
}

#[test]
fn gif_kinds() {
    let r = report("gif", Some("4.000000"), vec![video(320, 240, "gif", "bgra", "15/1")]);
    assert_eq!(media_info(&r, "gif", 1, 0).unwrap().kind, MediaKind::Anim);
    let r = report("gif", Some("0.050000"), vec![video(320, 240, "gif", "bgra", "15/1")]);
    assert_eq!(media_info(&r, "gif", 1, 0).unwrap().kind, MediaKind::Image);
}

#[test]
fn animated_webp_counts_packets() {
    let r = report("webp_anim", None, vec![video(256, 256, "webp", "argb", "0/0")]);
    assert!(probe_needs_packet_count(&r));
    let info = media_info(&r, "webp", 9, 20).unwrap();
    assert_eq!(info.kind, MediaKind::Anim);
    // 20 packets at the fallback rate of 10 per second
    assert_eq!(info.duration_us, 2_000_000);
    assert!(info.has_alpha);
    let info = media_info(&r, "webp", 9, 1).unwrap();
    assert_eq!(info.kind, MediaKind::Image);
    assert_eq!(info.duration_us, 0);
}

#[test]
fn webm_alpha_tag_and_playability() {
    let mut v = video(512, 512, "vp9", "yuv420p", "30/1");
    v.alpha_mode = Some("1".to_string());
    let r = report("matroska,webm", Some("2.5"), vec![v]);
    let info = media_info(&r, "webm", 1, 0).unwrap();
    assert!(info.has_alpha);
    assert!(info.browser_playable);
    let r2 = report("matroska,webm", Some("2.5"), vec![video(512, 512, "av1", "yuv420p", "30/1")]);
    assert!(!media_info(&r2, "webm", 1, 0).unwrap().browser_playable);
    assert!(!media_info(&r2, "mkv", 1, 0).unwrap().browser_playable);
}

#[test]
fn refused_reports() {
    let r = report("mp3", Some("3.0"), vec![stream("audio")]);
    assert_eq!(media_info(&r, "mp3", 1, 0).unwrap_err(), "Видеопоток не найден");
    let r = report("mp4", Some("3.0"), vec![stream("video")]);
    assert_eq!(media_info(&r, "mp4", 1, 0).unwrap_err(), "Не удалось определить размеры кадра");
}

#[test]
fn tiny_durations_stay_positive() {
    // a container duration below a microsecond
    let r = report("mov,mp4,m4a,3gp,3g2,mj2", Some("0.0000001"), vec![video(64, 64, "h264", "yuv420p", "30/1")]);
    assert!(!probe_needs_packet_count(&r));
    let info = media_info(&r, "mp4", 1, 0).unwrap();
    assert_eq!(info.kind, MediaKind::Video);
    assert_eq!(info.duration_us, 1);
    // two packets at a saturated rate
    let r = report("mp4", None, vec![video(64, 64, "h264", "yuv420p", "20000000000000/1")]);
    assert!(probe_needs_packet_count(&r));
    let info = media_info(&r, "mp4", 1, 2).unwrap();
    assert_eq!(info.kind, MediaKind::Video);
    assert_eq!(info.duration_us, 1);
    // a GIF just over 90 ms is animated
    let r = report("gif", Some("0.0900001"), vec![video(64, 64, "gif", "bgra", "10/1")]);
    assert_eq!(media_info(&r, "gif", 1, 0).unwrap().kind, MediaKind::Anim);
}

#[test]
fn huge_frames_are_clamped() {
    let r = report("mp4", Some("1"), vec![video(100_000, 10, "h264", "yuv420p", "30/1")]);
    assert_eq!(media_info(&r, "mp4", 1, 0).unwrap().width, 65536);
}

#[test]
fn printed_values() {
    let fin = |micros: u64| Ok(Reading::Finite { negative: false, micros });
    assert_eq!(duration_from_text("3.003000\n"), fin(3_003_000));
    // rounded up to the microsecond
    assert_eq!(duration_from_text("  2.9999991 "), fin(3_000_000));
    assert_eq!(duration_from_text("1.5e-7"), fin(1));
    assert_eq!(duration_from_text("0.000000"), fin(0));
    assert_eq!(duration_from_text("1e3"), fin(1_000_000_000));
    assert_eq!(duration_from_text(".5E+1"), fin(5_000_000));
    assert_eq!(duration_from_text("2."), fin(2_000_000));
    assert_eq!(duration_from_text("1e99999999999999999999999"), fin(u64::MAX));
    assert_eq!(duration_from_text("0e99999999999999999999999"), fin(0));
    assert_eq!(duration_from_text("7e-99999999999999999999999"), fin(1));
    assert_eq!(
        duration_from_text("-0.5"),
        Ok(Reading::Finite { negative: true, micros: 500_000 })
    );
    assert_eq!(duration_from_text("inf"), Ok(Reading::Infinite { negative: false }));
    assert_eq!(duration_from_text("-Infinity"), Ok(Reading::Infinite { negative: true }));
    assert_eq!(duration_from_text("NaN"), Ok(Reading::NotANumber));
    for bad in ["1e", ".", "e5", "1.2.3", "infin", "+-1", "1e+"] {
        assert!(duration_from_text(bad).is_err(), "{bad}");
    }
    assert_eq!(
        duration_from_text("N/A"),
        Err("Не удалось определить длительность".to_string())
    );
    assert_eq!(packet_count_from_text("42\r\n"), Ok(42));
    assert_eq!(packet_count_from_text("+7"), Ok(7));
    assert_eq!(packet_count_from_text(""), Err("count_packets: нет данных".to_string()));
    assert_eq!(packet_count_from_text("18446744073709551616"), Err("count_packets: нет данных".to_string()));
}
