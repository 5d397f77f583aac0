use sticker_nah::params::{validate, ConvertParams};
use sticker_nah::plan::{
    plan_conversion, Conversion, ImageAction, ImagePlan, VideoAction, VideoPhase, VideoPlan,
};
use sticker_nah::text::Reading;

fn secs(micros: u64) -> Option<Reading> {
    Some(Reading::Finite { negative: false, micros })
}

fn params(input: &str, kind: &str, dur_s: f64, fps: f64, scale_mode: &str) -> ConvertParams {
    let trim_end = if dur_s < 3.0 { dur_s } else { 3.0 };
    ConvertParams {
        input: input.to_string(),
        kind: kind.to_string(),
        out_dir: Some("/tmp/sticker-nah-tests".to_string()),
        out_path: None,
        trim_start_us: 0,
        trim_end_us: (trim_end * 1_000_000.0).round() as u64,
        width: 512,
        height: 512,
        scale_mode: scale_mode.to_string(),
        speed: false,
        format: "vp9".to_string(),
        fps_limit_micro: 30_000_000,
        input_fps_micro: (fps * 1_000_000.0).round() as u64,
        has_alpha: false,
        max_kb: 256,
    }
}

#[test]
fn unknown_format_rejected() {
    let mut p = params("photo.png", "image", 0.0, 0.0, "stretch");
    p.format = "gif".into();
    assert!(plan_conversion(&p).is_err());
    assert_eq!(
        validate(&p),
        Err("Неподдерживаемый выходной формат: gif".to_string())
    );
}

#[test]
fn validation_messages_in_order() {
    let ok = params("a.mp4", "video", 10.0, 30.0, "stretch");
    assert_eq!(validate(&ok), Ok(()));

    let mut p = ok.clone();
    p.scale_mode = "fit".into();
    assert_eq!(validate(&p), Err("Неподдерживаемый режим масштабирования".to_string()));

    let mut p = ok.clone();
    p.width = 15;
    assert_eq!(validate(&p), Err("Недопустимый размер выхода".to_string()));
    let mut p = ok.clone();
    p.height = 1025;
    assert_eq!(validate(&p), Err("Недопустимый размер выхода".to_string()));

    let mut p = ok.clone();
    p.fps_limit_micro = u64::MAX;
    assert_eq!(validate(&p), Err("Недопустимые параметры времени/частоты".to_string()));

    let mut p = ok.clone();
    p.trim_start_us = 2_000_000;
    p.trim_end_us = 1_000_000;
    assert_eq!(validate(&p), Err("Конец обрезки раньше начала".to_string()));

    let mut p = ok.clone();
    p.max_kb = 15;
    assert_eq!(validate(&p), Err("Недопустимый лимит размера".to_string()));

    let mut p = ok.clone();
    p.out_path = Some("/tmp/x.mp4".into());
    assert_eq!(validate(&p), Err("Недопустимый путь выхода".to_string()));
    p.out_path = Some("/tmp/x.webm".into());
    assert_eq!(validate(&p), Ok(()));

    // format is checked before everything else
    let mut p = ok.clone();
    p.format = "av1".into();
    p.width = 1;
    assert_eq!(validate(&p), Err("Неподдерживаемый выходной формат: av1".to_string()));
}

#[test]
fn still_image_walks_the_quality_ladder() {
    let p = params("photo.png", "image", 0.0, 0.0, "cover");
    let (mut plan, crf) = ImagePlan::new(&p);
    assert_eq!(crf, 30);
    assert_eq!(plan.after_encode(300_000), ImageAction::Encode(40));
    assert_eq!(plan.after_encode(300_000), ImageAction::Encode(50));
    assert_eq!(plan.after_encode(300_000), ImageAction::Encode(63));
    match plan.after_encode(270_000) {
        ImageAction::Finish(o) => {
            assert!(!o.fits);
            assert_eq!(o.attempts, 4);
            assert_eq!(o.out_size, 270_000);
            assert_eq!(o.duration_us, 0);
        }
        other => panic!("unexpected {other:?}"),
    }
}

#[test]
fn still_image_stops_when_it_fits() {
    let p = params("photo.png", "image", 0.0, 0.0, "cover");
    match plan_conversion(&p).unwrap() {
        Conversion::Still(mut plan, crf) => {
            assert_eq!(crf, 30);
            match plan.after_encode(262_144) {
                ImageAction::Finish(o) => {
                    assert!(o.fits);
                    assert_eq!(o.attempts, 1);
                }
                other => panic!("unexpected {other:?}"),
            }
        }
        _ => panic!("a still expected"),
    }
}

#[test]
fn video_first_attempt_spends_the_budget() {
    let p = params("long_1080p.mp4", "video", 10.0, 30.0, "stretch");
    let (plan, first) = VideoPlan::new(&p);
    assert_eq!(first.number, 1);
    assert_eq!(first.in_us, 3_000_000);
    assert_eq!(first.out_us, 3_000_000);
    assert_eq!(first.fps_micro, 30_000_000);
    // (262144 - 2048) * 7360 / 3000000
    assert_eq!(first.bitrate, 638);
    assert_eq!(plan.ladder, vec![30_000_000, 24_000_000, 20_000_000, 15_000_000]);
}

#[test]
fn conversion_of_a_video_starts_fresh() {
    let mut p = params("long_1080p.mp4", "video", 10.0, 30.0, "stretch");
    p.speed = true;
    p.trim_end_us = 6_000_000;
    match plan_conversion(&p).unwrap() {
        Conversion::Motion(plan, first) => {
            assert_eq!(plan.in_us, 6_000_000);
            assert_eq!(plan.out_us, 3_000_000);
            assert_eq!(plan.target_bytes, 262_144 - 2048);
            assert_eq!(plan.bitrate, 638);
            assert!(!plan.duration_retried);
            assert_eq!(first.number, 1);
            assert_eq!(first.bitrate, 638);
        }
        _ => panic!("a video expected"),
    }
}

#[test]
fn speed_retimes_to_three_seconds() {
    let mut p = params("long_1080p.mp4", "video", 10.0, 30.0, "stretch");
    p.speed = true;
    p.trim_end_us = 6_000_000;
    let (_, first) = VideoPlan::new(&p);
    assert_eq!(first.in_us, 6_000_000);
    assert_eq!(first.out_us, 3_000_000);

    p.trim_end_us = 1_500_000;
    let (_, first) = VideoPlan::new(&p);
    assert_eq!(first.in_us, 1_500_000);
    assert_eq!(first.out_us, 3_000_000);
}

#[test]
fn short_segments_last_at_least_50_ms() {
    let mut p = params("a.gif", "anim", 0.0, 15.0, "stretch");
    p.trim_end_us = 10_000;
    let (_, first) = VideoPlan::new(&p);
    assert_eq!(first.in_us, 50_000);
    assert_eq!(first.out_us, 50_000);
    assert_eq!(first.bitrate, 4000);
}

#[test]
fn video_shrinks_bitrate_then_frame_rate() {
    let p = params("long_1080p.mp4", "video", 10.0, 30.0, "stretch");
    let (mut plan, first) = VideoPlan::new(&p);
    assert_eq!(first.bitrate, 638);
    // twice the budget: 638 * 260096 * 93 / (100 * 520192) = 296
    match plan.after_encode(520_192) {
        VideoAction::Encode(a) => {
            assert_eq!(a.number, 2);
            assert_eq!(a.bitrate, 296);
            assert_eq!(a.fps_micro, 30_000_000);
        }
        other => panic!("unexpected {other:?}"),
    }
    // far over budget: below 150 kbit/s, so the next frame rate with a fresh bitrate
    match plan.after_encode(2_000_000) {
        VideoAction::Encode(a) => {
            assert_eq!(a.number, 3);
            assert_eq!(a.fps_micro, 24_000_000);
            assert_eq!(a.bitrate, 638);
        }
        other => panic!("unexpected {other:?}"),
    }
}

#[test]
fn video_gives_up_after_eight_attempts() {
    let p = params("long_1080p.mp4", "video", 10.0, 30.0, "stretch");
    let (mut plan, _) = VideoPlan::new(&p);
    let mut last = None;
    for _ in 0..8 {
        last = Some(plan.after_encode(10_000_000));
    }
    match last.unwrap() {
        VideoAction::Finish(o) => {
            assert!(!o.fits);
            assert_eq!(o.attempts, 8);
            assert_eq!(o.out_size, 10_000_000);
            assert_eq!(o.duration_us, 3_000_000);
        }
        other => panic!("unexpected {other:?}"),
    }
    assert_eq!(plan.phase, VideoPhase::Finished);
}

#[test]
fn too_long_output_is_encoded_once_more() {
    let p = params("long_1080p.mp4", "video", 10.0, 30.0, "stretch");
    let (mut plan, _) = VideoPlan::new(&p);
    assert_eq!(plan.after_encode(200_000), VideoAction::Measure);
    // 3.1 s measured: 3000000 * 2980000 / 3100000 = 2883870
    match plan.after_measure(secs(3_100_000)) {
        VideoAction::Encode(a) => {
            assert_eq!(a.number, 2);
            assert_eq!(a.in_us, 2_883_870);
            assert_eq!(a.out_us, 2_883_870);
        }
        other => panic!("unexpected {other:?}"),
    }
    assert_eq!(plan.after_encode(200_000), VideoAction::Measure);
    // only one correction: a file still too long ends the loop, fitting
    // the size limit, with its measured duration
    match plan.after_measure(secs(3_010_000)) {
        VideoAction::Finish(o) => {
            assert!(o.fits);
            assert_eq!(o.duration_us, 3_010_000);
            assert_eq!(o.attempts, 2);
            assert_eq!(o.out_size, 200_000);
        }
        other => panic!("unexpected {other:?}"),
    }
}

#[test]
fn no_ninth_attempt_for_a_long_file() {
    let p = params("long_1080p.mp4", "video", 10.0, 30.0, "stretch");
    let (mut plan, _) = VideoPlan::new(&p);
    for _ in 0..7 {
        assert!(matches!(plan.after_encode(10_000_000), VideoAction::Encode(_)));
    }
    assert_eq!(plan.attempts, 8);
    assert_eq!(plan.after_encode(100_000), VideoAction::Measure);
    match plan.after_measure(secs(3_200_000)) {
        VideoAction::Finish(o) => {
            assert!(o.fits);
            assert_eq!(o.attempts, 8);
            assert_eq!(o.out_size, 100_000);
            assert_eq!(o.duration_us, 3_200_000);
        }
        other => panic!("unexpected {other:?}"),
    }
}

#[test]
fn tolerance_is_exact() {
    let p = params("clip.webm", "video", 3.0, 30.0, "stretch");
    let (mut plan, _) = VideoPlan::new(&p);
    assert_eq!(plan.after_encode(100), VideoAction::Measure);
    // 3.005 s exactly is accepted
    match plan.after_measure(secs(3_005_000)) {
        VideoAction::Finish(o) => {
            assert!(o.fits);
            assert_eq!(o.duration_us, 3_005_000);
        }
        other => panic!("unexpected {other:?}"),
    }
    // a hair above it (rounded up to 3005001 us) is encoded again
    let (mut plan, _) = VideoPlan::new(&p);
    assert_eq!(plan.after_encode(100), VideoAction::Measure);
    assert!(matches!(plan.after_measure(secs(3_005_001)), VideoAction::Encode(_)));
}

#[test]
fn unusual_measurements() {
    let p = params("clip.webm", "video", 3.0, 30.0, "stretch");
    // an infinite duration leaves only the shortest segment
    let (mut plan, _) = VideoPlan::new(&p);
    assert_eq!(plan.after_encode(100), VideoAction::Measure);
    match plan.after_measure(Some(Reading::Infinite { negative: false })) {
        VideoAction::Encode(a) => {
            assert_eq!(a.in_us, 100_000);
            assert_eq!(a.out_us, 100_000);
        }
        other => panic!("unexpected {other:?}"),
    }
    // not a number, or negative: the planned duration is reported
    for m in [Reading::NotANumber, Reading::Finite { negative: true, micros: 5 }] {
        let (mut plan, _) = VideoPlan::new(&p);
        assert_eq!(plan.after_encode(100), VideoAction::Measure);
        match plan.after_measure(Some(m)) {
            VideoAction::Finish(o) => {
                assert!(o.fits);
                assert_eq!(o.duration_us, 3_000_000);
            }
            other => panic!("unexpected {other:?}"),
        }
    }
}

#[test]
fn unmeasured_duration_counts_as_planned() {
    let p = params("clip.webm", "video", 2.0, 25.0, "cover");
    let (mut plan, first) = VideoPlan::new(&p);
    assert_eq!(first.out_us, 2_000_000);
    assert_eq!(first.fps_micro, 25_000_000);
    assert_eq!(plan.after_encode(100), VideoAction::Measure);
    match plan.after_measure(None) {
        VideoAction::Finish(o) => {
            assert_eq!(o.duration_us, 2_000_000);
            assert!(o.fits);
        }
        other => panic!("unexpected {other:?}"),
    }
}

#[test]
fn low_frame_rate_sources_keep_their_rate() {
    let p = params("anim.gif", "anim", 4.0, 15.0, "stretch");
    let (plan, first) = VideoPlan::new(&p);
    assert_eq!(first.fps_micro, 15_000_000);
    assert_eq!(plan.ladder, vec![15_000_000, 15_000_000]);
}
