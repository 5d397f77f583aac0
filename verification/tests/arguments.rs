use sticker_nah::filters::{encode_args, image_args, proxy_args, vf_chain};
use sticker_nah::params::ConvertParams;
use sticker_nah::platform::Platform;

fn params(scale_mode: &str, has_alpha: bool) -> ConvertParams {
    ConvertParams {
        input: "/media/in put.mp4".to_string(),
        kind: "video".to_string(),
        out_dir: None,
        out_path: None,
        trim_start_us: 0,
        trim_end_us: 3_000_000,
        width: 512,
        height: 384,
        scale_mode: scale_mode.to_string(),
        speed: false,
        format: "vp9".to_string(),
        fps_limit_micro: 30_000_000,
        input_fps_micro: 29_970_030,
        has_alpha,
        max_kb: 256,
    }
}

fn strs(v: &[&str]) -> Vec<String> {
    v.iter().map(|s| s.to_string()).collect()
}

#[test]
fn filter_graph_stretch() {
    let p = params("stretch", false);
    assert_eq!(
        vf_chain(&p, Some(30_000_000), 1, 1),
        "fps=30.0000,scale=512:384:flags=lanczos,format=yuv420p"
    );
    assert_eq!(vf_chain(&p, None, 1, 1), "scale=512:384:flags=lanczos,format=yuv420p");
}

#[test]
fn filter_graph_cover_with_alpha_and_retiming() {
    let p = params("cover", true);
    assert_eq!(
        vf_chain(&p, Some(29_970_030), 3_000_000, 6_000_000),
        "setpts=PTS*0.500000,fps=29.9700,scale=512:384:force_original_aspect_ratio=increase:flags=lanczos,crop=512:384,format=yuva420p"
    );
    // slow-down of 1.5 s to 3 s
    assert!(vf_chain(&p, None, 3_000_000, 1_500_000).starts_with("setpts=PTS*2.000000,"));
    // a tempo within a thousandth of 1 is left alone
    assert!(vf_chain(&p, None, 3_002_000, 3_000_000).starts_with("scale="));
    // thirds are rounded to six places
    assert!(vf_chain(&p, None, 1, 3).starts_with("setpts=PTS*0.333333,"));
}

#[test]
fn two_pass_arguments() {
    let mut p = params("stretch", false);
    p.trim_start_us = 1_234_567;
    let first = encode_args(&p, 2_500_000, 640, "VF", 1, "/tmp/pass_1", "/out/x.part.webm", Platform::Unix);
    assert_eq!(
        first,
        strs(&[
            "-y", "-hide_banner", "-loglevel", "error", "-progress", "pipe:1", "-nostats",
            "-ss", "1.235", "-t", "2.500", "-i", "/media/in put.mp4", "-map", "0:v:0",
            "-vf", "VF", "-aspect", "512:384", "-c:v", "libvpx-vp9", "-b:v", "640k",
            "-minrate", "320k", "-maxrate", "928k", "-deadline", "good", "-cpu-used", "4",
            "-row-mt", "1", "-g", "120", "-auto-alt-ref", "1", "-lag-in-frames", "25",
            "-an", "-sn", "-map_metadata", "-1", "-pass", "1", "-passlogfile", "/tmp/pass_1",
            "-f", "null", "/dev/null",
        ])
    );
    let second = encode_args(&p, 2_500_000, 640, "VF", 2, "/tmp/pass_1", "/out/x.part.webm", Platform::Windows);
    assert_eq!(&second[second.len() - 3..], &strs(&["-f", "webm", "/out/x.part.webm"])[..]);
    assert!(second.contains(&"1".to_string()));
    let first_win = encode_args(&p, 2_500_000, 640, "VF", 1, "l", "o", Platform::Windows);
    assert_eq!(first_win.last().unwrap(), "NUL");
}

#[test]
fn alpha_turns_alt_ref_off_and_no_seek_from_start() {
    let p = params("stretch", true);
    let a = encode_args(&p, 3_000_000, 4000, "VF", 2, "l", "o", Platform::Unix);
    assert!(!a.contains(&"-ss".to_string()));
    let i = a.iter().position(|s| s == "-auto-alt-ref").unwrap();
    assert_eq!(a[i + 1], "0");
    assert!(!a.contains(&"-lag-in-frames".to_string()));
    let j = a.iter().position(|s| s == "-maxrate").unwrap();
    assert_eq!(a[j + 1], "5800k");
}

#[test]
fn still_image_arguments() {
    let p = params("cover", false);
    let a = image_args(&p, "VF", 63, "/o.part.webm");
    assert_eq!(
        a,
        strs(&[
            "-y", "-hide_banner", "-loglevel", "error", "-progress", "pipe:1", "-nostats",
            "-i", "/media/in put.mp4", "-map", "0:v:0", "-frames:v", "1", "-vf", "VF",
            "-aspect", "512:384", "-c:v", "libvpx-vp9", "-crf", "63", "-b:v", "0",
            "-cpu-used", "1", "-row-mt", "1", "-an", "-sn", "-map_metadata", "-1",
            "-f", "webm", "/o.part.webm",
        ])
    );
}

#[test]
fn preview_proxy_arguments() {
    let a = proxy_args("in.mkv", "p.part");
    assert_eq!(a[7], "-i");
    assert_eq!(a[8], "in.mkv");
    assert_eq!(a[12], "fps=15,scale=-2:256:flags=bilinear,format=yuv420p");
    assert_eq!(a[14], "libvpx");
    assert_eq!(a.last().unwrap(), "p.part");
    assert_eq!(a.len(), 28);
}
