use sticker_nah::ffmpeg::{encoder_error, failure_message, progress_from_line, push_tail};
use sticker_nah::jobs::JobState;
use sticker_nah::platform::{
    embedded_tool, is_stale_tool_dir, kill_command, lib_dirs_from_maps, maps_line_lib_dir,
    null_sink, tool_file, tool_path, EmbeddedTool, Platform, ToolChoice,
};

#[test]
fn progress_lines() {
    assert_eq!(progress_from_line("out_time_us=1500000", 3_000_000), Some(500_000));
    assert_eq!(progress_from_line("out_time_ms=4500000", 3_000_000), Some(1_000_000));
    assert_eq!(progress_from_line("out_time_us=-9223372036854775807", 3_000_000), Some(0));
    assert_eq!(progress_from_line("out_time_us=N/A", 3_000_000), None);
    assert_eq!(progress_from_line("frame=12", 3_000_000), None);
    assert_eq!(progress_from_line("out_time_us=10", 0), None);
    assert_eq!(progress_from_line("out_time_us=1.5e6", 3_000_000), Some(500_000));
    assert_eq!(progress_from_line("out_time_us=inf", 3_000_000), Some(1_000_000));
    assert_eq!(progress_from_line("out_time_us=NaN", 3_000_000), None);
}

#[test]
fn error_tail_keeps_thirty_lines() {
    let mut tail: Vec<String> = Vec::new();
    for i in 0..45 {
        push_tail(&mut tail, format!("line {i}"));
    }
    assert_eq!(tail.len(), 30);
    assert_eq!(tail[0], "line 15");
    assert_eq!(tail[29], "line 44");
    let msg = failure_message(&tail, Some(1));
    assert!(msg.starts_with("line 15\nline 16\n"));
    assert!(msg.ends_with("line 44"));
}

#[test]
fn failure_without_output_names_the_code() {
    assert_eq!(failure_message(&vec![], Some(-22)), "ffmpeg завершился с кодом Some(-22)");
    assert_eq!(failure_message(&vec![], None), "ffmpeg завершился с кодом None");
    let long = vec!["x".repeat(2000)];
    assert_eq!(failure_message(&long, Some(1)).chars().count(), 1500);
}

#[test]
fn cancelling_a_job() {
    let id = "job-1".to_string();
    let other = "job-2".to_string();
    let mut jobs = JobState::new();
    jobs.begin(&id);
    assert!(!jobs.is_cancelled(&id));
    jobs.set_pid(&id, 4242);
    jobs.set_pid(&other, 7);
    assert_eq!(jobs.pid_of(&id), Some(4242));
    assert_eq!(jobs.cancel(&id), Some(4242));
    assert!(jobs.is_cancelled(&id));
    assert!(!jobs.is_cancelled(&other));
    jobs.clear_pid(&id);
    assert_eq!(jobs.cancel(&id), None);
    jobs.begin(&id);
    assert!(!jobs.is_cancelled(&id));
    jobs.finish(&other);
    assert_eq!(jobs.pid_of(&other), None);
}

#[test]
fn platform_names() {
    assert_eq!(null_sink(Platform::Windows), "NUL");
    assert_eq!(null_sink(Platform::Android), "/dev/null");
    assert_eq!(tool_file(Platform::Windows, "ffmpeg"), "ffmpeg.exe");
    assert_eq!(tool_file(Platform::Android, "ffprobe"), "libffprobe.so");
    assert_eq!(tool_file(Platform::Unix, "ffmpeg"), "ffmpeg");
    let k = kill_command(Platform::Windows, 321);
    assert_eq!(k.program, "taskkill");
    assert_eq!(k.args, vec!["/PID", "321", "/T", "/F"]);
    let k = kill_command(Platform::Unix, 9);
    assert_eq!(k.program, "kill");
    assert_eq!(k.args, vec!["-9", "9"]);
    assert_eq!(embedded_tool("ffprobe"), Some(EmbeddedTool::Ffprobe));
    assert_eq!(embedded_tool("kill"), None);
    assert!(is_stale_tool_dir("0.1.0", "0.2.0", false));
    assert!(!is_stale_tool_dir("0.2.0", "0.2.0", false));
    assert!(!is_stale_tool_dir("0.1.0", "0.2.0", true));
}

#[test]
fn tool_lookup() {
    match tool_path(Platform::Unix, "ffmpeg", &vec![false, true, true]) {
        ToolChoice::Candidate(i) => assert_eq!(i, 1),
        _ => panic!("candidate expected"),
    }
    assert!(matches!(tool_path(Platform::Windows, "ffmpeg", &vec![false]), ToolChoice::Embedded));
    match tool_path(Platform::Unix, "ffmpeg", &vec![]) {
        ToolChoice::Bare(n) => assert_eq!(n, "ffmpeg"),
        _ => panic!("bare name expected"),
    }
}

#[test]
fn android_library_dirs() {
    let lines: Vec<String> = vec![
        "7f00-7f10 r-xp 00000000 fd:00 1 /data/app/x/lib/arm64/libffmpeg.so",
        "7f10-7f20 r--p 00000000 fd:00 2 /system/lib64/libc.so",
        "7f20-7f30 r-xp 00000000 fd:00 3 /data/app/x/lib/arm64/libffprobe.so",
        "7f30-7f40 rw-p 00000000 00:00 0 [anon]",
        "7f40-7f50 r--p 00000000 fd:00 4 /data/app/x/base.apk",
    ]
    .into_iter()
    .map(String::from)
    .collect();
    assert_eq!(lib_dirs_from_maps(&lines), vec!["/data/app/x/lib/arm64".to_string()]);
    assert_eq!(maps_line_lib_dir("a /lib/x.so"), Some("/lib".to_string()));
    // several folders keep the order in which they first appear
    let lines: Vec<String> = vec![
        "1 /vendor/lib/libb.so",
        "2 /data/app/y/lib/arm64/liba.so",
        "3 /vendor/lib/libc.so",
    ]
    .into_iter()
    .map(String::from)
    .collect();
    assert_eq!(
        lib_dirs_from_maps(&lines),
        vec!["/vendor/lib".to_string(), "/data/app/y/lib/arm64".to_string()]
    );
    assert_eq!(maps_line_lib_dir("a /a/lib/b//c.so"), Some("/a/lib/b".to_string()));
    assert_eq!(maps_line_lib_dir("no slash here"), None);
}

#[test]
fn cancelled_runs_say_so() {
    assert_eq!(encoder_error("ffmpeg завершился".to_string(), true), "Отменено");
    assert_eq!(encoder_error("tail".to_string(), false), "tail");
}
