use sticker_nah::names::{
    explorer_select_arg, gallery_path, import_file_name, out_file_name, out_target, part_path,
    passlog_files, passlog_name, paste_file_name, proxy_file_name, proxy_part_name, sanitize_name,
    OutTarget, next_out_name, NameStep, Reserved, folder_error, remove_reserved, temp_expired,
};
use sticker_nah::preview::{proxy_begin, proxy_step, ProxyAction, ProxyEvent, ProxyPhase};
use sticker_nah::platform::id_from_clock;
use sticker_nah::params::default_format;
use sticker_nah::platform::{unique_id, Platform};

#[test]
fn untrusted_names_are_cleaned() {
    assert_eq!(sanitize_name("content://media/x/My: clip?.mp4"), "My_ clip_.mp4");
    assert_eq!(sanitize_name("C:\\dir\\..\\..secret"), "secret");
    assert_eq!(sanitize_name("a/b/"), "import");
    assert_eq!(sanitize_name("..."), "import");
    assert_eq!(sanitize_name("tab\there\u{7f}"), "tab_here_");
    let long: String = "n".repeat(200) + ".webm";
    let cleaned = sanitize_name(&long);
    assert_eq!(cleaned.chars().count(), 120);
    assert!(cleaned.ends_with(".webm"));
}

#[test]
fn cleaning_twice_is_cleaning_once() {
    for raw in ["content://media/x/My: clip?.mp4", "C:\\dir\\..secret", "...", "a/b/", "plain.png"] {
        let once = sanitize_name(raw);
        assert_eq!(sanitize_name(&once), once);
    }
    // a kept tail that starts with a dot loses it on a second cleaning
    let long: String = "n".repeat(200) + "." + &"x".repeat(119);
    let once = sanitize_name(&long);
    assert!(once.starts_with('.'));
    assert_ne!(sanitize_name(&once), once);
}

#[test]
fn output_names() {
    assert_eq!(out_file_name(Some("cat"), 0), "cat_sticker.webm");
    assert_eq!(out_file_name(Some("cat"), 12), "cat_sticker (12).webm");
    assert_eq!(out_file_name(None, 0), "sticker_sticker.webm");
    assert_eq!(part_path(Platform::Unix, "/o/cat_sticker.webm"), "/o/cat_sticker.part.webm");
    assert_eq!(part_path(Platform::Unix, "/o/.webm"), "/o/.webm.part.webm");
    assert_eq!(part_path(Platform::Windows, "C:\\o\\.webm"), "C:\\o\\.webm.part.webm");
    assert_eq!(part_path(Platform::Unix, "a\\.webm"), "a\\.part.webm");
}

#[test]
fn output_targets() {
    assert!(matches!(out_target(&Some("/x.webm".into()), &Some("/d".into())), OutTarget::Reuse(p) if p == "/x.webm"));
    assert!(matches!(out_target(&None, &Some("/d".into())), OutTarget::Folder(d) if d == "/d"));
    assert!(matches!(out_target(&None, &Some("".into())), OutTarget::BesideInput));
    assert!(matches!(out_target(&None, &None), OutTarget::BesideInput));
}

#[test]
fn helper_file_names() {
    assert_eq!(explorer_select_arg("C:/a b/c.webm"), "/select,\"C:\\a b\\c.webm\"");
    assert_eq!(import_file_name(77, "x/y/clip.mp4"), "import_77_clip.mp4");
    assert_eq!(gallery_path("../s.webm"), "Sticker-Nah/s.webm");
    assert_eq!(paste_file_name(5), "paste_5.png");
    assert_eq!(proxy_file_name(0xabc), "proxy_0000000000000abc.webm");
    assert_eq!(proxy_part_name(u64::MAX, 3), "proxy_ffffffffffffffff_3.part");
    assert_eq!(passlog_name(9), "pass_9");
    assert_eq!(passlog_files("/t/pass_9"), ("/t/pass_9.log".to_string(), "/t/pass_9-0.log".to_string()));
    assert_eq!(default_format(), "vp9");
}

#[test]
fn ids_differ_over_time() {
    let a = unique_id();
    let b = unique_id();
    assert!(a > 0);
    assert!(b >= a);
}

#[test]
fn free_output_name_search() {
    let (n, step) = next_out_name(Some("clip"), 0, Reserved::Exists);
    assert_eq!(n, 1);
    assert!(matches!(step, NameStep::Create(ref c) if c == "clip_sticker (1).webm"));
    let (n, step) = next_out_name(Some("clip"), 1, Reserved::Created);
    assert_eq!(n, 1);
    assert!(matches!(step, NameStep::Done));
    let (_, step) = next_out_name(None, 5, Reserved::Failed("нет доступа".to_string()));
    assert!(matches!(step, NameStep::Fail(ref m) if m == "Папка вывода: нет доступа"));
    let (n, step) = next_out_name(None, 9_999, Reserved::Exists);
    assert_eq!(n, 9_999);
    assert!(matches!(step, NameStep::Fail(ref m) if m == "Не удалось подобрать свободное имя выхода"));
    assert_eq!(folder_error("x"), "Папка вывода: x");
}

#[test]
fn preview_cache_steps() {
    let (p, a) = proxy_begin();
    assert!(matches!(p, ProxyPhase::Start));
    assert!(matches!(a, ProxyAction::InspectCache));
    // a usable cached preview is returned at once
    let (p, a) = proxy_step(ProxyPhase::Start, ProxyEvent::Cached(Some(10)));
    assert!(matches!(p, ProxyPhase::Done));
    assert!(matches!(a, ProxyAction::Finish { drop_part: false, result: Ok(()) }));
    // an empty one is not
    let (p, a) = proxy_step(ProxyPhase::Start, ProxyEvent::Cached(Some(0)));
    assert!(matches!(a, ProxyAction::Encode));
    // a failed encode drops the partial file
    let (_, a) = proxy_step(p, ProxyEvent::Encoded(Err("boom".to_string())));
    assert!(matches!(a, ProxyAction::Finish { drop_part: true, result: Err(ref e) } if e == "boom"));
    let (p, a) = proxy_step(ProxyPhase::Encoding, ProxyEvent::Encoded(Ok(())));
    assert!(matches!(a, ProxyAction::Move));
    // a failed move: a parallel run's preview is accepted, otherwise the error
    let (p2, a) = proxy_step(p, ProxyEvent::Moved(Err("busy".to_string())));
    assert!(matches!(a, ProxyAction::DropPartAndInspect));
    let (_, a) = proxy_step(p2, ProxyEvent::Cached(None));
    assert!(matches!(a, ProxyAction::Finish { drop_part: false, result: Err(ref e) } if e == "Кэш предпросмотра: busy"));
    let (_, a) = proxy_step(ProxyPhase::Rechecking("busy".to_string()), ProxyEvent::Cached(Some(5)));
    assert!(matches!(a, ProxyAction::Finish { drop_part: false, result: Ok(()) }));
    // an event the phase does not wait for repeats the awaited action
    let (p, a) = proxy_step(ProxyPhase::Moving, ProxyEvent::Cached(Some(5)));
    assert!(matches!(p, ProxyPhase::Moving));
    assert!(matches!(a, ProxyAction::Move));
    let (_, a) = proxy_step(ProxyPhase::Done, ProxyEvent::Cached(None));
    assert!(matches!(a, ProxyAction::Idle));
}

#[test]
fn clean_up_rules() {
    assert!(remove_reserved(false, Some(0)));
    assert!(!remove_reserved(true, Some(0)));
    assert!(!remove_reserved(false, Some(3)));
    assert!(!remove_reserved(false, None));
    assert!(!temp_expired(None));
    assert!(!temp_expired(Some(259_200_000_000_000)));
    assert!(temp_expired(Some(259_200_000_000_001)));
    assert_eq!(id_from_clock(Some(42)), 42);
    assert_eq!(id_from_clock(None), 0);
}
