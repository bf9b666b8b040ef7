use drem::action::Action;
use drem::archive::{archive_is_drgtk, extract_archive, files_exist_in_archive, plan_new_project, Archive};
use drem::error::ScaffoldError;
use drem::extract::{is_executable_mode, plan_extraction, Entry, Extraction};
use std::io::Write;

fn build_zip(entries: &[(&str, Option<u32>, &[u8])]) -> Vec<u8> {
    let mut w = zip::ZipWriter::new(std::io::Cursor::new(Vec::new()));
    for (name, mode, data) in entries {
        let mut opts = zip::write::FileOptions::default()
            .compression_method(zip::CompressionMethod::Deflated);
        if let Some(m) = mode {
            opts = opts.unix_permissions(*m);
        }
        if name.ends_with('/') {
            w.add_directory(*name, opts).unwrap();
        } else {
            w.start_file(*name, opts).unwrap();
            w.write_all(data).unwrap();
        }
    }
    w.finish().unwrap().into_inner()
}

fn sdk_zip(extra: &[(&str, Option<u32>, &[u8])]) -> Vec<u8> {
    let mut all: Vec<(&str, Option<u32>, &[u8])> = vec![
        ("dragonruby-macos/dragonruby", Some(0o755), b"binary"),
        ("dragonruby-macos/console-logo.png", Some(0o644), b"png"),
    ];
    all.extend_from_slice(extra);
    build_zip(&all)
}

fn entry(name: &str, mode: Option<u32>, data: &[u8]) -> Entry {
    Entry { name: name.to_string(), unix_mode: mode, data: data.to_vec() }
}

fn path(p: &[&str]) -> Vec<String> {
    p.iter().map(|s| s.to_string()).collect()
}

fn is_dir(a: &Action, p: &[&str]) -> bool {
    matches!(a, Action::CreateDir(q) if *q == path(p))
}

fn is_file(a: &Action, p: &[&str], data: &[u8], exec: bool) -> bool {
    matches!(a, Action::WriteFile(q, d, x) if *q == path(p) && d.as_slice() == data && *x == exec)
}

fn count_writes_to(actions: &[Action], p: &[&str]) -> usize {
    actions.iter().filter(|a| matches!(a, Action::WriteFile(q, _, _) if *q == path(p))).count()
}

#[test]
fn validate_accepts_archive_with_both_markers() {
    assert!(archive_is_drgtk(sdk_zip(&[])));
}

#[test]
fn validate_accepts_regardless_of_other_entries() {
    let data = sdk_zip(&[("other/readme.txt", None, b"x"), ("dragonruby-macos/mygame/", None, b"")]);
    assert!(archive_is_drgtk(data));
}

#[test]
fn validate_rejects_archive_missing_logo() {
    let data = build_zip(&[("dragonruby-macos/dragonruby", Some(0o755), b"binary")]);
    assert!(!archive_is_drgtk(data));
}

#[test]
fn validate_rejects_archive_missing_binary() {
    let data = build_zip(&[("dragonruby-macos/console-logo.png", None, b"png")]);
    assert!(!archive_is_drgtk(data));
}

#[test]
fn validate_rejects_bytes_that_are_not_an_archive() {
    assert!(!archive_is_drgtk(b"not a zip file at all".to_vec()));
    assert!(!archive_is_drgtk(Vec::new()));
}

#[test]
fn files_exist_checks_every_name() {
    let data = sdk_zip(&[]);
    let archive: Archive = zip::ZipArchive::new(std::io::Cursor::new(data)).unwrap();
    assert!(files_exist_in_archive(&archive, &path(&["dragonruby-macos/dragonruby"])));
    assert!(files_exist_in_archive(&archive, &Vec::new()));
    assert!(!files_exist_in_archive(
        &archive,
        &path(&["dragonruby-macos/dragonruby", "dragonruby-macos/missing"])
    ));
}

#[test]
fn scaffold_of_unrecognised_archive_plans_nothing() {
    let data = build_zip(&[
        ("dragonruby-macos/dragonruby", Some(0o755), b"binary"),
        ("dragonruby-macos/mygame/", None, b""),
    ]);
    assert!(matches!(plan_new_project(data), Err(ScaffoldError::NotRecognized)));
}

#[test]
fn scaffold_of_unreadable_archive_is_an_open_error() {
    match plan_new_project(b"garbage".to_vec()) {
        Err(ScaffoldError::ArchiveOpen(msg)) => {
            assert!(msg.starts_with("Could not read DRGTK: "));
            assert!(msg.len() > "Could not read DRGTK: ".len());
        }
        _ => panic!("expected an open error"),
    }
}

#[test]
fn scaffold_extracts_sdk_subtree_with_its_bytes() {
    let data = sdk_zip(&[
        ("elsewhere/skip.txt", None, b"skip"),
        ("dragonruby-macos/mygame/app/main.rb", Some(0o644), b"def tick args\nend\n"),
    ]);
    let actions = plan_new_project(data).unwrap();
    assert_eq!(actions.len(), 6);
    assert!(is_dir(&actions[0], &[]));
    assert!(is_file(&actions[1], &["dragonruby"], b"binary", true));
    assert!(is_dir(&actions[2], &[]));
    assert!(is_file(&actions[3], &["console-logo.png"], b"png", false));
    assert!(is_dir(&actions[4], &["mygame", "app"]));
    assert!(is_file(&actions[5], &["mygame", "app", "main.rb"], b"def tick args\nend\n", false));
}

#[test]
fn scaffold_fires_triggers_for_project_directories() {
    let data = sdk_zip(&[
        ("dragonruby-macos/mygame/", None, b""),
        ("dragonruby-macos/mygame/data/", None, b""),
        ("dragonruby-macos/mygame/fonts/", None, b""),
        ("dragonruby-macos/mygame/sounds/", None, b""),
        ("dragonruby-macos/mygame/app/", None, b""),
    ]);
    let actions = plan_new_project(data).unwrap();
    assert_eq!(count_writes_to(&actions, &["mygame", ".gitignore"]), 1);
    assert!(actions.iter().any(|a| is_file(a, &["mygame", ".gitignore"], b".DS_Store\n", false)));
    assert!(actions.iter().any(|a| is_file(a, &["mygame", "data", ".gitkeep"], b"", false)));
    assert!(actions.iter().any(|a| is_file(a, &["mygame", "fonts", ".gitkeep"], b"", false)));
    assert!(actions.iter().any(|a| is_file(a, &["mygame", "sounds", ".gitkeep"], b"", false)));
    assert_eq!(count_writes_to(&actions, &["mygame", "app", ".gitkeep"]), 0);
}

#[test]
fn extract_archive_reads_entries_in_order() {
    let data = sdk_zip(&[("dragonruby-macos/samples/", None, b"")]);
    let mut archive: Archive = zip::ZipArchive::new(std::io::Cursor::new(data)).unwrap();
    let actions = extract_archive(&mut archive, "dragonruby-macos").unwrap();
    assert_eq!(actions.len(), 5);
    assert!(is_dir(&actions[4], &["samples"]));
}

#[test]
fn extract_archive_rejects_traversal() {
    let data = sdk_zip(&[("dragonruby-macos/../escape.txt", None, b"evil")]);
    match plan_new_project(data) {
        Err(ScaffoldError::UnsafePath(name)) => assert_eq!(name, "dragonruby-macos/../escape.txt"),
        _ => panic!("expected an unsafe path"),
    }
}

#[test]
fn scenario_sdk_prefix_demo_project() {
    let entries = vec![
        entry("sdk/tool", Some(0o100755), b"tool"),
        entry("sdk/logo.png", Some(0o100644), b"logo"),
        entry("sdk/lib/data/README", None, b"read me"),
    ];
    let actions = plan_extraction(&entries, "sdk").unwrap();
    assert_eq!(actions.len(), 6);
    assert!(is_dir(&actions[4], &["lib", "data"]));
    assert!(is_file(&actions[5], &["lib", "data", "README"], b"read me", false));
    assert_eq!(count_writes_to(&actions, &["lib", "data", ".gitkeep"]), 0);
}

#[test]
fn entries_outside_prefix_produce_nothing() {
    let entries = vec![
        entry("other/file", Some(0o755), b"x"),
        entry("other/dir/", None, b""),
        entry("mygame/", None, b""),
    ];
    assert_eq!(plan_extraction(&entries, "dragonruby-macos").unwrap().len(), 0);
}

#[test]
fn prefix_is_case_sensitive() {
    let entries = vec![entry("DragonRuby-macos/file", None, b"x")];
    assert_eq!(plan_extraction(&entries, "dragonruby-macos").unwrap().len(), 0);
}

#[test]
fn executable_bit_is_carried_over() {
    let entries = vec![
        entry("p/owner", Some(0o100744), b"a"),
        entry("p/group", Some(0o100654), b"b"),
        entry("p/other", Some(0o100645), b"c"),
        entry("p/plain", Some(0o100644), b"d"),
        entry("p/unknown", None, b"e"),
    ];
    let actions = plan_extraction(&entries, "p").unwrap();
    assert!(is_file(&actions[1], &["owner"], b"a", true));
    assert!(is_file(&actions[3], &["group"], b"b", true));
    assert!(is_file(&actions[5], &["other"], b"c", true));
    assert!(is_file(&actions[7], &["plain"], b"d", false));
    assert!(is_file(&actions[9], &["unknown"], b"e", false));
}

#[test]
fn executable_mode_needs_an_execute_bit() {
    assert!(is_executable_mode(Some(0o755)));
    assert!(is_executable_mode(Some(0o001)));
    assert!(is_executable_mode(Some(0o010)));
    assert!(is_executable_mode(Some(0o100)));
    assert!(!is_executable_mode(Some(0o644)));
    assert!(!is_executable_mode(Some(0o100666)));
    assert!(!is_executable_mode(None));
}

#[test]
fn repeated_directory_fires_triggers_once() {
    let entries = vec![
        entry("dragonruby-macos/mygame/data/", None, b""),
        entry("dragonruby-macos/mygame/data/", None, b""),
        entry("dragonruby-macos/mygame/", None, b""),
        entry("dragonruby-macos/mygame//", None, b""),
    ];
    let actions = plan_extraction(&entries, "dragonruby-macos").unwrap();
    assert_eq!(count_writes_to(&actions, &["mygame", "data", ".gitkeep"]), 1);
    assert_eq!(count_writes_to(&actions, &["mygame", ".gitignore"]), 1);
    assert_eq!(actions.len(), 6);
}

#[test]
fn traversal_aborts_extraction() {
    let entries = vec![
        entry("dragonruby-macos/ok.txt", None, b"ok"),
        entry("dragonruby-macos/mygame/../../etc/passwd", None, b"x"),
        entry("dragonruby-macos/later.txt", None, b"later"),
    ];
    match plan_extraction(&entries, "dragonruby-macos") {
        Err(ScaffoldError::UnsafePath(name)) => assert_eq!(name, "dragonruby-macos/mygame/../../etc/passwd"),
        _ => panic!("expected an unsafe path"),
    }
}

#[test]
fn prefix_without_separator_maps_its_remainder() {
    let entries = vec![entry("dragonruby-macos-extra/file", None, b"x")];
    let actions = plan_extraction(&entries, "dragonruby-macos").unwrap();
    assert_eq!(actions.len(), 2);
    assert!(is_dir(&actions[0], &["-extra"]));
    assert!(is_file(&actions[1], &["-extra", "file"], b"x", false));
}

#[test]
fn file_at_prefix_itself_is_rejected() {
    let entries = vec![entry("dragonruby-macos", None, b"x")];
    assert!(matches!(
        plan_extraction(&entries, "dragonruby-macos"),
        Err(ScaffoldError::UnsafePath(_))
    ));
}

#[test]
fn root_directory_entry_creates_output_root() {
    let entries = vec![entry("dragonruby-macos/", None, b"")];
    let actions = plan_extraction(&entries, "dragonruby-macos").unwrap();
    assert_eq!(actions.len(), 1);
    assert!(is_dir(&actions[0], &[]));
}

#[test]
fn file_before_its_directory_creates_parent_first() {
    let entries = vec![
        entry("dragonruby-macos/mygame/./sprites/a.png", None, b"img"),
        entry("dragonruby-macos/mygame/sprites/", None, b""),
    ];
    let actions = plan_extraction(&entries, "dragonruby-macos").unwrap();
    assert_eq!(actions.len(), 3);
    assert!(is_dir(&actions[0], &["mygame", "sprites"]));
    assert!(is_file(&actions[1], &["mygame", "sprites", "a.png"], b"img", false));
    assert!(is_dir(&actions[2], &["mygame", "sprites"]));
}

#[test]
fn extraction_step_by_step() {
    let mut ex = Extraction::new();
    ex.add_entry(&entry("dragonruby-macos/mygame/", None, b""), "dragonruby-macos").unwrap();
    assert_eq!(ex.actions().len(), 2);
    assert!(ex.add_entry(&entry("dragonruby-macos/..", None, b""), "dragonruby-macos").is_err());
    assert_eq!(ex.into_actions().len(), 2);
}

#[test]
fn corrupt_entry_is_a_read_error_naming_its_index() {
    let mut w = zip::ZipWriter::new(std::io::Cursor::new(Vec::new()));
    let opts = zip::write::FileOptions::default().compression_method(zip::CompressionMethod::Stored);
    w.start_file("dragonruby-macos/dragonruby", opts).unwrap();
    w.write_all(b"binary").unwrap();
    w.start_file("dragonruby-macos/console-logo.png", opts).unwrap();
    w.write_all(b"png").unwrap();
    w.start_file("dragonruby-macos/notes.txt", opts).unwrap();
    w.write_all(b"HELLOWORLD").unwrap();
    let mut data = w.finish().unwrap().into_inner();
    let at = data.windows(10).position(|win| win == b"HELLOWORLD").unwrap();
    data[at + 9] = b'X';
    assert!(archive_is_drgtk(data.clone()));
    match plan_new_project(data) {
        Err(ScaffoldError::EntryRead(index, cause)) => {
            assert_eq!(index, 2);
            assert!(!cause.is_empty());
        }
        _ => panic!("expected a read error"),
    }
}

#[test]
fn archive_with_nothing_under_prefix_plans_nothing() {
    let data = build_zip(&[("__MACOSX/dragonruby-macos/x", None, b"x"), ("Dragonruby-macos/y", None, b"y")]);
    let mut archive: Archive = zip::ZipArchive::new(std::io::Cursor::new(data)).unwrap();
    assert_eq!(extract_archive(&mut archive, "dragonruby-macos").unwrap().len(), 0);
}

#[test]
fn scenario_readme_is_planned_with_its_bytes() {
    let data = sdk_zip(&[("dragonruby-macos/lib/data/README", None, b"hello")]);
    let actions = plan_new_project(data).unwrap();
    assert!(actions.iter().any(|a| is_file(a, &["lib", "data", "README"], b"hello", false)));
    assert_eq!(count_writes_to(&actions, &["lib", "data", ".gitkeep"]), 0);
}

#[test]
fn entry_with_stray_aes_field_is_a_read_error() {
    let mut w = zip::ZipWriter::new(std::io::Cursor::new(Vec::new()));
    let opts = zip::write::FileOptions::default().compression_method(zip::CompressionMethod::Stored);
    w.start_file("dragonruby-macos/dragonruby", opts).unwrap();
    w.write_all(b"binary").unwrap();
    w.start_file("dragonruby-macos/console-logo.png", opts).unwrap();
    w.write_all(b"png").unwrap();
    w.start_file_with_extra_data("dragonruby-macos/odd.bin", opts).unwrap();
    w.write_all(&[0x77, 0x77, 0x07, 0x00, 0x02, 0x00, 0x41, 0x45, 0x03, 0x00, 0x00]).unwrap();
    w.end_extra_data().unwrap();
    w.write_all(b"plain").unwrap();
    let mut data = w.finish().unwrap().into_inner();
    // Turn the private field into an AES field; the entry's encryption flag stays clear.
    let mut at = 0;
    while at + 8 <= data.len() {
        if data[at..at + 8] == [0x77, 0x77, 0x07, 0x00, 0x02, 0x00, 0x41, 0x45] {
            data[at] = 0x01;
            data[at + 1] = 0x99;
        }
        at += 1;
    }
    assert!(archive_is_drgtk(data.clone()));
    match plan_new_project(data) {
        Err(ScaffoldError::EntryRead(index, _)) => assert_eq!(index, 2),
        _ => panic!("expected a read error"),
    }
}
