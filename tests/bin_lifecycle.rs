use send_to_bin::clear::{is_affirmative, ClearStep};
use send_to_bin::cli::{Cli, Operation, SubCommands};
use send_to_bin::paths::{basename, join_path, list_contains};
use send_to_bin::profile::{BinError, RestoreLink, UserBinProfile};
use send_to_bin::registry::{find_marker, find_registration, locate_config, registration_line, unregistered_lines};
use send_to_bin::transfer::resolved_sources;

fn strings(v: &[&str]) -> Vec<String> {
    v.iter().map(|s| s.to_string()).collect()
}

fn profile() -> UserBinProfile {
    UserBinProfile::constructor("/home/u".to_string())
}

fn link(init: &str, bin: &str) -> RestoreLink {
    RestoreLink { init_path: init.to_string(), bin_path: bin.to_string() }
}

fn ok_links(plan: Vec<Result<RestoreLink, BinError>>) -> Vec<RestoreLink> {
    plan.into_iter().filter_map(|r| r.ok()).collect()
}

#[test]
fn constructor_places_project_under_home() {
    let p = profile();
    assert_eq!(p.home, "/home/u");
    assert_eq!(p.proj_dir, "/home/u/sendToBin");
    assert!(p.is_empty);
    assert!(p.restore.is_empty());
    let q = UserBinProfile::constructor("/root/".to_string());
    assert_eq!(q.proj_dir, "/root/sendToBin");
    assert_eq!(q.bin_dir(), "/root/sendToBin/bin");
    assert_eq!(q.config_path(), "/root/sendToBin/config.json");
}

#[test]
fn join_and_basename() {
    assert_eq!(join_path("/a/b", "c"), "/a/b/c");
    assert_eq!(join_path("/a/b/", "c"), "/a/b/c");
    assert_eq!(join_path("", "c"), "c");
    assert_eq!(basename("/w/sub/b.txt"), "b.txt");
    assert_eq!(basename("plain"), "plain");
    assert_eq!(basename("/"), "");
    assert_eq!(basename("/w/dir/"), "");
    assert!(list_contains(&strings(&["x", "y"]), &"y".to_string()));
    assert!(!list_contains(&strings(&["x", "y"]), &"z".to_string()));
}

#[test]
fn send_then_undo_then_destroy() {
    let mut p = profile();
    let sources = strings(&["/w/a.txt", "/w/sub/b.txt"]);
    let plan = p.plan_send(&sources, &vec![]);
    assert_eq!(plan.len(), 2);
    let moved = ok_links(plan);
    assert_eq!(moved.len(), 2);
    assert_eq!(moved[0].init_path, "/w/a.txt");
    assert_eq!(moved[0].bin_path, "/home/u/sendToBin/bin/a.txt");
    assert_eq!(moved[1].init_path, "/w/sub/b.txt");
    assert_eq!(moved[1].bin_path, "/home/u/sendToBin/bin/b.txt");
    assert_eq!(p.record_send(moved), Ok(()));
    assert_eq!(p.restore.len(), 2);
    assert!(!p.is_empty);
    let names = strings(&["a.txt", "b.txt"]);
    assert_eq!(
        p.entry_paths(&names),
        strings(&["/home/u/sendToBin/bin/a.txt", "/home/u/sendToBin/bin/b.txt"])
    );
    for l in p.restore.iter() {
        assert_eq!(l.restore_check(true, false), Ok(()));
    }
    let restored = p.finish_undo(&vec![true, true], &vec![]);
    assert_eq!(restored, 2);
    assert!(p.restore.is_empty());
    assert!(p.is_empty);
    assert_eq!(p.destroy_project(false), Ok("/home/u/sendToBin".to_string()));
}

#[test]
fn colliding_entry_fails_others_succeed() {
    let p = profile();
    let sources = strings(&["/w/a.txt", "/w/c.txt"]);
    let plan = p.plan_send(&sources, &strings(&["a.txt"]));
    assert_eq!(
        plan[0],
        Err(BinError::DestinationConflict { path: "/home/u/sendToBin/bin/a.txt".to_string() })
    );
    let second = plan[1].as_ref().unwrap();
    assert_eq!(second.init_path, "/w/c.txt");
    assert_eq!(second.bin_path, "/home/u/sendToBin/bin/c.txt");
}

#[test]
fn same_name_twice_in_one_batch() {
    let p = profile();
    let plan = p.plan_send(&strings(&["/x/a", "/y/a", "/"]), &vec![]);
    assert!(plan[0].is_ok());
    assert_eq!(
        plan[1],
        Err(BinError::DestinationConflict { path: "/home/u/sendToBin/bin/a".to_string() })
    );
    assert_eq!(plan[2], Err(BinError::PathResolution { path: "/".to_string() }));
}

#[test]
fn pending_ledger_entry_blocks_its_name() {
    let mut p = profile();
    p.record_send(vec![link("/old/a", "/home/u/sendToBin/bin/a")]).unwrap();
    let plan = p.plan_send(&strings(&["/new/a"]), &vec![]);
    assert_eq!(
        plan[0],
        Err(BinError::DestinationConflict { path: "/home/u/sendToBin/bin/a".to_string() })
    );
}

#[test]
fn record_send_appends_and_refuses_duplicates() {
    let mut p = profile();
    p.record_send(vec![link("/w/a", "/b/a")]).unwrap();
    p.record_send(vec![link("/w/c", "/b/c")]).unwrap();
    assert_eq!(p.restore.len(), 2);
    assert_eq!(p.restore[0].init_path, "/w/a");
    assert_eq!(p.restore[1].init_path, "/w/c");
    let r = p.record_send(vec![link("/w/d", "/b/d"), link("/v/a", "/b/a")]);
    assert_eq!(r, Err(BinError::DestinationConflict { path: "/b/a".to_string() }));
    assert_eq!(p.restore.len(), 2);
    let r = p.record_send(vec![link("/w/e", "/b/e"), link("/v/e", "/b/e")]);
    assert_eq!(r, Err(BinError::DestinationConflict { path: "/b/e".to_string() }));
    assert_eq!(p.restore.len(), 2);
    assert!(!p.is_empty);
}

#[test]
fn record_of_nothing_keeps_empty_bin() {
    let mut p = profile();
    assert_eq!(p.record_send(vec![]), Ok(()));
    assert!(p.is_empty);
}

#[test]
fn clear_on_empty_bin_does_nothing() {
    let p = profile();
    assert_eq!(p.bin_clear(false), ClearStep::AlreadyEmpty);
    assert_eq!(p.bin_clear(true), ClearStep::AlreadyEmpty);
}

#[test]
fn clear_on_full_bin_asks_unless_told_yes() {
    let mut p = profile();
    p.record_send(vec![link("/w/a", "/b/a")]).unwrap();
    assert_eq!(p.bin_clear(false), ClearStep::Confirm);
    assert_eq!(p.bin_clear(true), ClearStep::Proceed);
}

#[test]
fn affirmative_answers() {
    assert!(is_affirmative("y"));
    assert!(is_affirmative("  yes\n"));
    assert!(!is_affirmative("n"));
    assert!(!is_affirmative("Y"));
    assert!(!is_affirmative(""));
    assert!(!is_affirmative(" \t\n"));
}

#[test]
fn clear_rescan_keeps_what_is_left() {
    let mut p = profile();
    let moved = ok_links(p.plan_send(&strings(&["/w/a.txt", "/w/b.txt"]), &vec![]));
    p.record_send(moved).unwrap();
    p.finish_clear(&strings(&["b.txt"]));
    assert_eq!(p.restore.len(), 1);
    assert_eq!(p.restore[0].init_path, "/w/b.txt");
    assert!(!p.is_empty);
    p.finish_clear(&vec![]);
    assert!(p.restore.is_empty());
    assert!(p.is_empty);
}

#[test]
fn clear_rescan_untracked_entry_keeps_bin_full() {
    let mut p = profile();
    p.finish_clear(&strings(&["stray"]));
    assert!(p.restore.is_empty());
    assert!(!p.is_empty);
}

#[test]
fn undo_keeps_failed_entries() {
    let mut p = profile();
    let moved = ok_links(p.plan_send(&strings(&["/w/a", "/w/b"]), &vec![]));
    p.record_send(moved).unwrap();
    assert_eq!(
        p.restore[0].restore_check(true, true),
        Err(BinError::RestoreConflict { path: "/w/a".to_string() })
    );
    assert_eq!(
        p.restore[1].restore_check(false, false),
        Err(BinError::RestoreConflict { path: "/w/b".to_string() })
    );
    let n = p.finish_undo(&vec![false, true], &strings(&["a"]));
    assert_eq!(n, 1);
    assert_eq!(p.restore.len(), 1);
    assert_eq!(p.restore[0].init_path, "/w/a");
    assert!(!p.is_empty);
}

#[test]
fn undo_rescan_finds_untracked_entry() {
    let mut p = profile();
    p.record_send(vec![link("/w/a", "/home/u/sendToBin/bin/a")]).unwrap();
    assert_eq!(p.finish_undo(&vec![true], &strings(&["stray"])), 1);
    assert!(p.restore.is_empty());
    assert!(!p.is_empty);
}

#[test]
fn destroy_refuses_full_bin_without_force() {
    let mut p = profile();
    p.record_send(vec![link("/w/a", "/b/a")]).unwrap();
    assert_eq!(p.destroy_project(false), Err(BinError::BinNotEmpty { pending: 1 }));
    assert_eq!(p.destroy_project(true), Ok("/home/u/sendToBin".to_string()));
    assert_eq!(p.restore.len(), 1);
}

#[test]
fn initialize_twice_is_refused() {
    let p = profile();
    let mut lines = strings(&["export PATH=/usr/bin", "alias ll='ls -l'"]);
    let line = p.initialize_project(&lines).unwrap();
    assert_eq!(line, "export STB_PROJECT_PATH=\"/home/u/sendToBin\" # send to bin project path");
    lines.push(line);
    assert_eq!(
        p.initialize_project(&lines),
        Err(BinError::AlreadyInitialized { path: "/home/u/sendToBin".to_string() })
    );
}

#[test]
fn registry_reads_marker_lines() {
    assert_eq!(find_marker(&"export STB_PROJECT_PATH=x".to_string()), Some(7));
    assert_eq!(find_marker(&"STB_PROJECT".to_string()), None);
    assert_eq!(find_registration(&vec![]), None);
    assert_eq!(find_registration(&strings(&["export PATH=/bin"])), None);
    assert_eq!(
        find_registration(&strings(&["STB_PROJECT_PATH=/first", "x", "STB_PROJECT_PATH=\"/p q\" # c"])),
        Some("/p q".to_string())
    );
    assert_eq!(find_registration(&strings(&["STB_PROJECT_PATH=/plain"])), Some("/plain".to_string()));
    assert_eq!(find_registration(&strings(&["STB_PROJECT_PATH=\"/open"])), Some("/open".to_string()));
    assert_eq!(
        registration_line("/d"),
        "export STB_PROJECT_PATH=\"/d\" # send to bin project path"
    );
}

#[test]
fn locating_the_config_file() {
    let lines = strings(&["export STB_PROJECT_PATH=\"/proj\""]);
    assert_eq!(locate_config(&lines, None), Ok("/proj/config.json".to_string()));
    assert_eq!(
        locate_config(&lines, Some("/other".to_string())),
        Ok("/other/config.json".to_string())
    );
    assert_eq!(locate_config(&vec![], None), Err(BinError::NotInitialized));
}

#[test]
fn loaded_profiles_are_checked() {
    let mut p = profile();
    p.restore.push(link("/w/a", "/b/a"));
    assert!(!p.is_consistent());
    p.is_empty = false;
    assert!(p.is_consistent());
    p.restore.push(link("/w/c", "/b/a"));
    assert!(!p.is_consistent());
    assert!(matches!(p.validated(), Err(BinError::CorruptState { .. })));
    assert!(profile().validated().is_ok());
}

#[test]
fn command_line_dispatch() {
    let send = Cli { sub_command: Some(SubCommands::Undo {}), input_files: strings(&["f"]) };
    assert!(matches!(send.operation(), Ok(Operation::Send { files }) if files == vec!["f".to_string()]));
    let none = Cli { sub_command: None, input_files: vec![] };
    assert!(matches!(none.operation(), Err(BinError::MissingInput)));
    let d = Cli { sub_command: Some(SubCommands::Destroy { force: true }), input_files: vec![] };
    assert!(matches!(d.operation(), Ok(Operation::Destroy { force: true })));
    let c = Cli { sub_command: Some(SubCommands::Clear { yes: false }), input_files: vec![] };
    assert!(matches!(c.operation(), Ok(Operation::Clear { yes: false })));
    let i = Cli { sub_command: Some(SubCommands::Init {}), input_files: vec![] };
    assert!(matches!(i.operation(), Ok(Operation::Initialize)));
    let u = Cli { sub_command: Some(SubCommands::Undo {}), input_files: vec![] };
    assert!(matches!(u.operation(), Ok(Operation::Undo)));
}

#[test]
fn batch_with_missing_path_is_refused_whole() {
    let files = strings(&["a", "gone", "also_gone"]);
    let resolved = vec![Some("/w/a".to_string()), None, None];
    assert_eq!(
        resolved_sources(&files, &resolved),
        Err(BinError::PathResolution { path: "gone".to_string() })
    );
    let resolved = vec![Some("/w/a".to_string()), Some("/w/g".to_string()), Some("/w/h".to_string())];
    assert_eq!(resolved_sources(&files, &resolved), Ok(strings(&["/w/a", "/w/g", "/w/h"])));
}

#[test]
fn unregistering_drops_marker_lines() {
    let lines = strings(&["a", "export STB_PROJECT_PATH=\"/p\" # c", "b"]);
    let left = unregistered_lines(&lines);
    assert_eq!(left, strings(&["a", "b"]));
    assert_eq!(find_registration(&left), None);
}
