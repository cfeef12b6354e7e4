use dcleaner::clean;
use dcleaner::clean::{
    ActionOutcome, Attempt, CleanRun, DatabaseEnd, Listing, PathAttempt, Work,
};
use dcleaner::command::{CommandOutput, Run};
use dcleaner::database::DatabaseRun;
use dcleaner::disk::{FileName, FileRecord, PathKind, PathSurvey};
use dcleaner::item;
use dcleaner::item::{BrowserDbKind, CleanAction, ModuleKind, RiskLevel, ScannedItem};
use dcleaner::process::{ConflictDecision, Decision};

fn strings(v: &[&str]) -> Vec<String> {
    v.iter().map(|s| s.to_string()).collect()
}

fn tried(path: &str, attempt: Attempt) -> PathAttempt {
    PathAttempt { path: path.to_string(), attempt }
}

fn failed(error: &str) -> Attempt {
    Attempt::Failed(error.to_string())
}

fn ran(success: bool, stderr: &str) -> Run {
    Ok(CommandOutput { success, stdout: Vec::new(), stderr: stderr.as_bytes().to_vec() })
}

fn named(id: &str, name: &str, action: CleanAction) -> ScannedItem {
    let mut public = item::make_item(
        ModuleKind::System,
        "c",
        name,
        "p".to_string(),
        "d",
        0,
        RiskLevel::Safe,
        true,
        Vec::new(),
        Vec::new(),
    );
    public.id = id.to_string();
    ScannedItem { public, action }
}

fn freed(freed_bytes: u64, errors: &[&str]) -> Result<ActionOutcome, String> {
    Ok(ActionOutcome { freed_bytes, errors: strings(errors) })
}

fn bins() -> Vec<String> {
    strings(&["C:\\$Recycle.Bin"])
}

fn survey(kind: PathKind, size_bytes: u64, below: u64) -> PathSurvey {
    let name = FileName { text: "x".to_string(), exact: true };
    let file = FileRecord {
        path: "x\\y".to_string(),
        name: FileName { text: "y".to_string(), exact: true },
        size_bytes: below,
    };
    PathSurvey { path: "x".to_string(), name, kind, size_bytes, files: vec![file] }
}

#[test]
fn removed_paths_add_up_and_failures_are_named() {
    let outcome = clean::delete_paths(
        &strings(&["a", "b", "c", "d"]),
        &vec![Attempt::Removed(10), Attempt::Missing, failed("locked"), Attempt::Removed(5)],
    );
    assert_eq!(outcome.freed_bytes, 15);
    assert_eq!(outcome.errors, ["c: locked"]);
    assert_eq!(clean::delete_paths(&Vec::new(), &Vec::new()).freed_bytes, 0);
}

#[test]
fn freed_bytes_are_capped() {
    let outcome = clean::delete_paths(
        &strings(&["a", "b"]),
        &vec![Attempt::Removed(u64::MAX), Attempt::Removed(1)],
    );
    assert_eq!(outcome.freed_bytes, u64::MAX);
}

#[test]
fn directories_that_cannot_be_listed_count_where_they_are() {
    let outcome = clean::delete_directory_contents(
        &strings(&["C:\\a", "C:\\b", "C:\\c"]),
        &vec![
            Listing::Entries(vec![
                tried("C:\\a\\1", Attempt::Removed(3)),
                tried("C:\\a\\2", failed("in use")),
            ]),
            Listing::Unreadable { error: "denied".to_string(), present: true },
            Listing::Unreadable { error: "not found".to_string(), present: false },
        ],
    );
    assert_eq!(outcome.freed_bytes, 3);
    assert_eq!(outcome.errors, ["C:\\a\\2: in use", "C:\\b: denied"]);
}

#[test]
fn the_recycle_bin_frees_what_it_held() {
    let done = clean::clear_recycle_bin(&bins(), 99, &ran(true, ""), &None).unwrap();
    assert_eq!(done.freed_bytes, 99);
    assert!(done.errors.is_empty());
    assert!(!clean::needs_fallback(&ran(true, "")));
    assert!(!clean::needs_fallback(&Err("x".to_string())));
    assert_eq!(
        clean::clear_recycle_bin(&bins(), 99, &Err("no shell".to_string()), &None).unwrap_err(),
        "no shell"
    );
}

#[test]
fn the_recycle_bin_is_emptied_by_hand_where_the_command_fails() {
    let run = ran(false, "nope");
    assert!(clean::needs_fallback(&run));
    let good = Some(vec![Listing::Entries(vec![tried("x", Attempt::Removed(4))])]);
    assert_eq!(clean::clear_recycle_bin(&bins(), 99, &run, &good).unwrap().freed_bytes, 4);
    let bad = Some(vec![Listing::Entries(vec![tried("x", failed("denied"))])]);
    assert_eq!(
        clean::clear_recycle_bin(&bins(), 99, &run, &bad).unwrap_err(),
        "Clear-RecycleBin 执行失败: nope"
    );
}

#[test]
fn sizes_of_paths_add_up_while_they_fit() {
    let v = vec![
        survey(PathKind::File, 5, 100),
        survey(PathKind::Directory, 5, 100),
        survey(PathKind::Missing, 5, 100),
    ];
    assert_eq!(clean::paths_size(&v), Some(105));
    let big = vec![survey(PathKind::File, u64::MAX, 0), survey(PathKind::File, 1, 0)];
    assert_eq!(clean::paths_size(&big), None);
}

#[test]
fn commands_free_nothing() {
    let done = clean::command_outcome("ipconfig", &ran(true, "")).unwrap();
    assert_eq!(done.freed_bytes, 0);
    assert!(done.errors.is_empty());
    assert_eq!(
        clean::command_outcome("reg delete", &ran(false, "denied")).unwrap_err(),
        "reg delete 执行失败: denied"
    );
    assert_eq!(clean::command_outcome("cmd", &Err("gone".to_string())).unwrap_err(), "gone");
}

#[test]
fn databases_free_the_size_that_they_had() {
    assert_eq!(clean::clean_browser_database(&DatabaseEnd::Missing).unwrap().freed_bytes, 0);
    assert_eq!(
        clean::clean_browser_database(&DatabaseEnd::NotOpened("busy".to_string())).unwrap_err(),
        "busy"
    );
    let mut run = DatabaseRun::new(BrowserDbKind::ChromiumCookies, &Vec::new());
    run.record(Ok(()));
    let end = DatabaseEnd::Ran { size_before: 8, run };
    assert_eq!(clean::clean_browser_database(&end).unwrap().freed_bytes, 8);
    let mut run = DatabaseRun::new(BrowserDbKind::ChromiumCookies, &Vec::new());
    run.record(Err("locked".to_string()));
    let end = DatabaseEnd::Ran { size_before: 8, run };
    assert_eq!(clean::clean_browser_database(&end).unwrap_err(), "locked");
}

#[test]
fn each_action_has_its_work() {
    let list = strings(&["keep.com"]);
    match clean::execute_action(&CleanAction::DeleteDirectoryContents(strings(&["a"])), &list) {
        Work::EmptyDirectories(dirs) => assert_eq!(dirs, ["a"]),
        other => panic!("{:?}", other),
    }
    match clean::execute_action(&CleanAction::DeletePaths(strings(&["b"])), &list) {
        Work::RemovePaths(paths) => assert_eq!(paths, ["b"]),
        other => panic!("{:?}", other),
    }
    match clean::execute_action(&CleanAction::FlushDns, &list) {
        Work::RunCommand { command, label } => {
            assert_eq!(command.program, "ipconfig");
            assert_eq!(command.args, ["/flushdns"]);
            assert_eq!(label, "ipconfig");
        }
        other => panic!("{:?}", other),
    }
    match clean::execute_action(&CleanAction::ClearClipboard, &list) {
        Work::RunCommand { command, label } => {
            assert_eq!(command.args, ["/C", "type nul | clip"]);
            assert_eq!(label, "cmd");
        }
        other => panic!("{:?}", other),
    }
    match clean::execute_action(&CleanAction::ClearRecycleBin(strings(&["r"])), &list) {
        Work::EmptyRecycleBin { command, roots } => {
            assert_eq!(command.program, "powershell");
            assert_eq!(roots, ["r"]);
        }
        other => panic!("{:?}", other),
    }
    let sql = CleanAction::BrowserSql {
        db_path: "db".to_string(),
        kind: BrowserDbKind::FirefoxCookies,
    };
    match clean::execute_action(&sql, &list) {
        Work::ClearDatabase { db_path, run } => {
            assert_eq!(db_path, "db");
            assert_eq!(run.next_statement().unwrap().params, ["keep.com", "%.keep.com"]);
        }
        other => panic!("{:?}", other),
    }
    let value = CleanAction::RegistryDelete {
        key_path: "HKCU\\K".to_string(),
        value_name: Some("v".to_string()),
        delete_key: false,
    };
    match clean::execute_action(&value, &list) {
        Work::RunCommand { command, label } => {
            assert_eq!(command.args, ["delete", "HKCU\\K", "/v", "v", "/f"]);
            assert_eq!(label, "reg delete");
        }
        other => panic!("{:?}", other),
    }
}

#[test]
fn a_run_accounts_for_every_item() {
    let items = vec![
        named("item-1", "一", CleanAction::FlushDns),
        named("item-2", "二", CleanAction::ClearClipboard),
        named("item-3", "三", CleanAction::FlushDns),
        named("item-4", "四", CleanAction::FlushDns),
        named("item-5", "五", CleanAction::FlushDns),
    ];
    let decisions = vec![
        Decision { item_id: "item-1".to_string(), choice: ConflictDecision::Skip },
        Decision { item_id: "item-2".to_string(), choice: ConflictDecision::Kill },
        Decision { item_id: "item-5".to_string(), choice: ConflictDecision::Skip },
    ];
    let mut run = CleanRun::new(items, decisions, Ok(None)).unwrap();

    let p = run.next_item().unwrap();
    assert_eq!((p.total, p.completed, p.freed_bytes), (5, 1, 0));
    assert_eq!((p.current.as_str(), p.status.as_str()), ("二", "running"));
    assert!(matches!(run.action(), CleanAction::ClearClipboard));
    run.record(freed(7, &["x: a"]));

    let p = run.next_item().unwrap();
    assert_eq!((p.completed, p.freed_bytes, p.current.as_str()), (2, 7, "三"));
    assert_eq!(p.errors, ["x: a"]);
    run.record(Err("broken".to_string()));

    let p = run.next_item().unwrap();
    assert_eq!((p.completed, p.current.as_str()), (3, "四"));
    run.record(freed(u64::MAX, &[]));

    assert!(run.next_item().is_none());
    let end = run.last_progress();
    assert_eq!((end.total, end.completed), (5, 5));
    assert_eq!((end.current.as_str(), end.status.as_str()), ("完成", "done"));
    let s = run.summary();
    assert_eq!((s.requested_count, s.cleaned_count, s.skipped_count), (5, 2, 2));
    assert_eq!(s.freed_bytes, u64::MAX);
    assert_eq!(s.errors, ["x: a", "三: broken"]);
    assert_eq!(s.backup_created, None);
}

#[test]
fn a_failed_backup_stops_the_run() {
    let key = CleanAction::RegistryDelete {
        key_path: "HKCU\\K".to_string(),
        value_name: None,
        delete_key: true,
    };
    let started = CleanRun::new(
        vec![named("item-1", "n", key)],
        Vec::new(),
        Err("reg export 执行失败".to_string()),
    );
    assert_eq!(started.unwrap_err(), "reg export 执行失败");
}

#[test]
fn the_summary_names_the_backup() {
    let key = CleanAction::RegistryDelete {
        key_path: "HKCU\\K".to_string(),
        value_name: None,
        delete_key: true,
    };
    let file = "C:\\Backup\\registry_backup_1.reg".to_string();
    let mut run =
        CleanRun::new(vec![named("item-1", "n", key)], Vec::new(), Ok(Some(file.clone()))).unwrap();
    assert!(run.next_item().is_some());
    run.record(freed(0, &[]));
    assert!(run.next_item().is_none());
    assert_eq!(run.summary().backup_created, Some(file));
    assert_eq!(run.summary().cleaned_count, 1);
}
