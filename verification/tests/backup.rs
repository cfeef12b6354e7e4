use dcleaner::backup;
use dcleaner::backup::{BackupRecord, BackupRun};
use dcleaner::clock;
use dcleaner::clock::Moment;
use dcleaner::command::{CommandOutput, Run};
use dcleaner::disk::FileName;
use dcleaner::item;
use dcleaner::item::{CleanAction, ModuleKind, RiskLevel, ScannedItem};
use dcleaner::utf16;

fn deletes(key: &str) -> ScannedItem {
    acts(CleanAction::RegistryDelete {
        key_path: key.to_string(),
        value_name: None,
        delete_key: true,
    })
}

fn acts(action: CleanAction) -> ScannedItem {
    let public = item::make_item(
        ModuleKind::Registry,
        "c",
        "n",
        "p".to_string(),
        "d",
        0,
        RiskLevel::High,
        false,
        Vec::new(),
        Vec::new(),
    );
    ScannedItem { public, action }
}

fn ran(success: bool, stderr: &str) -> Run {
    Ok(CommandOutput { success, stdout: Vec::new(), stderr: stderr.as_bytes().to_vec() })
}

fn record(name: &str, exact: bool, modified: Option<Moment>) -> BackupRecord {
    BackupRecord {
        name: FileName { text: name.to_string(), exact },
        path: format!("C:\\Backup\\{}", name),
        size_bytes: 10,
        modified,
    }
}

fn at(seconds: u64) -> Option<Moment> {
    Some(Moment { before_epoch: false, seconds })
}

#[test]
fn every_key_is_backed_up_once() {
    let items = vec![
        deletes("HKLM\\A"),
        acts(CleanAction::FlushDns),
        deletes("HKCU\\B"),
        deletes("HKLM\\A"),
    ];
    assert_eq!(backup::registry_keys(&items), ["HKLM\\A", "HKCU\\B"]);
}

#[test]
fn without_deletions_there_is_no_backup() {
    assert!(BackupRun::new(&vec![acts(CleanAction::FlushDns)], "C:\\B", 1).is_none());
    assert!(BackupRun::new(&Vec::new(), "C:\\B", 1).is_none());
}

#[test]
fn files_are_named_by_time_and_number() {
    assert_eq!(backup::backup_file_name(1700000000), "registry_backup_1700000000.reg");
    assert_eq!(backup::part_file_name(5, 0), "registry_backup_5_part_0.reg");
    assert_eq!(backup::part_file_name(5, 12), "registry_backup_5_part_12.reg");
}

#[test]
fn the_header_of_an_export_is_taken_off() {
    assert_eq!(
        backup::body_of_export("\r\n \r\nWindows Registry Editor Version 5.00\r\n\r\n[K]\r\n\"a\"=\"b\"\r\n"),
        "\r\n[K]\r\n\"a\"=\"b\""
    );
    assert_eq!(backup::body_of_export("only"), "");
    assert_eq!(backup::body_of_export(""), "");
    assert_eq!(backup::body_of_export("\n\n"), "");
    assert_eq!(backup::body_of_export("h\nx\n\ny"), "x\r\n\r\ny");
}

#[test]
fn exports_become_one_file() {
    let items = vec![deletes("HKLM\\A"), deletes("HKCU\\B")];
    let mut run = BackupRun::new(&items, "C:\\Backup", 77).unwrap();
    let first = run.next_export().unwrap();
    assert_eq!(first.key, "HKLM\\A");
    assert_eq!(first.file, "C:\\Backup\\registry_backup_77_part_0.reg");
    let bytes = utf16::utf16le_with_bom("Windows Registry Editor Version 5.00\r\n[A]\r\n");
    assert!(run.record(&ran(true, ""), &Ok(bytes)));
    let second = run.next_export().unwrap();
    assert_eq!(second.key, "HKCU\\B");
    assert_eq!(second.file, "C:\\Backup\\registry_backup_77_part_1.reg");
    assert!(run.record(&ran(true, ""), &Ok(b"REGEDIT4\n[B]\n".to_vec())));
    assert!(run.next_export().is_none());
    let (file, bytes) = run.finish().unwrap();
    assert_eq!(file, "C:\\Backup\\registry_backup_77.reg");
    assert_eq!(
        backup::read_reg_file(&bytes),
        "Windows Registry Editor Version 5.00\r\n\r\n[A]\r\n\r\n[B]\r\n\r\n"
    );
}

#[test]
fn a_failed_export_ends_the_backup() {
    let items = vec![deletes("HKLM\\A"), deletes("HKCU\\B")];
    let mut run = BackupRun::new(&items, "C:\\Backup", 77).unwrap();
    assert!(run.record(&ran(false, "denied"), &Err(String::new())));
    assert!(run.next_export().is_none());
    assert_eq!(run.finish(), Err("reg export 执行失败: denied".to_string()));
}

#[test]
fn an_export_that_did_not_start_ends_the_backup() {
    let mut run = BackupRun::new(&vec![deletes("HKLM\\A")], "C:\\Backup", 77).unwrap();
    assert!(!run.record(&Err("no reg".to_string()), &Err(String::new())));
    assert_eq!(run.finish(), Err("no reg".to_string()));
}

#[test]
fn an_export_that_cannot_be_read_ends_the_backup() {
    let mut run = BackupRun::new(&vec![deletes("HKLM\\A")], "C:\\Backup", 77).unwrap();
    assert!(!run.record(&ran(true, ""), &Err("unreadable".to_string())));
    assert_eq!(run.finish(), Err("unreadable".to_string()));
}

#[test]
fn backups_are_listed_with_the_greatest_time_first() {
    let files = vec![
        record("a.reg", true, at(100)),
        record("b.txt", true, at(999)),
        record("c.reg", true, None),
        record("d.reg", true, at(300)),
        record("e.reg", true, at(300)),
        record("f.REG", true, at(500)),
        record("g.reg", true, at(20)),
        record("h.reg", true, Some(Moment { before_epoch: true, seconds: 5 })),
    ];
    let listed = backup::list_backups(&files);
    let shown: Vec<(&str, &str)> =
        listed.iter().map(|e| (e.name.as_str(), e.created_at.as_str())).collect();
    assert_eq!(
        shown,
        [
            ("d.reg", "300"),
            ("e.reg", "300"),
            ("g.reg", "20"),
            ("a.reg", "100"),
            ("c.reg", "-"),
            ("h.reg", "-")
        ]
    );
    assert_eq!(listed[0].path, "C:\\Backup\\d.reg");
    assert_eq!(listed[0].size_bytes, 10);
}

#[test]
fn a_name_that_is_no_text_is_replaced() {
    let listed = backup::list_backups(&vec![record("x\u{fffd}.reg", false, at(1))]);
    assert_eq!(listed[0].name, "registry_backup.reg");
    assert!(backup::list_backups(&Vec::new()).is_empty());
}

#[test]
fn only_backups_that_are_there_are_restored() {
    let good = Some(FileName { text: "a.reg".to_string(), exact: true });
    let bad = Some(FileName { text: "a.txt".to_string(), exact: true });
    let refused = Err("备份文件不存在或格式不正确".to_string());
    assert_eq!(backup::restorable(&good, true), Ok(()));
    assert_eq!(backup::restorable(&good, false), refused);
    assert_eq!(backup::restorable(&bad, true), refused);
    assert_eq!(backup::restorable(&None, true), refused);
}

#[test]
fn restoring_is_judged_by_the_import() {
    let done = backup::restore_outcome(&ran(true, "")).unwrap();
    assert!(done.success);
    assert_eq!(done.message, "注册表备份已导入。");
    assert_eq!(
        backup::restore_outcome(&ran(false, "bad file")).unwrap_err(),
        "reg import 执行失败: bad file"
    );
    assert_eq!(backup::restore_outcome(&Err("gone".to_string())).unwrap_err(), "gone");
}

#[test]
fn times_before_the_epoch_have_no_seconds() {
    let before = Moment { before_epoch: true, seconds: 9 };
    let after = Moment { before_epoch: false, seconds: 9 };
    assert_eq!(clock::system_time_to_seconds(before), None);
    assert_eq!(clock::system_time_to_seconds(after), Some(9));
    assert_eq!(clock::unix_timestamp(before), 0);
    assert_eq!(clock::unix_timestamp(after), 9);
}
