use dcleaner::disk;
use dcleaner::disk::{FileFilter, FileName, FileRecord, PathKind, PathSurvey};

fn name(text: &str) -> FileName {
    FileName { text: text.to_string(), exact: true }
}

fn file(path: &str, file_name: &str, size_bytes: u64) -> FileRecord {
    FileRecord { path: path.to_string(), name: name(file_name), size_bytes }
}

fn survey(path: &str, kind: PathKind, size_bytes: u64, files: Vec<FileRecord>) -> PathSurvey {
    let last = path.rsplit('\\').next().unwrap_or("");
    PathSurvey { path: path.to_string(), name: name(last), kind, size_bytes, files }
}

fn dir(path: &str, files: Vec<FileRecord>) -> PathSurvey {
    survey(path, PathKind::Directory, 0, files)
}

fn paths(v: &[PathSurvey]) -> Vec<&str> {
    v.iter().map(|p| p.path.as_str()).collect()
}

#[test]
fn names_are_joined_with_one_separator() {
    assert_eq!(disk::join_path("C:\\Windows", "Temp"), "C:\\Windows\\Temp");
    assert_eq!(disk::join_path("C:\\", "Temp"), "C:\\Temp");
    assert_eq!(disk::join_path("C:/", "Temp"), "C:/Temp");
    assert_eq!(disk::join_path("C:", "Temp"), "C:Temp");
    assert_eq!(disk::join_path("", "Temp"), "Temp");
    assert_eq!(disk::join_path("1:", "x"), "1:\\x");
    assert_eq!(disk::join_path2("a", "b", "c"), "a\\b\\c");
    assert_eq!(disk::join_path3("a", "b", "c", "d"), "a\\b\\c\\d");
}

#[test]
fn verbatim_paths_are_put_together_again() {
    let cases = [
        ("\\\\?\\C:\\Windows", "\\\\?\\C:\\Windows\\Temp"),
        ("\\\\?\\C:\\Windows\\\\x\\", "\\\\?\\C:\\Windows\\x\\Temp"),
        ("\\\\?\\C:\\a/", "\\\\?\\C:\\a/\\Temp"),
        ("\\\\?\\C:/a", "\\\\?\\C:\\a\\Temp"),
        ("\\\\?\\C:", "\\\\?\\C:\\Temp"),
        ("\\\\?\\UNC\\server\\share\\\\x", "\\\\?\\UNC\\server\\share\\x\\Temp"),
        ("\\\\?\\UNC\\server\\", "\\\\?\\UNC\\server\\Temp"),
        ("\\\\?\\Volume{1}\\a", "\\\\?\\Volume{1}\\a\\Temp"),
        ("\\\\?\\C:\\a\\.", "\\\\?\\C:\\a\\.\\Temp"),
    ];
    for (base, expected) in cases {
        assert_eq!(disk::join_path(base, "Temp"), expected, "{}", base);
    }
    assert_eq!(disk::join_path("//?/C:/a/", "Temp"), "//?/C:/a/Temp");
}

#[test]
fn extensions_agree_with_std() {
    for s in ["a.reg", "a", ".reg", "a.", "a.b.REG", "..", "...", "..a", "x.log "] {
        let expected = std::path::Path::new(s).extension().map(|e| e.to_str().unwrap());
        assert_eq!(disk::extension_of(s).as_deref(), expected, "{:?}", s);
    }
}

#[test]
fn the_windows_directory_has_a_default() {
    assert_eq!(disk::windows_dir(&None), "C:\\Windows");
    assert_eq!(disk::windows_dir(&Some("D:\\Win".to_string())), "D:\\Win");
}

#[test]
fn only_directories_are_kept() {
    let kept = disk::existing_dirs(vec![
        dir("a", vec![]),
        survey("b", PathKind::File, 1, vec![]),
        survey("c", PathKind::Missing, 0, vec![]),
        survey("d", PathKind::Other, 0, vec![]),
        dir("e", vec![]),
    ]);
    assert_eq!(paths(&kept), ["a", "e"]);
}

#[test]
fn directories_are_kept_once_without_regard_to_case() {
    let kept = disk::unique_existing_dirs(vec![
        Some(dir("C:\\Temp", vec![])),
        None,
        Some(dir("c:\\TEMP", vec![])),
        Some(survey("C:\\File", PathKind::File, 3, vec![])),
        Some(dir("C:\\Windows\\Temp", vec![])),
    ]);
    assert_eq!(paths(&kept), ["C:\\Temp", "C:\\Windows\\Temp"]);
}

#[test]
fn there_is_a_recycle_bin_for_each_drive() {
    let all = disk::recycle_bin_candidates();
    assert_eq!(all.len(), 26);
    assert_eq!(all[0], "A:\\$Recycle.Bin");
    assert_eq!(all[2], "C:\\$Recycle.Bin");
    assert_eq!(all[25], "Z:\\$Recycle.Bin");
    let roots = disk::recycle_bin_roots(vec![
        survey("A:\\$Recycle.Bin", PathKind::Missing, 0, vec![]),
        dir("C:\\$Recycle.Bin", vec![]),
        survey("D:\\$Recycle.Bin", PathKind::Other, 0, vec![]),
    ]);
    assert_eq!(paths(&roots), ["C:\\$Recycle.Bin", "D:\\$Recycle.Bin"]);
}

#[test]
fn sizes_add_up_and_previews_stop_at_the_limit() {
    let dirs = vec![
        dir("a", vec![file("a\\1", "1", 10), file("a\\2", "2", 20)]),
        dir("b", vec![file("b\\3", "3", 30)]),
    ];
    let (size, preview) = disk::dirs_size_preview(&dirs, 2);
    assert_eq!(size, 60);
    let shown: Vec<(&str, u64)> =
        preview.iter().map(|p| (p.path.as_str(), p.size_bytes)).collect();
    assert_eq!(shown, [("a\\1", 10), ("a\\2", 20)]);
    assert_eq!(disk::dirs_size_preview(&dirs, 0).1.len(), 0);
    assert_eq!(disk::dirs_size_preview(&dirs, 100).1.len(), 3);
    assert_eq!(disk::directories_size(&dirs), 60);
}

#[test]
fn a_sum_that_does_not_fit_is_capped() {
    let dirs = vec![dir("a", vec![file("a\\1", "1", u64::MAX), file("a\\2", "2", 5)])];
    assert_eq!(disk::dirs_size_preview(&dirs, 1).0, u64::MAX);
    assert_eq!(disk::directories_size(&dirs), u64::MAX);
    assert_eq!(disk::path_size(&dirs[0]), None);
}

#[test]
fn the_size_of_a_path_depends_on_what_it_is() {
    assert_eq!(disk::path_size(&survey("f", PathKind::File, 7, vec![])), Some(7));
    assert_eq!(
        disk::path_size(&dir("d", vec![file("d\\1", "1", 3), file("d\\2", "2", 4)])),
        Some(7)
    );
    assert_eq!(disk::path_size(&survey("m", PathKind::Missing, 0, vec![])), Some(0));
    assert_eq!(disk::path_size(&survey("o", PathKind::Other, 9, vec![])), Some(0));
}

#[test]
fn filters_go_by_the_name() {
    for n in ["a.log", "a.OLD", "setup.Etl", "x.tmp"] {
        assert!(disk::is_wanted(FileFilter::Logs, &name(n)), "{}", n);
    }
    for n in ["a.txt", "log", ".log", "a.log.bak"] {
        assert!(!disk::is_wanted(FileFilter::Logs, &name(n)), "{}", n);
    }
    for n in ["Rar$DI0.1", "7zE123", "WinRAR.tmp", "7z"] {
        assert!(disk::is_wanted(FileFilter::ArchiveLeftovers, &name(n)), "{}", n);
    }
    for n in ["rar.txt", "x7z", "zip$1"] {
        assert!(!disk::is_wanted(FileFilter::ArchiveLeftovers, &name(n)), "{}", n);
    }
    let damaged = FileName { text: "7z\u{fffd}".to_string(), exact: false };
    assert!(!disk::is_wanted(FileFilter::ArchiveLeftovers, &damaged));
    assert!(disk::is_wanted(FileFilter::Any, &damaged));
}

#[test]
fn files_are_collected_from_files_and_directories() {
    let places = vec![
        survey("C:\\a.log", PathKind::File, 1, vec![]),
        survey("C:\\b.txt", PathKind::File, 2, vec![]),
        dir("C:\\d", vec![file("C:\\d\\c.old", "c.old", 4), file("C:\\d\\e.txt", "e.txt", 8)]),
        survey("C:\\none.log", PathKind::Missing, 0, vec![]),
    ];
    let logs = disk::collect_files_matching(&places, FileFilter::Logs);
    assert_eq!(logs.files, ["C:\\a.log", "C:\\d\\c.old"]);
    assert_eq!(logs.size, 5);
    assert_eq!(logs.preview.len(), 2);
    let all = disk::collect_existing_files(&places);
    assert_eq!(all.files, ["C:\\a.log", "C:\\b.txt", "C:\\d\\c.old", "C:\\d\\e.txt"]);
    assert_eq!(all.size, 15);
}

#[test]
fn collections_preview_the_first_files_only() {
    let many: Vec<FileRecord> =
        (0..200).map(|i| file(&format!("d\\{}", i), &i.to_string(), 1)).collect();
    let found = disk::collect_existing_files(&vec![dir("d", many)]);
    assert_eq!(found.files.len(), 200);
    assert_eq!(found.size, 200);
    assert_eq!(found.preview.len(), 180);
    assert_eq!(found.preview[179].path, "d\\179");
}

#[test]
fn at_most_four_paths_are_shown() {
    let v: Vec<String> = ["a", "b", "c", "d", "e"].iter().map(|s| s.to_string()).collect();
    assert_eq!(disk::join_paths(&v), "a; b; c; d");
    assert_eq!(disk::join_paths(&v[..1].to_vec()), "a");
    assert_eq!(disk::join_paths(&Vec::new()), "");
}
