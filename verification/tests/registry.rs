use dcleaner::item::{CleanAction, RiskLevel, ScannedItem};
use dcleaner::registry;
use dcleaner::registry::{
    ExtensionRecord, FontPlace, IssueKind, Pointer, RegistryRoot, RegistrySurvey, UninstallRecord,
    ValueRecord,
};

fn pointer(text: &str, present: bool) -> Option<Pointer> {
    Some(Pointer { text: text.to_string(), values: Vec::new(), present })
}

fn value(name: &str, text: &str, present: bool) -> ValueRecord {
    ValueRecord { name: name.to_string(), data: pointer(text, present) }
}

fn program(
    name: &str,
    display: Option<&str>,
    location: Option<Pointer>,
    uninstall: Option<Pointer>,
) -> UninstallRecord {
    UninstallRecord {
        name: name.to_string(),
        display_name: display.map(|s| s.to_string()),
        install_location: location,
        uninstall,
    }
}

fn extension(name: &str, class: Option<&str>, class_present: bool) -> ExtensionRecord {
    ExtensionRecord {
        name: name.to_string(),
        class_name: class.map(|s| s.to_string()),
        class_present,
    }
}

fn empty_survey() -> RegistrySurvey {
    RegistrySurvey {
        shared_dlls: vec![None, None],
        startup: vec![None, None, None, None],
        app_paths: vec![None, None],
        fonts: vec![None, None],
        uninstall: vec![None, None, None],
        extensions: Vec::new(),
    }
}

fn deletion(item: &ScannedItem) -> (&str, Option<&str>, bool) {
    match &item.action {
        CleanAction::RegistryDelete { key_path, value_name, delete_key } => {
            (key_path.as_str(), value_name.as_deref(), *delete_key)
        }
        other => panic!("{:?}", other),
    }
}

#[test]
fn keys_are_looked_at_in_order() {
    let shown = |kind: IssueKind| -> Vec<String> {
        registry::registry_targets(kind).iter().map(registry::target_key_path).collect()
    };
    assert_eq!(
        shown(IssueKind::SharedDll),
        [
            "HKLM\\SOFTWARE\\Microsoft\\Windows\\CurrentVersion\\SharedDLLs",
            "HKCU\\SOFTWARE\\Microsoft\\Windows\\CurrentVersion\\SharedDLLs"
        ]
    );
    assert_eq!(
        shown(IssueKind::Startup),
        [
            "HKLM\\SOFTWARE\\Microsoft\\Windows\\CurrentVersion\\Run",
            "HKLM\\SOFTWARE\\Microsoft\\Windows\\CurrentVersion\\RunOnce",
            "HKCU\\SOFTWARE\\Microsoft\\Windows\\CurrentVersion\\Run",
            "HKCU\\SOFTWARE\\Microsoft\\Windows\\CurrentVersion\\RunOnce"
        ]
    );
    assert_eq!(
        shown(IssueKind::Uninstall)[1],
        "HKLM\\SOFTWARE\\WOW6432Node\\Microsoft\\Windows\\CurrentVersion\\Uninstall"
    );
    assert_eq!(shown(IssueKind::AppPath).len(), 2);
    assert_eq!(
        shown(IssueKind::Font)[1],
        "HKCU\\SOFTWARE\\Microsoft\\Windows NT\\CurrentVersion\\Fonts"
    );
    assert_eq!(shown(IssueKind::FileExtension), ["HKCR"]);
    assert_eq!(registry::root_label(RegistryRoot::ClassesRoot), "HKCR");
}

#[test]
fn missing_libraries_are_offered() {
    let survey = vec![
        Some(vec![value("C:\\a.dll", "C:\\a.dll", true), value("C:\\b.dll", "C:\\b.dll", false)]),
        None,
    ];
    let mut items = Vec::new();
    let mut counter = 0;
    registry::scan_registry_shared_dlls(&mut items, &mut counter, &survey);
    assert_eq!((items.len(), counter), (1, 1));
    let key = "HKLM\\SOFTWARE\\Microsoft\\Windows\\CurrentVersion\\SharedDLLs";
    assert_eq!(deletion(&items[0]), (key, Some("C:\\b.dll"), false));
    let p = &items[0].public;
    assert_eq!(p.id, "item-1");
    assert_eq!(p.category, "注册表");
    assert_eq!(p.name, "缺失的共享 DLL");
    assert_eq!(p.detail, "删除指向不存在 DLL 的计数记录。");
    assert_eq!(p.path, format!("{}\\C:\\b.dll", key));
    assert_eq!(p.risk, RiskLevel::Medium);
    assert!(p.selected_by_default);
}

#[test]
fn startup_entries_are_judged_by_their_program() {
    let survey = vec![
        None,
        None,
        Some(vec![
            value("good", "C:\\a.exe /q", true),
            value("bad", "C:\\b.exe /q", false),
            value("installer", "msiexec /x", false),
            ValueRecord { name: "binary".to_string(), data: None },
        ]),
        None,
    ];
    let mut items = Vec::new();
    let mut counter = 4;
    registry::scan_registry_startup(&mut items, &mut counter, &survey);
    assert_eq!((items.len(), counter), (1, 5));
    assert_eq!(
        deletion(&items[0]),
        ("HKCU\\SOFTWARE\\Microsoft\\Windows\\CurrentVersion\\Run", Some("bad"), false)
    );
    assert_eq!(items[0].public.id, "item-5");
    assert_eq!(items[0].public.name, "失效的开机启动项");
    assert!(items[0].public.selected_by_default);
}

#[test]
fn application_paths_lose_their_key() {
    let survey = vec![Some(vec![value("old.exe", "\"C:\\old.exe\"", false)]), None];
    let mut items = Vec::new();
    let mut counter = 0;
    registry::scan_registry_app_paths(&mut items, &mut counter, &survey);
    assert_eq!(
        deletion(&items[0]),
        ("HKLM\\SOFTWARE\\Microsoft\\Windows\\CurrentVersion\\App Paths\\old.exe", None, true)
    );
    assert_eq!(items[0].public.path, deletion(&items[0]).0);
    assert_eq!(items[0].public.name, "无效的应用路径");
    assert_eq!(items[0].public.risk, RiskLevel::High);
    assert!(!items[0].public.selected_by_default);
}

#[test]
fn missing_fonts_are_offered_and_not_selected() {
    let survey = vec![None, Some(vec![value("Arial", "arial.ttf", false)])];
    let mut items = Vec::new();
    let mut counter = 0;
    registry::scan_registry_fonts(&mut items, &mut counter, &survey);
    assert_eq!(
        deletion(&items[0]),
        ("HKCU\\SOFTWARE\\Microsoft\\Windows NT\\CurrentVersion\\Fonts", Some("Arial"), false)
    );
    assert_eq!(items[0].public.name, "无效的字体记录");
    assert_eq!(items[0].public.risk, RiskLevel::Medium);
    assert!(!items[0].public.selected_by_default);
}

#[test]
fn fonts_are_looked_for_below_the_windows_directory() {
    let none = Vec::new();
    match registry::font_place("C:\\Windows", "arial.ttf", &none) {
        FontPlace::Below { fonts, file } => {
            assert_eq!((fonts.as_str(), file.as_str()), ("C:\\Windows\\Fonts", "arial.ttf"))
        }
        FontPlace::Given(path) => panic!("{}", path),
    }
    let known = vec![Some("D:\\Win".to_string())];
    match registry::font_place("C:\\Windows", "%windir%\\f.ttf", &known) {
        FontPlace::Given(path) => assert_eq!(path, "D:\\Win\\f.ttf"),
        FontPlace::Below { file, .. } => panic!("{}", file),
    }
}

#[test]
fn absolute_paths_begin_with_a_drive_or_a_share() {
    for p in ["C:\\a", "c:/a", "\\\\server\\share", "//s/h/x", "\\\\?\\C:\\a", "\\\\.\\COM1"] {
        assert!(registry::is_absolute_path(p), "{}", p);
    }
    for p in ["", "a", "C:", "C:a", "\\a", "/a", "\\\\server", "\\\\server\\", "\\\\", "1:\\a"] {
        assert!(!registry::is_absolute_path(p), "{}", p);
    }
}

#[test]
fn programs_are_left_over_where_everything_is_gone() {
    let gone = || pointer("C:\\gone", false);
    let cases = vec![
        (program("1", Some("App"), gone(), pointer("C:\\gone\\u.exe", false)), true),
        (program("2", Some("  "), gone(), pointer("C:\\gone\\u.exe", false)), false),
        (program("3", None, gone(), pointer("C:\\gone\\u.exe", false)), false),
        (program("4", Some("App"), None, pointer("C:\\gone\\u.exe", false)), false),
        (program("5", Some("App"), gone(), None), false),
        (program("6", Some("App"), pointer("", false), pointer("u.exe", false)), false),
        (program("7", Some("App"), pointer("C:\\x", true), pointer("u.exe", false)), false),
        (program("8", Some("App"), gone(), pointer("C:\\u.exe", true)), false),
        (program("9", Some("App"), gone(), pointer("MsiExec.exe /I{}", false)), false),
    ];
    for (record, expected) in &cases {
        assert_eq!(registry::is_uninstall_stale(record), *expected, "{}", record.name);
    }
    let records: Vec<UninstallRecord> = cases.into_iter().map(|c| c.0).collect();
    let mut items = Vec::new();
    let mut counter = 0;
    registry::scan_registry_uninstall(&mut items, &mut counter, &vec![None, Some(records), None]);
    assert_eq!(items.len(), 1);
    assert_eq!(
        deletion(&items[0]),
        (
            "HKLM\\SOFTWARE\\WOW6432Node\\Microsoft\\Windows\\CurrentVersion\\Uninstall\\1",
            None,
            true
        )
    );
    assert_eq!(items[0].public.name, "卸载软件残留路径");
    assert_eq!(items[0].public.risk, RiskLevel::High);
}

#[test]
fn extensions_are_judged_by_their_class() {
    let records = vec![
        extension(".a", Some("aFile"), true),
        extension(".b", Some("bFile"), false),
        extension(".c", Some(" "), false),
        extension(".d", None, false),
        extension("class", Some("gone"), false),
        extension("", Some("gone"), false),
    ];
    let mut items = Vec::new();
    let mut counter = 0;
    registry::scan_registry_file_extensions(&mut items, &mut counter, &records);
    assert_eq!(items.len(), 1);
    assert_eq!(deletion(&items[0]), ("HKCR\\.b", None, true));
    assert_eq!(items[0].public.name, "未使用的文件扩展名");
    assert_eq!(items[0].public.detail, "删除指向不存在文件类型类名的扩展名记录。");
    assert!(!items[0].public.selected_by_default);
}

#[test]
fn the_parts_of_the_registry_follow_each_other() {
    let mut survey = empty_survey();
    survey.extensions = vec![extension(".b", Some("bFile"), false)];
    survey.shared_dlls[1] = Some(vec![value("x.dll", "x.dll", false)]);
    survey.fonts[0] = Some(vec![value("F", "f.ttf", false)]);
    let mut items = Vec::new();
    let mut counter = 0;
    registry::scan_registry_items(&mut items, &mut counter, &survey);
    let names: Vec<&str> = items.iter().map(|i| i.public.name.as_str()).collect();
    assert_eq!(names, ["缺失的共享 DLL", "无效的字体记录", "未使用的文件扩展名"]);
    let ids: Vec<&str> = items.iter().map(|i| i.public.id.as_str()).collect();
    assert_eq!(ids, ["item-1", "item-2", "item-3"]);
}

#[test]
fn an_intact_registry_is_left_alone() {
    let mut survey = empty_survey();
    survey.startup[0] = Some(vec![value("a", "C:\\a.exe", true)]);
    survey.uninstall[0] =
        Some(vec![program("p", Some("P"), pointer("C:\\p", true), pointer("C:\\u.exe", true))]);
    survey.extensions = vec![extension(".a", Some("aFile"), true)];
    let mut items = Vec::new();
    let mut counter = 0;
    registry::scan_registry_items(&mut items, &mut counter, &survey);
    assert!(items.is_empty());
    assert_eq!(counter, 0);
}

#[test]
fn an_issue_shows_its_key_and_value() {
    let mut items = Vec::new();
    let mut counter = 8;
    registry::add_registry_issue(
        &mut items,
        &mut counter,
        "name",
        "do it",
        "HKCU\\K",
        Some("v".to_string()),
        false,
        RiskLevel::Medium,
        true,
    );
    registry::add_registry_issue(
        &mut items,
        &mut counter,
        "name",
        "do it",
        "HKCU\\K",
        None,
        true,
        RiskLevel::High,
        false,
    );
    assert_eq!(items[0].public.path, "HKCU\\K\\v");
    assert_eq!(items[1].public.path, "HKCU\\K");
    assert_eq!(items[1].public.id, "item-10");
}
