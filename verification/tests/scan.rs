use dcleaner::application;
use dcleaner::browser;
use dcleaner::browser::{BrowserSurvey, ProfileDir, ProfileSurvey};
use dcleaner::disk::{FileName, FileRecord, PathKind, PathSurvey};
use dcleaner::firefox;
use dcleaner::firefox::{FirefoxProfileSurvey, FirefoxSurvey};
use dcleaner::item;
use dcleaner::item::{BrowserDbKind, CleanAction, ModuleKind, RiskLevel, ScannedItem};
use dcleaner::registry::{ExtensionRecord, RegistrySurvey};
use dcleaner::scan;
use dcleaner::scan::{ApplicationInput, BrowserInput, ScanSurvey};
use dcleaner::system;
use dcleaner::system::{SystemEnv, SystemSurvey};

fn name(text: &str) -> FileName {
    FileName { text: text.to_string(), exact: true }
}

fn at(path: &str, kind: PathKind, size_bytes: u64, files: &[(&str, u64)]) -> PathSurvey {
    let last = |p: &str| name(p.rsplit('\\').next().unwrap_or(""));
    PathSurvey {
        path: path.to_string(),
        name: last(path),
        kind,
        size_bytes,
        files: files
            .iter()
            .map(|(p, n)| FileRecord { path: p.to_string(), name: last(p), size_bytes: *n })
            .collect(),
    }
}

fn missing(path: &str) -> PathSurvey {
    at(path, PathKind::Missing, 0, &[])
}

fn file(path: &str, size: u64) -> PathSurvey {
    at(path, PathKind::File, size, &[])
}

fn dir(path: &str, files: &[(&str, u64)]) -> PathSurvey {
    at(path, PathKind::Directory, 0, files)
}

fn some(s: &str) -> Option<String> {
    Some(s.to_string())
}

fn names(items: &[ScannedItem]) -> Vec<&str> {
    items.iter().map(|i| i.public.name.as_str()).collect()
}

fn bare_system() -> SystemSurvey {
    SystemSurvey {
        temp_dirs: vec![None, None, Some(missing("C:\\Windows\\Temp"))],
        recycle_bins: Vec::new(),
        dumps: Vec::new(),
        logs: missing("C:\\Windows\\Logs"),
        prefetch: missing("C:\\Windows\\Prefetch"),
    }
}

fn full_system() -> SystemSurvey {
    SystemSurvey {
        temp_dirs: vec![
            Some(dir("C:\\T", &[("C:\\T\\a", 1)])),
            Some(dir("c:\\t", &[("c:\\t\\a", 1)])),
            Some(dir("C:\\Windows\\Temp", &[("C:\\Windows\\Temp\\b", 2)])),
        ],
        recycle_bins: vec![
            missing("A:\\$Recycle.Bin"),
            dir("C:\\$Recycle.Bin", &[("C:\\$Recycle.Bin\\x", 4)]),
        ],
        dumps: vec![file("C:\\Windows\\MEMORY.DMP", 8), missing("C:\\Windows\\Minidump")],
        logs: dir("C:\\Windows\\Logs", &[("C:\\Windows\\Logs\\a.log", 16), ("C:\\Windows\\Logs\\b.evtx", 32)]),
        prefetch: dir("C:\\Windows\\Prefetch", &[("C:\\Windows\\Prefetch\\p.pf", 64)]),
    }
}

fn no_browsers() -> FirefoxSurvey {
    FirefoxSurvey { present: false, profiles: Vec::new() }
}

fn empty_registry() -> RegistrySurvey {
    RegistrySurvey {
        shared_dlls: vec![None, None],
        startup: vec![None, None, None, None],
        app_paths: vec![None, None],
        fonts: vec![None, None],
        uninstall: vec![None, None, None],
        extensions: vec![ExtensionRecord {
            name: ".old".to_string(),
            class_name: some("oldFile"),
            class_present: false,
        }],
    }
}

fn profile_survey(p: &str) -> ProfileSurvey {
    ProfileSurvey {
        name: name(p),
        history: file("C:\\p\\History", 100),
        cookies: vec![missing("C:\\p\\Network\\Cookies"), file("C:\\p\\Cookies", 30)],
        session_dirs: vec![
            dir("C:\\p\\Sessions", &[("C:\\p\\Sessions\\s", 7)]),
            missing("C:\\p\\Session Storage"),
            missing("C:\\p\\Local Storage\\leveldb"),
        ],
    }
}

fn firefox_survey(session_size: u64) -> FirefoxSurvey {
    FirefoxSurvey {
        present: true,
        profiles: vec![FirefoxProfileSurvey {
            name: name("abc.default"),
            cache_dirs: vec![
                dir("L\\cache2", &[("L\\cache2\\1", 5)]),
                missing("L\\startupCache"),
                missing("L\\thumbnails"),
            ],
            places: file("P\\places.sqlite", 50),
            cookies: file("P\\cookies.sqlite", 20),
            session_dirs: vec![dir(
                "P\\sessionstore-backups",
                &[("P\\sessionstore-backups\\r", session_size)],
            )],
            session_files: vec![
                missing("P\\recovery.jsonlz4"),
                missing("P\\previous.jsonlz4"),
                file("P\\sessionstore.jsonlz4", 3),
            ],
        }],
    }
}

#[test]
fn the_system_plan_follows_the_environment() {
    let plan = system::system_plan(&SystemEnv {
        system_root: some("D:\\Win"),
        temp: some("C:\\T"),
        tmp: None,
        local_app_data: some("C:\\L"),
    });
    assert_eq!(plan.temp_dirs, [some("C:\\T"), None, some("D:\\Win\\Temp")]);
    assert_eq!(plan.recycle_bins.len(), 26);
    assert_eq!(plan.dumps, ["D:\\Win\\MEMORY.DMP", "D:\\Win\\Minidump", "C:\\L\\CrashDumps"]);
    assert_eq!(plan.logs, "D:\\Win\\Logs");
    assert_eq!(plan.prefetch, "D:\\Win\\Prefetch");
    let bare = system::system_plan(&SystemEnv {
        system_root: None,
        temp: None,
        tmp: None,
        local_app_data: None,
    });
    assert_eq!(bare.temp_dirs, [None, None, some("C:\\Windows\\Temp")]);
    assert_eq!(bare.dumps[2], "CrashDumps");
}

#[test]
fn a_bare_system_still_offers_clipboard_and_names() {
    let mut items = Vec::new();
    let mut counter = 0;
    system::scan_system_items(&mut items, &mut counter, bare_system());
    assert_eq!(names(&items), ["剪贴板内容", "DNS 解析缓存"]);
    assert!(!items[0].public.selected_by_default);
    assert!(items[1].public.selected_by_default);
    assert_eq!(items[0].public.path, "Windows 剪贴板");
    assert_eq!(items[1].public.path, "ipconfig /flushdns");
}

#[test]
fn a_full_system_is_offered_in_order() {
    let mut items = Vec::new();
    let mut counter = 0;
    system::scan_system_items(&mut items, &mut counter, full_system());
    assert_eq!(
        names(&items),
        [
            "系统临时文件",
            "回收站内容",
            "剪贴板内容",
            "内存转储文件",
            "Windows 日志文件",
            "DNS 解析缓存",
            "系统预读文件"
        ]
    );
    let sizes: Vec<u64> = items.iter().map(|i| i.public.size_bytes).collect();
    assert_eq!(sizes, [3, 4, 0, 8, 16, 0, 64]);
    match &items[0].action {
        CleanAction::DeleteDirectoryContents(dirs) => {
            assert_eq!(dirs, &["C:\\T", "C:\\Windows\\Temp"])
        }
        other => panic!("{:?}", other),
    }
    match &items[1].action {
        CleanAction::ClearRecycleBin(roots) => assert_eq!(roots, &["C:\\$Recycle.Bin"]),
        other => panic!("{:?}", other),
    }
    match &items[4].action {
        CleanAction::DeletePaths(paths) => assert_eq!(paths, &["C:\\Windows\\Logs\\a.log"]),
        other => panic!("{:?}", other),
    }
    assert_eq!(items[4].public.path, "C:\\Windows\\Logs");
    assert_eq!(items[4].public.risk, RiskLevel::Medium);
    assert!(!items[6].public.selected_by_default);
    assert_eq!(counter, 7);
}

#[test]
fn profiles_are_recognised_by_name() {
    for n in ["Default", "Profile 1", "Profile ", "Guest Profile"] {
        assert!(browser::is_profile_name(&name(n)), "{}", n);
    }
    for n in ["default", "Profile", "System Profile", "Crashpad"] {
        assert!(!browser::is_profile_name(&name(n)), "{}", n);
    }
    let damaged = FileName { text: "Profile \u{fffd}".to_string(), exact: false };
    assert!(!browser::is_profile_name(&damaged));
    assert_eq!(browser::shown_profile_name(&damaged), "Profile");
    assert_eq!(browser::shown_profile_name(&name("Default")), "Default");
}

#[test]
fn a_base_with_history_is_its_own_profile() {
    let at_dir = |p: &str, n: &str| ProfileDir { path: p.to_string(), name: name(n) };
    let found = browser::chromium_profiles(
        at_dir("B", "B"),
        vec![at_dir("B\\Default", "Default"), at_dir("B\\Crash", "Crash")],
        true,
    );
    assert_eq!(found.len(), 1);
    assert_eq!(found[0].path, "B\\Default");
    let alone = browser::chromium_profiles(at_dir("B", "B"), vec![], true);
    assert_eq!(alone.len(), 1);
    assert_eq!(alone[0].path, "B");
    assert!(browser::chromium_profiles(at_dir("B", "B"), vec![], false).is_empty());
    assert_eq!(
        browser::chromium_cache_paths("B", &found),
        [
            "B\\Default\\Cache",
            "B\\Default\\Code Cache",
            "B\\Default\\GPUCache",
            "B\\Default\\Service Worker\\CacheStorage",
            "B\\ShaderCache"
        ]
    );
}

#[test]
fn chromium_browsers_stand_below_the_local_data() {
    let rules = browser::chromium_rules("L");
    let shown: Vec<(&str, &str)> =
        rules.iter().map(|r| (r.name.as_str(), r.base.as_str())).collect();
    assert_eq!(
        shown,
        [
            ("Chrome", "L\\Google\\Chrome\\User Data"),
            ("Edge", "L\\Microsoft\\Edge\\User Data"),
            ("Chromium", "L\\Chromium\\User Data"),
            ("Brave", "L\\BraveSoftware\\Brave-Browser\\User Data")
        ]
    );
    assert_eq!(rules[2].process_names, ["chromium.exe", "chrome.exe"]);
    let plan = browser::chromium_profile_plan("P");
    assert_eq!(plan.history, "P\\History");
    assert_eq!(plan.cookies, ["P\\Network\\Cookies", "P\\Cookies"]);
    assert_eq!(
        plan.session_dirs,
        ["P\\Sessions", "P\\Session Storage", "P\\Local Storage\\leveldb"]
    );
}

#[test]
fn a_chromium_browser_is_offered_profile_by_profile() {
    let mut items = Vec::new();
    let mut counter = 0;
    let programs = vec!["chrome.exe".to_string()];
    let survey = BrowserSurvey {
        present: true,
        cache_dirs: vec![dir("C:\\p\\Cache", &[("C:\\p\\Cache\\1", 9)]), missing("C:\\s")],
        profiles: vec![profile_survey("Default")],
    };
    browser::add_chromium_browser(&mut items, &mut counter, "Chrome", survey, &programs);
    assert_eq!(
        names(&items),
        [
            "Chrome 缓存",
            "Chrome 历史记录 (Default)",
            "Chrome 下载历史 (Default)",
            "Chrome Cookie (Default)",
            "Chrome Session 数据 (Default)"
        ]
    );
    let sizes: Vec<u64> = items.iter().map(|i| i.public.size_bytes).collect();
    assert_eq!(sizes, [9, 100, 100, 30, 7]);
    for i in &items {
        assert_eq!(i.public.process_names, ["chrome.exe"]);
        assert_eq!(i.public.category, "Chrome");
    }
    match &items[3].action {
        CleanAction::BrowserSql { db_path, kind } => {
            assert_eq!(db_path, "C:\\p\\Cookies");
            assert_eq!(*kind, BrowserDbKind::ChromiumCookies);
        }
        other => panic!("{:?}", other),
    }
    assert_eq!(items[4].public.risk, RiskLevel::High);
    assert!(!items[4].public.selected_by_default);
}

#[test]
fn an_absent_browser_offers_nothing() {
    let mut items = Vec::new();
    let mut counter = 0;
    let survey = BrowserSurvey {
        present: false,
        cache_dirs: vec![dir("C:\\p\\Cache", &[])],
        profiles: vec![profile_survey("Default")],
    };
    browser::add_chromium_browser(&mut items, &mut counter, "Chrome", survey, &Vec::new());
    assert!(items.is_empty());
}

#[test]
fn firefox_is_offered_profile_by_profile() {
    let survey = firefox_survey(4);
    assert!(firefox::session_sizes_fit(&survey));
    let mut items = Vec::new();
    let mut counter = 0;
    firefox::add_firefox_browser(&mut items, &mut counter, survey);
    assert_eq!(
        names(&items),
        [
            "Firefox 缓存 (abc.default)",
            "Firefox 历史记录 (abc.default)",
            "Firefox 下载历史 (abc.default)",
            "Firefox Cookie (abc.default)",
            "Firefox Session 数据 (abc.default)"
        ]
    );
    let sizes: Vec<u64> = items.iter().map(|i| i.public.size_bytes).collect();
    assert_eq!(sizes, [5, 50, 50, 20, 7]);
    match &items[4].action {
        CleanAction::DeletePaths(paths) => {
            assert_eq!(paths, &["P\\sessionstore.jsonlz4", "P\\sessionstore-backups"])
        }
        other => panic!("{:?}", other),
    }
    let shown: Vec<&str> =
        items[4].public.children.iter().map(|c| c.path.as_str()).collect();
    assert_eq!(shown, ["P\\sessionstore-backups\\r", "P\\sessionstore.jsonlz4"]);
}

#[test]
fn session_sizes_can_be_too_large() {
    assert!(!firefox::session_sizes_fit(&firefox_survey(u64::MAX)));
}

#[test]
fn firefox_profiles_stand_below_the_roaming_data() {
    assert_eq!(firefox::firefox_profiles_dir(&None), None);
    assert_eq!(firefox::firefox_profiles_dir(&some("A")), some("A\\Mozilla\\Firefox\\Profiles"));
    let profile = ProfileDir {
        path: "A\\Mozilla\\Firefox\\Profiles\\x".to_string(),
        name: name("x"),
    };
    let plan = firefox::firefox_profile_plan(&some("L"), &profile);
    assert_eq!(
        plan.cache_dirs,
        [
            "L\\Mozilla\\Firefox\\Profiles\\x\\cache2",
            "L\\Mozilla\\Firefox\\Profiles\\x\\startupCache",
            "L\\Mozilla\\Firefox\\Profiles\\x\\thumbnails"
        ]
    );
    assert_eq!(plan.places, "A\\Mozilla\\Firefox\\Profiles\\x\\places.sqlite");
    assert_eq!(plan.cookies, "A\\Mozilla\\Firefox\\Profiles\\x\\cookies.sqlite");
    assert_eq!(
        plan.session_dirs,
        ["A\\Mozilla\\Firefox\\Profiles\\x\\sessionstore-backups"]
    );
    assert_eq!(plan.session_files.len(), 3);
}

#[test]
fn application_rules_follow_the_environment() {
    let rules = application::application_rules(&some("A"), &some("L"));
    let shown: Vec<&str> = rules.iter().map(|r| r.name.as_str()).collect();
    assert_eq!(
        shown,
        [
            "Visual Studio Code 缓存",
            "Slack 缓存",
            "Discord 缓存",
            "Microsoft Teams 缓存",
            "VLC 媒体缓存",
            "npm 缓存"
        ]
    );
    assert_eq!(rules[0].paths.len(), 5);
    assert_eq!(rules[0].paths[2], "A\\Code\\Code Cache");
    assert_eq!(rules[3].process_names, ["Teams.exe", "ms-teams.exe"]);
    assert_eq!(rules[4].risk, RiskLevel::Medium);
    assert_eq!(rules[5].paths, ["L\\npm-cache"]);
    assert!(rules[5].process_names.is_empty());
    assert_eq!(application::application_rules(&None, &None)[5].paths, ["npm-cache"]);
}

#[test]
fn applications_are_offered_where_their_directories_exist() {
    let mut items = Vec::new();
    let mut counter = 0;
    let surveys = vec![
        vec![missing("A\\Code\\Cache"), dir("A\\Code\\logs", &[("A\\Code\\logs\\l", 6)])],
        vec![],
        vec![],
        vec![],
        vec![dir("A\\vlc\\art", &[])],
        vec![],
    ];
    let temp = dir("C:\\T", &[("C:\\T\\Rar$1", 2), ("C:\\T\\other", 4)]);
    application::scan_application_items(
        &mut items,
        &mut counter,
        &some("A"),
        &some("L"),
        surveys,
        Some(temp),
    );
    assert_eq!(names(&items), ["Visual Studio Code 缓存", "VLC 媒体缓存", "解压缩临时文件"]);
    assert_eq!(items[0].public.size_bytes, 6);
    assert_eq!(items[0].public.category, "第三方应用");
    assert_eq!(items[0].public.process_names, ["Code.exe"]);
    assert_eq!(items[2].public.path, "C:\\T\\Rar$1");
    assert_eq!(items[2].public.size_bytes, 2);
}

#[test]
fn ids_pick_items_of_the_scan_in_order() {
    let mut items = Vec::new();
    let mut counter = 0;
    system::scan_system_items(&mut items, &mut counter, full_system());
    let ids = vec!["item-7".to_string(), "item-3".to_string(), "item-99".to_string()];
    let picked = item::selected_scanned_items(&items, &ids);
    assert_eq!(names(&picked), ["剪贴板内容", "系统预读文件"]);
    assert!(item::selected_scanned_items(&items, &Vec::new()).is_empty());
}

fn whole() -> ScanSurvey {
    ScanSurvey {
        system: Some(full_system()),
        browsers: Some(BrowserInput {
            local_app_data: None,
            chromium: Vec::new(),
            firefox: firefox_survey(4),
        }),
        applications: Some(ApplicationInput {
            app_data: some("A"),
            local_app_data: some("L"),
            rules: vec![vec![], vec![], vec![], vec![], vec![dir("A\\vlc\\art", &[])], vec![]],
            temp: None,
        }),
        registry: Some(empty_registry()),
    }
}

#[test]
fn a_scan_numbers_its_parts_in_order() {
    let survey = whole();
    assert!(scan::check_survey(&survey));
    let items = scan::scan_all(survey);
    assert_eq!(items.len(), 14);
    for (i, it) in items.iter().enumerate() {
        assert_eq!(it.public.id, format!("item-{}", i + 1));
        if it.public.risk == RiskLevel::High {
            assert!(!it.public.selected_by_default);
        }
        if it.public.risk == RiskLevel::Safe && it.public.name != "剪贴板内容" {
            assert!(it.public.selected_by_default);
        }
        let picked = item::selected_scanned_items(&items, &vec![it.public.id.clone()]);
        assert_eq!(names(&picked), [it.public.name.as_str()]);
    }
    assert_eq!(items[0].public.module, ModuleKind::System);
    assert_eq!(items[7].public.module, ModuleKind::Browser);
    assert_eq!(items[12].public.module, ModuleKind::Application);
    assert_eq!(items[13].public.module, ModuleKind::Registry);
}

#[test]
fn a_scan_shows_items_and_their_total() {
    let items = scan::scan_all(whole());
    let shown = scan::scan_response(&items, true).unwrap();
    assert!(shown.is_admin);
    assert_eq!(shown.items.len(), 14);
    assert_eq!(shown.total_size_bytes, 95 + 132);
    assert!(shown.warnings.is_empty());
    assert_eq!(shown.items[6].name, "系统预读文件");
}

#[test]
fn parts_can_be_left_out() {
    let survey = ScanSurvey { system: None, browsers: None, applications: None, registry: None };
    assert!(scan::check_survey(&survey));
    let items = scan::scan_all(survey);
    assert!(items.is_empty());
    assert_eq!(scan::scan_response(&items, false).unwrap().total_size_bytes, 0);
}

#[test]
fn a_total_that_does_not_fit_is_no_answer() {
    let mut items = Vec::new();
    let mut counter = 0;
    system::scan_system_items(&mut items, &mut counter, full_system());
    items[0].public.size_bytes = u64::MAX;
    assert!(scan::scan_response(&items, false).is_none());
}

#[test]
fn an_incomplete_survey_is_noticed() {
    let mut survey = whole();
    survey.browsers = Some(BrowserInput {
        local_app_data: some("L"),
        chromium: Vec::new(),
        firefox: no_browsers(),
    });
    assert!(!scan::check_survey(&survey));
    let mut survey = whole();
    if let Some(r) = survey.registry.as_mut() {
        r.fonts.pop();
    }
    assert!(!scan::check_survey(&survey));
    let mut survey = whole();
    if let Some(a) = survey.applications.as_mut() {
        a.rules.pop();
    }
    assert!(!scan::check_survey(&survey));
}

#[test]
fn a_system_scan_keeps_to_its_plan() {
    let plan = system::system_plan(&SystemEnv {
        system_root: some("C:\\Windows"),
        temp: some("C:\\T"),
        tmp: some("c:\\t"),
        local_app_data: some("C:\\L"),
    });
    let mut planned: Vec<String> = plan.temp_dirs.iter().flatten().cloned().collect();
    planned.extend(plan.recycle_bins.iter().cloned());
    planned.extend(plan.dumps.iter().cloned());
    planned.push(plan.logs.clone());
    planned.push(plan.prefetch.clone());
    let below = |p: &str| format!("{}\\x.log", p);
    let look = |p: &String| dir(p, &[(below(p).as_str(), 1)]);
    let survey = SystemSurvey {
        temp_dirs: plan.temp_dirs.iter().map(|p| p.as_ref().map(look)).collect(),
        recycle_bins: plan.recycle_bins.iter().map(look).collect(),
        dumps: plan.dumps.iter().map(look).collect(),
        logs: look(&plan.logs),
        prefetch: look(&plan.prefetch),
    };
    let mut items = Vec::new();
    let mut counter = 0;
    system::scan_system_items(&mut items, &mut counter, survey);
    let mut touched = 0;
    for i in &items {
        let paths = match &i.action {
            CleanAction::DeleteDirectoryContents(v)
            | CleanAction::DeletePaths(v)
            | CleanAction::ClearRecycleBin(v) => v.clone(),
            _ => Vec::new(),
        };
        for p in paths {
            assert!(planned.iter().any(|q| *q == p || below(q) == p), "{}", p);
            touched += 1;
        }
    }
    assert_eq!(touched, 2 + 26 + 3 + 1 + 1);
}
