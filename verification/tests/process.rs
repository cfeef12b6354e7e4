use dcleaner::clean;
use dcleaner::command::{CommandOutput, Run};
use dcleaner::item;
use dcleaner::item::{CleanAction, ModuleKind, RiskLevel, ScannedItem};
use dcleaner::process;
use dcleaner::process::{ConflictDecision, Decision};

fn strings(v: &[&str]) -> Vec<String> {
    v.iter().map(|s| s.to_string()).collect()
}

fn item_with(id: &str, name: &str, programs: &[&str]) -> ScannedItem {
    let mut public = item::make_item(
        ModuleKind::Browser,
        "c",
        name,
        "p".to_string(),
        "d",
        1,
        RiskLevel::Safe,
        true,
        strings(programs),
        Vec::new(),
    );
    public.id = id.to_string();
    ScannedItem { public, action: CleanAction::FlushDns }
}

fn listing(text: &str) -> Option<Run> {
    Some(Ok(CommandOutput {
        success: true,
        stdout: text.as_bytes().to_vec(),
        stderr: Vec::new(),
    }))
}

fn decision(id: &str, choice: ConflictDecision) -> Decision {
    Decision { item_id: id.to_string(), choice }
}

const LIST: &str = "\"chrome.exe\",\"12\",\"Console\",\"1\",\"9 K\"\r\n\"Code.exe\",\"3\"\r\n\"chrome.exe\",\"13\"\r\n\"CHROME.EXE\",\"14\"\r\n";

#[test]
fn names_are_read_from_lines_of_the_list() {
    let cases: [(&str, Option<&str>); 8] = [
        ("\"chrome.exe\",\"1\"", Some("chrome.exe")),
        ("  \"a b.exe\",\"1\"  ", Some("a b.exe")),
        ("plain.exe,1,2", Some("plain.exe")),
        ("no comma", Some("no comma")),
        ("", Some("")),
        (",x", Some("")),
        ("\"open", None),
        ("\"\",1", Some("")),
    ];
    for (line, expected) in cases {
        assert_eq!(process::parse_tasklist_name(line).as_deref(), expected, "{:?}", line);
    }
}

#[test]
fn running_programs_are_sorted_and_listed_once() {
    let names = strings(&["Chrome.exe", "code.EXE", "slack.exe"]);
    assert_eq!(
        process::running_in_listing(&names, LIST),
        ["CHROME.EXE", "Code.exe", "chrome.exe"]
    );
    assert!(process::running_in_listing(&strings(&["vlc.exe"]), LIST).is_empty());
    assert!(process::running_in_listing(&strings(&[]), LIST).is_empty());
}

#[test]
fn a_list_that_was_not_made_shows_nothing() {
    let names = strings(&["chrome.exe"]);
    assert_eq!(
        process::running_processes(&names, &listing(LIST)),
        ["CHROME.EXE", "chrome.exe"]
    );
    let failed = Some(Ok(CommandOutput {
        success: false,
        stdout: LIST.as_bytes().to_vec(),
        stderr: Vec::new(),
    }));
    assert!(process::running_processes(&names, &failed).is_empty());
    assert!(process::running_processes(&names, &Some(Err("x".to_string()))).is_empty());
    assert!(process::running_processes(&names, &None).is_empty());
}

#[test]
fn bytes_that_are_no_text_do_not_hide_the_rest() {
    let mut bytes = b"\"bad\xff.exe\",\"1\"\r\n".to_vec();
    bytes.extend_from_slice(LIST.as_bytes());
    let run = Some(Ok(CommandOutput { success: true, stdout: bytes, stderr: Vec::new() }));
    assert_eq!(
        process::running_processes(&strings(&["code.exe", "bad\u{fffd}.exe"]), &run),
        ["Code.exe", "bad\u{fffd}.exe"]
    );
}

#[test]
fn an_item_is_in_conflict_where_its_program_runs() {
    let items = vec![
        item_with("item-1", "Chrome 缓存", &["chrome.exe"]),
        item_with("item-2", "DNS", &[]),
        item_with("item-3", "Slack 缓存", &["slack.exe"]),
        item_with("item-4", "Code", &["Code.exe", "chrome.exe"]),
    ];
    assert!(process::needs_process_list(&items[0]));
    assert!(!process::needs_process_list(&items[1]));
    let runs = vec![listing(LIST), None, listing(LIST), listing("\"Code.exe\",\"3\"\n")];
    let found = process::conflicts_for_items(&items, &runs);
    assert_eq!(found.len(), 2);
    assert_eq!(found[0].item_id, "item-1");
    assert_eq!(found[0].app_name, "Chrome 缓存");
    assert_eq!(found[0].process_names, ["chrome.exe"]);
    assert_eq!(found[0].running_processes, ["CHROME.EXE", "chrome.exe"]);
    assert_eq!(
        found[0].message,
        "检测到 CHROME.EXE, chrome.exe 正在运行，清理需要关闭该程序。是否立即结束该进程？"
    );
    assert_eq!(found[1].item_id, "item-4");
    assert_eq!(found[1].running_processes, ["Code.exe"]);
}

#[test]
fn decided_conflicts_name_the_programs_to_end() {
    let items = vec![
        item_with("item-1", "A", &["chrome.exe"]),
        item_with("item-2", "B", &["Code.exe", "x.exe"]),
    ];
    let runs = vec![listing(LIST), listing(LIST)];
    let found = process::conflicts_for_items(&items, &runs);
    let plan = process::resolve_conflicts(
        &found,
        &vec![
            decision("item-2", ConflictDecision::Kill),
            decision("item-1", ConflictDecision::Skip),
        ],
    );
    assert_eq!(plan.kills, ["Code.exe", "x.exe"]);
    assert_eq!(plan.error, None);
}

#[test]
fn an_undecided_conflict_stops_everything() {
    let items = vec![
        item_with("item-1", "A", &["chrome.exe"]),
        item_with("item-2", "B", &["Code.exe"]),
    ];
    let runs = vec![listing(LIST), listing(LIST)];
    let plan =
        clean::prepare_clean(&items, &runs, &vec![decision("item-1", ConflictDecision::Kill)]);
    assert_eq!(plan.kills, ["chrome.exe"]);
    assert_eq!(plan.error.as_deref(), Some("PROCESS_CONFLICT"));
    let first =
        clean::prepare_clean(&items, &runs, &vec![decision("item-2", ConflictDecision::Kill)]);
    assert!(first.kills.is_empty());
    assert_eq!(first.error.as_deref(), Some("PROCESS_CONFLICT"));
}

#[test]
fn nothing_selected_is_an_error() {
    let plan = clean::prepare_clean(&Vec::new(), &Vec::new(), &Vec::new());
    assert!(plan.kills.is_empty());
    assert_eq!(plan.error.as_deref(), Some("没有可执行的清理项目"));
}

#[test]
fn without_running_programs_nothing_needs_deciding() {
    let items = vec![item_with("item-1", "A", &["chrome.exe"]), item_with("item-2", "B", &[])];
    let plan = clean::prepare_clean(&items, &vec![listing(""), None], &Vec::new());
    assert!(plan.kills.is_empty());
    assert_eq!(plan.error, None);
}

#[test]
fn the_first_decision_for_an_item_counts() {
    let all = vec![
        decision("a", ConflictDecision::Skip),
        decision("b", ConflictDecision::Kill),
        decision("a", ConflictDecision::Kill),
    ];
    assert_eq!(process::find_decision(&all, "a"), Some(ConflictDecision::Skip));
    assert_eq!(process::find_decision(&all, "b"), Some(ConflictDecision::Kill));
    assert_eq!(process::find_decision(&all, "c"), None);
}
