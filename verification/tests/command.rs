use dcleaner::command;
use dcleaner::command::{CommandLine, CommandOutput, Run};

fn output(success: bool, stdout: &[u8], stderr: &[u8]) -> CommandOutput {
    CommandOutput { success, stdout: stdout.to_vec(), stderr: stderr.to_vec() }
}

fn check(line: CommandLine, program: &str, args: &[&str]) {
    assert_eq!(line.program, program);
    assert_eq!(line.args, args);
}

#[test]
fn failures_show_what_the_command_said() {
    assert_eq!(
        command::command_error("reg", &output(false, b"out", b"  bad key \r\n")),
        "reg 执行失败: bad key"
    );
    assert_eq!(
        command::command_error("reg", &output(false, b" out\n", b" \r\n")),
        "reg 执行失败: out"
    );
    assert_eq!(command::command_error("reg", &output(false, b"", b"")), "reg 执行失败");
    assert_eq!(
        command::command_error("x", &output(false, b"", &[0x61, 0xff, 0x62])),
        "x 执行失败: a\u{fffd}b"
    );
    assert_eq!(command::failure_message("x", " e ", "o"), "x 执行失败: e");
}

#[test]
fn runs_are_judged_by_their_success() {
    let good: Run = Ok(output(true, b"", b"warning"));
    assert_eq!(command::run_simple_command("cmd", &good), Ok(()));
    let bad: Run = Ok(output(false, b"", b"no"));
    assert_eq!(
        command::run_simple_command("cmd", &bad),
        Err("cmd 执行失败: no".to_string())
    );
    let none: Run = Err("not found".to_string());
    assert_eq!(command::run_simple_command("cmd", &none), Err("not found".to_string()));
}

#[test]
fn command_lines_are_as_the_system_expects() {
    check(command::flush_dns_command(), "ipconfig", &["/flushdns"]);
    check(command::clear_clipboard_command(), "cmd", &["/C", "type nul | clip"]);
    check(
        command::clear_recycle_bin_command(),
        "powershell",
        &[
            "-NoProfile",
            "-ExecutionPolicy",
            "Bypass",
            "-Command",
            "Clear-RecycleBin -Force -ErrorAction SilentlyContinue",
        ],
    );
    check(
        command::registry_export_command("HKLM\\A", "C:\\b.reg"),
        "reg",
        &["export", "HKLM\\A", "C:\\b.reg", "/y"],
    );
    check(command::registry_import_command("C:\\b.reg"), "reg", &["import", "C:\\b.reg"]);
    check(command::process_list_command(), "tasklist", &["/FO", "CSV", "/NH"]);
    check(
        command::kill_process_command("a.exe"),
        "taskkill",
        &["/F", "/T", "/IM", "a.exe"],
    );
}

#[test]
fn deleting_from_the_registry_has_four_forms() {
    let some = Some("Name".to_string());
    let unnamed = Some(String::new());
    check(
        command::registry_delete_command("HKCU\\K", &None, true),
        "reg",
        &["delete", "HKCU\\K", "/f"],
    );
    check(
        command::registry_delete_command("HKCU\\K", &some, true),
        "reg",
        &["delete", "HKCU\\K", "/f"],
    );
    check(
        command::registry_delete_command("HKCU\\K", &some, false),
        "reg",
        &["delete", "HKCU\\K", "/v", "Name", "/f"],
    );
    check(
        command::registry_delete_command("HKCU\\K", &unnamed, false),
        "reg",
        &["delete", "HKCU\\K", "/ve", "/f"],
    );
    check(
        command::registry_delete_command("HKCU\\K", &None, false),
        "reg",
        &["delete", "HKCU\\K"],
    );
}

#[test]
fn quotes_in_a_path_are_doubled() {
    assert_eq!(command::double_quotes("C:\\it's 'x'"), "C:\\it''s ''x''");
    assert_eq!(command::double_quotes("plain"), "plain");
    check(
        command::relaunch_command("C:\\d'c.exe"),
        "powershell",
        &[
            "-NoProfile",
            "-ExecutionPolicy",
            "Bypass",
            "-Command",
            "Start-Process -FilePath 'C:\\d''c.exe' -Verb RunAs",
        ],
    );
}

#[test]
fn a_refused_relaunch_is_reported() {
    assert_eq!(command::relaunch_outcome(&Ok(output(true, b"", b""))), Ok(()));
    assert_eq!(
        command::relaunch_outcome(&Ok(output(false, b"", b"cancelled"))),
        Err("Start-Process -Verb RunAs 执行失败: cancelled".to_string())
    );
    assert_eq!(
        command::relaunch_outcome(&Err("gone".to_string())),
        Err("gone".to_string())
    );
}
