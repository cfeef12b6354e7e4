use dcleaner::launch;

fn values(v: &[Option<&str>]) -> Vec<Option<String>> {
    v.iter().map(|o| o.map(|s| s.to_string())).collect()
}

#[test]
fn variables_are_listed_in_order() {
    assert_eq!(launch::env_references("%A%\\%B%"), ["A", "B"]);
    assert_eq!(launch::env_references("100%% %X"), ["X"]);
    assert!(launch::env_references("plain").is_empty());
    assert!(launch::env_references("%%").is_empty());
    assert!(launch::env_references("%").is_empty());
}

#[test]
fn variables_are_replaced_or_kept() {
    assert_eq!(
        launch::expand_env_vars("%SystemRoot%\\a.exe", &values(&[Some("C:\\Windows")])),
        "C:\\Windows\\a.exe"
    );
    assert_eq!(launch::expand_env_vars("a%NOPE%b", &values(&[None])), "a%NOPE%b");
    assert_eq!(launch::expand_env_vars("a%NOPE%b", &values(&[])), "a%NOPE%b");
    assert_eq!(
        launch::expand_env_vars("%A%%B%", &values(&[Some("1"), Some("2")])),
        "12"
    );
    assert_eq!(launch::expand_env_vars("50%%", &values(&[])), "50%");
    assert_eq!(launch::expand_env_vars("tail%", &values(&[])), "tail%");
    assert_eq!(launch::expand_env_vars("x%OPEN", &values(&[None])), "x%OPEN%");
    assert_eq!(launch::expand_env_vars("x%OPEN", &values(&[Some("y")])), "xy");
}

#[test]
fn text_without_a_percent_sign_is_kept() {
    assert_eq!(launch::expand_env_vars("C:\\a b\\c.exe", &values(&[])), "C:\\a b\\c.exe");
}

#[test]
fn programs_are_found_in_commands() {
    let cases: [(&str, Option<&str>); 17] = [
        ("\"C:\\Program Files\\a.exe\" /x", Some("C:\\Program Files\\a.exe")),
        ("C:\\Program Files\\a.EXE /x", Some("C:\\Program Files\\a.EXE")),
        ("  C:\\x\\run.bat now ", Some("C:\\x\\run.bat")),
        ("C:\\x\\y.dll,Entry", Some("C:\\x\\y.dll")),
        ("a.com.exe", Some("a.com")),
        ("tool --flag", Some("tool")),
        ("'C:\\q.exe'", Some("C:\\q.exe")),
        ("\u{0}C:\\z.cmd\u{0}", Some("C:\\z.cmd")),
        ("\"unclosed.exe", None),
        ("\"\" x", None),
        ("", None),
        ("   ", None),
        ("rundll32.exe x.dll,Y", None),
        ("RunDll32 x", None),
        ("C:\\Windows\\System32\\MsiExec.exe /X{1}", None),
        ("'' rest", None),
        ("\"\"quoted\"\"", None),
    ];
    for (command, expected) in cases {
        assert_eq!(launch::program_of_command(command).as_deref(), expected, "{:?}", command);
    }
}

#[test]
fn the_program_is_found_after_variables_are_filled_in() {
    let v = values(&[Some("C:\\Program Files")]);
    assert_eq!(
        launch::executable_path_from_command("%ProgramFiles%\\a\\b.exe -q", &v).as_deref(),
        Some("C:\\Program Files\\a\\b.exe")
    );
    assert!(launch::registry_command_path_missing("%ProgramFiles%\\a\\b.exe -q", &v, false));
    assert!(!launch::registry_command_path_missing("%ProgramFiles%\\a\\b.exe -q", &v, true));
}

#[test]
fn a_command_without_a_program_misses_nothing() {
    assert!(!launch::registry_command_path_missing("msiexec /x", &values(&[]), false));
    assert!(!launch::registry_command_path_missing("", &values(&[]), false));
}
