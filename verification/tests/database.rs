use dcleaner::database;
use dcleaner::database::{DatabaseRun, Statement};
use dcleaner::item::BrowserDbKind;
use rusqlite::Connection;

fn strings(v: &[&str]) -> Vec<String> {
    v.iter().map(|s| s.to_string()).collect()
}

fn run_statement(conn: &Connection, s: &Statement) -> Result<(), String> {
    conn.execute(&s.sql, rusqlite::params_from_iter(s.params.iter()))
        .map(|_| ())
        .map_err(|e| e.to_string())
}

fn hosts_after(whitelist: &[&str], hosts: &[&str]) -> Vec<String> {
    let conn = Connection::open_in_memory().unwrap();
    conn.execute("CREATE TABLE cookies (host_key TEXT)", []).unwrap();
    for h in hosts {
        conn.execute("INSERT INTO cookies VALUES (?)", [h]).unwrap();
    }
    let mut run = DatabaseRun::new(BrowserDbKind::ChromiumCookies, &strings(whitelist));
    while let Some(s) = run.next_statement() {
        let ran = run_statement(&conn, s);
        run.record(ran);
    }
    assert_eq!(run.outcome(7), Ok(7));
    let mut stmt = conn.prepare("SELECT host_key FROM cookies ORDER BY rowid").unwrap();
    let rows = stmt.query_map([], |row| row.get::<usize, String>(0)).unwrap();
    rows.map(|r| r.unwrap()).collect()
}

fn sql(kind: BrowserDbKind) -> Vec<String> {
    let all = database::database_statements(kind, &Vec::new());
    for s in &all {
        assert!(s.optional);
        assert!(s.params.is_empty());
    }
    all.into_iter().map(|s| s.sql).collect()
}

#[test]
fn each_kind_has_its_statements() {
    assert_eq!(sql(BrowserDbKind::ChromiumCookies), ["DELETE FROM cookies"]);
    assert_eq!(sql(BrowserDbKind::FirefoxCookies), ["DELETE FROM moz_cookies"]);
    assert_eq!(
        sql(BrowserDbKind::ChromiumHistory),
        [
            "DELETE FROM keyword_search_terms",
            "DELETE FROM visit_source",
            "DELETE FROM visits",
            "DELETE FROM urls"
        ]
    );
    assert_eq!(
        sql(BrowserDbKind::ChromiumDownloads),
        [
            "DELETE FROM downloads_url_chains",
            "DELETE FROM downloads_slices",
            "DELETE FROM downloads"
        ]
    );
    assert_eq!(
        sql(BrowserDbKind::FirefoxHistory),
        [
            "DELETE FROM moz_historyvisits",
            "UPDATE moz_places SET visit_count = 0, last_visit_date = NULL"
        ]
    );
    assert_eq!(
        sql(BrowserDbKind::FirefoxDownloads),
        ["DELETE FROM moz_annos WHERE anno_attribute_id IN (SELECT id FROM moz_anno_attributes WHERE name LIKE '%downloads%')"]
    );
}

#[test]
fn a_whitelist_becomes_conditions_and_parameters() {
    let s = database::cookie_delete_statement(
        "cookies",
        "host_key",
        &strings(&["Example.COM", ".b.org"]),
    );
    assert_eq!(
        s.sql,
        "DELETE FROM cookies WHERE NOT (LOWER(host_key) = ? OR LOWER(host_key) LIKE ? OR LOWER(host_key) = ? OR LOWER(host_key) LIKE ?)"
    );
    assert_eq!(s.params, ["example.com", "%.example.com", "b.org", "%.b.org"]);
    assert!(!s.optional);
}

#[test]
fn without_a_whitelist_every_cookie_goes() {
    assert!(hosts_after(&[], &["a.com", ".b.com", ""]).is_empty());
}

#[test]
fn the_whitelist_keeps_a_domain_and_everything_below_it() {
    let hosts = [
        "example.com",
        ".example.com",
        "www.example.com",
        "A.B.EXAMPLE.com",
        "notexample.com",
        "example.com.evil.org",
        "example.org",
        ".b.org",
        "x.b.org",
        "b.org",
    ];
    assert_eq!(
        hosts_after(&["Example.COM", ".b.org"], &hosts),
        [
            "example.com",
            ".example.com",
            "www.example.com",
            "A.B.EXAMPLE.com",
            ".b.org",
            "x.b.org",
            "b.org"
        ]
    );
}

#[test]
fn leading_dots_of_an_entry_make_no_difference() {
    let hosts = ["example.com", "www.example.com", ".example.com", "other.org", "xexample.com"];
    for entry in ["example.com", ".example.com", "..EXAMPLE.com"] {
        assert_eq!(
            hosts_after(&[entry], &hosts),
            ["example.com", "www.example.com", ".example.com"]
        );
    }
}

#[test]
fn an_entry_of_dots_only_names_itself() {
    let s = database::cookie_delete_statement("cookies", "host_key", &strings(&[".", ""]));
    assert_eq!(s.params, [".", "%.", "", "%."]);
    assert_eq!(hosts_after(&["."], &["", ".", "a.", "a.com"]), [".", "a."]);
    assert_eq!(hosts_after(&[".."], &["", "..", "a.com"]), [".."]);
}

#[test]
fn marks_of_a_pattern_in_a_domain_keep_more_and_never_less() {
    let kept = hosts_after(&["my_site.com"], &["my_site.com", "a.my_site.com", "a.myxsite.com"]);
    assert_eq!(kept, ["my_site.com", "a.my_site.com", "a.myxsite.com"]);
}

#[test]
fn a_missing_table_is_no_failure_of_an_optional_statement() {
    let conn = Connection::open_in_memory().unwrap();
    conn.execute("CREATE TABLE urls (id INTEGER)", []).unwrap();
    conn.execute("INSERT INTO urls VALUES (1)", []).unwrap();
    let mut run = DatabaseRun::new(BrowserDbKind::ChromiumHistory, &Vec::new());
    let mut count = 0;
    while let Some(s) = run.next_statement() {
        let ran = run_statement(&conn, s);
        run.record(ran);
        count += 1;
    }
    assert_eq!(count, 4);
    assert!(run.succeeded());
    assert_eq!(run.outcome(42), Ok(42));
    let left: i64 = conn.query_row("SELECT COUNT(*) FROM urls", [], |r| r.get(0)).unwrap();
    assert_eq!(left, 0);
}

#[test]
fn a_missing_column_is_no_failure_of_an_optional_statement() {
    let conn = Connection::open_in_memory().unwrap();
    conn.execute("CREATE TABLE moz_places (id INTEGER)", []).unwrap();
    let mut run = DatabaseRun::new(BrowserDbKind::FirefoxHistory, &Vec::new());
    while let Some(s) = run.next_statement() {
        let ran = run_statement(&conn, s);
        assert!(ran.is_err());
        run.record(ran);
    }
    assert_eq!(run.outcome(1), Ok(1));
}

#[test]
fn another_failure_ends_the_run() {
    let mut run = DatabaseRun::new(BrowserDbKind::ChromiumHistory, &Vec::new());
    assert!(!run.succeeded());
    run.record(Ok(()));
    assert!(!run.succeeded());
    assert_eq!(run.next_statement().unwrap().sql, "DELETE FROM visit_source");
    run.record(Err("database is locked".to_string()));
    assert!(run.next_statement().is_none());
    assert!(!run.succeeded());
    assert_eq!(run.outcome(5), Err("database is locked".to_string()));
}

#[test]
fn with_a_whitelist_a_missing_table_is_a_failure() {
    let conn = Connection::open_in_memory().unwrap();
    let mut run = DatabaseRun::new(BrowserDbKind::FirefoxCookies, &strings(&["a.com"]));
    let ran = run_statement(&conn, run.next_statement().unwrap());
    run.record(ran);
    assert!(run.outcome(5).unwrap_err().contains("no such table"));
}

#[test]
fn optional_statements_are_judged_by_their_message() {
    assert_eq!(database::judge_optional(Ok(())), Ok(()));
    assert_eq!(database::judge_optional(Err("no such table: x".to_string())), Ok(()));
    assert_eq!(database::judge_optional(Err("no such column: y".to_string())), Ok(()));
    assert_eq!(
        database::judge_optional(Err("disk full".to_string())),
        Err("disk full".to_string())
    );
}

#[test]
fn three_files_stand_beside_a_database() {
    assert_eq!(
        database::sqlite_sidecars("C:\\p\\History"),
        ["C:\\p\\History-wal", "C:\\p\\History-shm", "C:\\p\\History-journal"]
    );
    assert_eq!(
        database::closing_statements(),
        "PRAGMA wal_checkpoint(TRUNCATE); VACUUM;"
    );
}
