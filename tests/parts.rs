use scylladb_migrate::cli::{arg, arg_or_env, dir_or_current};
use scylladb_migrate::engine::Status;
use scylladb_migrate::ledger::{applied_ids, status_tag};
use scylladb_migrate::order::{contains_id, pending, sorted_ids};
use scylladb_migrate::scaffold::{plan_unit, unit_paths, ScaffoldError, Stamp};
use scylladb_migrate::script::split_statements;

fn names(v: &[&str]) -> Vec<String> {
    v.iter().map(|s| s.to_string()).collect()
}

#[test]
fn splits_two_statements() {
    let r = split_statements("CREATE TABLE t (x int);\nINSERT INTO t VALUES (1);");
    assert_eq!(r, names(&["CREATE TABLE t (x int)", " INSERT INTO t VALUES (1)"]));
}

#[test]
fn blank_script_has_no_statements() {
    assert!(split_statements("").is_empty());
    assert!(split_statements("  \n\t\r\n").is_empty());
    assert!(split_statements(" ; \n;").is_empty());
    assert!(split_statements("\u{0C}").is_empty());
    assert!(split_statements("\u{0B}\u{85}\u{A0};\u{2003}\u{3000}\u{2028};").is_empty());
    assert_eq!(split_statements("\u{0C}x;\u{A0}"), vec!["\u{0C}x".to_string()]);
}

#[test]
fn keeps_text_after_the_last_separator() {
    assert_eq!(split_statements("a;;b"), names(&["a", "b"]));
}

#[test]
fn sorts_identifiers() {
    let r = sorted_ids(names(&["2024-02_b", "2023-12_a", "2024-01_c"]));
    assert_eq!(r, names(&["2023-12_a", "2024-01_c", "2024-02_b"]));
}

#[test]
fn pending_keeps_catalog_order_without_applied() {
    let r = pending(&names(&["a", "b", "c", "d"]), &names(&["c", "a", "x"]));
    assert_eq!(r, names(&["b", "d"]));
    assert!(pending(&names(&["a"]), &names(&["a"])).is_empty());
    assert!(contains_id(&names(&["a", "b"]), &"b".to_string()));
    assert!(!contains_id(&names(&["a", "b"]), &"c".to_string()));
}

#[test]
fn applied_ids_keep_successes_only() {
    let rows = vec![
        ("a".to_string(), "success".to_string()),
        ("b".to_string(), "failed".to_string()),
        ("c".to_string(), "success".to_string()),
    ];
    assert_eq!(applied_ids(&rows), names(&["a", "c"]));
    assert_eq!(status_tag(Status::Success), "success");
    assert_eq!(status_tag(Status::Failed), "failed");
}

#[test]
fn options_come_from_arguments_then_environment() {
    let args = names(&["prog", "up", "-p", "/m", "-u"]);
    assert_eq!(arg(&args, "-p"), Some("/m".to_string()));
    assert_eq!(arg(&args, "-u"), None);
    assert_eq!(arg_or_env(&args, "-u", "host:9042".to_string()), "host:9042");
    assert_eq!(arg_or_env(&args, "-p", "env".to_string()), "/m");
    assert_eq!(dir_or_current(String::new()), ".");
    assert_eq!(dir_or_current("/m".to_string()), "/m");
}

#[test]
fn plans_a_new_unit() {
    let now = Stamp { year: 2024, month: 1, day: 5, hour: 9, minute: 30, second: 7 };
    let args = names(&["prog", "generate", "add_users"]);
    let s = plan_unit(&args, "/m", now).unwrap();
    assert_eq!(s.dir, "/m/2024-01-05-093007_add_users");
    assert_eq!(s.up, "/m/2024-01-05-093007_add_users/up.cql");
    assert_eq!(s.down, "/m/2024-01-05-093007_add_users/down.cql");
    let early = Stamp { year: 987, month: 12, day: 31, hour: 23, minute: 59, second: 59 };
    assert_eq!(plan_unit(&args, ".", early).unwrap().dir, "./0987-12-31-235959_add_users");
    let end_of_month = Stamp { year: 2024, month: 1, day: 31, hour: 0, minute: 0, second: 0 };
    assert_eq!(plan_unit(&args, ".", end_of_month).unwrap().dir, "./2024-01-31-000000_add_users");
    let leap_day = Stamp { year: 2024, month: 2, day: 29, hour: 12, minute: 0, second: 0 };
    assert_eq!(plan_unit(&args, ".", leap_day).unwrap().dir, "./2024-02-29-120000_add_users");
}

#[test]
fn plan_errors() {
    let now = Stamp { year: 2024, month: 2, day: 30, hour: 0, minute: 0, second: 0 };
    assert_eq!(plan_unit(&names(&["prog", "generate"]), ".", now).unwrap_err(), ScaffoldError::MissingName);
    assert_eq!(plan_unit(&names(&["prog", "generate", "x"]), ".", now).unwrap_err(), ScaffoldError::BadTime);
    let not_leap = Stamp { year: 1900, month: 2, day: 29, hour: 0, minute: 0, second: 0 };
    assert_eq!(plan_unit(&names(&["prog", "generate", "x"]), ".", not_leap).unwrap_err(), ScaffoldError::BadTime);
    let late = Stamp { year: 2024, month: 4, day: 30, hour: 24, minute: 0, second: 0 };
    assert_eq!(plan_unit(&names(&["prog", "generate", "x"]), ".", late).unwrap_err(), ScaffoldError::BadTime);
    let far = Stamp { year: 10000, month: 1, day: 1, hour: 0, minute: 0, second: 0 };
    assert_eq!(plan_unit(&names(&["prog", "generate", "x"]), ".", far).unwrap_err(), ScaffoldError::BadTime);
    assert_eq!(unit_paths("r", "s", "n").dir, "r/s_n");
}
