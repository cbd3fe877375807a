use std::collections::BTreeMap;

use scylladb_migrate::engine::{Action, Direction, Event, Failure, Pass, Phase, Report, RevertMode, Status};

struct World {
    ledger: BTreeMap<String, (Status, i64)>,
    up: BTreeMap<String, String>,
    down: BTreeMap<String, String>,
    failing: Vec<String>,
    executed: Vec<String>,
    loads: Vec<String>,
}

impl World {
    fn new(ids: &[&str]) -> World {
        let mut up = BTreeMap::new();
        let mut down = BTreeMap::new();
        for id in ids {
            up.insert(id.to_string(), format!("CREATE TABLE {id} (x int);"));
            down.insert(id.to_string(), format!("DROP TABLE {id};"));
        }
        World { ledger: BTreeMap::new(), up, down, failing: vec![], executed: vec![], loads: vec![] }
    }

    fn applied(&self) -> Vec<String> {
        self.ledger.iter().filter(|(_, v)| v.0 == Status::Success).map(|(k, _)| k.clone()).collect()
    }

    fn run(&mut self, mut pass: Pass, mut action: Action) -> Report {
        loop {
            let event = match action {
                Action::Finish(r) => {
                    assert_eq!(pass.phase(), Phase::Done);
                    return r;
                }
                Action::Load(id, d) => {
                    self.loads.push(id.clone());
                    let scripts = if d == Direction::Up { &self.up } else { &self.down };
                    match scripts.get(&id) {
                        Some(t) => Event::Loaded(t.clone()),
                        None => Event::Unreadable,
                    }
                }
                Action::Execute(s) => {
                    self.executed.push(s.clone());
                    if self.failing.contains(&s) { Event::Failed } else { Event::Succeeded }
                }
                Action::Record(id, st, at) => {
                    self.ledger.insert(id, (st, at));
                    Event::Succeeded
                }
                Action::Remove(id) => {
                    self.ledger.remove(&id);
                    Event::Succeeded
                }
            };
            assert!(pass.accepts(&event));
            action = pass.step(event);
        }
    }
}

fn names(v: &[&str]) -> Vec<String> {
    v.iter().map(|s| s.to_string()).collect()
}

#[test]
fn apply_records_all_with_one_timestamp() {
    let mut w = World::new(&["a", "b", "c"]);
    let (p, a) = Pass::start_apply(&names(&["a", "b", "c"]), &vec![], 42);
    assert_eq!(w.run(p, a), Report::Applied(3));
    assert_eq!(w.applied(), names(&["a", "b", "c"]));
    assert!(w.ledger.values().all(|v| v.1 == 42));
    assert_eq!(w.loads, names(&["a", "b", "c"]));
}

#[test]
fn apply_skips_applied_and_keeps_order() {
    let mut w = World::new(&["a", "b", "c", "d"]);
    w.ledger.insert("b".to_string(), (Status::Success, 1));
    w.ledger.insert("c".to_string(), (Status::Failed, 1));
    let (p, a) = Pass::start_apply(&names(&["a", "b", "c", "d"]), &names(&["b"]), 7);
    assert_eq!(w.run(p, a), Report::Applied(3));
    assert_eq!(w.loads, names(&["a", "c", "d"]));
    assert_eq!(w.applied(), names(&["a", "b", "c", "d"]));
    assert_eq!(w.ledger["b"], (Status::Success, 1));
}

#[test]
fn apply_with_everything_applied_is_a_no_op() {
    let mut w = World::new(&["a", "b"]);
    let (p, a) = Pass::start_apply(&names(&["a", "b"]), &names(&["b", "a"]), 7);
    assert!(matches!(a, Action::Finish(Report::UpToDate)));
    assert_eq!(w.run(p, Action::Finish(Report::UpToDate)), Report::UpToDate);
    assert!(w.executed.is_empty());
    assert!(w.ledger.is_empty());
}

#[test]
fn apply_stops_after_recording_a_failure() {
    let mut w = World::new(&["a", "b", "c"]);
    w.failing.push("CREATE TABLE b (x int)".to_string());
    let (p, a) = Pass::start_apply(&names(&["a", "b", "c"]), &vec![], 5);
    assert_eq!(w.run(p, a), Report::Error(Failure::Statement));
    assert_eq!(w.ledger["a"], (Status::Success, 5));
    assert_eq!(w.ledger["b"], (Status::Failed, 5));
    assert!(!w.ledger.contains_key("c"));
    assert_eq!(w.loads, names(&["a", "b"]));
    assert_eq!(w.applied(), names(&["a"]));
}

#[test]
fn apply_unreadable_script_is_not_recorded() {
    let mut w = World::new(&["a", "c"]);
    let (p, a) = Pass::start_apply(&names(&["a", "b", "c"]), &vec![], 5);
    assert_eq!(w.run(p, a), Report::Error(Failure::Io));
    assert_eq!(w.applied(), names(&["a"]));
    assert!(!w.ledger.contains_key("b"));
}

#[test]
fn apply_runs_statements_in_order_and_stops_at_the_first_error() {
    let mut w = World::new(&["a"]);
    w.up.insert("a".to_string(), "S1;\nS2;S3;S4".to_string());
    w.failing.push("S3".to_string());
    let (p, a) = Pass::start_apply(&names(&["a"]), &vec![], 5);
    assert_eq!(w.run(p, a), Report::Error(Failure::Statement));
    assert_eq!(w.executed, names(&["S1", " S2", "S3"]));
    assert_eq!(w.ledger["a"], (Status::Failed, 5));
}

#[test]
fn ledger_write_failure_ends_the_pass() {
    let (mut p, a) = Pass::start_apply(&names(&["a", "b"]), &vec![], 5);
    assert!(matches!(a, Action::Load(ref id, Direction::Up) if id == "a"));
    let a = p.step(Event::Loaded(String::new()));
    assert!(matches!(a, Action::Record(ref id, Status::Success, 5) if id == "a"));
    let a = p.step(Event::Failed);
    assert!(matches!(a, Action::Finish(Report::Error(Failure::Ledger))));
    assert!(!p.accepts(&Event::Succeeded));
}

#[test]
fn empty_script_applies_as_success() {
    let mut w = World::new(&["a"]);
    w.up.insert("a".to_string(), " \n\t ".to_string());
    let (p, a) = Pass::start_apply(&names(&["a"]), &vec![], 3);
    assert_eq!(w.run(p, a), Report::Applied(1));
    assert!(w.executed.is_empty());
    assert_eq!(w.ledger["a"], (Status::Success, 3));
}

fn applied_world() -> World {
    let mut w = World::new(&["a", "b", "c"]);
    for id in ["a", "b", "c"] {
        w.ledger.insert(id.to_string(), (Status::Success, 1));
    }
    w
}

#[test]
fn revert_latest_reverts_only_the_greatest() {
    let mut w = applied_world();
    let (p, a) = Pass::start_revert(names(&["b", "c", "a"]), RevertMode::Latest);
    assert_eq!(w.run(p, a), Report::Reverted(1));
    assert_eq!(w.executed, names(&["DROP TABLE c"]));
    assert_eq!(w.applied(), names(&["a", "b"]));
}

#[test]
fn revert_all_goes_in_descending_order() {
    let mut w = applied_world();
    let (p, a) = Pass::start_revert(names(&["a", "b", "c"]), RevertMode::All);
    assert_eq!(w.run(p, a), Report::Reverted(3));
    assert_eq!(w.loads, names(&["c", "b", "a"]));
    assert!(w.applied().is_empty());
}

#[test]
fn revert_all_stops_at_a_failing_down_script() {
    let mut w = applied_world();
    w.failing.push("DROP TABLE b".to_string());
    let (p, a) = Pass::start_revert(names(&["a", "b", "c"]), RevertMode::All);
    assert_eq!(w.run(p, a), Report::Error(Failure::Statement));
    assert_eq!(w.loads, names(&["c", "b"]));
    assert!(!w.ledger.contains_key("c"));
    assert_eq!(w.ledger["b"], (Status::Success, 1));
    assert_eq!(w.applied(), names(&["a", "b"]));
}

#[test]
fn revert_latest_with_nothing_applied_is_reported_distinctly() {
    let (p, a) = Pass::start_revert(vec![], RevertMode::Latest);
    assert!(matches!(a, Action::Finish(Report::NothingToRevert)));
    assert_eq!(p.phase(), Phase::Done);
    let (_, a) = Pass::start_revert(vec![], RevertMode::All);
    assert!(matches!(a, Action::Finish(Report::NothingToRevert)));
}
