use release_engine::package_json::{get_version, set_version};
use release_engine::step::{Mode, RunType, State};

fn dry_run_context() -> RunType {
    RunType {
        mode: Mode::DryRun,
        state: State { packages: Vec::new(), change_entries: Vec::new() },
        captured: Vec::new(),
        writes: Vec::new(),
    }
}

#[test]
fn test_get_version() {
    let content = r###"{
        "name": "tester",
        "version": "0.1.0-rc.0"
        }"###;

    assert_eq!(get_version(content, "").unwrap(), "0.1.0-rc.0".to_string());
}

#[test]
fn test_set_version() {
    let content = r###"{
        "name": "tester",
        "version": "0.1.0-rc.0"
        }"###;

    let mut rt = dry_run_context();
    let new = set_version(&mut rt, content, "1.2.3-rc.4", "").unwrap();

    let expected = r###"{
  "name": "tester",
  "version": "1.2.3-rc.4"
}"###
        .to_string();
    assert_eq!(new, expected);
}

#[test]
fn retain_property_order() {
    let content = r###"{
        "name": "tester",
        "version": "0.1.0-rc.0",
        "dependencies": {}
        }"###;

    let mut rt = dry_run_context();
    let new = set_version(&mut rt, content, "1.2.3-rc.4", "").unwrap();

    let expected = r###"{
  "name": "tester",
  "version": "1.2.3-rc.4",
  "dependencies": {}
}"###
        .to_string();
    assert_eq!(new, expected);
}

#[test]
fn get_version_rejects_non_object() {
    let err = get_version("[1, 2, 3]", "package.json").unwrap_err();
    assert!(matches!(
        err,
        release_engine::package_json::FileError::Deserialize { .. }
    ));
}

#[test]
fn get_version_rejects_missing_version() {
    let err = get_version(r###"{"name": "tester"}"###, "package.json").unwrap_err();
    assert!(matches!(
        err,
        release_engine::package_json::FileError::Deserialize { .. }
    ));
}

#[test]
fn set_version_round_trips() {
    let content = r###"{"name": "tester", "version": "1.0.0", "license": "MIT"}"###;
    let mut rt = dry_run_context();
    let new = set_version(&mut rt, content, "2.0.0", "package.json").unwrap();
    assert_eq!(get_version(&new, "package.json").unwrap(), "2.0.0");
}

#[test]
fn set_version_dry_run_describes_write() {
    let content = r###"{"version": "1.0.0"}"###;
    let mut rt = dry_run_context();
    set_version(&mut rt, content, "1.1.0", "package.json").unwrap();
    assert_eq!(rt.captured.len(), 1);
    assert_eq!(rt.captured[0], "Would write to package.json with version 1.1.0");
    assert!(rt.writes.is_empty());
}
