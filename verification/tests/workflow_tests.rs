use release_engine::changelog::{Category, ChangeEntry, ChangeSource};
use release_engine::semver::{Label, Rule};
use release_engine::step::{
    current_version, ChangelogFile, Mode, Package, PrepareRelease, RunType, State, Step, StepError,
    VersionedFile,
};

fn file(path: &str, version: &str) -> VersionedFile {
    VersionedFile {
        path: path.to_string(),
        content: format!("{{\n  \"name\": \"tester\",\n  \"version\": \"{}\"\n}}", version),
    }
}

fn entry(category: Category, description: &str) -> ChangeEntry {
    ChangeEntry { category, description: description.to_string(), source: ChangeSource::Commit }
}

fn context(mode: Mode, package: Package, entries: Vec<ChangeEntry>) -> RunType {
    RunType {
        mode,
        state: State { packages: vec![package], change_entries: entries },
        captured: Vec::new(),
        writes: Vec::new(),
    }
}

#[test]
fn consistent_versions_agree() {
    let package = Package {
        versioned_files: vec![file("package.json", "1.0.0"), file("other/package.json", "1.0.0")],
        changelog: None,
    };
    assert_eq!(current_version(&package).unwrap(), "1.0.0");
}

#[test]
fn inconsistent_versions_name_both_values() {
    let package = Package {
        versioned_files: vec![file("package.json", "1.0.0"), file("other/package.json", "1.0.1")],
        changelog: None,
    };
    match current_version(&package).unwrap_err() {
        StepError::InconsistentVersions(a, b) => {
            assert_eq!(a, "1.0.0");
            assert_eq!(b, "1.0.1");
        },
        _ => panic!("expected inconsistent versions"),
    }
}

#[test]
fn empty_package_has_no_current_version() {
    let package = Package { versioned_files: Vec::new(), changelog: None };
    assert!(matches!(current_version(&package).unwrap_err(), StepError::NoCurrentVersion));
}

#[test]
fn bump_step_rewrites_every_file() {
    let package = Package {
        versioned_files: vec![file("package.json", "1.2.3"), file("other/package.json", "1.2.3")],
        changelog: None,
    };
    let rt = context(Mode::Real, package, Vec::new());
    let out = Step::BumpVersion(Rule::Minor).run(rt).unwrap();
    let pkg = &out.state.packages[0];
    assert_eq!(current_version(pkg).unwrap(), "1.3.0");
    assert_eq!(out.writes.len(), 2);
    assert_eq!(out.writes[0].path, "package.json");
    assert_eq!(out.writes[1].path, "other/package.json");
    assert!(out.captured.is_empty());
}

#[test]
fn bump_step_without_packages_suggests_config() {
    let rt = context(
        Mode::Real,
        Package { versioned_files: Vec::new(), changelog: None },
        Vec::new(),
    );
    let mut rt = rt;
    rt.state.packages.clear();
    let err = Step::BumpVersion(Rule::Minor).run(rt).unwrap_err();
    assert!(matches!(err, StepError::NoDefinedPackages { .. }));
}

#[test]
fn prepare_release_without_entries_is_no_release() {
    let package = Package { versioned_files: vec![file("package.json", "1.0.0")], changelog: None };
    let rt = context(Mode::Real, package, Vec::new());
    let step = Step::PrepareRelease(PrepareRelease { prerelease_label: None });
    assert!(matches!(step.run(rt).unwrap_err(), StepError::NoRelease));
}

#[test]
fn prerelease_accumulates_forward() {
    let package = Package {
        versioned_files: vec![file("package.json", "1.1.0-rc.1")],
        changelog: Some(ChangelogFile {
            path: "CHANGELOG.md".to_string(),
            content: "## 1.1.0-rc.1\n\n### Features\n\n- New feature in first RC\n".to_string(),
        }),
    };
    let entries = vec![entry(Category::Feature, "New feature in second RC")];
    let rt = context(Mode::Real, package, entries);
    let mut step = Step::PrepareRelease(PrepareRelease { prerelease_label: None });
    step.set_prerelease_label("rc");
    let out = step.run(rt).unwrap();
    let pkg = &out.state.packages[0];
    assert_eq!(current_version(pkg).unwrap(), "1.1.0-rc.2");
    let changelog = pkg.changelog.as_ref().unwrap();
    assert_eq!(
        changelog.content,
        "## 1.1.0-rc.2\n\n### Features\n\n- New feature in first RC\n- New feature in second RC\n"
    );
}

#[test]
fn breaking_change_opens_new_series_after_stable_release() {
    let package = Package {
        versioned_files: vec![file("package.json", "1.1.0")],
        changelog: Some(ChangelogFile {
            path: "CHANGELOG.md".to_string(),
            content: "## 1.1.0\n\n### Features\n\n- New feature in existing release\n".to_string(),
        }),
    };
    let entries = vec![entry(Category::Breaking, "Breaking feature in new RC")];
    let rt = context(Mode::Real, package, entries);
    let step = Step::PrepareRelease(PrepareRelease {
        prerelease_label: Some(Label::new("rc")),
    });
    let out = step.run(rt).unwrap();
    let pkg = &out.state.packages[0];
    assert_eq!(current_version(pkg).unwrap(), "2.0.0-rc.0");
    let changelog = pkg.changelog.as_ref().unwrap();
    assert_eq!(
        changelog.content,
        "## 2.0.0-rc.0\n\n### Breaking Changes\n\n- Breaking feature in new RC\n\n## 1.1.0\n\n### Features\n\n- New feature in existing release\n"
    );
}

#[test]
fn dry_run_leaves_files_untouched_and_describes_intent() {
    let original = file("package.json", "1.2.3");
    let original_content = original.content.clone();
    let package = Package { versioned_files: vec![original], changelog: None };
    let rt = context(Mode::DryRun, package, Vec::new());
    let out = Step::BumpVersion(Rule::Major).run(rt).unwrap();
    let pkg = &out.state.packages[0];
    assert_eq!(pkg.versioned_files[0].content, original_content);
    assert!(out.writes.is_empty());
    assert_eq!(out.captured, vec!["Would write to package.json with version 2.0.0".to_string()]);
}

#[test]
fn dry_run_prepare_release_captures_changelog_intent() {
    let package = Package {
        versioned_files: vec![file("package.json", "1.0.0")],
        changelog: Some(ChangelogFile {
            path: "CHANGELOG.md".to_string(),
            content: String::new(),
        }),
    };
    let entries = vec![entry(Category::Fix, "Mended")];
    let rt = context(Mode::DryRun, package, entries);
    let step = Step::PrepareRelease(PrepareRelease { prerelease_label: None });
    let out = step.run(rt).unwrap();
    let pkg = &out.state.packages[0];
    assert_eq!(pkg.changelog.as_ref().unwrap().content, "");
    assert!(out.writes.is_empty());
    assert_eq!(
        out.captured,
        vec![
            "Would write to package.json with version 1.0.1".to_string(),
            "Would write to CHANGELOG.md with version 1.0.1".to_string(),
        ]
    );
}

#[test]
fn workflow_halts_on_first_failure() {
    let package = Package {
        versioned_files: vec![file("package.json", "1.0.0"), file("other/package.json", "2.0.0")],
        changelog: None,
    };
    let rt = context(Mode::Real, package, Vec::new());
    let steps = vec![Step::BumpVersion(Rule::Patch), Step::BumpVersion(Rule::Major)];
    let err = release_engine::step::run_workflow(steps, rt).unwrap_err();
    assert!(matches!(err, StepError::InconsistentVersions(_, _)));
}

#[test]
fn workflow_threads_context_through_steps() {
    let package = Package { versioned_files: vec![file("package.json", "1.0.0")], changelog: None };
    let rt = context(Mode::Real, package, Vec::new());
    let steps = vec![Step::BumpVersion(Rule::Minor), Step::BumpVersion(Rule::Patch)];
    let out = release_engine::step::run_workflow(steps, rt).unwrap();
    assert_eq!(current_version(&out.state.packages[0]).unwrap(), "1.1.1");
    assert_eq!(out.writes.len(), 2);
}

#[test]
fn two_packages_are_rejected() {
    let one = Package { versioned_files: vec![file("package.json", "1.0.0")], changelog: None };
    let two = Package { versioned_files: vec![file("other/package.json", "1.0.0")], changelog: None };
    let rt = RunType {
        mode: Mode::Real,
        state: State { packages: vec![one, two], change_entries: Vec::new() },
        captured: Vec::new(),
        writes: Vec::new(),
    };
    let err = Step::BumpVersion(Rule::Patch).run(rt).unwrap_err();
    assert!(matches!(err, StepError::TooManyPackages));
}

#[test]
fn malformed_changelog_names_the_line() {
    let package = Package {
        versioned_files: vec![file("package.json", "1.0.0")],
        changelog: Some(ChangelogFile {
            path: "CHANGELOG.md".to_string(),
            content: "## 1.0.0\nnot a bullet\n".to_string(),
        }),
    };
    let entries = vec![entry(Category::Fix, "Mended")];
    let rt = context(Mode::Real, package, entries);
    let step = Step::PrepareRelease(PrepareRelease { prerelease_label: None });
    match step.run(rt).unwrap_err() {
        StepError::Changelog(line) => assert_eq!(line, "not a bullet"),
        _ => panic!("expected a changelog error"),
    }
}

#[test]
fn no_defined_packages_help_names_config() {
    let err = StepError::no_defined_packages_with_help();
    match err {
        StepError::NoDefinedPackages { package_suggestion } => {
            assert!(package_suggestion.contains("[[packages]]"));
        },
        _ => panic!("expected no defined packages"),
    }
}
