use release_engine::semver::{parse_version, Label, Rule, Version};
use release_engine::step::StepError;

fn v(s: &str) -> Version {
    parse_version(s).unwrap()
}

#[test]
fn parse_and_render_round_trip() {
    for s in vec!["0.0.0", "1.2.3", "10.20.30", "1.1.0-rc.1", "1.2.3-beta.0", "1.2.3+build5", "1.2.3-rc.4+build5"] {
        assert_eq!(v(s).render(), s.to_string());
    }
}

#[test]
fn parse_fields() {
    let version = v("1.2.3-rc.4");
    assert_eq!(version.major, 1);
    assert_eq!(version.minor, 2);
    assert_eq!(version.patch, 3);
    let pre = version.pre.as_ref().unwrap();
    assert_eq!(pre.label, "rc");
    assert_eq!(pre.number, 4);
    assert!(version.build.is_none());
}

#[test]
fn parse_rejects_invalid_semantic_version() {
    for s in vec!["", "1", "1.2", "a.b.c", "1.2.x", "1..2", "1.2.3.4"] {
        assert!(
            matches!(parse_version(s).unwrap_err(), StepError::InvalidSemanticVersion(_)),
            "{}",
            s
        );
    }
}

#[test]
fn parse_rejects_invalid_pre_release() {
    for s in vec!["1.2.3-rc", "1.2.3-", "1.2.3-rc.x", "1.2.3-.4"] {
        assert!(
            matches!(parse_version(s).unwrap_err(), StepError::InvalidPreReleaseVersion(_)),
            "{}",
            s
        );
    }
}

#[test]
fn stable_bumps_clear_pre_release() {
    let version = v("1.2.3-rc.4");
    assert_eq!(version.bump(&Rule::Major).unwrap().render(), "2.0.0");
    assert_eq!(version.bump(&Rule::Minor).unwrap().render(), "1.3.0");
    assert_eq!(version.bump(&Rule::Patch).unwrap().render(), "1.2.4");
}

#[test]
fn stable_bumps_zero_lower_components() {
    let version = v("1.2.3");
    assert_eq!(version.bump(&Rule::Major).unwrap().render(), "2.0.0");
    assert_eq!(version.bump(&Rule::Minor).unwrap().render(), "1.3.0");
    assert_eq!(version.bump(&Rule::Patch).unwrap().render(), "1.2.4");
}

#[test]
fn pre_bump_opens_series_on_next_patch() {
    let version = v("1.2.3");
    let bumped = version.bump(&Rule::Pre(Label::new("rc"))).unwrap();
    assert_eq!(bumped.render(), "1.2.4-rc.0");
}

#[test]
fn pre_bump_continues_series() {
    let version = v("1.2.3-rc.4");
    let bumped = version.bump(&Rule::Pre(Label::new("rc"))).unwrap();
    assert_eq!(bumped.render(), "1.2.3-rc.5");
}

#[test]
fn pre_bump_switches_label_at_same_patch() {
    let version = v("1.2.3-rc.4");
    let bumped = version.bump(&Rule::Pre(Label::new("beta"))).unwrap();
    assert_eq!(bumped.render(), "1.2.3-beta.0");
}

#[test]
fn release_strips_pre_release() {
    let version = v("1.2.3-rc.4");
    assert_eq!(version.bump(&Rule::Release).unwrap().render(), "1.2.3");
}

#[test]
fn release_requires_pre_release() {
    let version = v("1.2.3");
    assert!(matches!(
        version.bump(&Rule::Release).unwrap_err(),
        StepError::InvalidPreReleaseVersion(_)
    ));
}

#[test]
fn bump_clears_build_metadata() {
    let version = v("1.2.3+build5");
    assert_eq!(version.bump(&Rule::Patch).unwrap().render(), "1.2.4");
}

#[test]
fn bump_reports_overflow_as_error() {
    let version = v("18446744073709551615.0.0");
    assert!(version.bump(&Rule::Major).is_err());
    assert!(version.bump(&Rule::Minor).is_ok());
}

#[test]
fn parse_rejects_oversized_component() {
    assert!(matches!(
        parse_version("18446744073709551616.0.0").unwrap_err(),
        StepError::InvalidSemanticVersion(_)
    ));
}
