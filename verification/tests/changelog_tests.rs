use release_engine::changelog::{
    add_version, parse_changelog, Category, ChangeEntry, ChangeSource,
};
use release_engine::semver::parse_version;

fn entry(category: Category, description: &str) -> ChangeEntry {
    ChangeEntry { category, description: description.to_string(), source: ChangeSource::Commit }
}

#[test]
fn render_one_section() {
    let doc = parse_changelog("## 1.1.0-rc.1\n\n### Features\n\n- New feature in first RC\n")
        .unwrap();
    assert_eq!(doc.sections.len(), 1);
    assert_eq!(doc.sections[0].version, "1.1.0-rc.1");
    assert_eq!(
        doc.render(),
        "## 1.1.0-rc.1\n\n### Features\n\n- New feature in first RC\n"
    );
}

#[test]
fn rerender_is_byte_identical() {
    let text = "# Changelog\n\n## 1.1.0\n\n### Breaking Changes\n\n- Gone\n\n### Fixes\n\n- Mended\n\n## 1.0.0\n\n### Features\n\n- Born\n";
    let doc = parse_changelog(text).unwrap();
    let first = doc.render();
    let second = doc.render();
    assert_eq!(first, second);
    assert_eq!(first, text);
    let reparsed = parse_changelog(&first).unwrap();
    assert_eq!(reparsed.render(), first);
}

#[test]
fn preamble_is_kept_verbatim() {
    let text = "# Changelog\n\nAll notable changes.\n\n## 1.0.0\n\n### Other\n\n- Start\n";
    let doc = parse_changelog(text).unwrap();
    assert_eq!(doc.preamble, "# Changelog\n\nAll notable changes.\n\n");
    assert_eq!(doc.render(), text);
}

#[test]
fn parse_rejects_stray_text() {
    let err = parse_changelog("## 1.0.0\nsurprise\n").unwrap_err();
    assert_eq!(err, "surprise");
}

#[test]
fn parse_rejects_unknown_category() {
    let err = parse_changelog("## 1.0.0\n\n### Surprises\n").unwrap_err();
    assert_eq!(err, "### Surprises");
}

#[test]
fn parse_rejects_bullet_without_category() {
    let err = parse_changelog("## 1.0.0\n\n- stray bullet\n").unwrap_err();
    assert_eq!(err, "- stray bullet");
}

#[test]
fn new_version_inserts_top_section() {
    let doc = parse_changelog("## 1.0.0\n\n### Features\n\n- Born\n").unwrap();
    let target = parse_version("1.1.0").unwrap();
    let entries = vec![entry(Category::Feature, "Grew")];
    let merged = add_version(doc, &target, &entries);
    assert_eq!(
        merged.render(),
        "## 1.1.0\n\n### Features\n\n- Grew\n\n## 1.0.0\n\n### Features\n\n- Born\n"
    );
}

#[test]
fn same_series_merges_top_section() {
    let doc = parse_changelog("## 1.1.0-rc.1\n\n### Features\n\n- First\n").unwrap();
    let target = parse_version("1.1.0-rc.2").unwrap();
    let entries = vec![entry(Category::Feature, "Second")];
    let merged = add_version(doc, &target, &entries);
    assert_eq!(
        merged.render(),
        "## 1.1.0-rc.2\n\n### Features\n\n- First\n- Second\n"
    );
}

#[test]
fn categories_come_in_fixed_order() {
    let doc = parse_changelog("").unwrap();
    let target = parse_version("1.0.0").unwrap();
    let entries = vec![
        entry(Category::Other, "d"),
        entry(Category::Fix, "c"),
        entry(Category::Feature, "b"),
        entry(Category::Breaking, "a"),
    ];
    let merged = add_version(doc, &target, &entries);
    assert_eq!(
        merged.render(),
        "## 1.0.0\n\n### Breaking Changes\n\n- a\n\n### Features\n\n- b\n\n### Fixes\n\n- c\n\n### Other\n\n- d\n"
    );
}

#[test]
fn empty_categories_are_omitted() {
    let doc = parse_changelog("").unwrap();
    let target = parse_version("1.0.0").unwrap();
    let entries = vec![entry(Category::Fix, "only fix")];
    let merged = add_version(doc, &target, &entries);
    assert_eq!(merged.render(), "## 1.0.0\n\n### Fixes\n\n- only fix\n");
}
