//! Workflow steps, their execution context, and the error taxonomy that a
//! failing step reports.
use vstd::pervasive::VecAdditionalExecFns;
use vstd::prelude::*;

verus! {

/// One project metadata file whose content embeds the package version.
#[derive(Debug)]
pub struct VersionedFile {
    pub path: String,
    pub content: String,
}

/// The package's changelog file, carried as raw text until a release is
/// prepared.
#[derive(Debug)]
pub struct ChangelogFile {
    pub path: String,
    pub content: String,
}

/// A named set of versioned files plus an optional changelog.
#[derive(Debug)]
pub struct Package {
    pub versioned_files: Vec<VersionedFile>,
    pub changelog: Option<ChangelogFile>,
}

/// The workflow state a step reads and advances: the defined packages and
/// the classified change entries an external classifier supplied.
#[derive(Debug)]
pub struct State {
    pub packages: Vec<Package>,
    pub change_entries: Vec<crate::changelog::ChangeEntry>,
}

/// The two mutually exclusive execution modes.
#[derive(Clone, Copy, PartialEq, Eq, Structural, Debug)]
pub enum Mode {
    Real,
    DryRun,
}

/// One complete replacement write that real mode has decided on; persisting
/// it is the caller's duty.
#[derive(Debug)]
pub struct FileWrite {
    pub path: String,
    pub content: String,
}

/// The execution context threaded through the pipeline. In dry-run mode
/// intended mutations land on `captured` as descriptions; in real mode they
/// land on `writes` as full replacement contents.
#[derive(Debug)]
pub struct RunType {
    pub mode: Mode,
    pub state: State,
    pub captured: Vec<String>,
    pub writes: Vec<FileWrite>,
}

/// The one-line description the dry-run sink records for an intended write.
pub open spec fn dry_run_line(path: Seq<char>, version: Seq<char>) -> Seq<char> {
    "Would write to "@ + path + " with version "@ + version
}

/// The recorded writes as pairs of path and content.
pub open spec fn writes_model(ws: Seq<FileWrite>) -> Seq<(Seq<char>, Seq<char>)> {
    ws.map_values(|w: FileWrite| (w.path@, w.content@))
}

/// The single choke point through which every file mutation passes: in
/// dry-run mode it describes the intended change on the captured sink and
/// touches nothing else; in real mode it records the full replacement
/// content for persistence. No other routine may mutate a file.
pub fn sink_write(rt: &mut RunType, version: &str, path: &str, content: &str)
    ensures
        final(rt).mode == old(rt).mode,
        final(rt).state == old(rt).state,
        old(rt).mode is DryRun ==> crate::changelog::views_of(final(rt).captured@) == crate::changelog::views_of(old(rt).captured@).push(dry_run_line(path@, version@)) && final(rt).writes == old(rt).writes,
        old(rt).mode is Real ==> writes_model(final(rt).writes@) == writes_model(
            old(rt).writes@,
        ).push((path@, content@)) && final(rt).captured == old(rt).captured,
{
    match rt.mode {
        Mode::DryRun => {
            let mut line = "Would write to ".to_owned();
            line.append(path);
            line.append(" with version ");
            line.append(version);
            rt.captured.push(line);
            proof {
                assert(crate::changelog::views_of(rt.captured@) =~= crate::changelog::views_of(old(rt).captured@).push(dry_run_line(path@, version@)));
            }
        },
        Mode::Real => {
            rt.writes.push(FileWrite { path: path.to_owned(), content: content.to_owned() });
            proof {
                assert(writes_model(rt.writes@) =~= writes_model(old(rt).writes@).push(
                    (path@, content@),
                ));
            }
        },
    }
}

/// Everything a workflow step can fail with. Each variant carries the
/// structured payload a caller needs to act on the failure.
#[derive(Debug)]
pub enum StepError {
    /// A version string could not be parsed as a semantic version.
    InvalidSemanticVersion(String),
    /// A pre-release component could not be advanced: it was absent where one
    /// was required, or its numeric suffix cannot grow further.
    InvalidPreReleaseVersion(String),
    /// No classified change entry implies any version change.
    NoRelease,
    /// The package has no versioned file to read a current version from.
    NoCurrentVersion,
    /// Two versioned files of one package disagree on the current version;
    /// both offending values are named.
    InconsistentVersions(String, String),
    /// A versioned file could not be read or rewritten.
    VersionedFile(crate::package_json::FileError),
    /// A changelog file does not follow the expected section layout; carries
    /// the offending line.
    Changelog(String),
    /// No package is defined; carries a suggested configuration snippet.
    NoDefinedPackages { package_suggestion: String },
    /// More than one package is defined where only one is supported.
    TooManyPackages,
}

impl StepError {
    /// The error for a configuration with no package, carrying a suggested
    /// configuration snippet for a project versioned through a single
    /// `package.json`.
    pub fn no_defined_packages_with_help() -> (r: StepError)
        ensures
            r matches StepError::NoDefinedPackages { package_suggestion } && package_suggestion@
                == "[[packages]]\nversioned_files = [\"package.json\"]\nchangelog = \"CHANGELOG.md\""@,
    {
        StepError::NoDefinedPackages {
            package_suggestion: "[[packages]]\nversioned_files = [\"package.json\"]\nchangelog = \"CHANGELOG.md\"".to_owned(),
        }
    }
}

/// The version a file reports: the string value of its `version` property.
pub open spec fn spec_file_version(f: VersionedFile) -> Option<Seq<char>> {
    crate::json::json_str_field(f.content@, crate::package_json::version_key())
}

/// The version a package agrees on: defined exactly when the package has at
/// least one versioned file and every file reports that same version.
pub open spec fn pkg_consistent_version(files: Seq<VersionedFile>) -> Option<Seq<char>> {
    if files.len() > 0 && spec_file_version(files[0]) is Some && (forall|i: int|
        0 <= i < files.len() ==> #[trigger] spec_file_version(files[i]) == spec_file_version(
            files[0],
        )) {
        spec_file_version(files[0])
    } else {
        None
    }
}

/// Does every versioned file's content parse as a JSON object?
pub open spec fn pkg_files_parse(files: Seq<VersionedFile>) -> bool {
    forall|i: int|
        0 <= i < files.len() ==> crate::json::json_keys(
            (#[trigger] files[i]).content@,
        ) is Some
}

/// Reads every member file's version and enforces agreement: an empty
/// package has no current version; two files that disagree are a hard
/// error naming both values, never reconciled silently.
pub fn current_version(package: &Package) -> (r: Result<String, StepError>)
    ensures
        r matches Ok(val) ==> pkg_consistent_version(package.versioned_files@) == Some(val@),
        (r is Ok) <==> (pkg_consistent_version(package.versioned_files@) is Some),
        r matches Err(e) ==> ((e is NoCurrentVersion) <==> package.versioned_files@.len() == 0),
        r matches Err(e) ==> (e matches StepError::InconsistentVersions(a, b) ==> a@ != b@
            && spec_file_version(package.versioned_files@[0]) == Some(a@) && (exists|i: int|
            0 <= i < package.versioned_files@.len() && spec_file_version(
                package.versioned_files@[i],
            ) == Some(b@))),
        r matches Err(e) ==> e is NoCurrentVersion || e is InconsistentVersions || e is VersionedFile,
        r is Ok ==> (forall|i: int|
            0 <= i < package.versioned_files@.len() ==> crate::json::json_keys(
                (#[trigger] package.versioned_files@[i]).content@,
            ) is Some),
        (package.versioned_files@.len() > 0 && (forall|i: int|
            0 <= i < package.versioned_files@.len() ==> (#[trigger] spec_file_version(
                package.versioned_files@[i],
            )) is Some) && pkg_consistent_version(package.versioned_files@) is None) ==> (
        r matches Err(e) && e matches StepError::InconsistentVersions(_, _)),
{
    if package.versioned_files.len() == 0 {
        return Err(StepError::NoCurrentVersion);
    }
    let first = match crate::package_json::get_version(
        package.versioned_files[0].content.as_str(),
        package.versioned_files[0].path.as_str(),
    ) {
        Ok(val) => val,
        Err(e) => {
            return Err(StepError::VersionedFile(e));
        },
    };
    let mut i: usize = 1;
    while i < package.versioned_files.len()
        invariant
            1 <= i <= package.versioned_files@.len(),
            spec_file_version(package.versioned_files@[0]) == Some(first@),
            forall|j: int|
                0 <= j < i ==> spec_file_version(package.versioned_files@[j]) == Some(first@),
            forall|j: int|
                0 <= j < i ==> crate::json::json_keys(
                    (#[trigger] package.versioned_files@[j]).content@,
                ) is Some,
        decreases package.versioned_files@.len() - i,
    {
        let vi = match crate::package_json::get_version(
            package.versioned_files[i].content.as_str(),
            package.versioned_files[i].path.as_str(),
        ) {
            Ok(val) => val,
            Err(e) => {
                return Err(StepError::VersionedFile(e));
            },
        };
        if !(vi == first) {
            return Err(StepError::InconsistentVersions(first, vi));
        }
        i += 1;
    }
    Ok(first)
}

/// Does any entry carry category `c`?
pub open spec fn has_cat(
    es: Seq<crate::changelog::ChangeEntry>,
    c: crate::changelog::Category,
) -> bool {
    exists|i: int| 0 <= i < es.len() && es[i].category == c
}

/// The stable rule the classified entries imply: any breaking change means
/// a major bump; else any feature a minor bump; else any remaining entry a
/// patch bump. With no entry at all, no release is due.
pub fn determine_rule(entries: &Vec<crate::changelog::ChangeEntry>) -> (r: Result<
    crate::semver::Rule,
    StepError,
>)
    ensures
        (r is Err) <==> entries@.len() == 0,
        r matches Err(e) ==> e is NoRelease,
        r matches Ok(rule) ==> {
            &&& rule is Major <==> has_cat(entries@, crate::changelog::Category::Breaking)
            &&& rule is Minor <==> (!has_cat(entries@, crate::changelog::Category::Breaking)
                && has_cat(entries@, crate::changelog::Category::Feature))
            &&& rule is Patch <==> (!has_cat(entries@, crate::changelog::Category::Breaking)
                && !has_cat(entries@, crate::changelog::Category::Feature))
        },
{
    if entries.len() == 0 {
        return Err(StepError::NoRelease);
    }
    let mut breaking = false;
    let mut feature = false;
    let mut i: usize = 0;
    while i < entries.len()
        invariant
            i <= entries@.len(),
            breaking == has_cat(entries@.take(i as int), crate::changelog::Category::Breaking),
            feature == has_cat(entries@.take(i as int), crate::changelog::Category::Feature),
        decreases entries@.len() - i,
    {
        if entries[i].category == crate::changelog::Category::Breaking {
            breaking = true;
        }
        if entries[i].category == crate::changelog::Category::Feature {
            feature = true;
        }
        i += 1;
        proof {
            let t = entries@.take(i as int);
            assert(t.len() == i);
            assert forall|c: crate::changelog::Category|
                has_cat(entries@.take(i - 1), c) implies has_cat(t, c) by {
                let w = choose|j: int|
                    0 <= j < i - 1 && (#[trigger] entries@.take(i - 1)[j]).category == c;
                assert(t[w].category == c);
            }
            assert(t[i - 1] == entries@[i - 1]);
            assert forall|c: crate::changelog::Category|
                has_cat(t, c) && entries@[i - 1].category != c implies has_cat(
                entries@.take(i - 1),
                c,
            ) by {
                let w = choose|j: int| 0 <= j < i && (#[trigger] t[j]).category == c;
                assert(w < i - 1);
                assert(entries@.take(i - 1)[w].category == c);
            }
        }
    }
    proof {
        assert(entries@.take(entries@.len() as int) =~= entries@);
    }
    if breaking {
        Ok(crate::semver::Rule::Major)
    } else if feature {
        Ok(crate::semver::Rule::Minor)
    } else {
        Ok(crate::semver::Rule::Patch)
    }
}

/// The model of a version with pre-release and build metadata stripped.
pub open spec fn spec_strip(v: crate::semver::VersionModel) -> crate::semver::VersionModel {
    crate::semver::VersionModel {
        major: v.major,
        minor: v.minor,
        patch: v.patch,
        pre: None,
        build: None,
    }
}

/// The version a prepared release resolves to. With no pre-release label
/// the stable rule applies directly. With a label, a current version
/// already in that label's series advances its numeric suffix; any other
/// current version takes the stable bump and opens the series at zero.
pub open spec fn spec_resolve_next(
    cur: crate::semver::VersionModel,
    stable: crate::semver::Rule,
    label: Option<crate::semver::Label>,
) -> Option<crate::semver::VersionModel> {
    match label {
        None => crate::semver::spec_bump(cur, stable),
        Some(l) => if cur.pre matches Some(p) && p.0 == l.0@ {
            crate::semver::spec_bump(cur, crate::semver::Rule::Pre(l))
        } else {
            match crate::semver::spec_bump(spec_strip(cur), stable) {
                Some(w) => Some(
                    crate::semver::VersionModel {
                        major: w.major,
                        minor: w.minor,
                        patch: w.patch,
                        pre: Some((l.0@, 0)),
                        build: None,
                    },
                ),
                None => None,
            }
        },
    }
}

/// The machine limit on resolving the next version: the component the
/// resolution increments is already at the largest representable value.
pub open spec fn resolve_overflows(
    cur: crate::semver::VersionModel,
    stable: crate::semver::Rule,
    label: Option<crate::semver::Label>,
) -> bool {
    match label {
        None => crate::semver::bump_overflows(cur, stable),
        Some(l) => if cur.pre matches Some(p) && p.0 == l.0@ {
            crate::semver::bump_overflows(cur, crate::semver::Rule::Pre(l))
        } else {
            crate::semver::bump_overflows(spec_strip(cur), stable)
        },
    }
}

/// Resolves the next version for a prepared release, per
/// `spec_resolve_next`; fails only on the machine limit of the incremented
/// component.
pub fn resolve_next_version(
    cur: &crate::semver::Version,
    stable: &crate::semver::Rule,
    label: &Option<crate::semver::Label>,
) -> (r: Result<crate::semver::Version, StepError>)
    ensures
        r matches Ok(w) ==> spec_resolve_next(cur@, *stable, *label) == Some(w@),
        (r is Ok) <==> (spec_resolve_next(cur@, *stable, *label) is Some && !resolve_overflows(
            cur@,
            *stable,
            *label,
        )),
        r matches Err(e) ==> e matches StepError::InvalidSemanticVersion(_) || e matches StepError::InvalidPreReleaseVersion(_),
{
    match label {
        None => cur.bump(stable),
        Some(l) => {
            let continues = match &cur.pre {
                Some(p) => p.label == l.0,
                None => false,
            };
            if continues {
                cur.bump(&crate::semver::Rule::Pre(crate::semver::Label(l.0.clone())))
            } else {
                let stripped = crate::semver::Version {
                    major: cur.major,
                    minor: cur.minor,
                    patch: cur.patch,
                    pre: None,
                    build: None,
                };
                match stripped.bump(stable) {
                    Ok(w) => Ok(
                        crate::semver::Version {
                            major: w.major,
                            minor: w.minor,
                            patch: w.patch,
                            pre: Some(
                                crate::semver::PreRelease { label: l.0.clone(), number: 0 },
                            ),
                            build: None,
                        },
                    ),
                    Err(e) => Err(e),
                }
            }
        },
    }
}

/// The dry-run descriptions a run over these files records for `ver`.
pub open spec fn dry_lines(files: Seq<VersionedFile>, ver: Seq<char>) -> Seq<Seq<char>> {
    files.map_values(|f: VersionedFile| dry_run_line(f.path@, ver))
}

/// Writes `next_str` into every versioned file of the package through the
/// adapter and the sink. In real mode the package's in-memory contents are
/// replaced by the rewritten files; in dry-run mode the package is left
/// untouched and one description per file is captured.
fn write_version_files(rt: &mut RunType, pkg: &mut Package, next_str: &String) -> (r: Result<
    (),
    StepError,
>)
    ensures
        final(rt).mode == old(rt).mode,
        final(rt).state == old(rt).state,
        final(pkg).changelog == old(pkg).changelog,
        final(pkg).versioned_files@.len() == old(pkg).versioned_files@.len(),
        forall|i: int|
            0 <= i < final(pkg).versioned_files@.len() ==> (#[trigger] final(pkg).versioned_files@[i]).path@
                == old(pkg).versioned_files@[i].path@,
        old(rt).mode is DryRun ==> final(pkg).versioned_files == old(pkg).versioned_files
            && final(rt).writes == old(rt).writes,
        old(rt).mode is DryRun && r is Ok ==> crate::changelog::views_of(final(rt).captured@)
            == crate::changelog::views_of(old(rt).captured@) + dry_lines(
            old(pkg).versioned_files@,
            next_str@,
        ),
        old(rt).mode is Real ==> final(rt).captured == old(rt).captured,
        old(rt).mode is Real && r is Ok ==> forall|i: int|
            0 <= i < final(pkg).versioned_files@.len() ==> spec_file_version(
                #[trigger] final(pkg).versioned_files@[i],
            ) == Some(next_str@),
        r matches Err(e) ==> e is VersionedFile,
        (r is Ok) <==> pkg_files_parse(old(pkg).versioned_files@),
{
    let mut i: usize = 0;
    let ghost files0 = pkg.versioned_files@;
    while i < pkg.versioned_files.len()
        invariant
            i <= pkg.versioned_files@.len(),
            files0 == old(pkg).versioned_files@,
            pkg.versioned_files@.len() == files0.len(),
            pkg.changelog == old(pkg).changelog,
            rt.mode == old(rt).mode,
            rt.state == old(rt).state,
            old(rt).mode is DryRun ==> pkg.versioned_files == old(pkg).versioned_files
                && rt.writes == old(rt).writes,
            old(rt).mode is DryRun ==> crate::changelog::views_of(rt.captured@)
                == crate::changelog::views_of(old(rt).captured@) + dry_lines(
                files0,
                next_str@,
            ).take(i as int),
            old(rt).mode is Real ==> rt.captured == old(rt).captured,
            forall|j: int|
                0 <= j < files0.len() ==> (#[trigger] pkg.versioned_files@[j]).path@
                    == files0[j].path@,
            old(rt).mode is Real ==> forall|j: int|
                0 <= j < i ==> spec_file_version(#[trigger] pkg.versioned_files@[j]) == Some(
                    next_str@,
                ),
            old(rt).mode is Real ==> forall|j: int|
                i <= j < files0.len() ==> #[trigger] pkg.versioned_files@[j] == files0[j],
            forall|j: int|
                0 <= j < i ==> crate::json::json_keys(
                    (#[trigger] files0[j]).content@,
                ) is Some,
        decreases pkg.versioned_files@.len() - i,
    {
        let content = pkg.versioned_files[i].content.clone();
        let path = pkg.versioned_files[i].path.clone();
        proof {
            assert(pkg.versioned_files@[i as int] == files0[i as int]);
        }
        let is_real = match rt.mode {
            Mode::Real => true,
            Mode::DryRun => false,
        };
        match crate::package_json::set_version(
            rt,
            content.as_str(),
            next_str.as_str(),
            path.as_str(),
        ) {
            Ok(out) => {
                if is_real {
                    pkg.versioned_files.set(i, VersionedFile { path, content: out });
                    proof {
                        reveal_strlit("version");
                        assert(crate::json::json_str_field(
                            pkg.versioned_files@[i as int].content@,
                            crate::package_json::version_key(),
                        ) == Some(next_str@));
                    }
                }
            },
            Err(e) => {
                return Err(StepError::VersionedFile(e));
            },
        }
        i += 1;
        proof {
            if old(rt).mode is DryRun {
                let dl = dry_lines(files0, next_str@);
                assert(dl.take(i as int).drop_last() =~= dl.take(i - 1));
                assert(dl.take(i as int).last() == dry_run_line(files0[i - 1].path@, next_str@));
                assert(crate::changelog::views_of(rt.captured@) =~= crate::changelog::views_of(
                    old(rt).captured@,
                ) + dl.take(i as int));
            }
        }
    }
    proof {
        if old(rt).mode is DryRun {
            assert(dry_lines(files0, next_str@).take(files0.len() as int) =~= dry_lines(
                files0,
                next_str@,
            ));
        }
    }
    Ok(())
}

/// The version a bump step moves the package to: the agreed current
/// version, parsed, advanced under the rule.
pub open spec fn spec_bump_target(
    files: Seq<VersionedFile>,
    rule: crate::semver::Rule,
) -> Option<crate::semver::VersionModel> {
    match pkg_consistent_version(files) {
        Some(cs) => match crate::semver::spec_parse_version(cs) {
            Some(cur) => crate::semver::spec_bump(cur, rule),
            None => None,
        },
        None => None,
    }
}

/// Bumps the package version under `rule`: enforces the single-package
/// configuration, checks cross-file consistency, resolves the next version,
/// and routes one full replacement per file through the sink. A dry run
/// leaves the state untouched and captures one description per file naming
/// the new version; a real run rewrites the in-memory contents and records
/// the writes.
fn bump_version(rt: &mut RunType, rule: &crate::semver::Rule) -> (r: Result<(), StepError>)
    ensures
        final(rt).mode == old(rt).mode,
        old(rt).mode is DryRun ==> final(rt).state.packages@ == old(rt).state.packages@ && final(rt).state.change_entries == old(rt).state.change_entries && final(rt).writes == old(rt).writes,
        old(rt).mode is Real ==> final(rt).captured == old(rt).captured,
        final(rt).state.change_entries == old(rt).state.change_entries,
        (r is Ok) <==> (old(rt).state.packages@.len() == 1 && bump_succeeds(
            old(rt).state.packages@[0].versioned_files@,
            *rule,
        )),
        r is Ok ==> (old(rt).mode is Real ==> final(rt).state.packages@[0].changelog == old(
            rt,
        ).state.packages@[0].changelog),
        r matches Err(e) ==> e is NoDefinedPackages || e is TooManyPackages
            || e is NoCurrentVersion || e is InconsistentVersions || e is VersionedFile
            || e is InvalidSemanticVersion || e is InvalidPreReleaseVersion,
        r matches Err(e) ==> (e matches StepError::InconsistentVersions(a, b)
            ==> old(rt).state.packages@.len() == 1 && a@ != b@ && spec_file_version(
            old(rt).state.packages@[0].versioned_files@[0],
        ) == Some(a@) && (exists|i: int|
            0 <= i < old(rt).state.packages@[0].versioned_files@.len() && spec_file_version(
                old(rt).state.packages@[0].versioned_files@[i],
            ) == Some(b@))),
        (old(rt).state.packages@.len() == 1 && old(rt).state.packages@[0].versioned_files@.len()
            > 0 && (forall|i: int|
            0 <= i < old(rt).state.packages@[0].versioned_files@.len() ==> (
            #[trigger] spec_file_version(old(rt).state.packages@[0].versioned_files@[i])) is Some)
            && pkg_consistent_version(old(rt).state.packages@[0].versioned_files@) is None) ==> (
        r matches Err(e) && e matches StepError::InconsistentVersions(_, _)),
        r is Ok ==> old(rt).state.packages@.len() == 1 && spec_bump_target(
            old(rt).state.packages@[0].versioned_files@,
            *rule,
        ) is Some,
        r is Ok ==> (old(rt).mode is DryRun ==> crate::changelog::views_of(final(rt).captured@)
            == crate::changelog::views_of(old(rt).captured@) + dry_lines(
            old(rt).state.packages@[0].versioned_files@,
            crate::semver::version_chars(
                spec_bump_target(old(rt).state.packages@[0].versioned_files@, *rule).unwrap(),
            ),
        )),
        r is Ok ==> (old(rt).mode is Real ==> final(rt).state.packages@.len() == 1 && (forall|
            i: int,
        |
            0 <= i < final(rt).state.packages@[0].versioned_files@.len()
                ==> spec_file_version(
                #[trigger] final(rt).state.packages@[0].versioned_files@[i],
            ) == Some(
                crate::semver::version_chars(
                    spec_bump_target(
                        old(rt).state.packages@[0].versioned_files@,
                        *rule,
                    ).unwrap(),
                ),
            ))),
{
    if rt.state.packages.len() == 0 {
        return Err(StepError::no_defined_packages_with_help());
    }
    if rt.state.packages.len() > 1 {
        return Err(StepError::TooManyPackages);
    }
    let ghost packages0 = rt.state.packages@;
    let mut pkg = match rt.state.packages.pop() {
        Some(p) => p,
        None => {
            return Err(StepError::no_defined_packages_with_help());
        },
    };
    proof {
        assert(pkg == packages0[0]);
    }
    let cur_str = match current_version(&pkg) {
        Ok(c) => c,
        Err(e) => {
            rt.state.packages.push(pkg);
            proof {
                assert(rt.state.packages@ =~= packages0);
            }
            return Err(e);
        },
    };
    let cur = match crate::semver::parse_version(cur_str.as_str()) {
        Ok(c) => c,
        Err(e) => {
            rt.state.packages.push(pkg);
            proof {
                assert(rt.state.packages@ =~= packages0);
            }
            return Err(e);
        },
    };
    let next = match cur.bump(rule) {
        Ok(w) => w,
        Err(e) => {
            rt.state.packages.push(pkg);
            proof {
                assert(rt.state.packages@ =~= packages0);
            }
            return Err(e);
        },
    };
    let next_str = next.render();
    let res = write_version_files(rt, &mut pkg, &next_str);
    rt.state.packages.push(pkg);
    proof {
        if old(rt).mode is DryRun {
            assert(rt.state.packages@ =~= packages0);
        }
    }
    res
}

/// The version a prepared release moves the package to: none when no entry
/// is classified; otherwise the agreed current version advanced under the
/// stable rule the entries imply, shaped by the optional pre-release label.
pub open spec fn stable_rule_of(entries: Seq<crate::changelog::ChangeEntry>) -> crate::semver::Rule {
    if has_cat(entries, crate::changelog::Category::Breaking) {
        crate::semver::Rule::Major
    } else if has_cat(entries, crate::changelog::Category::Feature) {
        crate::semver::Rule::Minor
    } else {
        crate::semver::Rule::Patch
    }
}

pub open spec fn spec_prepare_target(
    files: Seq<VersionedFile>,
    entries: Seq<crate::changelog::ChangeEntry>,
    label: Option<crate::semver::Label>,
) -> Option<crate::semver::VersionModel> {
    if entries.len() == 0 {
        None
    } else {
        let stable = stable_rule_of(entries);
        match pkg_consistent_version(files) {
            Some(cs) => match crate::semver::spec_parse_version(cs) {
                Some(cur) => spec_resolve_next(cur, stable, label),
                None => None,
            },
            None => None,
        }
    }
}

/// Everything a version bump needs of the package: an agreed current
/// version, every file parseable, and a next version within machine
/// limits. Exactly when this holds, the bump step succeeds.
pub open spec fn bump_succeeds(files: Seq<VersionedFile>, rule: crate::semver::Rule) -> bool {
    &&& pkg_consistent_version(files) is Some
    &&& pkg_files_parse(files)
    &&& spec_bump_target(files, rule) is Some
    &&& !crate::semver::bump_overflows(
        crate::semver::spec_parse_version(pkg_consistent_version(files).unwrap()).unwrap(),
        rule,
    )
}

/// Is the package's changelog, if it has one, well-formed text?
pub open spec fn changelog_ok(pkg: Package) -> bool {
    match pkg.changelog {
        Some(cl) => crate::changelog::changelog_wf(cl.content@),
        None => true,
    }
}

/// Everything a prepared release needs: at least one classified entry, an
/// agreed current parseable version in parseable files, a resolvable next
/// version within machine limits, and a well-formed changelog if one is
/// configured. Exactly when this holds, the step succeeds.
pub open spec fn prepare_succeeds(
    pkg: Package,
    entries: Seq<crate::changelog::ChangeEntry>,
    label: Option<crate::semver::Label>,
) -> bool {
    &&& entries.len() > 0
    &&& pkg_consistent_version(pkg.versioned_files@) is Some
    &&& pkg_files_parse(pkg.versioned_files@)
    &&& spec_prepare_target(pkg.versioned_files@, entries, label) is Some
    &&& !resolve_overflows(
        crate::semver::spec_parse_version(
            pkg_consistent_version(pkg.versioned_files@).unwrap(),
        ).unwrap(),
        stable_rule_of(entries),
        label,
    )
    &&& changelog_ok(pkg)
}

/// When a step is owed success: a single package whose state meets the
/// step's needs.
pub open spec fn step_succeeds(
    s: Step,
    packages: Seq<Package>,
    entries: Seq<crate::changelog::ChangeEntry>,
) -> bool {
    match s {
        Step::BumpVersion(rule) => packages.len() == 1 && bump_succeeds(
            packages[0].versioned_files@,
            rule,
        ),
        Step::PrepareRelease(p) => packages.len() == 1 && prepare_succeeds(
            packages[0],
            entries,
            p.prerelease_label,
        ),
    }
}

/// The changelog text a prepared release writes: the old text's preamble
/// kept verbatim, then the merged sections rendered canonically.
pub open spec fn spec_new_changelog(
    old_text: Seq<char>,
    v: crate::semver::VersionModel,
    entries: Seq<crate::changelog::ChangeEntry>,
) -> Seq<char> {
    old_text.subrange(0, crate::changelog::preamble_end(old_text, 0))
        + crate::changelog::model_sections_chars(
        crate::changelog::spec_add_version(
            crate::changelog::spec_parse_sections(old_text),
            v,
            entries,
        ),
    )
}

/// Prepares a release: derives the stable rule from the classified entries,
/// resolves the next version, folds the entries into the changelog, and
/// writes the new version into every versioned file, all through the sink.
fn prepare_release(rt: &mut RunType, prep: &PrepareRelease) -> (r: Result<(), StepError>)
    ensures
        final(rt).mode == old(rt).mode,
        old(rt).mode is DryRun ==> final(rt).state.packages@ == old(rt).state.packages@ && final(rt).state.change_entries == old(rt).state.change_entries && final(rt).writes == old(rt).writes,
        old(rt).mode is Real ==> final(rt).captured == old(rt).captured,
        final(rt).state.change_entries == old(rt).state.change_entries,
        r matches Err(e) ==> (e is NoRelease ==> old(rt).state.change_entries@.len() == 0),
        (r is Ok) <==> (old(rt).state.packages@.len() == 1 && prepare_succeeds(
            old(rt).state.packages@[0],
            old(rt).state.change_entries@,
            prep.prerelease_label,
        )),
        (old(rt).state.packages@.len() == 1 && old(rt).state.change_entries@.len() == 0) ==> (
        r matches Err(e) && e is NoRelease),
        r matches Err(e) ==> e is NoDefinedPackages || e is TooManyPackages || e is NoRelease
            || e is NoCurrentVersion || e is InconsistentVersions || e is VersionedFile
            || e is InvalidSemanticVersion || e is InvalidPreReleaseVersion || e is Changelog,
        r matches Err(e) ==> (e matches StepError::InconsistentVersions(a, b)
            ==> old(rt).state.packages@.len() == 1 && a@ != b@ && spec_file_version(
            old(rt).state.packages@[0].versioned_files@[0],
        ) == Some(a@) && (exists|i: int|
            0 <= i < old(rt).state.packages@[0].versioned_files@.len() && spec_file_version(
                old(rt).state.packages@[0].versioned_files@[i],
            ) == Some(b@))),
        (old(rt).state.packages@.len() == 1 && old(rt).state.change_entries@.len() > 0 && old(
            rt,
        ).state.packages@[0].versioned_files@.len() > 0 && (forall|i: int|
            0 <= i < old(rt).state.packages@[0].versioned_files@.len() ==> (
            #[trigger] spec_file_version(old(rt).state.packages@[0].versioned_files@[i])) is Some)
            && pkg_consistent_version(old(rt).state.packages@[0].versioned_files@) is None) ==> (
        r matches Err(e) && e matches StepError::InconsistentVersions(_, _)),
        r is Ok ==> old(rt).state.packages@.len() == 1 && spec_prepare_target(
            old(rt).state.packages@[0].versioned_files@,
            old(rt).state.change_entries@,
            prep.prerelease_label,
        ) is Some,
        r is Ok ==> (old(rt).mode is Real ==> (match old(rt).state.packages@[0].changelog {
            Some(cl) => final(rt).state.packages@[0].changelog matches Some(cl2) && cl2.path@
                == cl.path@ && cl2.content@ == spec_new_changelog(
                cl.content@,
                spec_prepare_target(
                    old(rt).state.packages@[0].versioned_files@,
                    old(rt).state.change_entries@,
                    prep.prerelease_label,
                ).unwrap(),
                old(rt).state.change_entries@,
            ),
            None => final(rt).state.packages@[0].changelog is None,
        })),
        r is Ok ==> (old(rt).mode is DryRun ==> crate::changelog::views_of(final(rt).captured@)
            == crate::changelog::views_of(old(rt).captured@) + dry_lines(
            old(rt).state.packages@[0].versioned_files@,
            crate::semver::version_chars(
                spec_prepare_target(
                    old(rt).state.packages@[0].versioned_files@,
                    old(rt).state.change_entries@,
                    prep.prerelease_label,
                ).unwrap(),
            ),
        ) + (match old(rt).state.packages@[0].changelog {
            Some(cl) => seq![
                dry_run_line(
                    cl.path@,
                    crate::semver::version_chars(
                        spec_prepare_target(
                            old(rt).state.packages@[0].versioned_files@,
                            old(rt).state.change_entries@,
                            prep.prerelease_label,
                        ).unwrap(),
                    ),
                ),
            ],
            None => Seq::empty(),
        })),
        r is Ok ==> (old(rt).mode is Real ==> final(rt).state.packages@.len() == 1 && (forall|
            i: int,
        |
            0 <= i < final(rt).state.packages@[0].versioned_files@.len()
                ==> spec_file_version(
                #[trigger] final(rt).state.packages@[0].versioned_files@[i],
            ) == Some(
                crate::semver::version_chars(
                    spec_prepare_target(
                        old(rt).state.packages@[0].versioned_files@,
                        old(rt).state.change_entries@,
                        prep.prerelease_label,
                    ).unwrap(),
                ),
            ))),
{
    if rt.state.packages.len() == 0 {
        return Err(StepError::no_defined_packages_with_help());
    }
    if rt.state.packages.len() > 1 {
        return Err(StepError::TooManyPackages);
    }
    let stable = match determine_rule(&rt.state.change_entries) {
        Ok(rule) => rule,
        Err(e) => {
            return Err(e);
        },
    };
    proof {
        assert(stable == stable_rule_of(rt.state.change_entries@));
    }
    let ghost packages0 = rt.state.packages@;
    let mut pkg = match rt.state.packages.pop() {
        Some(p) => p,
        None => {
            return Err(StepError::no_defined_packages_with_help());
        },
    };
    proof {
        assert(pkg == packages0[0]);
    }
    let cur_str = match current_version(&pkg) {
        Ok(c) => c,
        Err(e) => {
            rt.state.packages.push(pkg);
            proof {
                assert(rt.state.packages@ =~= packages0);
            }
            return Err(e);
        },
    };
    let cur = match crate::semver::parse_version(cur_str.as_str()) {
        Ok(c) => c,
        Err(e) => {
            rt.state.packages.push(pkg);
            proof {
                assert(rt.state.packages@ =~= packages0);
            }
            return Err(e);
        },
    };
    let next = match resolve_next_version(&cur, &stable, &prep.prerelease_label) {
        Ok(w) => w,
        Err(e) => {
            rt.state.packages.push(pkg);
            proof {
                assert(rt.state.packages@ =~= packages0);
            }
            return Err(e);
        },
    };
    proof {
        let sp = spec_prepare_target(
            packages0[0].versioned_files@,
            old(rt).state.change_entries@,
            prep.prerelease_label,
        );
        assert(sp == Some(next@));
    }
    let next_str = next.render();
    match write_version_files(rt, &mut pkg, &next_str) {
        Ok(()) => {},
        Err(e) => {
            rt.state.packages.push(pkg);
            proof {
                if old(rt).mode is DryRun {
                    assert(rt.state.packages@ =~= packages0);
                }
            }
            return Err(e);
        },
    }
    let is_real = match rt.mode {
        Mode::Real => true,
        Mode::DryRun => false,
    };
    let cl_opt = match &pkg.changelog {
        Some(cl) => Some((cl.path.clone(), cl.content.clone())),
        None => None,
    };
    match cl_opt {
        Some((cl_path, cl_content)) => {
            let doc = match crate::changelog::parse_changelog(cl_content.as_str()) {
                Ok(d) => d,
                Err(line) => {
                    rt.state.packages.push(pkg);
                    proof {
                        if old(rt).mode is DryRun {
                            assert(rt.state.packages@ =~= packages0);
                        }
                    }
                    return Err(StepError::Changelog(line));
                },
            };
            let newdoc = crate::changelog::add_version(doc, &next, &rt.state.change_entries);
            let new_text = newdoc.render();
            proof {
                crate::changelog::lemma_model_sections_chars(newdoc.sections@);
                assert(new_text@ == spec_new_changelog(
                    cl_content@,
                    next@,
                    rt.state.change_entries@,
                ));
            }
            sink_write(rt, next_str.as_str(), cl_path.as_str(), new_text.as_str());
            proof {
                if old(rt).mode is DryRun {
                    let ver = next_str@;
                    let dl = dry_lines(packages0[0].versioned_files@, ver);
                    assert(crate::changelog::views_of(rt.captured@) =~= crate::changelog::views_of(
                        old(rt).captured@,
                    ) + dl + seq![dry_run_line(cl_path@, ver)]);
                }
            }
            if is_real {
                pkg.changelog = Some(ChangelogFile { path: cl_path, content: new_text });
            }
        },
        None => {
            proof {
                if old(rt).mode is DryRun {
                    let ver = next_str@;
                    let dl = dry_lines(packages0[0].versioned_files@, ver);
                    assert(crate::changelog::views_of(rt.captured@) =~= crate::changelog::views_of(
                        old(rt).captured@,
                    ) + dl + Seq::<Seq<char>>::empty());
                }
            }
        },
    }
    rt.state.packages.push(pkg);
    proof {
        if old(rt).mode is DryRun {
            assert(rt.state.packages@ =~= packages0);
        }
    }
    Ok(())
}

/// The inner content of a release-preparing step: the optional pre-release
/// label the user selected.
#[derive(Debug)]
pub struct PrepareRelease {
    pub prerelease_label: Option<crate::semver::Label>,
}

/// An action a workflow can take.
#[derive(Debug)]
pub enum Step {
    /// Bump the package version under a semantic-versioning rule.
    BumpVersion(crate::semver::Rule),
    /// Classify pending changes into the changelog and bump the version the
    /// changes imply.
    PrepareRelease(PrepareRelease),
}

impl Step {
    /// Runs the step on the given context and returns the advanced context,
    /// or the error that halts the workflow. A dry-run context comes back
    /// with its state and its recorded writes untouched; a real context
    /// comes back with nothing captured.
    pub fn run(self, run_type: RunType) -> (r: Result<RunType, StepError>)
        ensures
            r matches Ok(rt2) ==> rt2.mode == run_type.mode,
            (r is Ok) <==> step_succeeds(
                self,
                run_type.state.packages@,
                run_type.state.change_entries@,
            ),
            run_type.mode is DryRun ==> (r matches Ok(rt2) ==> rt2.state.packages@
                == run_type.state.packages@ && rt2.state.change_entries
                == run_type.state.change_entries && rt2.writes == run_type.writes),
            run_type.mode is Real ==> (r matches Ok(rt2) ==> rt2.captured == run_type.captured),
            r matches Err(e) ==> (e matches StepError::InconsistentVersions(a, b)
                ==> run_type.state.packages@.len() == 1 && a@ != b@ && spec_file_version(
                run_type.state.packages@[0].versioned_files@[0],
            ) == Some(a@) && (exists|i: int|
                0 <= i < run_type.state.packages@[0].versioned_files@.len()
                    && spec_file_version(
                    run_type.state.packages@[0].versioned_files@[i],
                ) == Some(b@))),
            self matches Step::BumpVersion(_) ==> ((run_type.state.packages@.len() == 1
                && run_type.state.packages@[0].versioned_files@.len() > 0 && (forall|i: int|
                0 <= i < run_type.state.packages@[0].versioned_files@.len() ==> (
                #[trigger] spec_file_version(
                    run_type.state.packages@[0].versioned_files@[i],
                )) is Some) && pkg_consistent_version(
                run_type.state.packages@[0].versioned_files@,
            ) is None) ==> (r matches Err(e) && e matches StepError::InconsistentVersions(
                _,
                _,
            ))),
            self matches Step::PrepareRelease(_) ==> ((run_type.state.packages@.len() == 1
                && run_type.state.change_entries@.len() == 0) ==> (r matches Err(e)
                && e is NoRelease)),
            self matches Step::BumpVersion(rule) ==> (r is Ok ==> run_type.state.packages@.len()
                == 1 && spec_bump_target(
                run_type.state.packages@[0].versioned_files@,
                rule,
            ) is Some),
            self matches Step::BumpVersion(rule) ==> (r matches Ok(rt2)
                ==> (run_type.mode is DryRun ==> crate::changelog::views_of(rt2.captured@)
                == crate::changelog::views_of(run_type.captured@) + dry_lines(
                run_type.state.packages@[0].versioned_files@,
                crate::semver::version_chars(
                    spec_bump_target(
                        run_type.state.packages@[0].versioned_files@,
                        rule,
                    ).unwrap(),
                ),
            ))),
            self matches Step::BumpVersion(rule) ==> (r matches Ok(rt2)
                ==> (run_type.mode is Real ==> rt2.state.packages@.len() == 1 && (forall|i: int|
                0 <= i < rt2.state.packages@[0].versioned_files@.len() ==> spec_file_version(
                    #[trigger] rt2.state.packages@[0].versioned_files@[i],
                ) == Some(
                    crate::semver::version_chars(
                        spec_bump_target(
                            run_type.state.packages@[0].versioned_files@,
                            rule,
                        ).unwrap(),
                    ),
                )))),
            self matches Step::PrepareRelease(prep) ==> (r is Ok
                ==> run_type.state.packages@.len() == 1 && spec_prepare_target(
                run_type.state.packages@[0].versioned_files@,
                run_type.state.change_entries@,
                prep.prerelease_label,
            ) is Some),
            self matches Step::PrepareRelease(prep) ==> (r matches Ok(rt2)
                ==> (run_type.mode is Real ==> rt2.state.packages@.len() == 1 && (forall|i: int|
                0 <= i < rt2.state.packages@[0].versioned_files@.len() ==> spec_file_version(
                    #[trigger] rt2.state.packages@[0].versioned_files@[i],
                ) == Some(
                    crate::semver::version_chars(
                        spec_prepare_target(
                            run_type.state.packages@[0].versioned_files@,
                            run_type.state.change_entries@,
                            prep.prerelease_label,
                        ).unwrap(),
                    ),
                )))),
            self matches Step::PrepareRelease(prep) ==> (r matches Ok(rt2)
                ==> (run_type.mode is DryRun ==> crate::changelog::views_of(rt2.captured@)
                == crate::changelog::views_of(run_type.captured@) + dry_lines(
                run_type.state.packages@[0].versioned_files@,
                crate::semver::version_chars(
                    spec_prepare_target(
                        run_type.state.packages@[0].versioned_files@,
                        run_type.state.change_entries@,
                        prep.prerelease_label,
                    ).unwrap(),
                ),
            ) + (match run_type.state.packages@[0].changelog {
                Some(cl) => seq![
                    dry_run_line(
                        cl.path@,
                        crate::semver::version_chars(
                            spec_prepare_target(
                                run_type.state.packages@[0].versioned_files@,
                                run_type.state.change_entries@,
                                prep.prerelease_label,
                            ).unwrap(),
                        ),
                    ),
                ],
                None => Seq::empty(),
            }))),
            self matches Step::PrepareRelease(_) ==> (r matches Err(e) ==> (e is NoRelease
                ==> run_type.state.change_entries@.len() == 0)),
            self matches Step::BumpVersion(_) ==> (r matches Ok(rt2) ==> (run_type.mode is Real
                ==> rt2.state.packages@[0].changelog == run_type.state.packages@[0].changelog)),
            self matches Step::PrepareRelease(prep) ==> (r matches Ok(rt2)
                ==> (run_type.mode is Real ==> (match run_type.state.packages@[0].changelog {
                Some(cl) => rt2.state.packages@[0].changelog matches Some(cl2) && cl2.path@
                    == cl.path@ && cl2.content@ == spec_new_changelog(
                    cl.content@,
                    spec_prepare_target(
                        run_type.state.packages@[0].versioned_files@,
                        run_type.state.change_entries@,
                        prep.prerelease_label,
                    ).unwrap(),
                    run_type.state.change_entries@,
                ),
                None => rt2.state.packages@[0].changelog is None,
            }))),
    {
        let mut rt = run_type;
        let res = match self {
            Step::BumpVersion(rule) => bump_version(&mut rt, &rule),
            Step::PrepareRelease(prep) => prepare_release(&mut rt, &prep),
        };
        match res {
            Ok(()) => Ok(rt),
            Err(e) => Err(e),
        }
    }

    /// Sets the pre-release label if the step prepares a release; any other
    /// step is left as it is.
    pub fn set_prerelease_label(&mut self, prerelease_label: &str)
        ensures
            (*old(self)) matches Step::PrepareRelease(_) ==> (*final(self)) matches Step::PrepareRelease(p)
                && p.prerelease_label matches Some(l) && l.0@ == prerelease_label@,
            !((*old(self)) matches Step::PrepareRelease(_)) ==> *final(self) == *old(self),
    {
        let lab = crate::semver::Label::new(prerelease_label);
        match self {
            Step::PrepareRelease(prep) => {
                prep.prerelease_label = Some(lab);
            },
            _ => {},
        }
    }
}

/// Runs an ordered workflow: each step consumes the context and produces
/// the next; the first failure halts the pipeline and is its terminal
/// result. A dry-run workflow that completes leaves the state and the
/// recorded writes exactly as they were.
pub fn run_workflow(steps: Vec<Step>, run_type: RunType) -> (r: Result<RunType, StepError>)
    ensures
        steps@.len() == 0 ==> (r matches Ok(rt2) && rt2 == run_type),
        steps@.len() == 1 ==> ((r is Ok) <==> step_succeeds(
            steps@[0],
            run_type.state.packages@,
            run_type.state.change_entries@,
        )),
        run_type.mode is DryRun ==> ((r is Ok) <==> (forall|i: int|
            0 <= i < steps@.len() ==> step_succeeds(
                #[trigger] steps@[i],
                run_type.state.packages@,
                run_type.state.change_entries@,
            ))),
        r matches Ok(rt2) ==> rt2.mode == run_type.mode,
        run_type.mode is DryRun ==> (r matches Ok(rt2) ==> rt2.state.packages@
            == run_type.state.packages@ && rt2.state.change_entries
            == run_type.state.change_entries && rt2.writes == run_type.writes),
        run_type.mode is Real ==> (r matches Ok(rt2) ==> rt2.captured == run_type.captured),
{
    let mut pending = steps;
    let mut rt = run_type;
    let ghost rt0 = run_type;
    while pending.len() > 0
        invariant
            pending@.len() <= steps@.len(),
            steps@.len() == 0 ==> rt == rt0,
            rt0 == run_type,
            rt.mode == rt0.mode,
            pending@.len() == steps@.len() ==> rt == rt0 && pending@ == steps@,
            steps@.len() == 1 && pending@.len() == 0 ==> step_succeeds(
                steps@[0],
                run_type.state.packages@,
                run_type.state.change_entries@,
            ),
            pending@ == steps@.skip(steps@.len() - pending@.len()),
            rt0.mode is DryRun ==> (forall|i: int|
                0 <= i < steps@.len() - pending@.len() ==> step_succeeds(
                    #[trigger] steps@[i],
                    rt0.state.packages@,
                    rt0.state.change_entries@,
                )),
            rt0.mode is DryRun ==> rt.state.packages@ == rt0.state.packages@
                && rt.state.change_entries == rt0.state.change_entries && rt.writes
                == rt0.writes,
            rt0.mode is Real ==> rt.captured == rt0.captured,
        decreases pending@.len(),
    {
        let ghost pending0 = pending@;
        let ghost k = steps@.len() - pending@.len();
        let st = pending.remove(0);
        proof {
            assert(pending0[0] == steps@[k]);
            assert(pending@ =~= steps@.skip(k + 1));
        }
        let ghost rt_pre = rt;
        rt = match st.run(rt) {
            Ok(r2) => r2,
            Err(e) => {
                proof {
                    if rt0.mode is DryRun {
                        assert(rt_pre.state.packages@ == rt0.state.packages@);
                        assert(!step_succeeds(
                            steps@[k],
                            rt0.state.packages@,
                            rt0.state.change_entries@,
                        ));
                    }
                }
                return Err(e);
            },
        };
        proof {
            if rt0.mode is DryRun {
                assert(step_succeeds(
                    steps@[k],
                    rt0.state.packages@,
                    rt0.state.change_entries@,
                ));
            }
        }
    }
    Ok(rt)
}

} // verus!
