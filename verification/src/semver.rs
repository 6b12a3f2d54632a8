//! Semantic-version resolution: the `Version` data type, its total order,
//! and the `bump` algebra that advances a version under a `Rule`.
use vstd::prelude::*;

verus! {

/// A pre-release component: the label of the series and the numeric suffix,
/// as in `rc.4`.
#[derive(Debug)]
pub struct PreRelease {
    pub label: String,
    pub number: u64,
}

/// A semantic version `major.minor.patch[-label.number][+build]`.
#[derive(Debug)]
pub struct Version {
    pub major: u64,
    pub minor: u64,
    pub patch: u64,
    pub pre: Option<PreRelease>,
    pub build: Option<String>,
}

/// The mathematical model of a `Version`.
pub ghost struct VersionModel {
    pub major: nat,
    pub minor: nat,
    pub patch: nat,
    pub pre: Option<(Seq<char>, nat)>,
    pub build: Option<Seq<char>>,
}

impl View for Version {
    type V = VersionModel;

    open spec fn view(&self) -> VersionModel {
        VersionModel {
            major: self.major as nat,
            minor: self.minor as nat,
            patch: self.patch as nat,
            pre: match self.pre {
                Some(ref p) => Some((p.label@, p.number as nat)),
                None => None,
            },
            build: match self.build {
                Some(ref b) => Some(b@),
                None => None,
            },
        }
    }
}

/// An instruction describing how to advance a version.
#[derive(Debug)]
pub enum Rule {
    Major,
    Minor,
    Patch,
    Pre(Label),
    Release,
}

/// A pre-release label selected by the user, such as `rc`.
#[derive(Debug)]
pub struct Label(pub String);

impl Label {
    pub fn new(s: &str) -> (r: Label)
        ensures
            r.0@ == s@,
    {
        Label(s.to_owned())
    }
}

/// Strict lexicographic order on character sequences.
pub open spec fn lex_lt(a: Seq<char>, b: Seq<char>) -> bool
    decreases a.len(),
{
    if b.len() == 0 {
        false
    } else if a.len() == 0 {
        true
    } else if (a[0] as int) < (b[0] as int) {
        true
    } else if (a[0] as int) > (b[0] as int) {
        false
    } else {
        lex_lt(a.skip(1), b.skip(1))
    }
}

/// Order on pre-release components: a version without a pre-release outranks
/// one with it; two pre-releases compare by label, then number.
pub open spec fn pre_lt(a: Option<(Seq<char>, nat)>, b: Option<(Seq<char>, nat)>) -> bool {
    match (a, b) {
        (Some(pa), Some(pb)) => lex_lt(pa.0, pb.0) || (pa.0 == pb.0 && pa.1 < pb.1),
        (Some(_), None) => true,
        (None, Some(_)) => false,
        (None, None) => false,
    }
}

/// The total order on versions: major, then minor, then patch, then
/// pre-release (absence outranks presence). Build metadata does not order.
pub open spec fn version_lt(a: VersionModel, b: VersionModel) -> bool {
    if a.major != b.major {
        a.major < b.major
    } else if a.minor != b.minor {
        a.minor < b.minor
    } else if a.patch != b.patch {
        a.patch < b.patch
    } else {
        pre_lt(a.pre, b.pre)
    }
}

/// What `bump` yields, at the model level. `None` marks the one rejected
/// input: promoting a version that carries no pre-release component.
pub open spec fn spec_bump(v: VersionModel, r: Rule) -> Option<VersionModel> {
    match r {
        Rule::Major => Some(
            VersionModel { major: v.major + 1, minor: 0, patch: 0, pre: None, build: None },
        ),
        Rule::Minor => Some(
            VersionModel { major: v.major, minor: v.minor + 1, patch: 0, pre: None, build: None },
        ),
        Rule::Patch => Some(
            VersionModel {
                major: v.major,
                minor: v.minor,
                patch: v.patch + 1,
                pre: None,
                build: None,
            },
        ),
        Rule::Release => match v.pre {
            Some(_) => Some(
                VersionModel {
                    major: v.major,
                    minor: v.minor,
                    patch: v.patch,
                    pre: None,
                    build: None,
                },
            ),
            None => None,
        },
        Rule::Pre(label) => match v.pre {
            None => Some(
                VersionModel {
                    major: v.major,
                    minor: v.minor,
                    patch: v.patch + 1,
                    pre: Some((label.0@, 0)),
                    build: None,
                },
            ),
            Some((l0, n)) => if l0 == label.0@ {
                Some(
                    VersionModel {
                        major: v.major,
                        minor: v.minor,
                        patch: v.patch,
                        pre: Some((l0, n + 1)),
                        build: None,
                    },
                )
            } else {
                Some(
                    VersionModel {
                        major: v.major,
                        minor: v.minor,
                        patch: v.patch,
                        pre: Some((label.0@, 0)),
                        build: None,
                    },
                )
            },
        },
    }
}

/// The one machine limit on `bump`: the component it increments is already
/// at the largest representable value.
pub open spec fn bump_overflows(v: VersionModel, r: Rule) -> bool {
    match r {
        Rule::Major => v.major == u64::MAX,
        Rule::Minor => v.minor == u64::MAX,
        Rule::Patch => v.patch == u64::MAX,
        Rule::Release => false,
        Rule::Pre(label) => match v.pre {
            None => v.patch == u64::MAX,
            Some((l0, _)) => if l0 == label.0@ {
                v.pre.unwrap().1 == u64::MAX
            } else {
                false
            },
        },
    }
}

/// Is `c` a decimal digit?
pub open spec fn is_digit(c: char) -> bool {
    48 <= c as u32 <= 57
}

/// The value of one decimal digit character.
pub open spec fn digit_val(c: char) -> nat {
    (c as u32 - 48) as nat
}

/// The decimal digit character for `d`, which must be below ten.
pub open spec fn digit_char(d: nat) -> char {
    if d == 0 {
        '0'
    } else if d == 1 {
        '1'
    } else if d == 2 {
        '2'
    } else if d == 3 {
        '3'
    } else if d == 4 {
        '4'
    } else if d == 5 {
        '5'
    } else if d == 6 {
        '6'
    } else if d == 7 {
        '7'
    } else if d == 8 {
        '8'
    } else {
        '9'
    }
}

/// The canonical decimal rendering of `n`, without leading zeros.
pub open spec fn dec_chars(n: nat) -> Seq<char>
    decreases n,
{
    if n < 10 {
        seq![digit_char(n)]
    } else {
        dec_chars(n / 10).push(digit_char(n % 10))
    }
}

fn digit_str(d: u64) -> (r: &'static str)
    requires
        d < 10,
    ensures
        r@ == seq![digit_char(d as nat)],
{
    proof {
        reveal_strlit("0");
        reveal_strlit("1");
        reveal_strlit("2");
        reveal_strlit("3");
        reveal_strlit("4");
        reveal_strlit("5");
        reveal_strlit("6");
        reveal_strlit("7");
        reveal_strlit("8");
        reveal_strlit("9");
    }
    if d == 0 {
        proof { assert("0"@ =~= seq![digit_char(d as nat)]); }
        "0"
    } else if d == 1 {
        proof { assert("1"@ =~= seq![digit_char(d as nat)]); }
        "1"
    } else if d == 2 {
        proof { assert("2"@ =~= seq![digit_char(d as nat)]); }
        "2"
    } else if d == 3 {
        proof { assert("3"@ =~= seq![digit_char(d as nat)]); }
        "3"
    } else if d == 4 {
        proof { assert("4"@ =~= seq![digit_char(d as nat)]); }
        "4"
    } else if d == 5 {
        proof { assert("5"@ =~= seq![digit_char(d as nat)]); }
        "5"
    } else if d == 6 {
        proof { assert("6"@ =~= seq![digit_char(d as nat)]); }
        "6"
    } else if d == 7 {
        proof { assert("7"@ =~= seq![digit_char(d as nat)]); }
        "7"
    } else if d == 8 {
        proof { assert("8"@ =~= seq![digit_char(d as nat)]); }
        "8"
    } else {
        proof { assert("9"@ =~= seq![digit_char(d as nat)]); }
        "9"
    }
}

/// Renders `n` in decimal.
pub(crate) fn u64_to_string(n: u64) -> (r: String)
    ensures
        r@ == dec_chars(n as nat),
    decreases n,
{
    if n < 10 {
        digit_str(n).to_owned()
    } else {
        let mut s = u64_to_string(n / 10);
        s.append(digit_str(n % 10));
        proof {
            assert(s@ =~= dec_chars((n / 10) as nat).push(digit_char((n % 10) as nat)));
        }
        s
    }
}

/// The canonical text of a version: `major.minor.patch`, then `-label.number`
/// for a pre-release, then `+build` for build metadata.
pub open spec fn version_chars(v: VersionModel) -> Seq<char> {
    dec_chars(v.major) + seq!['.'] + dec_chars(v.minor) + seq!['.'] + dec_chars(v.patch) + (match v
        .pre {
        Some((l, n)) => seq!['-'] + l + seq!['.'] + dec_chars(n),
        None => Seq::empty(),
    }) + (match v.build {
        Some(b) => seq!['+'] + b,
        None => Seq::empty(),
    })
}

impl Version {
    /// Renders the version as its canonical string.
    pub fn render(&self) -> (r: String)
        ensures
            r@ == version_chars(self@),
    {
        proof {
            reveal_strlit(".");
            reveal_strlit("-");
            reveal_strlit("+");
        }
        let mut s = u64_to_string(self.major);
        s.append(".");
        let minor = u64_to_string(self.minor);
        s.append(minor.as_str());
        s.append(".");
        let patch = u64_to_string(self.patch);
        s.append(patch.as_str());
        match self.pre {
            Some(ref p) => {
                s.append("-");
                s.append(p.label.as_str());
                s.append(".");
                let num = u64_to_string(p.number);
                s.append(num.as_str());
            },
            None => {},
        }
        match self.build {
            Some(ref b) => {
                s.append("+");
                s.append(b.as_str());
            },
            None => {},
        }
        proof {
            assert(s@ =~= version_chars(self@));
        }
        s
    }

    /// Advances the version under `rule`, per the resolution algebra: stable
    /// rules zero the lower components and clear pre-release and build
    /// metadata; a pre-release rule opens, continues, or switches a series;
    /// `Release` promotes a pre-release to its stable form. Rejects a
    /// `Release` of a version with no pre-release component, and any bump
    /// whose incremented component cannot grow further.
    pub fn bump(&self, rule: &Rule) -> (r: Result<Version, crate::step::StepError>)
        ensures
            r matches Ok(w) ==> spec_bump(self@, *rule) == Some(w@) && !bump_overflows(
                self@,
                *rule,
            ),
            r is Err ==> spec_bump(self@, *rule) is None || bump_overflows(self@, *rule),
            r matches Err(e) ==> e matches crate::step::StepError::InvalidSemanticVersion(_)
                || e matches crate::step::StepError::InvalidPreReleaseVersion(_),
            (r is Ok) <==> (spec_bump(self@, *rule) is Some && !bump_overflows(self@, *rule)),
    {
        match rule {
            Rule::Major => {
                if self.major == u64::MAX {
                    Err(crate::step::StepError::InvalidSemanticVersion(self.render()))
                } else {
                    Ok(
                        Version {
                            major: self.major + 1,
                            minor: 0,
                            patch: 0,
                            pre: None,
                            build: None,
                        },
                    )
                }
            },
            Rule::Minor => {
                if self.minor == u64::MAX {
                    Err(crate::step::StepError::InvalidSemanticVersion(self.render()))
                } else {
                    Ok(
                        Version {
                            major: self.major,
                            minor: self.minor + 1,
                            patch: 0,
                            pre: None,
                            build: None,
                        },
                    )
                }
            },
            Rule::Patch => {
                if self.patch == u64::MAX {
                    Err(crate::step::StepError::InvalidSemanticVersion(self.render()))
                } else {
                    Ok(
                        Version {
                            major: self.major,
                            minor: self.minor,
                            patch: self.patch + 1,
                            pre: None,
                            build: None,
                        },
                    )
                }
            },
            Rule::Release => {
                match self.pre {
                    Some(_) => Ok(
                        Version {
                            major: self.major,
                            minor: self.minor,
                            patch: self.patch,
                            pre: None,
                            build: None,
                        },
                    ),
                    None => Err(crate::step::StepError::InvalidPreReleaseVersion(self.render())),
                }
            },
            Rule::Pre(label) => {
                match self.pre {
                    None => {
                        if self.patch == u64::MAX {
                            Err(crate::step::StepError::InvalidSemanticVersion(self.render()))
                        } else {
                            Ok(
                                Version {
                                    major: self.major,
                                    minor: self.minor,
                                    patch: self.patch + 1,
                                    pre: Some(
                                        PreRelease { label: label.0.clone(), number: 0 },
                                    ),
                                    build: None,
                                },
                            )
                        }
                    },
                    Some(ref p) => {
                        if p.label.eq(&label.0) {
                            if p.number == u64::MAX {
                                Err(
                                    crate::step::StepError::InvalidPreReleaseVersion(
                                        self.render(),
                                    ),
                                )
                            } else {
                                Ok(
                                    Version {
                                        major: self.major,
                                        minor: self.minor,
                                        patch: self.patch,
                                        pre: Some(
                                            PreRelease {
                                                label: p.label.clone(),
                                                number: p.number + 1,
                                            },
                                        ),
                                        build: None,
                                    },
                                )
                            }
                        } else {
                            Ok(
                                Version {
                                    major: self.major,
                                    minor: self.minor,
                                    patch: self.patch,
                                    pre: Some(
                                        PreRelease { label: label.0.clone(), number: 0 },
                                    ),
                                    build: None,
                                },
                            )
                        }
                    },
                }
            },
        }
    }
}

/// Law: a `Major`, `Minor` or `Patch` bump always succeeds at the model
/// level, yields a strictly greater version under the defined order, and the
/// result carries no pre-release component.
pub proof fn lemma_stable_bump_strictly_increases(v: VersionModel, rule: Rule)
    requires
        rule is Major || rule is Minor || rule is Patch,
    ensures
        spec_bump(v, rule) is Some,
        version_lt(v, spec_bump(v, rule).unwrap()),
        spec_bump(v, rule).unwrap().pre is None,
{
}

/// Law: bumping a version with no pre-release component by `Pre(label)`
/// increments the patch component and opens the series at number zero; the
/// result is strictly greater.
pub proof fn lemma_pre_bump_opens_series(v: VersionModel, rule: Rule)
    requires
        v.pre is None,
        rule matches Rule::Pre(_),
    ensures
        spec_bump(v, rule) == Some(
            VersionModel {
                major: v.major,
                minor: v.minor,
                patch: v.patch + 1,
                pre: Some((rule->Pre_0.0@, 0nat)),
                build: None,
            },
        ),
        version_lt(v, spec_bump(v, rule).unwrap()),
{
}

/// Law: bumping a version whose pre-release series matches the rule's label
/// increments only the numeric suffix; major, minor and patch stay put, and
/// the result is strictly greater.
pub proof fn lemma_pre_bump_continues_series(v: VersionModel, rule: Rule)
    requires
        v.pre is Some,
        rule matches Rule::Pre(l) && l.0@ == v.pre.unwrap().0,
    ensures
        spec_bump(v, rule) == Some(
            VersionModel {
                major: v.major,
                minor: v.minor,
                patch: v.patch,
                pre: Some((v.pre.unwrap().0, v.pre.unwrap().1 + 1)),
                build: None,
            },
        ),
        version_lt(v, spec_bump(v, rule).unwrap()),
{
}

/// Law: promoting a pre-release with `Release` strips the pre-release
/// component, keeps major, minor and patch, and yields a strictly greater
/// version, since absence of a pre-release outranks presence.
pub proof fn lemma_release_promotes(v: VersionModel)
    requires
        v.pre is Some,
    ensures
        spec_bump(v, Rule::Release) == Some(
            VersionModel {
                major: v.major,
                minor: v.minor,
                patch: v.patch,
                pre: None,
                build: None,
            },
        ),
        version_lt(v, spec_bump(v, Rule::Release).unwrap()),
{
}

/// The least index of `c` in `s`, if any.
pub open spec fn find_char(s: Seq<char>, c: char) -> Option<int>
    decreases s.len(),
{
    if s.len() == 0 {
        None
    } else if s[0] == c {
        Some(0)
    } else {
        match find_char(s.skip(1), c) {
            Some(i) => Some(i + 1),
            None => None,
        }
    }
}

/// The greatest index of `c` in `s`, if any.
pub open spec fn rfind_char(s: Seq<char>, c: char) -> Option<int>
    decreases s.len(),
{
    if s.len() == 0 {
        None
    } else if s[s.len() - 1] == c {
        Some(s.len() - 1)
    } else {
        rfind_char(s.drop_last(), c)
    }
}

pub proof fn lemma_find_char(s: Seq<char>, c: char)
    ensures
        match find_char(s, c) {
            Some(i) => 0 <= i < s.len() && s[i] == c && (forall|j: int| 0 <= j < i ==> s[j] != c),
            None => forall|j: int| 0 <= j < s.len() ==> s[j] != c,
        },
    decreases s.len(),
{
    if s.len() != 0 && s[0] != c {
        lemma_find_char(s.skip(1), c);
        let t = s.skip(1);
        match find_char(t, c) {
            Some(i) => {
                assert forall|j: int| 0 <= j < i + 1 implies s[j] != c by {
                    if j > 0 {
                        assert(t[j - 1] != c);
                    }
                }
            },
            None => {
                assert forall|j: int| 0 <= j < s.len() implies s[j] != c by {
                    if j > 0 {
                        assert(t[j - 1] != c);
                    }
                }
            },
        }
    }
}

pub proof fn lemma_rfind_char(s: Seq<char>, c: char)
    ensures
        match rfind_char(s, c) {
            Some(i) => 0 <= i < s.len() && s[i] == c && (forall|j: int|
                i < j < s.len() ==> s[j] != c),
            None => forall|j: int| 0 <= j < s.len() ==> s[j] != c,
        },
    decreases s.len(),
{
    if s.len() != 0 && s[s.len() - 1] != c {
        lemma_rfind_char(s.drop_last(), c);
        let t = s.drop_last();
        match rfind_char(t, c) {
            Some(i) => {
                assert forall|j: int| i < j < s.len() implies s[j] != c by {
                    if j < s.len() - 1 {
                        assert(t[j] != c);
                    }
                }
            },
            None => {
                assert forall|j: int| 0 <= j < s.len() implies s[j] != c by {
                    if j < s.len() - 1 {
                        assert(t[j] != c);
                    }
                }
            },
        }
    }
}

/// Does `s` consist of decimal digits only?
pub open spec fn all_digits(s: Seq<char>) -> bool {
    forall|i: int| 0 <= i < s.len() ==> is_digit(s[i])
}

/// The value of a digit string, most significant digit first.
pub open spec fn digits_val(s: Seq<char>) -> nat
    decreases s.len(),
{
    if s.len() == 0 {
        0
    } else {
        10 * digits_val(s.drop_last()) + digit_val(s.last())
    }
}

/// Is `s` a numeric component a version can hold: nonempty, digits only, and
/// representable in a word?
pub open spec fn is_num(s: Seq<char>) -> bool {
    s.len() > 0 && all_digits(s) && digits_val(s) <= u64::MAX
}

/// The `major.minor.patch` core of a version string: two dot-separated cuts,
/// each part a numeric component.
pub open spec fn spec_parse_mmp(core: Seq<char>) -> Option<(nat, nat, nat)> {
    match find_char(core, '.') {
        None => None,
        Some(i) => {
            let rest = core.skip(i + 1);
            match find_char(rest, '.') {
                None => None,
                Some(j) => {
                    let a = core.take(i);
                    let b = rest.take(j);
                    let c = rest.skip(j + 1);
                    if is_num(a) && is_num(b) && is_num(c) {
                        Some((digits_val(a), digits_val(b), digits_val(c)))
                    } else {
                        None
                    }
                },
            }
        },
    }
}

/// A pre-release suffix `label.number`: the label is everything before the
/// last dot and must be nonempty; the rest is a numeric component.
pub open spec fn spec_parse_pre(p: Seq<char>) -> Option<(Seq<char>, nat)> {
    match rfind_char(p, '.') {
        None => None,
        Some(k) => {
            let label = p.take(k);
            let num = p.skip(k + 1);
            if k > 0 && is_num(num) {
                Some((label, digits_val(num)))
            } else {
                None
            }
        },
    }
}

/// The grammar of a version string: a `major.minor.patch` core, optionally
/// followed by `-label.number`, optionally followed by `+build`. The first
/// `+` starts the build metadata; the first `-` before it starts the
/// pre-release suffix.
pub open spec fn spec_parse_version(s: Seq<char>) -> Option<VersionModel> {
    let core_pre = match find_char(s, '+') {
        Some(i) => s.take(i),
        None => s,
    };
    let build = match find_char(s, '+') {
        Some(i) => Some(s.skip(i + 1)),
        None => None,
    };
    let core = match find_char(core_pre, '-') {
        Some(i) => core_pre.take(i),
        None => core_pre,
    };
    let pre = match find_char(core_pre, '-') {
        Some(i) => Some(core_pre.skip(i + 1)),
        None => None,
    };
    match spec_parse_mmp(core) {
        None => None,
        Some(mmp) => match pre {
            None => Some(
                VersionModel {
                    major: mmp.0,
                    minor: mmp.1,
                    patch: mmp.2,
                    pre: None,
                    build,
                },
            ),
            Some(p) => match spec_parse_pre(p) {
                None => None,
                Some(lp) => Some(
                    VersionModel {
                        major: mmp.0,
                        minor: mmp.1,
                        patch: mmp.2,
                        pre: Some(lp),
                        build,
                    },
                ),
            },
        },
    }
}

/// Does `s` fail only in its pre-release suffix: the core parses, a suffix is
/// present, and the suffix does not parse?
pub open spec fn pre_suffix_malformed(s: Seq<char>) -> bool {
    let core_pre = match find_char(s, '+') {
        Some(i) => s.take(i),
        None => s,
    };
    match find_char(core_pre, '-') {
        None => false,
        Some(i) => spec_parse_mmp(core_pre.take(i)) is Some && spec_parse_pre(
            core_pre.skip(i + 1),
        ) is None,
    }
}

pub proof fn lemma_digits_val_grows(s: Seq<char>, k: int)
    requires
        0 <= k <= s.len(),
    ensures
        digits_val(s) >= digits_val(s.take(k)),
    decreases s.len(),
{
    if k < s.len() {
        lemma_digits_val_grows(s.drop_last(), k);
        assert(s.drop_last().take(k) =~= s.take(k));
    } else {
        assert(s.take(k) =~= s);
    }
}

pub(crate) fn chars_of(s: &str) -> (v: Vec<char>)
    ensures
        v@ == s@,
{
    let n = s.unicode_len();
    let mut v: Vec<char> = Vec::new();
    let mut i: usize = 0;
    while i < n
        invariant
            0 <= i <= n,
            n == s@.len(),
            v@ == s@.take(i as int),
        decreases n - i,
    {
        v.push(s.get_char(i));
        i += 1;
        proof {
            assert(v@ =~= s@.take(i as int));
        }
    }
    proof {
        assert(v@ =~= s@);
    }
    v
}

pub(crate) fn find_in(v: &Vec<char>, from: usize, to: usize, c: char) -> (r: Option<usize>)
    requires
        from <= to <= v@.len(),
    ensures
        match r {
            Some(i) => from <= i < to && v@[i as int] == c && (forall|j: int|
                from <= j < i ==> v@[j] != c),
            None => forall|j: int| from <= j < to ==> v@[j] != c,
        },
{
    let mut i = from;
    while i < to
        invariant
            from <= i <= to <= v@.len(),
            forall|j: int| from <= j < i ==> v@[j] != c,
        decreases to - i,
    {
        if v[i] == c {
            return Some(i);
        }
        i += 1;
    }
    None
}

fn rfind_in(v: &Vec<char>, from: usize, to: usize, c: char) -> (r: Option<usize>)
    requires
        from <= to <= v@.len(),
    ensures
        match r {
            Some(i) => from <= i < to && v@[i as int] == c && (forall|j: int|
                i < j < to ==> v@[j] != c),
            None => forall|j: int| from <= j < to ==> v@[j] != c,
        },
{
    let mut i = to;
    while i > from
        invariant
            from <= i <= to <= v@.len(),
            forall|j: int| i <= j < to ==> v@[j] != c,
        decreases i,
    {
        i -= 1;
        if v[i] == c {
            return Some(i);
        }
    }
    None
}

fn parse_u64(v: &Vec<char>, from: usize, to: usize) -> (r: Option<u64>)
    requires
        from <= to <= v@.len(),
    ensures
        match r {
            Some(n) => is_num(v@.subrange(from as int, to as int)) && n as nat == digits_val(
                v@.subrange(from as int, to as int),
            ),
            None => !is_num(v@.subrange(from as int, to as int)),
        },
{
    if from == to {
        return None;
    }
    let mut n: u64 = 0;
    let mut i = from;
    while i < to
        invariant
            from <= i <= to <= v@.len(),
            from < to,
            all_digits(v@.subrange(from as int, i as int)),
            n as nat == digits_val(v@.subrange(from as int, i as int)),
        decreases to - i,
    {
        let c = v[i];
        let u = c as u32;
        if u < 48 || u > 57 {
            proof {
                assert(v@.subrange(from as int, to as int)[i - from] == v@[i as int]);
            }
            return None;
        }
        let d = (u - 48) as u64;
        proof {
            vstd::arithmetic::div_mod::lemma_fundamental_div_mod(
                u64::MAX as int - d as int,
                10,
            );
        }
        if n > (u64::MAX - d) / 10 {
            proof {
                let s = v@.subrange(from as int, to as int);
                let pfx = v@.subrange(from as int, i + 1 as int);
                assert(pfx.drop_last() =~= v@.subrange(from as int, i as int));
                assert(pfx.last() == v@[i as int]);
                assert(digits_val(pfx) == 10 * (n as nat) + digit_val(v@[i as int]));
                lemma_digits_val_grows(s, i + 1 - from);
                assert(s.take(i + 1 - from) =~= pfx);
            }
            return None;
        }
        n = n * 10 + d;
        i += 1;
        proof {
            let pfx = v@.subrange(from as int, i as int);
            assert(pfx.drop_last() =~= v@.subrange(from as int, i - 1));
            assert(pfx.last() == v@[i - 1]);
            assert forall|j: int| 0 <= j < pfx.len() implies is_digit(pfx[j]) by {
                if j < pfx.len() - 1 {
                    assert(v@.subrange(from as int, i - 1)[j] == pfx[j]);
                } else {
                    assert(pfx[j] == v@[i - 1]);
                }
            }
        }
    }
    Some(n)
}

/// Parses a version string. Succeeds exactly on strings the version grammar
/// admits; a string whose only fault lies in its pre-release suffix is
/// reported with the dedicated pre-release error, any other fault as an
/// invalid semantic version, both naming the offending text.
#[verifier::rlimit(100)]
pub fn parse_version(s: &str) -> (r: Result<Version, crate::step::StepError>)
    ensures
        r matches Ok(v) ==> spec_parse_version(s@) == Some(v@),
        (r is Ok) <==> (spec_parse_version(s@) is Some),
        r matches Err(e) ==> if pre_suffix_malformed(s@) {
            e matches crate::step::StepError::InvalidPreReleaseVersion(m) && m@ == s@
        } else {
            e matches crate::step::StepError::InvalidSemanticVersion(m) && m@ == s@
        },
{
    let v = chars_of(s);
    let n = v.len();
    proof {
        assert(s@.take(n as int) =~= s@);
    }
    let plus = find_in(&v, 0, n, '+');
    proof {
        lemma_find_char(s@, '+');
    }
    let pe: usize = match plus {
        Some(i) => i,
        None => n,
    };
    proof {
        match plus {
            Some(i) => {
                assert(find_char(s@, '+') == Some(i as int));
            },
            None => {
                assert(find_char(s@, '+') is None);
            },
        }
    }
    let ghost core_pre: Seq<char> = s@.take(pe as int);
    let build: Option<String> = match plus {
        Some(i) => Some(s.substring_char(i + 1, n).to_owned()),
        None => None,
    };
    let dash = find_in(&v, 0, pe, '-');
    proof {
        lemma_find_char(core_pre, '-');
        match dash {
            Some(i) => {
                assert(core_pre[i as int] == s@[i as int]);
                assert(find_char(core_pre, '-') == Some(i as int));
            },
            None => {
                assert(find_char(core_pre, '-') is None);
            },
        }
    }
    let de: usize = match dash {
        Some(i) => i,
        None => pe,
    };
    let ghost core: Seq<char> = s@.take(de as int);
    proof {
        assert(core_pre.take(de as int) =~= core);
    }
    let dot1 = find_in(&v, 0, de, '.');
    proof {
        lemma_find_char(core, '.');
        match dot1 {
            Some(i) => {
                assert(core[i as int] == s@[i as int]);
                assert forall|j: int| 0 <= j < i implies core[j] != '.' by {
                    assert(core[j] == s@[j]);
                }
                assert(find_char(core, '.') == Some(i as int));
            },
            None => {
                assert forall|j: int| 0 <= j < core.len() implies core[j] != '.' by {
                    assert(core[j] == s@[j]);
                }
                assert(find_char(core, '.') is None);
            },
        }
    }
    let i1: usize = match dot1 {
        Some(i) => i,
        None => {
            return Err(crate::step::StepError::InvalidSemanticVersion(s.to_owned()));
        },
    };
    let ghost rest: Seq<char> = core.skip(i1 + 1);
    let dot2 = find_in(&v, i1 + 1, de, '.');
    proof {
        lemma_find_char(rest, '.');
        match dot2 {
            Some(i) => {
                assert(rest[i - i1 - 1] == s@[i as int]);
                assert forall|j: int| 0 <= j < i - i1 - 1 implies rest[j] != '.' by {
                    assert(rest[j] == s@[j + i1 + 1]);
                }
                assert(find_char(rest, '.') == Some(i - i1 - 1));
            },
            None => {
                assert forall|j: int| 0 <= j < rest.len() implies rest[j] != '.' by {
                    assert(rest[j] == s@[j + i1 + 1]);
                }
                assert(find_char(rest, '.') is None);
            },
        }
    }
    let i2: usize = match dot2 {
        Some(i) => i,
        None => {
            return Err(crate::step::StepError::InvalidSemanticVersion(s.to_owned()));
        },
    };
    let major = parse_u64(&v, 0, i1);
    let minor = parse_u64(&v, i1 + 1, i2);
    let patch = parse_u64(&v, i2 + 1, de);
    proof {
        assert(v@.subrange(0, i1 as int) =~= core.take(i1 as int));
        assert(v@.subrange(i1 + 1, i2 as int) =~= rest.take(i2 - i1 - 1));
        assert(v@.subrange(i2 + 1, de as int) =~= rest.skip(i2 - i1));
    }
    let (ma, mi, pa) = match (major, minor, patch) {
        (Some(ma), Some(mi), Some(pa)) => (ma, mi, pa),
        _ => {
            return Err(crate::step::StepError::InvalidSemanticVersion(s.to_owned()));
        },
    };
    proof {
        assert(spec_parse_mmp(core) == Some((ma as nat, mi as nat, pa as nat)));
    }
    let pre: Option<PreRelease> = match dash {
        Some(ds) => {
            let ghost p: Seq<char> = core_pre.skip(ds + 1);
            let dot = rfind_in(&v, ds + 1, pe, '.');
            proof {
                lemma_rfind_char(p, '.');
                match dot {
                    Some(k) => {
                        assert(p[k - ds - 1] == s@[k as int]);
                        assert forall|j: int| k - ds - 1 < j < p.len() implies p[j] != '.' by {
                            assert(p[j] == s@[j + ds + 1]);
                        }
                        assert(rfind_char(p, '.') == Some(k - ds - 1));
                    },
                    None => {
                        assert forall|j: int| 0 <= j < p.len() implies p[j] != '.' by {
                            assert(p[j] == s@[j + ds + 1]);
                        }
                        assert(rfind_char(p, '.') is None);
                    },
                }
            }
            match dot {
                Some(k) => {
                    if k > ds + 1 {
                        match parse_u64(&v, k + 1, pe) {
                            Some(num) => {
                                proof {
                                    assert(v@.subrange(k + 1, pe as int) =~= p.skip(k - ds));
                                    assert(s@.subrange(ds + 1, k as int) =~= p.take(k - ds - 1));
                                    assert(spec_parse_pre(p) == Some(
                                        (p.take(k - ds - 1), num as nat),
                                    ));
                                }
                                Some(
                                    PreRelease {
                                        label: s.substring_char(ds + 1, k).to_owned(),
                                        number: num,
                                    },
                                )
                            },
                            None => {
                                proof {
                                    assert(v@.subrange(k + 1, pe as int) =~= p.skip(k - ds));
                                    assert(spec_parse_pre(p) is None);
                                }
                                return Err(
                                    crate::step::StepError::InvalidPreReleaseVersion(
                                        s.to_owned(),
                                    ),
                                );
                            },
                        }
                    } else {
                        proof {
                            assert(spec_parse_pre(p) is None);
                        }
                        return Err(
                            crate::step::StepError::InvalidPreReleaseVersion(s.to_owned()),
                        );
                    }
                },
                None => {
                    proof {
                        assert(spec_parse_pre(p) is None);
                    }
                    return Err(
                        crate::step::StepError::InvalidPreReleaseVersion(s.to_owned()),
                    );
                },
            }
        },
        None => None,
    };
    let ver = Version { major: ma, minor: mi, patch: pa, pre, build };
    proof {
        match plus {
            Some(i) => {
                assert(s@.subrange(i + 1, s@.len() as int) =~= s@.skip(i + 1));
            },
            None => {},
        }
        assert(spec_parse_version(s@) == Some(ver@));
    }
    Ok(ver)
}

} // verus!
