//! The changelog document: version-headed sections of category-grouped
//! bullets, a parser for the on-disk text, a canonical renderer, and the
//! merge that folds newly classified changes into the document.
use vstd::prelude::*;

verus! {

/// The category of one classified change.
#[derive(Clone, Copy, PartialEq, Eq, Structural, Debug)]
pub enum Category {
    Breaking,
    Feature,
    Fix,
    Other,
}

/// Where a change entry was classified from.
#[derive(Clone, Copy, PartialEq, Eq, Structural, Debug)]
pub enum ChangeSource {
    Commit,
    ChangeFile,
}

/// One classified unit of release-note content.
#[derive(Debug)]
pub struct ChangeEntry {
    pub category: Category,
    pub description: String,
    pub source: ChangeSource,
}

/// One category-headed subsection: a fixed title and its bullets in
/// chronological order.
#[derive(Debug)]
pub struct CategorySection {
    pub category: Category,
    pub bullets: Vec<String>,
}

/// One version-headed section.
#[derive(Debug)]
pub struct Section {
    pub version: String,
    pub categories: Vec<CategorySection>,
}

/// The changelog: any text before the first section kept verbatim, then the
/// sections, newest first.
#[derive(Debug)]
pub struct ChangelogDocument {
    pub preamble: String,
    pub sections: Vec<Section>,
}

/// The fixed heading of each category.
pub open spec fn title_chars(c: Category) -> Seq<char> {
    match c {
        Category::Breaking => "Breaking Changes"@,
        Category::Feature => "Features"@,
        Category::Fix => "Fixes"@,
        Category::Other => "Other"@,
    }
}

/// The rendering of a bullet list: one `- ` line per bullet.
pub open spec fn bullets_chars(bs: Seq<Seq<char>>) -> Seq<char>
    decreases bs.len(),
{
    if bs.len() == 0 {
        Seq::empty()
    } else {
        bullets_chars(bs.drop_last()) + "- "@ + bs.last() + "\n"@
    }
}

/// The rendering of one category subsection.
pub open spec fn cat_chars(c: CategorySection) -> Seq<char> {
    "\n### "@ + title_chars(c.category) + "\n\n"@ + bullets_chars(views_of(c.bullets@))
}

/// The rendering of a sequence of category subsections.
pub open spec fn cats_chars(cs: Seq<CategorySection>) -> Seq<char>
    decreases cs.len(),
{
    if cs.len() == 0 {
        Seq::empty()
    } else {
        cats_chars(cs.drop_last()) + cat_chars(cs.last())
    }
}

/// The rendering of one section: its heading line, then its subsections.
pub open spec fn section_chars(s: Section) -> Seq<char> {
    "## "@ + s.version@ + "\n"@ + cats_chars(s.categories@)
}

/// The rendering of the section list, a blank line between sections.
pub open spec fn sections_chars(ss: Seq<Section>) -> Seq<char>
    decreases ss.len(),
{
    if ss.len() == 0 {
        Seq::empty()
    } else if ss.len() == 1 {
        section_chars(ss[0])
    } else {
        sections_chars(ss.drop_last()) + "\n"@ + section_chars(ss.last())
    }
}

/// The rendering of the whole document.
pub open spec fn doc_chars(d: ChangelogDocument) -> Seq<char> {
    d.preamble@ + sections_chars(d.sections@)
}

/// All bullets that subsections of category `c` hold, in order.
pub open spec fn cat_bullets(cs: Seq<CategorySection>, c: Category) -> Seq<Seq<char>>
    decreases cs.len(),
{
    if cs.len() == 0 {
        Seq::empty()
    } else {
        cat_bullets(cs.drop_last(), c) + if cs.last().category == c {
            views_of(cs.last().bullets@)
        } else {
            Seq::empty()
        }
    }
}

/// The descriptions of the entries of category `c`, in their given order.
pub open spec fn entries_for(es: Seq<ChangeEntry>, c: Category) -> Seq<Seq<char>>
    decreases es.len(),
{
    if es.len() == 0 {
        Seq::empty()
    } else {
        entries_for(es.drop_last(), c) + if es.last().category == c {
            seq![es.last().description@]
        } else {
            Seq::empty()
        }
    }
}

pub proof fn lemma_cat_bullets_push(cs: Seq<CategorySection>, x: CategorySection, c: Category)
    ensures
        cat_bullets(cs.push(x), c) == cat_bullets(cs, c) + if x.category == c {
            views_of(x.bullets@)
        } else {
            Seq::<Seq<char>>::empty()
        },
{
    assert(cs.push(x).drop_last() =~= cs);
    assert(cs.push(x).last() == x);
}

/// The character sequences of a list of strings.
pub open spec fn views_of(bs: Seq<String>) -> Seq<Seq<char>> {
    bs.map_values(|b: String| b@)
}

pub proof fn lemma_views_of_push(a: Seq<String>, x: String)
    ensures
        views_of(a.push(x)) == views_of(a).push(x@),
{
    assert(views_of(a.push(x)) =~= views_of(a).push(x@));
}

/// The fixed heading text of a category.
pub fn category_title(c: Category) -> (r: &'static str)
    ensures
        r@ == title_chars(c),
{
    match c {
        Category::Breaking => "Breaking Changes",
        Category::Feature => "Features",
        Category::Fix => "Fixes",
        Category::Other => "Other",
    }
}

fn render_category(c: &CategorySection) -> (r: String)
    ensures
        r@ == cat_chars(*c),
{
    let mut out = "\n### ".to_owned();
    out.append(category_title(c.category));
    out.append("\n\n");
    let mut k: usize = 0;
    while k < c.bullets.len()
        invariant
            k <= c.bullets.len(),
            out@ == "\n### "@ + title_chars(c.category) + "\n\n"@ + bullets_chars(
                views_of(c.bullets@).take(k as int),
            ),
        decreases c.bullets.len() - k,
    {
        out.append("- ");
        out.append(c.bullets[k].as_str());
        out.append("\n");
        k += 1;
        proof {
            let bv = views_of(c.bullets@);
            assert(bv.take(k as int).drop_last() =~= bv.take(k - 1));
            assert(bv.take(k as int).last() == c.bullets@[k - 1]@);
            assert(out@ =~= "\n### "@ + title_chars(c.category) + "\n\n"@ + bullets_chars(
                bv.take(k as int),
            ));
        }
    }
    proof {
        assert(views_of(c.bullets@).take(c.bullets@.len() as int) =~= views_of(c.bullets@));
    }
    out
}

fn render_section(s: &Section) -> (r: String)
    ensures
        r@ == section_chars(*s),
{
    let mut out = "## ".to_owned();
    out.append(s.version.as_str());
    out.append("\n");
    let mut j: usize = 0;
    while j < s.categories.len()
        invariant
            j <= s.categories.len(),
            out@ == "## "@ + s.version@ + "\n"@ + cats_chars(s.categories@.take(j as int)),
        decreases s.categories.len() - j,
    {
        let cat_text = render_category(&s.categories[j]);
        out.append(cat_text.as_str());
        j += 1;
        proof {
            assert(s.categories@.take(j as int).drop_last() =~= s.categories@.take(j - 1));
            assert(s.categories@.take(j as int).last() == s.categories@[j - 1]);
            assert(out@ =~= "## "@ + s.version@ + "\n"@ + cats_chars(
                s.categories@.take(j as int),
            ));
        }
    }
    proof {
        assert(s.categories@.take(s.categories@.len() as int) =~= s.categories@);
    }
    out
}

impl ChangelogDocument {
    /// Renders the document to its canonical text; the text is a pure
    /// function of the document, so re-rendering an unchanged document
    /// yields byte-identical output.
    pub fn render(&self) -> (r: String)
        ensures
            r@ == doc_chars(*self),
    {
        let mut out = self.preamble.clone();
        let mut i: usize = 0;
        while i < self.sections.len()
            invariant
                i <= self.sections.len(),
                out@ == self.preamble@ + sections_chars(self.sections@.take(i as int)),
            decreases self.sections.len() - i,
        {
            if i > 0 {
                out.append("\n");
            }
            let sec_text = render_section(&self.sections[i]);
            out.append(sec_text.as_str());
            i += 1;
            proof {
                assert(self.sections@.take(i as int).drop_last() =~= self.sections@.take(i - 1));
                assert(self.sections@.take(i as int).last() == self.sections@[i - 1]);
                assert(out@ =~= self.preamble@ + sections_chars(self.sections@.take(i as int)));
            }
        }
        proof {
            assert(self.sections@.take(self.sections@.len() as int) =~= self.sections@);
        }
        out
    }
}

fn collect_cat_bullets(cats: &Vec<CategorySection>, c: Category) -> (r: Vec<String>)
    ensures
        views_of(r@) == cat_bullets(cats@, c),
{
    let mut out: Vec<String> = Vec::new();
    let mut i: usize = 0;
    while i < cats.len()
        invariant
            i <= cats.len(),
            views_of(out@) == cat_bullets(cats@.take(i as int), c),
        decreases cats.len() - i,
    {
        if cats[i].category == c {
            let mut k: usize = 0;
            while k < cats[i].bullets.len()
                invariant
                    i < cats.len(),
                    k <= cats@[i as int].bullets@.len(),
                    cats@[i as int].category == c,
                    views_of(out@) == cat_bullets(cats@.take(i as int), c) + views_of(
                        cats@[i as int].bullets@,
                    ).take(k as int),
                decreases cats@[i as int].bullets@.len() - k,
            {
                let ghost out_pre = out@;
                out.push(cats[i].bullets[k].clone());
                k += 1;
                proof {
                    let bv = views_of(cats@[i as int].bullets@);
                    assert(bv.take(k as int).drop_last() =~= bv.take(k - 1));
                    assert(bv.take(k as int).last() == cats@[i as int].bullets@[k - 1]@);
                    lemma_views_of_push(out_pre, out@.last());
                    assert(out@ == out_pre.push(out@.last()));
                    assert(views_of(out@) =~= cat_bullets(cats@.take(i as int), c) + bv.take(
                        k as int,
                    ));
                }
            }
            proof {
                let bv = views_of(cats@[i as int].bullets@);
                assert(bv.take(cats@[i as int].bullets@.len() as int) =~= bv);
            }
        } else {
            proof {
                assert(views_of(out@) =~= cat_bullets(cats@.take(i as int), c) + Seq::<
                    Seq<char>,
                >::empty());
            }
        }
        i += 1;
        proof {
            assert(cats@.take(i as int).drop_last() =~= cats@.take(i - 1));
            assert(cats@.take(i as int).last() == cats@[i - 1]);
            assert(views_of(out@) =~= cat_bullets(cats@.take(i as int), c));
        }
    }
    proof {
        assert(cats@.take(cats@.len() as int) =~= cats@);
    }
    out
}

fn collect_entry_descs(entries: &Vec<ChangeEntry>, c: Category) -> (r: Vec<String>)
    ensures
        views_of(r@) == entries_for(entries@, c),
{
    let mut out: Vec<String> = Vec::new();
    let mut i: usize = 0;
    while i < entries.len()
        invariant
            i <= entries.len(),
            views_of(out@) == entries_for(entries@.take(i as int), c),
        decreases entries.len() - i,
    {
        let ghost out_pre = out@;
        if entries[i].category == c {
            out.push(entries[i].description.clone());
            proof {
                lemma_views_of_push(out_pre, out@.last());
            }
        }
        i += 1;
        proof {
            assert(entries@.take(i as int).drop_last() =~= entries@.take(i - 1));
            assert(entries@.take(i as int).last() == entries@[i - 1]);
            assert(views_of(out@) =~= entries_for(entries@.take(i as int), c));
        }
    }
    proof {
        assert(entries@.take(entries@.len() as int) =~= entries@);
    }
    out
}

fn push_category(
    cats: &mut Vec<CategorySection>,
    old_cats: &Vec<CategorySection>,
    entries: &Vec<ChangeEntry>,
    c: Category,
)
    requires
        cat_bullets(old(cats)@, c) == Seq::<Seq<char>>::empty(),
    ensures
        cat_bullets(final(cats)@, c) == cat_bullets(old_cats@, c) + entries_for(entries@, c),
        forall|c2: Category|
            c2 != c ==> cat_bullets(final(cats)@, c2) == cat_bullets(old(cats)@, c2),
        final(cats)@.map_values(|x: CategorySection| cat_model(x)) == old(cats)@.map_values(
            |x: CategorySection| cat_model(x),
        ) + merged_cat_entry(
            old_cats@.map_values(|x: CategorySection| cat_model(x)),
            entries@,
            c,
        ),
{
    proof {
        lemma_model_cat_bullets(old_cats@, c);
    }
    let mut bs = collect_cat_bullets(old_cats, c);
    let mut extra = collect_entry_descs(entries, c);
    let mut k: usize = 0;
    let ghost bs0 = views_of(bs@);
    let ghost extra0 = views_of(extra@);
    while k < extra.len()
        invariant
            k <= extra.len(),
            views_of(extra@) == extra0,
            views_of(bs@) == bs0 + extra0.take(k as int),
        decreases extra.len() - k,
    {
        let ghost bs_pre = bs@;
        bs.push(extra[k].clone());
        k += 1;
        proof {
            assert(extra0.take(k as int).drop_last() =~= extra0.take(k - 1));
            assert(extra0.take(k as int).last() == extra@[k - 1]@);
            lemma_views_of_push(bs_pre, bs@.last());
            assert(views_of(bs@) =~= bs0 + extra0.take(k as int));
        }
    }
    proof {
        assert(extra0.take(extra@.len() as int) =~= extra0);
    }
    if bs.len() > 0 {
        let ghost pre = cats@;
        let sec = CategorySection { category: c, bullets: bs };
        cats.push(sec);
        proof {
            lemma_cat_bullets_push(pre, sec, c);
            assert(cat_bullets(cats@, c) =~= cat_bullets(old_cats@, c) + entries_for(
                entries@,
                c,
            ));
            assert forall|c2: Category|
                c2 != c implies cat_bullets(cats@, c2) == cat_bullets(pre, c2) by {
                lemma_cat_bullets_push(pre, sec, c2);
                assert(cat_bullets(cats@, c2) =~= cat_bullets(pre, c2));
            }
            let f = |x: CategorySection| cat_model(x);
            let old_model = old_cats@.map_values(f);
            assert(cat_model(sec).bullets == cat_bullets(old_cats@, c) + entries_for(
                entries@,
                c,
            ));
            assert(cat_model(sec) == CatModel {
                category: c,
                bullets: model_cat_bullets(old_model, c) + entries_for(entries@, c),
            });
            assert(cats@.map_values(f) =~~= pre.map_values(f) + merged_cat_entry(
                old_model,
                entries@,
                c,
            ));
        }
    } else {
        proof {
            assert(views_of(bs@) =~= Seq::<Seq<char>>::empty());
            assert(cat_bullets(old_cats@, c) + entries_for(entries@, c) =~= Seq::<
                Seq<char>,
            >::empty());
            let f = |x: CategorySection| cat_model(x);
            let old_model = old_cats@.map_values(f);
            assert(model_cat_bullets(old_model, c) + entries_for(entries@, c) =~= Seq::<
                Seq<char>,
            >::empty());
            assert(cats@.map_values(f) =~~= cats@.map_values(f) + merged_cat_entry(
                old_model,
                entries@,
                c,
            ));
        }
    }
}

/// Builds the category subsections of a section: for each category in the
/// fixed order, the bullets the old subsections held followed by the new
/// entries' descriptions, the category omitted when both are empty.
fn build_categories(
    old_cats: &Vec<CategorySection>,
    entries: &Vec<ChangeEntry>,
) -> (r: Vec<CategorySection>)
    ensures
        forall|c: Category|
            cat_bullets(r@, c) == cat_bullets(old_cats@, c) + entries_for(entries@, c),
        r@.map_values(|x: CategorySection| cat_model(x)) == merged_model_cats(
            old_cats@.map_values(|x: CategorySection| cat_model(x)),
            entries@,
        ),
{
    let mut cats: Vec<CategorySection> = Vec::new();
    push_category(&mut cats, old_cats, entries, Category::Breaking);
    push_category(&mut cats, old_cats, entries, Category::Feature);
    push_category(&mut cats, old_cats, entries, Category::Fix);
    push_category(&mut cats, old_cats, entries, Category::Other);
    proof {
        let f = |x: CategorySection| cat_model(x);
        let old_model = old_cats@.map_values(f);
        assert(cats@.map_values(f) =~~= merged_model_cats(old_model, entries@));
        assert forall|c: Category|
            cat_bullets(cats@, c) == cat_bullets(old_cats@, c) + entries_for(
                entries@,
                c,
            ) by {
            match c {
                Category::Breaking => {},
                Category::Feature => {},
                Category::Fix => {},
                Category::Other => {},
            }
        }
    }
    cats
}

/// Does the target version continue the series the topmost section's
/// version heads: both pre-releases, same label, same major.minor.patch?
pub open spec fn same_series(tv: Seq<char>, v: crate::semver::VersionModel) -> bool {
    match crate::semver::spec_parse_version(tv) {
        Some(t) => t.pre is Some && v.pre is Some && t.pre.unwrap().0 == v.pre.unwrap().0
            && t.major == v.major && t.minor == v.minor && t.patch == v.patch,
        None => false,
    }
}

fn same_series_exec(top_version: &String, ver: &crate::semver::Version) -> (r: bool)
    ensures
        r == same_series(top_version@, ver@),
{
    match crate::semver::parse_version(top_version.as_str()) {
        Ok(t) => match (&t.pre, &ver.pre) {
            (Some(a), Some(b)) => a.label == b.label && t.major == ver.major && t.minor
                == ver.minor && t.patch == ver.patch,
            _ => false,
        },
        Err(_) => false,
    }
}

/// Does the document merge the target version into its topmost section
/// rather than open a new one?
pub open spec fn merges_top(d: ChangelogDocument, v: crate::semver::VersionModel) -> bool {
    d.sections@.len() > 0 && same_series(d.sections@[0].version@, v)
}

/// Folds the classified entries for a target version into the document.
/// When the target continues the topmost section's pre-release series, that
/// section is rewritten to the new version with the new entries appended
/// beneath the existing bullets of each category; otherwise a new top
/// section with only the new entries is inserted and every prior section is
/// untouched. Category order within the rebuilt section is fixed.
pub fn add_version(
    doc: ChangelogDocument,
    ver: &crate::semver::Version,
    entries: &Vec<ChangeEntry>,
) -> (r: ChangelogDocument)
    ensures
        r.preamble@ == doc.preamble@,
        merges_top(doc, ver@) ==> {
            &&& r.sections@.len() == doc.sections@.len()
            &&& r.sections@[0].version@ == crate::semver::version_chars(ver@)
            &&& forall|c: Category|
                cat_bullets(r.sections@[0].categories@, c) == cat_bullets(
                    doc.sections@[0].categories@,
                    c,
                ) + entries_for(entries@, c)
            &&& forall|i: int|
                1 <= i < r.sections@.len() ==> r.sections@[i] == doc.sections@[i]
        },
        !merges_top(doc, ver@) ==> {
            &&& r.sections@.len() == doc.sections@.len() + 1
            &&& r.sections@[0].version@ == crate::semver::version_chars(ver@)
            &&& forall|c: Category|
                cat_bullets(r.sections@[0].categories@, c) == entries_for(entries@, c)
            &&& forall|i: int|
                0 <= i < doc.sections@.len() ==> r.sections@[i + 1] == doc.sections@[i]
        },
        sections_model(r.sections@) == spec_add_version(
            sections_model(doc.sections@),
            ver@,
            entries@,
        ),
{
    let next_str = ver.render();
    let mut doc = doc;
    let merge = if doc.sections.len() > 0 {
        same_series_exec(&doc.sections[0].version, ver)
    } else {
        false
    };
    if merge {
        let ghost old_sections = doc.sections@;
        let ghost m0 = sections_model(old_sections);
        let top = doc.sections.remove(0);
        let cats = build_categories(&top.categories, entries);
        let new_top = Section { version: next_str, categories: cats };
        doc.sections.insert(0, new_top);
        proof {
            assert forall|i: int|
                1 <= i < doc.sections@.len() implies doc.sections@[i] == old_sections[i] by {}
            assert(m0[0] == section_model(old_sections[0]));
            assert(top.categories@.map_values(|x: CategorySection| cat_model(x))
                == m0[0].cats);
            assert(section_model(new_top) == SectionModel {
                version: crate::semver::version_chars(ver@),
                cats: merged_model_cats(m0[0].cats, entries@),
            });
            assert(doc.sections@ =~= seq![new_top] + old_sections.skip(1));
            assert(sections_model(doc.sections@) =~~= seq![section_model(new_top)]
                + m0.skip(1));
            assert(sections_model(doc.sections@) =~~= spec_add_version(m0, ver@, entries@));
        }
    } else {
        let empty: Vec<CategorySection> = Vec::new();
        let cats = build_categories(&empty, entries);
        proof {
            assert forall|c: Category|
                cat_bullets(cats@, c) == entries_for(entries@, c) by {
                assert(cat_bullets(empty@, c) + entries_for(entries@, c) =~= entries_for(
                    entries@,
                    c,
                ));
            }
        }
        let ghost old_sections = doc.sections@;
        let ghost m0 = sections_model(old_sections);
        let new_top = Section { version: next_str, categories: cats };
        doc.sections.insert(0, new_top);
        proof {
            assert(empty@.map_values(|x: CategorySection| cat_model(x)) =~= Seq::<
                CatModel,
            >::empty());
            assert(section_model(new_top) == SectionModel {
                version: crate::semver::version_chars(ver@),
                cats: merged_model_cats(Seq::empty(), entries@),
            });
            assert(doc.sections@ =~= seq![new_top] + old_sections);
            assert(sections_model(doc.sections@) =~~= seq![section_model(new_top)] + m0);
            assert(sections_model(doc.sections@) =~~= spec_add_version(m0, ver@, entries@));
        }
    }
    doc
}

/// Law: rendering is a pure function of the document, so re-rendering an
/// unchanged document yields byte-identical text: any two renders of the
/// same document agree, by `render`'s exact contract.
pub proof fn lemma_render_idempotent(d: ChangelogDocument, r1: Seq<char>, r2: Seq<char>)
    requires
        r1 == doc_chars(d),
        r2 == doc_chars(d),
    ensures
        r1 == r2,
{
}

fn range_eq_str(v: &Vec<char>, a: usize, b: usize, pat: &str) -> (r: bool)
    requires
        a <= b <= v@.len(),
    ensures
        r == (v@.subrange(a as int, b as int) == pat@),
{
    let m = pat.unicode_len();
    if b - a != m {
        proof {
            assert(v@.subrange(a as int, b as int).len() == b - a);
        }
        return false;
    }
    let mut k: usize = 0;
    while k < m
        invariant
            a <= b <= v@.len(),
            b - a == m,
            m == pat@.len(),
            k <= m,
            forall|j: int| 0 <= j < k ==> v@[a + j] == pat@[j],
        decreases m - k,
    {
        if v[a + k] != pat.get_char(k) {
            proof {
                assert(v@.subrange(a as int, b as int)[k as int] == v@[a + k]);
            }
            return false;
        }
        k += 1;
    }
    proof {
        assert(v@.subrange(a as int, b as int) =~= pat@);
    }
    true
}

fn starts_with_at(v: &Vec<char>, a: usize, b: usize, pat: &str) -> (r: bool)
    requires
        a <= b <= v@.len(),
    ensures
        r == (b - a >= pat@.len() && v@.subrange(a as int, a + pat@.len()) == pat@),
{
    let m = pat.unicode_len();
    if b - a < m {
        return false;
    }
    range_eq_str(v, a, a + m, pat)
}

/// The end of the line starting at `pos`: the next newline, or the end of
/// the text.
pub open spec fn line_end(s: Seq<char>, pos: int) -> int {
    let e = match crate::semver::find_char(s.skip(pos), '\n') {
        Some(i) => pos + i,
        None => s.len() as int,
    };
    if pos <= e <= s.len() {
        e
    } else {
        s.len() as int
    }
}

/// Does a section heading line start at `pos`?
pub open spec fn heading_at(s: Seq<char>, pos: int) -> bool {
    line_end(s, pos) - pos >= 3 && s.subrange(pos, pos + 3) == "## "@
}

/// Where the preamble ends: the start of the first section heading line at
/// or after `pos`, or the end of the text.
pub open spec fn preamble_end(s: Seq<char>, pos: int) -> int
    decreases s.len() - pos,
{
    if pos < 0 || pos >= s.len() {
        s.len() as int
    } else if heading_at(s, pos) {
        pos
    } else if line_end(s, pos) < s.len() {
        preamble_end(s, line_end(s, pos) + 1)
    } else {
        s.len() as int
    }
}

/// How many section heading lines start at or after `pos`.
pub open spec fn section_count(s: Seq<char>, pos: int) -> nat
    decreases s.len() - pos,
{
    if pos < 0 || pos >= s.len() {
        0
    } else {
        let here: nat = if heading_at(s, pos) {
            1
        } else {
            0
        };
        if line_end(s, pos) < s.len() {
            here + section_count(s, line_end(s, pos) + 1)
        } else {
            here
        }
    }
}

/// Is a category heading line with one of the fixed titles at `pos`?
pub open spec fn category_heading_at(s: Seq<char>, pos: int) -> bool {
    let end = line_end(s, pos);
    end - pos >= 4 && s.subrange(pos, pos + 4) == "### "@ && {
        let t = s.subrange(pos + 4, end);
        t == "Breaking Changes"@ || t == "Features"@ || t == "Fixes"@ || t == "Other"@
    }
}

/// Is a bullet line at `pos`?
pub open spec fn bullet_at(s: Seq<char>, pos: int) -> bool {
    line_end(s, pos) - pos >= 2 && s.subrange(pos, pos + 2) == "- "@
}

/// Are the lines from `pos` on well-formed changelog body lines, given
/// whether a section, and a category within it, is already open? Every line
/// must be a section heading, a category heading under a section, a bullet
/// under a category, or blank.
pub open spec fn lines_wf(s: Seq<char>, pos: int, has_section: bool, has_category: bool) -> bool
    decreases s.len() - pos,
{
    if pos < 0 || pos >= s.len() {
        true
    } else {
        let end = line_end(s, pos);
        if heading_at(s, pos) {
            end >= s.len() || lines_wf(s, end + 1, true, false)
        } else if category_heading_at(s, pos) {
            has_section && (end >= s.len() || lines_wf(s, end + 1, true, true))
        } else if bullet_at(s, pos) {
            has_section && has_category && (end >= s.len() || lines_wf(
                s,
                end + 1,
                has_section,
                has_category,
            ))
        } else if pos == end {
            end >= s.len() || lines_wf(s, end + 1, has_section, has_category)
        } else {
            false
        }
    }
}

/// Is `s` well-formed changelog text: a preamble, then only section
/// headings, category headings, bullets and blank lines, each in a place
/// that gives it a parent?
pub open spec fn changelog_wf(s: Seq<char>) -> bool {
    lines_wf(s, preamble_end(s, 0), false, false)
}

/// The model of one category subsection.
pub ghost struct CatModel {
    pub category: Category,
    pub bullets: Seq<Seq<char>>,
}

/// The model of one section.
pub ghost struct SectionModel {
    pub version: Seq<char>,
    pub cats: Seq<CatModel>,
}

pub open spec fn cat_model(c: CategorySection) -> CatModel {
    CatModel { category: c.category, bullets: views_of(c.bullets@) }
}

pub open spec fn section_model(s: Section) -> SectionModel {
    SectionModel {
        version: s.version@,
        cats: s.categories@.map_values(|c: CategorySection| cat_model(c)),
    }
}

pub open spec fn sections_model(ss: Seq<Section>) -> Seq<SectionModel> {
    ss.map_values(|s: Section| section_model(s))
}

/// All bullets the model subsections of category `c` hold, in order.
pub open spec fn model_cat_bullets(cs: Seq<CatModel>, c: Category) -> Seq<Seq<char>>
    decreases cs.len(),
{
    if cs.len() == 0 {
        Seq::empty()
    } else {
        model_cat_bullets(cs.drop_last(), c) + if cs.last().category == c {
            cs.last().bullets
        } else {
            Seq::empty()
        }
    }
}

/// The merged subsection for one category: the old bullets, then the new
/// entries' descriptions; absent when both are empty.
pub open spec fn merged_cat_entry(
    cs: Seq<CatModel>,
    entries: Seq<ChangeEntry>,
    c: Category,
) -> Seq<CatModel> {
    let bs = model_cat_bullets(cs, c) + entries_for(entries, c);
    if bs.len() == 0 {
        Seq::empty()
    } else {
        seq![CatModel { category: c, bullets: bs }]
    }
}

/// The subsections of a rebuilt section, in the fixed category order.
pub open spec fn merged_model_cats(cs: Seq<CatModel>, entries: Seq<ChangeEntry>) -> Seq<CatModel> {
    merged_cat_entry(cs, entries, Category::Breaking) + merged_cat_entry(
        cs,
        entries,
        Category::Feature,
    ) + merged_cat_entry(cs, entries, Category::Fix) + merged_cat_entry(
        cs,
        entries,
        Category::Other,
    )
}

/// What folding entries for version `v` into the sections yields: the
/// topmost section rebuilt when `v` continues its series, else a fresh top
/// section, with every other section untouched.
pub open spec fn spec_add_version(
    secs: Seq<SectionModel>,
    v: crate::semver::VersionModel,
    entries: Seq<ChangeEntry>,
) -> Seq<SectionModel> {
    if secs.len() > 0 && same_series(secs[0].version, v) {
        seq![
            SectionModel {
                version: crate::semver::version_chars(v),
                cats: merged_model_cats(secs[0].cats, entries),
            },
        ] + secs.skip(1)
    } else {
        seq![
            SectionModel {
                version: crate::semver::version_chars(v),
                cats: merged_model_cats(Seq::empty(), entries),
            },
        ] + secs
    }
}

/// The rendering of a model subsection.
pub open spec fn model_cat_chars(c: CatModel) -> Seq<char> {
    "\n### "@ + title_chars(c.category) + "\n\n"@ + bullets_chars(c.bullets)
}

pub open spec fn model_cats_chars(cs: Seq<CatModel>) -> Seq<char>
    decreases cs.len(),
{
    if cs.len() == 0 {
        Seq::empty()
    } else {
        model_cats_chars(cs.drop_last()) + model_cat_chars(cs.last())
    }
}

/// The rendering of a model section.
pub open spec fn model_section_chars(s: SectionModel) -> Seq<char> {
    "## "@ + s.version + "\n"@ + model_cats_chars(s.cats)
}

/// The rendering of a model section list, a blank line between sections.
pub open spec fn model_sections_chars(ss: Seq<SectionModel>) -> Seq<char>
    decreases ss.len(),
{
    if ss.len() == 0 {
        Seq::empty()
    } else if ss.len() == 1 {
        model_section_chars(ss[0])
    } else {
        model_sections_chars(ss.drop_last()) + "\n"@ + model_section_chars(ss.last())
    }
}

pub proof fn lemma_model_cat_bullets(cs: Seq<CategorySection>, c: Category)
    ensures
        model_cat_bullets(cs.map_values(|x: CategorySection| cat_model(x)), c) == cat_bullets(
            cs,
            c,
        ),
    decreases cs.len(),
{
    let m = cs.map_values(|x: CategorySection| cat_model(x));
    if cs.len() > 0 {
        lemma_model_cat_bullets(cs.drop_last(), c);
        assert(m.drop_last() =~= cs.drop_last().map_values(|x: CategorySection| cat_model(x)));
        assert(m.last() == cat_model(cs.last()));
    } else {
        assert(m.len() == 0);
    }
}

pub proof fn lemma_model_cats_chars(cs: Seq<CategorySection>)
    ensures
        model_cats_chars(cs.map_values(|x: CategorySection| cat_model(x))) == cats_chars(cs),
    decreases cs.len(),
{
    let m = cs.map_values(|x: CategorySection| cat_model(x));
    if cs.len() > 0 {
        lemma_model_cats_chars(cs.drop_last());
        assert(m.drop_last() =~= cs.drop_last().map_values(|x: CategorySection| cat_model(x)));
        assert(m.last() == cat_model(cs.last()));
        assert(model_cat_chars(cat_model(cs.last())) == cat_chars(cs.last()));
    } else {
        assert(m.len() == 0);
    }
}

pub proof fn lemma_model_sections_chars(ss: Seq<Section>)
    ensures
        model_sections_chars(sections_model(ss)) == sections_chars(ss),
    decreases ss.len(),
{
    let m = sections_model(ss);
    if ss.len() == 0 {
        assert(m.len() == 0);
    } else if ss.len() == 1 {
        assert(m[0] == section_model(ss[0]));
        lemma_model_cats_chars(ss[0].categories@);
    } else {
        lemma_model_sections_chars(ss.drop_last());
        assert(m.drop_last() =~= sections_model(ss.drop_last()));
        assert(m.last() == section_model(ss.last()));
        lemma_model_cats_chars(ss.last().categories@);
    }
}

/// The category a heading title names.
pub open spec fn title_category(t: Seq<char>) -> Category {
    if t == "Breaking Changes"@ {
        Category::Breaking
    } else if t == "Features"@ {
        Category::Feature
    } else if t == "Fixes"@ {
        Category::Fix
    } else {
        Category::Other
    }
}

/// The fold the parser computes from `pos` on: a section heading opens a
/// section, a category heading opens a subsection of the last section, a
/// bullet lands in the last subsection; anything else leaves the
/// accumulator alone.
pub open spec fn parse_sections(s: Seq<char>, pos: int, acc: Seq<SectionModel>) -> Seq<
    SectionModel,
>
    decreases s.len() - pos,
{
    if pos < 0 || pos >= s.len() {
        acc
    } else {
        let end = line_end(s, pos);
        let acc2 = if heading_at(s, pos) {
            acc.push(SectionModel { version: s.subrange(pos + 3, end), cats: Seq::empty() })
        } else if category_heading_at(s, pos) && acc.len() > 0 {
            let last = acc.last();
            acc.update(
                acc.len() - 1,
                SectionModel {
                    version: last.version,
                    cats: last.cats.push(
                        CatModel {
                            category: title_category(s.subrange(pos + 4, end)),
                            bullets: Seq::empty(),
                        },
                    ),
                },
            )
        } else if bullet_at(s, pos) && acc.len() > 0 && acc.last().cats.len() > 0 {
            let last = acc.last();
            let lc = last.cats.last();
            acc.update(
                acc.len() - 1,
                SectionModel {
                    version: last.version,
                    cats: last.cats.update(
                        last.cats.len() - 1,
                        CatModel {
                            category: lc.category,
                            bullets: lc.bullets.push(s.subrange(pos + 2, end)),
                        },
                    ),
                },
            )
        } else {
            acc
        };
        if end < s.len() {
            parse_sections(s, end + 1, acc2)
        } else {
            acc2
        }
    }
}

/// The section models the parser yields for the whole text.
pub open spec fn spec_parse_sections(s: Seq<char>) -> Seq<SectionModel> {
    parse_sections(s, preamble_end(s, 0), Seq::empty())
}

proof fn lemma_line_end_is(s: Seq<char>, pos: int, e: int)
    requires
        0 <= pos <= e <= s.len(),
        e < s.len() ==> s[e] == '\n',
        forall|j: int| pos <= j < e ==> s[j] != '\n',
    ensures
        line_end(s, pos) == e,
{
    crate::semver::lemma_find_char(s.skip(pos), '\n');
    match crate::semver::find_char(s.skip(pos), '\n') {
        Some(i) => {
            assert(s.skip(pos)[i] == s[pos + i]);
            if e < s.len() {
                assert(s.skip(pos)[e - pos] == '\n');
            }
            assert forall|j: int| 0 <= j < e - pos implies s.skip(pos)[j] != '\n' by {
                assert(s.skip(pos)[j] == s[pos + j]);
            }
        },
        None => {
            if e < s.len() {
                assert(s.skip(pos)[e - pos] == '\n');
            }
        },
    }
}

/// Parses changelog text: optional preamble kept verbatim, then `## `
/// section headings, `### ` category headings and `- ` bullets; blank lines
/// between them are dropped. Succeeds exactly on well-formed text, and
/// fails on an unrecognized category heading, a heading or bullet out of
/// place, or stray text, naming the offending line.
pub fn parse_changelog(s: &str) -> (r: Result<ChangelogDocument, String>)
    ensures
        (r is Ok) <==> changelog_wf(s@),
        r matches Ok(d) ==> d.preamble@ == s@.subrange(0, preamble_end(s@, 0)),
        r matches Ok(d) ==> d.sections@.len() == section_count(s@, preamble_end(s@, 0)),
        r matches Ok(d) ==> sections_model(d.sections@) == spec_parse_sections(s@),
{
    let v = crate::semver::chars_of(s);
    let n = v.len();
    let mut pos: usize = 0;
    let mut found = false;
    while pos < n && !found
        invariant
            pos <= n,
            n == v@.len(),
            v@ == s@,
            preamble_end(s@, 0) == preamble_end(s@, pos as int),
            found ==> preamble_end(s@, pos as int) == pos as int,
        decreases n - pos, 1int - if found { 1int } else { 0int },
    {
        let end = match crate::semver::find_in(&v, pos, n, '\n') {
            Some(e) => e,
            None => n,
        };
        proof {
            reveal_strlit("## ");
            assert("## "@.len() == 3);
            lemma_line_end_is(s@, pos as int, end as int);
        }
        if starts_with_at(&v, pos, end, "## ") {
            found = true;
        } else {
            pos = if end < n {
                end + 1
            } else {
                n
            };
        }
    }
    proof {
        assert(preamble_end(s@, 0) == pos as int);
    }
    let preamble = s.substring_char(0, pos).to_owned();
    let mut sections: Vec<Section> = Vec::new();
    proof {
        assert(sections_model(sections@) =~= Seq::<SectionModel>::empty());
    }
    let mut pos2: usize = pos;
    while pos2 < n
        invariant
            pos2 <= n,
            n == v@.len(),
            v@ == s@,
            preamble@ == s@.subrange(0, preamble_end(s@, 0)),
            pos == preamble_end(s@, 0),
            section_count(s@, pos as int) == sections@.len() + section_count(s@, pos2 as int),
            changelog_wf(s@) <==> lines_wf(
                s@,
                pos2 as int,
                sections@.len() > 0,
                sections@.len() > 0 && sections@.last().categories@.len() > 0,
            ),
            spec_parse_sections(s@) == parse_sections(s@, pos2 as int, sections_model(sections@)),
        decreases n - pos2,
    {
        let end = match crate::semver::find_in(&v, pos2, n, '\n') {
            Some(e) => e,
            None => n,
        };
        proof {
            reveal_strlit("## ");
            reveal_strlit("### ");
            reveal_strlit("- ");
            assert("## "@.len() == 3);
            assert("### "@.len() == 4);
            assert("- "@.len() == 2);
            lemma_line_end_is(s@, pos2 as int, end as int);
        }
        let ghost secs0 = sections@;
        if starts_with_at(&v, pos2, end, "## ") {
            let version = s.substring_char(pos2 + 3, end).to_owned();
            sections.push(Section { version, categories: Vec::new() });
            proof {
                let new_model = SectionModel {
                    version: s@.subrange(pos2 + 3, end as int),
                    cats: Seq::empty(),
                };
                assert(section_model(sections@.last()).cats =~= Seq::<CatModel>::empty());
                assert(section_model(sections@.last()) == new_model);
                assert(sections_model(sections@) =~~= sections_model(secs0).push(new_model));
            }
        } else if starts_with_at(&v, pos2, end, "### ") {
            let cat: Category = if range_eq_str(&v, pos2 + 4, end, "Breaking Changes") {
                Category::Breaking
            } else if range_eq_str(&v, pos2 + 4, end, "Features") {
                Category::Feature
            } else if range_eq_str(&v, pos2 + 4, end, "Fixes") {
                Category::Fix
            } else if range_eq_str(&v, pos2 + 4, end, "Other") {
                Category::Other
            } else {
                return Err(s.substring_char(pos2, end).to_owned());
            };
            if sections.len() == 0 {
                return Err(s.substring_char(pos2, end).to_owned());
            }
            let mut sec = match sections.pop() {
                Some(sc) => sc,
                None => {
                    return Err(s.substring_char(pos2, end).to_owned());
                },
            };
            sec.categories.push(CategorySection { category: cat, bullets: Vec::new() });
            sections.push(sec);
            proof {
                let m0 = sections_model(secs0);
                let last0 = secs0.last();
                let new_cat = CatModel {
                    category: title_category(s@.subrange(pos2 + 4, end as int)),
                    bullets: Seq::empty(),
                };
                assert(sections@ =~= secs0.update(secs0.len() - 1, sections@.last()));
                assert(sections@.last().categories@ == last0.categories@.push(
                    sections@.last().categories@.last(),
                ));
                assert(cat_model(sections@.last().categories@.last()).bullets =~= Seq::<
                    Seq<char>,
                >::empty());
                assert(cat_model(sections@.last().categories@.last()) == new_cat);
                assert(section_model(sections@.last()).cats =~~= section_model(last0).cats.push(
                    new_cat,
                ));
                assert(m0.last() == section_model(last0));
                assert(sections_model(sections@) =~~= m0.update(
                    m0.len() - 1,
                    SectionModel {
                        version: last0.version@,
                        cats: m0.last().cats.push(new_cat),
                    },
                ));
            }
        } else if starts_with_at(&v, pos2, end, "- ") {
            let bullet = s.substring_char(pos2 + 2, end).to_owned();
            if sections.len() == 0 {
                return Err(s.substring_char(pos2, end).to_owned());
            }
            let mut sec = match sections.pop() {
                Some(sc) => sc,
                None => {
                    return Err(s.substring_char(pos2, end).to_owned());
                },
            };
            if sec.categories.len() == 0 {
                return Err(s.substring_char(pos2, end).to_owned());
            }
            let mut cat = match sec.categories.pop() {
                Some(cs) => cs,
                None => {
                    return Err(s.substring_char(pos2, end).to_owned());
                },
            };
            let ghost cats0 = secs0.last().categories@;
            let ghost cat0 = cats0.last();
            cat.bullets.push(bullet);
            sec.categories.push(cat);
            sections.push(sec);
            proof {
                let m0 = sections_model(secs0);
                let last0 = secs0.last();
                let new_cm = CatModel {
                    category: cat0.category,
                    bullets: cat_model(cat0).bullets.push(s@.subrange(pos2 + 2, end as int)),
                };
                assert(sections@ =~= secs0.update(secs0.len() - 1, sections@.last()));
                assert(sections@.last().categories@ =~= cats0.update(
                    cats0.len() - 1,
                    sections@.last().categories@.last(),
                ));
                assert(cat_model(sections@.last().categories@.last()).bullets
                    =~= cat_model(cat0).bullets.push(s@.subrange(pos2 + 2, end as int)));
                assert(cat_model(sections@.last().categories@.last()) == new_cm);
                assert(section_model(sections@.last()).cats =~~= section_model(last0).cats.update(
                    section_model(last0).cats.len() - 1,
                    new_cm,
                ));
                assert(m0.last() == section_model(last0));
                assert(m0.last().cats.last() == cat_model(cat0));
                assert(sections_model(sections@) =~~= m0.update(
                    m0.len() - 1,
                    SectionModel {
                        version: last0.version@,
                        cats: m0.last().cats.update(m0.last().cats.len() - 1, new_cm),
                    },
                ));
            }
        } else if pos2 == end {
            // a blank separator line
        } else {
            return Err(s.substring_char(pos2, end).to_owned());
        }
        pos2 = if end < n {
            end + 1
        } else {
            n
        };
    }
    Ok(ChangelogDocument { preamble, sections })
}

} // verus!
