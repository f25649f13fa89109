//! What the compiler's front door and the master projection gather: an
//! atom's body after its frontmatter, an atom path written relative to its
//! manifest, the phases of the roadmap and the Warrants in each, and the
//! date the projection is dated by.

use vstd::prelude::*;

use crate::text::{
    chars_of, decimal, find, find_in, has_prefix, is_ascii_digit, join, push_decimal, push_join,
    push_str, slice_of, split_chars, split_on, starts_with, string_of, strip_all_prefix,
    strip_prefixes, strs, views,
};

verus! {

/// An atom's text after its frontmatter: after a leading `---\n`, up to and
/// including the next `\n---\n`, with the newlines that follow removed. A
/// text without frontmatter is returned whole.
pub open spec fn spec_atom_body(text: Seq<char>) -> Seq<char> {
    if starts_with(text, "---\n"@) {
        let rest = text.skip(4);
        match find(rest, "\n---\n"@) {
            Some(end) => strip_all_prefix(rest.skip(end + 5 as int), "\n"@),
            None => text,
        }
    } else {
        text
    }
}

/// An atom's text after its frontmatter, character for character.
pub fn atom_body(text: &str) -> (r: String)
    ensures
        r@ == spec_atom_body(text@),
{
    let v = chars_of(text);
    let open = chars_of("---\n");
    proof {
        reveal_strlit("---\n");
        reveal_strlit("\n---\n");
    }
    if has_prefix(&v, &open) {
        let rest = slice_of(&v, 4, v.len());
        proof {
            assert(rest@ =~= v@.skip(4));
        }
        let close = chars_of("\n---\n");
        match find_in(&rest, &close) {
            Some(end) => {
                proof {
                    crate::text::lemma_find_from_props(rest@, close@, 0);
                }
                let after = slice_of(&rest, end + 5, rest.len());
                proof {
                    assert(after@ =~= rest@.skip(end + 5));
                }
                let nl = chars_of("\n");
                let body = strip_prefixes(&after, &nl);
                return string_of(&body);
            },
            None => {},
        }
    }
    string_of(&v)
}

/// The path parts that remain after resolving `.` and `..` in order; a `..`
/// at the top is dropped.
pub open spec fn normal_parts(pieces: Seq<Seq<char>>) -> Seq<Seq<char>>
    decreases pieces.len(),
{
    if pieces.len() == 0 {
        seq![]
    } else {
        let st = normal_parts(pieces.drop_last());
        let p = pieces.last();
        if p.len() == 0 || p == "."@ {
            st
        } else if p == ".."@ {
            if st.len() > 0 {
                st.drop_last()
            } else {
                st
            }
        } else {
            st.push(p)
        }
    }
}

pub open spec fn spec_normalize(path: Seq<char>) -> Seq<char> {
    join(normal_parts(split_on(path, '/')), "/"@)
}

/// `a/b/../c` → `a/c`, for an atom path written relative to its manifest.
pub fn normalize(path: &str) -> (r: String)
    ensures
        r@ == spec_normalize(path@),
{
    let v = chars_of(path);
    let pieces = split_chars(&v, '/');
    let ghost pv = views(pieces@);
    let mut parts: Vec<Vec<char>> = Vec::new();
    let mut i: usize = 0;
    while i < pieces.len()
        invariant
            i <= pieces.len(),
            pv == views(pieces@),
            views(parts@) == normal_parts(pv.take(i as int)),
        decreases pieces.len() - i,
    {
        proof {
            assert(pv.take(i + 1).drop_last() =~= pv.take(i as int));
            assert(pv.take(i + 1).last() == pieces@[i as int]@);
        }
        let p = &pieces[i];
        let ghost before = parts@;
        if p.len() == 0 || crate::text::is_str(p, ".") {
        } else if crate::text::is_str(p, "..") {
            if parts.len() > 0 {
                parts.pop();
                proof {
                    assert(views(parts@) =~= views(before).drop_last());
                }
            }
        } else {
            let c = slice_of(p, 0, p.len());
            proof {
                assert(c@ =~= p@);
            }
            parts.push(c);
            proof {
                assert(views(parts@) =~= views(before).push(c@));
            }
        }
        i = i + 1;
    }
    proof {
        assert(pv.take(pieces.len() as int) =~= pv);
    }
    let mut out: Vec<char> = Vec::new();
    push_join(&mut out, &parts, parts.len(), "/");
    proof {
        assert(views(parts@).take(parts.len() as int) =~= views(parts@));
    }
    string_of(&out)
}

/// The directory of a manifest source: everything before its last `/`, or
/// nothing when there is none.
pub open spec fn spec_manifest_dir(source: Seq<char>) -> Seq<char> {
    match crate::warrant_rules::last_index(source, '/') {
        Some(k) => source.take(k),
        None => seq![],
    }
}

/// The directory of a manifest source.
pub fn manifest_dir(source: &str) -> (r: String)
    ensures
        r@ == spec_manifest_dir(source@),
{
    let v = chars_of(source);
    let mut n: usize = v.len();
    assert(v@.take(n as int) =~= v@);
    while n > 0
        invariant
            n <= v.len(),
            v@ == source@,
            crate::warrant_rules::last_index(v@, '/') == crate::warrant_rules::last_index(v@.take(n as int), '/'),
        decreases n,
    {
        proof {
            assert(v@.take(n as int).last() == v@[n - 1]);
            assert(v@.take(n as int).drop_last() =~= v@.take(n - 1));
        }
        if v[n - 1] == '/' {
            let d = crate::text::slice_of(&v, 0, n - 1);
            proof {
                assert(d@ =~= v@.take(n - 1));
            }
            return string_of(&d);
        }
        n = n - 1;
    }
    proof {
        assert(v@.take(0) =~= Seq::<char>::empty());
    }
    String::new()
}

/// Where an atom of a manifest in `dir` lives, as the master projection
/// names it: `dir/source`, normalized.
pub fn atom_source(dir: &str, source: &str) -> (r: String)
    ensures
        r@ == spec_normalize(dir@ + "/"@ + source@),
{
    let mut v = chars_of(dir);
    push_str(&mut v, "/");
    push_str(&mut v, source);
    let joined = string_of(&v);
    normalize(joined.as_str())
}

/// A roadmap objective as the status report gives it: its roadmap
/// reference (phase prefix and phase), its title, and its Warrants.
#[derive(Debug)]
pub struct Objective {
    pub roadmap: Option<(String, u32)>,
    pub title: String,
    pub warrants: Vec<String>,
}

/// The id of the phase an objective's roadmap reference names.
pub open spec fn phase_id(prefix: Seq<char>, phase: u32) -> Seq<char> {
    prefix + "-PHASE-"@ + decimal(phase as nat)
}

pub open spec fn ids(ps: Seq<(String, String)>) -> Seq<Seq<char>> {
    ps.map_values(|p: (String, String)| p.0@)
}

/// The phases the master projection lists: the roadmap record's, in its
/// order, then each phase an objective names that the record does not,
/// titled by the first objective that names it.
pub open spec fn spec_phases(record: Seq<(Seq<char>, Seq<char>)>, objectives: Seq<Objective>) -> Seq<(Seq<char>, Seq<char>)>
    decreases objectives.len(),
{
    if objectives.len() == 0 {
        record
    } else {
        let before = spec_phases(record, objectives.drop_last());
        let o = objectives.last();
        match o.roadmap {
            Some((prefix, phase)) => {
                let id = phase_id(prefix@, phase);
                if before.map_values(|p: (Seq<char>, Seq<char>)| p.0).contains(id) {
                    before
                } else {
                    before.push((id, o.title@))
                }
            },
            None => before,
        }
    }
}

pub open spec fn pair_views(ps: Seq<(String, String)>) -> Seq<(Seq<char>, Seq<char>)> {
    ps.map_values(|p: (String, String)| (p.0@, p.1@))
}

fn phase_id_of(prefix: &str, phase: u32) -> (r: Vec<char>)
    ensures
        r@ == phase_id(prefix@, phase),
{
    let mut v = chars_of(prefix);
    push_str(&mut v, "-PHASE-");
    push_decimal(&mut v, phase as u64);
    v
}

/// The phases of the master projection, as `(id, title)`.
pub fn phases(record: &Vec<(String, String)>, objectives: &Vec<Objective>) -> (r: Vec<(String, String)>)
    ensures
        pair_views(r@) == spec_phases(pair_views(record@), objectives@),
{
    let mut out: Vec<(String, String)> = Vec::new();
    let mut k: usize = 0;
    while k < record.len()
        invariant
            k <= record.len(),
            pair_views(out@) == pair_views(record@).take(k as int),
        decreases record.len() - k,
    {
        let a = string_of(&chars_of(record[k].0.as_str()));
        let b = string_of(&chars_of(record[k].1.as_str()));
        let ghost before = out@;
        out.push((a, b));
        proof {
            assert(pair_views(out@) =~= pair_views(before).push((record@[k as int].0@, record@[k as int].1@)));
            assert(pair_views(record@).take(k + 1) =~= pair_views(record@).take(k as int).push(pair_views(record@)[k as int]));
        }
        k = k + 1;
    }
    proof {
        assert(pair_views(record@).take(record.len() as int) =~= pair_views(record@));
        assert(objectives@.take(0) =~= Seq::<Objective>::empty());
    }
    let mut i: usize = 0;
    while i < objectives.len()
        invariant
            i <= objectives.len(),
            pair_views(out@) == spec_phases(pair_views(record@), objectives@.take(i as int)),
        decreases objectives.len() - i,
    {
        proof {
            assert(objectives@.take(i + 1).drop_last() =~= objectives@.take(i as int));
            assert(objectives@.take(i + 1).last() == objectives@[i as int]);
        }
        match &objectives[i].roadmap {
            Some((prefix, phase)) => {
                let id = phase_id_of(prefix.as_str(), *phase);
                let mut present = false;
                let mut j: usize = 0;
                let ghost pv = pair_views(out@);
                while j < out.len()
                    invariant
                        j <= out.len(),
                        pv == pair_views(out@),
                        present == exists|q: int| 0 <= q < j && #[trigger] out@[q].0@ == id@,
                    decreases out.len() - j,
                {
                    let same = crate::text::eq_chars(&chars_of(out[j].0.as_str()), &id);
                    if same {
                        present = true;
                    }
                    j = j + 1;
                }
                proof {
                    let ks = pv.map_values(|p: (Seq<char>, Seq<char>)| p.0);
                    assert(ks.contains(id@) == present) by {
                        if present {
                            let q = choose|q: int| 0 <= q < out.len() && #[trigger] out@[q].0@ == id@;
                            assert(ks[q] == id@);
                        }
                        if ks.contains(id@) {
                            let q = choose|q: int| 0 <= q < ks.len() && ks[q] == id@;
                            assert(out@[q].0@ == id@);
                        }
                    }
                }
                if !present {
                    let ghost before = out@;
                    let title = string_of(&chars_of(objectives[i].title.as_str()));
                    out.push((string_of(&id), title));
                    proof {
                        assert(pair_views(out@) =~= pair_views(before).push((id@, objectives@[i as int].title@)));
                    }
                }
            },
            None => {},
        }
        i = i + 1;
    }
    proof {
        assert(objectives@.take(objectives.len() as int) =~= objectives@);
    }
    out
}

/// The phase a Warrant belongs to in the master projection: that of the
/// first objective with a roadmap reference that lists it.
pub open spec fn spec_phase_of(alias: Seq<char>, objectives: Seq<Objective>) -> Option<Seq<char>>
    decreases objectives.len(),
{
    if objectives.len() == 0 {
        None
    } else {
        let o = objectives[0];
        if o.roadmap is Some && strs(o.warrants@).contains(alias) {
            let (prefix, phase) = o.roadmap->0;
            Some(phase_id(prefix@, phase))
        } else {
            spec_phase_of(alias, objectives.drop_first())
        }
    }
}

/// The phase a Warrant belongs to.
pub fn phase_of(alias: &str, objectives: &Vec<Objective>) -> (r: Option<String>)
    ensures
        match r {
            Some(s) => spec_phase_of(alias@, objectives@) == Some(s@),
            None => spec_phase_of(alias@, objectives@) is None,
        },
{
    let mut i: usize = 0;
    assert(objectives@.skip(0) =~= objectives@);
    while i < objectives.len()
        invariant
            i <= objectives.len(),
            spec_phase_of(alias@, objectives@) == spec_phase_of(alias@, objectives@.skip(i as int)),
        decreases objectives.len() - i,
    {
        proof {
            assert(objectives@.skip(i as int)[0] == objectives@[i as int]);
            assert(objectives@.skip(i as int).drop_first() =~= objectives@.skip(i + 1));
        }
        let o = &objectives[i];
        match &o.roadmap {
            Some((prefix, phase)) => {
                let mut listed = false;
                let mut j: usize = 0;
                while j < o.warrants.len()
                    invariant
                        j <= o.warrants.len(),
                        listed == exists|q: int| 0 <= q < j && #[trigger] o.warrants@[q]@ == alias@,
                    decreases o.warrants.len() - j,
                {
                    if crate::text::str_eq(o.warrants[j].as_str(), alias) {
                        listed = true;
                    }
                    j = j + 1;
                }
                proof {
                    assert(strs(o.warrants@).contains(alias@) == listed) by {
                        if listed {
                            let q = choose|q: int| 0 <= q < o.warrants.len() && #[trigger] o.warrants@[q]@ == alias@;
                            assert(strs(o.warrants@)[q] == alias@);
                        }
                        if strs(o.warrants@).contains(alias@) {
                            let q = choose|q: int| 0 <= q < o.warrants.len() && strs(o.warrants@)[q] == alias@;
                            assert(o.warrants@[q]@ == alias@);
                        }
                    }
                }
                if listed {
                    let id = phase_id_of(prefix.as_str(), *phase);
                    return Some(string_of(&id));
                }
            },
            None => {},
        }
        i = i + 1;
    }
    None
}

/// The date the master projection is dated by: the latest day of the
/// timeline whose date starts with a digit.
pub open spec fn spec_tree_date(dates: Seq<Seq<char>>) -> Option<Seq<char>>
    decreases dates.len(),
{
    if dates.len() == 0 {
        None
    } else if dates.last().len() > 0 && is_ascii_digit(dates.last()[0]) {
        Some(dates.last())
    } else {
        spec_tree_date(dates.drop_last())
    }
}

/// The projection's date, from the timeline's days in order.
pub fn tree_date(dates: &Vec<String>) -> (r: Option<String>)
    ensures
        match r {
            Some(s) => spec_tree_date(strs(dates@)) == Some(s@),
            None => spec_tree_date(strs(dates@)) is None,
        },
{
    let mut n: usize = dates.len();
    assert(strs(dates@).take(n as int) =~= strs(dates@));
    while n > 0
        invariant
            n <= dates.len(),
            spec_tree_date(strs(dates@)) == spec_tree_date(strs(dates@).take(n as int)),
        decreases n,
    {
        proof {
            assert(strs(dates@).take(n as int).last() == dates@[n - 1]@);
            assert(strs(dates@).take(n as int).drop_last() =~= strs(dates@).take(n - 1));
        }
        let v = chars_of(dates[n - 1].as_str());
        if v.len() > 0 && crate::text::is_digit_char(v[0]) {
            return Some(string_of(&v));
        }
        n = n - 1;
    }
    None
}

// ---------------------------------------------------------------------------
// The SAS's normative statements and its section index
// ---------------------------------------------------------------------------

/// One normative sentence of the SAS: the section it stands in, that
/// section's heading, its keyword (`MUST`, `SHOULD`, ...) and its words.
#[derive(Debug, Clone, PartialEq, Eq)]
pub struct Sentence {
    pub section: String,
    pub heading: String,
    pub keyword: String,
    pub sentence: String,
}

/// The heading a sentence opens when its section differs from the one
/// before it (the first is compared with no section at all).
pub open spec fn section_heading(s: Sentence, last_section: Seq<char>) -> Seq<char> {
    if s.section@ != last_section {
        "\n## §"@ + s.section@ + " "@ + s.heading@ + "\n\n"@
    } else {
        seq![]
    }
}

pub open spec fn sentence_line(s: Sentence) -> Seq<char> {
    "- **"@ + s.keyword@ + "** §"@ + s.section@ + ": "@ + s.sentence@ + "\n"@
}

/// The normative statements as Markdown, one line each, grouped under a
/// heading per section.
pub open spec fn spec_normative_body(ss: Seq<Sentence>) -> Seq<char>
    decreases ss.len(),
{
    if ss.len() == 0 {
        seq![]
    } else {
        let last_section = if ss.len() > 1 {
            ss[ss.len() - 2].section@
        } else {
            seq![]
        };
        spec_normative_body(ss.drop_last()) + section_heading(ss.last(), last_section) + sentence_line(
            ss.last(),
        )
    }
}

pub fn normative_body(sentences: &Vec<Sentence>) -> (r: String)
    ensures
        r@ == spec_normative_body(sentences@),
{
    let mut body: Vec<char> = Vec::new();
    let mut last: Vec<char> = Vec::new();
    let mut i: usize = 0;
    proof {
        assert(sentences@.take(0) =~= Seq::<Sentence>::empty());
    }
    while i < sentences.len()
        invariant
            i <= sentences.len(),
            body@ == spec_normative_body(sentences@.take(i as int)),
            last@ == (if i > 0 {
                sentences@[i - 1].section@
            } else {
                Seq::<char>::empty()
            }),
        decreases sentences.len() - i,
    {
        let s = &sentences[i];
        let ghost before = body@;
        let sec = chars_of(s.section.as_str());
        if !crate::text::eq_chars(&sec, &last) {
            push_str(&mut body, "\n## §");
            push_str(&mut body, s.section.as_str());
            push_str(&mut body, " ");
            push_str(&mut body, s.heading.as_str());
            push_str(&mut body, "\n\n");
        }
        let ghost mid = body@;
        push_str(&mut body, "- **");
        push_str(&mut body, s.keyword.as_str());
        push_str(&mut body, "** §");
        push_str(&mut body, s.section.as_str());
        push_str(&mut body, ": ");
        push_str(&mut body, s.sentence.as_str());
        push_str(&mut body, "\n");
        proof {
            let t = sentences@.take(i + 1);
            assert(t.drop_last() =~= sentences@.take(i as int));
            assert(t.last() == sentences@[i as int]);
            if i > 0 {
                assert(t[t.len() - 2] == sentences@[i - 1]);
            }
            assert(mid =~= before + section_heading(sentences@[i as int], last@));
            assert(body@ =~= mid + sentence_line(sentences@[i as int]));
        }
        last = sec;
        i = i + 1;
    }
    proof {
        assert(sentences@.take(sentences.len() as int) =~= sentences@);
    }
    string_of(&body)
}

/// What a unit of the SAS is.
#[derive(Debug, Clone, Copy, PartialEq, Eq, Structural)]
pub enum SectionKind {
    Preamble,
    Part,
    Appendix,
    Numbered,
}

/// One row of the section index: a unit's identifier, title, byte range
/// and digest.
#[derive(Debug, Clone, PartialEq, Eq)]
pub struct IndexRow {
    pub id: String,
    pub title: String,
    pub start: u64,
    pub end: u64,
    pub sha256: String,
}

/// A unit of the SAS with the subsections within it.
#[derive(Debug, Clone, PartialEq, Eq)]
pub struct IndexSection {
    pub kind: SectionKind,
    pub row: IndexRow,
    pub subsections: Vec<IndexRow>,
}

/// A Markdown table cell: every `|` escaped.
pub open spec fn escape_bars(t: Seq<char>) -> Seq<char>
    decreases t.len(),
{
    if t.len() == 0 {
        seq![]
    } else if t.last() == '|' {
        escape_bars(t.drop_last()) + seq!['\\', '|']
    } else {
        escape_bars(t.drop_last()).push(t.last())
    }
}

/// Whether a row's digest begins with the sixteen ASCII characters the
/// index shows.
pub open spec fn digest_shown(r: IndexRow) -> bool {
    r.sha256@.len() >= 16 && forall|i: int| 0 <= i < 16 ==> (#[trigger] r.sha256@[i] as u32) < 128
}

pub open spec fn row_line(r: IndexRow, sub: bool) -> Seq<char> {
    "| `"@ + r.id@ + "` | "@ + (if sub {
        "↳ "@
    } else {
        seq![]
    }) + escape_bars(r.title@) + " | "@ + decimal(r.start as nat) + "–"@ + decimal(r.end as nat)
        + " | `"@ + r.sha256@.take(16) + "` |\n"@
}

pub open spec fn sub_lines(subs: Seq<IndexRow>) -> Seq<char>
    decreases subs.len(),
{
    if subs.len() == 0 {
        seq![]
    } else {
        sub_lines(subs.drop_last()) + row_line(subs.last(), true)
    }
}

pub open spec fn index_rows(ss: Seq<IndexSection>) -> Seq<char>
    decreases ss.len(),
{
    if ss.len() == 0 {
        seq![]
    } else {
        index_rows(ss.drop_last()) + row_line(ss.last().row, false) + sub_lines(ss.last().subsections@)
    }
}

pub open spec fn heading_count(ss: Seq<IndexSection>) -> nat
    decreases ss.len(),
{
    if ss.len() == 0 {
        0
    } else {
        heading_count(ss.drop_last()) + (if ss.last().kind == SectionKind::Part || ss.last().kind
            == SectionKind::Appendix {
            1nat
        } else {
            0nat
        })
    }
}

pub open spec fn numbered_count(ss: Seq<IndexSection>) -> nat
    decreases ss.len(),
{
    if ss.len() == 0 {
        0
    } else {
        numbered_count(ss.drop_last()) + (if ss.last().kind == SectionKind::Numbered {
            1nat
        } else {
            0nat
        })
    }
}

pub open spec fn subsection_count(ss: Seq<IndexSection>) -> nat
    decreases ss.len(),
{
    if ss.len() == 0 {
        0
    } else {
        subsection_count(ss.drop_last()) + ss.last().subsections@.len()
    }
}

/// The opening of `SECTIONS.md`: what it indexes, from which digest and
/// revision, the counts of each kind of unit, and how a unit is cited.
pub open spec fn index_header(
    source: Seq<char>,
    digest: Seq<char>,
    revision: Option<Seq<char>>,
    cite: Seq<char>,
    ss: Seq<IndexSection>,
) -> Seq<char> {
    "# Sections of "@ + source + "\n\n<!-- GENERATED by `war compile` from sha256:"@ + digest + (match revision {
        Some(v) => " (revision "@ + v + ")"@,
        None => seq![],
    }) + "; do not edit. -->\n\n"@ + decimal(ss.len()) + " unit(s): the preamble, "@ + decimal(
        heading_count(ss),
    ) + " part and appendix heading(s), "@ + decimal(numbered_count(ss)) + " numbered section(s), and "@
        + decimal(subsection_count(ss))
        + " subsection(s) within them. Joined in order, the units are the document byte for byte. A numbered section is cited as `sas://"@
        + cite + "-SAS-<n>`, a subsection as `sas://"@ + cite
        + "-SAS-<n>.<m>` (OW-ADR-0028); `war check` resolves each such citation in an amendment against the revision its Warrant is pinned to.\n\n| id | title | bytes | sha256 (first 16) |\n| --- | --- | ---: | --- |\n"@
}

pub open spec fn spec_sections_index(
    source: Seq<char>,
    digest: Seq<char>,
    revision: Option<Seq<char>>,
    namespace: Option<Seq<char>>,
    ss: Seq<IndexSection>,
) -> Seq<char> {
    let cite = match namespace {
        Some(n) => n,
        None => "<NS>"@,
    };
    index_header(source, digest, revision, cite, ss) + index_rows(ss)
}

fn push_escaped(out: &mut Vec<char>, t: &str)
    ensures
        final(out)@ == old(out)@ + escape_bars(t@),
{
    let v = chars_of(t);
    let mut i: usize = 0;
    proof {
        assert(v@.take(0) =~= Seq::<char>::empty());
        assert(out@ =~= old(out)@ + escape_bars(v@.take(0)));
    }
    while i < v.len()
        invariant
            i <= v.len(),
            v@ == t@,
            out@ == old(out)@ + escape_bars(v@.take(i as int)),
        decreases v.len() - i,
    {
        proof {
            assert(v@.take(i + 1).drop_last() =~= v@.take(i as int));
            assert(v@.take(i + 1).last() == v@[i as int]);
        }
        let ghost before = out@;
        if v[i] == '|' {
            out.push('\\');
            out.push('|');
            proof {
                assert(out@ =~= before + seq!['\\', '|']);
            }
        } else {
            out.push(v[i]);
        }
        i = i + 1;
    }
    proof {
        assert(v@.take(v.len() as int) =~= v@);
    }
}

fn push_row(out: &mut Vec<char>, r: &IndexRow, sub: bool)
    requires
        digest_shown(*r),
    ensures
        final(out)@ == old(out)@ + row_line(*r, sub),
{
    push_str(out, "| `");
    push_str(out, r.id.as_str());
    push_str(out, "` | ");
    if sub {
        push_str(out, "↳ ");
    }
    push_escaped(out, r.title.as_str());
    push_str(out, " | ");
    push_decimal(out, r.start);
    push_str(out, "–");
    push_decimal(out, r.end);
    push_str(out, " | `");
    let d = chars_of(r.sha256.as_str());
    let head = slice_of(&d, 0, 16);
    crate::text::push_all(out, &head);
    push_str(out, "` |\n");
    proof {
        assert(head@ =~= r.sha256@.take(16));
        assert(out@ =~= old(out)@ + row_line(*r, sub));
    }
}

/// `SECTIONS.md` for the SAS at `source` with digest `digest`, its recorded
/// revision if any, and the namespace its citations use (`<NS>` when it
/// declares none).
pub fn sections_index(
    source: &str,
    digest: &str,
    revision: Option<&str>,
    namespace: Option<&str>,
    sections: &Vec<IndexSection>,
) -> (r: String)
    requires
        forall|i: int| 0 <= i < sections.len() ==> digest_shown(#[trigger] sections@[i].row),
        forall|i: int, j: int|
            0 <= i < sections.len() && 0 <= j < sections@[i].subsections.len() ==> digest_shown(
                #[trigger] sections@[i].subsections@[j],
            ),
        subsection_count(sections@) <= u64::MAX,
    ensures
        r@ == spec_sections_index(
            source@,
            digest@,
            match revision {
                Some(v) => Some(v@),
                None => None,
            },
            match namespace {
                Some(n) => Some(n@),
                None => None,
            },
            sections@,
        ),
{
    let ghost ss = sections@;
    let mut headings: u64 = 0;
    let mut numbered: u64 = 0;
    let mut subs: u64 = 0;
    let mut rows: Vec<char> = Vec::new();
    let mut i: usize = 0;
    proof {
        assert(ss.take(0) =~= Seq::<IndexSection>::empty());
    }
    while i < sections.len()
        invariant
            i <= sections.len(),
            ss == sections@,
            forall|k: int| 0 <= k < sections.len() ==> digest_shown(#[trigger] sections@[k].row),
            forall|k: int, j: int|
                0 <= k < sections.len() && 0 <= j < sections@[k].subsections.len() ==> digest_shown(
                    #[trigger] sections@[k].subsections@[j],
                ),
            subsection_count(ss) <= u64::MAX,
            headings == heading_count(ss.take(i as int)),
            numbered == numbered_count(ss.take(i as int)),
            subs == subsection_count(ss.take(i as int)),
            headings <= i,
            numbered <= i,
            rows@ == index_rows(ss.take(i as int)),
        decreases sections.len() - i,
    {
        let s = &sections[i];
        proof {
            assert(ss.take(i + 1).drop_last() =~= ss.take(i as int));
            assert(ss.take(i + 1).last() == ss[i as int]);
            lemma_subsection_count_prefix(ss, i + 1);
        }
        if s.kind == SectionKind::Part || s.kind == SectionKind::Appendix {
            headings = headings + 1;
        }
        if s.kind == SectionKind::Numbered {
            numbered = numbered + 1;
        }
        subs = subs + s.subsections.len() as u64;
        let ghost before = rows@;
        push_row(&mut rows, &s.row, false);
        let ghost after_row = rows@;
        let mut j: usize = 0;
        proof {
            assert(s.subsections@.take(0) =~= Seq::<IndexRow>::empty());
        }
        while j < s.subsections.len()
            invariant
                j <= s.subsections.len(),
                forall|k: int| 0 <= k < s.subsections.len() ==> digest_shown(#[trigger] s.subsections@[k]),
                rows@ == after_row + sub_lines(s.subsections@.take(j as int)),
            decreases s.subsections.len() - j,
        {
            proof {
                assert(s.subsections@.take(j + 1).drop_last() =~= s.subsections@.take(j as int));
                assert(s.subsections@.take(j + 1).last() == s.subsections@[j as int]);
            }
            push_row(&mut rows, &s.subsections[j], true);
            proof {
                assert(rows@ =~= after_row + sub_lines(s.subsections@.take(j + 1)));
            }
            j = j + 1;
        }
        proof {
            assert(s.subsections@.take(s.subsections.len() as int) =~= s.subsections@);
            assert(rows@ =~= before + row_line(s.row, false) + sub_lines(s.subsections@));
        }
        i = i + 1;
    }
    proof {
        assert(ss.take(sections.len() as int) =~= ss);
    }
    let mut out = chars_of("# Sections of ");
    push_str(&mut out, source);
    push_str(&mut out, "\n\n<!-- GENERATED by `war compile` from sha256:");
    push_str(&mut out, digest);
    match revision {
        Some(v) => {
            push_str(&mut out, " (revision ");
            push_str(&mut out, v);
            push_str(&mut out, ")");
        },
        None => {},
    }
    push_str(&mut out, "; do not edit. -->\n\n");
    push_decimal(&mut out, sections.len() as u64);
    push_str(&mut out, " unit(s): the preamble, ");
    push_decimal(&mut out, headings);
    push_str(&mut out, " part and appendix heading(s), ");
    push_decimal(&mut out, numbered);
    push_str(&mut out, " numbered section(s), and ");
    push_decimal(&mut out, subs);
    push_str(
        &mut out,
        " subsection(s) within them. Joined in order, the units are the document byte for byte. A numbered section is cited as `sas://",
    );
    let cite = match namespace {
        Some(n) => n,
        None => "<NS>",
    };
    push_str(&mut out, cite);
    push_str(&mut out, "-SAS-<n>`, a subsection as `sas://");
    push_str(&mut out, cite);
    push_str(
        &mut out,
        "-SAS-<n>.<m>` (OW-ADR-0028); `war check` resolves each such citation in an amendment against the revision its Warrant is pinned to.\n\n| id | title | bytes | sha256 (first 16) |\n| --- | --- | ---: | --- |\n",
    );
    crate::text::push_all(&mut out, &rows);
    proof {
        let rv = match revision {
            Some(v) => Some(v@),
            None => None::<Seq<char>>,
        };
        let nv = match namespace {
            Some(n) => Some(n@),
            None => None::<Seq<char>>,
        };
        assert(out@ =~= spec_sections_index(source@, digest@, rv, nv, sections@));
    }
    string_of(&out)
}

proof fn lemma_subsection_count_prefix(ss: Seq<IndexSection>, k: int)
    requires
        0 <= k <= ss.len(),
    ensures
        subsection_count(ss.take(k)) <= subsection_count(ss),
    decreases ss.len() - k,
{
    if k < ss.len() {
        lemma_subsection_count_prefix(ss, k + 1);
        assert(ss.take(k + 1).drop_last() =~= ss.take(k));
    } else {
        assert(ss.take(k) =~= ss);
    }
}

/// The refusal to publish an index from a split that does not join back to
/// the document.
pub fn lossy_split(joined: &str, digest: &str) -> (r: String)
    ensures
        r@ == "the SAS split does not join back to the document (sha256:"@ + joined@
            + ", document sha256:"@ + digest@
            + "); no section index is written from a lossy split"@,
{
    let mut m = chars_of("the SAS split does not join back to the document (sha256:");
    push_str(&mut m, joined);
    push_str(&mut m, ", document sha256:");
    push_str(&mut m, digest);
    push_str(&mut m, "); no section index is written from a lossy split");
    string_of(&m)
}

} // verus!
