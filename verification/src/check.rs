//! Rules of `war check` that decide on text and digests alone: unanswered
//! required headings in a preset atom, the comparison of a cited parent
//! digest with the parent as it compiles now, status claims in roadmap
//! prose, and when a pin binds.

use vstd::prelude::*;

use crate::compile::{atom_body, spec_atom_body};
use crate::diagnostic::Diagnostic;
use crate::text::{
    chars_of, decimal, find, find_in, lines, lines_of, push_all, push_decimal, push_str,
    slice_of, starts_with, str_eq, string_of, strip_all_prefix, strip_prefixes, trim, trim_start,
    trimmed, trimmed_start, views,
};

verus! {

/// `s` with every `<!-- … -->` comment removed; an unclosed comment runs to
/// the end.
pub open spec fn spec_strip_comments(s: Seq<char>) -> Seq<char>
    decreases s.len(),
{
    match find(s, "<!--"@) {
        None => s,
        Some(i) => s.take(i as int) + match find(s.skip(i as int), "-->"@) {
            None => seq![],
            Some(e) => if i + e + 3 <= s.len() {
                spec_strip_comments(s.skip((i + e + 3) as int))
            } else {
                seq![]
            },
        },
    }
}

/// `s` with its HTML comments removed.
pub fn strip_comments(s: &Vec<char>) -> (r: Vec<char>)
    ensures
        r@ == spec_strip_comments(s@),
    decreases s.len(),
{
    let open = chars_of("<!--");
    let close = chars_of("-->");
    proof {
        reveal_strlit("<!--");
        reveal_strlit("-->");
    }
    match find_in(s, &open) {
        None => slice_of(s, 0, s.len()),
        Some(i) => {
            proof {
                crate::text::lemma_find_from_props(s@, open@, 0);
            }
            let mut out = slice_of(s, 0, i);
            let tail = slice_of(s, i, s.len());
            proof {
                assert(out@ =~= s@.take(i as int));
                assert(tail@ =~= s@.skip(i as int));
            }
            match find_in(&tail, &close) {
                None => out,
                Some(e) => {
                    proof {
                        crate::text::lemma_find_from_props(tail@, close@, 0);
                    }
                    let rest = slice_of(s, i + e + 3, s.len());
                    proof {
                        assert(rest@ =~= s@.skip(i + e + 3));
                    }
                    let more = strip_comments(&rest);
                    push_all(&mut out, &more);
                    out
                },
            }
        },
    }
}

/// One section of a preset atom: its heading and its body lines.
pub type Section = (Seq<char>, Seq<char>);

/// Whether a line toggles a code fence.
pub open spec fn is_fence(line: Seq<char>) -> bool {
    starts_with(trim_start(line), "```"@)
}

/// The sections of a body's lines, read in order: a fence line toggles the
/// fence; outside a fence, a line starting with `#` opens a section titled by
/// it without its leading `#`s, trimmed; any other line, and any line inside
/// a fence, is appended with its newline to the open section, if one is open.
pub open spec fn sections_from(
    ls: Seq<Seq<char>>,
    in_fence: bool,
    secs: Seq<Section>,
) -> Seq<Section>
    decreases ls.len(),
{
    if ls.len() == 0 {
        secs
    } else {
        let line = ls[0];
        let f = if is_fence(line) {
            !in_fence
        } else {
            in_fence
        };
        let next = if !f && starts_with(line, "#"@) {
            secs.push((trim(strip_all_prefix(line, "#"@)), seq![]))
        } else if secs.len() > 0 {
            secs.drop_last().push((secs.last().0, secs.last().1 + line + seq!['\n']))
        } else {
            secs
        };
        sections_from(ls.drop_first(), f, next)
    }
}

/// Whether a section is marked required and answered by nothing but comments
/// and whitespace.
pub open spec fn unanswered(s: Section) -> bool {
    &&& exists|i: int|
        0 <= i < lines(s.1).len() && trim(#[trigger] lines(s.1)[i]) == "<!-- required -->"@
    &&& trim(spec_strip_comments(s.1)).len() == 0
}

/// The headings of the unanswered sections, in order.
pub open spec fn unanswered_headings(secs: Seq<Section>) -> Seq<Seq<char>>
    decreases secs.len(),
{
    if secs.len() == 0 {
        seq![]
    } else {
        let rest = unanswered_headings(secs.drop_last());
        if unanswered(secs.last()) {
            rest.push(secs.last().0)
        } else {
            rest
        }
    }
}

pub open spec fn spec_unanswered_required_headings(text: Seq<char>) -> Seq<Seq<char>> {
    unanswered_headings(sections_from(lines(spec_atom_body(text)), false, seq![]))
}

pub open spec fn section_views(v: Seq<(Vec<char>, Vec<char>)>) -> Seq<Section> {
    v.map_values(|p: (Vec<char>, Vec<char>)| (p.0@, p.1@))
}

fn sections_of(ls: &Vec<Vec<char>>) -> (r: Vec<(Vec<char>, Vec<char>)>)
    ensures
        section_views(r@) == sections_from(views(ls@), false, seq![]),
{
    let ghost lv = views(ls@);
    let mut secs: Vec<(Vec<char>, Vec<char>)> = Vec::new();
    let mut in_fence = false;
    let mut i: usize = 0;
    assert(lv.skip(0) =~= lv);
    assert(section_views(secs@) =~= Seq::<Section>::empty());
    while i < ls.len()
        invariant
            i <= ls.len(),
            lv == views(ls@),
            sections_from(lv, false, seq![]) == sections_from(
                lv.skip(i as int),
                in_fence,
                section_views(secs@),
            ),
        decreases ls.len() - i,
    {
        let line = &ls[i];
        let ghost sv = section_views(secs@);
        proof {
            assert(lv.skip(i as int)[0] == line@);
            assert(lv.skip(i as int).drop_first() =~= lv.skip(i + 1));
        }
        let t = trimmed_start(line);
        if crate::text::starts_lit(&t, "```") {
            in_fence = !in_fence;
        }
        if !in_fence && crate::text::starts_lit(line, "#") {
            let hashes = chars_of("#");
            let title = trimmed(&strip_prefixes(line, &hashes));
            secs.push((title, Vec::new()));
            proof {
                assert(section_views(secs@) =~= sv.push((title@, seq![])));
            }
        } else if secs.len() > 0 {
            let ghost old_secs = secs@;
            let last = secs.pop();
            match last {
                Some(pair) => {
                    let (h, mut b) = pair;
                    proof {
                        assert(h@ == sv.last().0);
                        assert(b@ == sv.last().1);
                        assert(section_views(secs@) =~= sv.drop_last());
                    }
                    push_all(&mut b, line);
                    b.push('\n');
                    let ghost bv = b@;
                    let ghost hv = h@;
                    secs.push((h, b));
                    proof {
                        assert(bv =~= sv.last().1 + line@ + seq!['\n']);
                        assert(section_views(secs@) =~= sv.drop_last().push(
                            (sv.last().0, sv.last().1 + line@ + seq!['\n']),
                        ));
                    }
                },
                None => {
                    proof {
                        assert(false);
                    }
                },
            }
        }
        i = i + 1;
    }
    proof {
        assert(lv.skip(ls.len() as int) =~= Seq::<Seq<char>>::empty());
    }
    secs
}

fn has_required_marker(body: &Vec<char>) -> (r: bool)
    ensures
        r == exists|i: int|
            0 <= i < lines(body@).len() && trim(#[trigger] lines(body@)[i]) == "<!-- required -->"@,
{
    let ls = lines_of(body);
    let ghost lv = views(ls@);
    let mut i: usize = 0;
    while i < ls.len()
        invariant
            i <= ls.len(),
            lv == views(ls@),
            lv == lines(body@),
            forall|j: int| 0 <= j < i ==> trim(#[trigger] lv[j]) != "<!-- required -->"@,
        decreases ls.len() - i,
    {
        let t = trimmed(&ls[i]);
        if crate::text::is_str(&t, "<!-- required -->") {
            assert(trim(lv[i as int]) == "<!-- required -->"@);
            return true;
        }
        i = i + 1;
    }
    false
}

/// The headings of a preset atom marked `<!-- required -->` whose body,
/// comments removed, is blank. Headings inside a code fence are not headings.
pub fn unanswered_required_headings(text: &str) -> (r: Vec<String>)
    ensures
        r@.map_values(|s: String| s@) == spec_unanswered_required_headings(text@),
{
    let body = atom_body(text);
    let v = chars_of(body.as_str());
    let ls = lines_of(&v);
    let secs = sections_of(&ls);
    let ghost sv = section_views(secs@);
    let mut out: Vec<String> = Vec::new();
    let mut i: usize = 0;
    while i < secs.len()
        invariant
            i <= secs.len(),
            sv == section_views(secs@),
            out@.map_values(|s: String| s@) == unanswered_headings(sv.take(i as int)),
        decreases secs.len() - i,
    {
        proof {
            assert(sv.take(i + 1).drop_last() =~= sv.take(i as int));
            assert(sv.take(i + 1).last() == (secs@[i as int].0@, secs@[i as int].1@));
        }
        let b = &secs[i].1;
        let marked = has_required_marker(b);
        let stripped = strip_comments(b);
        let blank = trimmed(&stripped).len() == 0;
        proof {
            let sec = sv.take(i + 1).last();
            assert(sec.1 == b@);
            assert(unanswered(sec) == (marked && blank));
        }
        if marked && blank {
            let ghost before = out@;
            let h = string_of(&secs[i].0);
            out.push(h);
            proof {
                assert(out@.map_values(|s: String| s@) =~= before.map_values(|s: String| s@).push(
                    h@,
                ));
            }
        }
        i = i + 1;
    }
    proof {
        assert(sv.take(secs.len() as int) =~= sv);
    }
    out
}

/// How the cited parent digest compares with the parent as it compiles now.
pub open spec fn spec_current_comparison(
    manifest_file: Seq<char>,
    alias: Seq<char>,
    parent: Seq<char>,
    cited: Seq<char>,
    current: Option<Seq<char>>,
) -> (crate::diagnostic::Severity, Option<Seq<char>>, Seq<char>) {
    match current {
        Some(actual) => if actual == cited {
            (
                crate::diagnostic::Severity::Pass,
                None,
                alias + ": parent "@ + parent + " contract digest matches"@,
            )
        } else {
            (
                crate::diagnostic::Severity::Error,
                Some(manifest_file),
                alias + ": parent "@ + parent + " is cited at contract digest sha256:"@ + cited
                    + " but the parent's actual contract digest is sha256:"@ + actual
                    + ". The parent changed after this child was written — the child's basis is no longer the one it was authorized against."@,
            )
        },
        None => (
            crate::diagnostic::Severity::Unknown,
            Some(manifest_file),
            alias + ": parent "@ + parent
                + "'s contract does not compile, so the citation cannot be compared with it"@,
        ),
    }
}

pub open spec fn opt_view(o: Option<&str>) -> Option<Seq<char>> {
    match o {
        Some(s) => Some(s@),
        None => None,
    }
}

pub open spec fn file_view(o: Option<String>) -> Option<Seq<char>> {
    match o {
        Some(s) => Some(s@),
        None => None,
    }
}

/// The `relations.parent-digest` finding for one cited parent: a pass when
/// the digests match, an error when the parent moved, unknown when the
/// parent does not compile.
pub fn current_comparison(
    manifest_file: &str,
    alias: &str,
    parent: &str,
    cited: &str,
    current: Option<&str>,
) -> (d: Diagnostic)
    ensures
        d.rule@ == "relations.parent-digest"@,
        (d.severity, file_view(d.file), d.message@) == spec_current_comparison(
            manifest_file@,
            alias@,
            parent@,
            cited@,
            opt_view(current),
        ),
{
    let mut v = chars_of(alias);
    push_str(&mut v, ": parent ");
    push_str(&mut v, parent);
    match current {
        Some(actual) => {
            if str_eq(actual, cited) {
                push_str(&mut v, " contract digest matches");
                let d = Diagnostic::pass("relations.parent-digest", string_of(&v).as_str());
                proof {
                    assert(v@ =~= alias@ + ": parent "@ + parent@ + " contract digest matches"@);
                }
                d
            } else {
                push_str(&mut v, " is cited at contract digest sha256:");
                push_str(&mut v, cited);
                push_str(&mut v, " but the parent's actual contract digest is sha256:");
                push_str(&mut v, actual);
                push_str(
                    &mut v,
                    ". The parent changed after this child was written — the child's basis is no longer the one it was authorized against.",
                );
                let d = Diagnostic::error(
                    "relations.parent-digest",
                    manifest_file,
                    string_of(&v).as_str(),
                );
                proof {
                    assert(v@ =~= spec_current_comparison(
                        manifest_file@,
                        alias@,
                        parent@,
                        cited@,
                        opt_view(current),
                    ).2);
                }
                d
            }
        },
        None => {
            push_str(
                &mut v,
                "'s contract does not compile, so the citation cannot be compared with it",
            );
            let d = Diagnostic::unknown(
                "relations.parent-digest",
                manifest_file,
                string_of(&v).as_str(),
            );
            proof {
                assert(v@ =~= spec_current_comparison(
                    manifest_file@,
                    alias@,
                    parent@,
                    cited@,
                    opt_view(current),
                ).2);
            }
            d
        },
    }
}

/// `str::matches(p).count()`: the non-overlapping occurrences of `p`, left
/// to right.
pub open spec fn match_count(s: Seq<char>, p: Seq<char>) -> nat
    decreases s.len(),
{
    if p.len() == 0 {
        0
    } else {
        match find(s, p) {
            None => 0,
            Some(i) => if i + p.len() <= s.len() {
                1 + match_count(s.skip((i + p.len()) as int), p)
            } else {
                0
            },
        }
    }
}

fn count_matches(s: &Vec<char>, p: &Vec<char>) -> (r: usize)
    requires
        p.len() > 0,
    ensures
        r == match_count(s@, p@),
    decreases s.len(),
{
    match find_in(s, p) {
        None => 0,
        Some(i) => {
            proof {
                crate::text::lemma_find_from_props(s@, p@, 0);
            }
            let rest = slice_of(s, i + p.len(), s.len());
            proof {
                assert(rest@ =~= s@.skip(i + p.len()));
            }
            let n = count_matches(&rest, p);
            proof {
                lemma_match_count_bound(rest@, p@);
            }
            1 + n
        },
    }
}

proof fn lemma_match_count_bound(s: Seq<char>, p: Seq<char>)
    requires
        p.len() > 0,
    ensures
        match_count(s, p) <= s.len(),
    decreases s.len(),
{
    if let Some(i) = find(s, p) {
        crate::text::lemma_find_from_props(s, p, 0);
        if i + p.len() <= s.len() {
            lemma_match_count_bound(s.skip((i + p.len()) as int), p);
        }
    }
}

/// The `roadmap.status-claim` error for a roadmap file that marks anything
/// `**resolved**`: resolution is a record, not prose.
pub fn roadmap_status_claim(rel: &str, text: &str) -> (r: Option<Diagnostic>)
    ensures
        match r {
            None => match_count(text@, "**resolved**"@) == 0,
            Some(d) => {
                &&& match_count(text@, "**resolved**"@) > 0
                &&& d.severity == crate::diagnostic::Severity::Error
                &&& d.rule@ == "roadmap.status-claim"@
                &&& file_view(d.file) == Some(rel@)
                &&& d.message@ == rel@ + " marks something **resolved** "@ + decimal(
                    match_count(text@, "**resolved**"@),
                )
                    + " time(s); resolution is a §56.2 record, and CORPUS_STATUS.md is compiled from those — delete the claim"@
            },
        },
{
    let v = chars_of(text);
    let p = chars_of("**resolved**");
    proof {
        reveal_strlit("**resolved**");
    }
    let n = count_matches(&v, &p);
    proof {
        lemma_match_count_bound(v@, p@);
    }
    if n == 0 {
        return None;
    }
    let mut m = chars_of(rel);
    push_str(&mut m, " marks something **resolved** ");
    push_decimal(&mut m, n as u64);
    push_str(
        &mut m,
        " time(s); resolution is a §56.2 record, and CORPUS_STATUS.md is compiled from those — delete the claim",
    );
    Some(Diagnostic::error("roadmap.status-claim", rel, string_of(&m).as_str()))
}

/// A pin binds once a resolution is on record. A resolution that cannot be
/// read binds nothing.
pub fn resolution_binds<T, E>(loaded: &Result<Option<T>, E>) -> (r: bool)
    ensures
        r == (loaded matches Ok(Some(_))),
{
    match loaded {
        Ok(Some(_)) => true,
        _ => false,
    }
}

} // verus!
