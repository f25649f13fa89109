//! `war review`: what a document Warrant's deliverable cites and what it
//! leaves unfinished, read outside fenced code only; whether it is still at
//! its recorded digest; and whether each obligation was established by
//! someone other than the performer.

use vstd::prelude::*;

use crate::diagnostic::{Diagnostic, Severity};
use crate::digest::{sha256_hex, sha256_of, spec_hex};
use crate::pins::{all_agree, finding_of, make, Finding};
use crate::text::{
    chars_of, contains, debug_quoted, debug_str, decimal, find, find_in, idx_of, is_alnum_char,
    is_ascii_alnum, is_ascii_upper, is_str, is_ws, is_ws_char, lines, lines_of, push_decimal,
    push_str, slice_of, starts_with, str_eq, string_of, strip_all_prefix, strip_prefixes, trim_start,
    trimmed_start, views,
};
use crate::warrant_rules::push_agreeing;

verus! {

/// Whether a line opens or closes a fence.
pub open spec fn is_fence(line: Seq<char>) -> bool {
    starts_with(trim_start(line), "```"@)
}

/// The first whitespace-separated word of `s`, or nothing.
pub open spec fn first_word(s: Seq<char>) -> Seq<char> {
    let t = trim_start(s);
    t.take(word_end(t) as int)
}

/// Where the leading run of non-whitespace of `t` ends.
pub open spec fn word_end(t: Seq<char>) -> nat
    decreases t.len(),
{
    if t.len() == 0 || is_ws(t[0]) {
        0
    } else {
        1 + word_end(t.drop_first())
    }
}

/// The link targets of one line: after each `](`, up to the next `)`, its
/// first word; reading stops at a `](` with no `)` after it.
pub open spec fn targets(rest: Seq<char>) -> Seq<Seq<char>>
    decreases rest.len(),
{
    match find(rest, "]("@) {
        None => seq![],
        Some(k) => {
            let after = rest.skip(k + 2 as int);
            let end = idx_of(after, ')');
            if k + 2 > rest.len() || end >= after.len() {
                seq![]
            } else {
                let t = first_word(after.take(end as int));
                (if t.len() > 0 {
                    seq![t]
                } else {
                    seq![]
                }) + targets(after.skip(end + 1 as int))
            }
        },
    }
}

/// `(line, target)` for every link target outside fences, lines numbered
/// from `first`.
pub open spec fn cites(ls: Seq<Seq<char>>, first: nat, in_fence: bool) -> Seq<(nat, Seq<char>)>
    decreases ls.len(),
{
    if ls.len() == 0 {
        seq![]
    } else if is_fence(ls[0]) {
        cites(ls.drop_first(), first + 1, !in_fence)
    } else if in_fence {
        cites(ls.drop_first(), first + 1, in_fence)
    } else {
        targets(ls[0]).map_values(|t: Seq<char>| (first, t)) + cites(
            ls.drop_first(),
            first + 1,
            in_fence,
        )
    }
}

fn word_of(v: &Vec<char>, lo: usize, hi: usize) -> (r: Vec<char>)
    requires
        lo <= hi <= v.len(),
    ensures
        r@ == first_word(v@.subrange(lo as int, hi as int)),
{
    let seg = slice_of(v, lo, hi);
    let t = trimmed_start(&seg);
    let mut k: usize = 0;
    while k < t.len() && !is_ws_char(t[k])
        invariant
            k <= t.len(),
            forall|j: int| 0 <= j < k ==> !is_ws(#[trigger] t@[j]),
        decreases t.len() - k,
    {
        k = k + 1;
    }
    proof {
        lemma_word_end(t@, k as int);
    }
    slice_of(&t, 0, k)
}

proof fn lemma_word_end(t: Seq<char>, k: int)
    requires
        0 <= k <= t.len(),
        forall|j: int| 0 <= j < k ==> !is_ws(#[trigger] t[j]),
        k < t.len() ==> is_ws(t[k]),
    ensures
        word_end(t) == k,
    decreases k,
{
    if k > 0 {
        let u = t.drop_first();
        assert forall|j: int| 0 <= j < k - 1 implies !is_ws(#[trigger] u[j]) by {
            assert(u[j] == t[j + 1]);
        }
        if k < t.len() {
            assert(u[k - 1] == t[k]);
        }
        lemma_word_end(u, k - 1);
    }
}

fn line_targets(line: &Vec<char>) -> (r: Vec<Vec<char>>)
    ensures
        views(r@) == targets(line@),
{
    let open = chars_of("](");
    proof {
        reveal_strlit("](");
    }
    let mut out: Vec<Vec<char>> = Vec::new();
    let mut pos: usize = 0;
    assert(line@.skip(0) =~= line@);
    loop
        invariant
            pos <= line.len(),
            open@ == "]("@,
            open@.len() == 2,
            views(out@) + targets(line@.skip(pos as int)) == targets(line@),
        decreases line.len() - pos,
    {
        let rest = slice_of(line, pos, line.len());
        proof {
            assert(rest@ =~= line@.skip(pos as int));
        }
        let found = find_in(&rest, &open);
        match found {
            None => {
                proof {
                    assert(views(out@) + seq![] =~= views(out@));
                }
                return out;
            },
            Some(k) => {
                proof {
                    crate::text::lemma_find_from_props(rest@, open@, 0);
                }
                let a = pos + k + 2;
                let mut e = a;
                while e < line.len() && line[e] != ')'
                    invariant
                        a <= e <= line.len(),
                        forall|j: int| a <= j < e ==> line@[j] != ')',
                    decreases line.len() - e,
                {
                    e = e + 1;
                }
                let ghost after = rest@.skip(k + 2);
                proof {
                    assert(after =~= line@.skip(a as int));
                    crate::text::lemma_idx_of_char(after, ')', e - a);
                }
                if e >= line.len() {
                    proof {
                        assert(views(out@) + seq![] =~= views(out@));
                    }
                    return out;
                }
                let w = word_of(line, a, e);
                proof {
                    assert(line@.subrange(a as int, e as int) =~= after.take(e - a));
                    assert(after.skip(e - a + 1) =~= line@.skip(e + 1));
                }
                let ghost before = views(out@);
                if w.len() > 0 {
                    out.push(w);
                    proof {
                        assert(views(out@) =~= before.push(w@));
                        assert(before.push(w@) + targets(line@.skip(e + 1)) =~= before + (seq![w@]
                            + targets(line@.skip(e + 1))));
                    }
                } else {
                    proof {
                        assert(seq![] + targets(line@.skip(e + 1)) =~= targets(line@.skip(e + 1)));
                    }
                }
                pos = e + 1;
            },
        }
    }
}

pub open spec fn cite_view(c: (usize, String)) -> (nat, Seq<char>) {
    (c.0 as nat, c.1@)
}

/// `(line number, target)` of every Markdown link or image target outside
/// fenced code. A target ends at the first `)`.
pub fn citations(text: &str) -> (r: Vec<(usize, String)>)
    ensures
        r@.map_values(|c: (usize, String)| cite_view(c)) == cites(lines(text@), 1, false),
{
    let v = chars_of(text);
    let ls = lines_of(&v);
    let ghost lv = views(ls@);
    let mut out: Vec<(usize, String)> = Vec::new();
    let mut in_fence = false;
    let mut i: usize = 0;
    assert(lv.skip(0) =~= lv);
    while i < ls.len()
        invariant
            i <= ls.len(),
            lv == views(ls@),
            lv == lines(text@),
            out@.map_values(|c: (usize, String)| cite_view(c)) + cites(
                lv.skip(i as int),
                (i + 1) as nat,
                in_fence,
            ) == cites(lv, 1, false),
        decreases ls.len() - i,
    {
        let line = &ls[i];
        proof {
            assert(lv.skip(i as int)[0] == line@);
            assert(lv.skip(i as int).drop_first() =~= lv.skip(i + 1));
        }
        let ghost before = out@.map_values(|c: (usize, String)| cite_view(c));
        let t = trimmed_start(line);
        if crate::text::starts_lit(&t, "```") {
            in_fence = !in_fence;
        } else if !in_fence {
            let ts = line_targets(line);
            let ghost tv = views(ts@);
            let mut j: usize = 0;
            while j < ts.len()
                invariant
                    j <= ts.len(),
                    tv == views(ts@),
                    i < ls.len(),
                    out@.map_values(|c: (usize, String)| cite_view(c)) == before + tv.take(
                        j as int,
                    ).map_values(|t: Seq<char>| ((i + 1) as nat, t)),
                decreases ts.len() - j,
            {
                let s = string_of(&ts[j]);
                let ghost o = out@;
                out.push((i + 1, s));
                proof {
                    assert(out@.map_values(|c: (usize, String)| cite_view(c)) =~= o.map_values(
                        |c: (usize, String)| cite_view(c),
                    ).push(((i + 1) as nat, s@)));
                    assert(tv.take(j + 1).map_values(|t: Seq<char>| ((i + 1) as nat, t))
                        =~= tv.take(j as int).map_values(|t: Seq<char>| ((i + 1) as nat, t)).push(
                        ((i + 1) as nat, tv[j as int]),
                    ));
                }
                j = j + 1;
            }
            proof {
                assert(tv.take(ts.len() as int) =~= tv);
                assert(before + tv.map_values(|t: Seq<char>| ((i + 1) as nat, t)) + cites(
                    lv.skip(i + 1),
                    (i + 2) as nat,
                    in_fence,
                ) =~= before + (tv.map_values(|t: Seq<char>| ((i + 1) as nat, t)) + cites(
                    lv.skip(i + 1),
                    (i + 2) as nat,
                    in_fence,
                )));
            }
        }
        i = i + 1;
    }
    proof {
        assert(lv.skip(ls.len() as int) =~= Seq::<Seq<char>>::empty());
        assert(out@.map_values(|c: (usize, String)| cite_view(c)) + seq![] =~= out@.map_values(
            |c: (usize, String)| cite_view(c),
        ));
    }
    out
}


/// `str::to_lowercase`: each character's Unicode lowercase mapping. It
/// rests on Unicode tables; it is a function of the text alone.
pub uninterp spec fn lowercase(s: Seq<char>) -> Seq<char>;

/// `str::to_lowercase`. Claimed: the result is `lowercase` of the text.
#[verifier::external_body]
fn to_lowercase(s: &str) -> (r: String)
    ensures
        r@ == lowercase(s@),
{
    s.to_lowercase()
}

/// Whether `p` occurs in `line` as a whole word: not next to an ASCII letter
/// or digit on either side.
pub open spec fn whole_word(line: Seq<char>, p: Seq<char>) -> bool {
    exists|i: int|
        #![trigger crate::text::is_at(line, p, i)]
        crate::text::is_at(line, p, i) && (i == 0 || !is_ascii_alnum(line[i - 1])) && (i + p.len()
            == line.len() || !is_ascii_alnum(line[i + p.len()]))
}

/// The placeholder markers a line holds, in the fixed order: the uppercase
/// markers as whole words, the others anywhere in the lowercased line.
pub open spec fn hits(line: Seq<char>) -> Seq<Seq<char>> {
    (if whole_word(line, "TODO"@) {
        seq!["TODO"@]
    } else {
        seq![]
    }) + (if whole_word(line, "TBD"@) {
        seq!["TBD"@]
    } else {
        seq![]
    }) + (if whole_word(line, "FIXME"@) {
        seq!["FIXME"@]
    } else {
        seq![]
    }) + (if contains(lowercase(line), "lorem ipsum"@) {
        seq!["lorem ipsum"@]
    } else {
        seq![]
    }) + (if contains(lowercase(line), "<placeholder>"@) {
        seq!["<placeholder>"@]
    } else {
        seq![]
    })
}

/// `(line, marker)` for every placeholder outside fences.
pub open spec fn holes(ls: Seq<Seq<char>>, first: nat, in_fence: bool) -> Seq<(nat, Seq<char>)>
    decreases ls.len(),
{
    if ls.len() == 0 {
        seq![]
    } else if is_fence(ls[0]) {
        holes(ls.drop_first(), first + 1, !in_fence)
    } else if in_fence {
        holes(ls.drop_first(), first + 1, in_fence)
    } else {
        hits(ls[0]).map_values(|t: Seq<char>| (first, t)) + holes(
            ls.drop_first(),
            first + 1,
            in_fence,
        )
    }
}

fn has_whole_word(line: &Vec<char>, p: &str) -> (r: bool)
    requires
        p@.len() > 0,
    ensures
        r == whole_word(line@, p@),
{
    let pv = chars_of(p);
    let mut i: usize = 0;
    while i < line.len()
        invariant
            i <= line.len(),
            pv@ == p@,
            p@.len() > 0,
            forall|j: int|
                0 <= j < i ==> !(crate::text::is_at(line@, p@, j) && (j == 0 || !is_ascii_alnum(
                    line@[j - 1],
                )) && (j + p@.len() == line@.len() || !is_ascii_alnum(line@[j + p@.len()]))),
        decreases line.len() - i,
    {
        if crate::text::at(line, &pv, i) {
            let before_ok = i == 0 || !is_alnum_char(line[i - 1]);
            let after_ok = i + pv.len() == line.len() || !is_alnum_char(line[i + pv.len()]);
            if before_ok && after_ok {
                return true;
            }
        }
        i = i + 1;
    }
    proof {
        assert forall|j: int|
            !(#[trigger] crate::text::is_at(line@, p@, j) && (j == 0 || !is_ascii_alnum(line@[j - 1]))
                && (j + p@.len() == line@.len() || !is_ascii_alnum(line@[j + p@.len()]))) by {
            if crate::text::is_at(line@, p@, j) {
                assert(j <= line@.len());
                if j == line@.len() as int {
                    if p@.len() == 0 {
                        assert(j + p@.len() == line@.len());
                    }
                }
            }
        }
    }
    false
}

fn line_hits(line: &Vec<char>) -> (r: Vec<&'static str>)
    ensures
        r@.map_values(|s: &'static str| s@) == hits(line@),
{
    let text = string_of(line);
    let lower = to_lowercase(text.as_str());
    let lv = chars_of(lower.as_str());
    let mut out: Vec<&'static str> = Vec::new();
    proof {
        reveal_strlit("TODO");
        reveal_strlit("TBD");
        reveal_strlit("FIXME");
    }
    let ghost o0 = out@;
    if has_whole_word(line, "TODO") {
        out.push("TODO");
    }
    let ghost o1 = out@;
    if has_whole_word(line, "TBD") {
        out.push("TBD");
    }
    let ghost o2 = out@;
    if has_whole_word(line, "FIXME") {
        out.push("FIXME");
    }
    let ghost o3 = out@;
    if crate::text::contains_lit(&lv, "lorem ipsum") {
        out.push("lorem ipsum");
    }
    let ghost o4 = out@;
    if crate::text::contains_lit(&lv, "<placeholder>") {
        out.push("<placeholder>");
    }
    proof {
        assert(out@.map_values(|s: &'static str| s@) =~= hits(line@));
    }
    out
}

pub open spec fn hole_view(c: (usize, &'static str)) -> (nat, Seq<char>) {
    (c.0 as nat, c.1@)
}

/// `(line number, marker)` of every placeholder outside fenced code.
pub fn placeholders(text: &str) -> (r: Vec<(usize, &'static str)>)
    ensures
        r@.map_values(|c: (usize, &'static str)| hole_view(c)) == holes(lines(text@), 1, false),
{
    let v = chars_of(text);
    let ls = lines_of(&v);
    let ghost lv = views(ls@);
    let mut out: Vec<(usize, &'static str)> = Vec::new();
    let mut in_fence = false;
    let mut i: usize = 0;
    assert(lv.skip(0) =~= lv);
    while i < ls.len()
        invariant
            i <= ls.len(),
            lv == views(ls@),
            lv == lines(text@),
            out@.map_values(|c: (usize, &'static str)| hole_view(c)) + holes(
                lv.skip(i as int),
                (i + 1) as nat,
                in_fence,
            ) == holes(lv, 1, false),
        decreases ls.len() - i,
    {
        let line = &ls[i];
        proof {
            assert(lv.skip(i as int)[0] == line@);
            assert(lv.skip(i as int).drop_first() =~= lv.skip(i + 1));
        }
        let ghost before = out@.map_values(|c: (usize, &'static str)| hole_view(c));
        let t = trimmed_start(line);
        if crate::text::starts_lit(&t, "```") {
            in_fence = !in_fence;
        } else if !in_fence {
            let hs = line_hits(line);
            let ghost hv = hs@.map_values(|s: &'static str| s@);
            let mut j: usize = 0;
            while j < hs.len()
                invariant
                    j <= hs.len(),
                    hv == hs@.map_values(|s: &'static str| s@),
                    i < ls.len(),
                    out@.map_values(|c: (usize, &'static str)| hole_view(c)) == before + hv.take(
                        j as int,
                    ).map_values(|t: Seq<char>| ((i + 1) as nat, t)),
                decreases hs.len() - j,
            {
                let ghost o = out@;
                out.push((i + 1, hs[j]));
                proof {
                    assert(out@.map_values(|c: (usize, &'static str)| hole_view(c)) =~= o.map_values(
                        |c: (usize, &'static str)| hole_view(c),
                    ).push(((i + 1) as nat, hs@[j as int]@)));
                    assert(hv.take(j + 1).map_values(|t: Seq<char>| ((i + 1) as nat, t))
                        =~= hv.take(j as int).map_values(|t: Seq<char>| ((i + 1) as nat, t)).push(
                        ((i + 1) as nat, hv[j as int]),
                    ));
                }
                j = j + 1;
            }
            proof {
                assert(hv.take(hs.len() as int) =~= hv);
                assert(before + hv.map_values(|t: Seq<char>| ((i + 1) as nat, t)) + holes(
                    lv.skip(i + 1),
                    (i + 2) as nat,
                    in_fence,
                ) =~= before + (hv.map_values(|t: Seq<char>| ((i + 1) as nat, t)) + holes(
                    lv.skip(i + 1),
                    (i + 2) as nat,
                    in_fence,
                )));
            }
        }
        i = i + 1;
    }
    proof {
        assert(lv.skip(ls.len() as int) =~= Seq::<Seq<char>>::empty());
        assert(out@.map_values(|c: (usize, &'static str)| hole_view(c)) + seq![] =~= out@.map_values(
            |c: (usize, &'static str)| hole_view(c),
        ));
    }
    out
}

// ---------------------------------------------------------------------------
// The review of one document
// ---------------------------------------------------------------------------

/// `document.digested` or `document.undigested` for a Markdown deliverable
/// `id` at `rel`: `recorded` is its provenance's content digest, `bytes`
/// what the file holds (`None` when it does not exist).
pub open spec fn spec_digest_finding(alias: Seq<char>, id: Seq<char>, recorded: Option<Seq<char>>, bytes: Option<Seq<u8>>) -> Finding {
    match bytes {
        None => (Severity::Error, "document.undigested"@, true, alias + ": "@ + id + " does not exist"@),
        Some(b) => match recorded {
            Some(r) => if strip_all_prefix(r, "sha256:"@) == spec_hex(sha256_of(b)) {
                (Severity::Pass, "document.digested"@, false, alias + ": "@ + id + " is at its recorded digest"@)
            } else {
                (
                    Severity::Error,
                    "document.undigested"@,
                    true,
                    alias + ": "@ + id
                        + " has moved since its digest was recorded; re-record the deliverable, or for a resolved Warrant `war correct "@
                        + alias + " "@ + id + "`"@,
                )
            },
            None => (Severity::Error, "document.undigested"@, true, alias + ": "@ + id + " records no content digest"@),
        },
    }
}

pub open spec fn bytes_of(b: &Option<Vec<u8>>) -> Option<Seq<u8>> {
    match b {
        Some(v) => Some(v@),
        None => None,
    }
}

/// The digest finding on one Markdown deliverable.
pub fn digest_finding(alias: &str, rel: &str, id: &str, recorded: &Option<String>, bytes: &Option<Vec<u8>>) -> (d: Diagnostic)
    ensures
        finding_of(d, rel@) == Some(spec_digest_finding(alias@, id@, crate::section_refs::oview(*recorded), bytes_of(bytes))),
{
    let mut m = chars_of(alias);
    push_str(&mut m, ": ");
    push_str(&mut m, id);
    let b = match bytes {
        None => {
            push_str(&mut m, " does not exist");
            return make(Severity::Error, "document.undigested", true, rel, &m);
        },
        Some(b) => b,
    };
    match recorded {
        Some(r) => {
            let rv = chars_of(r.as_str());
            let p = chars_of("sha256:");
            let want = strip_prefixes(&rv, &p);
            let actual = chars_of(sha256_hex(b.as_slice()).as_str());
            if crate::text::eq_chars(&want, &actual) {
                push_str(&mut m, " is at its recorded digest");
                make(Severity::Pass, "document.digested", false, rel, &m)
            } else {
                push_str(&mut m, " has moved since its digest was recorded; re-record the deliverable, or for a resolved Warrant `war correct ");
                push_str(&mut m, alias);
                push_str(&mut m, " ");
                push_str(&mut m, id);
                push_str(&mut m, "`");
                make(Severity::Error, "document.undigested", true, rel, &m)
            }
        },
        None => {
            push_str(&mut m, " records no content digest");
            make(Severity::Error, "document.undigested", true, rel, &m)
        },
    }
}

/// How the review treats one citation target: a URL is counted, not
/// fetched; an anchor within the document or a `mailto:` is not checked;
/// anything else names a path (up to its first `#`) that must exist.
#[derive(Debug)]
pub enum CitationKind {
    Url,
    Skipped,
    Path { path: String },
}

pub open spec fn spec_citation_kind(target: Seq<char>) -> (int, Seq<char>) {
    if starts_with(target, "http://"@) || starts_with(target, "https://"@) {
        (0, seq![])
    } else if starts_with(target, "#"@) || starts_with(target, "mailto:"@) {
        (1, seq![])
    } else {
        (2, target.take(idx_of(target, '#') as int))
    }
}

pub open spec fn kind_view(k: CitationKind) -> (int, Seq<char>) {
    match k {
        CitationKind::Url => (0, seq![]),
        CitationKind::Skipped => (1, seq![]),
        CitationKind::Path { path } => (2, path@),
    }
}

/// How the review treats a citation target.
pub fn citation_kind(target: &str) -> (r: CitationKind)
    ensures
        kind_view(r) == spec_citation_kind(target@),
{
    let t = chars_of(target);
    if crate::text::starts_lit(&t, "http://") || crate::text::starts_lit(&t, "https://") {
        return CitationKind::Url;
    }
    if crate::text::starts_lit(&t, "#") || crate::text::starts_lit(&t, "mailto:") {
        return CitationKind::Skipped;
    }
    let mut k: usize = 0;
    while k < t.len() && t[k] != '#'
        invariant
            k <= t.len(),
            forall|j: int| 0 <= j < k ==> t@[j] != '#',
        decreases t.len() - k,
    {
        k = k + 1;
    }
    proof {
        crate::text::lemma_idx_of_char(t@, '#', k as int);
    }
    let p = slice_of(&t, 0, k);
    proof {
        assert(p@ =~= t@.take(k as int));
    }
    CitationKind::Path { path: string_of(&p) }
}

/// `document.citation-missing` for a cited path that does not exist.
pub fn missing_citation(alias: &str, rel: &str, line: usize, target: &str) -> (d: Diagnostic)
    ensures
        finding_of(d, rel@) == Some((
            Severity::Error,
            "document.citation-missing"@,
            true,
            alias@ + ": line "@ + decimal(line as nat) + " cites "@ + debug_str(target@) + ", which does not exist"@,
        )),
{
    let mut m = chars_of(alias);
    push_str(&mut m, ": line ");
    push_decimal(&mut m, line as u64);
    push_str(&mut m, " cites ");
    push_str(&mut m, debug_quoted(target).as_str());
    push_str(&mut m, ", which does not exist");
    make(Severity::Error, "document.citation-missing", true, rel, &m)
}

/// The note on the URL citations of a document, which are recorded and
/// not fetched.
pub fn url_note(alias: &str, urls: usize, target_ref: &str) -> (r: String)
    ensures
        r@ == alias@ + ": "@ + decimal(urls as nat) + " URL citation(s) in "@ + target_ref@ + " recorded, not fetched"@,
{
    let mut m = chars_of(alias);
    push_str(&mut m, ": ");
    push_decimal(&mut m, urls as u64);
    push_str(&mut m, " URL citation(s) in ");
    push_str(&mut m, target_ref);
    push_str(&mut m, " recorded, not fetched");
    string_of(&m)
}

/// `document.placeholder` for each placeholder a document still carries,
/// in order.
pub fn placeholder_findings(alias: &str, rel: &str, text: &str) -> (r: Vec<Diagnostic>)
    ensures
        all_agree(r@, rel@, holes(lines(text@), 1, false).map_values(|h: (nat, Seq<char>)| (
            Severity::Error,
            "document.placeholder"@,
            true,
            alias@ + ": line "@ + decimal(h.0) + " still says "@ + debug_str(h.1),
        ))),
{
    let hs = placeholders(text);
    let ghost want = holes(lines(text@), 1, false).map_values(|h: (nat, Seq<char>)| (
        Severity::Error,
        "document.placeholder"@,
        true,
        alias@ + ": line "@ + decimal(h.0) + " still says "@ + debug_str(h.1),
    ));
    let mut out: Vec<Diagnostic> = Vec::new();
    let mut i: usize = 0;
    while i < hs.len()
        invariant
            i <= hs.len(),
            hs@.map_values(|c: (usize, &'static str)| hole_view(c)) == holes(lines(text@), 1, false),
            want == holes(lines(text@), 1, false).map_values(|h: (nat, Seq<char>)| (
                Severity::Error,
                "document.placeholder"@,
                true,
                alias@ + ": line "@ + decimal(h.0) + " still says "@ + debug_str(h.1),
            )),
            all_agree(out@, rel@, want.take(i as int)),
        decreases hs.len() - i,
    {
        let mut m = chars_of(alias);
        push_str(&mut m, ": line ");
        push_decimal(&mut m, hs[i].0 as u64);
        push_str(&mut m, " still says ");
        push_str(&mut m, debug_quoted(hs[i].1).as_str());
        let d = make(Severity::Error, "document.placeholder", true, rel, &m);
        proof {
            assert(hs@.map_values(|c: (usize, &'static str)| hole_view(c))[i as int] == hole_view(hs@[i as int]));
            assert(want.take(i + 1) =~= want.take(i as int).push(want[i as int]));
        }
        push_agreeing(&mut out, d, Ghost(rel@), Ghost(want.take(i as int)), Ghost(want[i as int]));
        i = i + 1;
    }
    proof {
        assert(want.take(hs.len() as int) =~= want);
    }
    out
}

/// A verification record of an obligation: the obligation, its
/// disposition, who verified it and who performed the work.
#[derive(Debug)]
pub struct Verification {
    pub obligation: String,
    pub disposition: String,
    pub verifier: String,
    pub performer: String,
}

/// Whether some record establishes obligation `id` by a verifier who is
/// neither the repository's performer nor the record's own.
pub open spec fn reviewed_by_another(id: Seq<char>, performer: Seq<char>, vs: Seq<Verification>) -> bool {
    exists|k: int| 0 <= k < vs.len() && #[trigger] vs[k].obligation@ == id && vs[k].disposition@ == "established"@
        && vs[k].verifier@ != performer && vs[k].verifier@ != vs[k].performer@
}

/// The review finding on one declared obligation, anchored to the
/// Warrant's verifications directory when it fails.
pub fn review_finding(alias: &str, dir: &str, id: &str, performer: &str, vs: &Vec<Verification>) -> (d: Diagnostic)
    ensures
        finding_of(d, dir@) == Some(if reviewed_by_another(id@, performer@, vs@) {
            (Severity::Pass, "document.reviewed"@, false, alias@ + ": "@ + id@ + " established by a verifier who is not the performer"@)
        } else {
            (
                Severity::Error,
                "document.review-absent"@,
                true,
                alias@ + ": "@ + id@ + " has no `established` verification from someone other than the performer ("@ + performer@
                    + "); `war verify "@ + alias@ + " --bundle` and hand it off"@,
            )
        }),
{
    let mut ok = false;
    let mut k: usize = 0;
    while k < vs.len()
        invariant
            k <= vs.len(),
            ok == exists|q: int| 0 <= q < k && #[trigger] vs@[q].obligation@ == id@ && vs@[q].disposition@ == "established"@
                && vs@[q].verifier@ != performer@ && vs@[q].verifier@ != vs@[q].performer@,
        decreases vs.len() - k,
    {
        let v = &vs[k];
        if str_eq(v.obligation.as_str(), id) && str_eq(v.disposition.as_str(), "established")
            && !str_eq(v.verifier.as_str(), performer) && !str_eq(v.verifier.as_str(), v.performer.as_str()) {
            ok = true;
        }
        k = k + 1;
    }
    let mut m = chars_of(alias);
    push_str(&mut m, ": ");
    push_str(&mut m, id);
    if ok {
        push_str(&mut m, " established by a verifier who is not the performer");
        make(Severity::Pass, "document.reviewed", false, dir, &m)
    } else {
        push_str(&mut m, " has no `established` verification from someone other than the performer (");
        push_str(&mut m, performer);
        push_str(&mut m, "); `war verify ");
        push_str(&mut m, alias);
        push_str(&mut m, " --bundle` and hand it off");
        make(Severity::Error, "document.review-absent", true, dir, &m)
    }
}

/// Whether an assurance atom binds the Warrant to the document review gate.
pub fn cites_review_gate(assurance: &str) -> (r: bool)
    ensures
        r == contains(assurance@, "gate://document.review@"@),
{
    crate::text::contains_lit(&chars_of(assurance), "gate://document.review@")
}

/// The closing pass: how many Warrants with Markdown deliverables were
/// reviewed.
pub fn reviewed_total(n: usize) -> (d: Diagnostic)
    ensures
        d.severity == Severity::Pass,
        d.rule@ == "document.reviewed-warrants"@,
        d.file is None,
        d.message@ == decimal(n as nat) + " Warrant(s) with Markdown deliverables reviewed"@,
{
    let mut m: Vec<char> = Vec::new();
    push_decimal(&mut m, n as u64);
    push_str(&mut m, " Warrant(s) with Markdown deliverables reviewed");
    Diagnostic::pass("document.reviewed-warrants", string_of(&m).as_str())
}

} // verus!
