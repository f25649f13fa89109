//! `war verify <alias> --bundle`: the verification bundle.
//!
//! One document that carries what a blind verifier must read: the basis
//! atoms, each deliverable's bytes (whole under a cap, else its head), the
//! `#[test]` names in Rust deliverables, and the plant lines that name the
//! Warrant. This module holds the scans and the summary; reading files,
//! hashing and canonical JSON happen around it.

use vstd::prelude::*;

use crate::diagnostic::{Diagnostic, Report};
use crate::digest::{sha256_hex, sha256_of, spec_hex};
use crate::text::{
    chars_of, contains, lines, lines_of, occurs, push_all, push_decimal, push_str, slice_of,
    starts_lit, starts_with, string_of, strip_all_prefix, strip_prefixes, trim, trimmed, views,
};

verus! {

pub const SCHEMA: &'static str = "oh.war/verification-bundle/v1";

#[derive(Debug, Clone, PartialEq, Eq)]
pub struct BundledAtom {
    pub path: String,
    pub role: String,
    pub sha256: String,
    pub text: String,
}

#[derive(Debug, Clone, PartialEq, Eq)]
pub struct BundledDeliverable {
    pub id: String,
    pub title: String,
    pub target_ref: String,
    pub sha256: String,
    pub bytes: u64,
    pub truncated: bool,
    pub text: String,
    /// `#[test]` function names, for a Rust source deliverable.
    pub test_names: Vec<String>,
}

#[derive(Debug, Clone, PartialEq, Eq)]
pub struct BundledPlant {
    pub file: String,
    pub line: usize,
    pub text: String,
}

/// Unicode `Alphabetic` or `Numeric`, the set `char::is_alphanumeric` tests.
/// Its extent rests on Unicode tables; it is a function of the character.
pub uninterp spec fn unicode_alnum(c: char) -> bool;

/// `char::is_alphanumeric`. Claimed: the result is `unicode_alnum` of the
/// character; ASCII letters and digits are alphanumeric and no other ASCII
/// character is, as std documents.
#[verifier::external_body]
fn is_alphanumeric(c: char) -> (r: bool)
    ensures
        r == unicode_alnum(c),
        (c as u32) < 128 ==> (r <==> crate::text::is_ascii_alnum(c)),
{
    c.is_alphanumeric()
}

pub open spec fn ident_char(c: char) -> bool {
    unicode_alnum(c) || c == '_'
}

/// The longest prefix of `s` made of identifier characters.
pub open spec fn ident_prefix(s: Seq<char>) -> Seq<char>
    decreases s.len(),
{
    if s.len() > 0 && ident_char(s[0]) {
        seq![s[0]] + ident_prefix(s.drop_first())
    } else {
        seq![]
    }
}

/// The `#[test]` names a source holds: after a `#[test]` line, the next `fn`
/// line names a test, skipping comment and attribute lines between them; any
/// other line disarms the scan.
pub open spec fn scan_tests(ls: Seq<Seq<char>>, armed: bool) -> Seq<Seq<char>>
    decreases ls.len(),
{
    if ls.len() == 0 {
        seq![]
    } else {
        let t = trim(ls[0]);
        let rest = ls.drop_first();
        if t == "#[test]"@ {
            scan_tests(rest, true)
        } else if armed && starts_with(t, "fn "@) {
            let name = ident_prefix(t.skip(3));
            (if name.len() > 0 {
                seq![name]
            } else {
                seq![]
            }) + scan_tests(rest, false)
        } else if armed && !starts_with(t, "//"@) && !starts_with(t, "#"@) {
            scan_tests(rest, false)
        } else {
            scan_tests(rest, armed)
        }
    }
}

fn ident_of(v: &Vec<char>, from: usize) -> (r: Vec<char>)
    requires
        from <= v.len(),
    ensures
        r@ == ident_prefix(v@.skip(from as int)),
{
    let mut k = from;
    while k < v.len() && (is_alphanumeric(v[k]) || v[k] == '_')
        invariant
            from <= k <= v.len(),
            forall|j: int| from <= j < k ==> ident_char(#[trigger] v@[j]),
        decreases v.len() - k,
    {
        k = k + 1;
    }
    proof {
        lemma_ident_prefix(v@.skip(from as int), k - from);
    }
    let r = crate::text::slice_of(v, from, k);
    proof {
        assert(r@ =~= v@.skip(from as int).take(k - from));
    }
    r
}

proof fn lemma_ident_prefix(s: Seq<char>, k: int)
    requires
        0 <= k <= s.len(),
        forall|j: int| 0 <= j < k ==> ident_char(#[trigger] s[j]),
        k < s.len() ==> !ident_char(s[k]),
    ensures
        ident_prefix(s) == s.take(k),
    decreases k,
{
    if k == 0 {
        assert(s.take(0) =~= Seq::<char>::empty());
    } else {
        let t = s.drop_first();
        assert forall|j: int| 0 <= j < k - 1 implies ident_char(#[trigger] t[j]) by {
            assert(t[j] == s[j + 1]);
        }
        if k - 1 < t.len() {
            assert(t[k - 1] == s[k]);
        }
        lemma_ident_prefix(t, k - 1);
        assert(seq![s[0]] + t.take(k - 1) =~= s.take(k));
    }
}

/// `#[test]` function names, by a line scan that needs no parser.
pub fn test_names(source: &str) -> (r: Vec<String>)
    ensures
        r@.map_values(|s: String| s@) == scan_tests(lines(source@), false),
{
    let v = chars_of(source);
    let ls = lines_of(&v);
    let ghost lv = views(ls@);
    let mut out: Vec<String> = Vec::new();
    let mut armed = false;
    let mut i: usize = 0;
    assert(lv.skip(0) =~= lv);
    while i < ls.len()
        invariant
            i <= ls.len(),
            lv == views(ls@),
            lv == lines(source@),
            out@.map_values(|s: String| s@) + scan_tests(lv.skip(i as int), armed) == scan_tests(
                lv,
                false,
            ),
        decreases ls.len() - i,
    {
        let ghost before = out@.map_values(|s: String| s@);
        let ghost rest = lv.skip(i + 1);
        proof {
            assert(lv.skip(i as int)[0] == ls@[i as int]@);
            assert(lv.skip(i as int).drop_first() =~= rest);
        }
        let t = trimmed(&ls[i]);
        if crate::text::is_str(&t, "#[test]") {
            armed = true;
        } else if armed && starts_lit(&t, "fn ") {
            proof {
                reveal_strlit("fn ");
            }
            let name = ident_of(&t, 3);
            if name.len() > 0 {
                let s = string_of(&name);
                out.push(s);
                proof {
                    assert(out@.map_values(|s: String| s@) =~= before.push(s@));
                    assert(before.push(s@) + scan_tests(rest, false) =~= before + (seq![s@]
                        + scan_tests(rest, false)));
                }
            } else {
                proof {
                    assert(seq![] + scan_tests(rest, false) =~= scan_tests(rest, false));
                }
            }
            armed = false;
        } else if armed && !starts_lit(&t, "//") && !starts_lit(&t, "#") {
            armed = false;
        }
        i = i + 1;
    }
    proof {
        assert(lv.skip(ls.len() as int) =~= Seq::<Seq<char>>::empty());
        assert(out@.map_values(|s: String| s@) + seq![] =~= out@.map_values(|s: String| s@));
    }
    out
}

/// Whether a plant line names `alias`: it mentions the alias and is a plant
/// line or a passing check.
pub open spec fn names_alias(line: Seq<char>, alias: Seq<char>) -> bool {
    contains(line, alias) && (contains(line, "plant"@) || contains(line, "printf 'ok"@))
}

/// The plant lines among `ls` (numbered from `first`) that name `alias`.
pub open spec fn plant_lines_of(ls: Seq<Seq<char>>, alias: Seq<char>) -> Seq<(nat, Seq<char>)>
    decreases ls.len(),
{
    if ls.len() == 0 {
        seq![]
    } else {
        let rest = plant_lines_of(ls.drop_last(), alias);
        if names_alias(ls.last(), alias) {
            rest.push((ls.len(), trim(ls.last())))
        } else {
            rest
        }
    }
}

pub open spec fn plant_view(p: BundledPlant) -> (nat, Seq<char>) {
    (p.line as nat, p.text@)
}

/// The lines of one plant file that name `alias`, numbered from one and
/// trimmed.
pub fn plants_in(file: &str, text: &str, alias: &str) -> (r: Vec<BundledPlant>)
    ensures
        r@.map_values(|p: BundledPlant| plant_view(p)) == plant_lines_of(lines(text@), alias@),
        forall|i: int| 0 <= i < r.len() ==> (#[trigger] r@[i]).file@ == file@,
{
    let v = chars_of(text);
    let ls = lines_of(&v);
    let ghost lv = views(ls@);
    let a = chars_of(alias);
    let mut out: Vec<BundledPlant> = Vec::new();
    let mut i: usize = 0;
    while i < ls.len()
        invariant
            i <= ls.len(),
            lv == views(ls@),
            lv == lines(text@),
            a@ == alias@,
            out@.map_values(|p: BundledPlant| plant_view(p)) == plant_lines_of(
                lv.take(i as int),
                alias@,
            ),
            forall|k: int| 0 <= k < out.len() ==> (#[trigger] out@[k]).file@ == file@,
        decreases ls.len() - i,
    {
        proof {
            assert(lv.take(i + 1).drop_last() =~= lv.take(i as int));
            assert(lv.take(i + 1).last() == ls@[i as int]@);
        }
        let l = &ls[i];
        if occurs(l, &a) && (crate::text::contains_lit(l, "plant") || crate::text::contains_lit(
            l,
            "printf 'ok",
        )) {
            let ghost before = out@;
            let p = BundledPlant {
                file: string_of(&chars_of(file)),
                line: i + 1,
                text: string_of(&trimmed(l)),
            };
            out.push(p);
            proof {
                assert(out@.map_values(|p: BundledPlant| plant_view(p)) =~= before.map_values(
                    |p: BundledPlant| plant_view(p),
                ).push(plant_view(p)));
            }
        }
        i = i + 1;
    }
    proof {
        assert(lv.take(ls.len() as int) =~= lv);
    }
    out
}

/// What a written bundle holds, as its summary counts it.
#[derive(Debug, Clone, PartialEq, Eq)]
pub struct BundleContents {
    pub obligations: usize,
    pub atoms: Vec<BundledAtom>,
    pub deliverables: Vec<BundledDeliverable>,
    pub plants: Vec<BundledPlant>,
    pub gate_runs: usize,
    pub prior_verifications: usize,
    pub estimated_tokens: u64,
    pub token_method: String,
}

/// How many deliverables were cut to their head.
pub open spec fn truncated_count(ds: Seq<BundledDeliverable>) -> nat
    decreases ds.len(),
{
    if ds.len() == 0 {
        0
    } else {
        truncated_count(ds.drop_last()) + if ds.last().truncated {
            1nat
        } else {
            0nat
        }
    }
}

pub open spec fn spec_emit_message(
    alias: Seq<char>,
    path: Seq<char>,
    digest: Seq<char>,
    b: BundleContents,
) -> Seq<char> {
    alias + ": bundle "@ + digest + " written to "@ + path + " — "@ + crate::text::decimal(
        b.obligations as nat,
    ) + " obligation(s), "@ + crate::text::decimal(b.atoms@.len()) + " atom(s), "@
        + crate::text::decimal(b.deliverables@.len()) + " deliverable(s) ("@
        + crate::text::decimal(truncated_count(b.deliverables@)) + " truncated), "@
        + crate::text::decimal(b.plants@.len()) + " plant line(s), "@ + crate::text::decimal(
        b.gate_runs as nat,
    ) + " gate run(s), "@ + crate::text::decimal(b.prior_verifications as nat)
        + " prior verification(s), ~"@ + crate::text::decimal(b.estimated_tokens as nat)
        + " tokens ("@ + b.token_method@ + ")"@
}

fn count_truncated(ds: &Vec<BundledDeliverable>) -> (r: usize)
    ensures
        r == truncated_count(ds@),
{
    let mut n: usize = 0;
    let mut i: usize = 0;
    while i < ds.len()
        invariant
            i <= ds.len(),
            n <= i,
            n == truncated_count(ds@.take(i as int)),
        decreases ds.len() - i,
    {
        proof {
            assert(ds@.take(i + 1).drop_last() =~= ds@.take(i as int));
        }
        if ds[i].truncated {
            n = n + 1;
        }
        i = i + 1;
    }
    proof {
        assert(ds@.take(ds.len() as int) =~= ds@);
    }
    n
}

/// `war verify <alias> --bundle`: the report that says what the written
/// bundle holds.
pub fn emit(alias: &str, path: &str, digest: &str, b: &BundleContents) -> (r: Report)
    ensures
        r.diagnostics@.len() == 1,
        r.notes@.len() == 0,
        r.diagnostics@[0].severity == crate::diagnostic::Severity::Pass,
        r.diagnostics@[0].rule@ == "verify.bundle"@,
        r.diagnostics@[0].message@ == spec_emit_message(alias@, path@, digest@, *b),
{
    let mut v = chars_of(alias);
    push_str(&mut v, ": bundle ");
    push_str(&mut v, digest);
    push_str(&mut v, " written to ");
    push_str(&mut v, path);
    push_str(&mut v, " — ");
    push_decimal(&mut v, b.obligations as u64);
    push_str(&mut v, " obligation(s), ");
    push_decimal(&mut v, b.atoms.len() as u64);
    push_str(&mut v, " atom(s), ");
    push_decimal(&mut v, b.deliverables.len() as u64);
    push_str(&mut v, " deliverable(s) (");
    let t = count_truncated(&b.deliverables);
    push_decimal(&mut v, t as u64);
    push_str(&mut v, " truncated), ");
    push_decimal(&mut v, b.plants.len() as u64);
    push_str(&mut v, " plant line(s), ");
    push_decimal(&mut v, b.gate_runs as u64);
    push_str(&mut v, " gate run(s), ");
    push_decimal(&mut v, b.prior_verifications as u64);
    push_str(&mut v, " prior verification(s), ~");
    push_decimal(&mut v, b.estimated_tokens);
    push_str(&mut v, " tokens (");
    push_str(&mut v, b.token_method.as_str());
    push_str(&mut v, ")");
    let message = string_of(&v);
    let mut report = Report::default();
    report.push(Diagnostic::pass("verify.bundle", message.as_str()));
    proof {
        assert(v@ =~= spec_emit_message(alias@, path@, digest@, *b));
    }
    report
}

/// What a bundle carries of one deliverable's bytes: their digest, their
/// length, the head it quotes (all of them under the cap, else the first
/// `cap`), and whether that head is truncated.
#[derive(Debug)]
pub struct Excerpt {
    pub sha256: String,
    pub bytes: u64,
    pub head: Vec<u8>,
    pub truncated: bool,
}

/// The excerpt of a deliverable's bytes under a cap of `cap` bytes.
pub fn excerpt(bytes: &[u8], cap: usize) -> (r: Excerpt)
    ensures
        r.sha256@ == spec_hex(sha256_of(bytes@)),
        r.bytes == bytes@.len(),
        r.truncated == (bytes@.len() > cap),
        r.head@ == if bytes@.len() > cap { bytes@.take(cap as int) } else { bytes@ },
{
    let truncated = bytes.len() > cap;
    let n = if truncated { cap } else { bytes.len() };
    let mut head: Vec<u8> = Vec::new();
    let mut i: usize = 0;
    while i < n
        invariant
            i <= n <= bytes@.len(),
            head@ == bytes@.take(i as int),
        decreases n - i,
    {
        head.push(bytes[i]);
        proof {
            assert(bytes@.take(i + 1) =~= bytes@.take(i as int).push(bytes@[i as int]));
        }
        i = i + 1;
    }
    proof {
        if !truncated {
            assert(bytes@.take(n as int) =~= bytes@);
        }
    }
    Excerpt { sha256: sha256_hex(bytes), bytes: bytes.len() as u64, head, truncated }
}

/// The file a bundle is written to: `bundle-` and the first sixteen
/// characters of its digest without the `sha256:` prefix.
pub fn bundle_file_name(digest: &str) -> (r: String)
    ensures
        r@ == "bundle-"@ + {
            let d = strip_all_prefix(digest@, "sha256:"@);
            d.take(if d.len() < 16 { d.len() as int } else { 16 })
        } + ".json"@,
{
    let v = chars_of(digest);
    let p = chars_of("sha256:");
    let d = strip_prefixes(&v, &p);
    let n = if d.len() < 16 { d.len() } else { 16 };
    let head = slice_of(&d, 0, n);
    let mut out = chars_of("bundle-");
    push_all(&mut out, &head);
    push_str(&mut out, ".json");
    proof {
        assert(head@ =~= d@.take(n as int));
    }
    string_of(&out)
}

} // verus!
