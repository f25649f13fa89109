//! Citations of SAS sections by amendments (`sas.section-ref` and
//! `sas.section-current`): a cited section must exist at the revision the
//! Warrant is pinned to, under that revision's namespace, and is compared
//! with the latest accepted revision. Bytes that cannot be read are
//! unknown, never a pass.

use vstd::prelude::*;

use crate::diagnostic::{Diagnostic, Severity};
use crate::pins::{all_agree, finding_of, make, Finding};
use crate::text::{
    chars_of, contains, has_char, lex_less, lex_lt, push_str, str_eq, string_of, trim, trimmed,
};
use crate::warrant_rules::push_agreeing;

verus! {

/// The value an amendment's `governing_adr_or_policy` is read as: trimmed.
pub fn governing_value(s: &str) -> (r: String)
    ensures
        r@ == trim(s@),
{
    string_of(&trimmed(&chars_of(s)))
}

/// The revision the section citations are held to: the latest amendment's
/// re-pin, else the authorization's pin, else the fallback pin, provided it
/// is a recorded revision.
pub open spec fn spec_pinned(amended: Option<Seq<char>>, authorized: Option<Seq<char>>, fallback: Option<Seq<char>>, versions: Seq<Seq<char>>) -> Option<Seq<char>> {
    let first = if amended is Some { amended } else if authorized is Some { authorized } else { fallback };
    match first {
        Some(v) => if versions.contains(v) { Some(v) } else { None },
        None => None,
    }
}

pub open spec fn oview(o: Option<String>) -> Option<Seq<char>> {
    match o {
        Some(s) => Some(s@),
        None => None,
    }
}

/// The revision the section citations of a Warrant are held to.
pub fn pinned_revision(amended: &Option<String>, authorized: &Option<String>, fallback: &Option<String>, versions: &Vec<String>) -> (r: Option<String>)
    ensures
        oview(r) == spec_pinned(oview(*amended), oview(*authorized), oview(*fallback), crate::text::strs(versions@)),
{
    let first: &Option<String> = if amended.is_some() { amended } else if authorized.is_some() { authorized } else { fallback };
    let ghost want_first = if oview(*amended) is Some { oview(*amended) } else if oview(*authorized) is Some { oview(*authorized) } else { oview(*fallback) };
    assert(oview(*first) == want_first);
    match first {
        None => None,
        Some(v) => {
            let ghost vs = crate::text::strs(versions@);
            let mut k: usize = 0;
            while k < versions.len()
                invariant
                    k <= versions.len(),
                    vs == crate::text::strs(versions@),
                    want_first == Some(v@),
                    want_first == if oview(*amended) is Some { oview(*amended) } else if oview(*authorized) is Some { oview(*authorized) } else { oview(*fallback) },
                    forall|j: int| 0 <= j < k ==> #[trigger] versions@[j]@ != v@,
                decreases versions.len() - k,
            {
                if str_eq(versions[k].as_str(), v.as_str()) {
                    let out = string_of(&chars_of(v.as_str()));
                    proof {
                        assert(vs[k as int] == v@);
                        assert(vs.contains(v@));
                        assert(out@ == v@);
                    }
                    return Some(out);
                }
                k = k + 1;
            }
            proof {
                assert(!crate::text::strs(versions@).contains(v@)) by {
                    if crate::text::strs(versions@).contains(v@) {
                        let j = choose|j: int| 0 <= j < versions.len() && crate::text::strs(versions@)[j] == v@;
                        assert(versions@[j]@ == v@);
                    }
                }
            }
            None
        },
    }
}

/// The greatest accepted version, in the order of `String`.
pub open spec fn latest_of(revs: Seq<(String, bool)>) -> Option<Seq<char>>
    decreases revs.len(),
{
    if revs.len() == 0 {
        None
    } else {
        let prev = latest_of(revs.drop_last());
        let (v, accepted) = revs.last();
        if !accepted {
            prev
        } else {
            match prev {
                None => Some(v@),
                Some(p) => if lex_lt(p, v@) {
                    Some(v@)
                } else {
                    Some(p)
                },
            }
        }
    }
}

/// The latest accepted revision among `(version, accepted)` pairs.
pub fn latest_accepted(revs: &Vec<(String, bool)>) -> (r: Option<String>)
    ensures
        oview(r) == latest_of(revs@),
{
    let mut best: Option<Vec<char>> = None;
    let mut i: usize = 0;
    while i < revs.len()
        invariant
            i <= revs.len(),
            latest_of(revs@.take(i as int)) == match best {
                Some(b) => Some(b@),
                None => None::<Seq<char>>,
            },
        decreases revs.len() - i,
    {
        proof {
            assert(revs@.take(i + 1).drop_last() =~= revs@.take(i as int));
            assert(revs@.take(i + 1).last() == revs@[i as int]);
        }
        if revs[i].1 {
            let v = chars_of(revs[i].0.as_str());
            let replace = match &best {
                None => true,
                Some(b) => lex_less(b, &v),
            };
            if replace {
                best = Some(v);
            }
        }
        i = i + 1;
    }
    proof {
        assert(revs@.take(revs.len() as int) =~= revs@);
    }
    match best {
        Some(b) => Some(string_of(&b)),
        None => None,
    }
}

/// A parsed section citation: the namespace and the section (or
/// subsection) it names.
#[derive(Debug)]
pub struct SectionCitation {
    pub namespace: String,
    pub section: String,
}

/// What the revision the Warrant is pinned to says of a cited section: the
/// namespace its requirement section carries, if any, and the section's digest, if the
/// section exists there.
#[derive(Debug)]
pub struct SectionsAt {
    pub namespace: Option<String>,
    pub digest: Option<String>,
}

/// The findings on one amendment's section citation: `id` is the
/// amendment, `value` the citation as written, `at_pin` the pinned
/// revision's sections (or why they cannot be read), `latest` the latest
/// accepted revision, and `at_latest` the cited section's digest there (or
/// why it cannot be read), consulted only when `latest` is another
/// revision.
pub open spec fn spec_section_ref(
    alias: Seq<char>,
    id: Seq<char>,
    value: Seq<char>,
    c: SectionCitation,
    pinned: Seq<char>,
    at_pin: Result<SectionsAt, String>,
    latest: Option<Seq<char>>,
    at_latest: Result<Option<String>, String>,
) -> Seq<Finding> {
    match at_pin {
        Err(why) => {
            let m = alias + ": amendment "@ + id + " cites "@ + value + "; SAS "@ + pinned
                + ", which the Warrant is pinned to, cannot be read: "@ + why@;
            seq![
                (Severity::Unknown, "sas.section-ref"@, true, m),
                (Severity::Unknown, "sas.section-current"@, true, m),
            ]
        },
        Ok(at) => if at.namespace is Some && at.namespace->0@ != c.namespace@ {
            let ns = at.namespace->0@;
            seq![(
                Severity::Error,
                "sas.section-ref"@,
                true,
                alias + ": amendment "@ + id + " cites "@ + value + ", but SAS "@ + pinned + " is namespace "@ + ns
                    + "; a section is cited as sas://"@ + ns + "-SAS-"@ + c.section@,
            )]
        } else {
            match at.digest {
                None => seq![(
                    Severity::Error,
                    "sas.section-ref"@,
                    true,
                    alias + ": amendment "@ + id + " cites "@ + value + ", and SAS "@ + pinned + " has no "@
                        + (if contains(c.section@, "."@) { "subsection"@ } else { "section"@ }) + " "@
                        + c.section@
                        + ". A citation names a section of the revision the Warrant is pinned to (docs/sas/generated/SECTIONS.md lists the revision in force)"@,
                )],
                Some(d) => seq![(
                    Severity::Pass,
                    "sas.section-ref"@,
                    false,
                    alias + ": "@ + value + " names a section of SAS "@ + pinned,
                )] + seq![spec_section_current(alias, value, pinned, d@, latest, at_latest)],
            }
        },
    }
}

/// How a cited section at the pinned revision compares with the latest
/// accepted revision.
pub open spec fn spec_section_current(alias: Seq<char>, value: Seq<char>, pinned: Seq<char>, digest: Seq<char>, latest: Option<Seq<char>>, at_latest: Result<Option<String>, String>) -> Finding {
    match latest {
        None => (
            Severity::Unknown,
            "sas.section-current"@,
            true,
            alias + ": "@ + value + " — no SAS revision is accepted, so there is nothing to compare SAS "@ + pinned + " with"@,
        ),
        Some(l) => if l == pinned {
            (
                Severity::Pass,
                "sas.section-current"@,
                false,
                alias + ": "@ + value + " is cited at SAS "@ + pinned + ", the latest accepted revision"@,
            )
        } else {
            match at_latest {
                Err(why) => (
                    Severity::Unknown,
                    "sas.section-current"@,
                    true,
                    alias + ": "@ + value + " at SAS "@ + pinned + " cannot be compared with SAS "@ + l + ": "@ + why@,
                ),
                Ok(Some(now)) => if now@ == digest {
                    (
                        Severity::Pass,
                        "sas.section-current"@,
                        false,
                        alias + ": "@ + value + " is unchanged between SAS "@ + pinned + " and SAS "@ + l,
                    )
                } else {
                    (
                        Severity::Warn,
                        "sas.section-current"@,
                        true,
                        alias + ": "@ + value + " changed between SAS "@ + pinned
                            + ", which the Warrant is pinned to, and SAS "@ + l
                            + ", the latest accepted revision; what the amendment relied on is not what the SAS now says"@,
                    )
                },
                Ok(None) => (
                    Severity::Warn,
                    "sas.section-current"@,
                    true,
                    alias + ": "@ + value + " exists at SAS "@ + pinned + ", which the Warrant is pinned to, and not at SAS "@
                        + l + ", the latest accepted revision"@,
                ),
            }
        },
    }
}

fn section_current(alias: &str, file: &str, value: &str, pinned: &str, digest: &str, latest: &Option<String>, at_latest: &Result<Option<String>, String>) -> (d: Diagnostic)
    ensures
        finding_of(d, file@) == Some(spec_section_current(alias@, value@, pinned@, digest@, oview(*latest), *at_latest)),
{
    let mut m = chars_of(alias);
    push_str(&mut m, ": ");
    push_str(&mut m, value);
    let l = match latest {
        None => {
            push_str(&mut m, " — no SAS revision is accepted, so there is nothing to compare SAS ");
            push_str(&mut m, pinned);
            push_str(&mut m, " with");
            return make(Severity::Unknown, "sas.section-current", true, file, &m);
        },
        Some(l) => l.as_str(),
    };
    if str_eq(l, pinned) {
        push_str(&mut m, " is cited at SAS ");
        push_str(&mut m, pinned);
        push_str(&mut m, ", the latest accepted revision");
        return make(Severity::Pass, "sas.section-current", false, file, &m);
    }
    match at_latest {
        Err(why) => {
            push_str(&mut m, " at SAS ");
            push_str(&mut m, pinned);
            push_str(&mut m, " cannot be compared with SAS ");
            push_str(&mut m, l);
            push_str(&mut m, ": ");
            push_str(&mut m, why.as_str());
            make(Severity::Unknown, "sas.section-current", true, file, &m)
        },
        Ok(Some(now)) => {
            if str_eq(now.as_str(), digest) {
                push_str(&mut m, " is unchanged between SAS ");
                push_str(&mut m, pinned);
                push_str(&mut m, " and SAS ");
                push_str(&mut m, l);
                make(Severity::Pass, "sas.section-current", false, file, &m)
            } else {
                push_str(&mut m, " changed between SAS ");
                push_str(&mut m, pinned);
                push_str(&mut m, ", which the Warrant is pinned to, and SAS ");
                push_str(&mut m, l);
                push_str(&mut m, ", the latest accepted revision; what the amendment relied on is not what the SAS now says");
                make(Severity::Warn, "sas.section-current", true, file, &m)
            }
        },
        Ok(None) => {
            push_str(&mut m, " exists at SAS ");
            push_str(&mut m, pinned);
            push_str(&mut m, ", which the Warrant is pinned to, and not at SAS ");
            push_str(&mut m, l);
            push_str(&mut m, ", the latest accepted revision");
            make(Severity::Warn, "sas.section-current", true, file, &m)
        },
    }
}

/// The findings on one amendment's section citation, anchored to the
/// amendment's file `file`.
pub fn section_ref_findings(
    alias: &str,
    file: &str,
    id: &str,
    value: &str,
    c: &SectionCitation,
    pinned: &str,
    at_pin: &Result<SectionsAt, String>,
    latest: &Option<String>,
    at_latest: &Result<Option<String>, String>,
) -> (r: Vec<Diagnostic>)
    ensures
        all_agree(r@, file@, spec_section_ref(alias@, id@, value@, *c, pinned@, *at_pin, oview(*latest), *at_latest)),
{
    let mut out: Vec<Diagnostic> = Vec::new();
    let ghost want = spec_section_ref(alias@, id@, value@, *c, pinned@, *at_pin, oview(*latest), *at_latest);
    let ghost e = Seq::<Finding>::empty();
    let at = match at_pin {
        Err(why) => {
            let mut m = chars_of(alias);
            push_str(&mut m, ": amendment ");
            push_str(&mut m, id);
            push_str(&mut m, " cites ");
            push_str(&mut m, value);
            push_str(&mut m, "; SAS ");
            push_str(&mut m, pinned);
            push_str(&mut m, ", which the Warrant is pinned to, cannot be read: ");
            push_str(&mut m, why.as_str());
            let d1 = make(Severity::Unknown, "sas.section-ref", true, file, &m);
            push_agreeing(&mut out, d1, Ghost(file@), Ghost(e), Ghost(want[0]));
            let d2 = make(Severity::Unknown, "sas.section-current", true, file, &m);
            push_agreeing(&mut out, d2, Ghost(file@), Ghost(e.push(want[0])), Ghost(want[1]));
            proof { assert(e.push(want[0]).push(want[1]) =~= want); }
            return out;
        },
        Ok(at) => at,
    };
    match &at.namespace {
        Some(ns) => {
            if !str_eq(ns.as_str(), c.namespace.as_str()) {
                let mut m = chars_of(alias);
                push_str(&mut m, ": amendment ");
                push_str(&mut m, id);
                push_str(&mut m, " cites ");
                push_str(&mut m, value);
                push_str(&mut m, ", but SAS ");
                push_str(&mut m, pinned);
                push_str(&mut m, " is namespace ");
                push_str(&mut m, ns.as_str());
                push_str(&mut m, "; a section is cited as sas://");
                push_str(&mut m, ns.as_str());
                push_str(&mut m, "-SAS-");
                push_str(&mut m, c.section.as_str());
                let d = make(Severity::Error, "sas.section-ref", true, file, &m);
                push_agreeing(&mut out, d, Ghost(file@), Ghost(e), Ghost(want[0]));
                proof { assert(e.push(want[0]) =~= want); }
                return out;
            }
        },
        None => {},
    }
    match &at.digest {
        None => {
            let mut m = chars_of(alias);
            push_str(&mut m, ": amendment ");
            push_str(&mut m, id);
            push_str(&mut m, " cites ");
            push_str(&mut m, value);
            push_str(&mut m, ", and SAS ");
            push_str(&mut m, pinned);
            push_str(&mut m, " has no ");
            let sv = chars_of(c.section.as_str());
            proof {
                reveal_strlit(".");
                assert(contains(c.section@, "."@) == sv@.contains('.')) by {
                    if sv@.contains('.') {
                        let i = choose|i: int| 0 <= i < sv@.len() && sv@[i] == '.';
                        assert(sv@.subrange(i, i + 1) =~= "."@);
                        assert(crate::text::is_at(sv@, "."@, i));
                    }
                    if contains(c.section@, "."@) {
                        let i = choose|i: int| crate::text::is_at(sv@, "."@, i);
                        assert(sv@.subrange(i, i + 1)[0] == sv@[i]);
                        assert(sv@[i] == '.');
                    }
                }
            }
            if has_char(&sv, '.') {
                push_str(&mut m, "subsection");
            } else {
                push_str(&mut m, "section");
            }
            push_str(&mut m, " ");
            push_str(&mut m, c.section.as_str());
            push_str(&mut m, ". A citation names a section of the revision the Warrant is pinned to (docs/sas/generated/SECTIONS.md lists the revision in force)");
            let d = make(Severity::Error, "sas.section-ref", true, file, &m);
            push_agreeing(&mut out, d, Ghost(file@), Ghost(e), Ghost(want[0]));
            proof { assert(e.push(want[0]) =~= want); }
            out
        },
        Some(digest) => {
            let mut m = chars_of(alias);
            push_str(&mut m, ": ");
            push_str(&mut m, value);
            push_str(&mut m, " names a section of SAS ");
            push_str(&mut m, pinned);
            let d = make(Severity::Pass, "sas.section-ref", false, file, &m);
            push_agreeing(&mut out, d, Ghost(file@), Ghost(e), Ghost(want[0]));
            let d2 = section_current(alias, file, value, pinned, digest.as_str(), latest, at_latest);
            push_agreeing(&mut out, d2, Ghost(file@), Ghost(e.push(want[0])), Ghost(want[1]));
            proof { assert(e.push(want[0]).push(want[1]) =~= want); }
            out
        },
    }
}

/// `sas.section-ref` for an amendment whose `governing_adr_or_policy` reads
/// as a section citation and does not parse.
pub fn section_ref_unparsed(alias: &str, file: &str, id: &str, why: &str) -> (d: Diagnostic)
    ensures
        finding_of(d, file@) == Some((Severity::Error, "sas.section-ref"@, true, alias@ + ": amendment "@ + id@ + " — "@ + why@)),
{
    let mut m = chars_of(alias);
    push_str(&mut m, ": amendment ");
    push_str(&mut m, id);
    push_str(&mut m, " — ");
    push_str(&mut m, why);
    make(Severity::Error, "sas.section-ref", true, file, &m)
}

/// When the pinned revision cannot be read, both rules are unknown: bytes
/// that cannot be read are never a pass.
pub proof fn lemma_unreadable_pin_is_unknown(
    alias: Seq<char>,
    id: Seq<char>,
    value: Seq<char>,
    c: SectionCitation,
    pinned: Seq<char>,
    at_pin: Result<SectionsAt, String>,
    latest: Option<Seq<char>>,
    at_latest: Result<Option<String>, String>,
)
    requires
        at_pin is Err,
    ensures
        spec_section_ref(alias, id, value, c, pinned, at_pin, latest, at_latest).len() == 2,
        forall|i: int| 0 <= i < 2 ==> #[trigger] spec_section_ref(alias, id, value, c, pinned, at_pin, latest, at_latest)[i].0 == Severity::Unknown,
{
}

/// A section absent at the pinned revision is an error.
pub proof fn lemma_absent_section_is_an_error(
    alias: Seq<char>,
    id: Seq<char>,
    value: Seq<char>,
    c: SectionCitation,
    pinned: Seq<char>,
    at_pin: Result<SectionsAt, String>,
    latest: Option<Seq<char>>,
    at_latest: Result<Option<String>, String>,
)
    requires
        at_pin is Ok,
        at_pin->Ok_0.digest is None,
    ensures
        spec_section_ref(alias, id, value, c, pinned, at_pin, latest, at_latest)[0].0 == Severity::Error,
        spec_section_ref(alias, id, value, c, pinned, at_pin, latest, at_latest)[0].1 == "sas.section-ref"@,
{
}

} // verus!
