//! A child's citation of its parent: the cited revision number and
//! the cited contract digest must name the same authorized revision of the
//! parent. What retained history cannot answer is reported as unknown,
//! never as a pass.

use vstd::prelude::*;

use crate::check::{current_comparison, file_view, opt_view, spec_current_comparison};
use crate::diagnostic::{Diagnostic, Severity};
use crate::pins::{all_agree, finding_of, make, Finding};
use crate::text::{chars_of, decimal, push_decimal, push_str, slice_of, starts_lit, starts_with, str_eq};
use crate::warrant_rules::push_agreeing;

verus! {

/// One parent a manifest cites: the reference, and the revision and
/// contract digest it cites.
#[derive(Debug)]
pub struct ParentCitation {
    pub reference: String,
    pub revision: Option<u32>,
    pub digest: Option<String>,
}

/// The parent's authorization record, as read.
#[derive(Debug)]
pub enum ParentAuthorization {
    /// The record exists and cannot be read.
    Unreadable { why: String },
    /// No record: a draft, whose one revision is what it compiles to now.
    Draft,
    /// A record not in the authorized state.
    NotAuthorized,
    /// An authorized record at revision `latest` with digest
    /// `latest_digest`; `earlier[k - 1]` is the digest of revision `k` for
    /// each earlier revision, or why retained history cannot give it.
    Authorized { latest: u32, latest_digest: String, earlier: Vec<Result<String, String>> },
}

impl ParentAuthorization {
    /// Every earlier revision has its entry.
    pub open spec fn wf(self) -> bool {
        match self {
            ParentAuthorization::Authorized { latest, earlier, .. } => earlier.len() + 1 == latest
                || (latest == 0 && earlier.len() == 0),
            _ => true,
        }
    }
}

/// A cited parent found in this repository: its alias, the digest its
/// contract compiles to now (if it compiles), and its authorization record.
#[derive(Debug)]
pub struct ParentRecord {
    pub alias: String,
    pub current: Option<String>,
    pub authorization: ParentAuthorization,
}

/// The cited digest without one `sha256:` prefix.
pub open spec fn cited_body(d: Seq<char>) -> Seq<char> {
    if starts_with(d, "sha256:"@) {
        d.skip(7)
    } else {
        d
    }
}

/// The comparison with the parent as it compiles now, as a finding.
pub open spec fn current_finding(file: Seq<char>, alias: Seq<char>, reference: Seq<char>, cited: Seq<char>, current: Option<Seq<char>>) -> Finding {
    let c = spec_current_comparison(file, alias, reference, cited, current);
    (c.0, "relations.parent-digest"@, c.1 is Some, c.2)
}

/// The digest of revision `k` of an authorized parent.
pub open spec fn rev_digest(latest: u32, latest_digest: Seq<char>, earlier: Seq<Result<String, String>>, k: int) -> Result<Seq<char>, Seq<char>> {
    if k == latest {
        Ok(latest_digest)
    } else {
        match earlier[k - 1] {
            Ok(d) => Ok(d@),
            Err(w) => Err(w@),
        }
    }
}

/// The revisions from `k` down to 1 other than `r`, searched for the cited
/// digest: the first revision whose digest it is, and the first reason a
/// revision's digest could not be read before that.
pub open spec fn search_down(latest: u32, latest_digest: Seq<char>, earlier: Seq<Result<String, String>>, k: int, r: int, cited: Seq<char>, unreadable: Option<Seq<char>>) -> (Option<int>, Option<Seq<char>>)
    decreases k,
{
    if k < 1 {
        (None, unreadable)
    } else if k == r {
        search_down(latest, latest_digest, earlier, k - 1, r, cited, unreadable)
    } else {
        match rev_digest(latest, latest_digest, earlier, k) {
            Ok(d) => if d == cited {
                (Some(k), unreadable)
            } else {
                search_down(latest, latest_digest, earlier, k - 1, r, cited, unreadable)
            },
            Err(w) => search_down(
                latest,
                latest_digest,
                earlier,
                k - 1,
                r,
                cited,
                if unreadable is None { Some(w) } else { unreadable },
            ),
        }
    }
}

/// A citation that pairs revision `r` with the digest of revision
/// `belongs`: for an authorized child a warning, since the signed record
/// stands and the fix is an amendment; else an error, since the fix is an
/// edit.
pub open spec fn wrong_revision(alias: Seq<char>, child_authorized: bool, pa: Seq<char>, r: nat, cited: Seq<char>, belongs: nat) -> Finding {
    let head = alias + ": parent "@ + pa + " is cited as revision "@ + decimal(r) + " at sha256:"@ + cited
        + ", which is the digest of revision "@ + decimal(belongs) + "; "@;
    if child_authorized {
        (
            Severity::Warn,
            "relations.parent-revision"@,
            true,
            head + alias + "'s contract is authorized, so the signed record stands as it is; making the number and the digest agree is an amendment of "@ + alias,
        )
    } else {
        (
            Severity::Error,
            "relations.parent-revision"@,
            true,
            head + "cite revision "@ + decimal(belongs) + ", or revision "@ + decimal(r)
                + " at its own digest — `war new --parent "@ + pa + "` writes the latest exactly"@,
        )
    }
}

/// The findings on a citation of an authorized parent at revision `r`.
pub open spec fn spec_authorized(
    file: Seq<char>,
    alias: Seq<char>,
    child_authorized: bool,
    reference: Seq<char>,
    pa: Seq<char>,
    cited: Seq<char>,
    r: nat,
    latest: u32,
    latest_digest: Seq<char>,
    earlier: Seq<Result<String, String>>,
    current: Option<Seq<char>>,
) -> Seq<Finding> {
    if r == 0 || r > latest {
        seq![(
            Severity::Error,
            "relations.parent-revision"@,
            true,
            alias + ": parent "@ + pa + " is cited at revision "@ + decimal(r)
                + ", which does not exist: its latest authorized revision is "@ + decimal(latest as nat),
        )]
    } else if r < latest && cited == latest_digest {
        seq![
            wrong_revision(alias, child_authorized, pa, r, cited, latest as nat),
            current_finding(file, alias, reference, cited, current),
        ]
    } else {
        match rev_digest(latest, latest_digest, earlier, r as int) {
            Err(why) => seq![(
                Severity::Unknown,
                "relations.parent-revision"@,
                true,
                alias + ": parent "@ + pa + " is cited at revision "@ + decimal(r)
                    + ", whose digest only retained history holds, and it cannot be read: "@ + why
                    + ". Neither pass nor error — run `war check` in a full clone"@,
            )],
            Ok(own) => if own == cited {
                seq![(
                    Severity::Pass,
                    "relations.parent-revision"@,
                    false,
                    alias + ": parent "@ + pa + " is cited at revision "@ + decimal(r)
                        + ", at that revision's digest"@,
                )] + if r < latest {
                    seq![(
                        Severity::Warn,
                        "relations.parent-moved"@,
                        true,
                        alias + ": parent "@ + pa + " has moved from revision "@ + decimal(r)
                            + " to revision "@ + decimal(latest as nat) + "; the citation of revision "@
                            + decimal(r) + " is exact and stays sound. Re-citing revision "@
                            + decimal(latest as nat) + " is an amendment of "@ + alias,
                    )]
                } else {
                    seq![current_finding(file, alias, reference, cited, current)]
                }
            } else {
                let (belongs, unreadable) = search_down(latest, latest_digest, earlier, latest as int, r as int, cited, None);
                let head = alias + ": parent "@ + pa + " is cited as revision "@ + decimal(r) + " at sha256:"@ + cited;
                match belongs {
                    Some(b) => seq![wrong_revision(alias, child_authorized, pa, r, cited, b as nat)],
                    None => match unreadable {
                        None => seq![(
                            Severity::Error,
                            "relations.parent-digest"@,
                            true,
                            head + ", which is the digest of no authorized revision of it; revision "@
                                + decimal(r) + " is sha256:"@ + own,
                        )],
                        Some(why) => if !child_authorized {
                            seq![(
                                Severity::Error,
                                "relations.parent-digest"@,
                                true,
                                head + ", which is not revision "@ + decimal(r) + "'s digest sha256:"@ + own
                                    + "; whether it is an earlier revision's could not be read ("@ + why + ")"@,
                            )]
                        } else {
                            seq![(
                                Severity::Unknown,
                                "relations.parent-revision"@,
                                true,
                                head + ", which is not revision "@ + decimal(r)
                                    + "'s digest; which revision it names needs retained history that cannot be read: "@
                                    + why,
                            )]
                        },
                    },
                }
            },
        }
    }
}

/// What the hint of an undigested citation offers.
pub open spec fn digest_hint(current: Option<Seq<char>>) -> Seq<char> {
    match current {
        None => "its contract does not compile, so no digest can be offered"@,
        Some(d) => "its current digest is sha256:"@ + d + " — add `contract_digest = \"sha256:"@ + d
            + "\"` to pin it"@,
    }
}

/// The findings on one parent citation of the Warrant `alias`, whose
/// manifest is `file`; `parent` is the cited parent when it is in this
/// repository.
pub open spec fn spec_parent(file: Seq<char>, alias: Seq<char>, child_authorized: bool, c: ParentCitation, parent: Option<ParentRecord>) -> Seq<Finding> {
    let reference = c.reference@;
    match parent {
        None => seq![(
            Severity::Unknown,
            "relations.parent-digest"@,
            true,
            alias + ": parent "@ + reference
                + " is not in this repository, so its contract digest cannot be computed; cross-repository resolution needs federation"@,
        )],
        Some(p) => {
            let current = file_view(p.current);
            match c.digest {
                None => seq![(
                    Severity::Unknown,
                    "relations.parent-digest"@,
                    true,
                    alias + ": parent "@ + reference + " cites a revision but no contract_digest (§20.2). "@
                        + digest_hint(current) + "."@,
                )],
                Some(d) => {
                    let cited = cited_body(d@);
                    let r: nat = match c.revision {
                        Some(x) => x as nat,
                        None => 1,
                    };
                    let pa = p.alias@;
                    match p.authorization {
                        ParentAuthorization::Unreadable { why } => seq![(
                            Severity::Unknown,
                            "relations.parent-revision"@,
                            true,
                            alias + ": parent "@ + pa + "'s authorization record cannot be read, so revision "@
                                + decimal(r) + " cannot be looked up: "@ + why@,
                        )],
                        ParentAuthorization::Draft => if r != 1 {
                            seq![(
                                Severity::Error,
                                "relations.parent-revision"@,
                                true,
                                alias + ": parent "@ + pa + " is cited at revision "@ + decimal(r)
                                    + ", which does not exist: "@ + pa
                                    + " has no authorized revision, so a citation of it can only be revision 1"@,
                            )]
                        } else {
                            seq![current_finding(file, alias, reference, cited, current)]
                        },
                        ParentAuthorization::NotAuthorized => seq![(
                            Severity::Unknown,
                            "relations.parent-revision"@,
                            true,
                            alias + ": parent "@ + pa
                                + "'s authorization record is not in the authorized state, so its revisions cannot be read from it"@,
                        )],
                        ParentAuthorization::Authorized { latest, latest_digest, earlier } => spec_authorized(
                            file,
                            alias,
                            child_authorized,
                            reference,
                            pa,
                            cited,
                            r,
                            latest,
                            latest_digest@,
                            earlier@,
                            current,
                        ),
                    }
                },
            }
        },
    }
}

fn current_diag(file: &str, alias: &str, reference: &str, cited: &str, current: &Option<String>) -> (d: Diagnostic)
    ensures
        finding_of(d, file@) == Some(current_finding(file@, alias@, reference@, cited@, file_view(*current))),
{
    let cur: Option<&str> = match current {
        Some(s) => Some(s.as_str()),
        None => None,
    };
    proof {
        assert(opt_view(cur) == file_view(*current));
    }
    current_comparison(file, alias, reference, cited, cur)
}

fn wrong_diag(file: &str, alias: &str, child_authorized: bool, pa: &str, r: u32, cited: &str, belongs: u32) -> (d: Diagnostic)
    ensures
        finding_of(d, file@) == Some(wrong_revision(alias@, child_authorized, pa@, r as nat, cited@, belongs as nat)),
{
    let mut m = chars_of(alias);
    push_str(&mut m, ": parent ");
    push_str(&mut m, pa);
    push_str(&mut m, " is cited as revision ");
    push_decimal(&mut m, r as u64);
    push_str(&mut m, " at sha256:");
    push_str(&mut m, cited);
    push_str(&mut m, ", which is the digest of revision ");
    push_decimal(&mut m, belongs as u64);
    push_str(&mut m, "; ");
    if child_authorized {
        push_str(&mut m, alias);
        push_str(&mut m, "'s contract is authorized, so the signed record stands as it is; making the number and the digest agree is an amendment of ");
        push_str(&mut m, alias);
        make(Severity::Warn, "relations.parent-revision", true, file, &m)
    } else {
        push_str(&mut m, "cite revision ");
        push_decimal(&mut m, belongs as u64);
        push_str(&mut m, ", or revision ");
        push_decimal(&mut m, r as u64);
        push_str(&mut m, " at its own digest — `war new --parent ");
        push_str(&mut m, pa);
        push_str(&mut m, "` writes the latest exactly");
        make(Severity::Error, "relations.parent-revision", true, file, &m)
    }
}

pub open spec fn opt_int(o: Option<u32>) -> Option<int> {
    match o {
        Some(k) => Some(k as int),
        None => None,
    }
}

fn search(latest: u32, latest_digest: &str, earlier: &Vec<Result<String, String>>, r: u32, cited: &str) -> (res: (Option<u32>, Option<String>))
    requires
        earlier.len() + 1 == latest,
    ensures
        (opt_int(res.0), file_view(res.1)) == search_down(latest, latest_digest@, earlier@, latest as int, r as int, cited@, None),
{
    let mut k: u32 = latest;
    let mut unreadable: Option<String> = None;
    while k >= 1
        invariant
            k <= latest,
            earlier.len() + 1 == latest,
            search_down(latest, latest_digest@, earlier@, latest as int, r as int, cited@, None)
                == search_down(latest, latest_digest@, earlier@, k as int, r as int, cited@, file_view(unreadable)),
        decreases k,
    {
        if k != r {
            let found: Result<&str, &str> = if k == latest {
                Ok(latest_digest)
            } else {
                match &earlier[(k - 1) as usize] {
                    Ok(d) => Ok(d.as_str()),
                    Err(w) => Err(w.as_str()),
                }
            };
            match found {
                Ok(d) => {
                    if str_eq(d, cited) {
                        return (Some(k), unreadable);
                    }
                },
                Err(w) => {
                    if unreadable.is_none() {
                        unreadable = Some(crate::text::string_of(&chars_of(w)));
                    }
                },
            }
        }
        k = k - 1;
    }
    (None, unreadable)
}

/// The findings on one parent citation of the Warrant `alias`, whose
/// manifest is `file` and whose own authorization is on record when
/// `child_authorized`; `parent` is the cited parent when it is in this
/// repository.
pub fn parent_findings(
    file: &str,
    alias: &str,
    child_authorized: bool,
    c: &ParentCitation,
    parent: &Option<ParentRecord>,
) -> (r: Vec<Diagnostic>)
    requires
        parent is Some ==> parent->0.authorization.wf(),
    ensures
        all_agree(r@, file@, spec_parent(file@, alias@, child_authorized, *c, *parent)),
{
    let mut out: Vec<Diagnostic> = Vec::new();
    let ghost want = spec_parent(file@, alias@, child_authorized, *c, *parent);
    let ghost e = Seq::<Finding>::empty();
    let reference = c.reference.as_str();
    let p = match parent {
        None => {
            let mut m = chars_of(alias);
            push_str(&mut m, ": parent ");
            push_str(&mut m, reference);
            push_str(&mut m, " is not in this repository, so its contract digest cannot be computed; cross-repository resolution needs federation");
            let d = make(Severity::Unknown, "relations.parent-digest", true, file, &m);
            push_agreeing(&mut out, d, Ghost(file@), Ghost(e), Ghost(want[0]));
            proof { assert(e.push(want[0]) =~= want); }
            return out;
        },
        Some(p) => p,
    };
    let d = match &c.digest {
        None => {
            let mut m = chars_of(alias);
            push_str(&mut m, ": parent ");
            push_str(&mut m, reference);
            push_str(&mut m, " cites a revision but no contract_digest (§20.2). ");
            match &p.current {
                None => push_str(&mut m, "its contract does not compile, so no digest can be offered"),
                Some(cd) => {
                    push_str(&mut m, "its current digest is sha256:");
                    push_str(&mut m, cd.as_str());
                    push_str(&mut m, " — add `contract_digest = \"sha256:");
                    push_str(&mut m, cd.as_str());
                    push_str(&mut m, "\"` to pin it");
                },
            }
            push_str(&mut m, ".");
            proof {
                assert(m@ =~= alias@ + ": parent "@ + reference@ + " cites a revision but no contract_digest (§20.2). "@
                    + digest_hint(file_view(p.current)) + "."@);
            }
            let d = make(Severity::Unknown, "relations.parent-digest", true, file, &m);
            push_agreeing(&mut out, d, Ghost(file@), Ghost(e), Ghost(want[0]));
            proof { assert(e.push(want[0]) =~= want); }
            return out;
        },
        Some(d) => d,
    };
    let dv = chars_of(d.as_str());
    let cited_v = if starts_lit(&dv, "sha256:") {
        proof { reveal_strlit("sha256:"); }
        slice_of(&dv, 7, dv.len())
    } else {
        dv
    };
    proof {
        reveal_strlit("sha256:");
        assert(cited_v@ =~= cited_body(d@));
    }
    let cited_s = crate::text::string_of(&cited_v);
    let cited = cited_s.as_str();
    let r: u32 = match c.revision {
        Some(x) => x,
        None => 1,
    };
    let pa = p.alias.as_str();
    match &p.authorization {
        ParentAuthorization::Unreadable { why } => {
            let mut m = chars_of(alias);
            push_str(&mut m, ": parent ");
            push_str(&mut m, pa);
            push_str(&mut m, "'s authorization record cannot be read, so revision ");
            push_decimal(&mut m, r as u64);
            push_str(&mut m, " cannot be looked up: ");
            push_str(&mut m, why.as_str());
            let d = make(Severity::Unknown, "relations.parent-revision", true, file, &m);
            push_agreeing(&mut out, d, Ghost(file@), Ghost(e), Ghost(want[0]));
            proof { assert(e.push(want[0]) =~= want); }
            out
        },
        ParentAuthorization::Draft => {
            if r != 1 {
                let mut m = chars_of(alias);
                push_str(&mut m, ": parent ");
                push_str(&mut m, pa);
                push_str(&mut m, " is cited at revision ");
                push_decimal(&mut m, r as u64);
                push_str(&mut m, ", which does not exist: ");
                push_str(&mut m, pa);
                push_str(&mut m, " has no authorized revision, so a citation of it can only be revision 1");
                let d = make(Severity::Error, "relations.parent-revision", true, file, &m);
                push_agreeing(&mut out, d, Ghost(file@), Ghost(e), Ghost(want[0]));
            } else {
                let d = current_diag(file, alias, reference, cited, &p.current);
                push_agreeing(&mut out, d, Ghost(file@), Ghost(e), Ghost(want[0]));
            }
            proof { assert(e.push(want[0]) =~= want); }
            out
        },
        ParentAuthorization::NotAuthorized => {
            let mut m = chars_of(alias);
            push_str(&mut m, ": parent ");
            push_str(&mut m, pa);
            push_str(&mut m, "'s authorization record is not in the authorized state, so its revisions cannot be read from it");
            let d = make(Severity::Unknown, "relations.parent-revision", true, file, &m);
            push_agreeing(&mut out, d, Ghost(file@), Ghost(e), Ghost(want[0]));
            proof { assert(e.push(want[0]) =~= want); }
            out
        },
        ParentAuthorization::Authorized { latest, latest_digest, earlier } => {
            authorized_findings(file, alias, child_authorized, reference, pa, cited, r, *latest, latest_digest.as_str(), earlier, &p.current)
        },
    }
}

fn authorized_findings(
    file: &str,
    alias: &str,
    child_authorized: bool,
    reference: &str,
    pa: &str,
    cited: &str,
    r: u32,
    latest: u32,
    latest_digest: &str,
    earlier: &Vec<Result<String, String>>,
    current: &Option<String>,
) -> (out: Vec<Diagnostic>)
    requires
        earlier.len() + 1 == latest || (latest == 0 && earlier.len() == 0),
    ensures
        all_agree(out@, file@, spec_authorized(file@, alias@, child_authorized, reference@, pa@, cited@, r as nat, latest, latest_digest@, earlier@, file_view(*current))),
{
    let mut out: Vec<Diagnostic> = Vec::new();
    let ghost want = spec_authorized(file@, alias@, child_authorized, reference@, pa@, cited@, r as nat, latest, latest_digest@, earlier@, file_view(*current));
    let ghost e = Seq::<Finding>::empty();
    if r == 0 || r > latest {
        let mut m = chars_of(alias);
        push_str(&mut m, ": parent ");
        push_str(&mut m, pa);
        push_str(&mut m, " is cited at revision ");
        push_decimal(&mut m, r as u64);
        push_str(&mut m, ", which does not exist: its latest authorized revision is ");
        push_decimal(&mut m, latest as u64);
        let d = make(Severity::Error, "relations.parent-revision", true, file, &m);
        push_agreeing(&mut out, d, Ghost(file@), Ghost(e), Ghost(want[0]));
        proof { assert(e.push(want[0]) =~= want); }
        return out;
    }
    if r < latest && str_eq(cited, latest_digest) {
        let d = wrong_diag(file, alias, child_authorized, pa, r, cited, latest);
        push_agreeing(&mut out, d, Ghost(file@), Ghost(e), Ghost(want[0]));
        let d2 = current_diag(file, alias, reference, cited, current);
        push_agreeing(&mut out, d2, Ghost(file@), Ghost(e.push(want[0])), Ghost(want[1]));
        proof { assert(e.push(want[0]).push(want[1]) =~= want); }
        return out;
    }
    let own_r: Result<&str, &str> = if r == latest {
        Ok(latest_digest)
    } else {
        match &earlier[(r - 1) as usize] {
            Ok(d) => Ok(d.as_str()),
            Err(w) => Err(w.as_str()),
        }
    };
    let own = match own_r {
        Err(why) => {
            let mut m = chars_of(alias);
            push_str(&mut m, ": parent ");
            push_str(&mut m, pa);
            push_str(&mut m, " is cited at revision ");
            push_decimal(&mut m, r as u64);
            push_str(&mut m, ", whose digest only retained history holds, and it cannot be read: ");
            push_str(&mut m, why);
            push_str(&mut m, ". Neither pass nor error — run `war check` in a full clone");
            let d = make(Severity::Unknown, "relations.parent-revision", true, file, &m);
            push_agreeing(&mut out, d, Ghost(file@), Ghost(e), Ghost(want[0]));
            proof { assert(e.push(want[0]) =~= want); }
            return out;
        },
        Ok(own) => own,
    };
    if str_eq(own, cited) {
        let mut m = chars_of(alias);
        push_str(&mut m, ": parent ");
        push_str(&mut m, pa);
        push_str(&mut m, " is cited at revision ");
        push_decimal(&mut m, r as u64);
        push_str(&mut m, ", at that revision's digest");
        let d = make(Severity::Pass, "relations.parent-revision", false, file, &m);
        push_agreeing(&mut out, d, Ghost(file@), Ghost(e), Ghost(want[0]));
        if r < latest {
            let mut w = chars_of(alias);
            push_str(&mut w, ": parent ");
            push_str(&mut w, pa);
            push_str(&mut w, " has moved from revision ");
            push_decimal(&mut w, r as u64);
            push_str(&mut w, " to revision ");
            push_decimal(&mut w, latest as u64);
            push_str(&mut w, "; the citation of revision ");
            push_decimal(&mut w, r as u64);
            push_str(&mut w, " is exact and stays sound. Re-citing revision ");
            push_decimal(&mut w, latest as u64);
            push_str(&mut w, " is an amendment of ");
            push_str(&mut w, alias);
            let d2 = make(Severity::Warn, "relations.parent-moved", true, file, &w);
            push_agreeing(&mut out, d2, Ghost(file@), Ghost(e.push(want[0])), Ghost(want[1]));
        } else {
            let d2 = current_diag(file, alias, reference, cited, current);
            push_agreeing(&mut out, d2, Ghost(file@), Ghost(e.push(want[0])), Ghost(want[1]));
        }
        proof { assert(e.push(want[0]).push(want[1]) =~= want); }
        return out;
    }
    let (belongs, unreadable) = search(latest, latest_digest, earlier, r, cited);
    match belongs {
        Some(b) => {
            let d = wrong_diag(file, alias, child_authorized, pa, r, cited, b);
            push_agreeing(&mut out, d, Ghost(file@), Ghost(e), Ghost(want[0]));
        },
        None => {
            let mut m = chars_of(alias);
            push_str(&mut m, ": parent ");
            push_str(&mut m, pa);
            push_str(&mut m, " is cited as revision ");
            push_decimal(&mut m, r as u64);
            push_str(&mut m, " at sha256:");
            push_str(&mut m, cited);
            match unreadable {
                None => {
                    push_str(&mut m, ", which is the digest of no authorized revision of it; revision ");
                    push_decimal(&mut m, r as u64);
                    push_str(&mut m, " is sha256:");
                    push_str(&mut m, own);
                    let d = make(Severity::Error, "relations.parent-digest", true, file, &m);
                    push_agreeing(&mut out, d, Ghost(file@), Ghost(e), Ghost(want[0]));
                },
                Some(why) => {
                    if !child_authorized {
                        push_str(&mut m, ", which is not revision ");
                        push_decimal(&mut m, r as u64);
                        push_str(&mut m, "'s digest sha256:");
                        push_str(&mut m, own);
                        push_str(&mut m, "; whether it is an earlier revision's could not be read (");
                        push_str(&mut m, why.as_str());
                        push_str(&mut m, ")");
                        let d = make(Severity::Error, "relations.parent-digest", true, file, &m);
                        push_agreeing(&mut out, d, Ghost(file@), Ghost(e), Ghost(want[0]));
                    } else {
                        push_str(&mut m, ", which is not revision ");
                        push_decimal(&mut m, r as u64);
                        push_str(&mut m, "'s digest; which revision it names needs retained history that cannot be read: ");
                        push_str(&mut m, why.as_str());
                        let d = make(Severity::Unknown, "relations.parent-revision", true, file, &m);
                        push_agreeing(&mut out, d, Ghost(file@), Ghost(e), Ghost(want[0]));
                    }
                },
            }
        },
    }
    proof { assert(e.push(want[0]) =~= want); }
    out
}

/// The uuid a `war://` reference names.
pub open spec fn parent_uuid(reference: Seq<char>) -> Seq<char> {
    if starts_with(reference, "war://"@) {
        reference.skip(6)
    } else {
        reference
    }
}

/// The first Warrant of the corpus, by uuid, that a parent reference names.
pub fn find_parent(reference: &str, uuids: &Vec<String>) -> (r: Option<usize>)
    ensures
        match r {
            Some(k) => k < uuids.len() && uuids@[k as int]@ == parent_uuid(reference@)
                && forall|j: int| 0 <= j < k ==> #[trigger] uuids@[j]@ != parent_uuid(reference@),
            None => forall|j: int| 0 <= j < uuids.len() ==> #[trigger] uuids@[j]@ != parent_uuid(reference@),
        },
{
    let v = chars_of(reference);
    proof {
        reveal_strlit("war://");
    }
    let u = if starts_lit(&v, "war://") {
        slice_of(&v, 6, v.len())
    } else {
        v
    };
    proof {
        assert(u@ =~= parent_uuid(reference@));
    }
    let us = crate::text::string_of(&u);
    let mut k: usize = 0;
    while k < uuids.len()
        invariant
            k <= uuids.len(),
            us@ == parent_uuid(reference@),
            forall|j: int| 0 <= j < k ==> #[trigger] uuids@[j]@ != parent_uuid(reference@),
        decreases uuids.len() - k,
    {
        if str_eq(uuids[k].as_str(), us.as_str()) {
            return Some(k);
        }
        k = k + 1;
    }
    None
}

/// A citation of a revision the parent never had is an error, and nothing
/// more is said of it.
pub proof fn lemma_missing_revision_is_an_error(
    file: Seq<char>,
    alias: Seq<char>,
    child_authorized: bool,
    reference: Seq<char>,
    pa: Seq<char>,
    cited: Seq<char>,
    r: nat,
    latest: u32,
    latest_digest: Seq<char>,
    earlier: Seq<Result<String, String>>,
    current: Option<Seq<char>>,
)
    requires
        r == 0 || r > latest,
    ensures
        spec_authorized(file, alias, child_authorized, reference, pa, cited, r, latest, latest_digest, earlier, current).len() == 1,
        spec_authorized(file, alias, child_authorized, reference, pa, cited, r, latest, latest_digest, earlier, current)[0].0 == Severity::Error,
{
}

/// A citation of an existing revision at that revision's own digest passes
/// (unless an older number is paired with the latest digest).
pub proof fn lemma_exact_citation_passes(
    file: Seq<char>,
    alias: Seq<char>,
    child_authorized: bool,
    reference: Seq<char>,
    pa: Seq<char>,
    cited: Seq<char>,
    r: nat,
    latest: u32,
    latest_digest: Seq<char>,
    earlier: Seq<Result<String, String>>,
    current: Option<Seq<char>>,
)
    requires
        1 <= r <= latest,
        rev_digest(latest, latest_digest, earlier, r as int) == Ok::<Seq<char>, Seq<char>>(cited),
        !(r < latest && cited == latest_digest),
    ensures
        spec_authorized(file, alias, child_authorized, reference, pa, cited, r, latest, latest_digest, earlier, current)[0].0 == Severity::Pass,
        spec_authorized(file, alias, child_authorized, reference, pa, cited, r, latest, latest_digest, earlier, current)[0].1 == "relations.parent-revision"@,
{
}

/// When the cited revision's digest cannot be read, nothing passes.
pub proof fn lemma_unreadable_history_never_passes(
    file: Seq<char>,
    alias: Seq<char>,
    child_authorized: bool,
    reference: Seq<char>,
    pa: Seq<char>,
    cited: Seq<char>,
    r: nat,
    latest: u32,
    latest_digest: Seq<char>,
    earlier: Seq<Result<String, String>>,
    current: Option<Seq<char>>,
)
    requires
        1 <= r <= latest,
        rev_digest(latest, latest_digest, earlier, r as int) is Err,
        !(r < latest && cited == latest_digest),
    ensures
        forall|i: int| 0 <= i < spec_authorized(file, alias, child_authorized, reference, pa, cited, r, latest, latest_digest, earlier, current).len()
            ==> #[trigger] spec_authorized(file, alias, child_authorized, reference, pa, cited, r, latest, latest_digest, earlier, current)[i].0 == Severity::Unknown,
{
}

} // verus!
