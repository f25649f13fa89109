//! Reading retained, record-bound contract snapshots out of git history:
//! the selector a user types, the checks on what `git` answers, and the
//! decision on each retained record of the revision asked for. The `git`
//! runs themselves happen outside this module.

use vstd::prelude::*;

use crate::text::{chars_of, decimal, has_prefix, is_digit_char, slice_of, string_of, trim, trimmed};

verus! {

/// The limit on one retained source.
pub const MAX_BLOB: usize = 4194304;

pub open spec fn spec_digits_value(p: Seq<char>) -> nat
    decreases p.len(),
{
    if p.len() == 0 {
        0
    } else {
        spec_digits_value(p.drop_last()) * 10 + ((p.last() as int - '0' as int) as nat)
    }
}

pub open spec fn all_digits(p: Seq<char>) -> bool {
    forall|i: int| 0 <= i < p.len() ==> crate::text::is_ascii_digit(#[trigger] p[i])
}

/// A canonical positive revision: digits only, no leading zero, not zero,
/// and at most `u32::MAX`.
pub open spec fn canonical_revision(p: Seq<char>) -> bool {
    &&& p.len() > 0
    &&& all_digits(p)
    &&& p[0] != '0'
    &&& spec_digits_value(p) <= u32::MAX
}

pub open spec fn selector_error() -> Seq<char> {
    "contract selector requires canonical positive revision: contract:N"@
}

/// What a selector names: nothing when it is not `contract:…`; revision N
/// for a canonical `contract:N`; an error otherwise.
pub open spec fn spec_selector(s: Seq<char>) -> Result<Option<nat>, Seq<char>> {
    if !crate::text::starts_with(s, "contract:"@) {
        Ok(None)
    } else {
        let number = s.skip(9);
        if canonical_revision(number) {
            Ok(Some(spec_digits_value(number)))
        } else {
            Err(selector_error())
        }
    }
}

proof fn lemma_digits_grow(p: Seq<char>, k: int)
    requires
        0 <= k <= p.len(),
    ensures
        spec_digits_value(p) >= spec_digits_value(p.take(k)),
    decreases p.len() - k,
{
    if k < p.len() {
        lemma_digits_grow(p, k + 1);
        let t = p.take(k + 1);
        assert(t.drop_last() =~= p.take(k));
    } else {
        assert(p.take(k) =~= p);
    }
}

/// The revision a `contract:N` selector names.
pub fn selector(s: &str) -> (r: Result<Option<u32>, String>)
    ensures
        match (r, spec_selector(s@)) {
            (Ok(None), Ok(None)) => true,
            (Ok(Some(n)), Ok(Some(m))) => n as nat == m,
            (Err(e), Err(f)) => e@ == f,
            _ => false,
        },
{
    let v = chars_of(s);
    let prefix = chars_of("contract:");
    proof {
        reveal_strlit("contract:");
    }
    if !has_prefix(&v, &prefix) {
        return Ok(None);
    }
    let number = slice_of(&v, 9, v.len());
    proof {
        assert(number@ =~= s@.skip(9));
    }
    let err = string_of(&chars_of("contract selector requires canonical positive revision: contract:N"));
    if number.len() == 0 || number[0] == '0' {
        return Err(err);
    }
    let mut value: u32 = 0;
    let mut i: usize = 0;
    while i < number.len()
        invariant
            i <= number.len(),
            number.len() > 0,
            number@ == s@.skip(9),
            number@[0] != '0',
            err@ == selector_error(),
            crate::text::starts_with(s@, "contract:"@),
            all_digits(number@.take(i as int)),
            value == spec_digits_value(number@.take(i as int)),
        decreases number.len() - i,
    {
        let c = number[i];
        proof {
            let t = number@.take(i + 1);
            assert(t.drop_last() =~= number@.take(i as int));
            assert(t.last() == c);
        }
        if !is_digit_char(c) {
            proof {
                assert(!crate::text::is_ascii_digit(number@[i as int]));
                assert(!all_digits(number@));
            }
            return Err(err);
        }
        let d = (c as u32) - ('0' as u32);
        match value.checked_mul(10) {
            Some(m) => match m.checked_add(d) {
                Some(w) => {
                    value = w;
                },
                None => {
                    proof {
                        lemma_digits_grow(number@, i + 1);
                    }
                    return Err(err);
                },
            },
            None => {
                proof {
                    lemma_digits_grow(number@, i + 1);
                }
                return Err(err);
            },
        }
        proof {
            let t = number@.take(i + 1);
            assert forall|j: int| 0 <= j < t.len() implies crate::text::is_ascii_digit(
                #[trigger] t[j],
            ) by {
                if j < i {
                    assert(t[j] == number@.take(i as int)[j]);
                }
            }
        }
        i = i + 1;
    }
    proof {
        assert(number@.take(number.len() as int) =~= number@);
    }
    Ok(Some(value))
}

/// What one `git ls-tree` line says of a path: its object when it is a
/// regular file blob.
pub open spec fn spec_ls_tree(fields: Seq<Seq<char>>) -> Result<Seq<char>, Seq<char>> {
    if fields.len() == 3 && (fields[0] == "100644"@ || fields[0] == "100755"@) && fields[1]
        == "blob"@ {
        Ok(fields[2])
    } else {
        Err("history source must be a regular Git blob"@)
    }
}

/// The object a `git ls-tree` entry names, from its first three
/// whitespace-separated fields; a tree, a link or a submodule is refused.
pub fn ls_tree_object(fields: &Vec<String>) -> (r: Result<String, String>)
    ensures
        match (r, spec_ls_tree(fields@.map_values(|f: String| f@))) {
            (Ok(a), Ok(b)) => a@ == b,
            (Err(a), Err(b)) => a@ == b,
            _ => false,
        },
{
    let ghost fv = fields@.map_values(|f: String| f@);
    if fields.len() == 3 {
        let mode = chars_of(fields[0].as_str());
        let kind = chars_of(fields[1].as_str());
        proof {
            assert(fv[0] == fields@[0]@);
            assert(fv[1] == fields@[1]@);
            assert(fv[2] == fields@[2]@);
        }
        if (crate::text::is_str(&mode, "100644") || crate::text::is_str(&mode, "100755"))
            && crate::text::is_str(&kind, "blob") {
            return Ok(string_of(&chars_of(fields[2].as_str())));
        }
    }
    Err(string_of(&chars_of("history source must be a regular Git blob")))
}

/// Whether a blob of `size` bytes may be read within what is left of the
/// scan's budget: at most 4 MiB, and within the budget, which it then uses.
pub open spec fn spec_charge(size: nat, budget: nat) -> Result<nat, Seq<char>> {
    if size > MAX_BLOB {
        Err("history source exceeds 4 MiB"@)
    } else if size > budget {
        Err("history scan exceeds 32 MiB"@)
    } else {
        Ok((budget - size) as nat)
    }
}

/// Charge one blob to the scan's budget.
pub fn charge(size: usize, budget: &mut usize) -> (r: Result<(), String>)
    ensures
        match (r, spec_charge(size as nat, *old(budget) as nat)) {
            (Ok(()), Ok(left)) => *final(budget) as nat == left,
            (Err(a), Err(b)) => a@ == b && *final(budget) == *old(budget),
            _ => false,
        },
{
    if size > MAX_BLOB {
        return Err(string_of(&chars_of("history source exceeds 4 MiB")));
    }
    if size > *budget {
        return Err(string_of(&chars_of("history scan exceeds 32 MiB")));
    }
    *budget = *budget - size;
    Ok(())
}

// ---------------------------------------------------------------------------
// Finding a retained revision, commit by commit
// ---------------------------------------------------------------------------

/// Contract history needs a full clone, and OpenWarrant at the git root:
/// `shallow` is what `git rev-parse --is-shallow-repository` printed and
/// `prefix` what `git rev-parse --show-prefix` printed.
pub open spec fn spec_history_ready(shallow: Seq<char>, prefix: Seq<char>) -> Result<(), Seq<char>> {
    if trim(shallow) != "false"@ {
        Err("contract history unavailable: shallow repository"@)
    } else if trim(prefix).len() != 0 {
        Err("contract history requires OpenWarrant at Git repository root"@)
    } else {
        Ok(())
    }
}

/// Whether contract history can be read here.
pub fn history_ready(shallow: &str, prefix: &str) -> (r: Result<(), String>)
    ensures
        match (r, spec_history_ready(shallow@, prefix@)) {
            (Ok(_), Ok(_)) => true,
            (Err(a), Err(b)) => a@ == b,
            _ => false,
        },
{
    let s = trimmed(&chars_of(shallow));
    if !crate::text::is_str(&s, "false") {
        return Err(string_of(&chars_of("contract history unavailable: shallow repository")));
    }
    let p = trimmed(&chars_of(prefix));
    if p.len() != 0 {
        return Err(string_of(&chars_of("contract history requires OpenWarrant at Git repository root")));
    }
    Ok(())
}

/// What a retained authorization record says of itself.
#[derive(Debug, Clone, PartialEq, Eq)]
pub struct RetainedAuthorization {
    pub schema: String,
    pub warrant: String,
    pub revision: u32,
    pub authorized: bool,
    pub contract_digest: String,
}

/// What to do with a retained authorization at one commit: pass over a
/// record of another revision; refuse one of this revision that is not this
/// Warrant's authorized record; else read the contract beside it.
#[derive(Debug, Clone, PartialEq, Eq)]
pub enum AuthorizationStep {
    Skip,
    Refuse(String),
    ReadContract,
}

pub open spec fn auth_step_view(s: AuthorizationStep) -> (int, Seq<char>) {
    match s {
        AuthorizationStep::Skip => (0, seq![]),
        AuthorizationStep::Refuse(m) => (1, m@),
        AuthorizationStep::ReadContract => (2, seq![]),
    }
}

pub open spec fn spec_auth_step(alias: Seq<char>, revision: u32, a: RetainedAuthorization) -> (int, Seq<char>) {
    if a.revision != revision {
        (0, seq![])
    } else if a.schema@ != "oh.war/authorization/v1"@ || a.warrant@ != alias || !a.authorized {
        (1, "retained authorization identity or state mismatch"@)
    } else {
        (2, seq![])
    }
}

/// What to do with a retained authorization record.
pub fn authorization_step(alias: &str, revision: u32, a: &RetainedAuthorization) -> (r: AuthorizationStep)
    ensures
        auth_step_view(r) == spec_auth_step(alias@, revision, *a),
{
    if a.revision != revision {
        return AuthorizationStep::Skip;
    }
    if !crate::text::str_eq(a.schema.as_str(), "oh.war/authorization/v1") || !crate::text::str_eq(a.warrant.as_str(), alias) || !a.authorized {
        return AuthorizationStep::Refuse(string_of(&chars_of("retained authorization identity or state mismatch")));
    }
    AuthorizationStep::ReadContract
}

/// What the retained contract beside an authorization says of itself: its
/// API version, kind, alias and uuid, the digest recomputed from it, and
/// whether its coverage is the authorization's.
#[derive(Debug, Clone, PartialEq, Eq)]
pub struct RetainedContract {
    pub api_version: String,
    pub kind: String,
    pub alias: String,
    pub uuid: String,
    pub digest: String,
    pub same_coverage: bool,
}

/// The revision found so far: its digest and uuid, and where it was found.
#[derive(Debug, Clone, PartialEq, Eq)]
pub struct Found {
    pub digest: String,
    pub uuid: String,
    pub commit: String,
}

pub open spec fn found_view(f: Option<Found>) -> Option<(Seq<char>, Seq<char>, Seq<char>)> {
    match f {
        Some(x) => Some((x.digest@, x.uuid@, x.commit@)),
        None => None,
    }
}

/// A retained contract of the wanted revision at `commit`: it must be this
/// Warrant's contract, recompute to the digest its authorization records
/// with the same coverage, and agree with any other record of the same
/// revision; the first one found is kept.
pub open spec fn spec_contract_step(
    alias: Seq<char>,
    revision: u32,
    commit: Seq<char>,
    auth_digest: Seq<char>,
    c: RetainedContract,
    found: Option<(Seq<char>, Seq<char>, Seq<char>)>,
) -> Result<Option<(Seq<char>, Seq<char>, Seq<char>)>, Seq<char>> {
    if c.api_version@ != "oh.war/v1"@ || c.kind@ != "work_authorization_record"@ || c.alias@ != alias {
        Err("retained contract IR identity or version mismatch"@)
    } else if c.digest@ != auth_digest || !c.same_coverage {
        Err("retained contract digest mismatch at "@ + commit)
    } else {
        match found {
            Some((d, u, at)) => if d != c.digest@ || u != c.uuid@ {
                Err("ambiguous contract:"@ + decimal(revision as nat) + ": conflicting retained records"@)
            } else {
                Ok(found)
            },
            None => Ok(Some((c.digest@, c.uuid@, commit))),
        }
    }
}

/// The revision found after reading one more retained contract.
pub fn contract_step(
    alias: &str,
    revision: u32,
    commit: &str,
    auth_digest: &str,
    c: &RetainedContract,
    found: Option<Found>,
) -> (r: Result<Option<Found>, String>)
    ensures
        match (r, spec_contract_step(alias@, revision, commit@, auth_digest@, *c, found_view(found))) {
            (Ok(f), Ok(g)) => found_view(f) == g,
            (Err(a), Err(b)) => a@ == b,
            _ => false,
        },
{
    if !crate::text::str_eq(c.api_version.as_str(), "oh.war/v1") || !crate::text::str_eq(c.kind.as_str(), "work_authorization_record") || !crate::text::str_eq(c.alias.as_str(), alias) {
        return Err(string_of(&chars_of("retained contract IR identity or version mismatch")));
    }
    if !crate::text::str_eq(c.digest.as_str(), auth_digest) || !c.same_coverage {
        let mut m = chars_of("retained contract digest mismatch at ");
        crate::text::push_str(&mut m, commit);
        return Err(string_of(&m));
    }
    match found {
        Some(f) => {
            if !crate::text::str_eq(f.digest.as_str(), c.digest.as_str()) || !crate::text::str_eq(f.uuid.as_str(), c.uuid.as_str()) {
                let mut m = chars_of("ambiguous contract:");
                crate::text::push_decimal(&mut m, revision as u64);
                crate::text::push_str(&mut m, ": conflicting retained records");
                return Err(string_of(&m));
            }
            Ok(Some(f))
        },
        None => Ok(Some(Found {
            digest: string_of(&chars_of(c.digest.as_str())),
            uuid: string_of(&chars_of(c.uuid.as_str())),
            commit: string_of(&chars_of(commit)),
        })),
    }
}

/// How a resolved revision names its source, or why none was found in the
/// history of `head`.
pub fn resolved_source(revision: u32, found: &Option<Found>, head: &str) -> (r: Result<String, String>)
    ensures
        match found {
            Some(f) => r == Ok::<String, String>(r->Ok_0) && r->Ok_0@ == "contract:"@ + decimal(revision as nat) + " at "@ + f.commit@
                + ", digest "@ + f.digest@ + "; record-bound comparison, not signature verification"@,
            None => r == Err::<String, String>(r->Err_0) && r->Err_0@ == "contract:"@ + decimal(revision as nat)
                + " unavailable in retained history of "@ + trim(head@),
        },
{
    let mut m = chars_of("contract:");
    crate::text::push_decimal(&mut m, revision as u64);
    match found {
        Some(f) => {
            crate::text::push_str(&mut m, " at ");
            crate::text::push_str(&mut m, f.commit.as_str());
            crate::text::push_str(&mut m, ", digest ");
            crate::text::push_str(&mut m, f.digest.as_str());
            crate::text::push_str(&mut m, "; record-bound comparison, not signature verification");
            Ok(string_of(&m))
        },
        None => {
            crate::text::push_str(&mut m, " unavailable in retained history of ");
            let h = trimmed(&chars_of(head));
            crate::text::push_all(&mut m, &h);
            Err(string_of(&m))
        },
    }
}

} // verus!
