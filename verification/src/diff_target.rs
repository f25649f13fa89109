//! `war diff`: what a semantic comparison of two contract projections
//! reports. The changes themselves come from the semantic walker; this
//! module decides which of them are inputs of the contract digest and how
//! the comparison is reported.

use vstd::prelude::*;

use crate::diagnostic::{Diagnostic, Severity};
use crate::pins::{all_agree, finding_of, make, Finding};
use crate::text::{chars_of, decimal, push_decimal, push_str, starts_lit, starts_with, str_eq, string_of};
use crate::warrant_rules::push_agreeing;

verus! {

/// The roots of the projection that feed the contract digest.
pub open spec fn digest_roots() -> Seq<Seq<char>> {
    seq!["contract_coverage"@, "format_basis"@, "identity"@, "source_and_composition"@, "relations"@]
}

/// Whether a changed path lies under one of the digest's roots: the root
/// itself, or a field below it.
pub open spec fn spec_contract_input(path: Seq<char>) -> bool {
    exists|k: int| 0 <= k < 5 && (path == #[trigger] digest_roots()[k] || starts_with(path, digest_roots()[k] + "."@))
}

/// Whether a changed path is an input of the contract digest.
pub fn is_contract_input(path: &str) -> (r: bool)
    ensures
        r == spec_contract_input(path@),
{
    let p = chars_of(path);
    let roots: [&str; 5] = ["contract_coverage", "format_basis", "identity", "source_and_composition", "relations"];
    let mut k: usize = 0;
    proof {
        reveal_strlit("contract_coverage");
        reveal_strlit("format_basis");
        reveal_strlit("identity");
        reveal_strlit("source_and_composition");
        reveal_strlit("relations");
        assert(roots@.map_values(|s: &str| s@) =~= digest_roots());
    }
    while k < 5
        invariant
            k <= 5,
            p@ == path@,
            roots@.map_values(|s: &str| s@) == digest_roots(),
            forall|j: int| 0 <= j < k ==> !(path@ == #[trigger] digest_roots()[j] || starts_with(path@, digest_roots()[j] + "."@)),
        decreases 5 - k,
    {
        let root = roots[k];
        let mut dotted = chars_of(root);
        dotted.push('.');
        proof {
            reveal_strlit(".");
            assert(root@ == digest_roots()[k as int]);
            assert(dotted@ =~= digest_roots()[k as int] + "."@);
        }
        if str_eq(path, root) || crate::text::has_prefix(&p, &dotted) {
            return true;
        }
        k = k + 1;
    }
    false
}

/// One change the semantic walker found: the path, and its rendering before
/// and after.
#[derive(Debug)]
pub struct Change {
    pub path: String,
    pub from: String,
    pub to: String,
}

pub open spec fn change_line(c: Change) -> Seq<char> {
    c.path@ + ": "@ + c.from@ + " -> "@ + c.to@
}

/// The contract-input warnings of the changes under the digest's roots, in
/// order.
pub open spec fn input_warnings(cs: Seq<Change>) -> Seq<Finding>
    decreases cs.len(),
{
    if cs.len() == 0 {
        seq![]
    } else {
        let before = input_warnings(cs.drop_last());
        if spec_contract_input(cs.last().path@) {
            before.push((Severity::Warn, "diff.contract-input"@, true, "Digest input "@ + change_line(cs.last())))
        } else {
            before
        }
    }
}

/// What the comparison reports for Warrant `alias`: when both sides are
/// contract projections whose recomputed digests differ, a warning for each
/// change to a digest input; then either `diff.identical` or a warning for
/// every change.
pub open spec fn spec_diff(alias: Seq<char>, cs: Seq<Change>, digests_differ: bool) -> Seq<Finding> {
    (if digests_differ { input_warnings(cs) } else { seq![] }) + if cs.len() == 0 {
        seq![(Severity::Pass, "diff.identical"@, false, alias + ": no semantic difference"@)]
    } else {
        cs.map_values(|c: Change| (Severity::Warn, "diff.changed"@, true, change_line(c)))
    }
}

fn change_text(c: &Change) -> (r: Vec<char>)
    ensures
        r@ == change_line(*c),
{
    let mut m = chars_of(c.path.as_str());
    push_str(&mut m, ": ");
    push_str(&mut m, c.from.as_str());
    push_str(&mut m, " -> ");
    push_str(&mut m, c.to.as_str());
    m
}

/// The comparison's findings, anchored to the target `to`.
pub fn diff_findings(alias: &str, to: &str, changes: &Vec<Change>, digests_differ: bool) -> (r: Vec<Diagnostic>)
    ensures
        all_agree(r@, to@, spec_diff(alias@, changes@, digests_differ)),
{
    let mut out: Vec<Diagnostic> = Vec::new();
    if digests_differ {
        let mut i: usize = 0;
        while i < changes.len()
            invariant
                i <= changes.len(),
                all_agree(out@, to@, input_warnings(changes@.take(i as int))),
            decreases changes.len() - i,
        {
            proof {
                assert(changes@.take(i + 1).drop_last() =~= changes@.take(i as int));
                assert(changes@.take(i + 1).last() == changes@[i as int]);
            }
            if is_contract_input(changes[i].path.as_str()) {
                let mut m = chars_of("Digest input ");
                let t = change_text(&changes[i]);
                crate::text::push_all(&mut m, &t);
                let d = make(Severity::Warn, "diff.contract-input", true, to, &m);
                push_agreeing(&mut out, d, Ghost(to@), Ghost(input_warnings(changes@.take(i as int))), Ghost((Severity::Warn, "diff.contract-input"@, true, m@)));
            }
            i = i + 1;
        }
        proof {
            assert(changes@.take(changes.len() as int) =~= changes@);
        }
    }
    let ghost head: Seq<Finding> = if digests_differ { input_warnings(changes@) } else { seq![] };
    proof {
        if !digests_differ {
            assert(out@.len() == 0);
        }
    }
    if changes.len() == 0 {
        let mut m = chars_of(alias);
        push_str(&mut m, ": no semantic difference");
        let d = make(Severity::Pass, "diff.identical", false, to, &m);
        push_agreeing(&mut out, d, Ghost(to@), Ghost(head), Ghost((Severity::Pass, "diff.identical"@, false, m@)));
        proof {
            assert(head.push((Severity::Pass, "diff.identical"@, false, m@)) =~= spec_diff(alias@, changes@, digests_differ));
        }
        return out;
    }
    let ghost tail = changes@.map_values(|c: Change| (Severity::Warn, "diff.changed"@, true, change_line(c)));
    let mut j: usize = 0;
    while j < changes.len()
        invariant
            j <= changes.len(),
            tail == changes@.map_values(|c: Change| (Severity::Warn, "diff.changed"@, true, change_line(c))),
            all_agree(out@, to@, head + tail.take(j as int)),
        decreases changes.len() - j,
    {
        let t = change_text(&changes[j]);
        let d = make(Severity::Warn, "diff.changed", true, to, &t);
        proof {
            assert(head + tail.take(j + 1) =~= (head + tail.take(j as int)).push(tail[j as int]));
        }
        push_agreeing(&mut out, d, Ghost(to@), Ghost(head + tail.take(j as int)), Ghost(tail[j as int]));
        j = j + 1;
    }
    proof {
        assert(tail.take(changes.len() as int) =~= tail);
    }
    out
}

/// The note naming both sides of the comparison.
pub fn sources_note(from: &str, to: &str) -> (r: String)
    ensures
        r@ == "Baseline: "@ + from@ + ". Target: "@ + to@ + "."@,
{
    let mut m = chars_of("Baseline: ");
    push_str(&mut m, from);
    push_str(&mut m, ". Target: ");
    push_str(&mut m, to);
    push_str(&mut m, ".");
    string_of(&m)
}

/// The note on the recomputed contract digests of both sides.
pub fn digest_note(old: &str, new: &str) -> (r: String)
    ensures
        r@ == "Recomputed contract digest: "@ + old@ + " -> "@ + new@
            + ". Covers only declared contract inputs; this does not authenticate signatures."@,
{
    let mut m = chars_of("Recomputed contract digest: ");
    push_str(&mut m, old);
    push_str(&mut m, " -> ");
    push_str(&mut m, new);
    push_str(&mut m, ". Covers only declared contract inputs; this does not authenticate signatures.");
    string_of(&m)
}

/// The note closing a comparison that found changes.
pub fn changes_note(n: usize, from: &str, to: &str) -> (r: String)
    ensures
        r@ == decimal(n as nat) + " field change(s), comparing "@ + from@ + " to "@ + to@
            + ". JSON whitespace and object-key order are ignored. Supplied digests are reported, not authenticated or independently attributed to a cause."@,
{
    let mut m: Vec<char> = Vec::new();
    push_decimal(&mut m, n as u64);
    push_str(&mut m, " field change(s), comparing ");
    push_str(&mut m, from);
    push_str(&mut m, " to ");
    push_str(&mut m, to);
    push_str(&mut m, ". JSON whitespace and object-key order are ignored. Supplied digests are reported, not authenticated or independently attributed to a cause.");
    string_of(&m)
}

} // verus!
