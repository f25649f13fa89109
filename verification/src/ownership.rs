//! Ownership of deliverables: the set a Warrant declares now against the
//! set its authorization signed for. The set that was signed for is the set
//! that owns; a claim added since owns nothing, and a claim removed since is
//! a signed claim withdrawn by deleting a line.

use vstd::prelude::*;

use crate::diagnostic::{Diagnostic, Severity};
use crate::pins::{all_agree, finding_of, make, Finding};
use crate::text::{
    chars_of, decimal, eq_chars, lemma_lex_irreflexive, lemma_lex_total, lemma_lex_transitive,
    lex_less, lex_lt, push_all, push_decimal, push_str, slice_of, string_of,
};

verus! {

/// A deliverable claim: its id and the path it targets.
pub type Claim = (Seq<char>, Seq<char>);

/// The order of `(id, target)` pairs: by id, then by target.
pub open spec fn claim_lt(a: Claim, b: Claim) -> bool {
    lex_lt(a.0, b.0) || (a.0 == b.0 && lex_lt(a.1, b.1))
}

/// Strictly increasing: sorted, and no claim twice.
pub open spec fn ascending(s: Seq<Claim>) -> bool {
    forall|i: int, j: int| 0 <= i < j < s.len() ==> claim_lt(#[trigger] s[i], #[trigger] s[j])
}

/// The claims of a list of `(id, target)` records.
pub open spec fn claims(v: Seq<(String, String)>) -> Set<Claim> {
    Set::new(|c: Claim| exists|i: int| 0 <= i < v.len() && #[trigger] v[i].0@ == c.0 && v[i].1@ == c.1)
}

/// `t` lists exactly the claims of `s`.
pub open spec fn lists(t: Seq<Claim>, s: Set<Claim>) -> bool {
    forall|c: Claim| t.contains(c) <==> s.contains(c)
}

/// The claims of `s` in ascending order, each once.
pub open spec fn in_order(s: Set<Claim>) -> Seq<Claim> {
    choose|t: Seq<Claim>| ascending(t) && lists(t, s)
}

pub open spec fn cviews(s: Seq<(Vec<char>, Vec<char>)>) -> Seq<Claim> {
    s.map_values(|p: (Vec<char>, Vec<char>)| (p.0@, p.1@))
}

proof fn lemma_claim_order(a: Claim, b: Claim, c: Claim)
    ensures
        !claim_lt(a, a),
        claim_lt(a, b) && claim_lt(b, c) ==> claim_lt(a, c),
        a != b ==> claim_lt(a, b) || claim_lt(b, a),
        !(claim_lt(a, b) && claim_lt(b, a)),
{
    lemma_lex_irreflexive(a.0);
    lemma_lex_irreflexive(a.1);
    lemma_lex_total(a.0, b.0);
    lemma_lex_total(a.1, b.1);
    if claim_lt(a, b) && claim_lt(b, c) {
        if lex_lt(a.0, b.0) && lex_lt(b.0, c.0) {
            lemma_lex_transitive(a.0, b.0, c.0);
        }
        if a.0 == b.0 && b.0 == c.0 {
            lemma_lex_transitive(a.1, b.1, c.1);
        }
    }
}

/// Two ascending sequences with the same claims are the same sequence.
pub proof fn lemma_ascending_determined(s: Seq<Claim>, t: Seq<Claim>)
    requires
        ascending(s),
        ascending(t),
        forall|y: Claim| s.contains(y) <==> t.contains(y),
    ensures
        s == t,
    decreases s.len(),
{
    if s.len() == 0 {
        if t.len() > 0 {
            assert(t.contains(t[0]));
        }
        assert(s =~= t);
    } else {
        assert(s.contains(s[0]));
        assert(t.contains(t[0]));
        let i = choose|i: int| 0 <= i < s.len() && s[i] == t[0];
        let j = choose|j: int| 0 <= j < t.len() && t[j] == s[0];
        lemma_claim_order(s[0], t[0], s[0]);
        if i > 0 && j > 0 {
            assert(claim_lt(s[0], s[i]));
            assert(claim_lt(t[0], t[j]));
        }
        assert(s[0] == t[0]);
        let s1 = s.drop_first();
        let t1 = t.drop_first();
        assert forall|y: Claim| s1.contains(y) <==> t1.contains(y) by {
            lemma_claim_order(y, y, y);
            if s1.contains(y) {
                let a = choose|a: int| 0 <= a < s1.len() && s1[a] == y;
                assert(s[a + 1] == y);
                assert(claim_lt(s[0], y));
                assert(t.contains(y));
                let b = choose|b: int| 0 <= b < t.len() && t[b] == y;
                assert(b != 0);
                assert(t1[b - 1] == y);
            }
            if t1.contains(y) {
                let a = choose|a: int| 0 <= a < t1.len() && t1[a] == y;
                assert(t[a + 1] == y);
                assert(claim_lt(t[0], y));
                assert(s.contains(y));
                let b = choose|b: int| 0 <= b < s.len() && s[b] == y;
                assert(b != 0);
                assert(s1[b - 1] == y);
            }
        }
        lemma_ascending_determined(s1, t1);
        assert(s =~= seq![s[0]] + s1);
        assert(t =~= seq![t[0]] + t1);
    }
}

/// An ascending listing of `s` is `in_order(s)`.
proof fn lemma_in_order(t: Seq<Claim>, s: Set<Claim>)
    requires
        ascending(t),
        lists(t, s),
    ensures
        in_order(s) == t,
{
    let u = in_order(s);
    assert(ascending(u) && lists(u, s));
    lemma_ascending_determined(u, t);
}

fn claim_less(a: &(Vec<char>, Vec<char>), b: &(Vec<char>, Vec<char>)) -> (r: bool)
    ensures
        r == claim_lt((a.0@, a.1@), (b.0@, b.1@)),
{
    lex_less(&a.0, &b.0) || (eq_chars(&a.0, &b.0) && lex_less(&a.1, &b.1))
}

fn claim_eq(a: &(Vec<char>, Vec<char>), b: &(Vec<char>, Vec<char>)) -> (r: bool)
    ensures
        r == ((a.0@, a.1@) == (b.0@, b.1@)),
{
    eq_chars(&a.0, &b.0) && eq_chars(&a.1, &b.1)
}

/// Insert a claim into an ascending vector, keeping it ascending.
fn insert_claim(v: &mut Vec<(Vec<char>, Vec<char>)>, x: (Vec<char>, Vec<char>))
    requires
        ascending(cviews(old(v)@)),
    ensures
        ascending(cviews(final(v)@)),
        forall|y: Claim|
            cviews(final(v)@).contains(y) <==> (cviews(old(v)@).contains(y) || y == (x.0@, x.1@)),
{
    let ghost xv: Claim = (x.0@, x.1@);
    let ghost old_views = cviews(v@);
    let mut i: usize = 0;
    while i < v.len() && claim_less(&v[i], &x)
        invariant
            v@ == old(v)@,
            old_views == cviews(v@),
            i <= v.len(),
            xv == (x.0@, x.1@),
            forall|j: int| 0 <= j < i ==> claim_lt(#[trigger] cviews(v@)[j], xv),
        decreases v.len() - i,
    {
        i = i + 1;
    }
    if i < v.len() && claim_eq(&v[i], &x) {
        proof {
            assert(cviews(v@)[i as int] == xv);
            assert forall|y: Claim| cviews(v@).contains(y) <==> (old_views.contains(y) || y == xv) by {
                if y == xv {
                    assert(cviews(v@)[i as int] == y);
                }
            }
        }
        return;
    }
    proof {
        if i < v.len() {
            lemma_claim_order(old_views[i as int], xv, xv);
            assert(claim_lt(xv, old_views[i as int]));
        }
    }
    v.insert(i, x);
    proof {
        let nv = cviews(v@);
        assert(nv =~= old_views.insert(i as int, xv));
        assert forall|a: int, b: int| 0 <= a < b < nv.len() implies claim_lt(
            #[trigger] nv[a],
            #[trigger] nv[b],
        ) by {
            if b < i {
            } else if a < i && b == i {
            } else if a < i && b > i {
                assert(nv[b] == old_views[b - 1]);
                if b - 1 > i {
                    lemma_claim_order(xv, old_views[i as int], old_views[b - 1]);
                }
                lemma_claim_order(nv[a], xv, nv[b]);
            } else if a == i {
                assert(nv[b] == old_views[b - 1]);
                if b - 1 > i {
                    lemma_claim_order(xv, old_views[i as int], old_views[b - 1]);
                }
            } else {
                assert(nv[a] == old_views[a - 1]);
                assert(nv[b] == old_views[b - 1]);
            }
        }
        assert forall|y: Claim| nv.contains(y) <==> (old_views.contains(y) || y == xv) by {
            if nv.contains(y) {
                let k = choose|k: int| 0 <= k < nv.len() && nv[k] == y;
                if k < i {
                    assert(old_views[k] == y);
                } else if k > i {
                    assert(old_views[k - 1] == y);
                }
            }
            if old_views.contains(y) {
                let k = choose|k: int| 0 <= k < old_views.len() && old_views[k] == y;
                if k < i {
                    assert(nv[k] == y);
                } else {
                    assert(nv[k + 1] == y);
                }
            }
            if y == xv {
                assert(nv[i as int] == y);
            }
        }
    }
}

/// The distinct claims of `v`, ascending.
fn distinct_claims(v: &Vec<(String, String)>) -> (r: Vec<(Vec<char>, Vec<char>)>)
    ensures
        ascending(cviews(r@)),
        lists(cviews(r@), claims(v@)),
{
    let mut r: Vec<(Vec<char>, Vec<char>)> = Vec::new();
    let mut i: usize = 0;
    while i < v.len()
        invariant
            i <= v.len(),
            ascending(cviews(r@)),
            forall|c: Claim|
                cviews(r@).contains(c) <==> exists|j: int|
                    0 <= j < i && #[trigger] v@[j].0@ == c.0 && v@[j].1@ == c.1,
        decreases v.len() - i,
    {
        let x = (chars_of(v[i].0.as_str()), chars_of(v[i].1.as_str()));
        let ghost before = cviews(r@);
        insert_claim(&mut r, x);
        proof {
            assert forall|c: Claim|
                cviews(r@).contains(c) <==> exists|j: int|
                    0 <= j < i + 1 && #[trigger] v@[j].0@ == c.0 && v@[j].1@ == c.1 by {
                if c == (v@[i as int].0@, v@[i as int].1@) {
                    assert(v@[i as int].0@ == c.0);
                }
                if exists|j: int| 0 <= j < i + 1 && #[trigger] v@[j].0@ == c.0 && v@[j].1@ == c.1 {
                    let j = choose|j: int| 0 <= j < i + 1 && #[trigger] v@[j].0@ == c.0 && v@[j].1@ == c.1;
                    if j < i {
                        assert(before.contains(c));
                    }
                }
            }
        }
        i = i + 1;
    }
    proof {
        assert forall|c: Claim| cviews(r@).contains(c) <==> claims(v@).contains(c) by {
            if cviews(r@).contains(c) {
                let j = choose|j: int| 0 <= j < v.len() && #[trigger] v@[j].0@ == c.0 && v@[j].1@ == c.1;
                assert(claims(v@).contains(c));
            }
        }
    }
    r
}

/// The claims of `a` that are not in `b`, in the order of `a`.
fn claims_not_in(a: &Vec<(Vec<char>, Vec<char>)>, b: &Vec<(Vec<char>, Vec<char>)>) -> (r: Vec<(Vec<char>, Vec<char>)>)
    requires
        ascending(cviews(a@)),
    ensures
        ascending(cviews(r@)),
        forall|c: Claim| cviews(r@).contains(c) <==> (cviews(a@).contains(c) && !cviews(b@).contains(c)),
{
    let mut r: Vec<(Vec<char>, Vec<char>)> = Vec::new();
    let mut i: usize = 0;
    while i < a.len()
        invariant
            i <= a.len(),
            ascending(cviews(a@)),
            ascending(cviews(r@)),
            forall|k: int| 0 <= k < r.len() ==> exists|j: int| 0 <= j < i && cviews(a@)[j] == #[trigger] cviews(r@)[k],
            forall|c: Claim| cviews(r@).contains(c) <==> (cviews(a@).take(i as int).contains(c) && !cviews(b@).contains(c)),
        decreases a.len() - i,
    {
        let mut found = false;
        let mut j: usize = 0;
        while j < b.len()
            invariant
                j <= b.len(),
                i < a.len(),
                found <==> exists|k: int| 0 <= k < j && cviews(b@)[k] == cviews(a@)[i as int],
            decreases b.len() - j,
        {
            let same = claim_eq(&a[i], &b[j]);
            if same {
                found = true;
            }
            proof {
                if same {
                    assert(cviews(b@)[j as int] == cviews(a@)[i as int]);
                }
            }
            j = j + 1;
        }
        let ghost before = cviews(r@);
        let ghost ai = cviews(a@)[i as int];
        proof {
            assert(cviews(a@).take(i + 1) =~= cviews(a@).take(i as int).push(ai));
            if found {
                let k = choose|k: int| 0 <= k < j && cviews(b@)[k] == ai;
                assert(cviews(b@).contains(ai));
            } else {
                assert(!cviews(b@).contains(ai)) by {
                    if cviews(b@).contains(ai) {
                        let k = choose|k: int| 0 <= k < b.len() && cviews(b@)[k] == ai;
                        assert(cviews(b@)[k] == cviews(a@)[i as int]);
                    }
                }
            }
        }
        if !found {
            let x = (slice_of(&a[i].0, 0, a[i].0.len()), slice_of(&a[i].1, 0, a[i].1.len()));
            proof {
                assert(a[i as int].0@.subrange(0, a[i as int].0@.len() as int) =~= a[i as int].0@);
                assert(a[i as int].1@.subrange(0, a[i as int].1@.len() as int) =~= a[i as int].1@);
            }
            r.push(x);
            proof {
                let nr = cviews(r@);
                assert(nr =~= before.push(ai));
                assert forall|p: int, q: int| 0 <= p < q < nr.len() implies claim_lt(#[trigger] nr[p], #[trigger] nr[q]) by {
                    if q == nr.len() - 1 {
                        let jj = choose|jj: int| 0 <= jj < i && cviews(a@)[jj] == #[trigger] before[p];
                        assert(claim_lt(cviews(a@)[jj], cviews(a@)[i as int]));
                    }
                }
                assert forall|k: int| 0 <= k < nr.len() implies exists|jj: int| 0 <= jj < i + 1 && cviews(a@)[jj] == #[trigger] nr[k] by {
                    if k < before.len() {
                        let jj = choose|jj: int| 0 <= jj < i && cviews(a@)[jj] == #[trigger] before[k];
                        assert(cviews(a@)[jj] == nr[k]);
                    } else {
                        assert(cviews(a@)[i as int] == nr[k]);
                    }
                }
                assert forall|c: Claim| nr.contains(c) <==> (cviews(a@).take(i + 1).contains(c) && !cviews(b@).contains(c)) by {
                    let t1 = cviews(a@).take(i + 1);
                    let t0 = cviews(a@).take(i as int);
                    assert(t1[i as int] == ai);
                    if nr.contains(c) {
                        let k = choose|k: int| 0 <= k < nr.len() && nr[k] == c;
                        if k < before.len() {
                            assert(before[k] == c);
                            assert(before.contains(c));
                            let m = choose|m: int| 0 <= m < i && #[trigger] t0[m] == c;
                            assert(t1[m] == c);
                        } else {
                            assert(c == ai);
                        }
                    }
                    if t1.contains(c) && !cviews(b@).contains(c) {
                        let k = choose|k: int| 0 <= k < i + 1 && #[trigger] t1[k] == c;
                        if k < i {
                            assert(t0[k] == c);
                            assert(t0.contains(c));
                            assert(before.contains(c));
                            let m = choose|m: int| 0 <= m < before.len() && before[m] == c;
                            assert(nr[m] == c);
                        } else {
                            assert(c == ai);
                            assert(nr[nr.len() - 1] == c);
                        }
                    }
                }
            }
        } else {
            proof {
                assert forall|c: Claim| before.contains(c) <==> (cviews(a@).take(i + 1).contains(c) && !cviews(b@).contains(c)) by {
                    if cviews(a@).take(i + 1).contains(c) && !cviews(b@).contains(c) {
                        let k = choose|k: int| 0 <= k < i + 1 && #[trigger] cviews(a@).take(i + 1)[k] == c;
                        if k < i {
                            assert(cviews(a@).take(i as int)[k] == c);
                        }
                    }
                    if before.contains(c) {
                        assert(cviews(a@).take(i as int).contains(c));
                        let k = choose|k: int| 0 <= k < i && #[trigger] cviews(a@).take(i as int)[k] == c;
                        assert(cviews(a@).take(i + 1)[k] == c);
                    }
                }
                assert forall|k: int| 0 <= k < before.len() implies exists|jj: int| 0 <= jj < i + 1 && cviews(a@)[jj] == #[trigger] before[k] by {
                    let jj = choose|jj: int| 0 <= jj < i && cviews(a@)[jj] == #[trigger] before[k];
                }
            }
        }
        i = i + 1;
    }
    proof {
        assert(cviews(a@).take(a.len() as int) =~= cviews(a@));
    }
    r
}

/// The warning for a claim declared now that the authorization did not sign
/// for.
pub open spec fn undeclared_message(alias: Seq<char>, c: Claim) -> Seq<char> {
    alias + ": "@ + c.0 + " → "@ + c.1
        + " is declared now but was not in the set the authorization signed for, so "@ + alias
        + " does not own it and no other Warrant's pin on it becomes historical. Ownership widens only through an amendment and a re-authorization (§31, OW-ADR-0021)"@
}

/// The error for a signed-for claim that is no longer declared.
pub open spec fn removed_message(alias: Seq<char>, c: Claim) -> Seq<char> {
    alias + ": the authorization signed for "@ + c.0 + " → "@ + c.1
        + " and deliverables.toml no longer declares it. A signed claim on a path cannot be withdrawn by deleting the line — restore the declaration, or amend and re-authorize (§31, OW-ADR-0021)"@
}

pub open spec fn undeclared_finding(alias: Seq<char>) -> spec_fn(Claim) -> Finding {
    |c: Claim| (Severity::Warn, "deliverable.undeclared-at-authorization"@, true, undeclared_message(alias, c))
}

pub open spec fn removed_finding(alias: Seq<char>) -> spec_fn(Claim) -> Finding {
    |c: Claim| (Severity::Error, "deliverable.declared-then-removed"@, true, removed_message(alias, c))
}

/// What the ownership rule reports. Nothing when the authorization signed
/// for no set (a record that predates ownership owns nothing) or the
/// deliverables file is malformed; else a warning for each claim declared
/// but not signed for and an error for each claim signed for but no longer
/// declared, each list ascending by (id, target) with every claim once, and
/// `deliverable.owned` when there are neither.
pub open spec fn spec_ownership(
    alias: Seq<char>,
    declared: Seq<(String, String)>,
    owned: Seq<(String, String)>,
    malformed: bool,
) -> Seq<Finding> {
    if owned.len() == 0 || malformed {
        seq![]
    } else {
        let d = claims(declared);
        let o = claims(owned);
        let added = in_order(d.difference(o));
        let removed = in_order(o.difference(d));
        added.map_values(undeclared_finding(alias)) + removed.map_values(removed_finding(alias)) + if added.len()
            == 0 && removed.len() == 0 {
            seq![
                (
                    Severity::Pass,
                    "deliverable.owned"@,
                    false,
                    alias + ": the "@ + decimal(in_order(d).len()) + " deliverable(s) declared are the "@
                        + decimal(in_order(o).len()) + " the authorization signed for"@,
                ),
            ]
        } else {
            seq![]
        }
    }
}

/// The ownership findings of one Warrant: `declared` are the `(id, target)`
/// claims of its deliverables file (`file`), `owned` those its authorization
/// signed for, and `malformed` whether any deliverable record failed to
/// read.
pub fn ownership_findings(
    alias: &str,
    file: &str,
    declared: &Vec<(String, String)>,
    owned: &Vec<(String, String)>,
    malformed: bool,
) -> (r: Vec<Diagnostic>)
    ensures
        all_agree(r@, file@, spec_ownership(alias@, declared@, owned@, malformed)),
{
    let mut out: Vec<Diagnostic> = Vec::new();
    if owned.len() == 0 || malformed {
        return out;
    }
    let d = distinct_claims(declared);
    let o = distinct_claims(owned);
    let added = claims_not_in(&d, &o);
    let removed = claims_not_in(&o, &d);
    let ghost ds = claims(declared@);
    let ghost os = claims(owned@);
    proof {
        lemma_in_order(cviews(d@), ds);
        lemma_in_order(cviews(o@), os);
        lemma_in_order(cviews(added@), ds.difference(os));
        lemma_in_order(cviews(removed@), os.difference(ds));
    }
    let ghost fa = cviews(added@).map_values(undeclared_finding(alias@));
    let ghost fr = cviews(removed@).map_values(removed_finding(alias@));
    let mut i: usize = 0;
    while i < added.len()
        invariant
            i <= added.len(),
            fa == cviews(added@).map_values(undeclared_finding(alias@)),
            all_agree(out@, file@, fa.take(i as int)),
        decreases added.len() - i,
    {
        let mut m = chars_of(alias);
        push_str(&mut m, ": ");
        push_all(&mut m, &added[i].0);
        push_str(&mut m, " → ");
        push_all(&mut m, &added[i].1);
        push_str(&mut m, " is declared now but was not in the set the authorization signed for, so ");
        push_str(&mut m, alias);
        push_str(
            &mut m,
            " does not own it and no other Warrant's pin on it becomes historical. Ownership widens only through an amendment and a re-authorization (§31, OW-ADR-0021)",
        );
        let dg = make(Severity::Warn, "deliverable.undeclared-at-authorization", true, file, &m);
        let ghost before = out@;
        out.push(dg);
        proof {
            assert(fa.take(i + 1) =~= fa.take(i as int).push(fa[i as int]));
            assert(fa[i as int] == (undeclared_finding(alias@))(cviews(added@)[i as int]));
            assert forall|k: int| 0 <= k < out@.len() implies finding_of(#[trigger] out@[k], file@) == Some(fa.take(i + 1)[k]) by {
                if k < before.len() {
                    assert(out@[k] == before[k]);
                }
            }
        }
        i = i + 1;
    }
    let ghost mid = out@;
    proof {
        assert(fa.take(added.len() as int) =~= fa);
    }
    let mut j: usize = 0;
    while j < removed.len()
        invariant
            j <= removed.len(),
            fr == cviews(removed@).map_values(removed_finding(alias@)),
            all_agree(out@, file@, fa + fr.take(j as int)),
        decreases removed.len() - j,
    {
        let mut m = chars_of(alias);
        push_str(&mut m, ": the authorization signed for ");
        push_all(&mut m, &removed[j].0);
        push_str(&mut m, " → ");
        push_all(&mut m, &removed[j].1);
        push_str(
            &mut m,
            " and deliverables.toml no longer declares it. A signed claim on a path cannot be withdrawn by deleting the line — restore the declaration, or amend and re-authorize (§31, OW-ADR-0021)",
        );
        let dg = make(Severity::Error, "deliverable.declared-then-removed", true, file, &m);
        let ghost before = out@;
        out.push(dg);
        proof {
            let want = fa + fr.take(j + 1);
            assert(want =~= (fa + fr.take(j as int)).push(fr[j as int]));
            assert(fr[j as int] == (removed_finding(alias@))(cviews(removed@)[j as int]));
            assert forall|k: int| 0 <= k < out@.len() implies finding_of(#[trigger] out@[k], file@) == Some(want[k]) by {
                if k < before.len() {
                    assert(out@[k] == before[k]);
                }
            }
        }
        j = j + 1;
    }
    proof {
        assert(fr.take(removed.len() as int) =~= fr);
    }
    if added.len() == 0 && removed.len() == 0 {
        let mut m = chars_of(alias);
        push_str(&mut m, ": the ");
        push_decimal(&mut m, d.len() as u64);
        push_str(&mut m, " deliverable(s) declared are the ");
        push_decimal(&mut m, o.len() as u64);
        push_str(&mut m, " the authorization signed for");
        let dg = make(Severity::Pass, "deliverable.owned", false, file, &m);
        let ghost before = out@;
        out.push(dg);
        proof {
            let want = spec_ownership(alias@, declared@, owned@, malformed);
            assert(before.len() == 0);
            assert(want.len() == 1);
            assert(finding_of(out@[0], file@) == Some(want[0]));
        }
    }
    out
}

/// When the declared claims are the signed-for claims, ownership agrees:
/// the one finding is `deliverable.owned`.
pub proof fn lemma_same_claims_are_owned(alias: Seq<char>, v: Seq<(String, String)>)
    requires
        v.len() > 0,
    ensures
        spec_ownership(alias, v, v, false).len() == 1,
        spec_ownership(alias, v, v, false)[0].0 == Severity::Pass,
        spec_ownership(alias, v, v, false)[0].1 == "deliverable.owned"@,
{
    let d = claims(v);
    let e: Seq<Claim> = seq![];
    assert(d.difference(d) =~= Set::empty());
    assert(lists(e, d.difference(d)));
    lemma_in_order(e, d.difference(d));
    let s = spec_ownership(alias, v, v, false);
    assert(e.map_values(undeclared_finding(alias)) =~= seq![]);
    assert(e.map_values(removed_finding(alias)) =~= seq![]);
}

} // verus!
