//! The references a Warrant makes to the roadmap and to the
//! SAS's requirements. A value that does not parse is reported rather than
//! dropped from a count; an absent contribution is a warning, since a Warrant
//! ought to declare one.

use vstd::prelude::*;

use crate::diagnostic::{Diagnostic, Severity};
use crate::pins::{finding_of, make, Finding};
use crate::text::{chars_of, debug_quoted, debug_str, decimal, push_decimal, push_str, str_eq};

verus! {

/// The highest phase the roadmap defines, for a program without a roadmap record.
pub const MAX_PHASE: u32 = 10;

/// A roadmap reference of a manifest: as written, parsed into its phase
/// prefix and phase (or why it does not parse), and, for one the roadmap
/// record was asked about, whether the record accepts it and what it
/// reported.
#[derive(Debug)]
pub struct RoadmapRef {
    pub reference: String,
    pub parsed: Result<(String, u32), String>,
    pub record: Option<(bool, Vec<Diagnostic>)>,
}

/// An `implements` entry: as written, its canonical requirement id (or why
/// it does not parse), and its contribution: `None` when unstated, else
/// whether it parses.
#[derive(Debug)]
pub struct Implemented {
    pub reference: String,
    pub parsed: Result<String, String>,
    pub contribution: Option<Result<(), String>>,
}

/// One item of the traceability report: a finding of this rule, or a
/// diagnostic the roadmap record reported.
pub enum Item {
    Mine(Finding),
    Passed(Diagnostic),
}

/// Whether the roadmap record must be asked about `parsed`.
pub fn needs_record(parsed: &Result<(String, u32), String>, namespace: &str, has_record: bool) -> (b: bool)
    ensures
        b == (has_record && parsed is Ok && parsed->Ok_0.0@ == namespace@),
{
    match parsed {
        Ok((prefix, _)) => has_record && str_eq(prefix.as_str(), namespace),
        Err(_) => false,
    }
}

/// The items of one roadmap reference and whether it is bad.
pub open spec fn roadmap_items(alias: Seq<char>, namespace: Seq<char>, has_record: bool, r: RoadmapRef) -> (Seq<Item>, bool) {
    match r.parsed {
        Err(why) => (seq![Item::Mine((Severity::Error, "roadmap.malformed"@, true, alias + ": "@ + why@))], true),
        Ok((prefix, phase)) => if prefix@ != namespace {
            (
                seq![Item::Mine((
                    Severity::Error,
                    "roadmap.wrong-namespace"@,
                    true,
                    alias + ": "@ + r.reference@ + " names phase prefix "@ + debug_str(prefix@)
                        + "; this repository's namespace is "@ + debug_str(namespace)
                        + ", and its SAS is the only §98 a roadmap ref can point into"@,
                ))],
                true,
            )
        } else if has_record {
            match r.record {
                Some((ok, ds)) => (ds@.map_values(|d: Diagnostic| Item::Passed(d)), !ok),
                None => (seq![], false),
            }
        } else if phase > MAX_PHASE {
            (
                seq![Item::Mine((
                    Severity::Error,
                    "roadmap.malformed"@,
                    true,
                    alias + ": "@ + r.reference@ + " names phase "@ + decimal(phase as nat)
                        + "; §98 defines 0..=10 and this program has no roadmap record to say otherwise"@,
                ))],
                true,
            )
        } else {
            (seq![], false)
        },
    }
}

/// Whether `known` lists the requirement `c`.
pub open spec fn knows(known: Seq<String>, c: Seq<char>) -> bool {
    exists|k: int| 0 <= k < known.len() && #[trigger] known[k]@ == c
}

/// The findings of one `implements` entry and how many of them are errors
/// that keep the references from passing; `known` is the requirement rows
/// of the pinned SAS, when its document can be read and has rows.
pub open spec fn implements_items(alias: Seq<char>, known: Option<Seq<String>>, i: Implemented, known_contributions: Seq<char>) -> (Seq<Item>, nat) {
    let (first, b1): (Seq<Item>, nat) = match i.parsed {
        Err(why) => (seq![Item::Mine((Severity::Error, "traceability.requirement-ref"@, true, alias + ": "@ + why@))], 1),
        Ok(c) => match known {
            Some(ks) => if !knows(ks, c@) {
                (
                    seq![Item::Mine((
                        Severity::Error,
                        "traceability.unknown-requirement"@,
                        true,
                        alias + ": implements "@ + i.reference@
                            + " and §106 of the pinned SAS has no such row (§34.1: a Warrant implements a requirement that exists)"@,
                    ))],
                    1,
                )
            } else {
                (seq![], 0)
            },
            None => (seq![], 0),
        },
    };
    let (second, b2): (Seq<Item>, nat) = match i.contribution {
        None => (
            seq![Item::Mine((
                Severity::Warn,
                "traceability.contribution-unstated"@,
                true,
                alias + ": "@ + i.reference@ + " declares no contribution; §34.2 says a WAR SHOULD state one of "@ + known_contributions,
            ))],
            0,
        ),
        Some(Ok(_)) => (seq![], 0),
        Some(Err(why)) => (
            seq![Item::Mine((Severity::Error, "traceability.contribution"@, true, alias + ": "@ + i.reference@ + ": "@ + why@))],
            1,
        ),
    };
    (first + second, b1 + b2)
}

/// The items of the roadmap references in order, and how many are bad.
pub open spec fn roadmap_all(alias: Seq<char>, namespace: Seq<char>, has_record: bool, rs: Seq<RoadmapRef>) -> (Seq<Item>, nat)
    decreases rs.len(),
{
    if rs.len() == 0 {
        (seq![], 0)
    } else {
        let (items, bad) = roadmap_all(alias, namespace, has_record, rs.drop_last());
        let (more, b) = roadmap_items(alias, namespace, has_record, rs.last());
        (items + more, bad + if b { 1nat } else { 0nat })
    }
}

/// The items of the `implements` entries in order, and how many are bad.
pub open spec fn implements_all(alias: Seq<char>, known: Option<Seq<String>>, is: Seq<Implemented>, known_contributions: Seq<char>) -> (Seq<Item>, nat)
    decreases is.len(),
{
    if is.len() == 0 {
        (seq![], 0)
    } else {
        let (items, bad) = implements_all(alias, known, is.drop_last(), known_contributions);
        let (more, b) = implements_items(alias, known, is.last(), known_contributions);
        (items + more, bad + b)
    }
}

/// The traceability report of one Warrant: the roadmap references, then the
/// `implements` entries, then `traceability.refs` when there are references
/// and none is bad.
pub open spec fn spec_traceability(
    alias: Seq<char>,
    namespace: Seq<char>,
    has_record: bool,
    rs: Seq<RoadmapRef>,
    known: Option<Seq<String>>,
    is: Seq<Implemented>,
    known_contributions: Seq<char>,
) -> Seq<Item> {
    let (a, ba) = roadmap_all(alias, namespace, has_record, rs);
    let (b, bb) = implements_all(alias, known, is, known_contributions);
    a + b + if ba + bb == 0 && !(rs.len() == 0 && is.len() == 0) {
        seq![Item::Mine((
            Severity::Pass,
            "traceability.refs"@,
            false,
            alias + ": "@ + decimal(is.len()) + " requirement ref(s) and "@ + decimal(rs.len()) + " roadmap ref(s) parse"@,
        ))]
    } else {
        seq![]
    }
}

/// The diagnostics are, one for one, the items.
pub open spec fn matches_items(ds: Seq<Diagnostic>, file: Seq<char>, items: Seq<Item>) -> bool {
    &&& ds.len() == items.len()
    &&& forall|k: int| 0 <= k < ds.len() ==> match #[trigger] items[k] {
        Item::Mine(f) => finding_of(ds[k], file) == Some(f),
        Item::Passed(d) => ds[k] == d,
    }
}

fn push_mine(out: &mut Vec<Diagnostic>, d: Diagnostic, Ghost(file): Ghost<Seq<char>>, Ghost(items): Ghost<Seq<Item>>, Ghost(f): Ghost<Finding>)
    requires
        matches_items(old(out)@, file, items),
        finding_of(d, file) == Some(f),
    ensures
        matches_items(final(out)@, file, items.push(Item::Mine(f))),
{
    let ghost before = out@;
    out.push(d);
    proof {
        let want = items.push(Item::Mine(f));
        assert forall|k: int| 0 <= k < out@.len() implies match #[trigger] want[k] {
            Item::Mine(g) => finding_of(out@[k], file) == Some(g),
            Item::Passed(e) => out@[k] == e,
        } by {
            if k < before.len() {
                assert(out@[k] == before[k]);
                assert(want[k] == items[k]);
            }
        }
    }
}

fn append_passed(out: &mut Vec<Diagnostic>, ds: Vec<Diagnostic>, Ghost(file): Ghost<Seq<char>>, Ghost(items): Ghost<Seq<Item>>)
    requires
        matches_items(old(out)@, file, items),
    ensures
        matches_items(final(out)@, file, items + ds@.map_values(|d: Diagnostic| Item::Passed(d))),
{
    let ghost before = out@;
    let ghost dv = ds@;
    let mut ds = ds;
    out.append(&mut ds);
    proof {
        let want = items + dv.map_values(|d: Diagnostic| Item::Passed(d));
        assert(out@ =~= before + dv);
        assert forall|k: int| 0 <= k < out@.len() implies match #[trigger] want[k] {
            Item::Mine(g) => finding_of(out@[k], file) == Some(g),
            Item::Passed(e) => out@[k] == e,
        } by {
            if k < before.len() {
                assert(out@[k] == before[k]);
                assert(want[k] == items[k]);
            } else {
                assert(want[k] == Item::Passed(dv[k - before.len()]));
            }
        }
    }
}

fn roadmap_ref_out(alias: &str, file: &str, namespace: &str, has_record: bool, r: RoadmapRef, out: &mut Vec<Diagnostic>, Ghost(items): Ghost<Seq<Item>>) -> (bad: bool)
    requires
        matches_items(old(out)@, file@, items),
    ensures
        bad == roadmap_items(alias@, namespace@, has_record, r).1,
        matches_items(final(out)@, file@, items + roadmap_items(alias@, namespace@, has_record, r).0),
{
    let ghost want = roadmap_items(alias@, namespace@, has_record, r);
    let ghost rr = r;
    let RoadmapRef { reference, parsed, record } = r;
    match parsed {
        Err(why) => {
            let mut m = chars_of(alias);
            push_str(&mut m, ": ");
            push_str(&mut m, why.as_str());
            let d = make(Severity::Error, "roadmap.malformed", true, file, &m);
            push_mine(out, d, Ghost(file@), Ghost(items), Ghost((Severity::Error, "roadmap.malformed"@, true, m@)));
            proof { assert(items.push(want.0[0]) =~= items + want.0); }
            true
        },
        Ok((prefix, phase)) => {
            if !str_eq(prefix.as_str(), namespace) {
                let mut m = chars_of(alias);
                push_str(&mut m, ": ");
                push_str(&mut m, reference.as_str());
                push_str(&mut m, " names phase prefix ");
                push_str(&mut m, debug_quoted(prefix.as_str()).as_str());
                push_str(&mut m, "; this repository's namespace is ");
                push_str(&mut m, debug_quoted(namespace).as_str());
                push_str(&mut m, ", and its SAS is the only §98 a roadmap ref can point into");
                let d = make(Severity::Error, "roadmap.wrong-namespace", true, file, &m);
                push_mine(out, d, Ghost(file@), Ghost(items), Ghost((Severity::Error, "roadmap.wrong-namespace"@, true, m@)));
                proof { assert(items.push(want.0[0]) =~= items + want.0); }
                true
            } else if has_record {
                match record {
                    Some((ok, ds)) => {
                        append_passed(out, ds, Ghost(file@), Ghost(items));
                        !ok
                    },
                    None => {
                        proof { assert(items + seq![] =~= items); }
                        false
                    },
                }
            } else if phase > MAX_PHASE {
                let mut m = chars_of(alias);
                push_str(&mut m, ": ");
                push_str(&mut m, reference.as_str());
                push_str(&mut m, " names phase ");
                push_decimal(&mut m, phase as u64);
                push_str(&mut m, "; §98 defines 0..=10 and this program has no roadmap record to say otherwise");
                let d = make(Severity::Error, "roadmap.malformed", true, file, &m);
                push_mine(out, d, Ghost(file@), Ghost(items), Ghost((Severity::Error, "roadmap.malformed"@, true, m@)));
                proof { assert(items.push(want.0[0]) =~= items + want.0); }
                true
            } else {
                proof { assert(items + seq![] =~= items); }
                false
            }
        },
    }
}

fn knows_row(known: &Vec<String>, c: &str) -> (r: bool)
    ensures
        r == knows(known@, c@),
{
    let mut k: usize = 0;
    while k < known.len()
        invariant
            k <= known.len(),
            forall|j: int| 0 <= j < k ==> #[trigger] known@[j]@ != c@,
        decreases known.len() - k,
    {
        if str_eq(known[k].as_str(), c) {
            return true;
        }
        k = k + 1;
    }
    false
}

pub open spec fn known_view(known: Option<Vec<String>>) -> Option<Seq<String>> {
    match known {
        Some(v) => Some(v@),
        None => None,
    }
}

fn implements_out(alias: &str, file: &str, known: &Option<Vec<String>>, i: &Implemented, known_contributions: &str, out: &mut Vec<Diagnostic>, Ghost(items): Ghost<Seq<Item>>) -> (bad: usize)
    requires
        matches_items(old(out)@, file@, items),
    ensures
        bad == implements_items(alias@, known_view(*known), *i, known_contributions@).1,
        bad <= 2,
        matches_items(final(out)@, file@, items + implements_items(alias@, known_view(*known), *i, known_contributions@).0),
{
    let ghost want = implements_items(alias@, known_view(*known), *i, known_contributions@);
    let mut bad: usize = 0;
    match &i.parsed {
        Err(why) => {
            let mut m = chars_of(alias);
            push_str(&mut m, ": ");
            push_str(&mut m, why.as_str());
            let d = make(Severity::Error, "traceability.requirement-ref", true, file, &m);
            push_mine(out, d, Ghost(file@), Ghost(items), Ghost((Severity::Error, "traceability.requirement-ref"@, true, m@)));
            bad = 1;
        },
        Ok(c) => {
            match known {
                Some(ks) => {
                    if !knows_row(ks, c.as_str()) {
                        let mut m = chars_of(alias);
                        push_str(&mut m, ": implements ");
                        push_str(&mut m, i.reference.as_str());
                        push_str(&mut m, " and §106 of the pinned SAS has no such row (§34.1: a Warrant implements a requirement that exists)");
                        let d = make(Severity::Error, "traceability.unknown-requirement", true, file, &m);
                        push_mine(out, d, Ghost(file@), Ghost(items), Ghost((Severity::Error, "traceability.unknown-requirement"@, true, m@)));
                        bad = 1;
                    }
                },
                None => {},
            }
        },
    }
    let ghost mid = out@;
    let ghost first_items: Seq<Item> = items + want.0.take(bad as int);
    proof {
        if bad == 0 {
            assert(first_items =~= items);
        } else {
            assert(first_items =~= items.push(want.0[0]));
        }
    }
    match &i.contribution {
        None => {
            let mut m = chars_of(alias);
            push_str(&mut m, ": ");
            push_str(&mut m, i.reference.as_str());
            push_str(&mut m, " declares no contribution; §34.2 says a WAR SHOULD state one of ");
            push_str(&mut m, known_contributions);
            let d = make(Severity::Warn, "traceability.contribution-unstated", true, file, &m);
            push_mine(out, d, Ghost(file@), Ghost(first_items), Ghost((Severity::Warn, "traceability.contribution-unstated"@, true, m@)));
            proof { assert(first_items.push(Item::Mine((Severity::Warn, "traceability.contribution-unstated"@, true, m@))) =~= items + want.0); }
        },
        Some(Ok(_)) => {
            proof { assert(first_items =~= items + want.0); }
        },
        Some(Err(why)) => {
            let mut m = chars_of(alias);
            push_str(&mut m, ": ");
            push_str(&mut m, i.reference.as_str());
            push_str(&mut m, ": ");
            push_str(&mut m, why.as_str());
            let d = make(Severity::Error, "traceability.contribution", true, file, &m);
            push_mine(out, d, Ghost(file@), Ghost(first_items), Ghost((Severity::Error, "traceability.contribution"@, true, m@)));
            proof { assert(first_items.push(Item::Mine((Severity::Error, "traceability.contribution"@, true, m@))) =~= items + want.0); }
            bad = bad + 1;
        },
    }
    bad
}

/// The traceability report of one Warrant whose manifest is `file`:
/// `namespace` is this repository's, `has_record` whether the program has a
/// roadmap record, `known` the requirement rows of the pinned SAS (`None`
/// when its document cannot be read or has none), and `known_contributions`
/// the contributions the rules allow, as listed in the warning.
pub fn traceability_findings(
    alias: &str,
    file: &str,
    namespace: &str,
    has_record: bool,
    roadmap: Vec<RoadmapRef>,
    known: &Option<Vec<String>>,
    implements: &Vec<Implemented>,
    known_contributions: &str,
) -> (r: Vec<Diagnostic>)
    ensures
        matches_items(r@, file@, spec_traceability(alias@, namespace@, has_record, roadmap@, known_view(*known), implements@, known_contributions@)),
{
    let mut out: Vec<Diagnostic> = Vec::new();
    let ghost orig = roadmap@;
    let n_road = roadmap.len();
    let mut rest = roadmap;
    let mut bad: usize = 0;
    let mut i: usize = 0;
    proof {
        assert(orig.skip(0) =~= orig);
        assert(orig.take(0) =~= Seq::<RoadmapRef>::empty());
    }
    while i < n_road
        invariant
            i <= n_road,
            n_road == orig.len(),
            rest@ == orig.skip(i as int),
            bad <= i,
            bad == roadmap_all(alias@, namespace@, has_record, orig.take(i as int)).1,
            matches_items(out@, file@, roadmap_all(alias@, namespace@, has_record, orig.take(i as int)).0),
        decreases n_road - i,
    {
        let r = rest.remove(0);
        proof {
            assert(r == orig[i as int]);
            assert(rest@ =~= orig.skip(i + 1));
            assert(orig.take(i + 1).drop_last() =~= orig.take(i as int));
            assert(orig.take(i + 1).last() == orig[i as int]);
        }
        let ghost items = out@;
        let b = roadmap_ref_out(alias, file, namespace, has_record, r, &mut out, Ghost(roadmap_all(alias@, namespace@, has_record, orig.take(i as int)).0));
        if b {
            bad = bad + 1;
        }
        i = i + 1;
    }
    proof {
        assert(orig.take(n_road as int) =~= orig);
    }
    let ghost ra = roadmap_all(alias@, namespace@, has_record, orig);
    let mut j: usize = 0;
    let mut clean_i: bool = true;
    while j < implements.len()
        invariant
            j <= implements.len(),
            ra == roadmap_all(alias@, namespace@, has_record, orig),
            bad == ra.1,
            bad <= n_road,
            clean_i == (implements_all(alias@, known_view(*known), implements@.take(j as int), known_contributions@).1 == 0),
            matches_items(out@, file@, ra.0 + implements_all(alias@, known_view(*known), implements@.take(j as int), known_contributions@).0),
        decreases implements.len() - j,
    {
        proof {
            assert(implements@.take(j + 1).drop_last() =~= implements@.take(j as int));
            assert(implements@.take(j + 1).last() == implements@[j as int]);
        }
        let ghost prev = implements_all(alias@, known_view(*known), implements@.take(j as int), known_contributions@).0;
        let b = implements_out(alias, file, known, &implements[j], known_contributions, &mut out, Ghost(ra.0 + prev));
        proof {
            let more = implements_items(alias@, known_view(*known), implements@[j as int], known_contributions@).0;
            assert(ra.0 + prev + more =~= ra.0 + (prev + more));
        }
        if b > 0 {
            clean_i = false;
        }
        j = j + 1;
    }
    proof {
        assert(implements@.take(implements.len() as int) =~= implements@);
    }
    let ghost ib = implements_all(alias@, known_view(*known), implements@, known_contributions@);
    proof {
        assert(ra.0 + ib.0 == spec_traceability(alias@, namespace@, has_record, orig, known_view(*known), implements@, known_contributions@).take((ra.0 + ib.0).len() as int));
    }
    if bad == 0 && clean_i && !(n_road == 0 && implements.len() == 0) {
        let mut m = chars_of(alias);
        push_str(&mut m, ": ");
        push_decimal(&mut m, implements.len() as u64);
        push_str(&mut m, " requirement ref(s) and ");
        push_decimal(&mut m, n_road as u64);
        push_str(&mut m, " roadmap ref(s) parse");
        let d = make(Severity::Pass, "traceability.refs", false, file, &m);
        push_mine(&mut out, d, Ghost(file@), Ghost(ra.0 + ib.0), Ghost((Severity::Pass, "traceability.refs"@, false, m@)));
        proof {
            assert(ra.1 + ib.1 == 0);
            assert((ra.0 + ib.0).push(Item::Mine((Severity::Pass, "traceability.refs"@, false, m@))) =~= spec_traceability(alias@, namespace@, has_record, orig, known_view(*known), implements@, known_contributions@));
        }
    } else {
        proof {
            assert(!(ra.1 + ib.1 == 0 && !(orig.len() == 0 && implements@.len() == 0)));
            assert(ra.0 + ib.0 =~= spec_traceability(alias@, namespace@, has_record, orig, known_view(*known), implements@, known_contributions@));
        }
    }
    out
}

proof fn lemma_unparsed_is_bad(alias: Seq<char>, known: Option<Seq<String>>, is: Seq<Implemented>, known_contributions: Seq<char>, k: int)
    requires
        0 <= k < is.len(),
        is[k].parsed is Err,
    ensures
        implements_all(alias, known, is, known_contributions).1 >= 1,
    decreases is.len(),
{
    if k < is.len() - 1 {
        lemma_unparsed_is_bad(alias, known, is.drop_last(), known_contributions, k);
    }
}

/// A requirement reference that does not parse is reported, and the
/// references are then never reported as parsing: nothing follows the
/// findings of the references themselves.
pub proof fn lemma_unparsed_reference_withholds_the_pass(
    alias: Seq<char>,
    namespace: Seq<char>,
    has_record: bool,
    rs: Seq<RoadmapRef>,
    known: Option<Seq<String>>,
    is: Seq<Implemented>,
    known_contributions: Seq<char>,
    k: int,
)
    requires
        0 <= k < is.len(),
        is[k].parsed is Err,
    ensures
        spec_traceability(alias, namespace, has_record, rs, known, is, known_contributions)
            == roadmap_all(alias, namespace, has_record, rs).0 + implements_all(alias, known, is, known_contributions).0,
{
    lemma_unparsed_is_bad(alias, known, is, known_contributions, k);
    let a = roadmap_all(alias, namespace, has_record, rs).0;
    let b = implements_all(alias, known, is, known_contributions).0;
    assert(a + b + seq![] =~= a + b);
}

} // verus!
