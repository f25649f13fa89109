//! `war export`: the portable export of one Warrant.
//!
//! Every content the export format names is either supplied or carries the
//! reason this repository cannot supply it; an export that omitted a required
//! content silently would look complete and be wrong.

use vstd::prelude::*;

use crate::digest::{sha256_hex, sha256_of, spec_hex};
use crate::text::{strs, chars_of, push_str, starts_lit, starts_with, str_eq, string_of};

verus! {

pub open spec fn spec_absent_reason(content: Seq<char>) -> Option<Seq<char>> {
    if content == "actions and relevant audit receipts"@ {
        Some(
            "no §67 action has been recorded — the KF seam reads but has not been authorized to write"@,
        )
    } else if content == "runtime receipt refs"@ {
        Some("nothing has executed; BLUT accepted a lowering but no run produced receipts"@)
    } else if content == "artifacts"@ {
        Some("no §37 deliverable has been produced as a content-addressed artifact"@)
    } else if content == "resolution and standing"@ {
        Some("no Warrant has resolved — §56.1 requirement 10 is unmet for every one of them"@)
    } else {
        None
    }
}

/// Why this repository cannot supply a content, when it cannot.
pub fn absent_reason(content: &str) -> (r: Option<&'static str>)
    ensures
        match (r, spec_absent_reason(content@)) {
            (Some(a), Some(b)) => a@ == b,
            (None, None) => true,
            _ => false,
        },
{
    if str_eq(content, "actions and relevant audit receipts") {
        Some(
            "no §67 action has been recorded — the KF seam reads but has not been authorized to write",
        )
    } else if str_eq(content, "runtime receipt refs") {
        Some("nothing has executed; BLUT accepted a lowering but no run produced receipts")
    } else if str_eq(content, "artifacts") {
        Some("no §37 deliverable has been produced as a content-addressed artifact")
    } else if str_eq(content, "resolution and standing") {
        Some("no Warrant has resolved — §56.1 requirement 10 is unmet for every one of them")
    } else {
        None
    }
}

/// The required contents (those not marked `optional `) split into those
/// supplied and those missing, each missing one as `content — reason`.
pub open spec fn classified(contents: Seq<Seq<char>>) -> (Seq<Seq<char>>, Seq<Seq<char>>)
    decreases contents.len(),
{
    if contents.len() == 0 {
        (seq![], seq![])
    } else {
        let (p, m) = classified(contents.drop_last());
        let c = contents.last();
        if starts_with(c, "optional "@) {
            (p, m)
        } else {
            match spec_absent_reason(c) {
                Some(why) => (p, m.push(c + " — "@ + why)),
                None => (p.push(c), m),
            }
        }
    }
}

/// What the export can carry of the named contents, and what it cannot.
pub fn classify_contents(contents: &Vec<String>) -> (r: (Vec<String>, Vec<String>))
    ensures
        (strs(r.0@), strs(r.1@)) == classified(strs(contents@)),
{
    let ghost cv = strs(contents@);
    let mut present: Vec<String> = Vec::new();
    let mut missing: Vec<String> = Vec::new();
    let mut i: usize = 0;
    while i < contents.len()
        invariant
            i <= contents.len(),
            cv == strs(contents@),
            (strs(present@), strs(missing@)) == classified(cv.take(i as int)),
        decreases contents.len() - i,
    {
        proof {
            assert(cv.take(i + 1).drop_last() =~= cv.take(i as int));
            assert(cv.take(i + 1).last() == contents@[i as int]@);
        }
        let c = contents[i].as_str();
        let v = chars_of(c);
        let ghost p0 = present@;
        let ghost m0 = missing@;
        if !starts_lit(&v, "optional ") {
            match absent_reason(c) {
                Some(why) => {
                    let mut line = chars_of(c);
                    push_str(&mut line, " — ");
                    push_str(&mut line, why);
                    let s = string_of(&line);
                    missing.push(s);
                    proof {
                        assert(strs(missing@) =~= strs(m0).push(s@));
                    }
                },
                None => {
                    let s = string_of(&v);
                    present.push(s);
                    proof {
                        assert(strs(present@) =~= strs(p0).push(s@));
                    }
                },
            }
        }
        i = i + 1;
    }
    proof {
        assert(cv.take(contents.len() as int) =~= cv);
    }
    (present, missing)
}

/// The bytes of all atoms, one after another.
pub open spec fn concat_bytes(atoms: Seq<Vec<u8>>) -> Seq<u8>
    decreases atoms.len(),
{
    if atoms.len() == 0 {
        seq![]
    } else {
        concat_bytes(atoms.drop_last()) + atoms.last()@
    }
}

/// The export's document digest: SHA-256 over every atom's bytes in order.
pub fn document_digest(atoms: &Vec<Vec<u8>>) -> (r: String)
    ensures
        r@ == "sha256:"@ + spec_hex(sha256_of(concat_bytes(atoms@))),
{
    let mut all: Vec<u8> = Vec::new();
    let mut i: usize = 0;
    while i < atoms.len()
        invariant
            i <= atoms.len(),
            all@ == concat_bytes(atoms@.take(i as int)),
        decreases atoms.len() - i,
    {
        proof {
            assert(atoms@.take(i + 1).drop_last() =~= atoms@.take(i as int));
            assert(atoms@.take(i + 1).last() == atoms@[i as int]);
        }
        let a = &atoms[i];
        let ghost before = all@;
        let mut j: usize = 0;
        while j < a.len()
            invariant
                j <= a.len(),
                all@ == before + a@.take(j as int),
            decreases a.len() - j,
        {
            all.push(a[j]);
            proof {
                assert(a@.take(j + 1) =~= a@.take(j as int).push(a@[j as int]));
                assert(all@ =~= before + a@.take(j + 1));
            }
            j = j + 1;
        }
        proof {
            assert(a@.take(a.len() as int) =~= a@);
        }
        i = i + 1;
    }
    proof {
        assert(atoms@.take(atoms.len() as int) =~= atoms@);
    }
    let h = sha256_hex(all.as_slice());
    let mut out = chars_of("sha256:");
    push_str(&mut out, h.as_str());
    string_of(&out)
}

} // verus!
