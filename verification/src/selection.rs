//! The assembly of a stage's context selection: every
//! included item with its role, holder, digest, trust and precedence, every
//! omitted atom with its reason, and the bytes each included item carries,
//! each list in a deterministic order. Which atoms are included and which
//! declarations are refused is decided in `context_select`.

use vstd::prelude::*;
use vstd::string::StringSliceAdditionalSpecFns;

use crate::context_select::{
    atom_by_name, atom_fate, fate_view, find_atom, refusal_view, refusals, role_for, spec_fate,
    spec_refusals, spec_role_for, split_hash, Atom, AtomFate, ContextRole, ContextStage, Refusal,
    SectionLookup,
};
use crate::digest::{sha256_hex, sha256_of, spec_hex};
use crate::text::{
    chars_of, insert_sorted, join_path, lex_less, lex_lt, path_join, push_str, sorted_unique,
    str_eq, string_of, strs, trim, trim_bounds, views,
};

verus! {

// ---------------------------------------------------------------------------
// A stable sort
// ---------------------------------------------------------------------------

/// A value with a record of what it holds, sorted by a strict order on
/// records.
pub trait Ordered: Sized {
    type R;

    spec fn record(&self) -> Self::R;

    spec fn before(a: Self::R, b: Self::R) -> bool;

    fn is_less(&self, other: &Self) -> (r: bool)
        ensures
            r == Self::before(self.record(), other.record()),
    ;
}

/// The records of a sequence of values.
pub open spec fn records<T: Ordered>(s: Seq<T>) -> Seq<T::R> {
    s.map_values(|x: T| x.record())
}

/// `x` inserted into `s` after every record it is not before, walking back
/// from the end.
pub open spec fn insert_ordered<T: Ordered>(s: Seq<T::R>, x: T::R) -> Seq<T::R>
    decreases s.len(),
{
    if s.len() == 0 {
        seq![x]
    } else if T::before(x, s.last()) {
        insert_ordered::<T>(s.drop_last(), x).push(s.last())
    } else {
        s.push(x)
    }
}

/// `s` sorted by insertion, record by record: a stable sort.
pub open spec fn sort_ordered<T: Ordered>(s: Seq<T::R>) -> Seq<T::R>
    decreases s.len(),
{
    if s.len() == 0 {
        seq![]
    } else {
        insert_ordered::<T>(sort_ordered::<T>(s.drop_last()), s.last())
    }
}

proof fn lemma_insert_at<T: Ordered>(s: Seq<T::R>, x: T::R, k: int)
    requires
        0 <= k <= s.len(),
        forall|j: int| k <= j < s.len() ==> T::before(x, #[trigger] s[j]),
        k == 0 || !T::before(x, s[k - 1]),
    ensures
        insert_ordered::<T>(s, x) == s.insert(k, x),
    decreases s.len(),
{
    if s.len() == 0 {
        assert(s.insert(k, x) =~= seq![x]);
    } else if k == s.len() {
        assert(s.insert(k, x) =~= s.push(x));
    } else {
        assert(T::before(x, s[s.len() - 1]));
        lemma_insert_at::<T>(s.drop_last(), x, k);
        assert(s.drop_last().insert(k, x).push(s.last()) =~= s.insert(k, x));
    }
}

fn insert_in_order<T: Ordered>(v: &mut Vec<T>, x: T)
    ensures
        records(final(v)@) == insert_ordered::<T>(records(old(v)@), x.record()),
{
    let mut k: usize = v.len();
    while k > 0 && x.is_less(&v[k - 1])
        invariant
            k <= v.len(),
            forall|j: int| k <= j < v.len() ==> T::before(x.record(), #[trigger] records(v@)[j]),
        decreases k,
    {
        k = k - 1;
    }
    let ghost before_rec = records(v@);
    proof {
        lemma_insert_at::<T>(before_rec, x.record(), k as int);
    }
    let ghost xr = x.record();
    v.insert(k, x);
    proof {
        assert(records(v@) =~= before_rec.insert(k as int, xr));
    }
}

/// `items` in stable order.
pub fn sorted<T: Ordered>(items: Vec<T>) -> (r: Vec<T>)
    ensures
        records(r@) == sort_ordered::<T>(records(items@)),
{
    let ghost orig = records(items@);
    let mut rest = items;
    let mut out: Vec<T> = Vec::new();
    let n = rest.len();
    let mut i: usize = 0;
    proof {
        assert(records(rest@) =~= orig.skip(0));
        assert(rest.len() == records(rest@).len());
        assert(records(out@) =~= sort_ordered::<T>(orig.take(0)));
    }
    while i < n
        invariant
            i <= n,
            n == orig.len(),
            rest.len() == n - i,
            records(rest@) == orig.skip(i as int),
            records(out@) == sort_ordered::<T>(orig.take(i as int)),
        decreases n - i,
    {
        let ghost before = rest@;
        let x = rest.remove(0);
        proof {
            assert(records(before)[0] == x.record());
            assert(x.record() == orig[i as int]);
            assert(records(rest@) =~= records(before).drop_first());
            assert(records(rest@) =~= orig.skip(i + 1));
            assert(orig.take(i + 1).drop_last() =~= orig.take(i as int));
            assert(orig.take(i + 1).last() == orig[i as int]);
        }
        insert_in_order(&mut out, x);
        i = i + 1;
    }
    proof {
        assert(orig.take(n as int) =~= orig);
    }
    out
}

// ---------------------------------------------------------------------------
// The selection's items
// ---------------------------------------------------------------------------

/// How far an item of context is to be trusted.
#[derive(Debug, Clone, Copy, PartialEq, Eq, Structural)]
pub enum TrustClass {
    AuthoritativeInternal,
    InternalUnverified,
    ExternalUntrusted,
}

/// Which source prevails when two items disagree.
#[derive(Debug, Clone, Copy, PartialEq, Eq, Structural)]
pub enum Precedence {
    AuthorizedWarContract,
    InformativeSource,
}

/// Where an item's bytes are held.
#[derive(Debug, Clone, PartialEq, Eq)]
pub struct Holder {
    pub kind: String,
    pub repository: String,
    pub commit_sha: String,
    pub path: String,
}

/// One included item of context.
#[derive(Debug, Clone, PartialEq, Eq)]
pub struct ContextItem {
    pub id: String,
    pub role: ContextRole,
    pub required: bool,
    pub holder: Holder,
    pub content_digest: String,
    pub selector_sections: Vec<String>,
    pub classification: String,
    pub trust: TrustClass,
    pub taints: Vec<String>,
    pub precedence: Option<Precedence>,
}

/// One atom left out, with the reason the manifest records.
#[derive(Debug, Clone, PartialEq, Eq)]
pub struct Omission {
    pub id: String,
    pub reason: String,
    pub required: bool,
}

/// A stage's context: what is included, what is left out, and the bytes
/// each included item carries (an external reference carries none), each
/// sorted.
#[derive(Debug)]
pub struct Selection {
    pub included: Vec<ContextItem>,
    pub omitted: Vec<Omission>,
    pub bytes: Vec<(String, u64)>,
}

/// What an included item records: its selector sections as a set, and
/// whether the vector lists them sorted, each once.
pub struct ItemRecord {
    pub id: Seq<char>,
    pub role: ContextRole,
    pub required: bool,
    pub holder: (Seq<char>, Seq<char>, Seq<char>, Seq<char>),
    pub digest: Seq<char>,
    pub sections: Set<Seq<char>>,
    pub sections_in_order: bool,
    pub classification: Seq<char>,
    pub trust: TrustClass,
    pub taints: Seq<Seq<char>>,
    pub precedence: Option<Precedence>,
}

impl Ordered for ContextItem {
    type R = ItemRecord;

    open spec fn record(&self) -> ItemRecord {
        ItemRecord {
            id: self.id@,
            role: self.role,
            required: self.required,
            holder: (
                self.holder.kind@,
                self.holder.repository@,
                self.holder.commit_sha@,
                self.holder.path@,
            ),
            digest: self.content_digest@,
            sections: strs(self.selector_sections@).to_set(),
            sections_in_order: sorted_unique(strs(self.selector_sections@)),
            classification: self.classification@,
            trust: self.trust,
            taints: strs(self.taints@),
            precedence: self.precedence,
        }
    }

    open spec fn before(a: ItemRecord, b: ItemRecord) -> bool {
        lex_lt(a.id, b.id)
    }

    fn is_less(&self, other: &Self) -> (r: bool) {
        lex_less(&chars_of(self.id.as_str()), &chars_of(other.id.as_str()))
    }
}

impl Ordered for Omission {
    type R = (Seq<char>, Seq<char>, bool);

    open spec fn record(&self) -> (Seq<char>, Seq<char>, bool) {
        (self.id@, self.reason@, self.required)
    }

    open spec fn before(a: (Seq<char>, Seq<char>, bool), b: (Seq<char>, Seq<char>, bool)) -> bool {
        lex_lt(a.0, b.0)
    }

    fn is_less(&self, other: &Self) -> (r: bool) {
        lex_less(&chars_of(self.id.as_str()), &chars_of(other.id.as_str()))
    }
}

impl Ordered for (String, u64) {
    type R = (Seq<char>, u64);

    open spec fn record(&self) -> (Seq<char>, u64) {
        (self.0@, self.1)
    }

    /// The order of `(String, u64)`'s `Ord`: by text, then by number.
    open spec fn before(a: (Seq<char>, u64), b: (Seq<char>, u64)) -> bool {
        lex_lt(a.0, b.0) || (a.0 == b.0 && a.1 < b.1)
    }

    fn is_less(&self, other: &Self) -> (r: bool) {
        let a = chars_of(self.0.as_str());
        let b = chars_of(other.0.as_str());
        lex_less(&a, &b) || (crate::text::eq_chars(&a, &b) && self.1 < other.1)
    }
}

// ---------------------------------------------------------------------------
// What the selection assembles
// ---------------------------------------------------------------------------

/// The selection before it is sorted: item records, omissions and carried
/// byte counts, in the order they are found.
pub struct Assembly {
    pub items: Seq<ItemRecord>,
    pub omitted: Seq<(Seq<char>, Seq<char>, bool)>,
    pub carried: Seq<(Seq<char>, u64)>,
}

pub open spec fn git_holder(repo: Seq<char>, commit: Seq<char>, path: Seq<char>) -> (
    Seq<char>,
    Seq<char>,
    Seq<char>,
    Seq<char>,
) {
    ("git"@, repo, commit, path)
}

pub open spec fn digest_of(bytes: Seq<u8>) -> Seq<char> {
    "sha256:"@ + spec_hex(sha256_of(bytes))
}

/// The item of an atom included whole; `wrel` is the Warrant's directory
/// relative to the repository root.
pub open spec fn atom_item(a: Atom, repo: Seq<char>, commit: Seq<char>, wrel: Seq<char>) -> ItemRecord {
    ItemRecord {
        id: a.source@,
        role: spec_role_for(a.role@),
        required: a.required,
        holder: git_holder(repo, commit, path_join(wrel, a.source@)),
        digest: digest_of(a.bytes@),
        sections: Set::empty(),
        sections_in_order: true,
        classification: "internal"@,
        trust: TrustClass::AuthoritativeInternal,
        taints: seq![],
        precedence: Some(Precedence::AuthorizedWarContract),
    }
}

/// The atoms' part, atom by atom: an included atom adds its item and its
/// byte count, an omitted one its omission, a sectioned one nothing.
pub open spec fn atoms_part(
    atoms: Seq<Atom>,
    stage: ContextStage,
    sectioned: Seq<Seq<char>>,
    repo: Seq<char>,
    commit: Seq<char>,
    wrel: Seq<char>,
) -> Assembly
    decreases atoms.len(),
{
    if atoms.len() == 0 {
        Assembly { items: seq![], omitted: seq![], carried: seq![] }
    } else {
        let rest = atoms_part(atoms.drop_last(), stage, sectioned, repo, commit, wrel);
        let a = atoms.last();
        let f = spec_fate(a, stage.id@, strs(stage.context_atoms@), sectioned);
        if f.0 == 0 {
            Assembly {
                items: rest.items.push(atom_item(a, repo, commit, wrel)),
                omitted: rest.omitted,
                carried: rest.carried.push((a.source@, a.bytes@.len() as u64)),
            }
        } else if f.0 == 1 {
            Assembly {
                items: rest.items,
                omitted: rest.omitted.push((a.source@, f.2, false)),
                carried: rest.carried,
            }
        } else {
            rest
        }
    }
}

/// A declared section that was found: the source of the atom it names, the
/// trimmed heading, and the section's body.
pub open spec fn found_section(sel: Seq<char>, atoms: Seq<Atom>, lookup: SectionLookup) -> Option<
    (Seq<char>, Seq<char>, Seq<char>),
> {
    match split_hash(sel) {
        Some((name, heading)) => match atom_by_name(atoms, name) {
            Some(k) => match lookup {
                SectionLookup::Found { body } => Some((atoms[k].source@, trim(heading), body@)),
                SectionLookup::Missing { .. } => None,
            },
            None => None,
        },
        None => None,
    }
}

pub open spec fn found_sections(
    sels: Seq<Seq<char>>,
    atoms: Seq<Atom>,
    lookups: Seq<SectionLookup>,
) -> Seq<(Seq<char>, Seq<char>, Seq<char>)>
    decreases sels.len(),
{
    if sels.len() == 0 {
        seq![]
    } else {
        let n = sels.len() - 1;
        let rest = found_sections(sels.drop_last(), atoms, lookups);
        match found_section(sels[n], atoms, lookups[n]) {
            Some(t) => rest.push(t),
            None => rest,
        }
    }
}

pub open spec fn source_of(t: (Seq<char>, Seq<char>, Seq<char>)) -> Seq<char> {
    t.0
}

pub open spec fn sources_of(secs: Seq<(Seq<char>, Seq<char>, Seq<char>)>) -> Seq<Seq<char>> {
    secs.map_values(|t: (Seq<char>, Seq<char>, Seq<char>)| source_of(t))
}

/// The first item with identifier `id`.
pub open spec fn first_id(items: Seq<ItemRecord>, id: Seq<char>) -> Option<int>
    decreases items.len(),
{
    if items.len() == 0 {
        None
    } else if items[0].id == id {
        Some(0)
    } else {
        match first_id(items.drop_first(), id) {
            Some(i) => Some(i + 1),
            None => None,
        }
    }
}

pub open spec fn section_id(sec: (Seq<char>, Seq<char>, Seq<char>)) -> Seq<char> {
    sec.0 + "#"@ + sec.1
}

/// The item of a section whose atom is not included whole.
pub open spec fn section_item(
    sec: (Seq<char>, Seq<char>, Seq<char>),
    atoms: Seq<Atom>,
    repo: Seq<char>,
    commit: Seq<char>,
    wrel: Seq<char>,
) -> ItemRecord {
    ItemRecord {
        id: section_id(sec),
        role: match atom_by_name(atoms, sec.0) {
            Some(k) => spec_role_for(atoms[k].role@),
            None => ContextRole::Informative,
        },
        required: false,
        holder: git_holder(repo, commit, path_join(wrel, sec.0)),
        digest: digest_of(vstd::utf8::encode_utf8(sec.2)),
        sections: Set::empty().insert(sec.1),
        sections_in_order: true,
        classification: "internal"@,
        trust: TrustClass::AuthoritativeInternal,
        taints: seq![],
        precedence: Some(Precedence::AuthorizedWarContract),
    }
}

pub open spec fn with_heading(i: ItemRecord, heading: Seq<char>) -> ItemRecord {
    ItemRecord { sections: i.sections.insert(heading), ..i }
}

/// A found section narrows the first item that is its atom (its heading is
/// recorded on it as a selector); otherwise it becomes an item of its own,
/// carrying its body.
pub open spec fn with_section(
    part: Assembly,
    sec: (Seq<char>, Seq<char>, Seq<char>),
    atoms: Seq<Atom>,
    repo: Seq<char>,
    commit: Seq<char>,
    wrel: Seq<char>,
) -> Assembly {
    match first_id(part.items, sec.0) {
        Some(k) => Assembly {
            items: part.items.update(k, with_heading(part.items[k], sec.1)),
            omitted: part.omitted,
            carried: part.carried,
        },
        None => Assembly {
            items: part.items.push(section_item(sec, atoms, repo, commit, wrel)),
            omitted: part.omitted,
            carried: part.carried.push(
                (section_id(sec), vstd::utf8::encode_utf8(sec.2).len() as u64),
            ),
        },
    }
}

pub open spec fn with_sections(
    part: Assembly,
    secs: Seq<(Seq<char>, Seq<char>, Seq<char>)>,
    atoms: Seq<Atom>,
    repo: Seq<char>,
    commit: Seq<char>,
    wrel: Seq<char>,
) -> Assembly
    decreases secs.len(),
{
    if secs.len() == 0 {
        part
    } else {
        with_section(
            with_sections(part, secs.drop_last(), atoms, repo, commit, wrel),
            secs.last(),
            atoms,
            repo,
            commit,
            wrel,
        )
    }
}

pub open spec fn artifact_item(path: Seq<char>, content: Seq<u8>, repo: Seq<char>, commit: Seq<char>) -> ItemRecord {
    ItemRecord {
        id: path,
        role: ContextRole::Input,
        required: false,
        holder: git_holder(repo, commit, path),
        digest: digest_of(content),
        sections: Set::empty(),
        sections_in_order: true,
        classification: "internal"@,
        trust: TrustClass::InternalUnverified,
        taints: seq![],
        precedence: Some(Precedence::InformativeSource),
    }
}

/// Every artifact that was read becomes an item carrying its content.
pub open spec fn with_artifacts(
    part: Assembly,
    paths: Seq<Seq<char>>,
    reads: Seq<Result<Vec<u8>, String>>,
    repo: Seq<char>,
    commit: Seq<char>,
) -> Assembly
    decreases paths.len(),
{
    if paths.len() == 0 {
        part
    } else {
        let n = paths.len() - 1;
        let rest = with_artifacts(part, paths.drop_last(), reads, repo, commit);
        match reads[n] {
            Ok(c) => Assembly {
                items: rest.items.push(artifact_item(paths[n], c@, repo, commit)),
                omitted: rest.omitted,
                carried: rest.carried.push((paths[n], c@.len() as u64)),
            },
            Err(_) => rest,
        }
    }
}

pub open spec fn glossary_item(body: Seq<u8>, repo: Seq<char>, commit: Seq<char>) -> ItemRecord {
    ItemRecord {
        id: "CONTEXT.md"@,
        role: ContextRole::Informative,
        required: false,
        holder: git_holder(repo, commit, "CONTEXT.md"@),
        digest: digest_of(body),
        sections: Set::empty(),
        sections_in_order: true,
        classification: "internal"@,
        trust: TrustClass::AuthoritativeInternal,
        taints: seq![],
        precedence: Some(Precedence::InformativeSource),
    }
}

/// The program's glossary, when it exists, is carried whatever the stage.
pub open spec fn with_glossary(part: Assembly, glossary: Option<Seq<u8>>, repo: Seq<char>, commit: Seq<char>) -> Assembly {
    match glossary {
        Some(body) => Assembly {
            items: part.items.push(glossary_item(body, repo, commit)),
            omitted: part.omitted,
            carried: part.carried.push(("CONTEXT.md"@, body.len() as u64)),
        },
        None => part,
    }
}

/// An external reference is recorded, never fetched: no digest, no bytes,
/// and the `unfetched` taint.
pub open spec fn external_item(uri: Seq<char>) -> ItemRecord {
    ItemRecord {
        id: uri,
        role: ContextRole::Informative,
        required: false,
        holder: ("external"@, seq![], seq![], uri),
        digest: seq![],
        sections: Set::empty(),
        sections_in_order: true,
        classification: "internal"@,
        trust: TrustClass::ExternalUntrusted,
        taints: seq!["unfetched"@],
        precedence: Some(Precedence::InformativeSource),
    }
}

pub open spec fn with_externals(part: Assembly, uris: Seq<Seq<char>>) -> Assembly
    decreases uris.len(),
{
    if uris.len() == 0 {
        part
    } else {
        let rest = with_externals(part, uris.drop_last());
        Assembly { items: rest.items.push(external_item(uris.last())), omitted: rest.omitted, carried: rest.carried }
    }
}

pub open spec fn glossary_view(g: Option<Vec<u8>>) -> Option<Seq<u8>> {
    match g {
        Some(b) => Some(b@),
        None => None,
    }
}

/// Everything a stage's selection holds before it is sorted.
pub open spec fn spec_assembly(
    stage: ContextStage,
    atoms: Seq<Atom>,
    lookups: Seq<SectionLookup>,
    reads: Seq<Result<Vec<u8>, String>>,
    glossary: Option<Seq<u8>>,
    repo: Seq<char>,
    commit: Seq<char>,
    wrel: Seq<char>,
) -> Assembly {
    let secs = found_sections(strs(stage.context_sections@), atoms, lookups);
    let a0 = atoms_part(atoms, stage, sources_of(secs), repo, commit, wrel);
    let a1 = with_sections(a0, secs, atoms, repo, commit, wrel);
    let a2 = with_artifacts(a1, strs(stage.context_artifacts@), reads, repo, commit);
    let a3 = with_glossary(a2, glossary, repo, commit);
    with_externals(a3, strs(stage.context_external@))
}

/// The read errors of the declared artifacts, as the refusals take them.
pub open spec fn read_errors(reads: Seq<Result<Vec<u8>, String>>) -> Seq<Option<String>> {
    reads.map_values(
        |r: Result<Vec<u8>, String>|
            match r {
                Ok(_) => None,
                Err(e) => Some(e),
            },
    )
}

// ---------------------------------------------------------------------------
// Assembling it
// ---------------------------------------------------------------------------

pub open spec fn found_records(v: Seq<(String, String, String)>) -> Seq<(Seq<char>, Seq<char>, Seq<char>)> {
    v.map_values(|t: (String, String, String)| (t.0@, t.1@, t.2@))
}

/// The declared sections that were found, in declaration order, with the
/// sources of their atoms.
fn find_sections(stage: &ContextStage, atoms: &Vec<Atom>, lookups: &Vec<SectionLookup>) -> (r: (
    Vec<(String, String, String)>,
    Vec<String>,
))
    requires
        lookups.len() == stage.context_sections.len(),
    ensures
        found_records(r.0@) == found_sections(strs(stage.context_sections@), atoms@, lookups@),
        strs(r.1@) == sources_of(found_records(r.0@)),
{
    let ghost ds = strs(stage.context_sections@);
    let mut out: Vec<(String, String, String)> = Vec::new();
    let mut srcs: Vec<String> = Vec::new();
    let mut k: usize = 0;
    proof {
        assert(found_records(out@) =~= found_sections(ds.take(0), atoms@, lookups@));
        assert(strs(srcs@) =~= sources_of(found_records(out@)));
    }
    while k < stage.context_sections.len()
        invariant
            k <= stage.context_sections.len() == lookups.len(),
            ds == strs(stage.context_sections@),
            found_records(out@) == found_sections(ds.take(k as int), atoms@, lookups@),
            strs(srcs@) == sources_of(found_records(out@)),
        decreases stage.context_sections.len() - k,
    {
        proof {
            assert(ds.take(k + 1).drop_last() =~= ds.take(k as int));
            assert(ds.take(k + 1)[k as int] == stage.context_sections@[k as int]@);
        }
        let sel = stage.context_sections[k].as_str();
        let sv = chars_of(sel);
        let mut hash: usize = 0;
        while hash < sv.len() && sv[hash] != '#'
            invariant
                hash <= sv.len(),
                forall|j: int| 0 <= j < hash ==> sv@[j] != '#',
            decreases sv.len() - hash,
        {
            hash = hash + 1;
        }
        proof {
            crate::text::lemma_idx_of_char(sv@, '#', hash as int);
        }
        if hash < sv.len() {
            let name_v = crate::text::slice_of(&sv, 0, hash);
            let name = string_of(&name_v);
            proof {
                assert(name_v@ =~= sv@.take(hash as int));
            }
            let found = find_atom(atoms, name.as_str());
            proof {
                crate::context_select::lemma_atom_by_name(atoms@, name@);
            }
            match found {
                Some(j) => {
                    match &lookups[k] {
                        SectionLookup::Found { body } => {
                            let (a, b) = trim_bounds(&sv, hash + 1, sv.len());
                            let hv = crate::text::slice_of(&sv, a, b);
                            proof {
                                assert(sv@.subrange(hash + 1, sv.len() as int) =~= sv@.skip(hash + 1));
                            }
                            let t = (atoms[j].source.clone(), string_of(&hv), body.clone());
                            let ghost before = out@;
                            let ghost before_s = srcs@;
                            out.push(t);
                            srcs.push(atoms[j].source.clone());
                            proof {
                                assert(found_records(out@) =~= found_records(before).push(
                                    (atoms@[j as int].source@, hv@, body@),
                                ));
                                assert(strs(srcs@) =~= strs(before_s).push(atoms@[j as int].source@));
                                assert(sources_of(found_records(out@)) =~= sources_of(
                                    found_records(before),
                                ).push(atoms@[j as int].source@));
                            }
                        },
                        SectionLookup::Missing { .. } => {},
                    }
                },
                None => {},
            }
        }
        k = k + 1;
    }
    proof {
        assert(ds.take(stage.context_sections.len() as int) =~= ds);
    }
    (out, srcs)
}

fn owned(s: &str) -> (r: String)
    ensures
        r@ == s@,
{
    s.to_owned()
}

fn git_holder_of(repo: &str, commit: &str, path: String) -> (h: Holder)
    ensures
        (h.kind@, h.repository@, h.commit_sha@, h.path@) == git_holder(repo@, commit@, path@),
{
    Holder { kind: owned("git"), repository: owned(repo), commit_sha: owned(commit), path }
}

/// The atoms' part of the assembly, `sectioned` being the sources of the
/// found sections.
fn atoms_stage(
    stage: &ContextStage,
    atoms: &Vec<Atom>,
    sectioned: &Vec<String>,
    repo: &str,
    commit: &str,
    wrel: &str,
) -> (r: (Vec<ContextItem>, Vec<Omission>, Vec<(String, u64)>))
    ensures
        ({
            let p = atoms_part(atoms@, *stage, strs(sectioned@), repo@, commit@, wrel@);
            &&& records(r.0@) == p.items
            &&& records(r.1@) == p.omitted
            &&& records(r.2@) == p.carried
        }),
{
    let mut items: Vec<ContextItem> = Vec::new();
    let mut omitted: Vec<Omission> = Vec::new();
    let mut bytes: Vec<(String, u64)> = Vec::new();
    let ghost sec = strs(sectioned@);
    let mut i: usize = 0;
    proof {
        let p = atoms_part(atoms@.take(0), *stage, sec, repo@, commit@, wrel@);
        assert(records(items@) =~= p.items);
        assert(records(omitted@) =~= p.omitted);
        assert(records(bytes@) =~= p.carried);
    }
    while i < atoms.len()
        invariant
            i <= atoms.len(),
            sec == strs(sectioned@),
            ({
                let p = atoms_part(atoms@.take(i as int), *stage, sec, repo@, commit@, wrel@);
                &&& records(items@) == p.items
                &&& records(omitted@) == p.omitted
                &&& records(bytes@) == p.carried
            }),
        decreases atoms.len() - i,
    {
        proof {
            assert(atoms@.take(i + 1).drop_last() =~= atoms@.take(i as int));
            assert(atoms@.take(i + 1).last() == atoms@[i as int]);
        }
        let atom = &atoms[i];
        let fate = atom_fate(atom, stage, sectioned);
        let ghost bi = records(items@);
        let ghost bo = records(omitted@);
        let ghost bb = records(bytes@);
        match fate {
            AtomFate::Included { role, content_digest } => {
                let p = join_path(&chars_of(wrel), &chars_of(atom.source.as_str()));
                let item = ContextItem {
                    id: atom.source.clone(),
                    role,
                    required: atom.required,
                    holder: git_holder_of(repo, commit, string_of(&p)),
                    content_digest,
                    selector_sections: Vec::new(),
                    classification: owned("internal"),
                    trust: TrustClass::AuthoritativeInternal,
                    taints: Vec::new(),
                    precedence: Some(Precedence::AuthorizedWarContract),
                };
                proof {
                    assert(strs(item.selector_sections@) =~= Seq::<Seq<char>>::empty());
                    assert(strs(item.selector_sections@).to_set() =~= Set::<Seq<char>>::empty());
                    assert(strs(item.taints@) =~= Seq::<Seq<char>>::empty());
                    assert(item.record() == atom_item(atoms@[i as int], repo@, commit@, wrel@));
                }
                let n = atom.bytes.len() as u64;
                items.push(item);
                bytes.push((atom.source.clone(), n));
                proof {
                    assert(records(items@) =~= bi.push(atom_item(atoms@[i as int], repo@, commit@, wrel@)));
                    assert(records(bytes@) =~= bb.push((atoms@[i as int].source@, atoms@[i as int].bytes@.len() as u64)));
                }
            },
            AtomFate::Omitted { reason } => {
                let o = Omission { id: atom.source.clone(), reason, required: false };
                omitted.push(o);
                proof {
                    assert(records(omitted@) =~= bo.push(o.record()));
                }
            },
            AtomFate::Sectioned => {},
        }
        i = i + 1;
    }
    proof {
        assert(atoms@.take(atoms.len() as int) =~= atoms@);
    }
    (items, omitted, bytes)
}

proof fn lemma_first_id(items: Seq<ItemRecord>, id: Seq<char>, m: int)
    requires
        0 <= m <= items.len(),
        m < items.len() ==> items[m].id == id,
        forall|j: int| 0 <= j < m ==> items[j].id != id,
    ensures
        first_id(items, id) == (if m < items.len() { Some(m) } else { None::<int> }),
    decreases items.len(),
{
    if items.len() > 0 && m > 0 {
        assert(items[0].id != id);
        assert forall|j: int| 0 <= j < m - 1 implies items.drop_first()[j].id != id by {
            assert(items.drop_first()[j] == items[j + 1]);
        }
        lemma_first_id(items.drop_first(), id, m - 1);
    }
}

/// The first item whose identifier is `id`.
fn find_item(items: &Vec<ContextItem>, id: &str) -> (r: Option<usize>)
    ensures
        match (r, first_id(records(items@), id@)) {
            (Some(i), Some(j)) => i as int == j && i < items.len(),
            (None, None) => true,
            _ => false,
        },
{
    let ghost rs = records(items@);
    let mut m: usize = 0;
    while m < items.len() && !str_eq(items[m].id.as_str(), id)
        invariant
            m <= items.len(),
            rs == records(items@),
            forall|j: int| 0 <= j < m ==> rs[j].id != id@,
        decreases items.len() - m,
    {
        m = m + 1;
    }
    proof {
        lemma_first_id(rs, id@, m as int);
    }
    if m < items.len() {
        Some(m)
    } else {
        None
    }
}

/// `h` added to a vector of headings kept sorted, each once.
pub(crate) fn insert_heading(v: &mut Vec<String>, h: &String)
    requires
        sorted_unique(strs(old(v)@)),
    ensures
        sorted_unique(strs(final(v)@)),
        strs(final(v)@).to_set() == strs(old(v)@).to_set().insert(h@),
{
    let mut cv: Vec<Vec<char>> = Vec::new();
    let mut i: usize = 0;
    while i < v.len()
        invariant
            i <= v.len(),
            views(cv@) == strs(v@).take(i as int),
        decreases v.len() - i,
    {
        let ghost before = views(cv@);
        cv.push(chars_of(v[i].as_str()));
        proof {
            assert(views(cv@) =~= before.push(v@[i as int]@));
            assert(strs(v@).take(i + 1) =~= strs(v@).take(i as int).push(v@[i as int]@));
        }
        i = i + 1;
    }
    proof {
        assert(strs(v@).take(v.len() as int) =~= strs(v@));
    }
    let ghost old_set = strs(v@).to_set();
    insert_sorted(&mut cv, chars_of(h.as_str()));
    let mut out: Vec<String> = Vec::new();
    let mut k: usize = 0;
    while k < cv.len()
        invariant
            k <= cv.len(),
            strs(out@) == views(cv@).take(k as int),
        decreases cv.len() - k,
    {
        let ghost before = strs(out@);
        out.push(string_of(&cv[k]));
        proof {
            assert(strs(out@) =~= before.push(cv@[k as int]@));
            assert(views(cv@).take(k + 1) =~= views(cv@).take(k as int).push(cv@[k as int]@));
        }
        k = k + 1;
    }
    proof {
        assert(views(cv@).take(cv.len() as int) =~= views(cv@));
        assert(strs(out@).to_set() =~= old_set.insert(h@));
    }
    *v = out;
}

/// The found sections merged into the assembly, in declaration order.
fn sections_stage(
    items: &mut Vec<ContextItem>,
    bytes: &mut Vec<(String, u64)>,
    found: &Vec<(String, String, String)>,
    atoms: &Vec<Atom>,
    repo: &str,
    commit: &str,
    wrel: &str,
    Ghost(om): Ghost<Seq<(Seq<char>, Seq<char>, bool)>>,
)
    requires
        forall|j: int| 0 <= j < old(items)@.len() ==> (#[trigger] old(items)@[j].record()).sections_in_order,
    ensures
        ({
            let p = with_sections(
                Assembly { items: records(old(items)@), omitted: om, carried: records(old(bytes)@) },
                found_records(found@),
                atoms@,
                repo@,
                commit@,
                wrel@,
            );
            &&& records(final(items)@) == p.items
            &&& records(final(bytes)@) == p.carried
            &&& p.omitted == om
        }),
        forall|j: int| 0 <= j < final(items)@.len() ==> (#[trigger] final(items)@[j].record()).sections_in_order,
{
    let ghost start = Assembly { items: records(items@), omitted: om, carried: records(bytes@) };
    let ghost fr = found_records(found@);
    let mut k: usize = 0;
    while k < found.len()
        invariant
            k <= found.len(),
            fr == found_records(found@),
            ({
                let p = with_sections(start, fr.take(k as int), atoms@, repo@, commit@, wrel@);
                &&& records(items@) == p.items
                &&& records(bytes@) == p.carried
                &&& p.omitted == om
            }),
            forall|j: int| 0 <= j < items@.len() ==> (#[trigger] items@[j].record()).sections_in_order,
        decreases found.len() - k,
    {
        proof {
            assert(fr.take(k + 1).drop_last() =~= fr.take(k as int));
            assert(fr.take(k + 1).last() == fr[k as int]);
        }
        let ghost sec = fr[k as int];
        let src = &found[k].0;
        let heading = &found[k].1;
        let body = &found[k].2;
        let ghost bi = records(items@);
        let ghost bb = records(bytes@);
        match find_item(items, src.as_str()) {
            Some(m) => {
                let mut it = items.remove(m);
                let ghost old_rec = it.record();
                proof {
                    assert(it.record() == bi[m as int]);
                }
                insert_heading(&mut it.selector_sections, heading);
                proof {
                    assert(it.record() == with_heading(old_rec, sec.1));
                }
                items.insert(m, it);
                proof {
                    assert(records(items@) =~= bi.update(m as int, with_heading(bi[m as int], sec.1)));
                    assert forall|j: int| 0 <= j < items@.len() implies (#[trigger] items@[j].record()).sections_in_order by {
                        if j != m {
                            assert(items@[j].record() == bi[j]);
                        }
                    }
                }
            },
            None => {
                let found_atom = find_atom(atoms, src.as_str());
                proof {
                    crate::context_select::lemma_atom_by_name(atoms@, src@);
                }
                let role = match found_atom {
                    Some(j) => role_for(atoms[j].role.as_str()),
                    None => ContextRole::Informative,
                };
                let mut id = chars_of(src.as_str());
                push_str(&mut id, "#");
                push_str(&mut id, heading.as_str());
                let p = join_path(&chars_of(wrel), &chars_of(src.as_str()));
                let mut d = chars_of("sha256:");
                push_str(&mut d, sha256_hex(body.as_str().as_bytes()).as_str());
                proof {
                    assert(body@ == sec.2);
                }
                let mut sels: Vec<String> = Vec::new();
                sels.push(heading.clone());
                let item = ContextItem {
                    id: string_of(&id),
                    role,
                    required: false,
                    holder: git_holder_of(repo, commit, string_of(&p)),
                    content_digest: string_of(&d),
                    selector_sections: sels,
                    classification: owned("internal"),
                    trust: TrustClass::AuthoritativeInternal,
                    taints: Vec::new(),
                    precedence: Some(Precedence::AuthorizedWarContract),
                };
                proof {
                    assert(strs(item.selector_sections@) =~= seq![sec.1]);
                    assert forall|y: Seq<char>| strs(item.selector_sections@).to_set().contains(y) <==> y == sec.1 by {
                        if y == sec.1 {
                            assert(strs(item.selector_sections@)[0] == y);
                        }
                    }
                    assert(strs(item.selector_sections@).to_set() =~= Set::<Seq<char>>::empty().insert(sec.1));
                    assert(strs(item.taints@) =~= Seq::<Seq<char>>::empty());
                    assert(id@ =~= section_id(sec));
                    assert(item.record() == section_item(sec, atoms@, repo@, commit@, wrel@));
                }
                let body_bytes = body.as_str().as_bytes();
                let n = body_bytes.len() as u64;
                items.push(item);
                bytes.push((string_of(&id), n));
                proof {
                    assert(records(items@) =~= bi.push(section_item(sec, atoms@, repo@, commit@, wrel@)));
                    assert(records(bytes@) =~= bb.push((section_id(sec), vstd::utf8::encode_utf8(sec.2).len() as u64)));
                }
            },
        }
        k = k + 1;
    }
    proof {
        assert(fr.take(found.len() as int) =~= fr);
    }
}

/// The declared artifacts that were read, in declaration order.
fn artifacts_stage(
    items: &mut Vec<ContextItem>,
    bytes: &mut Vec<(String, u64)>,
    stage: &ContextStage,
    reads: &Vec<Result<Vec<u8>, String>>,
    repo: &str,
    commit: &str,
    Ghost(om): Ghost<Seq<(Seq<char>, Seq<char>, bool)>>,
)
    requires
        reads.len() == stage.context_artifacts.len(),
        forall|j: int| 0 <= j < old(items)@.len() ==> (#[trigger] old(items)@[j].record()).sections_in_order,
    ensures
        ({
            let p = with_artifacts(
                Assembly { items: records(old(items)@), omitted: om, carried: records(old(bytes)@) },
                strs(stage.context_artifacts@),
                reads@,
                repo@,
                commit@,
            );
            &&& records(final(items)@) == p.items
            &&& records(final(bytes)@) == p.carried
            &&& p.omitted == om
        }),
        forall|j: int| 0 <= j < final(items)@.len() ==> (#[trigger] final(items)@[j].record()).sections_in_order,
{
    let ghost start = Assembly { items: records(items@), omitted: om, carried: records(bytes@) };
    let ghost paths = strs(stage.context_artifacts@);
    let mut k: usize = 0;
    while k < reads.len()
        invariant
            k <= reads.len() == stage.context_artifacts.len(),
            paths == strs(stage.context_artifacts@),
            ({
                let p = with_artifacts(start, paths.take(k as int), reads@, repo@, commit@);
                &&& records(items@) == p.items
                &&& records(bytes@) == p.carried
                &&& p.omitted == om
            }),
            forall|j: int| 0 <= j < items@.len() ==> (#[trigger] items@[j].record()).sections_in_order,
        decreases reads.len() - k,
    {
        proof {
            assert(paths.take(k + 1).drop_last() =~= paths.take(k as int));
            assert(paths.take(k + 1)[k as int] == stage.context_artifacts@[k as int]@);
        }
        let ghost bi = records(items@);
        let ghost bb = records(bytes@);
        match &reads[k] {
            Ok(content) => {
                let path = &stage.context_artifacts[k];
                let mut d = chars_of("sha256:");
                push_str(&mut d, sha256_hex(content.as_slice()).as_str());
                let item = ContextItem {
                    id: path.clone(),
                    role: ContextRole::Input,
                    required: false,
                    holder: git_holder_of(repo, commit, path.clone()),
                    content_digest: string_of(&d),
                    selector_sections: Vec::new(),
                    classification: owned("internal"),
                    trust: TrustClass::InternalUnverified,
                    taints: Vec::new(),
                    precedence: Some(Precedence::InformativeSource),
                };
                proof {
                    assert(strs(item.selector_sections@) =~= Seq::<Seq<char>>::empty());
                    assert(strs(item.selector_sections@).to_set() =~= Set::<Seq<char>>::empty());
                    assert(strs(item.taints@) =~= Seq::<Seq<char>>::empty());
                    assert(item.record() == artifact_item(path@, content@, repo@, commit@));
                }
                let n = content.len() as u64;
                items.push(item);
                bytes.push((path.clone(), n));
                proof {
                    assert(records(items@) =~= bi.push(artifact_item(path@, content@, repo@, commit@)));
                    assert(records(bytes@) =~= bb.push((path@, content@.len() as u64)));
                }
            },
            Err(_) => {},
        }
        k = k + 1;
    }
    proof {
        assert(paths.take(reads.len() as int) =~= paths);
    }
}

/// The glossary, then the external references.
fn closing_stage(
    items: &mut Vec<ContextItem>,
    bytes: &mut Vec<(String, u64)>,
    stage: &ContextStage,
    glossary: &Option<Vec<u8>>,
    repo: &str,
    commit: &str,
    Ghost(om): Ghost<Seq<(Seq<char>, Seq<char>, bool)>>,
)
    requires
        forall|j: int| 0 <= j < old(items)@.len() ==> (#[trigger] old(items)@[j].record()).sections_in_order,
    ensures
        ({
            let p = with_externals(
                with_glossary(
                    Assembly { items: records(old(items)@), omitted: om, carried: records(old(bytes)@) },
                    glossary_view(*glossary),
                    repo@,
                    commit@,
                ),
                strs(stage.context_external@),
            );
            &&& records(final(items)@) == p.items
            &&& records(final(bytes)@) == p.carried
            &&& p.omitted == om
        }),
        forall|j: int| 0 <= j < final(items)@.len() ==> (#[trigger] final(items)@[j].record()).sections_in_order,
{
    match glossary {
        Some(body) => {
            let ghost bi = records(items@);
            let ghost bb = records(bytes@);
            let mut d = chars_of("sha256:");
            push_str(&mut d, sha256_hex(body.as_slice()).as_str());
            let item = ContextItem {
                id: owned("CONTEXT.md"),
                role: ContextRole::Informative,
                required: false,
                holder: git_holder_of(repo, commit, owned("CONTEXT.md")),
                content_digest: string_of(&d),
                selector_sections: Vec::new(),
                classification: owned("internal"),
                trust: TrustClass::AuthoritativeInternal,
                taints: Vec::new(),
                precedence: Some(Precedence::InformativeSource),
            };
            proof {
                assert(strs(item.selector_sections@) =~= Seq::<Seq<char>>::empty());
                assert(strs(item.selector_sections@).to_set() =~= Set::<Seq<char>>::empty());
                assert(strs(item.taints@) =~= Seq::<Seq<char>>::empty());
                assert(item.record() == glossary_item(body@, repo@, commit@));
            }
            let n = body.len() as u64;
            items.push(item);
            bytes.push((owned("CONTEXT.md"), n));
            proof {
                assert(records(items@) =~= bi.push(glossary_item(body@, repo@, commit@)));
                assert(records(bytes@) =~= bb.push(("CONTEXT.md"@, body@.len() as u64)));
            }
        },
        None => {},
    }
    let ghost mid = Assembly { items: records(items@), omitted: om, carried: records(bytes@) };
    let ghost uris = strs(stage.context_external@);
    let mut k: usize = 0;
    while k < stage.context_external.len()
        invariant
            k <= stage.context_external.len(),
            uris == strs(stage.context_external@),
            ({
                let p = with_externals(mid, uris.take(k as int));
                &&& records(items@) == p.items
                &&& records(bytes@) == p.carried
                &&& p.omitted == om
            }),
            forall|j: int| 0 <= j < items@.len() ==> (#[trigger] items@[j].record()).sections_in_order,
        decreases stage.context_external.len() - k,
    {
        proof {
            assert(uris.take(k + 1).drop_last() =~= uris.take(k as int));
            assert(uris.take(k + 1).last() == stage.context_external@[k as int]@);
        }
        let ghost bi = records(items@);
        let uri = &stage.context_external[k];
        let mut taints: Vec<String> = Vec::new();
        taints.push(owned("unfetched"));
        let item = ContextItem {
            id: uri.clone(),
            role: ContextRole::Informative,
            required: false,
            holder: Holder { kind: owned("external"), repository: String::new(), commit_sha: String::new(), path: uri.clone() },
            content_digest: String::new(),
            selector_sections: Vec::new(),
            classification: owned("internal"),
            trust: TrustClass::ExternalUntrusted,
            taints,
            precedence: Some(Precedence::InformativeSource),
        };
        proof {
            assert(strs(item.selector_sections@) =~= Seq::<Seq<char>>::empty());
            assert(strs(item.selector_sections@).to_set() =~= Set::<Seq<char>>::empty());
            assert(strs(item.taints@) =~= seq!["unfetched"@]);
            assert(item.holder.repository@ =~= Seq::<char>::empty());
            assert(item.holder.commit_sha@ =~= Seq::<char>::empty());
            assert(item.content_digest@ =~= Seq::<char>::empty());
            assert(item.record() == external_item(uri@));
        }
        items.push(item);
        proof {
            assert(records(items@) =~= bi.push(external_item(uri@)));
        }
        k = k + 1;
    }
    proof {
        assert(uris.take(stage.context_external.len() as int) =~= uris);
    }
}

/// The read errors of the declared artifacts.
fn errors_of(reads: &Vec<Result<Vec<u8>, String>>) -> (r: Vec<Option<String>>)
    ensures
        r@ == read_errors(reads@),
{
    let mut out: Vec<Option<String>> = Vec::new();
    let mut i: usize = 0;
    while i < reads.len()
        invariant
            i <= reads.len(),
            out@ == read_errors(reads@).take(i as int),
        decreases reads.len() - i,
    {
        let ghost before = out@;
        match &reads[i] {
            Ok(_) => out.push(None),
            Err(e) => out.push(Some(e.clone())),
        }
        proof {
            assert(read_errors(reads@).take(i + 1) =~= before.push(read_errors(reads@)[i as int]));
        }
        i = i + 1;
    }
    proof {
        assert(read_errors(reads@).take(reads.len() as int) =~= read_errors(reads@));
    }
    out
}

/// The context for `stage` out of a Warrant's atoms. `lookups` holds what
/// the section model found for each declared section, `reads` each declared
/// artifact's content or why it could not be read, `glossary` the program's
/// `CONTEXT.md` when it exists; items are held in `repository` at `commit`
/// (empty when there is none), the atoms under `warrant_dir`, relative to
/// the repository's root.
///
/// Refused, with every refusal, when a declaration names what does not
/// exist; otherwise included = required atoms, declared atoms, declared
/// sections, artifacts, the glossary and external references; omitted =
/// every other atom with its reason; each list sorted.
pub fn select(
    stage: &ContextStage,
    atoms: &Vec<Atom>,
    lookups: &Vec<SectionLookup>,
    reads: &Vec<Result<Vec<u8>, String>>,
    glossary: &Option<Vec<u8>>,
    repository: &str,
    commit: &str,
    warrant_dir: &str,
) -> (r: Result<Selection, Vec<Refusal>>)
    requires
        lookups.len() == stage.context_sections.len(),
        reads.len() == stage.context_artifacts.len(),
    ensures
        ({
            let refused = spec_refusals(*stage, atoms@, lookups@, read_errors(reads@));
            let p = spec_assembly(
                *stage,
                atoms@,
                lookups@,
                reads@,
                glossary_view(*glossary),
                repository@,
                commit@,
                warrant_dir@,
            );
            match r {
                Err(rs) => refused.len() > 0 && rs@.map_values(|x: Refusal| refusal_view(x))
                    == refused,
                Ok(sel) => {
                    &&& refused.len() == 0
                    &&& records(sel.included@) == sort_ordered::<ContextItem>(p.items)
                    &&& records(sel.omitted@) == sort_ordered::<Omission>(p.omitted)
                    &&& records(sel.bytes@) == sort_ordered::<(String, u64)>(p.carried)
                },
            }
        }),
{
    let errs = errors_of(reads);
    let refused = refusals(stage, atoms, lookups, &errs);
    if refused.len() > 0 {
        return Err(refused);
    }
    let (found, sectioned) = find_sections(stage, atoms, lookups);
    let (mut items, omitted, mut bytes) = atoms_stage(stage, atoms, &sectioned, repository, commit, warrant_dir);
    let ghost om = records(omitted@);
    proof {
        assert forall|j: int| 0 <= j < items@.len() implies (#[trigger] items@[j].record()).sections_in_order by {
            let p = atoms_part(atoms@, *stage, strs(sectioned@), repository@, commit@, warrant_dir@);
            lemma_atoms_part_in_order(atoms@, *stage, strs(sectioned@), repository@, commit@, warrant_dir@);
            assert(records(items@)[j] == items@[j].record());
        }
    }
    sections_stage(&mut items, &mut bytes, &found, atoms, repository, commit, warrant_dir, Ghost(om));
    artifacts_stage(&mut items, &mut bytes, stage, reads, repository, commit, Ghost(om));
    closing_stage(&mut items, &mut bytes, stage, glossary, repository, commit, Ghost(om));
    let included = sorted(items);
    let omitted = sorted(omitted);
    let bytes = sorted(bytes);
    Ok(Selection { included, omitted, bytes })
}

proof fn lemma_atoms_part_in_order(
    atoms: Seq<Atom>,
    stage: ContextStage,
    sectioned: Seq<Seq<char>>,
    repo: Seq<char>,
    commit: Seq<char>,
    wrel: Seq<char>,
)
    ensures
        forall|j: int|
            0 <= j < atoms_part(atoms, stage, sectioned, repo, commit, wrel).items.len()
                ==> (#[trigger] atoms_part(atoms, stage, sectioned, repo, commit, wrel).items[j]).sections_in_order,
    decreases atoms.len(),
{
    if atoms.len() > 0 {
        lemma_atoms_part_in_order(atoms.drop_last(), stage, sectioned, repo, commit, wrel);
    }
}

// ---------------------------------------------------------------------------
// Laws
// ---------------------------------------------------------------------------

proof fn lemma_insert_contains<T: Ordered>(s: Seq<T::R>, x: T::R, y: T::R)
    ensures
        insert_ordered::<T>(s, x).contains(y) <==> (s.contains(y) || y == x),
    decreases s.len(),
{
    vstd::seq_lib::lemma_seq_contains_after_push(s, x, y);
    if s.len() == 0 {
        assert(seq![x] =~= s.push(x));
    } else {
        vstd::seq_lib::lemma_seq_contains_after_push(s.drop_last(), s.last(), y);
        assert(s.drop_last().push(s.last()) =~= s);
        if T::before(x, s.last()) {
            lemma_insert_contains::<T>(s.drop_last(), x, y);
            vstd::seq_lib::lemma_seq_contains_after_push(
                insert_ordered::<T>(s.drop_last(), x),
                s.last(),
                y,
            );
        }
    }
}

/// Sorting keeps every record it is given, and adds none.
pub proof fn lemma_sort_keeps<T: Ordered>(s: Seq<T::R>, y: T::R)
    ensures
        sort_ordered::<T>(s).contains(y) <==> s.contains(y),
    decreases s.len(),
{
    if s.len() > 0 {
        lemma_sort_keeps::<T>(s.drop_last(), y);
        lemma_insert_contains::<T>(sort_ordered::<T>(s.drop_last()), s.last(), y);
        if s.contains(y) {
            let i = choose|i: int| 0 <= i < s.len() && s[i] == y;
            if i < s.len() - 1 {
                assert(s.drop_last()[i] == y);
            }
        }
        if s.drop_last().contains(y) {
            let j = choose|j: int| 0 <= j < s.len() - 1 && s.drop_last()[j] == y;
            assert(s[j] == y);
        }
    }
}

/// Whether the items hold the whole atom `a`: an item under its source,
/// required as the atom is, with the digest of its bytes.
pub open spec fn holds_atom(items: Seq<ItemRecord>, a: Atom) -> bool {
    exists|j: int|
        0 <= j < items.len() && (#[trigger] items[j]).id == a.source@ && items[j].required
            == a.required && items[j].digest == digest_of(a.bytes@)
}

proof fn lemma_holds_push(items: Seq<ItemRecord>, a: Atom, x: ItemRecord)
    requires
        holds_atom(items, a),
    ensures
        holds_atom(items.push(x), a),
{
    let j = choose|j: int|
        0 <= j < items.len() && (#[trigger] items[j]).id == a.source@ && items[j].required
            == a.required && items[j].digest == digest_of(a.bytes@);
    assert(items.push(x)[j] == items[j]);
}

proof fn lemma_atoms_part_holds(
    atoms: Seq<Atom>,
    stage: ContextStage,
    sectioned: Seq<Seq<char>>,
    repo: Seq<char>,
    commit: Seq<char>,
    wrel: Seq<char>,
    k: int,
)
    requires
        0 <= k < atoms.len(),
        atoms[k].required,
    ensures
        holds_atom(atoms_part(atoms, stage, sectioned, repo, commit, wrel).items, atoms[k]),
    decreases atoms.len(),
{
    let p = atoms_part(atoms, stage, sectioned, repo, commit, wrel);
    if k == atoms.len() - 1 {
        let rest = atoms_part(atoms.drop_last(), stage, sectioned, repo, commit, wrel);
        assert(p.items[rest.items.len() as int] == atom_item(atoms[k], repo, commit, wrel));
    } else {
        lemma_atoms_part_holds(atoms.drop_last(), stage, sectioned, repo, commit, wrel, k);
        assert(atoms.drop_last()[k] == atoms[k]);
        let rest = atoms_part(atoms.drop_last(), stage, sectioned, repo, commit, wrel);
        let f = spec_fate(atoms.last(), stage.id@, strs(stage.context_atoms@), sectioned);
        if f.0 == 0 {
            lemma_holds_push(rest.items, atoms[k], atom_item(atoms.last(), repo, commit, wrel));
        }
    }
}

proof fn lemma_first_id_bound(items: Seq<ItemRecord>, id: Seq<char>)
    ensures
        first_id(items, id) matches Some(m) ==> 0 <= m < items.len() && items[m].id == id,
    decreases items.len(),
{
    if items.len() > 0 && items[0].id != id {
        lemma_first_id_bound(items.drop_first(), id);
    }
}

proof fn lemma_sections_hold(
    part: Assembly,
    secs: Seq<(Seq<char>, Seq<char>, Seq<char>)>,
    atoms: Seq<Atom>,
    repo: Seq<char>,
    commit: Seq<char>,
    wrel: Seq<char>,
    a: Atom,
)
    requires
        holds_atom(part.items, a),
    ensures
        holds_atom(with_sections(part, secs, atoms, repo, commit, wrel).items, a),
    decreases secs.len(),
{
    if secs.len() > 0 {
        lemma_sections_hold(part, secs.drop_last(), atoms, repo, commit, wrel, a);
        let q = with_sections(part, secs.drop_last(), atoms, repo, commit, wrel);
        let sec = secs.last();
        match first_id(q.items, sec.0) {
            Some(m) => {
                lemma_first_id_bound(q.items, sec.0);
                let j = choose|j: int|
                    0 <= j < q.items.len() && (#[trigger] q.items[j]).id == a.source@
                        && q.items[j].required == a.required && q.items[j].digest == digest_of(
                        a.bytes@,
                    );
                let u = q.items.update(m, with_heading(q.items[m], sec.1));
                assert(u[j].id == a.source@ && u[j].required == a.required && u[j].digest
                    == digest_of(a.bytes@));
            },
            None => {
                lemma_holds_push(q.items, a, section_item(sec, atoms, repo, commit, wrel));
            },
        }
    }
}

proof fn lemma_artifacts_hold(
    part: Assembly,
    paths: Seq<Seq<char>>,
    reads: Seq<Result<Vec<u8>, String>>,
    repo: Seq<char>,
    commit: Seq<char>,
    a: Atom,
)
    requires
        holds_atom(part.items, a),
    ensures
        holds_atom(with_artifacts(part, paths, reads, repo, commit).items, a),
    decreases paths.len(),
{
    if paths.len() > 0 {
        lemma_artifacts_hold(part, paths.drop_last(), reads, repo, commit, a);
        let q = with_artifacts(part, paths.drop_last(), reads, repo, commit);
        let n = paths.len() - 1;
        match reads[n] {
            Ok(c) => lemma_holds_push(q.items, a, artifact_item(paths[n], c@, repo, commit)),
            Err(_) => {},
        }
    }
}

proof fn lemma_externals_hold(part: Assembly, uris: Seq<Seq<char>>, a: Atom)
    requires
        holds_atom(part.items, a),
    ensures
        holds_atom(with_externals(part, uris).items, a),
    decreases uris.len(),
{
    if uris.len() > 0 {
        lemma_externals_hold(part, uris.drop_last(), a);
        lemma_holds_push(with_externals(part, uris.drop_last()).items, a, external_item(uris.last()));
    }
}

/// Every required atom is included whole, with its digest, whatever the
/// stage declares (a section of it only narrows its item).
pub proof fn lemma_required_atom_is_included(
    stage: ContextStage,
    atoms: Seq<Atom>,
    lookups: Seq<SectionLookup>,
    reads: Seq<Result<Vec<u8>, String>>,
    glossary: Option<Seq<u8>>,
    repo: Seq<char>,
    commit: Seq<char>,
    wrel: Seq<char>,
    k: int,
)
    requires
        0 <= k < atoms.len(),
        atoms[k].required,
    ensures
        holds_atom(
            sort_ordered::<ContextItem>(
                spec_assembly(stage, atoms, lookups, reads, glossary, repo, commit, wrel).items,
            ),
            atoms[k],
        ),
{
    let secs = found_sections(strs(stage.context_sections@), atoms, lookups);
    let a0 = atoms_part(atoms, stage, sources_of(secs), repo, commit, wrel);
    lemma_atoms_part_holds(atoms, stage, sources_of(secs), repo, commit, wrel, k);
    let a1 = with_sections(a0, secs, atoms, repo, commit, wrel);
    lemma_sections_hold(a0, secs, atoms, repo, commit, wrel, atoms[k]);
    let a2 = with_artifacts(a1, strs(stage.context_artifacts@), reads, repo, commit);
    lemma_artifacts_hold(a1, strs(stage.context_artifacts@), reads, repo, commit, atoms[k]);
    let a3 = with_glossary(a2, glossary, repo, commit);
    match glossary {
        Some(body) => lemma_holds_push(a2.items, atoms[k], glossary_item(body, repo, commit)),
        None => {},
    }
    lemma_externals_hold(a3, strs(stage.context_external@), atoms[k]);
    let items = spec_assembly(stage, atoms, lookups, reads, glossary, repo, commit, wrel).items;
    let j = choose|j: int|
        0 <= j < items.len() && (#[trigger] items[j]).id == atoms[k].source@ && items[j].required
            == atoms[k].required && items[j].digest == digest_of(atoms[k].bytes@);
    lemma_sort_keeps::<ContextItem>(items, items[j]);
    assert(items.contains(items[j]));
    let sorted_items = sort_ordered::<ContextItem>(items);
    let i = choose|i: int| 0 <= i < sorted_items.len() && sorted_items[i] == items[j];
    assert(sorted_items[i].id == atoms[k].source@);
}

/// Whether item records are in identifier order: no record's identifier
/// sorts before an earlier one's.
pub open spec fn in_id_order(s: Seq<ItemRecord>) -> bool {
    forall|i: int, j: int| 0 <= i < j < s.len() ==> !lex_lt(#[trigger] s[j].id, #[trigger] s[i].id)
}

proof fn lemma_insert_in_id_order(s: Seq<ItemRecord>, x: ItemRecord)
    requires
        in_id_order(s),
    ensures
        in_id_order(insert_ordered::<ContextItem>(s, x)),
    decreases s.len(),
{
    let r = insert_ordered::<ContextItem>(s, x);
    if s.len() == 0 {
        crate::text::lemma_lex_irreflexive(x.id);
    } else if lex_lt(x.id, s.last().id) {
        let t = insert_ordered::<ContextItem>(s.drop_last(), x);
        assert(in_id_order(s.drop_last())) by {
            assert forall|i: int, j: int| 0 <= i < j < s.drop_last().len() implies !lex_lt(
                #[trigger] s.drop_last()[j].id,
                #[trigger] s.drop_last()[i].id,
            ) by {
                assert(s.drop_last()[j] == s[j] && s.drop_last()[i] == s[i]);
            }
        }
        lemma_insert_in_id_order(s.drop_last(), x);
        let z = s.last();
        assert forall|i: int, j: int| 0 <= i < j < r.len() implies !lex_lt(#[trigger] r[j].id, #[trigger] r[i].id) by {
            if j == r.len() - 1 {
                assert(r[j] == z);
                let e = r[i];
                assert(e == t[i]);
                assert(t.contains(e));
                lemma_insert_contains::<ContextItem>(s.drop_last(), x, e);
                if e == x {
                    crate::text::lemma_lex_total(x.id, z.id);
                } else {
                    let k = choose|k: int| 0 <= k < s.drop_last().len() && s.drop_last()[k] == e;
                    assert(s[k] == e);
                    assert(!lex_lt(s[s.len() - 1].id, s[k].id));
                }
            } else {
                assert(r[i] == t[i] && r[j] == t[j]);
            }
        }
    } else {
        let z = s.last();
        assert forall|i: int, j: int| 0 <= i < j < r.len() implies !lex_lt(#[trigger] r[j].id, #[trigger] r[i].id) by {
            if j == s.len() {
                assert(r[j] == x);
                assert(r[i] == s[i]);
                if lex_lt(x.id, s[i].id) {
                    if i == s.len() - 1 {
                    } else {
                        assert(!lex_lt(s[s.len() - 1].id, s[i].id));
                        crate::text::lemma_lex_total(z.id, s[i].id);
                        if z.id == s[i].id {
                        } else {
                            crate::text::lemma_lex_transitive(x.id, s[i].id, z.id);
                        }
                    }
                }
            } else {
                assert(r[i] == s[i] && r[j] == s[j]);
            }
        }
    }
}

proof fn lemma_sort_in_id_order(s: Seq<ItemRecord>)
    ensures
        in_id_order(sort_ordered::<ContextItem>(s)),
    decreases s.len(),
{
    if s.len() > 0 {
        lemma_sort_in_id_order(s.drop_last());
        lemma_insert_in_id_order(sort_ordered::<ContextItem>(s.drop_last()), s.last());
    }
}

/// The included items come out in identifier order, whatever order they
/// were found in, so a stage's context manifest is the same for the same
/// declarations.
pub proof fn lemma_included_in_id_order(
    stage: ContextStage,
    atoms: Seq<Atom>,
    lookups: Seq<SectionLookup>,
    reads: Seq<Result<Vec<u8>, String>>,
    glossary: Option<Seq<u8>>,
    repo: Seq<char>,
    commit: Seq<char>,
    wrel: Seq<char>,
)
    ensures
        in_id_order(
            sort_ordered::<ContextItem>(
                spec_assembly(stage, atoms, lookups, reads, glossary, repo, commit, wrel).items,
            ),
        ),
{
    lemma_sort_in_id_order(spec_assembly(stage, atoms, lookups, reads, glossary, repo, commit, wrel).items);
}

} // verus!
