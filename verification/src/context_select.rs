//! Stage-relevant context selection.
//!
//! A stage may declare what it needs: whole atoms, named sections of an atom,
//! repository artifacts, external references. A declaration that names
//! nothing real is refused by name before anything is selected; then every
//! required atom and every declared one is included whole, and every other
//! atom that no declared section narrows is omitted with a true reason.

use vstd::prelude::*;

use crate::digest::{sha256_hex, sha256_of, spec_hex};
use crate::text::{
    strs,
    chars_of, debug_quoted, debug_str, idx_of, join, push_join, push_str, split_on, str_eq,
    string_of, trim, views,
};

verus! {

/// One refusal, by rule, for `war check`-style reporting.
#[derive(Debug, Clone, PartialEq, Eq)]
pub struct Refusal {
    pub rule: String,
    pub message: String,
}

/// How an item of context bears on the work.
#[derive(Debug, Clone, Copy, PartialEq, Eq, Structural)]
pub enum ContextRole {
    Governing,
    Normative,
    Informative,
    Input,
}

pub open spec fn spec_role_for(atom_role: Seq<char>) -> ContextRole {
    if atom_role == "basis"@ {
        ContextRole::Governing
    } else if atom_role == "intent"@ || atom_role == "work_order"@ || atom_role == "milestones"@
        || atom_role == "assurance"@ {
        ContextRole::Normative
    } else {
        ContextRole::Informative
    }
}

/// The context role of each atom role: the basis governs; the intent, the
/// work order, the milestones and the assurance are normative; an atom of
/// any other role only informs, and no atom is an input.
pub proof fn lemma_role_of_each_atom_role(atom_role: Seq<char>)
    ensures
        spec_role_for(atom_role) is Governing <==> atom_role == "basis"@,
        spec_role_for(atom_role) is Normative <==> {
            ||| atom_role == "intent"@
            ||| atom_role == "work_order"@
            ||| atom_role == "milestones"@
            ||| atom_role == "assurance"@
        },
        spec_role_for(atom_role) is Informative <==> !{
            ||| atom_role == "basis"@
            ||| atom_role == "intent"@
            ||| atom_role == "work_order"@
            ||| atom_role == "milestones"@
            ||| atom_role == "assurance"@
        },
        !(spec_role_for(atom_role) is Input),
{
    reveal_strlit("basis");
    reveal_strlit("intent");
    reveal_strlit("work_order");
    reveal_strlit("milestones");
    reveal_strlit("assurance");
    assert("basis"@.len() == 5 && "intent"@.len() == 6 && "work_order"@.len() == 10);
    assert("milestones"@.len() == 10 && "assurance"@.len() == 9);
}

/// The role an atom's context item takes from the atom's own role.
pub fn role_for(atom_role: &str) -> (r: ContextRole)
    ensures
        r == spec_role_for(atom_role@),
{
    if str_eq(atom_role, "basis") {
        ContextRole::Governing
    } else if str_eq(atom_role, "intent") || str_eq(atom_role, "work_order") || str_eq(
        atom_role,
        "milestones",
    ) || str_eq(atom_role, "assurance") {
        ContextRole::Normative
    } else {
        ContextRole::Informative
    }
}

/// One atom of a Warrant's basis.
#[derive(Debug, Clone, PartialEq, Eq)]
pub struct Atom {
    pub source: String,
    pub role: String,
    pub required: bool,
    pub bytes: Vec<u8>,
}

/// What a stage declares it needs.
#[derive(Debug, Clone, PartialEq, Eq)]
pub struct ContextStage {
    pub id: String,
    pub context_atoms: Vec<String>,
    pub context_sections: Vec<String>,
    pub context_artifacts: Vec<String>,
    pub context_external: Vec<String>,
}

/// The last `/`-separated piece of a path.
pub open spec fn last_segment(s: Seq<char>) -> Seq<char> {
    split_on(s, '/').last()
}

/// Whether `name` names an atom: its whole source, or its file name.
pub open spec fn names(source: Seq<char>, name: Seq<char>) -> bool {
    source == name || last_segment(source) == name
}

/// The first atom `name` names.
pub open spec fn atom_by_name(atoms: Seq<Atom>, name: Seq<char>) -> Option<int>
    decreases atoms.len(),
{
    if atoms.len() == 0 {
        None
    } else if names(atoms[0].source@, name) {
        Some(0)
    } else {
        match atom_by_name(atoms.drop_first(), name) {
            Some(i) => Some(i + 1),
            None => None,
        }
    }
}

pub proof fn lemma_atom_by_name(atoms: Seq<Atom>, name: Seq<char>)
    ensures
        atom_by_name(atoms, name) matches Some(i) ==> 0 <= i < atoms.len() && names(
            atoms[i].source@,
            name,
        ),
    decreases atoms.len(),
{
    if atoms.len() > 0 && !names(atoms[0].source@, name) {
        lemma_atom_by_name(atoms.drop_first(), name);
    }
}

fn segment_last(v: &Vec<char>) -> (r: Vec<char>)
    ensures
        r@ == last_segment(v@),
{
    let parts = crate::text::split_chars(v, '/');
    let k = parts.len() - 1;
    let r = crate::text::slice_of(&parts[k], 0, parts[k].len());
    proof {
        assert(r@ =~= parts@[k as int]@);
        assert(views(parts@).last() == parts@[k as int]@);
    }
    r
}

/// Which atom a name names, if any.
pub fn find_atom(atoms: &Vec<Atom>, name: &str) -> (r: Option<usize>)
    ensures
        match (r, atom_by_name(atoms@, name@)) {
            (Some(i), Some(j)) => i as int == j,
            (None, None) => true,
            _ => false,
        },
{
    let mut i: usize = 0;
    assert(atoms@.skip(0) =~= atoms@);
    while i < atoms.len()
        invariant
            i <= atoms.len(),
            atom_by_name(atoms@, name@) == match atom_by_name(atoms@.skip(i as int), name@) {
                Some(k) => Some(k + i),
                None => None::<int>,
            },
        decreases atoms.len() - i,
    {
        proof {
            assert(atoms@.skip(i as int)[0] == atoms@[i as int]);
            assert(atoms@.skip(i as int).drop_first() =~= atoms@.skip(i + 1));
        }
        let src = chars_of(atoms[i].source.as_str());
        let last = segment_last(&src);
        if str_eq(atoms[i].source.as_str(), name) || crate::text::is_str(&last, name) {
            return Some(i);
        }
        i = i + 1;
    }
    None
}

/// `s.split_once('#')`: the text before the first `#` and after it.
pub open spec fn split_hash(s: Seq<char>) -> Option<(Seq<char>, Seq<char>)> {
    let k = idx_of(s, '#');
    if k >= s.len() {
        None
    } else {
        Some((s.take(k as int), s.skip(k as int + 1)))
    }
}

/// What the section model finds for one `<atom>#<heading>` declaration: the
/// section's body, or, when there is none, the headings the atom has.
#[derive(Debug, Clone, PartialEq, Eq)]
pub enum SectionLookup {
    Found { body: String },
    Missing { headings: Vec<String> },
}

pub open spec fn atom_list(atoms: Seq<Atom>) -> Seq<Seq<char>> {
    atoms.map_values(|a: Atom| a.source@)
}

pub open spec fn unknown_atom(stage: Seq<char>, name: Seq<char>, atoms: Seq<Atom>) -> Seq<char> {
    stage + ": context_atoms names "@ + debug_str(name)
        + ", which is not an atom of this Warrant; declared: "@ + join(atom_list(atoms), ", "@)
}

pub open spec fn malformed_section(stage: Seq<char>, sel: Seq<char>) -> Seq<char> {
    stage + ": context_sections entry "@ + debug_str(sel)
        + ": not of the form `<atom>#<heading>`"@
}

pub open spec fn section_atom_unknown(stage: Seq<char>, name: Seq<char>) -> Seq<char> {
    stage + ": context_sections names atom "@ + debug_str(name)
        + ", which this Warrant does not have"@
}

pub open spec fn section_missing(
    stage: Seq<char>,
    name: Seq<char>,
    heading: Seq<char>,
    known: Seq<Seq<char>>,
) -> Seq<char> {
    stage + ": "@ + name + " has no section "@ + debug_str(heading) + "; its headings are: "@
        + join(known, " | "@)
}

pub open spec fn artifact_missing(stage: Seq<char>, path: Seq<char>, why: Seq<char>) -> Seq<char> {
    stage + ": context_artifacts names "@ + debug_str(path) + ": "@ + why
}

pub open spec fn refusal_view(r: Refusal) -> (Seq<char>, Seq<char>) {
    (r.rule@, r.message@)
}

/// The refusals for the declared atoms that name no atom, in order.
pub open spec fn atom_refusals(stage: Seq<char>, declared: Seq<Seq<char>>, atoms: Seq<Atom>) -> Seq<
    (Seq<char>, Seq<char>),
>
    decreases declared.len(),
{
    if declared.len() == 0 {
        seq![]
    } else {
        let rest = atom_refusals(stage, declared.drop_last(), atoms);
        let name = declared.last();
        if atom_by_name(atoms, name) is None {
            rest.push(("dispatch.unknown-atom"@, unknown_atom(stage, name, atoms)))
        } else {
            rest
        }
    }
}

/// The refusal one section declaration earns, if any.
pub open spec fn section_refusal(
    stage: Seq<char>,
    sel: Seq<char>,
    atoms: Seq<Atom>,
    lookup: SectionLookup,
) -> Option<(Seq<char>, Seq<char>)> {
    match split_hash(sel) {
        None => Some(("dispatch.section-missing"@, malformed_section(stage, sel))),
        Some((name, heading)) => if atom_by_name(atoms, name) is None {
            Some(("dispatch.unknown-atom"@, section_atom_unknown(stage, name)))
        } else {
            match lookup {
                SectionLookup::Found { .. } => None,
                SectionLookup::Missing { headings } => Some(
                    (
                        "dispatch.section-missing"@,
                        section_missing(
                            stage,
                            name,
                            heading,
                            headings@.map_values(|h: String| h@),
                        ),
                    ),
                ),
            }
        },
    }
}

pub open spec fn section_refusals(
    stage: Seq<char>,
    sels: Seq<Seq<char>>,
    atoms: Seq<Atom>,
    lookups: Seq<SectionLookup>,
) -> Seq<(Seq<char>, Seq<char>)>
    decreases sels.len(),
{
    if sels.len() == 0 {
        seq![]
    } else {
        let n = (sels.len() - 1) as int;
        let rest = section_refusals(stage, sels.drop_last(), atoms, lookups);
        match section_refusal(stage, sels[n], atoms, lookups[n]) {
            Some(r) => rest.push(r),
            None => rest,
        }
    }
}

pub open spec fn artifact_refusals(
    stage: Seq<char>,
    paths: Seq<Seq<char>>,
    reads: Seq<Option<Seq<char>>>,
) -> Seq<(Seq<char>, Seq<char>)>
    decreases paths.len(),
{
    if paths.len() == 0 {
        seq![]
    } else {
        let n = (paths.len() - 1) as int;
        let rest = artifact_refusals(stage, paths.drop_last(), reads);
        match reads[n] {
            Some(why) => rest.push(
                ("dispatch.artifact-missing"@, artifact_missing(stage, paths[n], why)),
            ),
            None => rest,
        }
    }
}

pub open spec fn read_views(v: Seq<Option<String>>) -> Seq<Option<Seq<char>>> {
    v.map_values(
        |o: Option<String>|
            match o {
                Some(s) => Some(s@),
                None => None,
            },
    )
}

/// Every refusal a stage's declarations earn: unknown atoms, then bad
/// section declarations, then missing artifacts, each in declaration order.
pub open spec fn spec_refusals(
    stage: ContextStage,
    atoms: Seq<Atom>,
    lookups: Seq<SectionLookup>,
    reads: Seq<Option<String>>,
) -> Seq<(Seq<char>, Seq<char>)> {
    atom_refusals(stage.id@, strs(stage.context_atoms@), atoms) + section_refusals(
        stage.id@,
        strs(stage.context_sections@),
        atoms,
        lookups,
    ) + artifact_refusals(stage.id@, strs(stage.context_artifacts@), read_views(reads))
}

fn refusal_of(rule: &str, v: &Vec<char>) -> (r: Refusal)
    ensures
        r.rule@ == rule@,
        r.message@ == v@,
{
    Refusal { rule: string_of(&chars_of(rule)), message: string_of(v) }
}

fn sources_joined(atoms: &Vec<Atom>) -> (r: Vec<char>)
    ensures
        r@ == join(atom_list(atoms@), ", "@),
{
    let mut cs: Vec<Vec<char>> = Vec::new();
    let mut i: usize = 0;
    while i < atoms.len()
        invariant
            i <= atoms.len(),
            views(cs@) == atom_list(atoms@).take(i as int),
        decreases atoms.len() - i,
    {
        let c = chars_of(atoms[i].source.as_str());
        let ghost before = cs@;
        cs.push(c);
        proof {
            assert(views(cs@) =~= views(before).push(c@));
            assert(atom_list(atoms@).take(i + 1) =~= atom_list(atoms@).take(i as int).push(
                atoms@[i as int].source@,
            ));
        }
        i = i + 1;
    }
    let mut out: Vec<char> = Vec::new();
    push_join(&mut out, &cs, cs.len(), ", ");
    proof {
        assert(views(cs@).take(cs.len() as int) =~= atom_list(atoms@));
    }
    out
}

fn strings_joined(v: &Vec<String>, sep: &str) -> (r: Vec<char>)
    ensures
        r@ == join(strs(v@), sep@),
{
    let mut cs: Vec<Vec<char>> = Vec::new();
    let mut i: usize = 0;
    while i < v.len()
        invariant
            i <= v.len(),
            views(cs@) == strs(v@).take(i as int),
        decreases v.len() - i,
    {
        let c = chars_of(v[i].as_str());
        let ghost before = cs@;
        cs.push(c);
        proof {
            assert(views(cs@) =~= views(before).push(c@));
            assert(strs(v@).take(i + 1) =~= strs(v@).take(i as int).push(v@[i as int]@));
        }
        i = i + 1;
    }
    let mut out: Vec<char> = Vec::new();
    push_join(&mut out, &cs, cs.len(), sep);
    proof {
        assert(views(cs@).take(cs.len() as int) =~= strs(v@));
    }
    out
}

/// The refusals a stage's declarations earn; none means the selection can
/// proceed. `lookups` holds what the section model found for each declared
/// section, and `reads` why each declared artifact could not be read, if it
/// could not.
pub fn refusals(
    stage: &ContextStage,
    atoms: &Vec<Atom>,
    lookups: &Vec<SectionLookup>,
    reads: &Vec<Option<String>>,
) -> (r: Vec<Refusal>)
    requires
        lookups.len() == stage.context_sections.len(),
        reads.len() == stage.context_artifacts.len(),
    ensures
        r@.map_values(|x: Refusal| refusal_view(x)) == spec_refusals(
            *stage,
            atoms@,
            lookups@,
            reads@,
        ),
{
    let id = stage.id.as_str();
    let mut out: Vec<Refusal> = Vec::new();
    let ghost sid = stage.id@;
    let ghost da = strs(stage.context_atoms@);
    let mut i: usize = 0;
    while i < stage.context_atoms.len()
        invariant
            i <= stage.context_atoms.len(),
            id@ == sid,
            sid == stage.id@,
            da == strs(stage.context_atoms@),
            out@.map_values(|x: Refusal| refusal_view(x)) == atom_refusals(
                sid,
                da.take(i as int),
                atoms@,
            ),
        decreases stage.context_atoms.len() - i,
    {
        proof {
            assert(da.take(i + 1).drop_last() =~= da.take(i as int));
            assert(da.take(i + 1).last() == stage.context_atoms@[i as int]@);
        }
        let name = stage.context_atoms[i].as_str();
        if find_atom(atoms, name).is_none() {
            let mut m = chars_of(id);
            push_str(&mut m, ": context_atoms names ");
            push_str(&mut m, debug_quoted(name).as_str());
            push_str(&mut m, ", which is not an atom of this Warrant; declared: ");
            let j = sources_joined(atoms);
            crate::text::push_all(&mut m, &j);
            let ghost before = out@;
            let f = refusal_of("dispatch.unknown-atom", &m);
            out.push(f);
            proof {
                assert(out@.map_values(|x: Refusal| refusal_view(x)) =~= before.map_values(
                    |x: Refusal| refusal_view(x),
                ).push(refusal_view(f)));
            }
        }
        i = i + 1;
    }
    proof {
        assert(da.take(stage.context_atoms.len() as int) =~= da);
    }
    let ghost after_atoms = out@.map_values(|x: Refusal| refusal_view(x));
    let mut sec: Vec<Refusal> = Vec::new();
    let ghost ds = strs(stage.context_sections@);
    let mut k: usize = 0;
    while k < stage.context_sections.len()
        invariant
            k <= stage.context_sections.len() == lookups.len(),
            id@ == sid,
            sid == stage.id@,
            ds == strs(stage.context_sections@),
            sec@.map_values(|x: Refusal| refusal_view(x)) == section_refusals(
                sid,
                ds.take(k as int),
                atoms@,
                lookups@,
            ),
        decreases stage.context_sections.len() - k,
    {
        proof {
            assert(ds.take(k + 1).drop_last() =~= ds.take(k as int));
            assert(ds.take(k + 1)[k as int] == stage.context_sections@[k as int]@);
        }
        let sel = stage.context_sections[k].as_str();
        let sv = chars_of(sel);
        let ghost before = sec@;
        let mut hash: usize = 0;
        while hash < sv.len() && sv[hash] != '#'
            invariant
                hash <= sv.len(),
                forall|j: int| 0 <= j < hash ==> sv@[j] != '#',
            decreases sv.len() - hash,
        {
            hash = hash + 1;
        }
        proof {
            crate::text::lemma_idx_of_char(sv@, '#', hash as int);
        }
        if hash >= sv.len() {
            let mut m = chars_of(id);
            push_str(&mut m, ": context_sections entry ");
            push_str(&mut m, debug_quoted(sel).as_str());
            push_str(&mut m, ": not of the form `<atom>#<heading>`");
            let f = refusal_of("dispatch.section-missing", &m);
            sec.push(f);
            proof {
                assert(sec@.map_values(|x: Refusal| refusal_view(x)) =~= before.map_values(
                    |x: Refusal| refusal_view(x),
                ).push(refusal_view(f)));
            }
        } else {
            let name_v = crate::text::slice_of(&sv, 0, hash);
            let heading_v = crate::text::slice_of(&sv, hash + 1, sv.len());
            let name = string_of(&name_v);
            let heading = string_of(&heading_v);
            proof {
                assert(name_v@ =~= sv@.take(hash as int));
                assert(heading_v@ =~= sv@.skip(hash + 1));
            }
            if find_atom(atoms, name.as_str()).is_none() {
                let mut m = chars_of(id);
                push_str(&mut m, ": context_sections names atom ");
                push_str(&mut m, debug_quoted(name.as_str()).as_str());
                push_str(&mut m, ", which this Warrant does not have");
                let f = refusal_of("dispatch.unknown-atom", &m);
                sec.push(f);
                proof {
                    assert(sec@.map_values(|x: Refusal| refusal_view(x)) =~= before.map_values(
                        |x: Refusal| refusal_view(x),
                    ).push(refusal_view(f)));
                }
            } else {
                match &lookups[k] {
                    SectionLookup::Found { .. } => {},
                    SectionLookup::Missing { headings } => {
                        let mut m = chars_of(id);
                        push_str(&mut m, ": ");
                        push_str(&mut m, name.as_str());
                        push_str(&mut m, " has no section ");
                        push_str(&mut m, debug_quoted(heading.as_str()).as_str());
                        push_str(&mut m, "; its headings are: ");
                        let j = strings_joined(headings, " | ");
                        crate::text::push_all(&mut m, &j);
                        let f = refusal_of("dispatch.section-missing", &m);
                        sec.push(f);
                        proof {
                            assert(sec@.map_values(|x: Refusal| refusal_view(x)) =~= before.map_values(
                                |x: Refusal| refusal_view(x),
                            ).push(refusal_view(f)));
                        }
                    },
                }
            }
        }
        k = k + 1;
    }
    proof {
        assert(ds.take(stage.context_sections.len() as int) =~= ds);
    }
    let mut art: Vec<Refusal> = Vec::new();
    let ghost dp = strs(stage.context_artifacts@);
    let ghost rv = read_views(reads@);
    let mut a: usize = 0;
    while a < stage.context_artifacts.len()
        invariant
            a <= stage.context_artifacts.len() == reads.len(),
            id@ == sid,
            sid == stage.id@,
            dp == strs(stage.context_artifacts@),
            rv == read_views(reads@),
            art@.map_values(|x: Refusal| refusal_view(x)) == artifact_refusals(
                sid,
                dp.take(a as int),
                rv,
            ),
        decreases stage.context_artifacts.len() - a,
    {
        proof {
            assert(dp.take(a + 1).drop_last() =~= dp.take(a as int));
            assert(dp.take(a + 1)[a as int] == stage.context_artifacts@[a as int]@);
        }
        let ghost before = art@;
        proof {
            assert(rv[a as int] == match reads@[a as int] {
                Some(s) => Some(s@),
                None => None::<Seq<char>>,
            });
        }
        match &reads[a] {
            Some(why) => {
                let path = stage.context_artifacts[a].as_str();
                let mut m = chars_of(id);
                push_str(&mut m, ": context_artifacts names ");
                push_str(&mut m, debug_quoted(path).as_str());
                push_str(&mut m, ": ");
                push_str(&mut m, why.as_str());
                let f = refusal_of("dispatch.artifact-missing", &m);
                art.push(f);
                proof {
                    assert(art@.map_values(|x: Refusal| refusal_view(x)) =~= before.map_values(
                        |x: Refusal| refusal_view(x),
                    ).push(refusal_view(f)));
                }
            },
            None => {},
        }
        a = a + 1;
    }
    proof {
        assert(dp.take(stage.context_artifacts.len() as int) =~= dp);
    }
    let ghost o1 = out@;
    let ghost s1 = sec@;
    let ghost a1 = art@;
    out.append(&mut sec);
    out.append(&mut art);
    proof {
        assert(out@ =~= o1 + s1 + a1);
        assert(out@.map_values(|x: Refusal| refusal_view(x)) =~= o1.map_values(
            |x: Refusal| refusal_view(x),
        ) + s1.map_values(|x: Refusal| refusal_view(x)) + a1.map_values(
            |x: Refusal| refusal_view(x),
        ));
    }
    out
}


/// What the selection does with one atom.
#[derive(Debug, Clone, PartialEq, Eq)]
pub enum AtomFate {
    /// Included whole, with its role and content digest.
    Included { role: ContextRole, content_digest: String },
    /// Left out, with the reason the manifest records.
    Omitted { reason: String },
    /// Neither: a declared section of it is included instead.
    Sectioned,
}

/// Whether the stage declares the atom whole.
pub open spec fn declared_whole(declared: Seq<Seq<char>>, source: Seq<char>) -> bool {
    exists|i: int| 0 <= i < declared.len() && names(source, #[trigger] declared[i])
}

pub open spec fn omission_reason(role: Seq<char>, stage: Seq<char>) -> Seq<char> {
    "optional atom of role "@ + debug_str(role) + "; "@ + stage
        + " declares neither it nor a section of it (§47.2 \"select only stage-relevant context\")"@
}

/// An atom is included whole when it is required or declared; otherwise it
/// is omitted unless a declared section of it is included.
pub open spec fn spec_fate(
    atom: Atom,
    stage: Seq<char>,
    declared: Seq<Seq<char>>,
    sectioned_sources: Seq<Seq<char>>,
) -> (int, ContextRole, Seq<char>) {
    if atom.required || declared_whole(declared, atom.source@) {
        (0, spec_role_for(atom.role@), "sha256:"@ + spec_hex(sha256_of(atom.bytes@)))
    } else if sectioned_sources.contains(atom.source@) {
        (2, ContextRole::Informative, seq![])
    } else {
        (1, ContextRole::Informative, omission_reason(atom.role@, stage))
    }
}

pub open spec fn fate_view(f: AtomFate) -> (int, ContextRole, Seq<char>) {
    match f {
        AtomFate::Included { role, content_digest } => (0, role, content_digest@),
        AtomFate::Omitted { reason } => (1, ContextRole::Informative, reason@),
        AtomFate::Sectioned => (2, ContextRole::Informative, seq![]),
    }
}

fn declares(declared: &Vec<String>, source: &str) -> (r: bool)
    ensures
        r == declared_whole(strs(declared@), source@),
{
    let src = chars_of(source);
    let last = segment_last(&src);
    let mut i: usize = 0;
    while i < declared.len()
        invariant
            i <= declared.len(),
            src@ == source@,
            last@ == last_segment(source@),
            forall|j: int| 0 <= j < i ==> !names(source@, #[trigger] strs(declared@)[j]),
        decreases declared.len() - i,
    {
        proof {
            assert(strs(declared@)[i as int] == declared@[i as int]@);
        }
        if str_eq(declared[i].as_str(), source) || crate::text::is_str(&last, declared[i].as_str()) {
            return true;
        }
        i = i + 1;
    }
    false
}

fn any_source(sources: &Vec<String>, source: &str) -> (r: bool)
    ensures
        r == strs(sources@).contains(source@),
{
    let mut i: usize = 0;
    while i < sources.len()
        invariant
            i <= sources.len(),
            forall|j: int| 0 <= j < i ==> strs(sources@)[j] != source@,
        decreases sources.len() - i,
    {
        proof {
            assert(strs(sources@)[i as int] == sources@[i as int]@);
        }
        if str_eq(sources[i].as_str(), source) {
            return true;
        }
        i = i + 1;
    }
    false
}

/// The fate of one atom under a stage's declarations, given the sources of
/// the atoms a declared section was found in.
pub fn atom_fate(atom: &Atom, stage: &ContextStage, sectioned_sources: &Vec<String>) -> (r: AtomFate)
    ensures
        fate_view(r) == spec_fate(
            *atom,
            stage.id@,
            strs(stage.context_atoms@),
            strs(sectioned_sources@),
        ),
{
    if atom.required || declares(&stage.context_atoms, atom.source.as_str()) {
        let h = sha256_hex(atom.bytes.as_slice());
        let mut d = chars_of("sha256:");
        push_str(&mut d, h.as_str());
        AtomFate::Included { role: role_for(atom.role.as_str()), content_digest: string_of(&d) }
    } else if any_source(sectioned_sources, atom.source.as_str()) {
        AtomFate::Sectioned
    } else {
        let mut m = chars_of("optional atom of role ");
        push_str(&mut m, debug_quoted(atom.role.as_str()).as_str());
        push_str(&mut m, "; ");
        push_str(&mut m, stage.id.as_str());
        push_str(
            &mut m,
            " declares neither it nor a section of it (§47.2 \"select only stage-relevant context\")",
        );
        AtomFate::Omitted { reason: string_of(&m) }
    }
}

/// Every required atom is included whole, whatever the stage declares.
pub proof fn lemma_required_atoms_are_kept(
    atom: Atom,
    stage: Seq<char>,
    declared: Seq<Seq<char>>,
    sectioned_sources: Seq<Seq<char>>,
)
    requires
        atom.required,
    ensures
        spec_fate(atom, stage, declared, sectioned_sources).0 == 0,
{
}

} // verus!
