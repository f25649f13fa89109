//! `war commit`: the commit message, written from the records that changed.
//!
//! Each changed path is classified by what it records; the subject takes the
//! most significant kind present, the scope names the Warrants touched, and
//! the body lists the files of each kind. Nothing is invented for changes
//! that cannot be classified.

use vstd::prelude::*;

use crate::text::{
    strs,
    chars_of, contains, contains_lit, decimal, ends_lit, ends_with, insert_sorted, join,
    lex_lt, lemma_lex_total, push_all, push_decimal, push_join, push_str, slice_of,
    sorted_unique, split_chars, split_on, starts_lit, starts_with, string_of, views, at, is_at,
    lines, lines_of, trim, trimmed,
};

verus! {

/// What kind of change a path represents, most significant first.
#[derive(Debug, Clone, Copy, PartialEq, Eq, Structural, PartialOrd, Ord, Hash)]
pub enum Kind {
    Authorization,
    Resolution,
    Correction,
    SasRevision,
    Response,
    Question,
    Projection,
    Journal,
    Warrant,
    Code,
    Docs,
    Conformance,
    Other,
}

/// The number of kinds.
pub const KINDS: usize = 13;

/// The kind at a position of the significance order.
pub open spec fn kind_at(i: int) -> Kind {
    if i == 0 { Kind::Authorization }
    else if i == 1 { Kind::Resolution }
    else if i == 2 { Kind::Correction }
    else if i == 3 { Kind::SasRevision }
    else if i == 4 { Kind::Response }
    else if i == 5 { Kind::Question }
    else if i == 6 { Kind::Projection }
    else if i == 7 { Kind::Journal }
    else if i == 8 { Kind::Warrant }
    else if i == 9 { Kind::Code }
    else if i == 10 { Kind::Docs }
    else if i == 11 { Kind::Conformance }
    else { Kind::Other }
}

impl Kind {
    /// The position of this kind in the significance order.
    pub open spec fn index(self) -> int {
        match self {
            Kind::Authorization => 0,
            Kind::Resolution => 1,
            Kind::Correction => 2,
            Kind::SasRevision => 3,
            Kind::Response => 4,
            Kind::Question => 5,
            Kind::Projection => 6,
            Kind::Journal => 7,
            Kind::Warrant => 8,
            Kind::Code => 9,
            Kind::Docs => 10,
            Kind::Conformance => 11,
            Kind::Other => 12,
        }
    }

    pub open spec fn spec_word(self) -> Seq<char> {
        match self {
            Kind::Authorization => "authorization"@,
            Kind::Resolution => "resolution"@,
            Kind::Correction => "correction"@,
            Kind::SasRevision => "SAS revision"@,
            Kind::Response => "signed response"@,
            Kind::Question => "question"@,
            Kind::Projection => "projection"@,
            Kind::Journal => "journal"@,
            Kind::Warrant => "Warrant record"@,
            Kind::Code => "code"@,
            Kind::Docs => "documentation"@,
            Kind::Conformance => "plant"@,
            Kind::Other => "file"@,
        }
    }

    pub open spec fn spec_conventional(self) -> Seq<char> {
        match self {
            Kind::Authorization | Kind::Resolution | Kind::Correction | Kind::Response => "warrant"@,
            Kind::SasRevision => "sas"@,
            Kind::Question => "questions"@,
            Kind::Projection | Kind::Journal | Kind::Warrant => "records"@,
            Kind::Code => "feat"@,
            Kind::Docs => "docs"@,
            Kind::Conformance => "conformance"@,
            Kind::Other => "chore"@,
        }
    }

    pub fn word(self) -> (r: &'static str)
        ensures
            r@ == self.spec_word(),
    {
        match self {
            Kind::Authorization => "authorization",
            Kind::Resolution => "resolution",
            Kind::Correction => "correction",
            Kind::SasRevision => "SAS revision",
            Kind::Response => "signed response",
            Kind::Question => "question",
            Kind::Projection => "projection",
            Kind::Journal => "journal",
            Kind::Warrant => "Warrant record",
            Kind::Code => "code",
            Kind::Docs => "documentation",
            Kind::Conformance => "plant",
            Kind::Other => "file",
        }
    }

    /// The Conventional Commits type a change of this kind earns.
    pub fn conventional(self) -> (r: &'static str)
        ensures
            r@ == self.spec_conventional(),
    {
        match self {
            Kind::Authorization | Kind::Resolution | Kind::Correction | Kind::Response => "warrant",
            Kind::SasRevision => "sas",
            Kind::Question => "questions",
            Kind::Projection | Kind::Journal | Kind::Warrant => "records",
            Kind::Code => "feat",
            Kind::Docs => "docs",
            Kind::Conformance => "conformance",
            Kind::Other => "chore",
        }
    }

    fn position(self) -> (r: usize)
        ensures
            r as int == self.index(),
            kind_at(r as int) == self,
    {
        match self {
            Kind::Authorization => 0,
            Kind::Resolution => 1,
            Kind::Correction => 2,
            Kind::SasRevision => 3,
            Kind::Response => 4,
            Kind::Question => 5,
            Kind::Projection => 6,
            Kind::Journal => 7,
            Kind::Warrant => 8,
            Kind::Code => 9,
            Kind::Docs => 10,
            Kind::Conformance => 11,
            Kind::Other => 12,
        }
    }
}

fn kind_of_index(i: usize) -> (k: Kind)
    requires
        i < 13,
    ensures
        k == kind_at(i as int),
        k.index() == i,
{
    if i == 0 { Kind::Authorization }
    else if i == 1 { Kind::Resolution }
    else if i == 2 { Kind::Correction }
    else if i == 3 { Kind::SasRevision }
    else if i == 4 { Kind::Response }
    else if i == 5 { Kind::Question }
    else if i == 6 { Kind::Projection }
    else if i == 7 { Kind::Journal }
    else if i == 8 { Kind::Warrant }
    else if i == 9 { Kind::Code }
    else if i == 10 { Kind::Docs }
    else if i == 11 { Kind::Conformance }
    else { Kind::Other }
}

/// The kind a path records; the first rule that applies decides.
pub open spec fn spec_classify(p: Seq<char>) -> Kind {
    if ends_with(p, "authorization.toml"@) {
        Kind::Authorization
    } else if ends_with(p, "resolution.toml"@) {
        Kind::Resolution
    } else if contains(p, "/corrections/"@) {
        Kind::Correction
    } else if starts_with(p, "docs/sas/revisions/"@) {
        Kind::SasRevision
    } else if starts_with(p, "docs/authority/responses/"@) {
        Kind::Response
    } else if contains(p, "/questions/"@) {
        Kind::Question
    } else if contains(p, "/generated/"@) || ends_with(p, "WAR.json"@) {
        Kind::Projection
    } else if ends_with(p, "journal.jsonl"@) {
        Kind::Journal
    } else if starts_with(p, "docs/warrants/"@) {
        Kind::Warrant
    } else if starts_with(p, "conformance/"@) {
        Kind::Conformance
    } else if ends_with(p, ".rs"@) || ends_with(p, "Cargo.toml"@) || ends_with(p, ".sh"@) {
        Kind::Code
    } else if starts_with(p, "docs/"@) || ends_with(p, ".md"@) {
        Kind::Docs
    } else {
        Kind::Other
    }
}

/// A path is recorded as an authorization exactly when its name ends in
/// `authorization.toml`, and as a resolution exactly when it ends in
/// `resolution.toml` and not in `authorization.toml`.
pub proof fn lemma_authorizations_and_resolutions_by_name(p: Seq<char>)
    ensures
        spec_classify(p) is Authorization <==> ends_with(p, "authorization.toml"@),
        spec_classify(p) is Resolution <==> (ends_with(p, "resolution.toml"@) && !ends_with(
            p,
            "authorization.toml"@,
        )),
{
}

/// A path is given a kind only when it carries that kind's mark: a
/// `/corrections/` directory for a correction, the SAS revisions directory
/// for a SAS revision, the responses directory for a signed response, a
/// `/questions/` directory for a question, a `/generated/` directory or a
/// `WAR.json` for a projection, a `journal.jsonl` for the journal, the
/// Warrants directory for a Warrant record, the plant for conformance, a
/// Rust, Cargo or shell file for code, and the docs directory or a Markdown
/// file for documentation; a path with none of these marks is other.
pub proof fn lemma_each_kind_carries_its_mark(p: Seq<char>)
    ensures
        spec_classify(p) is Correction ==> contains(p, "/corrections/"@),
        spec_classify(p) is SasRevision ==> starts_with(p, "docs/sas/revisions/"@),
        spec_classify(p) is Response ==> starts_with(p, "docs/authority/responses/"@),
        spec_classify(p) is Question ==> contains(p, "/questions/"@),
        spec_classify(p) is Projection ==> contains(p, "/generated/"@) || ends_with(p, "WAR.json"@),
        spec_classify(p) is Journal ==> ends_with(p, "journal.jsonl"@),
        spec_classify(p) is Warrant ==> starts_with(p, "docs/warrants/"@),
        spec_classify(p) is Conformance ==> starts_with(p, "conformance/"@),
        spec_classify(p) is Code ==> ends_with(p, ".rs"@) || ends_with(p, "Cargo.toml"@) || ends_with(p, ".sh"@),
        spec_classify(p) is Docs ==> starts_with(p, "docs/"@) || ends_with(p, ".md"@),
        spec_classify(p) is Other <==> !{
            ||| ends_with(p, "authorization.toml"@)
            ||| ends_with(p, "resolution.toml"@)
            ||| contains(p, "/corrections/"@)
            ||| starts_with(p, "docs/sas/revisions/"@)
            ||| starts_with(p, "docs/authority/responses/"@)
            ||| contains(p, "/questions/"@)
            ||| contains(p, "/generated/"@)
            ||| ends_with(p, "WAR.json"@)
            ||| ends_with(p, "journal.jsonl"@)
            ||| starts_with(p, "docs/warrants/"@)
            ||| starts_with(p, "conformance/"@)
            ||| ends_with(p, ".rs"@)
            ||| ends_with(p, "Cargo.toml"@)
            ||| ends_with(p, ".sh"@)
            ||| starts_with(p, "docs/"@)
            ||| ends_with(p, ".md"@)
        },
{
}

fn classify_chars(p: &Vec<char>) -> (k: Kind)
    ensures
        k == spec_classify(p@),
{
    if ends_lit(p, "authorization.toml") {
        Kind::Authorization
    } else if ends_lit(p, "resolution.toml") {
        Kind::Resolution
    } else if contains_lit(p, "/corrections/") {
        Kind::Correction
    } else if starts_lit(p, "docs/sas/revisions/") {
        Kind::SasRevision
    } else if starts_lit(p, "docs/authority/responses/") {
        Kind::Response
    } else if contains_lit(p, "/questions/") {
        Kind::Question
    } else if contains_lit(p, "/generated/") || ends_lit(p, "WAR.json") {
        Kind::Projection
    } else if ends_lit(p, "journal.jsonl") {
        Kind::Journal
    } else if starts_lit(p, "docs/warrants/") {
        Kind::Warrant
    } else if starts_lit(p, "conformance/") {
        Kind::Conformance
    } else if ends_lit(p, ".rs") || ends_lit(p, "Cargo.toml") || ends_lit(p, ".sh") {
        Kind::Code
    } else if starts_lit(p, "docs/") || ends_lit(p, ".md") {
        Kind::Docs
    } else {
        Kind::Other
    }
}

/// What kind of change a path represents.
pub fn classify(path: &str) -> (k: Kind)
    ensures
        k == spec_classify(path@),
{
    let p = chars_of(path);
    classify_chars(&p)
}

/// The alias of the Warrant a path lies under, when the directory under
/// `docs/warrants/` is named like an alias.
pub open spec fn spec_warrant_of(p: Seq<char>) -> Option<Seq<char>> {
    let pre = "docs/warrants/"@;
    if starts_with(p, pre) {
        let alias = split_on(p.skip(pre.len() as int), '/')[0];
        if contains(alias, "-WAR-"@) {
            Some(alias)
        } else {
            None
        }
    } else {
        None
    }
}

fn warrant_of_chars(p: &Vec<char>) -> (r: Option<Vec<char>>)
    ensures
        match (r, spec_warrant_of(p@)) {
            (Some(a), Some(b)) => a@ == b,
            (None, None) => true,
            _ => false,
        },
{
    let pre = chars_of("docs/warrants/");
    if !crate::text::has_prefix(p, &pre) {
        return None;
    }
    let rest = slice_of(p, pre.len(), p.len());
    let parts = split_chars(&rest, '/');
    let alias = slice_of(&parts[0], 0, parts[0].len());
    proof {
        assert(parts@[0]@ == views(parts@)[0]);
        assert(parts@[0]@.subrange(0, parts@[0]@.len() as int) =~= parts@[0]@);
    }
    if contains_lit(&alias, "-WAR-") {
        Some(alias)
    } else {
        None
    }
}

/// The Warrant alias a path belongs to, if any.
pub fn warrant_of(path: &str) -> (r: Option<String>)
    ensures
        match (r, spec_warrant_of(path@)) {
            (Some(a), Some(b)) => a@ == b,
            (None, None) => true,
            _ => false,
        },
{
    let p = chars_of(path);
    match warrant_of_chars(&p) {
        Some(a) => Some(string_of(&a)),
        None => None,
    }
}

pub open spec fn spec_subject(lead: Kind, count: nat, warrants: nat) -> Seq<char> {
    match lead {
        Kind::Authorization => decimal(count) + " authorization(s) recorded"@,
        Kind::Resolution => decimal(count) + " resolution(s) recorded"@,
        Kind::Correction => decimal(count) + " correction(s) on delivered artifacts"@,
        Kind::SasRevision => "a SAS revision moved"@,
        Kind::Response => decimal(count) + " signed response(s) ingested"@,
        Kind::Question => decimal(count) + " question record(s)"@,
        Kind::Projection => "recompiled projections"@,
        Kind::Journal => "journal events appended"@,
        Kind::Warrant => if warrants == 1 {
            "Warrant records edited"@
        } else {
            "records edited across "@ + decimal(warrants) + " Warrants"@
        },
        Kind::Code => decimal(count) + " source file(s) changed"@,
        Kind::Docs => decimal(count) + " document(s) changed"@,
        Kind::Conformance => decimal(count) + " conformance file(s) changed"@,
        Kind::Other => "files changed"@,
    }
}

/// The subject line's text for the leading kind, given how many paths of
/// that kind changed and how many Warrants were touched.
pub fn subject(lead: Kind, count: u64, warrants: u64) -> (r: String)
    ensures
        r@ == spec_subject(lead, count as nat, warrants as nat),
{
    let mut out: Vec<char> = Vec::new();
    match lead {
        Kind::Authorization => {
            push_decimal(&mut out, count);
            push_str(&mut out, " authorization(s) recorded");
        },
        Kind::Resolution => {
            push_decimal(&mut out, count);
            push_str(&mut out, " resolution(s) recorded");
        },
        Kind::Correction => {
            push_decimal(&mut out, count);
            push_str(&mut out, " correction(s) on delivered artifacts");
        },
        Kind::SasRevision => push_str(&mut out, "a SAS revision moved"),
        Kind::Response => {
            push_decimal(&mut out, count);
            push_str(&mut out, " signed response(s) ingested");
        },
        Kind::Question => {
            push_decimal(&mut out, count);
            push_str(&mut out, " question record(s)");
        },
        Kind::Projection => push_str(&mut out, "recompiled projections"),
        Kind::Journal => push_str(&mut out, "journal events appended"),
        Kind::Warrant => {
            if warrants == 1 {
                push_str(&mut out, "Warrant records edited");
            } else {
                push_str(&mut out, "records edited across ");
                push_decimal(&mut out, warrants);
                push_str(&mut out, " Warrants");
            }
        },
        Kind::Code => {
            push_decimal(&mut out, count);
            push_str(&mut out, " source file(s) changed");
        },
        Kind::Docs => {
            push_decimal(&mut out, count);
            push_str(&mut out, " document(s) changed");
        },
        Kind::Conformance => {
            push_decimal(&mut out, count);
            push_str(&mut out, " conformance file(s) changed");
        },
        Kind::Other => push_str(&mut out, "files changed"),
    }
    string_of(&out)
}

/// The paths of one kind, in the order given.
pub open spec fn kind_files(paths: Seq<Seq<char>>, k: Kind) -> Seq<Seq<char>>
    decreases paths.len(),
{
    if paths.len() == 0 {
        seq![]
    } else {
        let rest = kind_files(paths.drop_last(), k);
        if spec_classify(paths.last()) == k {
            rest.push(paths.last())
        } else {
            rest
        }
    }
}

/// Whether some path names `alias` as its Warrant.
pub open spec fn is_alias_in(paths: Seq<Seq<char>>, alias: Seq<char>) -> bool {
    exists|i: int| 0 <= i < paths.len() && spec_warrant_of(#[trigger] paths[i]) == Some(alias)
}

/// The Warrants the paths touch, sorted, each once.
pub open spec fn warrants_of(paths: Seq<Seq<char>>) -> Seq<Seq<char>> {
    choose|ws: Seq<Seq<char>>|
        sorted_unique(ws) && forall|y: Seq<char>| ws.contains(y) <==> is_alias_in(paths, y)
}

/// The most significant kind at or after position `from` with any paths.
pub open spec fn lead_from(paths: Seq<Seq<char>>, from: int) -> Kind
    decreases 13 - from,
{
    if from >= 12 {
        Kind::Other
    } else if kind_files(paths, kind_at(from)).len() > 0 {
        kind_at(from)
    } else {
        lead_from(paths, from + 1)
    }
}

pub open spec fn spec_scope(ws: Seq<Seq<char>>) -> Seq<char> {
    if ws.len() == 0 {
        seq![]
    } else if ws.len() <= 3 {
        "("@ + join(ws, ", "@) + ")"@
    } else {
        "("@ + decimal(ws.len()) + " Warrants)"@
    }
}

/// One body line: the kind, its count, the first four files and how many more.
pub open spec fn kind_line(k: Kind, files: Seq<Seq<char>>) -> Seq<char> {
    let shown = if files.len() > 4 {
        files.take(4)
    } else {
        files
    };
    "- "@ + k.spec_word() + " ("@ + decimal(files.len()) + "): "@ + join(shown, ", "@) + (if files.len()
        > shown.len() {
        ", and "@ + decimal((files.len() - shown.len()) as nat) + " more"@
    } else {
        seq![]
    }) + seq!['\n']
}

/// The body lines for the kinds at positions `from..13` that have paths.
pub open spec fn body_from(paths: Seq<Seq<char>>, from: int) -> Seq<char>
    decreases 13 - from,
{
    if from >= 13 {
        seq![]
    } else {
        let files = kind_files(paths, kind_at(from));
        (if files.len() > 0 {
            kind_line(kind_at(from), files)
        } else {
            seq![]
        }) + body_from(paths, from + 1)
    }
}

pub open spec fn signature_note() -> Seq<char> {
    "\nEvery signature here is the signer's own ssh confirmation; the tool drafted the records and confirmed nothing.\n"@
}

/// The whole drafted message for a non-empty set of changed paths.
pub open spec fn spec_message(paths: Seq<Seq<char>>) -> Seq<char> {
    let lead = lead_from(paths, 0);
    let ws = warrants_of(paths);
    lead.spec_conventional() + spec_scope(ws) + ": "@ + spec_subject(
        lead,
        kind_files(paths, lead).len(),
        ws.len(),
    ) + seq!['\n'] + seq!['\n'] + body_from(paths, 0) + (if kind_files(paths, Kind::Response).len()
        > 0 || kind_files(paths, Kind::Authorization).len() > 0 {
        signature_note()
    } else {
        seq![]
    })
}

pub open spec fn nothing_changed() -> Seq<char> {
    "nothing has changed, so there is nothing to describe"@
}

/// Two strictly increasing sequences with the same elements are equal.
pub proof fn lemma_sorted_unique_determined(s: Seq<Seq<char>>, t: Seq<Seq<char>>)
    requires
        sorted_unique(s),
        sorted_unique(t),
        forall|y: Seq<char>| s.contains(y) <==> t.contains(y),
    ensures
        s == t,
    decreases s.len(),
{
    if s.len() == 0 {
        if t.len() > 0 {
            assert(t.contains(t[0]));
        }
        assert(s =~= t);
    } else {
        assert(s.contains(s[0]));
        if t.len() == 0 {
            assert(false);
        }
        assert(t.contains(t[0]));
        let i = choose|i: int| 0 <= i < s.len() && s[i] == t[0];
        let j = choose|j: int| 0 <= j < t.len() && t[j] == s[0];
        if i > 0 && j > 0 {
            assert(lex_lt(s[0], s[i]));
            assert(lex_lt(t[0], t[j]));
            lemma_lex_total(s[0], t[0]);
        }
        assert(s[0] == t[0]) by {
            if i > 0 && j == 0 {
            } else if i == 0 {
            }
        }
        let s1 = s.drop_first();
        let t1 = t.drop_first();
        assert forall|y: Seq<char>| s1.contains(y) <==> t1.contains(y) by {
            if s1.contains(y) {
                let a = choose|a: int| 0 <= a < s1.len() && s1[a] == y;
                assert(s[a + 1] == y);
                assert(lex_lt(s[0], y));
                crate::text::lemma_lex_irreflexive(y);
                assert(t.contains(y));
                let b = choose|b: int| 0 <= b < t.len() && t[b] == y;
                assert(b != 0);
                assert(t1[b - 1] == y);
            }
            if t1.contains(y) {
                let a = choose|a: int| 0 <= a < t1.len() && t1[a] == y;
                assert(t[a + 1] == y);
                assert(lex_lt(t[0], y));
                crate::text::lemma_lex_irreflexive(y);
                assert(s.contains(y));
                let b = choose|b: int| 0 <= b < s.len() && s[b] == y;
                assert(b != 0);
                assert(s1[b - 1] == y);
            }
        }
        lemma_sorted_unique_determined(s1, t1);
        assert(s =~= seq![s[0]] + s1);
        assert(t =~= seq![t[0]] + t1);
    }
}


/// The paths among `ps` whose kind is `k`, in the order given.
fn files_of_kind(ps: &Vec<Vec<char>>, k: Kind) -> (r: Vec<Vec<char>>)
    ensures
        views(r@) == kind_files(views(ps@), k),
{
    let mut r: Vec<Vec<char>> = Vec::new();
    let mut i: usize = 0;
    while i < ps.len()
        invariant
            i <= ps.len(),
            views(r@) == kind_files(views(ps@).take(i as int), k),
        decreases ps.len() - i,
    {
        let ghost pv = views(ps@);
        proof {
            assert(pv.take(i + 1).drop_last() =~= pv.take(i as int));
            assert(pv.take(i + 1).last() == ps@[i as int]@);
        }
        if classify_chars(&ps[i]) == k {
            let x = slice_of(&ps[i], 0, ps[i].len());
            proof {
                assert(x@ =~= ps@[i as int]@);
            }
            let ghost before = r@;
            r.push(x);
            proof {
                assert(views(r@) =~= views(before).push(x@));
            }
        }
        i = i + 1;
    }
    proof {
        assert(views(ps@).take(ps.len() as int) =~= views(ps@));
    }
    r
}

/// The Warrants the paths touch, sorted and each once.
fn warrants_in(ps: &Vec<Vec<char>>) -> (r: Vec<Vec<char>>)
    ensures
        views(r@) == warrants_of(views(ps@)),
{
    let ghost pv = views(ps@);
    let mut ws: Vec<Vec<char>> = Vec::new();
    let mut i: usize = 0;
    while i < ps.len()
        invariant
            i <= ps.len(),
            pv == views(ps@),
            sorted_unique(views(ws@)),
            forall|y: Seq<char>| views(ws@).contains(y) <==> is_alias_in(pv.take(i as int), y),
        decreases ps.len() - i,
    {
        let found = warrant_of_chars(&ps[i]);
        let ghost old_ws = views(ws@);
        match found {
            Some(a) => {
                insert_sorted(&mut ws, a);
            },
            None => {},
        }
        proof {
            assert(pv[i as int] == ps@[i as int]@);
            assert forall|y: Seq<char>|
                views(ws@).contains(y) <==> is_alias_in(pv.take(i + 1), y) by {
                if is_alias_in(pv.take(i + 1), y) {
                    let j = choose|j: int|
                        0 <= j < pv.take(i + 1).len() && spec_warrant_of(
                            #[trigger] pv.take(i + 1)[j],
                        ) == Some(y);
                    if j < i {
                        assert(pv.take(i as int)[j] == pv.take(i + 1)[j]);
                        assert(is_alias_in(pv.take(i as int), y));
                    }
                }
                if is_alias_in(pv.take(i as int), y) {
                    let j = choose|j: int|
                        0 <= j < pv.take(i as int).len() && spec_warrant_of(
                            #[trigger] pv.take(i as int)[j],
                        ) == Some(y);
                    assert(pv.take(i + 1)[j] == pv.take(i as int)[j]);
                }
                if found is Some && y == found->Some_0@ {
                    assert(pv.take(i + 1)[i as int] == pv[i as int]);
                }
            }
        }
        i = i + 1;
    }
    proof {
        assert(pv.take(ps.len() as int) =~= pv);
        let w = views(ws@);
        assert(sorted_unique(w) && forall|y: Seq<char>| w.contains(y) <==> is_alias_in(pv, y));
        let c = warrants_of(pv);
        lemma_sorted_unique_determined(w, c);
    }
    ws
}

/// Append one body line for `k`.
fn push_kind_line(out: &mut Vec<char>, k: Kind, files: &Vec<Vec<char>>)
    requires
        files.len() > 0,
    ensures
        final(out)@ == old(out)@ + kind_line(k, views(files@)),
{
    let ghost fv = views(files@);
    let n = files.len();
    let shown: usize = if n > 4 { 4 } else { n };
    push_str(out, "- ");
    push_str(out, k.word());
    push_str(out, " (");
    push_decimal(out, n as u64);
    push_str(out, "): ");
    push_join(out, files, shown, ", ");
    let ghost mid = out@;
    if n > shown {
        push_str(out, ", and ");
        push_decimal(out, (n - shown) as u64);
        push_str(out, " more");
    }
    let ghost tail = out@.skip(mid.len() as int);
    out.push('\n');
    proof {
        assert(fv.len() == n);
        if n <= 4 {
            assert(fv.take(n as int) =~= fv);
        }
        let sh = if fv.len() > 4 { fv.take(4) } else { fv };
        assert(sh.len() == shown);
        assert(fv.take(shown as int) == sh);
        assert(out@ =~= old(out)@ + kind_line(k, fv));
    }
}

/// The drafted commit message for the changed `paths`, most significant
/// kind first; an error when nothing changed.
pub fn message(paths: &Vec<String>) -> (r: Result<String, String>)
    ensures
        match r {
            Ok(m) => paths.len() > 0 && m@ == spec_message(strs(paths@)),
            Err(e) => paths.len() == 0 && e@ == nothing_changed(),
        },
{
    if paths.len() == 0 {
        return Err(string_of(&chars_of("nothing has changed, so there is nothing to describe")));
    }
    let mut ps: Vec<Vec<char>> = Vec::new();
    let mut i: usize = 0;
    while i < paths.len()
        invariant
            i <= paths.len(),
            views(ps@) == strs(paths@).take(i as int),
        decreases paths.len() - i,
    {
        let c = chars_of(paths[i].as_str());
        let ghost before = ps@;
        ps.push(c);
        proof {
            assert(c@ == paths@[i as int]@);
            assert(strs(paths@)[i as int] == paths@[i as int]@);
            assert(views(ps@) =~= views(before).push(c@));
            assert(strs(paths@).take(i + 1) =~= strs(paths@).take(i as int).push(paths@[i as int]@));
            assert(views(ps@) =~= strs(paths@).take(i + 1));
        }
        i = i + 1;
    }
    proof {
        assert(strs(paths@).take(paths.len() as int) =~= strs(paths@));
    }
    let ghost pv = views(ps@);
    let mut buckets: Vec<Vec<Vec<char>>> = Vec::new();
    let mut j: usize = 0;
    while j < 13
        invariant
            j <= 13,
            pv == views(ps@),
            buckets.len() == j,
            forall|t: int|
                0 <= t < j ==> views(#[trigger] buckets@[t]@) == kind_files(pv, kind_at(t)),
        decreases 13 - j,
    {
        let k = kind_of_index(j);
        let f = files_of_kind(&ps, k);
        buckets.push(f);
        j = j + 1;
    }
    let ws = warrants_in(&ps);
    let mut l: usize = 0;
    while l < 12 && buckets[l].len() == 0
        invariant
            l <= 12,
            buckets.len() == 13,
            forall|t: int|
                0 <= t < 13 ==> views(#[trigger] buckets@[t]@) == kind_files(pv, kind_at(t)),
            lead_from(pv, 0) == lead_from(pv, l as int),
        decreases 12 - l,
    {
        proof {
            assert(views(buckets@[l as int]@).len() == 0);
        }
        l = l + 1;
    }
    let lead = kind_of_index(l);
    proof {
        assert(views(buckets@[l as int]@) == kind_files(pv, kind_at(l as int)));
        assert(lead_from(pv, 0) == lead);
    }
    let mut out: Vec<char> = Vec::new();
    push_str(&mut out, lead.conventional());
    let nw = ws.len();
    if nw > 0 {
        if nw <= 3 {
            push_str(&mut out, "(");
            push_join(&mut out, &ws, nw, ", ");
            push_str(&mut out, ")");
            proof {
                assert(views(ws@).take(nw as int) =~= views(ws@));
            }
        } else {
            push_str(&mut out, "(");
            push_decimal(&mut out, nw as u64);
            push_str(&mut out, " Warrants)");
        }
    }
    push_str(&mut out, ": ");
    let count = buckets[l].len();
    let s = subject(lead, count as u64, nw as u64);
    let sv = chars_of(s.as_str());
    push_all(&mut out, &sv);
    out.push('\n');
    out.push('\n');
    let ghost head = out@;
    proof {
        assert(head =~= lead.spec_conventional() + spec_scope(warrants_of(pv)) + ": "@
            + spec_subject(lead, kind_files(pv, lead).len(), warrants_of(pv).len()) + seq!['\n']
            + seq!['\n']);
    }
    let mut b: usize = 0;
    while b < 13
        invariant
            b <= 13,
            buckets.len() == 13,
            forall|t: int|
                0 <= t < 13 ==> views(#[trigger] buckets@[t]@) == kind_files(pv, kind_at(t)),
            out@ + body_from(pv, b as int) == head + body_from(pv, 0),
        decreases 13 - b,
    {
        let ghost before = out@;
        let k = kind_of_index(b);
        if buckets[b].len() > 0 {
            push_kind_line(&mut out, k, &buckets[b]);
        }
        proof {
            assert(views(buckets@[b as int]@) == kind_files(pv, kind_at(b as int)));
            assert(body_from(pv, b as int) == (if kind_files(pv, kind_at(b as int)).len() > 0 {
                kind_line(kind_at(b as int), kind_files(pv, kind_at(b as int)))
            } else {
                seq![]
            }) + body_from(pv, b + 1));
            assert(out@ + body_from(pv, b + 1) =~= before + body_from(pv, b as int));
        }
        b = b + 1;
    }
    proof {
        assert(body_from(pv, 13) =~= seq![]);
        assert(out@ =~= head + body_from(pv, 0));
        assert(views(buckets@[4]@) == kind_files(pv, Kind::Response));
        assert(views(buckets@[0]@) == kind_files(pv, Kind::Authorization));
    }
    if buckets[4].len() > 0 || buckets[0].len() > 0 {
        push_str(&mut out, "\nEvery signature here is the signer's own ssh confirmation; the tool drafted the records and confirmed nothing.\n");
    }
    proof {
        assert(out@ =~= spec_message(pv));
    }
    Ok(string_of(&out))
}


/// How many bytes `c` takes in UTF-8.
pub open spec fn utf8_len(c: char) -> nat {
    let n = c as int;
    if n < 0x80 {
        1
    } else if n < 0x800 {
        2
    } else if n < 0x10000 {
        3
    } else {
        4
    }
}

/// `str::get(n..)` on a line: what follows its first `n` bytes, when a
/// character ends exactly there.
pub open spec fn skip_bytes(l: Seq<char>, n: int) -> Option<Seq<char>>
    decreases l.len(),
{
    if n == 0 {
        Some(l)
    } else if l.len() == 0 || utf8_len(l[0]) > n {
        None
    } else {
        skip_bytes(l.drop_first(), n - utf8_len(l[0]))
    }
}

/// The last position below `k` at which `p` occurs in `s`.
pub open spec fn rfind_before(s: Seq<char>, p: Seq<char>, k: int) -> Option<nat>
    decreases k,
{
    if k <= 0 {
        None
    } else if is_at(s, p, k - 1) {
        Some((k - 1) as nat)
    } else {
        rfind_before(s, p, k - 1)
    }
}

/// `s.rsplit(p).next()`: what follows the last occurrence of `p`, or all of `s`.
pub open spec fn after_last(s: Seq<char>, p: Seq<char>) -> Seq<char> {
    match rfind_before(s, p, s.len() + 1 as int) {
        Some(i) => s.skip((i + p.len()) as int),
        None => s,
    }
}

/// The path one line of `git status --porcelain` names: the text after the
/// two status columns and their space, trimmed, the new name of a rename;
/// none for a line that names nothing.
pub open spec fn status_entry(l: Seq<char>) -> Option<Seq<char>> {
    match skip_bytes(l, 3) {
        Some(rest) => {
            let p = after_last(trim(rest), " -> "@);
            if p.len() == 0 {
                None
            } else {
                Some(p)
            }
        },
        None => None,
    }
}

/// The paths the lines name, in order.
pub open spec fn status_list(ls: Seq<Seq<char>>) -> Seq<Seq<char>>
    decreases ls.len(),
{
    if ls.len() == 0 {
        seq![]
    } else {
        let rest = status_list(ls.drop_last());
        match status_entry(ls.last()) {
            Some(p) => rest.push(p),
            None => rest,
        }
    }
}

fn char_bytes(c: char) -> (r: usize)
    ensures
        r == utf8_len(c),
{
    let n = c as u32;
    if n < 0x80 {
        1
    } else if n < 0x800 {
        2
    } else if n < 0x10000 {
        3
    } else {
        4
    }
}

proof fn lemma_skip_bytes_step(l: Seq<char>, i: int, b: int)
    requires
        0 <= i < l.len(),
        0 <= b,
        b + utf8_len(l[i]) <= 3,
        skip_bytes(l, 3) == skip_bytes(l.skip(i), 3 - b),
    ensures
        skip_bytes(l, 3) == skip_bytes(l.skip(i + 1), 3 - b - utf8_len(l[i])),
{
    let t = l.skip(i);
    assert(t[0] == l[i]);
    assert(t.drop_first() =~= l.skip(i + 1));
    if 3 - b == 0 {
        assert(utf8_len(l[i]) >= 1);
    }
}

/// The path a porcelain status line names, if any.
fn entry_of(l: &Vec<char>) -> (r: Option<Vec<char>>)
    ensures
        match (r, status_entry(l@)) {
            (Some(a), Some(b)) => a@ == b,
            (None, None) => true,
            _ => false,
        },
{
    let mut i: usize = 0;
    let mut b: usize = 0;
    assert(l@.skip(0) =~= l@);
    while b < 3 && i < l.len()
        invariant
            i <= l.len(),
            b <= 3,
            skip_bytes(l@, 3) == skip_bytes(l@.skip(i as int), 3 - b),
        decreases l.len() - i,
    {
        let n = char_bytes(l[i]);
        if b + n > 3 {
            proof {
                let t = l@.skip(i as int);
                assert(t[0] == l@[i as int]);
            }
            return None;
        }
        proof {
            lemma_skip_bytes_step(l@, i as int, b as int);
        }
        b = b + n;
        i = i + 1;
    }
    if b < 3 {
        proof {
            assert(l@.skip(i as int).len() == 0);
        }
        return None;
    }
    let rest = slice_of(l, i, l.len());
    proof {
        assert(rest@ =~= l@.skip(i as int));
    }
    let t = trimmed(&rest);
    let sep = chars_of(" -> ");
    proof {
        reveal_strlit(" -> ");
        assert(sep@.len() == 4);
        assert(!is_at(t@, sep@, t.len() as int));
    }
    let mut k: usize = t.len();
    while k > 0 && !at(&t, &sep, k - 1)
        invariant
            k <= t.len() + 1,
            rfind_before(t@, sep@, t.len() + 1 as int) == rfind_before(t@, sep@, k as int),
        decreases k,
    {
        k = k - 1;
    }
    let p = if k > 0 {
        proof {
            assert(is_at(t@, sep@, k - 1));
        }
        slice_of(&t, k - 1 + sep.len(), t.len())
    } else {
        slice_of(&t, 0, t.len())
    };
    proof {
        if k == 0 {
            assert(p@ =~= t@);
        } else {
            assert(p@ =~= t@.skip(k - 1 + sep@.len()));
        }
        assert(p@ == after_last(t@, " -> "@));
    }
    if p.len() == 0 {
        None
    } else {
        Some(p)
    }
}

/// The changed paths that `git status --porcelain` output names, in order.
pub fn status_paths(out: &str) -> (r: Vec<String>)
    ensures
        strs(r@) == status_list(lines(out@)),
{
    let v = chars_of(out);
    let ls = lines_of(&v);
    let ghost lv = views(ls@);
    let mut r: Vec<String> = Vec::new();
    let mut i: usize = 0;
    while i < ls.len()
        invariant
            i <= ls.len(),
            lv == views(ls@),
            lv == lines(out@),
            strs(r@) == status_list(lv.take(i as int)),
        decreases ls.len() - i,
    {
        proof {
            assert(lv.take(i + 1).drop_last() =~= lv.take(i as int));
            assert(lv.take(i + 1).last() == ls@[i as int]@);
        }
        let ghost before = r@;
        match entry_of(&ls[i]) {
            Some(p) => {
                let s = string_of(&p);
                r.push(s);
                proof {
                    assert(strs(r@) =~= strs(before).push(s@));
                }
            },
            None => {},
        }
        i = i + 1;
    }
    proof {
        assert(lv.take(ls.len() as int) =~= lv);
    }
    r
}

} // verus!
