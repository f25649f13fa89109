//! `war sign --batch`: one signature over many acts.
//!
//! The decisions a batch makes between its file operations: which acts join
//! it (one signer in one role; a SAS acceptance signs alone), what the
//! durable recording marker says, which Warrants a leftover marker touches,
//! and whether a marker can be recovered from.

use vstd::prelude::*;
use vstd::string::StringSliceAdditionalSpecFns;

use crate::console::Pending;
use crate::selection::Ordered;
use crate::diagnostic::{Diagnostic, Severity};
use crate::digest::{sha256_hex, sha256_of, spec_hex};
use crate::text::{
    chars_of, decimal, join, push_decimal, push_join, push_str, starts_with, str_eq, string_of, views,
};

verus! {

pub const BATCHES: &'static str = "docs/authority/batches";

/// The target that asks for recovery: `war sign --batch recover:<id>`.
pub const RECOVER_PREFIX: &'static str = "recover:";

/// The marker's own schema.
pub const RECORDING_SCHEMA: &'static str = "oh.war/batch-recording/v1";

/// What a listed path was before the batch began, when it did not exist.
pub const ABSENT: &'static str = "absent";

/// `docs/authority/batches/<id>.recording`: what a recording batch may
/// write, and what each path was before it began.
#[derive(Debug, Clone, PartialEq, Eq)]
pub struct Marker {
    pub schema: String,
    pub batch_id: String,
    /// Each directory the batch writes into, restored whole.
    pub roots: Vec<Root>,
    /// Every path the batch may write, with its prior digest or `absent`.
    pub paths: Vec<Listed>,
}

#[derive(Debug, Clone, PartialEq, Eq)]
pub struct Root {
    /// Repository-relative.
    pub dir: String,
    /// Where its prior bytes are, under `<id>.recording.d/`; none when the
    /// directory did not exist.
    pub copy: Option<String>,
}

#[derive(Debug, Clone, PartialEq, Eq)]
pub struct Listed {
    /// Repository-relative.
    pub path: String,
    /// `sha256:<hex>` of the prior bytes, or `absent`.
    pub prior: String,
}

pub open spec fn spec_act_word(p: Pending) -> Seq<char> {
    match p {
        Pending::Authorize { .. } => "authorize"@,
        Pending::Resolve { .. } => "resolve"@,
        Pending::Correct { .. } => "correct"@,
        Pending::Accept { .. } => "accept"@,
    }
}

/// The act word a batch document lists an act under.
pub fn act_word(p: &Pending) -> (r: &'static str)
    ensures
        r@ == spec_act_word(*p),
{
    match p {
        Pending::Authorize { .. } => "authorize",
        Pending::Resolve { .. } => "resolve",
        Pending::Correct { .. } => "correct",
        Pending::Accept { .. } => "accept",
    }
}

/// Who would sign an act, and in which role.
#[derive(Debug, Clone, PartialEq, Eq)]
pub struct Signer {
    pub actor: String,
    pub role: String,
}

/// The first act that is not a SAS acceptance fixes the batch's signer; an
/// act joins when it is not a SAS acceptance and has that same signer and
/// role. `None` stands for a SAS acceptance.
pub open spec fn batch_signer(signers: Seq<Option<(Seq<char>, Seq<char>)>>) -> Option<
    (Seq<char>, Seq<char>),
>
    decreases signers.len(),
{
    if signers.len() == 0 {
        None
    } else if signers[0] is Some {
        signers[0]
    } else {
        batch_signer(signers.drop_first())
    }
}

pub open spec fn signer_view(s: Option<Signer>) -> Option<(Seq<char>, Seq<char>)> {
    match s {
        Some(x) => Some((x.actor@, x.role@)),
        None => None,
    }
}

/// Which acts join the batch: those signed by the batch's one signer in its
/// one role. The rest are left out and named.
pub fn batch_members(signers: &Vec<Option<Signer>>) -> (r: Vec<bool>)
    ensures
        r.len() == signers.len(),
        forall|i: int|
            0 <= i < r.len() ==> r@[i] == (signer_view(signers@[i]) is Some && signer_view(
                signers@[i],
            ) == batch_signer(signers@.map_values(|s: Option<Signer>| signer_view(s)))),
{
    let ghost sv = signers@.map_values(|s: Option<Signer>| signer_view(s));
    let mut first: Option<usize> = None;
    let mut i: usize = 0;
    assert(sv.skip(0) =~= sv);
    while i < signers.len() && first.is_none()
        invariant
            i <= signers.len(),
            sv == signers@.map_values(|s: Option<Signer>| signer_view(s)),
            first matches Some(k) ==> k < signers.len() && signers@[k as int] is Some
                && batch_signer(sv) == sv[k as int],
            first is None ==> batch_signer(sv) == batch_signer(sv.skip(i as int)),
        decreases signers.len() - i,
    {
        proof {
            assert(sv.skip(i as int)[0] == sv[i as int]);
            assert(sv.skip(i as int).drop_first() =~= sv.skip(i + 1));
        }
        if signers[i].is_some() {
            first = Some(i);
        }
        i = i + 1;
    }
    if first.is_none() {
        proof {
            assert(sv.skip(i as int).len() == 0);
        }
    }
    let mut out: Vec<bool> = Vec::new();
    let mut j: usize = 0;
    while j < signers.len()
        invariant
            j <= signers.len(),
            out.len() == j,
            sv == signers@.map_values(|s: Option<Signer>| signer_view(s)),
            first matches Some(k) ==> k < signers.len() && signers@[k as int] is Some
                && batch_signer(sv) == sv[k as int],
            first is None ==> batch_signer(sv) is None,
            forall|t: int|
                0 <= t < j ==> out@[t] == (sv[t] is Some && sv[t] == batch_signer(sv)),
        decreases signers.len() - j,
    {
        let joins = match (&signers[j], first) {
            (Some(s), Some(k)) => {
                match &signers[k] {
                    Some(f) => str_eq(s.actor.as_str(), f.actor.as_str()) && str_eq(
                        s.role.as_str(),
                        f.role.as_str(),
                    ),
                    None => false,
                }
            },
            _ => false,
        };
        out.push(joins);
        j = j + 1;
    }
    proof {
        assert forall|t: int| 0 <= t < out.len() implies out@[t] == (signer_view(signers@[t]) is Some
            && signer_view(signers@[t]) == batch_signer(
            signers@.map_values(|s: Option<Signer>| signer_view(s)),
        )) by {
            assert(sv[t] == signer_view(signers@[t]));
        }
    }
    out
}

/// Whether a marker's root lies at or under `rel`.
pub open spec fn touches_dir(dir: Seq<char>, rel: Seq<char>) -> bool {
    dir == rel || starts_with(dir, rel + "/"@)
}

/// Whether a marker lists a root at or under the repository-relative
/// directory `rel`.
pub fn touches(m: &Marker, rel: &str) -> (r: bool)
    ensures
        r == exists|i: int| 0 <= i < m.roots@.len() && touches_dir(#[trigger] m.roots@[i].dir@, rel@),
{
    let mut under = chars_of(rel);
    push_str(&mut under, "/");
    let mut i: usize = 0;
    while i < m.roots.len()
        invariant
            i <= m.roots.len(),
            under@ == rel@ + "/"@,
            forall|j: int| 0 <= j < i ==> !touches_dir(#[trigger] m.roots@[j].dir@, rel@),
        decreases m.roots.len() - i,
    {
        let d = chars_of(m.roots[i].dir.as_str());
        if str_eq(m.roots[i].dir.as_str(), rel) || crate::text::has_prefix(&d, &under) {
            return true;
        }
        i = i + 1;
    }
    false
}

/// A marker that does not parse is still a marker: the batch it belonged to
/// is still unfinished, and it is named by its file.
pub fn unreadable_marker(stem: &str) -> (m: Marker)
    ensures
        m.schema@ == RECORDING_SCHEMA@,
        m.batch_id@ == stem@,
        m.roots.len() == 0,
        m.paths.len() == 0,
{
    Marker {
        schema: string_of(&chars_of(RECORDING_SCHEMA)),
        batch_id: string_of(&chars_of(stem)),
        roots: Vec::new(),
        paths: Vec::new(),
    }
}

/// Whether a marker reads as this tool's recording for batch `id`; only then
/// is anything restored from it.
pub fn recoverable(m: &Marker, id: &str) -> (r: bool)
    ensures
        r == (m.schema@ == RECORDING_SCHEMA@ && m.batch_id@ == id@),
{
    str_eq(m.schema.as_str(), RECORDING_SCHEMA) && str_eq(m.batch_id.as_str(), id)
}

/// The batch a `recover:<id>` target names.
pub fn recover_target(target: &str) -> (r: Option<String>)
    ensures
        match r {
            Some(id) => starts_with(target@, RECOVER_PREFIX@) && id@ == target@.skip(
                RECOVER_PREFIX@.len() as int,
            ),
            None => !starts_with(target@, RECOVER_PREFIX@),
        },
{
    let t = chars_of(target);
    let p = chars_of(RECOVER_PREFIX);
    if crate::text::has_prefix(&t, &p) {
        let rest = crate::text::slice_of(&t, p.len(), t.len());
        Some(string_of(&rest))
    } else {
        None
    }
}

pub open spec fn listed_paths(m: Marker) -> Seq<Seq<char>> {
    m.paths@.map_values(|l: Listed| l.path@)
}

/// `batch.interrupted`'s message: the batch, every path it lists, the undo.
pub open spec fn spec_interrupted_message(m: Marker) -> Seq<char> {
    "batch "@ + m.batch_id@
        + " began recording and never finished: the process stopped between its first record and its last, so what it recorded is a list with a hole in it. Paths it may have written: "@
        + (if m.paths@.len() == 0 {
        "(the marker does not parse; its roots cannot be read)"@
    } else {
        join(listed_paths(m), ", "@)
    }) + ". `war sign --batch "@ + RECOVER_PREFIX@ + m.batch_id@
        + "` restores each to its prior bytes and keeps the batch as .refused.json; no batch records until then"@
}

/// The message of the diagnostic an interrupted batch earns.
pub fn interrupted_message(m: &Marker) -> (r: String)
    ensures
        r@ == spec_interrupted_message(*m),
{
    let mut v = chars_of("batch ");
    push_str(&mut v, m.batch_id.as_str());
    push_str(
        &mut v,
        " began recording and never finished: the process stopped between its first record and its last, so what it recorded is a list with a hole in it. Paths it may have written: ",
    );
    if m.paths.len() == 0 {
        push_str(&mut v, "(the marker does not parse; its roots cannot be read)");
    } else {
        let mut ps: Vec<Vec<char>> = Vec::new();
        let mut i: usize = 0;
        while i < m.paths.len()
            invariant
                i <= m.paths.len(),
                views(ps@) == listed_paths(*m).take(i as int),
            decreases m.paths.len() - i,
        {
            let c = chars_of(m.paths[i].path.as_str());
            let ghost before = ps@;
            ps.push(c);
            proof {
                assert(views(ps@) =~= views(before).push(c@));
                assert(listed_paths(*m).take(i + 1) =~= listed_paths(*m).take(i as int).push(
                    m.paths@[i as int].path@,
                ));
            }
            i = i + 1;
        }
        push_join(&mut v, &ps, ps.len(), ", ");
        proof {
            assert(views(ps@).take(ps.len() as int) =~= listed_paths(*m));
        }
    }
    push_str(&mut v, ". `war sign --batch ");
    push_str(&mut v, RECOVER_PREFIX);
    push_str(&mut v, m.batch_id.as_str());
    push_str(
        &mut v,
        "` restores each to its prior bytes and keeps the batch as .refused.json; no batch records until then",
    );
    proof {
        assert(v@ =~= spec_interrupted_message(*m));
    }
    string_of(&v)
}

/// Whether the target at `i` was named before it.
pub open spec fn named_before(targets: Seq<String>, i: int) -> bool {
    exists|j: int| 0 <= j < i && #[trigger] targets[j]@ == targets[i]@
}

/// The acts a batch over named targets chooses: each target must be named
/// once and await a signature. `found[i]` is the pending act `targets[i]`
/// selects, if any. The first target that fails refuses the batch.
pub open spec fn spec_choose(targets: Seq<String>, found: Seq<Option<usize>>, i: int) -> Result<Seq<usize>, (Seq<char>, Seq<char>, Seq<char>)>
    decreases targets.len() - i,
{
    if i < 0 || i >= targets.len() {
        Ok(seq![])
    } else {
        let t = targets[i]@;
        if named_before(targets, i) {
            Err(("batch.duplicate-act"@, t, t + " is named twice; a batch lists each act once"@))
        } else {
            match found[i] {
                None => Err(("batch.unknown-act"@, t, t + " awaits no signature; `war sign --list` shows what does"@)),
                Some(k) => match spec_choose(targets, found, i + 1) {
                    Ok(rest) => Ok(seq![k] + rest),
                    Err(e) => Err(e),
                },
            }
        }
    }
}

/// The acts a batch over named targets chooses, or the finding that
/// refuses it.
pub fn choose_acts(targets: &Vec<String>, found: &Vec<Option<usize>>) -> (r: Result<Vec<usize>, Diagnostic>)
    requires
        found.len() == targets.len(),
    ensures
        match (r, spec_choose(targets@, found@, 0)) {
            (Ok(ks), Ok(want)) => ks@ == want,
            (Err(d), Err((rule, file, message))) => d.severity == Severity::Error && d.rule@ == rule
                && (d.file matches Some(f) && f@ == file) && d.message@ == message,
            _ => false,
        },
{
    let mut i: usize = 0;
    while i < targets.len()
        invariant
            i <= targets.len(),
            found.len() == targets.len(),
            forall|j: int| 0 <= j < i ==> !named_before(targets@, j) && #[trigger] found@[j] is Some,
        decreases targets.len() - i,
    {
        let mut seen = false;
        let mut j: usize = 0;
        while j < i
            invariant
                j <= i < targets.len(),
                seen == exists|q: int| 0 <= q < j && #[trigger] targets@[q]@ == targets@[i as int]@,
            decreases i - j,
        {
            if str_eq(targets[j].as_str(), targets[i].as_str()) {
                seen = true;
            }
            j = j + 1;
        }
        if seen {
            let mut m = chars_of(targets[i].as_str());
            push_str(&mut m, " is named twice; a batch lists each act once");
            proof {
                lemma_choose_fails_at(targets@, found@, i as int);
            }
            return Err(Diagnostic::error("batch.duplicate-act", targets[i].as_str(), string_of(&m).as_str()));
        }
        if found[i].is_none() {
            let mut m = chars_of(targets[i].as_str());
            push_str(&mut m, " awaits no signature; `war sign --list` shows what does");
            proof {
                lemma_choose_fails_at(targets@, found@, i as int);
            }
            return Err(Diagnostic::error("batch.unknown-act", targets[i].as_str(), string_of(&m).as_str()));
        }
        i = i + 1;
    }
    let mut ks: Vec<usize> = Vec::new();
    let mut k: usize = targets.len();
    proof {
        lemma_choose_succeeds(targets@, found@, targets.len() as int);
    }
    while k > 0
        invariant
            k <= targets.len(),
            found.len() == targets.len(),
            forall|j: int| 0 <= j < targets.len() ==> !named_before(targets@, j) && #[trigger] found@[j] is Some,
            spec_choose(targets@, found@, k as int) == Ok::<Seq<usize>, (Seq<char>, Seq<char>, Seq<char>)>(ks@),
        decreases k,
    {
        k = k - 1;
        let f = match found[k] {
            Some(f) => f,
            None => { return Ok(ks); },
        };
        let ghost before = ks@;
        ks.insert(0, f);
        proof {
            assert(ks@ =~= seq![f] + before);
        }
    }
    Ok(ks)
}

proof fn lemma_choose_fails_at(targets: Seq<String>, found: Seq<Option<usize>>, i: int)
    requires
        0 <= i < targets.len(),
        found.len() == targets.len(),
        forall|j: int| 0 <= j < i ==> !named_before(targets, j) && #[trigger] found[j] is Some,
        named_before(targets, i) || found[i] is None,
    ensures
        spec_choose(targets, found, 0) == spec_choose(targets, found, i),
        spec_choose(targets, found, i) is Err,
    decreases i,
{
    if i > 0 {
        lemma_choose_fails_at_from(targets, found, 0, i);
    }
}

proof fn lemma_choose_fails_at_from(targets: Seq<String>, found: Seq<Option<usize>>, s: int, i: int)
    requires
        0 <= s <= i < targets.len(),
        found.len() == targets.len(),
        forall|j: int| 0 <= j < i ==> !named_before(targets, j) && #[trigger] found[j] is Some,
        named_before(targets, i) || found[i] is None,
    ensures
        spec_choose(targets, found, s) == spec_choose(targets, found, i),
    decreases i - s,
{
    if s < i {
        lemma_choose_fails_at_from(targets, found, s + 1, i);
        assert(!named_before(targets, s) && found[s] is Some);
    }
}

proof fn lemma_choose_succeeds(targets: Seq<String>, found: Seq<Option<usize>>, n: int)
    requires
        n == targets.len(),
        found.len() == targets.len(),
        forall|j: int| 0 <= j < n ==> !named_before(targets, j) && #[trigger] found[j] is Some,
    ensures
        spec_choose(targets, found, n) == Ok::<Seq<usize>, (Seq<char>, Seq<char>, Seq<char>)>(seq![]),
{
}

/// `batch.recover-alone`: recovery named beside other targets.
pub fn recover_alone(id: &str) -> (d: Diagnostic)
    ensures
        d.severity == Severity::Error,
        d.rule@ == "batch.recover-alone"@,
        d.file matches Some(f) && f@ == "war sign --batch"@,
        d.message@ == RECOVER_PREFIX@ + id@ + " is named with other targets; recovery is its own act"@,
{
    let mut m = chars_of(RECOVER_PREFIX);
    push_str(&mut m, id);
    push_str(&mut m, " is named with other targets; recovery is its own act");
    Diagnostic::error("batch.recover-alone", "war sign --batch", string_of(&m).as_str())
}

/// `now` without its `:` and `-` separators.
pub open spec fn compact(now: Seq<char>) -> Seq<char>
    decreases now.len(),
{
    if now.len() == 0 {
        seq![]
    } else {
        let rest = compact(now.drop_last());
        if now.last() != ':' && now.last() != '-' {
            rest.push(now.last())
        } else {
            rest
        }
    }
}

/// A batch's id: `B-`, the drafting time without separators, `-`, and the
/// first eight hex digits of the SHA-256 of the batch document as drafted
/// with an empty id (`seed`).
pub fn batch_id(now: &str, seed: &str) -> (r: String)
    ensures
        r@ == "B-"@ + compact(now@) + "-"@ + spec_hex(sha256_of(seed.spec_bytes())).take(8),
{
    let v = chars_of(now);
    let mut out = chars_of("B-");
    let ghost head = out@;
    let mut i: usize = 0;
    while i < v.len()
        invariant
            i <= v.len(),
            v@ == now@,
            out@ == head + compact(v@.take(i as int)),
        decreases v.len() - i,
    {
        proof {
            assert(v@.take(i + 1).drop_last() =~= v@.take(i as int));
            assert(v@.take(i + 1).last() == v@[i as int]);
        }
        let c = v[i];
        if c != ':' && c != '-' {
            out.push(c);
        }
        i = i + 1;
    }
    proof {
        assert(v@.take(v.len() as int) =~= v@);
    }
    out.push('-');
    let digest = sha256_hex(seed.as_bytes());
    let d = chars_of(digest.as_str());
    let head8 = crate::text::slice_of(&d, 0, 8);
    crate::text::push_all(&mut out, &head8);
    proof {
        reveal_strlit("-");
        assert(head8@ =~= spec_hex(sha256_of(seed.spec_bytes())).take(8));
        assert(out@ =~= "B-"@ + compact(now@) + "-"@ + spec_hex(sha256_of(seed.spec_bytes())).take(8));
    }
    string_of(&out)
}

/// `batch.would-record`: what a dry run of the batch would record, one act
/// per `(act, target)`.
pub fn would_record(actor: &str, role: &str, acts: &Vec<(String, String)>) -> (d: Diagnostic)
    ensures
        d.severity == Severity::Pass,
        d.rule@ == "batch.would-record"@,
        d.file is None,
        d.message@ == decimal(acts.len() as nat) + " act(s) as "@ + actor@ + " ("@ + role@ + "), one signature: "@
            + join(acts@.map_values(|a: (String, String)| a.0@ + " "@ + a.1@), ", "@),
{
    let mut parts: Vec<Vec<char>> = Vec::new();
    let mut i: usize = 0;
    while i < acts.len()
        invariant
            i <= acts.len(),
            parts.len() == i,
            forall|j: int| 0 <= j < i ==> #[trigger] parts@[j]@ == acts@[j].0@ + " "@ + acts@[j].1@,
        decreases acts.len() - i,
    {
        let mut p = chars_of(acts[i].0.as_str());
        push_str(&mut p, " ");
        push_str(&mut p, acts[i].1.as_str());
        parts.push(p);
        i = i + 1;
    }
    let mut m: Vec<char> = Vec::new();
    push_decimal(&mut m, acts.len() as u64);
    push_str(&mut m, " act(s) as ");
    push_str(&mut m, actor);
    push_str(&mut m, " (");
    push_str(&mut m, role);
    push_str(&mut m, "), one signature: ");
    push_join(&mut m, &parts, parts.len(), ", ");
    proof {
        assert(views(parts@).take(parts.len() as int) =~= acts@.map_values(|a: (String, String)| a.0@ + " "@ + a.1@));
    }
    Diagnostic::pass("batch.would-record", string_of(&m).as_str())
}

/// Why an act is left out of the batch: a SAS acceptance signs alone, and
/// an act for another signer or role is a second batch. `line` is how the
/// act is listed.
pub fn left_out_acceptance(line: &str, target: &str) -> (r: String)
    ensures
        r@ == line@ + " — a SAS acceptance signs alone: `war sign "@ + target@ + " --ssh-sign`"@,
{
    let mut m = chars_of(line);
    push_str(&mut m, " — a SAS acceptance signs alone: `war sign ");
    push_str(&mut m, target);
    push_str(&mut m, " --ssh-sign`");
    string_of(&m)
}

/// Why an act for another signer or role is left out.
pub fn left_out_signer(line: &str, actor: &str, role: &str, batch_actor: &str, batch_role: &str) -> (r: String)
    ensures
        r@ == line@ + " — "@ + actor@ + " as "@ + role@ + "; this batch is "@ + batch_actor@ + " as "@ + batch_role@
            + ": a second batch"@,
{
    let mut m = chars_of(line);
    push_str(&mut m, " — ");
    push_str(&mut m, actor);
    push_str(&mut m, " as ");
    push_str(&mut m, role);
    push_str(&mut m, "; this batch is ");
    push_str(&mut m, batch_actor);
    push_str(&mut m, " as ");
    push_str(&mut m, batch_role);
    push_str(&mut m, ": a second batch");
    string_of(&m)
}

/// A listed path, ordered by its path alone (the order `sort_by` on the
/// path gives, which keeps equal paths in the order they came).
impl crate::selection::Ordered for Listed {
    type R = (Seq<char>, Seq<char>);

    open spec fn record(&self) -> (Seq<char>, Seq<char>) {
        (self.path@, self.prior@)
    }

    open spec fn before(a: (Seq<char>, Seq<char>), b: (Seq<char>, Seq<char>)) -> bool {
        crate::text::lex_lt(a.0, b.0)
    }

    fn is_less(&self, other: &Self) -> (r: bool) {
        crate::text::lex_less(&chars_of(self.path.as_str()), &chars_of(other.path.as_str()))
    }
}

/// `dedup_by` on the path: of a run of entries with one path, the first
/// stays.
pub open spec fn dedup_paths(s: Seq<(Seq<char>, Seq<char>)>) -> Seq<(Seq<char>, Seq<char>)>
    decreases s.len(),
{
    if s.len() == 0 {
        seq![]
    } else if s.len() >= 2 && s[s.len() - 2].0 == s.last().0 {
        dedup_paths(s.drop_last())
    } else {
        dedup_paths(s.drop_last()).push(s.last())
    }
}

/// The paths a recording marker lists: sorted by path, each path once, the
/// first listing of a path kept (a file's digest before a later `absent`).
pub fn marker_paths(listed: Vec<Listed>) -> (r: Vec<Listed>)
    ensures
        crate::selection::records(r@) == dedup_paths(
            crate::selection::sort_ordered::<Listed>(crate::selection::records(listed@)),
        ),
{
    let sorted = crate::selection::sorted(listed);
    let ghost srt = crate::selection::records(sorted@);
    let mut out: Vec<Listed> = Vec::new();
    let mut rest = sorted;
    let n = rest.len();
    let mut i: usize = 0;
    proof {
        assert(crate::selection::records(rest@) =~= srt.skip(0));
        assert(crate::selection::records(out@) =~= dedup_paths(srt.take(0)));
    }
    while i < n
        invariant
            i <= n,
            n == srt.len(),
            rest.len() == n - i,
            crate::selection::records(rest@) == srt.skip(i as int),
            crate::selection::records(out@) == dedup_paths(srt.take(i as int)),
            i > 0 ==> out.len() > 0 && out@.last().path@ == srt[i - 1].0,
        decreases n - i,
    {
        let ghost before_rest = rest@;
        let ghost before_out = crate::selection::records(out@);
        let x = rest.remove(0);
        proof {
            assert(crate::selection::records(before_rest)[0] == x.record());
            assert(x.record() == srt[i as int]);
            assert(crate::selection::records(rest@) =~= crate::selection::records(before_rest).drop_first());
            assert(crate::selection::records(rest@) =~= srt.skip(i + 1));
            assert(srt.take(i + 1).drop_last() =~= srt.take(i as int));
            assert(srt.take(i + 1).last() == srt[i as int]);
            if i > 0 {
                assert(srt.take(i + 1)[i - 1] == srt[i - 1]);
            }
        }
        let dup = out.len() > 0 && crate::text::str_eq(out[out.len() - 1].path.as_str(), x.path.as_str());
        proof {
            if i == 0 {
                assert(out.len() == 0) by {
                    assert(dedup_paths(srt.take(0)).len() == 0);
                }
            }
        }
        if !dup {
            out.push(x);
            proof {
                assert(crate::selection::records(out@) =~= before_out.push(srt[i as int]));
            }
        }
        i = i + 1;
    }
    proof {
        assert(srt.take(n as int) =~= srt);
    }
    out
}

// ---------------------------------------------------------------------------
// The batch protocol: all of it or none
// ---------------------------------------------------------------------------

/// Where a batch stands.
#[derive(Debug, Clone, Copy, PartialEq, Eq, Structural)]
pub enum BatchPhase {
    /// Nothing asked yet.
    Begin,
    /// The acts are being chosen and drafted.
    Drafting,
    /// Every draft is being judged by its act's own ingest, in dry run.
    Judging,
    /// The batch document is written and its one dialog asked.
    Signing,
    /// Every draft is judged again after the dialog.
    Rejudging,
    /// The prior bytes are being kept beside a durable marker.
    Keeping,
    /// Acts are being recorded, one after another.
    Recording,
    /// A refusal mid-way: the prior bytes are being put back.
    Restoring,
    /// The batch is over, recorded or refused.
    Done,
}

/// A batch's state: its phase, whether it is a dry run, how many acts it
/// holds and how many are recorded.
#[derive(Debug, Clone, Copy, PartialEq, Eq, Structural)]
pub struct BatchState {
    pub phase: BatchPhase,
    pub dry_run: bool,
    pub total: u64,
    pub recorded: u64,
}

/// What the outside work of the last step found.
#[derive(Debug, Clone, Copy, PartialEq, Eq, Structural)]
pub enum BatchEvent {
    /// The command began: whether `--ssh-sign` and `--dry-run` were given,
    /// and whether an interrupted batch's marker is on disk.
    Started { ssh_sign: bool, dry_run: bool, interrupted: bool },
    /// The acts were chosen and drafted: how many drafts there are.
    Drafted { drafts: u64 },
    /// Every draft was judged: whether every one would be recorded.
    Judged { all_ready: bool },
    /// The dialog ended: whether the batch document is signed.
    Signed { signed: bool },
    /// Every draft was judged again: whether every one still would be.
    Rejudged { all_ready: bool },
    /// The marker and the prior bytes: whether both were kept.
    Kept { kept: bool },
    /// One act was recorded through its ingest: whether it was.
    Recorded { ok: bool },
    /// The prior bytes were put back: whether all of them were.
    Restored { ok: bool },
}

/// Why a batch is refused, by rule.
#[derive(Debug, Clone, Copy, PartialEq, Eq, Structural)]
pub enum BatchRefusal {
    /// `batch.needs-ssh`: neither signing nor a dry run was asked for.
    NeedsSsh,
    /// `batch.empty`: no act can be batched.
    Empty,
    /// `batch.refused`: an act would be refused; nothing was signed.
    Refused,
    /// `batch.signature`: the dialog was refused; nothing stays.
    Signature,
    /// `batch.digest-moved`: a record moved while the dialog waited.
    DigestMoved,
    /// `batch.incomplete`: nothing is recorded and the prior bytes stand.
    Incomplete,
    /// `batch.incomplete`, with the restore failed too: the marker stays.
    IncompleteMarkerStays,
}

impl BatchRefusal {
    pub open spec fn spec_rule(self) -> Seq<char> {
        match self {
            BatchRefusal::NeedsSsh => "batch.needs-ssh"@,
            BatchRefusal::Empty => "batch.empty"@,
            BatchRefusal::Refused => "batch.refused"@,
            BatchRefusal::Signature => "batch.signature"@,
            BatchRefusal::DigestMoved => "batch.digest-moved"@,
            BatchRefusal::Incomplete => "batch.incomplete"@,
            BatchRefusal::IncompleteMarkerStays => "batch.incomplete"@,
        }
    }

    /// The refusal's rule.
    pub fn rule(self) -> (r: &'static str)
        ensures
            r@ == self.spec_rule(),
    {
        match self {
            BatchRefusal::NeedsSsh => "batch.needs-ssh",
            BatchRefusal::Empty => "batch.empty",
            BatchRefusal::Refused => "batch.refused",
            BatchRefusal::Signature => "batch.signature",
            BatchRefusal::DigestMoved => "batch.digest-moved",
            BatchRefusal::Incomplete => "batch.incomplete",
            BatchRefusal::IncompleteMarkerStays => "batch.incomplete",
        }
    }
}

/// What the command does next.
#[derive(Debug, Clone, Copy, PartialEq, Eq, Structural)]
pub enum BatchAction {
    /// Report every interrupted batch's marker, and do nothing else.
    ReportInterrupted,
    /// Choose the acts and draft each one's response.
    Draft,
    /// Judge every draft with its act's ingest in dry run.
    Judge,
    /// A dry run that would pass: remove the drafts and report
    /// `batch.would-record`.
    WouldRecord,
    /// Write the batch document and ask its one dialog.
    Sign,
    /// Judge every draft again.
    Rejudge,
    /// Write the marker and keep the prior bytes.
    Keep,
    /// Record the next act.
    RecordNext,
    /// Put the prior bytes back.
    Restore,
    /// Report `batch.recorded`, attest the batch, and remove the marker.
    Finish,
    /// Refuse the batch. `discard` removes every draft; `remove_batch`
    /// removes the unsigned batch document; `keep_refused` keeps the signed
    /// batch as `.refused.json`; `finish_marker` removes the marker once the
    /// prior bytes are back.
    Refuse { why: BatchRefusal, discard: bool, remove_batch: bool, keep_refused: bool, finish_marker: bool },
    /// Nothing: the event does not belong to this phase.
    Nothing,
}

pub open spec fn at(s: BatchState, phase: BatchPhase) -> BatchState {
    BatchState { phase, ..s }
}

pub open spec fn refuse(why: BatchRefusal, discard: bool, remove_batch: bool, keep_refused: bool, finish_marker: bool) -> BatchAction {
    BatchAction::Refuse { why, discard, remove_batch, keep_refused, finish_marker }
}

/// The batch protocol, one step: from a state and what the last outside
/// work found, the next state and what to do.
pub open spec fn spec_batch_next(s: BatchState, e: BatchEvent) -> (BatchState, BatchAction) {
    match (s.phase, e) {
        (BatchPhase::Begin, BatchEvent::Started { ssh_sign, dry_run, interrupted }) => if interrupted {
            (at(s, BatchPhase::Done), BatchAction::ReportInterrupted)
        } else if !ssh_sign && !dry_run {
            (at(s, BatchPhase::Done), refuse(BatchRefusal::NeedsSsh, false, false, false, false))
        } else {
            (BatchState { phase: BatchPhase::Drafting, dry_run, total: 0, recorded: 0 }, BatchAction::Draft)
        },
        (BatchPhase::Drafting, BatchEvent::Drafted { drafts }) => if drafts == 0 {
            (at(s, BatchPhase::Done), refuse(BatchRefusal::Empty, false, false, false, false))
        } else {
            (BatchState { phase: BatchPhase::Judging, total: drafts, recorded: 0, ..s }, BatchAction::Judge)
        },
        (BatchPhase::Judging, BatchEvent::Judged { all_ready }) => if !all_ready {
            (at(s, BatchPhase::Done), refuse(BatchRefusal::Refused, true, false, false, false))
        } else if s.dry_run {
            (at(s, BatchPhase::Done), BatchAction::WouldRecord)
        } else {
            (at(s, BatchPhase::Signing), BatchAction::Sign)
        },
        (BatchPhase::Signing, BatchEvent::Signed { signed }) => if !signed {
            (at(s, BatchPhase::Done), refuse(BatchRefusal::Signature, true, true, false, false))
        } else {
            (at(s, BatchPhase::Rejudging), BatchAction::Rejudge)
        },
        (BatchPhase::Rejudging, BatchEvent::Rejudged { all_ready }) => if !all_ready {
            (at(s, BatchPhase::Done), refuse(BatchRefusal::DigestMoved, true, false, true, false))
        } else {
            (at(s, BatchPhase::Keeping), BatchAction::Keep)
        },
        (BatchPhase::Keeping, BatchEvent::Kept { kept }) => if !kept {
            (at(s, BatchPhase::Done), refuse(BatchRefusal::Incomplete, true, false, true, false))
        } else {
            (BatchState { phase: BatchPhase::Recording, recorded: 0, ..s }, BatchAction::RecordNext)
        },
        (BatchPhase::Recording, BatchEvent::Recorded { ok }) => if !ok {
            (at(s, BatchPhase::Restoring), BatchAction::Restore)
        } else if s.recorded + 1 >= s.total {
            (BatchState { phase: BatchPhase::Done, recorded: s.total, ..s }, BatchAction::Finish)
        } else {
            (BatchState { recorded: (s.recorded + 1) as u64, ..s }, BatchAction::RecordNext)
        },
        (BatchPhase::Restoring, BatchEvent::Restored { ok }) => if ok {
            (at(s, BatchPhase::Done), refuse(BatchRefusal::Incomplete, true, false, true, true))
        } else {
            (at(s, BatchPhase::Done), refuse(BatchRefusal::IncompleteMarkerStays, true, false, true, false))
        },
        _ => (s, BatchAction::Nothing),
    }
}

/// The state a batch starts in.
pub fn batch_start() -> (r: BatchState)
    ensures
        r == (BatchState { phase: BatchPhase::Begin, dry_run: false, total: 0, recorded: 0 }),
{
    BatchState { phase: BatchPhase::Begin, dry_run: false, total: 0, recorded: 0 }
}

/// The batch protocol, one step.
pub fn batch_next(state: &BatchState, event: &BatchEvent) -> (r: (BatchState, BatchAction))
    ensures
        r == spec_batch_next(*state, *event),
{
    let s = *state;
    match (s.phase, *event) {
        (BatchPhase::Begin, BatchEvent::Started { ssh_sign, dry_run, interrupted }) => if interrupted {
            (BatchState { phase: BatchPhase::Done, ..s }, BatchAction::ReportInterrupted)
        } else if !ssh_sign && !dry_run {
            (BatchState { phase: BatchPhase::Done, ..s }, BatchAction::Refuse {
                why: BatchRefusal::NeedsSsh, discard: false, remove_batch: false, keep_refused: false, finish_marker: false,
            })
        } else {
            (BatchState { phase: BatchPhase::Drafting, dry_run, total: 0, recorded: 0 }, BatchAction::Draft)
        },
        (BatchPhase::Drafting, BatchEvent::Drafted { drafts }) => if drafts == 0 {
            (BatchState { phase: BatchPhase::Done, ..s }, BatchAction::Refuse {
                why: BatchRefusal::Empty, discard: false, remove_batch: false, keep_refused: false, finish_marker: false,
            })
        } else {
            (BatchState { phase: BatchPhase::Judging, total: drafts, recorded: 0, ..s }, BatchAction::Judge)
        },
        (BatchPhase::Judging, BatchEvent::Judged { all_ready }) => if !all_ready {
            (BatchState { phase: BatchPhase::Done, ..s }, BatchAction::Refuse {
                why: BatchRefusal::Refused, discard: true, remove_batch: false, keep_refused: false, finish_marker: false,
            })
        } else if s.dry_run {
            (BatchState { phase: BatchPhase::Done, ..s }, BatchAction::WouldRecord)
        } else {
            (BatchState { phase: BatchPhase::Signing, ..s }, BatchAction::Sign)
        },
        (BatchPhase::Signing, BatchEvent::Signed { signed }) => if !signed {
            (BatchState { phase: BatchPhase::Done, ..s }, BatchAction::Refuse {
                why: BatchRefusal::Signature, discard: true, remove_batch: true, keep_refused: false, finish_marker: false,
            })
        } else {
            (BatchState { phase: BatchPhase::Rejudging, ..s }, BatchAction::Rejudge)
        },
        (BatchPhase::Rejudging, BatchEvent::Rejudged { all_ready }) => if !all_ready {
            (BatchState { phase: BatchPhase::Done, ..s }, BatchAction::Refuse {
                why: BatchRefusal::DigestMoved, discard: true, remove_batch: false, keep_refused: true, finish_marker: false,
            })
        } else {
            (BatchState { phase: BatchPhase::Keeping, ..s }, BatchAction::Keep)
        },
        (BatchPhase::Keeping, BatchEvent::Kept { kept }) => if !kept {
            (BatchState { phase: BatchPhase::Done, ..s }, BatchAction::Refuse {
                why: BatchRefusal::Incomplete, discard: true, remove_batch: false, keep_refused: true, finish_marker: false,
            })
        } else {
            (BatchState { phase: BatchPhase::Recording, recorded: 0, ..s }, BatchAction::RecordNext)
        },
        (BatchPhase::Recording, BatchEvent::Recorded { ok }) => if !ok {
            (BatchState { phase: BatchPhase::Restoring, ..s }, BatchAction::Restore)
        } else if s.recorded >= s.total || s.total - s.recorded <= 1 {
            (BatchState { phase: BatchPhase::Done, recorded: s.total, ..s }, BatchAction::Finish)
        } else {
            (BatchState { recorded: s.recorded + 1, ..s }, BatchAction::RecordNext)
        },
        (BatchPhase::Restoring, BatchEvent::Restored { ok }) => if ok {
            (BatchState { phase: BatchPhase::Done, ..s }, BatchAction::Refuse {
                why: BatchRefusal::Incomplete, discard: true, remove_batch: false, keep_refused: true, finish_marker: true,
            })
        } else {
            (BatchState { phase: BatchPhase::Done, ..s }, BatchAction::Refuse {
                why: BatchRefusal::IncompleteMarkerStays, discard: true, remove_batch: false, keep_refused: true, finish_marker: false,
            })
        },
        _ => (s, BatchAction::Nothing),
    }
}

/// The state a batch reaches from its start through `es`.
pub open spec fn walk(es: Seq<BatchEvent>) -> BatchState
    decreases es.len(),
{
    if es.len() == 0 {
        BatchState { phase: BatchPhase::Begin, dry_run: false, total: 0, recorded: 0 }
    } else {
        spec_batch_next(walk(es.drop_last()), es.last()).0
    }
}

/// What the `k`th event of `es` makes the batch do.
pub open spec fn action_at(es: Seq<BatchEvent>, k: int) -> BatchAction {
    spec_batch_next(walk(es.take(k)), es[k]).1
}

/// Whether the batch was judged whole, signed, judged whole again, and its
/// prior bytes kept, all within `es`.
pub open spec fn cleared_to_record(es: Seq<BatchEvent>) -> bool {
    &&& es.contains(BatchEvent::Judged { all_ready: true })
    &&& es.contains(BatchEvent::Signed { signed: true })
    &&& es.contains(BatchEvent::Rejudged { all_ready: true })
    &&& es.contains(BatchEvent::Kept { kept: true })
}

proof fn lemma_contains_push(es: Seq<BatchEvent>, x: BatchEvent, y: BatchEvent)
    ensures
        es.contains(y) ==> es.push(x).contains(y),
        es.push(x).contains(x),
{
    vstd::seq_lib::lemma_seq_contains_after_push(es, x, y);
    vstd::seq_lib::lemma_seq_contains_after_push(es, x, x);
}

proof fn lemma_walk_phases(es: Seq<BatchEvent>)
    ensures
        walk(es).phase == BatchPhase::Rejudging ==> es.contains(BatchEvent::Judged { all_ready: true })
            && es.contains(BatchEvent::Signed { signed: true }),
        walk(es).phase == BatchPhase::Keeping ==> es.contains(BatchEvent::Judged { all_ready: true })
            && es.contains(BatchEvent::Signed { signed: true }) && es.contains(
            BatchEvent::Rejudged { all_ready: true },
        ),
        (walk(es).phase == BatchPhase::Recording || walk(es).phase == BatchPhase::Restoring)
            ==> cleared_to_record(es),
        walk(es).phase == BatchPhase::Signing ==> es.contains(BatchEvent::Judged { all_ready: true }),
    decreases es.len(),
{
    if es.len() > 0 {
        let p = es.drop_last();
        let x = es.last();
        lemma_walk_phases(p);
        assert(p.push(x) =~= es);
        lemma_contains_push(p, x, BatchEvent::Judged { all_ready: true });
        lemma_contains_push(p, x, BatchEvent::Signed { signed: true });
        lemma_contains_push(p, x, BatchEvent::Rejudged { all_ready: true });
        lemma_contains_push(p, x, BatchEvent::Kept { kept: true });
    }
}

/// All or nothing: an act is recorded, and a batch reported recorded, only
/// after every draft was judged ready, the batch document was signed, every
/// draft was judged ready again after the dialog, and the prior bytes were
/// kept.
pub proof fn lemma_records_only_when_cleared(es: Seq<BatchEvent>, k: int)
    requires
        0 <= k < es.len(),
        action_at(es, k) == BatchAction::RecordNext || action_at(es, k) == BatchAction::Finish,
    ensures
        cleared_to_record(es.take(k + 1)),
{
    let p = es.take(k);
    lemma_walk_phases(p);
    assert(es.take(k + 1) =~= p.push(es[k]));
    lemma_contains_push(p, es[k], BatchEvent::Judged { all_ready: true });
    lemma_contains_push(p, es[k], BatchEvent::Signed { signed: true });
    lemma_contains_push(p, es[k], BatchEvent::Rejudged { all_ready: true });
    lemma_contains_push(p, es[k], BatchEvent::Kept { kept: true });
}

/// A dry-run refusal refuses the batch: `batch.refused`, every draft
/// removed, and nothing signed.
pub proof fn lemma_dry_run_refusal_signs_nothing(s: BatchState)
    requires
        s.phase == BatchPhase::Judging,
    ensures
        spec_batch_next(s, BatchEvent::Judged { all_ready: false }) == (
            at(s, BatchPhase::Done),
            refuse(BatchRefusal::Refused, true, false, false, false),
        ),
{
}

/// A refused dialog leaves nothing: `batch.signature`, the drafts and the
/// unsigned batch document removed.
pub proof fn lemma_refused_dialog_leaves_nothing(s: BatchState)
    requires
        s.phase == BatchPhase::Signing,
    ensures
        spec_batch_next(s, BatchEvent::Signed { signed: false }) == (
            at(s, BatchPhase::Done),
            refuse(BatchRefusal::Signature, true, true, false, false),
        ),
{
}

/// A record that moved while the dialog waited refuses the whole batch:
/// `batch.digest-moved`, nothing recorded, the signed batch kept as
/// refused.
pub proof fn lemma_moved_record_refuses_the_batch(s: BatchState)
    requires
        s.phase == BatchPhase::Rejudging,
    ensures
        spec_batch_next(s, BatchEvent::Rejudged { all_ready: false }) == (
            at(s, BatchPhase::Done),
            refuse(BatchRefusal::DigestMoved, true, false, true, false),
        ),
{
}

/// A refusal mid-recording puts the prior bytes back, and the batch ends
/// `batch.incomplete` whether or not the restore succeeds; the marker is
/// removed only when it did.
pub proof fn lemma_failed_record_restores(s: BatchState, ok: bool)
    requires
        s.phase == BatchPhase::Recording,
    ensures
        spec_batch_next(s, BatchEvent::Recorded { ok: false }) == (at(s, BatchPhase::Restoring), BatchAction::Restore),
        spec_batch_next(at(s, BatchPhase::Restoring), BatchEvent::Restored { ok }).1 matches BatchAction::Refuse {
            why,
            finish_marker,
            ..
        } && why.spec_rule() == "batch.incomplete"@ && finish_marker == ok,
{
}

/// The words a batch refusal is reported with. `why` is what the outside
/// work said (the dialog's refusal, the failed keep, the act that failed);
/// `restore_error`, `marker` and `batch_id` name a failed restore.
pub open spec fn spec_refusal_message(
    r: BatchRefusal,
    why: Seq<char>,
    restore_error: Seq<char>,
    marker: Seq<char>,
    batch_id: Seq<char>,
) -> Seq<char> {
    match r {
        BatchRefusal::NeedsSsh => "a batch is signed once with your key: add --ssh-sign (or --dry-run to see it judged)"@,
        BatchRefusal::Empty => "no act can be batched; the ones left out are named above"@,
        BatchRefusal::Refused => "an act in the batch would be refused (above); nothing was signed and every draft is removed"@,
        BatchRefusal::Signature => "not signed; nothing written: "@ + why,
        BatchRefusal::DigestMoved => "a record moved between drafting and the signature; the whole batch is refused, nothing recorded, and the signed batch kept as .refused.json"@,
        BatchRefusal::Incomplete => why
            + ". Nothing is recorded: every directory the batch wrote is restored byte for byte, and the signed batch is kept as .refused.json"@,
        BatchRefusal::IncompleteMarkerStays => why + ". The restore ALSO failed ("@ + restore_error + "); the marker "@ + marker
            + " stays, every batch refuses batch.interrupted until `war sign --batch "@ + RECOVER_PREFIX@ + batch_id
            + "` succeeds"@,
    }
}

pub fn refusal_message(r: BatchRefusal, why: &str, restore_error: &str, marker: &str, batch_id: &str) -> (m: String)
    ensures
        m@ == spec_refusal_message(r, why@, restore_error@, marker@, batch_id@),
{
    let mut out: Vec<char> = Vec::new();
    match r {
        BatchRefusal::NeedsSsh => push_str(&mut out, "a batch is signed once with your key: add --ssh-sign (or --dry-run to see it judged)"),
        BatchRefusal::Empty => push_str(&mut out, "no act can be batched; the ones left out are named above"),
        BatchRefusal::Refused => push_str(&mut out, "an act in the batch would be refused (above); nothing was signed and every draft is removed"),
        BatchRefusal::Signature => {
            push_str(&mut out, "not signed; nothing written: ");
            push_str(&mut out, why);
        },
        BatchRefusal::DigestMoved => push_str(&mut out, "a record moved between drafting and the signature; the whole batch is refused, nothing recorded, and the signed batch kept as .refused.json"),
        BatchRefusal::Incomplete => {
            push_str(&mut out, why);
            push_str(&mut out, ". Nothing is recorded: every directory the batch wrote is restored byte for byte, and the signed batch is kept as .refused.json");
        },
        BatchRefusal::IncompleteMarkerStays => {
            push_str(&mut out, why);
            push_str(&mut out, ". The restore ALSO failed (");
            push_str(&mut out, restore_error);
            push_str(&mut out, "); the marker ");
            push_str(&mut out, marker);
            push_str(&mut out, " stays, every batch refuses batch.interrupted until `war sign --batch ");
            push_str(&mut out, RECOVER_PREFIX);
            push_str(&mut out, batch_id);
            push_str(&mut out, "` succeeds");
        },
    }
    string_of(&out)
}

/// The keep that failed before the first record.
pub fn unkept_message(error: &str) -> (m: String)
    ensures
        m@ == "the prior bytes could not be kept before the first record ("@ + error@
            + "); nothing was recorded, and the signed batch is kept as .refused.json"@,
{
    let mut out = chars_of("the prior bytes could not be kept before the first record (");
    push_str(&mut out, error);
    push_str(&mut out, "); nothing was recorded, and the signed batch is kept as .refused.json");
    string_of(&out)
}

/// `batch.recorded`: every act of the batch recorded under one signature.
pub fn recorded_message(batch_id: &str, recorded: u64, total: u64, batch_path: &str) -> (m: String)
    ensures
        m@ == "batch "@ + batch_id@ + ": "@ + decimal(recorded as nat) + " of "@ + decimal(total as nat)
            + " act(s) recorded under one signature → "@ + batch_path@,
{
    let mut out = chars_of("batch ");
    push_str(&mut out, batch_id);
    push_str(&mut out, ": ");
    push_decimal(&mut out, recorded);
    push_str(&mut out, " of ");
    push_decimal(&mut out, total);
    push_str(&mut out, " act(s) recorded under one signature → ");
    push_str(&mut out, batch_path);
    string_of(&out)
}

} // verus!
