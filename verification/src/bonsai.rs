//! Warrant-bound Bonsai evidence: the authored machine scope of a Warrant,
//! the checks on it, and how a Bonsai run's findings become a verdict.

use vstd::prelude::*;
use crate::text::strs;

use crate::text::{
    chars_of, debug_quoted, debug_str, ends_with, has_char, has_prefix, has_suffix, is_str,
    push_all, push_str, slice_of, split_chars, split_on, starts_with, string_of, trim, trimmed,
    views,
};

verus! {

pub const SCHEMA: &'static str = "oh.war/bonsai-evidence/v1";

pub const SCOPE_SCHEMA: &'static str = "oh.war/bonsai-scope/v1";

/// One path glob of a scope and the obligations it serves.
#[derive(Debug, Clone, PartialEq, Eq)]
pub struct ScopeEntry {
    pub path_glob: String,
    pub obligation_refs: Vec<String>,
}

/// Authored machine scope for one Warrant (`scope.toml`).
#[derive(Debug, Clone, PartialEq, Eq)]
pub struct ScopeContract {
    pub schema: String,
    pub repository: String,
    pub base_ref: String,
    pub policy_path: String,
    pub policy_digest: String,
    pub scope: Vec<ScopeEntry>,
}

/// A path segment other than empty, `.` or `..`.
pub open spec fn segment_ok(s: Seq<char>) -> bool {
    s.len() > 0 && s != seq!['.'] && s != seq!['.', '.']
}

/// A repository-relative path with no empty, `.` or `..` segment, no leading
/// `/` and no backslash.
pub open spec fn spec_safe_relative(p: Seq<char>) -> bool {
    &&& p.len() > 0
    &&& p[0] != '/'
    &&& !p.contains('\\')
    &&& forall|i: int|
        0 <= i < split_on(p, '/').len() ==> segment_ok(#[trigger] split_on(p, '/')[i])
}

pub open spec fn glob_suffix() -> Seq<char> {
    seq!['/', '*', '*']
}

/// A glob with its `/**` suffix removed, when it has one.
pub open spec fn glob_stem(g: Seq<char>) -> Seq<char> {
    if ends_with(g, glob_suffix()) {
        g.subrange(0, g.len() - 3)
    } else {
        g
    }
}

/// An exact safe path, or a safe path followed by `/**`, with no other wildcard.
pub open spec fn spec_safe_glob(g: Seq<char>) -> bool {
    let stem = glob_stem(g);
    spec_safe_relative(stem) && !stem.contains('*') && !stem.contains('?')
}

pub open spec fn is_lower_hex(c: char) -> bool {
    ('0' <= c <= '9') || ('a' <= c <= 'f')
}

/// `sha256:` followed by exactly 64 lowercase hexadecimal characters.
pub open spec fn spec_is_sha256(d: Seq<char>) -> bool {
    let p = "sha256:"@;
    starts_with(d, p) && d.len() - p.len() == 64 && forall|i: int|
        p.len() <= i < d.len() ==> is_lower_hex(#[trigger] d[i])
}

pub fn safe_relative(path: &str) -> (r: bool)
    ensures
        r == spec_safe_relative(path@),
{
    let v = chars_of(path);
    safe_relative_chars(&v)
}

fn safe_relative_chars(v: &Vec<char>) -> (r: bool)
    ensures
        r == spec_safe_relative(v@),
{
    if v.len() == 0 || v[0] == '/' || has_char(v, '\\') {
        return false;
    }
    let parts = split_chars(v, '/');
    let mut i: usize = 0;
    while i < parts.len()
        invariant
            i <= parts.len(),
            views(parts@) == split_on(v@, '/'),
            forall|j: int| 0 <= j < i ==> segment_ok(#[trigger] split_on(v@, '/')[j]),
        decreases parts.len() - i,
    {
        let part = &parts[i];
        assert(part@ == views(parts@)[i as int]);
        let dot = vec!['.'];
        let dotdot = vec!['.', '.'];
        assert(dot@ =~= seq!['.']);
        assert(dotdot@ =~= seq!['.', '.']);
        if part.len() == 0 || crate::text::eq_chars(part, &dot) || crate::text::eq_chars(
            part,
            &dotdot,
        ) {
            assert(!segment_ok(split_on(v@, '/')[i as int]));
            return false;
        }
        assert(segment_ok(split_on(v@, '/')[i as int]));
        i = i + 1;
    }
    true
}

fn glob_stem_of(g: &Vec<char>) -> (r: Vec<char>)
    ensures
        r@ == glob_stem(g@),
{
    let suffix = vec!['/', '*', '*'];
    assert(suffix@ == glob_suffix());
    if has_suffix(g, &suffix) {
        slice_of(g, 0, g.len() - 3)
    } else {
        slice_of(g, 0, g.len())
    }
}

/// Whether a scope glob is small and unambiguous.
pub fn safe_glob(glob: &str) -> (r: bool)
    ensures
        r == spec_safe_glob(glob@),
{
    let g = chars_of(glob);
    let stem = glob_stem_of(&g);
    if g.len() == g.len() {
        assert(g@.subrange(0, g@.len() as int) =~= g@);
    }
    safe_relative_chars(&stem) && !has_char(&stem, '*') && !has_char(&stem, '?')
}

pub fn is_sha256(digest: &str) -> (r: bool)
    ensures
        r == spec_is_sha256(digest@),
{
    let d = chars_of(digest);
    let p = chars_of("sha256:");
    if !has_prefix(&d, &p) {
        return false;
    }
    if d.len() - p.len() != 64 {
        return false;
    }
    let mut i = p.len();
    while i < d.len()
        invariant
            p@ == "sha256:"@,
            d@ == digest@,
            starts_with(d@, p@),
            d.len() - p.len() == 64,
            p.len() <= i <= d.len(),
            forall|j: int| p.len() <= j < i ==> is_lower_hex(#[trigger] d@[j]),
        decreases d.len() - i,
    {
        let c = d[i];
        if !(('0' <= c && c <= '9') || ('a' <= c && c <= 'f')) {
            assert(!is_lower_hex(d@[i as int]));
            return false;
        }
        i = i + 1;
    }
    true
}

/// Whether a reference is all whitespace.
pub open spec fn blank(s: Seq<char>) -> bool {
    trim(s).len() == 0
}

pub open spec fn spec_entry_error(e: ScopeEntry) -> Option<Seq<char>> {
    let g = e.path_glob@;
    if !spec_safe_glob(g) {
        Some("scope path_glob "@ + debug_str(g) + " must be an exact path or a path ending in /**"@)
    } else if e.obligation_refs@.len() == 0 || exists|i: int|
        0 <= i < e.obligation_refs@.len() && blank(#[trigger] e.obligation_refs@[i]@) {
        Some("scope path_glob "@ + debug_str(g) + " must name one or more obligation_refs"@)
    } else {
        None
    }
}

pub open spec fn spec_entries_error(es: Seq<ScopeEntry>) -> Option<Seq<char>>
    decreases es.len(),
{
    if es.len() == 0 {
        None
    } else {
        match spec_entry_error(es[0]) {
            Some(m) => Some(m),
            None => spec_entries_error(es.drop_first()),
        }
    }
}

/// What `ScopeContract::validate` refuses, first failure first.
pub open spec fn spec_scope_error(c: ScopeContract) -> Option<Seq<char>> {
    if c.schema@ != SCOPE_SCHEMA@ {
        Some("scope schema must be "@ + debug_str(SCOPE_SCHEMA@) + ", found "@ + debug_str(
            c.schema@,
        ))
    } else if blank(c.repository@) {
        Some("scope repository must not be empty"@)
    } else if blank(c.base_ref@) {
        Some("scope base_ref must not be empty"@)
    } else if !spec_safe_relative(c.policy_path@) {
        Some("scope policy_path "@ + debug_str(c.policy_path@)
            + " must be a safe repository-relative path"@)
    } else if !spec_is_sha256(c.policy_digest@) {
        Some("scope policy_digest must be sha256:<64 lowercase hex characters>"@)
    } else if c.scope@.len() == 0 {
        Some("scope must declare at least one path_glob"@)
    } else {
        spec_entries_error(c.scope@)
    }
}

/// Whether a path falls under a scope glob: an exact match, or under the
/// directory a `/**` glob names.
pub open spec fn glob_matches(g: Seq<char>, path: Seq<char>) -> bool {
    if ends_with(g, glob_suffix()) {
        let prefix = g.subrange(0, g.len() - 3);
        path == prefix || starts_with(path, prefix.push('/'))
    } else {
        g == path
    }
}

fn is_blank(s: &String) -> (r: bool)
    ensures
        r == blank(s@),
{
    let v = chars_of(s.as_str());
    trimmed(&v).len() == 0
}

fn entry_error(e: &ScopeEntry) -> (r: Option<String>)
    ensures
        match (r, spec_entry_error(*e)) {
            (Some(a), Some(b)) => a@ == b,
            (None, None) => true,
            _ => false,
        },
{
    if !safe_glob(e.path_glob.as_str()) {
        let mut out = chars_of("scope path_glob ");
        let q = debug_quoted(e.path_glob.as_str());
        push_str(&mut out, q.as_str());
        push_str(&mut out, " must be an exact path or a path ending in /**");
        return Some(string_of(&out));
    }
    let mut any_blank = false;
    let mut i: usize = 0;
    while i < e.obligation_refs.len()
        invariant
            i <= e.obligation_refs.len(),
            any_blank == exists|j: int| 0 <= j < i && blank(#[trigger] e.obligation_refs@[j]@),
        decreases e.obligation_refs.len() - i,
    {
        if is_blank(&e.obligation_refs[i]) {
            any_blank = true;
        }
        i = i + 1;
    }
    if e.obligation_refs.len() == 0 || any_blank {
        let mut out = chars_of("scope path_glob ");
        let q = debug_quoted(e.path_glob.as_str());
        push_str(&mut out, q.as_str());
        push_str(&mut out, " must name one or more obligation_refs");
        return Some(string_of(&out));
    }
    None
}

impl ScopeContract {
    /// Check the scope, naming the first thing wrong with it.
    pub fn validate(&self) -> (r: Result<(), String>)
        ensures
            match (r, spec_scope_error(*self)) {
                (Ok(()), None) => true,
                (Err(a), Some(b)) => a@ == b,
                _ => false,
            },
    {
        if !crate::text::str_eq(self.schema.as_str(), SCOPE_SCHEMA) {
            let mut out = chars_of("scope schema must be ");
            let q = debug_quoted(SCOPE_SCHEMA);
            push_str(&mut out, q.as_str());
            push_str(&mut out, ", found ");
            let f = debug_quoted(self.schema.as_str());
            push_str(&mut out, f.as_str());
            return Err(string_of(&out));
        }
        if is_blank(&self.repository) {
            return Err("scope repository must not be empty".to_owned());
        }
        if is_blank(&self.base_ref) {
            return Err("scope base_ref must not be empty".to_owned());
        }
        if !safe_relative(self.policy_path.as_str()) {
            let mut out = chars_of("scope policy_path ");
            let q = debug_quoted(self.policy_path.as_str());
            push_str(&mut out, q.as_str());
            push_str(&mut out, " must be a safe repository-relative path");
            return Err(string_of(&out));
        }
        if !is_sha256(self.policy_digest.as_str()) {
            return Err("scope policy_digest must be sha256:<64 lowercase hex characters>".to_owned());
        }
        if self.scope.len() == 0 {
            return Err("scope must declare at least one path_glob".to_owned());
        }
        let mut i: usize = 0;
        assert(self.scope@.skip(0) =~= self.scope@);
        assert(spec_scope_error(*self) == spec_entries_error(self.scope@));
        while i < self.scope.len()
            invariant
                i <= self.scope.len(),
                self.scope@.len() > 0,
                spec_scope_error(*self) == spec_entries_error(self.scope@),
                spec_entries_error(self.scope@) == spec_entries_error(self.scope@.skip(i as int)),
            decreases self.scope.len() - i,
        {
            proof {
                let t = self.scope@.skip(i as int);
                assert(t[0] == self.scope@[i as int]);
                assert(t.drop_first() =~= self.scope@.skip(i + 1));
            }
            match entry_error(&self.scope[i]) {
                Some(m) => {
                    return Err(m);
                },
                None => {},
            }
            i = i + 1;
        }
        proof {
            assert(self.scope@.skip(i as int).len() == 0);
        }
        Ok(())
    }

    pub open spec fn spec_matches(self, path: Seq<char>) -> bool {
        exists|i: int|
            0 <= i < self.scope@.len() && glob_matches(#[trigger] self.scope@[i].path_glob@, path)
    }

    /// Whether a changed path lies inside the Warrant's machine scope.
    pub fn matches(&self, path: &str) -> (r: bool)
        ensures
            r == self.spec_matches(path@),
    {
        let p = chars_of(path);
        let mut i: usize = 0;
        while i < self.scope.len()
            invariant
                i <= self.scope.len(),
                p@ == path@,
                forall|j: int|
                    0 <= j < i ==> !glob_matches(#[trigger] self.scope@[j].path_glob@, path@),
            decreases self.scope.len() - i,
        {
            let g = chars_of(self.scope[i].path_glob.as_str());
            let suffix = vec!['/', '*', '*'];
            assert(suffix@ == glob_suffix());
            let hit = if has_suffix(&g, &suffix) {
                let mut prefix = slice_of(&g, 0, g.len() - 3);
                let same = crate::text::eq_chars(&p, &prefix);
                prefix.push('/');
                same || has_prefix(&p, &prefix)
            } else {
                crate::text::eq_chars(&g, &p)
            };
            if hit {
                return true;
            }
            i = i + 1;
        }
        false
    }
}

pub open spec fn spec_github_path(w: Seq<char>) -> Option<Seq<char>> {
    if starts_with(w, "git@github.com:"@) {
        Some(w.skip("git@github.com:"@.len() as int))
    } else if starts_with(w, "https://github.com/"@) {
        Some(w.skip("https://github.com/"@.len() as int))
    } else if starts_with(w, "ssh://git@github.com/"@) {
        Some(w.skip("ssh://git@github.com/"@.len() as int))
    } else {
        None
    }
}

/// `github:<owner>/<name>` for a GitHub remote URL in any of its three
/// spellings, with or without `.git`; `None` for anything else.
pub open spec fn spec_github_identity(remote: Seq<char>) -> Option<Seq<char>> {
    let t = trim(remote);
    let w = if ends_with(t, ".git"@) {
        t.subrange(0, t.len() - ".git"@.len())
    } else {
        t
    };
    match spec_github_path(w) {
        None => None,
        Some(p) => {
            let parts = split_on(p, '/');
            if parts.len() == 2 && parts[0].len() > 0 && parts[1].len() > 0 {
                Some("github:"@ + parts[0] + seq!['/'] + parts[1])
            } else {
                None
            }
        },
    }
}

fn strip_lit_prefix(v: &Vec<char>, lit: &str) -> (r: Option<Vec<char>>)
    ensures
        starts_with(v@, lit@) ==> (r matches Some(x) && x@ == v@.skip(lit@.len() as int)),
        !starts_with(v@, lit@) ==> r is None,
{
    let p = chars_of(lit);
    if has_prefix(v, &p) {
        Some(slice_of(v, p.len(), v.len()))
    } else {
        None
    }
}

/// The repository identity of a GitHub remote.
pub fn github_identity(remote: &str) -> (r: Option<String>)
    ensures
        match (r, spec_github_identity(remote@)) {
            (Some(a), Some(b)) => a@ == b,
            (None, None) => true,
            _ => false,
        },
{
    let v = chars_of(remote);
    let t = trimmed(&v);
    let git = chars_of(".git");
    let w = if has_suffix(&t, &git) {
        slice_of(&t, 0, t.len() - git.len())
    } else {
        slice_of(&t, 0, t.len())
    };
    assert(t@.subrange(0, t@.len() as int) =~= t@);
    let path = match strip_lit_prefix(&w, "git@github.com:") {
        Some(p) => p,
        None => match strip_lit_prefix(&w, "https://github.com/") {
            Some(p) => p,
            None => match strip_lit_prefix(&w, "ssh://git@github.com/") {
                Some(p) => p,
                None => {
                    return None;
                },
            },
        },
    };
    let parts = split_chars(&path, '/');
    assert(views(parts@) == split_on(path@, '/'));
    if parts.len() != 2 || parts[0].len() == 0 || parts[1].len() == 0 {
        proof {
            if parts@.len() == 2 {
                assert(parts@[0]@ == views(parts@)[0]);
                assert(parts@[1]@ == views(parts@)[1]);
            }
        }
        return None;
    }
    assert(parts@[0]@ == views(parts@)[0]);
    assert(parts@[1]@ == views(parts@)[1]);
    let mut out = chars_of("github:");
    push_all(&mut out, &parts[0]);
    out.push('/');
    push_all(&mut out, &parts[1]);
    Some(string_of(&out))
}

/// What Bonsai's findings and the scope check make of one run.
#[derive(Debug, Clone, Copy, PartialEq, Eq, Structural)]
pub enum EvidenceVerdict {
    Pass,
    Fail,
    Unknown,
}

/// One Bonsai finding, as much of it as the verdict reads: its `rule` and
/// `severity` when each is present as a string.
#[derive(Debug, Clone, PartialEq, Eq)]
pub struct Finding {
    pub rule: Option<String>,
    pub severity: Option<String>,
}

/// The rules whose error findings are architecture violations.
pub open spec fn is_architecture_rule(r: Seq<char>) -> bool {
    ||| r == "contract-anchor"@
    ||| r == "contract-forbid"@
    ||| r == "contract-seal"@
    ||| r == "conformance-layering"@
    ||| r == "conformance-cycle"@
    ||| r == "conformance-placement"@
    ||| r == "blueprint-contract"@
}

pub open spec fn spec_is_architecture_error(f: Finding) -> bool {
    (f.severity matches Some(s) && s@ == "error"@) && (f.rule matches Some(r)
        && is_architecture_rule(r@))
}

/// Whether a finding is an error under one of the architecture rules; every
/// other finding is advisory.
pub fn is_architecture_error(finding: &Finding) -> (r: bool)
    ensures
        r == spec_is_architecture_error(*finding),
{
    let sev_error = match &finding.severity {
        Some(s) => crate::text::str_eq(s.as_str(), "error"),
        None => false,
    };
    if !sev_error {
        return false;
    }
    match &finding.rule {
        Some(r) => {
            let v = chars_of(r.as_str());
            is_str(&v, "contract-anchor") || is_str(&v, "contract-forbid") || is_str(
                &v,
                "contract-seal",
            ) || is_str(&v, "conformance-layering") || is_str(&v, "conformance-cycle")
                || is_str(&v, "conformance-placement") || is_str(&v, "blueprint-contract")
        },
        None => false,
    }
}

/// The indices of the architecture findings, in order, and of the advisory
/// ones, in order.
pub fn partition_findings(raw: &Vec<Finding>) -> (r: (Vec<usize>, Vec<usize>))
    ensures
        forall|k: int| 0 <= k < r.0@.len() ==> r.0@[k] < raw@.len() && spec_is_architecture_error(
            raw@[r.0@[k] as int],
        ),
        forall|k: int| 0 <= k < r.1@.len() ==> r.1@[k] < raw@.len() && !spec_is_architecture_error(
            raw@[r.1@[k] as int],
        ),
        r.0@.len() + r.1@.len() == raw@.len(),
        forall|a: int, b: int| 0 <= a < b < r.0@.len() ==> r.0@[a] < r.0@[b],
        forall|a: int, b: int| 0 <= a < b < r.1@.len() ==> r.1@[a] < r.1@[b],
{
    let mut arch: Vec<usize> = Vec::new();
    let mut adv: Vec<usize> = Vec::new();
    let mut i: usize = 0;
    while i < raw.len()
        invariant
            i <= raw.len(),
            arch@.len() + adv@.len() == i,
            forall|k: int| 0 <= k < arch@.len() ==> arch@[k] < i && spec_is_architecture_error(
                raw@[arch@[k] as int],
            ),
            forall|k: int| 0 <= k < adv@.len() ==> adv@[k] < i && !spec_is_architecture_error(
                raw@[adv@[k] as int],
            ),
            forall|a: int, b: int| 0 <= a < b < arch@.len() ==> arch@[a] < arch@[b],
            forall|a: int, b: int| 0 <= a < b < adv@.len() ==> adv@[a] < adv@[b],
        decreases raw.len() - i,
    {
        if is_architecture_error(&raw[i]) {
            arch.push(i);
        } else {
            adv.push(i);
        }
        i = i + 1;
    }
    (arch, adv)
}

pub open spec fn spec_evidence_verdict(scope_findings: nat, architecture_findings: nat, asked: bool) -> EvidenceVerdict {
    if scope_findings > 0 || architecture_findings > 0 {
        EvidenceVerdict::Fail
    } else if asked {
        EvidenceVerdict::Pass
    } else {
        EvidenceVerdict::Unknown
    }
}

/// A path outside scope or an architecture error fails the run; otherwise
/// it passes only if Bonsai answered at all, and is unknown if it did not.
pub fn evidence_verdict(scope_findings: usize, architecture_findings: usize, bonsai_asked: bool) -> (r: EvidenceVerdict)
    ensures
        r == spec_evidence_verdict(scope_findings as nat, architecture_findings as nat, bonsai_asked),
{
    if scope_findings > 0 || architecture_findings > 0 {
        EvidenceVerdict::Fail
    } else if bonsai_asked {
        EvidenceVerdict::Pass
    } else {
        EvidenceVerdict::Unknown
    }
}

/// The Warrant a piece of evidence is bound to.
#[derive(Debug, Clone, PartialEq, Eq)]
pub struct WarrantBinding {
    pub alias: String,
    pub contract_digest: String,
    pub scope_source: String,
    pub scope_source_digest: String,
}

/// The commits a piece of evidence is bound to.
#[derive(Debug, Clone, PartialEq, Eq)]
pub struct GitBinding {
    pub repository: String,
    pub base: String,
    pub head: String,
    pub tree: String,
}

/// The Bonsai policy a piece of evidence is bound to.
#[derive(Debug, Clone, PartialEq, Eq)]
pub struct PolicyBinding {
    pub path: String,
    pub digest: String,
}

/// A changed path outside the Warrant's machine scope.
#[derive(Debug, Clone, PartialEq, Eq)]
pub struct ScopeFinding {
    pub path: String,
    pub message: String,
}

pub open spec fn outside_scope_message() -> Seq<char> {
    "changed path is outside Warrant machine scope"@
}

/// The paths a list of findings names, in order.
pub open spec fn finding_paths(fs: Seq<ScopeFinding>) -> Seq<Seq<char>> {
    fs.map_values(|f: ScopeFinding| f.path@)
}

/// The changed paths the scope does not match, in the order they changed.
pub open spec fn unmatched_paths(scope: ScopeContract, paths: Seq<Seq<char>>) -> Seq<Seq<char>>
    decreases paths.len(),
{
    if paths.len() == 0 {
        seq![]
    } else if scope.spec_matches(paths.last()) {
        unmatched_paths(scope, paths.drop_last())
    } else {
        unmatched_paths(scope, paths.drop_last()).push(paths.last())
    }
}

/// One finding per changed path that the scope does not match, in order,
/// each with the same message.
pub fn scope_findings(changed: &Vec<String>, scope: &ScopeContract) -> (r: Vec<ScopeFinding>)
    ensures
        finding_paths(r@) == unmatched_paths(*scope, strs(changed@)),
        forall|k: int| 0 <= k < r@.len() ==> (#[trigger] r@[k]).message@ == outside_scope_message(),
{
    let ghost all = strs(changed@);
    let mut out: Vec<ScopeFinding> = Vec::new();
    let mut i: usize = 0;
    proof {
        assert(finding_paths(out@) =~= unmatched_paths(*scope, all.take(0)));
    }
    while i < changed.len()
        invariant
            i <= changed.len(),
            all == strs(changed@),
            finding_paths(out@) == unmatched_paths(*scope, all.take(i as int)),
            forall|k: int| 0 <= k < out@.len() ==> (#[trigger] out@[k]).message@ == outside_scope_message(),
        decreases changed.len() - i,
    {
        proof {
            assert(all.take(i + 1).drop_last() =~= all.take(i as int));
            assert(all.take(i + 1).last() == changed@[i as int]@);
        }
        let ghost before = out@;
        if !scope.matches(changed[i].as_str()) {
            let f = ScopeFinding {
                path: changed[i].clone(),
                message: "changed path is outside Warrant machine scope".to_owned(),
            };
            out.push(f);
            proof {
                assert(finding_paths(out@) =~= finding_paths(before).push(changed@[i as int]@));
            }
        }
        i = i + 1;
    }
    proof {
        assert(all.take(changed.len() as int) =~= all);
    }
    out
}

/// What a Bonsai check decides from the changed paths, the scope contract
/// and Bonsai's findings: the changed paths outside scope, in order; which
/// findings are architecture errors and which are not, by index in order;
/// and the verdict.
#[derive(Debug)]
pub struct ScopeEvidence {
    pub scope_findings: Vec<ScopeFinding>,
    pub architecture: Vec<usize>,
    pub other: Vec<usize>,
    pub verdict: EvidenceVerdict,
}

/// The evidence of one Bonsai check: a changed path outside scope or an
/// architecture error fails it; otherwise it passes when Bonsai was asked
/// and is unknown when it was not.
pub fn scope_evidence(changed: &Vec<String>, scope: &ScopeContract, raw: &Vec<Finding>, bonsai_asked: bool) -> (r: ScopeEvidence)
    ensures
        finding_paths(r.scope_findings@) == unmatched_paths(*scope, strs(changed@)),
        forall|k: int| 0 <= k < r.scope_findings@.len() ==> (#[trigger] r.scope_findings@[k]).message@
            == outside_scope_message(),
        forall|k: int| 0 <= k < r.architecture@.len() ==> r.architecture@[k] < raw@.len()
            && spec_is_architecture_error(raw@[r.architecture@[k] as int]),
        forall|k: int| 0 <= k < r.other@.len() ==> r.other@[k] < raw@.len()
            && !spec_is_architecture_error(raw@[r.other@[k] as int]),
        r.architecture@.len() + r.other@.len() == raw@.len(),
        forall|a: int, b: int| 0 <= a < b < r.architecture@.len() ==> r.architecture@[a] < r.architecture@[b],
        forall|a: int, b: int| 0 <= a < b < r.other@.len() ==> r.other@[a] < r.other@[b],
        r.verdict == spec_evidence_verdict(
            unmatched_paths(*scope, strs(changed@)).len(),
            r.architecture@.len(),
            bonsai_asked,
        ),
        forall|k: int| 0 <= k < raw@.len() && spec_is_architecture_error(#[trigger] raw@[k]) ==> r.verdict is Fail,
{
    let fs = scope_findings(changed, scope);
    let (arch, other) = partition_findings(raw);
    proof {
        assert(finding_paths(fs@).len() == fs@.len());
    }
    let verdict = evidence_verdict(fs.len(), arch.len(), bonsai_asked);
    proof {
        assert forall|k: int| 0 <= k < raw@.len() && spec_is_architecture_error(#[trigger] raw@[k]) implies verdict is Fail by {
            lemma_the_architecture_rules(raw@[k]);
            lemma_an_architecture_error_fails_the_check(raw@, arch@, other@, fs@.len(), bonsai_asked, k);
        }
    }
    ScopeEvidence { scope_findings: fs, architecture: arch, other, verdict }
}


/// A finding is an architecture error exactly when its severity is `error`
/// and its rule is one of contract-anchor, contract-forbid, contract-seal,
/// conformance-layering, conformance-cycle, conformance-placement and
/// blueprint-contract.
pub proof fn lemma_the_architecture_rules(f: Finding)
    ensures
        spec_is_architecture_error(f) <==> {
            &&& f.severity is Some && f.severity->Some_0@ == "error"@
            &&& f.rule is Some
            &&& {
                let rule = f.rule->Some_0@;
                ||| rule == "contract-anchor"@
                ||| rule == "contract-forbid"@
                ||| rule == "contract-seal"@
                ||| rule == "conformance-layering"@
                ||| rule == "conformance-cycle"@
                ||| rule == "conformance-placement"@
                ||| rule == "blueprint-contract"@
            }
        },
{
}

proof fn lemma_increasing_gap(s: Seq<usize>, a: int, b: int)
    requires
        0 <= a <= b < s.len(),
        forall|x: int, y: int| 0 <= x < y < s.len() ==> s[x] < s[y],
    ensures
        s[b] - s[a] >= b - a,
    decreases b - a,
{
    if a < b {
        lemma_increasing_gap(s, a, b - 1);
        assert(s[b - 1] < s[b]);
    }
}

/// Strictly increasing indices below `n`, `n` of them, are `0, 1, .., n-1`.
proof fn lemma_increasing_indices_cover(s: Seq<usize>, n: int)
    requires
        s.len() == n,
        forall|i: int| 0 <= i < n ==> s[i] < n,
        forall|x: int, y: int| 0 <= x < y < s.len() ==> s[x] < s[y],
    ensures
        forall|k: int| 0 <= k < n ==> s[k] == k,
{
    assert forall|k: int| 0 <= k < n implies s[k] == k by {
        lemma_increasing_gap(s, 0, k);
        lemma_increasing_gap(s, k, n - 1);
    }
}

/// An error finding under any of the seven architecture rules fails the
/// check, whatever else was found: whenever the findings are split, in
/// order, into the architecture errors and the rest, the verdict on that
/// split is `Fail`.
pub proof fn lemma_an_architecture_error_fails_the_check(
    raw: Seq<Finding>,
    architecture: Seq<usize>,
    other: Seq<usize>,
    outside: nat,
    asked: bool,
    k: int,
)
    requires
        forall|i: int| 0 <= i < architecture.len() ==> architecture[i] < raw.len()
            && spec_is_architecture_error(raw[architecture[i] as int]),
        forall|i: int| 0 <= i < other.len() ==> other[i] < raw.len()
            && !spec_is_architecture_error(raw[other[i] as int]),
        architecture.len() + other.len() == raw.len(),
        forall|a: int, b: int| 0 <= a < b < other.len() ==> other[a] < other[b],
        0 <= k < raw.len(),
        raw[k].severity is Some && raw[k].severity->Some_0@ == "error"@,
        raw[k].rule is Some,
        ({
            let rule = raw[k].rule->Some_0@;
            ||| rule == "contract-anchor"@
            ||| rule == "contract-forbid"@
            ||| rule == "contract-seal"@
            ||| rule == "conformance-layering"@
            ||| rule == "conformance-cycle"@
            ||| rule == "conformance-placement"@
            ||| rule == "blueprint-contract"@
        }),
    ensures
        spec_evidence_verdict(outside, architecture.len(), asked) is Fail,
{
    lemma_the_architecture_rules(raw[k]);
    if architecture.len() == 0 {
        lemma_increasing_indices_cover(other, raw.len() as int);
        assert(other[k] == k);
        assert(!spec_is_architecture_error(raw[other[k] as int]));
    }
}

/// A check fails when a changed path lies outside scope or Bonsai found an
/// architecture error; with neither, it passes when Bonsai was asked and is
/// unknown when it was not.
pub proof fn lemma_the_evidence_verdict(outside: nat, architecture: nat, asked: bool)
    ensures
        spec_evidence_verdict(outside, architecture, asked) is Fail <==> (outside > 0 || architecture > 0),
        spec_evidence_verdict(outside, architecture, asked) is Pass <==> (outside == 0 && architecture == 0
            && asked),
        spec_evidence_verdict(outside, architecture, asked) is Unknown <==> (outside == 0 && architecture
            == 0 && !asked),
{
}

} // verus!
