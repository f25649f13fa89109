//! Offline interactive authoring of a Warrant draft: what each typed line
//! asks for, what a checkpoint directory may hold, when a checkpoint is
//! refused, and how the draft's units change. Checkpoints are new files and
//! publication never clobbers; the reading, writing and locking stand around
//! these decisions.

use vstd::prelude::*;

use crate::compat::{parse_u32, spec_parse_u32};
use crate::text::{
    chars_of, is_ws, is_ws_char, push_decimal, push_str, slice_of, str_eq, string_of, strs, views,
};

verus! {

// ---------------------------------------------------------------------------
// Words and commands
// ---------------------------------------------------------------------------

/// `str::split_whitespace`: the maximal runs of characters that are not
/// white space, in order.
pub open spec fn split_words(s: Seq<char>) -> Seq<Seq<char>>
    decreases s.len(),
{
    if s.len() == 0 {
        seq![]
    } else {
        let p = s.drop_last();
        let c = s.last();
        let w = split_words(p);
        if is_ws(c) {
            w
        } else if p.len() > 0 && !is_ws(p.last()) {
            w.drop_last().push(w.last().push(c))
        } else {
            w.push(seq![c])
        }
    }
}

/// The words of a typed line.
pub fn words(line: &str) -> (r: Vec<String>)
    ensures
        strs(r@) == split_words(line@),
{
    let v = chars_of(line);
    let mut done: Vec<Vec<char>> = Vec::new();
    let mut cur: Vec<char> = Vec::new();
    let mut i: usize = 0;
    while i < v.len()
        invariant
            i <= v.len(),
            v@ == line@,
            cur@.len() > 0 <==> (i > 0 && !is_ws(v@[i - 1])),
            (if cur@.len() > 0 {
                views(done@).push(cur@)
            } else {
                views(done@)
            }) == split_words(v@.take(i as int)),
        decreases v.len() - i,
    {
        let c = v[i];
        proof {
            assert(v@.take(i + 1).drop_last() =~= v@.take(i as int));
            assert(v@.take(i + 1).last() == c);
            if i > 0 {
                assert(v@.take(i as int).last() == v@[i - 1]);
            }
        }
        if is_ws_char(c) {
            if cur.len() > 0 {
                let ghost d0 = views(done@);
                let w = cur;
                done.push(w);
                cur = Vec::new();
                proof {
                    assert(views(done@) =~= d0.push(w@));
                }
            }
        } else {
            let ghost before = cur@;
            cur.push(c);
            proof {
                if before.len() > 0 {
                    let w = split_words(v@.take(i as int));
                    assert(w =~= views(done@).push(before));
                    assert(w.drop_last() =~= views(done@));
                    assert(views(done@).push(cur@) =~= w.drop_last().push(w.last().push(c)));
                } else {
                    assert(cur@ =~= seq![c]);
                }
            }
        }
        i = i + 1;
    }
    proof {
        assert(v@.take(v.len() as int) =~= v@);
    }
    if cur.len() > 0 {
        done.push(cur);
    }
    let mut out: Vec<String> = Vec::new();
    let mut k: usize = 0;
    while k < done.len()
        invariant
            k <= done.len(),
            strs(out@) == views(done@).take(k as int),
        decreases done.len() - k,
    {
        let ghost before = strs(out@);
        out.push(string_of(&done[k]));
        proof {
            assert(strs(out@) =~= before.push(done@[k as int]@));
            assert(views(done@).take(k + 1) =~= views(done@).take(k as int).push(done@[k as int]@));
        }
        k = k + 1;
    }
    proof {
        assert(views(done@).take(done.len() as int) =~= views(done@));
    }
    out
}

/// What a typed line asks of the draft.
#[derive(Debug, Clone, PartialEq, Eq)]
pub enum DraftCommand {
    Cancel,
    Help,
    Preview,
    Save,
    /// Set a field; its value, asked for next, is JSON when `json`.
    Field { key: String, json: bool },
    /// Open a unit of this kind for its Markdown, asked for next.
    Unit { id: String, kind: String },
    Drop { id: String },
    Unknown,
}

pub open spec fn is_field_word(w: Seq<char>) -> bool {
    w == "title"@ || w == "id"@ || w == "kind"@ || w == "revision"@
}

pub open spec fn is_unit_kind(w: Seq<char>) -> bool {
    w == "binding"@ || w == "background"@
}

/// The command a line's words make: `(tag, first operand, second
/// operand)`, the tags in the order of [`DraftCommand`]'s variants; the
/// `json` of a field is whether its value is read as JSON.
pub open spec fn spec_command(ws: Seq<Seq<char>>) -> (int, Seq<char>, Seq<char>, bool) {
    if ws.len() == 1 && ws[0] == "cancel"@ {
        (0, seq![], seq![], false)
    } else if ws.len() == 1 && ws[0] == "help"@ {
        (1, seq![], seq![], false)
    } else if ws.len() == 1 && ws[0] == "preview"@ {
        (2, seq![], seq![], false)
    } else if ws.len() == 1 && ws[0] == "save"@ {
        (3, seq![], seq![], false)
    } else if ws.len() == 1 && is_field_word(ws[0]) {
        (4, ws[0], seq![], ws[0] == "revision"@)
    } else if ws.len() == 2 && ws[0] == "meta"@ {
        (4, ws[1], seq![], true)
    } else if ws.len() == 3 && ws[0] == "unit"@ && is_unit_kind(ws[2]) {
        (5, ws[1], ws[2], false)
    } else if ws.len() == 2 && ws[0] == "drop"@ {
        (6, ws[1], seq![], false)
    } else {
        (7, seq![], seq![], false)
    }
}

pub open spec fn command_view(c: DraftCommand) -> (int, Seq<char>, Seq<char>, bool) {
    match c {
        DraftCommand::Cancel => (0, seq![], seq![], false),
        DraftCommand::Help => (1, seq![], seq![], false),
        DraftCommand::Preview => (2, seq![], seq![], false),
        DraftCommand::Save => (3, seq![], seq![], false),
        DraftCommand::Field { key, json } => (4, key@, seq![], json),
        DraftCommand::Unit { id, kind } => (5, id@, kind@, false),
        DraftCommand::Drop { id } => (6, id@, seq![], false),
        DraftCommand::Unknown => (7, seq![], seq![], false),
    }
}

/// The command a typed line makes.
pub fn command_of(line: &str) -> (r: DraftCommand)
    ensures
        command_view(r) == spec_command(split_words(line@)),
{
    let ws = words(line);
    let ghost sw = split_words(line@);
    proof {
        if ws.len() > 0 {
            assert(sw[0] == ws@[0]@);
        }
        if ws.len() > 1 {
            assert(sw[1] == ws@[1]@);
        }
        if ws.len() > 2 {
            assert(sw[2] == ws@[2]@);
        }
    }
    if ws.len() == 1 {
        let w = ws[0].as_str();
        if str_eq(w, "cancel") {
            return DraftCommand::Cancel;
        } else if str_eq(w, "help") {
            return DraftCommand::Help;
        } else if str_eq(w, "preview") {
            return DraftCommand::Preview;
        } else if str_eq(w, "save") {
            return DraftCommand::Save;
        } else if str_eq(w, "title") || str_eq(w, "id") || str_eq(w, "kind") || str_eq(w, "revision") {
            let json = str_eq(w, "revision");
            return DraftCommand::Field { key: ws[0].clone(), json };
        }
    } else if ws.len() == 2 {
        if str_eq(ws[0].as_str(), "meta") {
            return DraftCommand::Field { key: ws[1].clone(), json: true };
        } else if str_eq(ws[0].as_str(), "drop") {
            return DraftCommand::Drop { id: ws[1].clone() };
        }
    } else if ws.len() == 3 {
        if str_eq(ws[0].as_str(), "unit") && (str_eq(ws[2].as_str(), "binding") || str_eq(
            ws[2].as_str(),
            "background",
        )) {
            return DraftCommand::Unit { id: ws[1].clone(), kind: ws[2].clone() };
        }
    }
    DraftCommand::Unknown
}

// ---------------------------------------------------------------------------
// The checkpoint directory
// ---------------------------------------------------------------------------

/// The largest snapshot, in bytes.
pub const STATE_LIMIT: u64 = 1048576;

/// The most a session's snapshots may hold together, in bytes.
pub const SESSION_LIMIT: u64 = 16777216;

/// The most snapshots a session keeps.
pub const SNAPSHOT_LIMIT: u32 = 4096;

/// The most directory entries a session directory may hold.
pub const ENTRY_LIMIT: usize = 8192;

/// The ordinal a snapshot's file name carries: `draft-NNNNNN.json`, six
/// ASCII digits.
pub open spec fn spec_snapshot_ordinal(name: Seq<char>) -> Option<u32> {
    if name.len() == 17 && name.take(6) == "draft-"@ && name.skip(12) == ".json"@ && crate::compat::all_digits(
        name.subrange(6, 12),
    ) {
        spec_parse_u32(name.subrange(6, 12))
    } else {
        None
    }
}

/// The ordinal of a snapshot file name, or none for any other name.
pub fn snapshot_ordinal(name: &str) -> (r: Option<u32>)
    ensures
        r == spec_snapshot_ordinal(name@),
{
    let v = chars_of(name);
    proof {
        reveal_strlit("draft-");
        reveal_strlit(".json");
    }
    if v.len() != 17 || !crate::text::starts_lit(&v, "draft-") || !crate::text::ends_lit(&v, ".json") {
        proof {
            if v.len() == 17 && v@.take(6) == "draft-"@ {
                assert(crate::text::starts_with(v@, "draft-"@));
            }
            if v.len() == 17 && v@.skip(12) == ".json"@ {
                assert(crate::text::ends_with(v@, ".json"@));
            }
        }
        return None;
    }
    proof {
        assert(crate::text::starts_with(v@, "draft-"@));
        assert(v@.take(6) =~= "draft-"@);
        assert(v@.skip(12) =~= ".json"@);
    }
    let d = slice_of(&v, 6, 12);
    let ghost middle = v@.subrange(6, 12);
    let mut i: usize = 0;
    while i < d.len()
        invariant
            i <= d.len(),
            d@ == middle,
            middle == v@.subrange(6, 12),
            v@ == name@,
            v@.len() == 17,
            v@.take(6) == "draft-"@,
            v@.skip(12) == ".json"@,
            forall|j: int| 0 <= j < i ==> crate::text::is_ascii_digit(#[trigger] d@[j]),
        decreases d.len() - i,
    {
        if !crate::text::is_digit_char(d[i]) {
            proof {
                assert(!crate::text::is_ascii_digit(d@[i as int]));
                assert(!crate::compat::all_digits(middle));
            }
            return None;
        }
        i = i + 1;
    }
    parse_u32(&d)
}

/// What a session directory's entry is before its metadata is read: an
/// error past the entry limit, nothing for the session's own files (its
/// lock and a checkpoint in flight), a snapshot's ordinal, or an error for
/// any other name.
pub open spec fn spec_entry(count: usize, name: Seq<char>) -> Result<Option<u32>, Seq<char>> {
    if count >= ENTRY_LIMIT {
        Err("Draft directory entry limit exceeded"@)
    } else if name == "session.lock"@ || crate::text::starts_with(name, ".ow-draft-"@) {
        Ok(None)
    } else {
        match spec_snapshot_ordinal(name) {
            Some(n) => Ok(Some(n)),
            None => Err("Unknown file in draft directory"@),
        }
    }
}

pub open spec fn entry_view(r: Result<Option<u32>, String>) -> Result<Option<u32>, Seq<char>> {
    match r {
        Ok(o) => Ok(o),
        Err(e) => Err(e@),
    }
}

/// The `count`th entry of a session directory, by name.
pub fn entry(count: usize, name: &str) -> (r: Result<Option<u32>, String>)
    ensures
        entry_view(r) == spec_entry(count, name@),
{
    if count >= ENTRY_LIMIT {
        return Err(string_of(&chars_of("Draft directory entry limit exceeded")));
    }
    let v = chars_of(name);
    if str_eq(name, "session.lock") || crate::text::starts_lit(&v, ".ow-draft-") {
        return Ok(None);
    }
    match snapshot_ordinal(name) {
        Some(n) => Ok(Some(n)),
        None => Err(string_of(&chars_of("Unknown file in draft directory"))),
    }
}

/// A snapshot's admission, given whether it is a plain file and its length,
/// the bytes the session's snapshots held before it and how many were
/// admitted: the bytes with it, or why the session is refused.
pub open spec fn spec_admission(is_file: bool, len: u64, bytes: u64, admitted: usize) -> Result<u64, Seq<char>> {
    if !is_file || len > STATE_LIMIT {
        Err("Invalid draft snapshot"@)
    } else if bytes + len > u64::MAX {
        Err("Draft size overflow"@)
    } else if bytes + len > SESSION_LIMIT || admitted >= SNAPSHOT_LIMIT {
        Err("Draft session limit exceeded"@)
    } else {
        Ok((bytes + len) as u64)
    }
}

pub open spec fn admission_view(r: Result<u64, String>) -> Result<u64, Seq<char>> {
    match r {
        Ok(n) => Ok(n),
        Err(e) => Err(e@),
    }
}

pub fn admission(is_file: bool, len: u64, bytes: u64, admitted: usize) -> (r: Result<u64, String>)
    ensures
        admission_view(r) == spec_admission(is_file, len, bytes, admitted),
{
    if !is_file || len > STATE_LIMIT {
        return Err(string_of(&chars_of("Invalid draft snapshot")));
    }
    match bytes.checked_add(len) {
        None => Err(string_of(&chars_of("Draft size overflow"))),
        Some(total) => if total > SESSION_LIMIT || admitted >= SNAPSHOT_LIMIT as usize {
            Err(string_of(&chars_of("Draft session limit exceeded")))
        } else {
            Ok(total)
        },
    }
}

/// Where a resumed session goes on: after its latest snapshot; an error
/// when it has none.
pub open spec fn spec_resume_next(ordinals: Seq<u32>) -> Result<u32, Seq<char>> {
    if ordinals.len() == 0 {
        Err("No saved draft to resume"@)
    } else {
        Ok((max_of(ordinals) + 1) as u32)
    }
}

pub open spec fn max_of(s: Seq<u32>) -> u32
    decreases s.len(),
{
    if s.len() == 0 {
        0
    } else if s.len() == 1 || s.last() >= max_of(s.drop_last()) {
        s.last()
    } else {
        max_of(s.drop_last())
    }
}

/// The latest of the admitted snapshots, by ordinal, as its index.
pub fn latest(ordinals: &Vec<u32>) -> (r: Option<usize>)
    ensures
        match r {
            Some(i) => i < ordinals.len() && ordinals@[i as int] == max_of(ordinals@),
            None => ordinals.len() == 0,
        },
{
    if ordinals.len() == 0 {
        return None;
    }
    let mut best: usize = 0;
    let mut i: usize = 1;
    proof {
        assert(ordinals@.take(1).drop_last() =~= Seq::<u32>::empty());
    }
    while i < ordinals.len()
        invariant
            1 <= i <= ordinals.len(),
            best < i,
            ordinals@[best as int] == max_of(ordinals@.take(i as int)),
        decreases ordinals.len() - i,
    {
        proof {
            assert(ordinals@.take(i + 1).drop_last() =~= ordinals@.take(i as int));
            assert(ordinals@.take(i + 1).last() == ordinals@[i as int]);
        }
        if ordinals[i] >= ordinals[best] {
            best = i;
        }
        i = i + 1;
    }
    proof {
        assert(ordinals@.take(ordinals.len() as int) =~= ordinals@);
    }
    Some(best)
}

/// Where a resumed session goes on, given the ordinals of its admitted
/// snapshots.
pub fn resume_next(ordinals: &Vec<u32>) -> (r: Result<u32, String>)
    requires
        max_of(ordinals@) < u32::MAX,
    ensures
        match (r, spec_resume_next(ordinals@)) {
            (Ok(a), Ok(b)) => a == b,
            (Err(a), Err(b)) => a@ == b,
            _ => false,
        },
{
    match latest(ordinals) {
        Some(i) => Ok(ordinals[i] + 1),
        None => Err(string_of(&chars_of("No saved draft to resume"))),
    }
}

/// `format!("{n:06}")`.
pub open spec fn padded6(n: nat) -> Seq<char> {
    let d = crate::text::decimal(n);
    if d.len() >= 6 {
        d
    } else {
        Seq::new((6 - d.len()) as nat, |i: int| '0') + d
    }
}

/// The file name of the `next`th snapshot.
pub open spec fn snapshot_name(next: u32) -> Seq<char> {
    "draft-"@ + padded6(next as nat) + ".json"@
}

/// A checkpoint of `len` bytes, after `bytes` are held in `next`
/// snapshots: the name it is written under, or the refusal when it would
/// pass a limit (the prior checkpoint stands).
pub open spec fn spec_checkpoint(len: u64, bytes: u64, next: u32) -> Result<Seq<char>, Seq<char>> {
    if len > STATE_LIMIT || bytes + len > SESSION_LIMIT || next >= SNAPSHOT_LIMIT {
        Err("Draft limit reached; prior checkpoint retained"@)
    } else {
        Ok(snapshot_name(next))
    }
}

pub open spec fn checkpoint_view(r: Result<String, String>) -> Result<Seq<char>, Seq<char>> {
    match r {
        Ok(n) => Ok(n@),
        Err(e) => Err(e@),
    }
}

pub fn checkpoint(len: u64, bytes: u64, next: u32) -> (r: Result<String, String>)
    ensures
        checkpoint_view(r) == spec_checkpoint(len, bytes, next),
{
    if len > STATE_LIMIT || bytes > SESSION_LIMIT || bytes + len > SESSION_LIMIT || next >= SNAPSHOT_LIMIT {
        return Err(string_of(&chars_of("Draft limit reached; prior checkpoint retained")));
    }
    let mut out = chars_of("draft-");
    let d = crate::text::decimal_of(next as u64);
    let mut k = d.len();
    let ghost before = out@;
    while k < 6
        invariant
            d.len() <= k,
            k <= 6 || k == d.len(),
            out@ == before + Seq::new((k - d.len()) as nat, |i: int| '0'),
        decreases 6 - k,
    {
        out.push('0');
        proof {
            assert(out@ =~= before + Seq::new((k + 1 - d.len()) as nat, |i: int| '0'));
        }
        k = k + 1;
    }
    crate::text::push_all(&mut out, &d);
    push_str(&mut out, ".json");
    proof {
        if d.len() >= 6 {
            assert(Seq::new((k - d.len()) as nat, |i: int| '0') =~= Seq::<char>::empty());
        }
        assert(out@ =~= "draft-"@ + padded6(next as nat) + ".json"@);
    }
    Ok(string_of(&out))
}

// ---------------------------------------------------------------------------
// Lines and units
// ---------------------------------------------------------------------------

/// `str::trim_end_matches(['\r', '\n'])`.
pub open spec fn strip_line_end(s: Seq<char>) -> Seq<char>
    decreases s.len(),
{
    if s.len() > 0 && (s.last() == '\r' || s.last() == '\n') {
        strip_line_end(s.drop_last())
    } else {
        s
    }
}

/// A typed line without its line ending.
pub fn line_text(text: &str) -> (r: String)
    ensures
        r@ == strip_line_end(text@),
{
    let v = chars_of(text);
    let mut n = v.len();
    proof {
        assert(v@.take(n as int) =~= v@);
    }
    while n > 0 && (v[n - 1] == '\r' || v[n - 1] == '\n')
        invariant
            n <= v.len(),
            v@ == text@,
            strip_line_end(v@.take(n as int)) == strip_line_end(text@),
        decreases n,
    {
        proof {
            assert(v@.take(n as int).drop_last() =~= v@.take(n - 1));
        }
        n = n - 1;
    }
    let r = slice_of(&v, 0, n);
    proof {
        assert(r@ =~= v@.take(n as int));
    }
    string_of(&r)
}

/// One unit of the draft: its identifier, its kind and its Markdown.
#[derive(Debug, Clone, PartialEq, Eq)]
pub struct Unit {
    pub id: String,
    pub kind: String,
    pub text: String,
}

pub open spec fn unit_view(u: Unit) -> (Seq<char>, Seq<char>, Seq<char>) {
    (u.id@, u.kind@, u.text@)
}

pub open spec fn unit_views(us: Seq<Unit>) -> Seq<(Seq<char>, Seq<char>, Seq<char>)> {
    us.map_values(|u: Unit| unit_view(u))
}

/// The units a new draft starts with.
pub open spec fn spec_new_units() -> Seq<(Seq<char>, Seq<char>, Seq<char>)> {
    seq![
        ("outcome"@, "binding"@, "# Untitled Warrant\n\nDescribe the required outcome.\n"@),
        ("scope"@, "binding"@, "## Scope\n\nDefine the work boundary.\n"@),
        ("context"@, "binding"@, "## Context\n\nRecord relevant sources and unknowns.\n"@),
    ]
}

fn unit_of(id: &str, kind: &str, text: &str) -> (u: Unit)
    ensures
        unit_view(u) == (id@, kind@, text@),
{
    Unit { id: string_of(&chars_of(id)), kind: string_of(&chars_of(kind)), text: string_of(&chars_of(text)) }
}

pub fn new_units() -> (r: Vec<Unit>)
    ensures
        unit_views(r@) == spec_new_units(),
{
    let mut r: Vec<Unit> = Vec::new();
    r.push(unit_of("outcome", "binding", "# Untitled Warrant\n\nDescribe the required outcome.\n"));
    r.push(unit_of("scope", "binding", "## Scope\n\nDefine the work boundary.\n"));
    r.push(unit_of("context", "binding", "## Context\n\nRecord relevant sources and unknowns.\n"));
    proof {
        assert(unit_views(r@) =~= spec_new_units());
    }
    r
}

/// The outcome unit's text under a new title: its first line replaced by
/// the title heading, the rest kept.
pub open spec fn spec_retitle(text: Seq<char>, title: Seq<char>) -> Seq<char> {
    let k = crate::text::idx_of(text, '\n');
    let rest = if k < text.len() {
        text.skip(k + 1 as int)
    } else {
        seq![]
    };
    "# "@ + title + "\n"@ + rest
}

pub fn retitle(text: &str, title: &str) -> (r: String)
    ensures
        r@ == spec_retitle(text@, title@),
{
    let v = chars_of(text);
    let mut k: usize = 0;
    while k < v.len() && v[k] != '\n'
        invariant
            k <= v.len(),
            forall|j: int| 0 <= j < k ==> v@[j] != '\n',
        decreases v.len() - k,
    {
        k = k + 1;
    }
    proof {
        crate::text::lemma_idx_of_char(v@, '\n', k as int);
    }
    let mut out = chars_of("# ");
    push_str(&mut out, title);
    out.push('\n');
    if k < v.len() {
        let rest = slice_of(&v, k + 1, v.len());
        crate::text::push_all(&mut out, &rest);
        proof {
            assert(rest@ =~= v@.skip(k + 1));
        }
    }
    proof {
        reveal_strlit("\n");
        assert(out@ =~= spec_retitle(text@, title@));
    }
    string_of(&out)
}

/// The first unit whose identifier is `id`.
pub open spec fn first_unit(us: Seq<Unit>, id: Seq<char>) -> Option<int>
    decreases us.len(),
{
    if us.len() == 0 {
        None
    } else if us[0].id@ == id {
        Some(0)
    } else {
        match first_unit(us.drop_first(), id) {
            Some(i) => Some(i + 1),
            None => None,
        }
    }
}

proof fn lemma_first_unit(us: Seq<Unit>, id: Seq<char>, m: int)
    requires
        0 <= m <= us.len(),
        m < us.len() ==> us[m].id@ == id,
        forall|j: int| 0 <= j < m ==> us[j].id@ != id,
    ensures
        first_unit(us, id) == (if m < us.len() { Some(m) } else { None::<int> }),
    decreases us.len(),
{
    if us.len() > 0 && m > 0 {
        assert forall|j: int| 0 <= j < m - 1 implies us.drop_first()[j].id@ != id by {
            assert(us.drop_first()[j] == us[j + 1]);
        }
        lemma_first_unit(us.drop_first(), id, m - 1);
    }
}

fn find_unit(units: &Vec<Unit>, id: &str) -> (r: Option<usize>)
    ensures
        match (r, first_unit(units@, id@)) {
            (Some(i), Some(j)) => i as int == j && i < units.len(),
            (None, None) => true,
            _ => false,
        },
{
    let mut m: usize = 0;
    while m < units.len() && !str_eq(units[m].id.as_str(), id)
        invariant
            m <= units.len(),
            forall|j: int| 0 <= j < m ==> units@[j].id@ != id@,
        decreases units.len() - m,
    {
        m = m + 1;
    }
    proof {
        lemma_first_unit(units@, id@, m as int);
    }
    if m < units.len() {
        Some(m)
    } else {
        None
    }
}

/// A new title rewrites the first outcome unit's heading.
pub fn set_title(units: &mut Vec<Unit>, title: &str)
    ensures
        unit_views(final(units)@) == match first_unit(old(units)@, "outcome"@) {
            Some(i) => unit_views(old(units)@).update(
                i,
                (old(units)@[i].id@, old(units)@[i].kind@, spec_retitle(old(units)@[i].text@, title@)),
            ),
            None => unit_views(old(units)@),
        },
{
    match find_unit(units, "outcome") {
        Some(i) => {
            let ghost before = unit_views(units@);
            let mut u = units.remove(i);
            u.text = retitle(u.text.as_str(), title);
            units.insert(i, u);
            proof {
                assert(unit_views(units@) =~= before.update(
                    i as int,
                    (old(units)@[i as int].id@, old(units)@[i as int].kind@, spec_retitle(old(units)@[i as int].text@, title@)),
                ));
            }
        },
        None => {},
    }
}

/// The first field named `key`.
pub open spec fn first_field<V>(fields: Seq<(String, V)>, key: Seq<char>) -> Option<int>
    decreases fields.len(),
{
    if fields.len() == 0 {
        None
    } else if fields[0].0@ == key {
        Some(0)
    } else {
        match first_field(fields.drop_first(), key) {
            Some(i) => Some(i + 1),
            None => None,
        }
    }
}

proof fn lemma_first_field<V>(fields: Seq<(String, V)>, key: Seq<char>, m: int)
    requires
        0 <= m <= fields.len(),
        m < fields.len() ==> fields[m].0@ == key,
        forall|j: int| 0 <= j < m ==> fields[j].0@ != key,
    ensures
        first_field(fields, key) == (if m < fields.len() { Some(m) } else { None::<int> }),
    decreases fields.len(),
{
    if fields.len() > 0 && m > 0 {
        assert forall|j: int| 0 <= j < m - 1 implies fields.drop_first()[j].0@ != key by {
            assert(fields.drop_first()[j] == fields[j + 1]);
        }
        lemma_first_field(fields.drop_first(), key, m - 1);
    }
}

/// A field set: the first field of that name takes the value; a new name
/// is added at the end.
pub fn set_field<V>(fields: &mut Vec<(String, V)>, key: &str, value: V)
    ensures
        match first_field(old(fields)@, key@) {
            Some(i) => final(fields)@ == old(fields)@.update(i, (old(fields)@[i].0, value)),
            None => final(fields)@.len() == old(fields)@.len() + 1 && final(fields)@.drop_last()
                == old(fields)@ && final(fields)@.last().0@ == key@ && final(fields)@.last().1 == value,
        },
{
    let mut m: usize = 0;
    while m < fields.len() && !str_eq(fields[m].0.as_str(), key)
        invariant
            m <= fields.len(),
            forall|j: int| 0 <= j < m ==> fields@[j].0@ != key@,
        decreases fields.len() - m,
    {
        m = m + 1;
    }
    proof {
        lemma_first_field(fields@, key@, m as int);
    }
    if m < fields.len() {
        let (name, _) = fields.remove(m);
        fields.insert(m, (name, value));
        proof {
            assert(fields@ =~= old(fields)@.update(m as int, (old(fields)@[m as int].0, value)));
        }
    } else {
        fields.push((string_of(&chars_of(key)), value));
        proof {
            assert(fields@.drop_last() =~= old(fields)@);
        }
    }
}

/// A unit opened for new Markdown: the first unit with that identifier, or
/// a new one at the end, takes the kind and loses its text. Its index.
pub fn open_unit(units: &mut Vec<Unit>, id: &str, kind: &str) -> (r: usize)
    ensures
        r < final(units)@.len(),
        unit_views(final(units)@) == match first_unit(old(units)@, id@) {
            Some(i) => unit_views(old(units)@).update(i, (old(units)@[i].id@, kind@, seq![])),
            None => unit_views(old(units)@).push((id@, kind@, seq![])),
        },
        match first_unit(old(units)@, id@) {
            Some(i) => r == i,
            None => r == old(units)@.len(),
        },
{
    let ghost before = unit_views(units@);
    match find_unit(units, id) {
        Some(i) => {
            let mut u = units.remove(i);
            u.kind = string_of(&chars_of(kind));
            u.text = String::new();
            units.insert(i, u);
            proof {
                assert(unit_views(units@) =~= before.update(i as int, (old(units)@[i as int].id@, kind@, seq![])));
            }
            i
        },
        None => {
            let fresh = Unit { id: string_of(&chars_of(id)), kind: string_of(&chars_of(kind)), text: String::new() };
            proof {
                assert(unit_view(fresh) =~= (id@, kind@, Seq::<char>::empty()));
            }
            units.push(fresh);
            proof {
                assert(unit_views(units@) =~= before.push((id@, kind@, seq![])));
            }
            units.len() - 1
        },
    }
}

/// A line of Markdown added to a unit.
pub fn append_line(units: &mut Vec<Unit>, index: usize, line: &str)
    requires
        index < old(units)@.len(),
    ensures
        unit_views(final(units)@) == unit_views(old(units)@).update(
            index as int,
            (old(units)@[index as int].id@, old(units)@[index as int].kind@, old(units)@[index as int].text@ + line@ + seq!['\n']),
        ),
{
    let ghost before = unit_views(units@);
    let mut u = units.remove(index);
    let ghost old_u = u;
    let mut t = chars_of(u.text.as_str());
    push_str(&mut t, line);
    t.push('\n');
    proof {
        assert(t@ =~= old_u.text@ + line@ + seq!['\n']);
    }
    u.text = string_of(&t);
    proof {
        assert(unit_view(u) == (old_u.id@, old_u.kind@, old_u.text@ + line@ + seq!['\n']));
    }
    units.insert(index, u);
    proof {
        assert(unit_views(units@) =~= before.update(
            index as int,
            (old(units)@[index as int].id@, old(units)@[index as int].kind@, old(units)@[index as int].text@ + line@ + seq!['\n']),
        ));
    }
}

/// The units without every one whose identifier is `id`.
pub open spec fn without_unit(us: Seq<(Seq<char>, Seq<char>, Seq<char>)>, id: Seq<char>) -> Seq<(Seq<char>, Seq<char>, Seq<char>)>
    decreases us.len(),
{
    if us.len() == 0 {
        seq![]
    } else if us.last().0 == id {
        without_unit(us.drop_last(), id)
    } else {
        without_unit(us.drop_last(), id).push(us.last())
    }
}

pub fn drop_unit(units: &mut Vec<Unit>, id: &str)
    ensures
        unit_views(final(units)@) == without_unit(unit_views(old(units)@), id@),
{
    let ghost all = unit_views(units@);
    let mut kept: Vec<Unit> = Vec::new();
    let mut rest: Vec<Unit> = Vec::new();
    std::mem::swap(&mut rest, units);
    let n = rest.len();
    let mut i: usize = 0;
    proof {
        assert(all.take(0) =~= Seq::<(Seq<char>, Seq<char>, Seq<char>)>::empty());
        assert(unit_views(kept@) =~= without_unit(all.take(0), id@));
    }
    while i < n
        invariant
            i <= n == rest.len(),
            all == unit_views(rest@),
            unit_views(kept@) == without_unit(all.take(i as int), id@),
        decreases n - i,
    {
        proof {
            assert(all.take(i + 1).drop_last() =~= all.take(i as int));
            assert(all.take(i + 1).last() == unit_view(rest@[i as int]));
        }
        if !str_eq(rest[i].id.as_str(), id) {
            let ghost before = unit_views(kept@);
            kept.push(unit_of(rest[i].id.as_str(), rest[i].kind.as_str(), rest[i].text.as_str()));
            proof {
                assert(unit_views(kept@) =~= before.push(all[i as int]));
            }
        }
        i = i + 1;
    }
    proof {
        assert(all.take(n as int) =~= all);
    }
    *units = kept;
}

// ---------------------------------------------------------------------------
// Laws
// ---------------------------------------------------------------------------

proof fn lemma_digit_char(d: nat)
    requires
        d < 10,
    ensures
        crate::text::is_ascii_digit(crate::text::digit_char(d)),
        (crate::text::digit_char(d) as int - '0' as int) == d,
{
}

proof fn lemma_decimal_value(n: nat)
    ensures
        crate::compat::digits_value(crate::text::decimal(n)) == n,
        crate::compat::all_digits(crate::text::decimal(n)),
        crate::text::decimal(n).len() > 0,
        n < 10 ==> crate::text::decimal(n).len() == 1,
        n >= 10 ==> crate::text::decimal(n).len() == crate::text::decimal(n / 10).len() + 1,
    decreases n,
{
    if n < 10 {
        lemma_digit_char(n);
        assert(crate::text::decimal(n).drop_last() =~= Seq::<char>::empty());
        assert(crate::compat::digits_value(Seq::<char>::empty()) == 0);
        assert(crate::text::decimal(n).last() == crate::text::digit_char(n));
    } else {
        lemma_decimal_value(n / 10);
        lemma_digit_char(n % 10);
        let p = crate::text::decimal(n / 10);
        let c = crate::text::digit_char(n % 10);
        assert(crate::text::decimal(n) == p.push(c));
        assert(p.push(c).drop_last() =~= p);
        assert(n / 10 * 10 + n % 10 == n) by (nonlinear_arith);
        assert(crate::compat::digits_value(p.push(c)) == crate::compat::digits_value(p) * 10 + ((c as int - '0' as int) as nat));
        assert(crate::compat::digits_value(p) * 10 == (n / 10) * 10);
        assert forall|i: int| 0 <= i < p.push(c).len() implies crate::text::is_ascii_digit(#[trigger] p.push(c)[i]) by {
            if i < p.len() {
                assert(p.push(c)[i] == p[i]);
            }
        }
    }
}

proof fn lemma_decimal_short(n: nat)
    requires
        n < 1000000,
    ensures
        crate::text::decimal(n).len() <= 6,
{
    lemma_decimal_value(n);
    if n >= 10 {
        lemma_decimal_value(n / 10);
        if n / 10 >= 10 {
            lemma_decimal_value(n / 100);
            assert(n / 10 / 10 == n / 100);
            if n / 100 >= 10 {
                lemma_decimal_value(n / 1000);
                assert(n / 100 / 10 == n / 1000);
                if n / 1000 >= 10 {
                    lemma_decimal_value(n / 10000);
                    assert(n / 1000 / 10 == n / 10000);
                    if n / 10000 >= 10 {
                        lemma_decimal_value(n / 100000);
                        assert(n / 10000 / 10 == n / 100000);
                        assert(n / 100000 < 10);
                    }
                }
            }
        }
    }
}

proof fn lemma_zeros_value(k: nat, d: Seq<char>)
    ensures
        crate::compat::digits_value(Seq::new(k, |i: int| '0') + d) == crate::compat::digits_value(d),
    decreases d.len(), k,
{
    let z = Seq::new(k, |i: int| '0');
    if d.len() == 0 {
        assert(z + d =~= z);
        if k > 0 {
            let z1 = Seq::new((k - 1) as nat, |i: int| '0');
            assert(z.drop_last() =~= z1);
            lemma_zeros_value((k - 1) as nat, d);
            assert(z1 + d =~= z1);
        }
    } else {
        lemma_zeros_value(k, d.drop_last());
        assert((z + d).drop_last() =~= z + d.drop_last());
        assert((z + d).last() == d.last());
    }
}

/// A checkpoint is written under a name the session directory reads back as
/// the checkpoint's own ordinal: so resuming finds it, and two checkpoints
/// of one session never share a file.
pub proof fn lemma_checkpoint_name_reads_back(next: u32)
    requires
        next < SNAPSHOT_LIMIT,
    ensures
        spec_snapshot_ordinal(snapshot_name(next)) == Some(next),
{
    let n = next as nat;
    lemma_decimal_value(n);
    lemma_decimal_short(n);
    let d = crate::text::decimal(n);
    let zeros = Seq::new((6 - d.len()) as nat, |i: int| '0');
    let p = padded6(n);
    assert(p == zeros + d);
    lemma_zeros_value((6 - d.len()) as nat, d);
    assert(p.len() == 6);
    assert forall|i: int| 0 <= i < p.len() implies crate::text::is_ascii_digit(#[trigger] p[i]) by {
        if i < zeros.len() {
            assert(p[i] == '0');
        } else {
            assert(p[i] == d[i - zeros.len()]);
        }
    }
    let name = snapshot_name(next);
    reveal_strlit("draft-");
    reveal_strlit(".json");
    assert(name.len() == 17);
    assert(name.take(6) =~= "draft-"@);
    assert(name.skip(12) =~= ".json"@);
    assert(name.subrange(6, 12) =~= p);
    assert(p[0] != '+');
    assert(crate::compat::unsigned_part(p) == p);
}

} // verus!
