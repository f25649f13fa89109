//! Which record schemas this `war` reads, and how a record says which one it
//! is written in. A record newer than this `war` reads is neither passed nor
//! failed: it is unknown.

use vstd::prelude::*;

use crate::commit::rfind_before;
use crate::diagnostic::Diagnostic;
use crate::structured::{
    field_of, find_field, json_reading, json_result_view, read_json, read_toml, scalar_view, text_field,
    toml_reading, toml_result_view, JsonValue,
    JsonView, Scalar, ScalarView,
};
use crate::text::{
    chars_of, decimal, is_ascii_digit, is_at, lines, lines_of, push_decimal, push_str, slice_of,
    starts_with, str_eq, string_of, trim, trimmed, views,
};

verus! {

/// The frozen records and the schema major this `war` reads for each.
pub open spec fn frozen() -> Seq<(Seq<char>, u32)> {
    seq![
        ("manifest"@, 1u32),
        ("atom"@, 1u32),
        ("milestones"@, 1u32),
        ("deliverables"@, 1u32),
        ("authorization"@, 1u32),
        ("judgments"@, 1u32),
        ("resolution"@, 1u32),
        ("verification"@, 1u32),
        ("correction"@, 1u32),
        ("sas-revision"@, 1u32),
        ("amendment"@, 1u32),
        ("journal-event"@, 1u32),
        ("stage-dispatch"@, 1u32),
        ("stage-submission"@, 1u32),
        ("report"@, 1u32),
        ("bonsai-evidence"@, 1u32),
        ("war"@, 1u32),
    ]
}

/// The major read for the first frozen record named `record`.
pub open spec fn spec_known_major(table: Seq<(Seq<char>, u32)>, record: Seq<char>) -> Option<u32>
    decreases table.len(),
{
    if table.len() == 0 {
        None
    } else if table[0].0 == record {
        Some(table[0].1)
    } else {
        spec_known_major(table.drop_first(), record)
    }
}

/// In a table whose every entry is read at major 1, a record is read at
/// major 1 exactly when some entry names it.
proof fn lemma_known_major_is_membership(t: Seq<(Seq<char>, u32)>, record: Seq<char>)
    requires
        forall|i: int| 0 <= i < t.len() ==> (#[trigger] t[i]).1 == 1u32,
    ensures
        spec_known_major(t, record) == if t.map_values(|e: (Seq<char>, u32)| e.0).contains(record) {
            Some(1u32)
        } else {
            None
        },
    decreases t.len(),
{
    let names = t.map_values(|e: (Seq<char>, u32)| e.0);
    if t.len() > 0 {
        let rest = t.drop_first();
        let rnames = rest.map_values(|e: (Seq<char>, u32)| e.0);
        assert forall|i: int| 0 <= i < rest.len() implies (#[trigger] rest[i]).1 == 1u32 by {
            assert(rest[i] == t[i + 1]);
        }
        lemma_known_major_is_membership(rest, record);
        assert(names =~= seq![t[0].0] + rnames);
        if t[0].0 == record {
            assert(names[0] == record);
        } else {
            if names.contains(record) {
                let i = choose|i: int| 0 <= i < names.len() && names[i] == record;
                assert(rnames[i - 1] == record);
            }
            if rnames.contains(record) {
                let i = choose|i: int| 0 <= i < rnames.len() && rnames[i] == record;
                assert(names[i + 1] == record);
            }
        }
    }
}

/// This `war` reads exactly seventeen frozen records, each at schema
/// major 1: the manifest, atom, milestones, deliverables, authorization,
/// judgments, resolution, verification, correction, SAS revision,
/// amendment, journal event, stage dispatch, stage submission, report,
/// Bonsai evidence and war records. Any other record name is not known.
pub proof fn lemma_frozen_records_are_read_at_major_one(record: Seq<char>)
    ensures
        spec_known_major(frozen(), record) == if seq![
            "manifest"@, "atom"@, "milestones"@, "deliverables"@, "authorization"@, "judgments"@,
            "resolution"@, "verification"@, "correction"@, "sas-revision"@, "amendment"@,
            "journal-event"@, "stage-dispatch"@, "stage-submission"@, "report"@, "bonsai-evidence"@,
            "war"@,
        ].contains(record) {
            Some(1u32)
        } else {
            None
        },
{
    let t = frozen();
    assert(t.map_values(|e: (Seq<char>, u32)| e.1) =~= seq![1u32, 1u32, 1u32, 1u32, 1u32, 1u32, 1u32,
        1u32, 1u32, 1u32, 1u32, 1u32, 1u32, 1u32, 1u32, 1u32, 1u32]);
    assert forall|i: int| 0 <= i < t.len() implies (#[trigger] t[i]).1 == 1u32 by {
        assert(t.map_values(|e: (Seq<char>, u32)| e.1)[i] == t[i].1);
    }
    lemma_known_major_is_membership(t, record);
    assert(t.map_values(|e: (Seq<char>, u32)| e.0) =~= seq![
        "manifest"@, "atom"@, "milestones"@, "deliverables"@, "authorization"@, "judgments"@,
        "resolution"@, "verification"@, "correction"@, "sas-revision"@, "amendment"@,
        "journal-event"@, "stage-dispatch"@, "stage-submission"@, "report"@, "bonsai-evidence"@,
        "war"@,
    ]);
}

/// The major this `war` reads for a frozen record, none for any other.
pub fn known_major(record: &str) -> (r: Option<u32>)
    ensures
        r == spec_known_major(frozen(), record@),
{
    let names = vec![
        "manifest",
        "atom",
        "milestones",
        "deliverables",
        "authorization",
        "judgments",
        "resolution",
        "verification",
        "correction",
        "sas-revision",
        "amendment",
        "journal-event",
        "stage-dispatch",
        "stage-submission",
        "report",
        "bonsai-evidence",
        "war",
    ];
    let ghost t = frozen();
    proof {
        assert(names@.map_values(|s: &'static str| s@) =~= t.map_values(
            |e: (Seq<char>, u32)| e.0,
        ));
    }
    let mut i: usize = 0;
    assert(t.skip(0) =~= t);
    while i < names.len()
        invariant
            i <= names.len() == t.len(),
            t == frozen(),
            names@.map_values(|s: &'static str| s@) == t.map_values(|e: (Seq<char>, u32)| e.0),
            spec_known_major(t, record@) == spec_known_major(t.skip(i as int), record@),
        decreases names.len() - i,
    {
        proof {
            assert(t.skip(i as int)[0] == t[i as int]);
            assert(t.skip(i as int).drop_first() =~= t.skip(i + 1));
            assert(names@.map_values(|s: &'static str| s@)[i as int] == t.map_values(
                |e: (Seq<char>, u32)| e.0,
            )[i as int]);
            assert(t[i as int].0 == names@[i as int]@);
            assert(t[i as int].1 == 1u32);
        }
        if str_eq(names[i], record) {
            return Some(1);
        }
        i = i + 1;
    }
    proof {
        assert(t.skip(i as int).len() == 0);
    }
    None
}

/// The number a string of ASCII digits spells.
pub open spec fn digits_value(p: Seq<char>) -> nat
    decreases p.len(),
{
    if p.len() == 0 {
        0
    } else {
        digits_value(p.drop_last()) * 10 + ((p.last() as int - '0' as int) as nat)
    }
}

/// Whether every character is an ASCII digit.
pub open spec fn all_digits(d: Seq<char>) -> bool {
    forall|i: int| 0 <= i < d.len() ==> is_ascii_digit(#[trigger] d[i])
}

/// `s` without one leading `+`.
pub open spec fn unsigned_part(s: Seq<char>) -> Seq<char> {
    if s.len() > 0 && s[0] == '+' {
        s.drop_first()
    } else {
        s
    }
}

/// `str::parse::<u32>`: an optional `+`, then one or more ASCII digits whose
/// value fits.
pub open spec fn spec_parse_u32(s: Seq<char>) -> Option<u32> {
    let d = unsigned_part(s);
    if d.len() > 0 && all_digits(d) && digits_value(d) <= u32::MAX {
        Some(digits_value(d) as u32)
    } else {
        None
    }
}

proof fn lemma_digits_grow(p: Seq<char>, k: int)
    requires
        0 <= k <= p.len(),
    ensures
        digits_value(p) >= digits_value(p.take(k)),
    decreases p.len() - k,
{
    if k < p.len() {
        lemma_digits_grow(p, k + 1);
        assert(p.take(k + 1).drop_last() =~= p.take(k));
    } else {
        assert(p.take(k) =~= p);
    }
}

/// `str::parse::<u32>` over `v`.
pub fn parse_u32(v: &Vec<char>) -> (r: Option<u32>)
    ensures
        r == spec_parse_u32(v@),
{
    let start: usize = if v.len() > 0 && v[0] == '+' { 1 } else { 0 };
    let d = slice_of(v, start, v.len());
    proof {
        if start == 1 {
            assert(d@ =~= v@.drop_first());
        } else {
            assert(d@ =~= v@);
        }
    }
    if d.len() == 0 {
        return None;
    }
    let mut value: u32 = 0;
    let mut i: usize = 0;
    while i < d.len()
        invariant
            i <= d.len(),
            d.len() > 0,
            d@ == unsigned_part(v@),
            forall|j: int| 0 <= j < i ==> is_ascii_digit(#[trigger] d@[j]),
            value == digits_value(d@.take(i as int)),
        decreases d.len() - i,
    {
        let c = d[i];
        proof {
            assert(d@.take(i + 1).drop_last() =~= d@.take(i as int));
            assert(d@.take(i + 1).last() == c);
        }
        if !crate::text::is_digit_char(c) {
            proof {
                assert(!is_ascii_digit(d@[i as int]));
                assert(!all_digits(d@));
            }
            return None;
        }
        let digit = (c as u32) - ('0' as u32);
        match value.checked_mul(10) {
            Some(m) => match m.checked_add(digit) {
                Some(w) => {
                    value = w;
                },
                None => {
                    proof {
                        lemma_digits_grow(d@, i + 1);
                    }
                    return None;
                },
            },
            None => {
                proof {
                    lemma_digits_grow(d@, i + 1);
                }
                return None;
            },
        }
        i = i + 1;
    }
    proof {
        assert(d@.take(d.len() as int) =~= d@);
    }
    Some(value)
}

/// `oh.war/<record>/v<major>`, read around the last `/v`.
pub open spec fn spec_parse_schema(schema: Seq<char>) -> Option<(Seq<char>, u32)> {
    let t = trim(schema);
    if !starts_with(t, "oh.war/"@) {
        None
    } else {
        let rest = t.skip(7);
        match rfind_before(rest, "/v"@, rest.len() + 1 as int) {
            None => None,
            Some(k) => match spec_parse_u32(rest.skip(k + 2 as int)) {
                Some(m) => Some((rest.take(k as int), m)),
                None => None,
            },
        }
    }
}

/// `oh.war/<record>/v<major>` → `(record, major)`; anything else → none.
pub fn parse_schema(schema: &str) -> (r: Option<(String, u32)>)
    ensures
        match (r, spec_parse_schema(schema@)) {
            (Some((a, n)), Some((b, m))) => a@ == b && n == m,
            (None, None) => true,
            _ => false,
        },
{
    let v = chars_of(schema);
    let t = trimmed(&v);
    let prefix = chars_of("oh.war/");
    proof {
        reveal_strlit("oh.war/");
        reveal_strlit("/v");
    }
    if !crate::text::has_prefix(&t, &prefix) {
        return None;
    }
    let rest = slice_of(&t, 7, t.len());
    proof {
        assert(rest@ =~= t@.skip(7));
    }
    let sep = chars_of("/v");
    let mut k: usize = rest.len();
    proof {
        assert(!is_at(rest@, sep@, rest.len() as int));
    }
    while k > 0 && !crate::text::at(&rest, &sep, k - 1)
        invariant
            k <= rest.len(),
            rfind_before(rest@, "/v"@, rest.len() + 1 as int) == rfind_before(rest@, sep@, k as int),
            sep@ == "/v"@,
        decreases k,
    {
        k = k - 1;
    }
    if k == 0 {
        return None;
    }
    let at = k - 1;
    proof {
        assert(is_at(rest@, sep@, at as int));
    }
    let major_v = slice_of(&rest, at + 2, rest.len());
    let record_v = slice_of(&rest, 0, at);
    proof {
        assert(major_v@ =~= rest@.skip(at + 2));
        assert(record_v@ =~= rest@.take(at as int));
    }
    match parse_u32(&major_v) {
        Some(m) => Some((string_of(&record_v), m)),
        None => None,
    }
}

/// The message of `compat.newer-record` for one record.
pub open spec fn spec_newer_message(record: Seq<char>, major: u32, known: u32, war: Seq<char>) -> Seq<
    char,
> {
    "written as oh.war/"@ + record + "/v"@ + decimal(major as nat) + "; this war ("@ + war
        + ") reads "@ + record + " up to v"@ + decimal(known as nat)
        + ". What it says is not read, so it is neither passed nor failed. A war that knows v"@
        + decimal(major as nat)
        + " reads it; a repository that needs one says so with [project] requires_war"@
}

/// The finding for one declared `(record, major)`: unknown when this `war`
/// reads an older major of a frozen record; nothing otherwise.
pub fn newer_record(file: &str, record: &str, major: u32, war_version: &str) -> (r: Option<Diagnostic>)
    ensures
        match spec_known_major(frozen(), record@) {
            Some(known) => if major > known {
                r matches Some(d) && d.severity == crate::diagnostic::Severity::Unknown && d.rule@
                    == "compat.newer-record"@ && d.file == Some(d.file->Some_0) && d.file->Some_0@
                    == file@ && d.message@ == spec_newer_message(record@, major, known, war_version@)
            } else {
                r is None
            },
            None => r is None,
        },
{
    let known = match known_major(record) {
        None => {
            return None;
        },
        Some(k) => k,
    };
    if major <= known {
        return None;
    }
    let mut m = chars_of("written as oh.war/");
    push_str(&mut m, record);
    push_str(&mut m, "/v");
    push_decimal(&mut m, major as u64);
    push_str(&mut m, "; this war (");
    push_str(&mut m, war_version);
    push_str(&mut m, ") reads ");
    push_str(&mut m, record);
    push_str(&mut m, " up to v");
    push_decimal(&mut m, known as u64);
    push_str(
        &mut m,
        ". What it says is not read, so it is neither passed nor failed. A war that knows v",
    );
    push_decimal(&mut m, major as u64);
    push_str(&mut m, " reads it; a repository that needs one says so with [project] requires_war");
    Some(Diagnostic::unknown("compat.newer-record", file, string_of(&m).as_str()))
}


pub open spec fn is_quote(c: char) -> bool {
    c == '"' || c == '\''
}

/// `s` without its leading quote characters.
pub open spec fn unquote_start(s: Seq<char>) -> Seq<char>
    decreases s.len(),
{
    if s.len() > 0 && is_quote(s[0]) {
        unquote_start(s.drop_first())
    } else {
        s
    }
}

/// `s` without its trailing quote characters.
pub open spec fn unquote_end(s: Seq<char>) -> Seq<char>
    decreases s.len(),
{
    if s.len() > 0 && is_quote(s.last()) {
        unquote_end(s.drop_last())
    } else {
        s
    }
}

/// The schema a `schema:` line declares, if it names one.
pub open spec fn line_schema(line: Seq<char>) -> Option<(Seq<char>, u32)> {
    if starts_with(line, "schema:"@) {
        spec_parse_schema(unquote_end(unquote_start(trim(line.skip(7)))))
    } else {
        None
    }
}

/// The first schema the lines declare.
pub open spec fn first_schema(ls: Seq<Seq<char>>) -> Option<(Seq<char>, u32)>
    decreases ls.len(),
{
    if ls.len() == 0 {
        None
    } else {
        match line_schema(ls[0]) {
            Some(x) => Some(x),
            None => first_schema(ls.drop_first()),
        }
    }
}

/// The lines up to the first whose trimmed text is `---`.
pub open spec fn until_fence(ls: Seq<Seq<char>>) -> Seq<Seq<char>>
    decreases ls.len(),
{
    if ls.len() == 0 || trim(ls[0]) == "---"@ {
        seq![]
    } else {
        seq![ls[0]] + until_fence(ls.drop_first())
    }
}

/// The schema a YAML record declares with an unindented `schema:` line, or
/// a Markdown file in its front matter; a Markdown file whose first line is
/// not `---` declares none.
pub open spec fn spec_declared_schema(text: Seq<char>, markdown: bool) -> Option<(Seq<char>, u32)> {
    let ls = lines(text);
    if markdown {
        if ls.len() == 0 || trim(ls[0]) != "---"@ {
            None
        } else {
            first_schema(until_fence(ls.drop_first()))
        }
    } else {
        first_schema(ls)
    }
}

fn unquoted(v: &Vec<char>) -> (r: Vec<char>)
    ensures
        r@ == unquote_end(unquote_start(v@)),
{
    let mut a: usize = 0;
    assert(v@.skip(0) =~= v@);
    while a < v.len() && (v[a] == '"' || v[a] == '\'')
        invariant
            a <= v.len(),
            unquote_start(v@) == unquote_start(v@.skip(a as int)),
        decreases v.len() - a,
    {
        proof {
            assert(v@.skip(a as int)[0] == v@[a as int]);
            assert(v@.skip(a as int).drop_first() =~= v@.skip(a + 1));
        }
        a = a + 1;
    }
    let mid = slice_of(v, a, v.len());
    proof {
        assert(mid@ =~= v@.skip(a as int));
        assert(unquote_start(v@) == mid@);
    }
    let mut b: usize = mid.len();
    assert(mid@.take(b as int) =~= mid@);
    while b > 0 && (mid[b - 1] == '"' || mid[b - 1] == '\'')
        invariant
            b <= mid.len(),
            unquote_end(mid@) == unquote_end(mid@.take(b as int)),
        decreases b,
    {
        proof {
            assert(mid@.take(b as int).last() == mid@[b - 1]);
            assert(mid@.take(b as int).drop_last() =~= mid@.take(b - 1));
        }
        b = b - 1;
    }
    let r = slice_of(&mid, 0, b);
    proof {
        assert(r@ =~= mid@.take(b as int));
    }
    r
}

fn schema_of_line(line: &Vec<char>) -> (r: Option<(String, u32)>)
    ensures
        match (r, line_schema(line@)) {
            (Some((a, n)), Some((b, m))) => a@ == b && n == m,
            (None, None) => true,
            _ => false,
        },
{
    proof {
        reveal_strlit("schema:");
    }
    if !crate::text::starts_lit(line, "schema:") {
        return None;
    }
    let rest = slice_of(line, 7, line.len());
    proof {
        assert(rest@ =~= line@.skip(7));
    }
    let t = trimmed(&rest);
    let u = unquoted(&t);
    parse_schema(string_of(&u).as_str())
}

/// The schema a YAML record or a Markdown front matter declares.
pub fn declared_schema(text: &str, markdown: bool) -> (r: Option<(String, u32)>)
    ensures
        match (r, spec_declared_schema(text@, markdown)) {
            (Some((a, n)), Some((b, m))) => a@ == b && n == m,
            (None, None) => true,
            _ => false,
        },
{
    let v = chars_of(text);
    let ls = lines_of(&v);
    let ghost lv = views(ls@);
    let mut i: usize = 0;
    let mut stop: usize = ls.len();
    if markdown {
        if ls.len() == 0 {
            return None;
        }
        let first = trimmed(&ls[0]);
        if !crate::text::is_str(&first, "---") {
            return None;
        }
        i = 1;
        let mut e: usize = 1;
        proof {
            assert(lv.drop_first() =~= lv.skip(1));
            assert(lv.skip(1).skip(0) =~= lv.skip(1));
        }
        while e < ls.len() && !crate::text::is_str(&trimmed(&ls[e]), "---")
            invariant
                1 <= e <= ls.len(),
                lv == views(ls@),
                until_fence(lv.skip(1)) == lv.subrange(1, e as int) + until_fence(lv.skip(e as int)),
            decreases ls.len() - e,
        {
            proof {
                assert(lv.skip(e as int)[0] == ls@[e as int]@);
                assert(lv.skip(e as int).drop_first() =~= lv.skip(e + 1));
                assert(lv.subrange(1, e + 1) =~= lv.subrange(1, e as int) + seq![lv[e as int]]);
            }
            e = e + 1;
        }
        proof {
            if e < ls.len() {
                assert(lv.skip(e as int)[0] == ls@[e as int]@);
            } else {
                assert(lv.skip(e as int).len() == 0);
            }
            assert(until_fence(lv.skip(e as int)) =~= Seq::<Seq<char>>::empty());
        }
        stop = e;
    }
    let ghost body = lv.subrange(i as int, stop as int);
    proof {
        if !markdown {
            assert(body =~= lv);
        } else {
            assert(body =~= lv.subrange(1, stop as int) + Seq::<Seq<char>>::empty());
            assert(lv[0] == ls@[0]@);
        }
        assert(spec_declared_schema(text@, markdown) == first_schema(body));
    }
    let mut j: usize = i;
    assert(body.skip(0) =~= body);
    while j < stop
        invariant
            i <= j <= stop <= ls.len(),
            lv == views(ls@),
            body == lv.subrange(i as int, stop as int),
            spec_declared_schema(text@, markdown) == first_schema(body),
            first_schema(body) == first_schema(lv.subrange(j as int, stop as int)),
        decreases stop - j,
    {
        let ghost t = lv.subrange(j as int, stop as int);
        proof {
            assert(t[0] == ls@[j as int]@);
            assert(t.drop_first() =~= lv.subrange(j + 1, stop as int));
        }
        match schema_of_line(&ls[j]) {
            Some(x) => {
                return Some(x);
            },
            None => {},
        }
        j = j + 1;
    }
    proof {
        assert(lv.subrange(j as int, stop as int).len() == 0);
    }
    None
}

// ---------------------------------------------------------------------------
// The schemas a record file declares
// ---------------------------------------------------------------------------

/// The schema a read TOML document declares: its top-level `schema` when
/// that is a string; none when the document did not parse or has no string
/// `schema`.
pub open spec fn schema_of_toml(reading: Result<Seq<(Seq<char>, ScalarView)>, Seq<char>>) -> Option<Seq<char>> {
    match reading {
        Ok(fs) => text_field(fs, "schema"@),
        Err(_) => None,
    }
}

/// The schema a read JSON document declares: the top-level `schema` of an
/// object when that is a string.
pub open spec fn schema_of_json(reading: Result<JsonView, Seq<char>>) -> Option<Seq<char>> {
    match reading {
        Ok(JsonView::Object(fs)) => text_field(fs, "schema"@),
        _ => None,
    }
}

/// The version a read journal line declares: the `v` of a JSON object when
/// it is an unsigned integer.
pub open spec fn version_of_json(reading: Result<JsonView, Seq<char>>) -> Option<u64> {
    match reading {
        Ok(JsonView::Object(fs)) => match field_of(fs, "v"@) {
            Some(ScalarView::Number(n)) => n,
            _ => None,
        },
        _ => None,
    }
}

/// The schema a TOML text declares.
pub open spec fn toml_schema(text: Seq<char>) -> Option<Seq<char>> {
    schema_of_toml(toml_reading(text))
}

/// The schema a JSON text declares.
pub open spec fn json_schema(text: Seq<char>) -> Option<Seq<char>> {
    schema_of_json(json_reading(text))
}

/// The version a journal line declares.
pub open spec fn json_line_version(line: Seq<char>) -> Option<u64> {
    version_of_json(json_reading(line))
}

pub open spec fn opt_view(o: Option<String>) -> Option<Seq<char>> {
    match o {
        Some(s) => Some(s@),
        None => None,
    }
}

fn text_of(s: Option<&Scalar>) -> (r: Option<String>)
    ensures
        opt_view(r) == match s {
            Some(v) => match scalar_view(*v) {
                ScalarView::Text(t) => Some(t),
                _ => None::<Seq<char>>,
            },
            None => None,
        },
{
    match s {
        Some(Scalar::Text(t)) => Some(t.clone()),
        _ => None,
    }
}

/// The top-level `schema` string of a read TOML document.
pub fn toml_schema_of(reading: &Result<Vec<(String, Scalar)>, String>) -> (r: Option<String>)
    ensures
        opt_view(r) == schema_of_toml(toml_result_view(*reading)),
{
    match reading {
        Ok(fs) => text_of(find_field(fs, "schema")),
        Err(_) => None,
    }
}

/// The top-level `schema` string of a read JSON object.
pub fn json_schema_of(reading: &Result<JsonValue, String>) -> (r: Option<String>)
    ensures
        opt_view(r) == schema_of_json(json_result_view(*reading)),
{
    match reading {
        Ok(JsonValue::Object(fs)) => text_of(find_field(fs, "schema")),
        _ => None,
    }
}

/// The `v` of a read journal line, when it is an unsigned integer.
pub fn json_version_of(reading: &Result<JsonValue, String>) -> (r: Option<u64>)
    ensures
        r == version_of_json(json_result_view(*reading)),
{
    match reading {
        Ok(JsonValue::Object(fs)) => match find_field(fs, "v") {
            Some(Scalar::Number(n)) => *n,
            _ => None,
        },
        _ => None,
    }
}

/// The top-level `schema` string of a TOML text.
fn toml_schema_field(text: &str) -> (r: Option<String>)
    ensures
        opt_view(r) == toml_schema(text@),
{
    toml_schema_of(&read_toml(text))
}

/// The top-level `schema` string of a JSON text.
fn json_schema_field(text: &str) -> (r: Option<String>)
    ensures
        opt_view(r) == json_schema(text@),
{
    json_schema_of(&read_json(text))
}

/// The `v` of a journal line, when it is an unsigned integer.
fn json_line_version_field(line: &str) -> (r: Option<u64>)
    ensures
        r == json_line_version(line@),
{
    json_version_of(&read_json(line))
}

/// The journal's declarations: one `journal-event` per line whose `v` is a
/// number that fits a `u32`, in line order.
pub open spec fn journal_schemas(ls: Seq<Seq<char>>) -> Seq<(Seq<char>, u32)>
    decreases ls.len(),
{
    if ls.len() == 0 {
        seq![]
    } else {
        let rest = journal_schemas(ls.drop_last());
        match json_line_version(ls.last()) {
            Some(v) => if v <= u32::MAX {
                rest.push(("journal-event"@, v as u32))
            } else {
                rest
            },
            None => rest,
        }
    }
}

pub open spec fn schema_list(o: Option<(Seq<char>, u32)>) -> Seq<(Seq<char>, u32)> {
    match o {
        Some(p) => seq![p],
        None => seq![],
    }
}

pub open spec fn parsed_field(o: Option<Seq<char>>) -> Option<(Seq<char>, u32)> {
    match o {
        Some(t) => spec_parse_schema(t),
        None => None,
    }
}

/// The `(record, major)` each schema declaration in a file with extension
/// `ext` and text `text` names: TOML and JSON by their top-level `schema`,
/// the journal by each line's `v`, YAML records and Markdown front matter by
/// an unindented `schema:`; any other file declares nothing.
pub open spec fn spec_schemas_in(ext: Seq<char>, text: Seq<char>) -> Seq<(Seq<char>, u32)> {
    if ext == "toml"@ {
        schema_list(parsed_field(toml_schema(text)))
    } else if ext == "json"@ {
        schema_list(parsed_field(json_schema(text)))
    } else if ext == "jsonl"@ {
        journal_schemas(lines(text))
    } else if ext == "yaml"@ || ext == "yml"@ || ext == "md"@ {
        schema_list(spec_declared_schema(text, ext == "md"@))
    } else {
        seq![]
    }
}

pub open spec fn schema_views(v: Seq<(String, u32)>) -> Seq<(Seq<char>, u32)> {
    v.map_values(|p: (String, u32)| (p.0@, p.1))
}

fn one_schema(o: Option<(String, u32)>) -> (r: Vec<(String, u32)>)
    ensures
        schema_views(r@) == schema_list(match o {
            Some((a, n)) => Some((a@, n)),
            None => None,
        }),
{
    let mut out: Vec<(String, u32)> = Vec::new();
    match o {
        Some(p) => {
            out.push(p);
        },
        None => {},
    }
    proof {
        assert(schema_views(out@) =~= schema_list(match o {
            Some((a, n)) => Some((a@, n)),
            None => None,
        }));
    }
    out
}

fn parse_field(o: Option<String>) -> (r: Option<(String, u32)>)
    ensures
        match (r, parsed_field(opt_view(o))) {
            (Some((a, n)), Some((b, m))) => a@ == b && n == m,
            (None, None) => true,
            _ => false,
        },
{
    match o {
        Some(t) => parse_schema(t.as_str()),
        None => None,
    }
}

/// The schemas a record file declares, from its extension and text.
pub fn schemas_in(ext: &str, text: &str) -> (r: Vec<(String, u32)>)
    ensures
        schema_views(r@) == spec_schemas_in(ext@, text@),
{
    if str_eq(ext, "toml") {
        let p = parse_field(toml_schema_field(text));
        one_schema(p)
    } else if str_eq(ext, "json") {
        let p = parse_field(json_schema_field(text));
        one_schema(p)
    } else if str_eq(ext, "jsonl") {
        let ls = lines_of(&chars_of(text));
        let ghost lv = views(ls@);
        let mut out: Vec<(String, u32)> = Vec::new();
        let mut i: usize = 0;
        proof {
            assert(schema_views(out@) =~= journal_schemas(lv.take(0)));
        }
        while i < ls.len()
            invariant
                i <= ls.len(),
                lv == views(ls@),
                schema_views(out@) == journal_schemas(lv.take(i as int)),
            decreases ls.len() - i,
        {
            proof {
                assert(lv.take(i + 1).drop_last() =~= lv.take(i as int));
                assert(lv.take(i + 1).last() == ls@[i as int]@);
            }
            let line = string_of(&ls[i]);
            let ghost before = schema_views(out@);
            match json_line_version_field(line.as_str()) {
                Some(v) => {
                    if v <= 4294967295u64 {
                        out.push((string_of(&chars_of("journal-event")), v as u32));
                        proof {
                            assert(schema_views(out@) =~= before.push(("journal-event"@, v as u32)));
                        }
                    }
                },
                None => {},
            }
            i = i + 1;
        }
        proof {
            assert(lv.take(ls.len() as int) =~= lv);
        }
        out
    } else if str_eq(ext, "yaml") || str_eq(ext, "yml") || str_eq(ext, "md") {
        let md = str_eq(ext, "md");
        let p = declared_schema(text, md);
        one_schema(p)
    } else {
        let out: Vec<(String, u32)> = Vec::new();
        proof {
            assert(schema_views(out@) =~= Seq::<(Seq<char>, u32)>::empty());
        }
        out
    }
}

} // verus!
