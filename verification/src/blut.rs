//! `war blut`: what the BLUT neighbour answered, and how WAR ports map onto
//! its artifact kinds.
//!
//! Nothing is defaulted in a way that would flatter a result: a missing
//! `accepted` is not acceptance, an unstated recipe count is not zero, an
//! exit status that disagrees with the verdict makes it unrecordable, and a
//! WAR port type with no BLUT kind is incompatible rather than passed through.

use vstd::prelude::*;

use crate::diagnostic::{Diagnostic, Severity};
use crate::pins::{all_agree, finding_of, make, Finding};
use crate::text::{
    chars_of, decimal, join, push_decimal, push_join, push_str, str_eq, string_of, strs, views,
};
use crate::structured::{json_reading, json_result_view, read_json, JsonValue, JsonView};
use crate::warrant_rules::push_agreeing;

verus! {

/// The engine revision the port-kind table was read from.
pub const BLUT_PIN: &'static str = "33b3e047fd8eae50c4f706e7e3c7f4a3648a5778";

/// What BLUT said about a lowered plan.
#[derive(Debug, Clone, PartialEq, Eq)]
pub struct BlutVerdict {
    /// Whether BLUT typechecked the spec.
    pub accepted: bool,
    /// BLUT's own words: the plan's name, or on refusal its error.
    pub detail: String,
    /// The fingerprint BLUT computed, present only on acceptance.
    pub fingerprint: Option<String>,
    /// How many recipes the binary had registered, if it said.
    pub recipes_registered: Option<u64>,
    /// The binary that answered, and the code it exited with.
    pub binary: String,
    pub exit_code: i32,
}

pub open spec fn spec_describe_count(n: Option<u64>) -> Seq<char> {
    match n {
        None => "an unstated number of"@,
        Some(k) => decimal(k as nat),
    }
}

/// A count BLUT may not have reported: "unstated" is deliberately not "0".
pub fn describe_count(n: Option<u64>) -> (r: String)
    ensures
        r@ == spec_describe_count(n),
{
    match n {
        None => string_of(&chars_of("an unstated number of")),
        Some(k) => {
            let mut v: Vec<char> = Vec::new();
            push_decimal(&mut v, k);
            string_of(&v)
        },
    }
}

/// The port-kind map: a WAR port type and the BLUT kind it is. A type with
/// no entry has none.
pub open spec fn spec_blut_kind(war_type: Seq<char>) -> Option<Seq<char>> {
    if war_type == "war/corpus"@ {
        Some("dataset.jsonl"@)
    } else if war_type == "war/preferences"@ {
        Some("dataset.preferences"@)
    } else if war_type == "war/split"@ {
        Some("dataset.split"@)
    } else if war_type == "war/checkpoint"@ {
        Some("checkpoint.hf"@)
    } else if war_type == "war/model"@ {
        Some("model.gguf"@)
    } else if war_type == "war/report"@ {
        Some("eval.report"@)
    } else if war_type == "war/checks"@ {
        Some("checks.jsonl"@)
    } else {
        None
    }
}

/// The BLUT kind a WAR port type maps to.
pub fn blut_kind(war_type: &str) -> (r: Option<&'static str>)
    ensures
        match (r, spec_blut_kind(war_type@)) {
            (Some(a), Some(b)) => a@ == b,
            (None, None) => true,
            _ => false,
        },
{
    if str_eq(war_type, "war/corpus") {
        Some("dataset.jsonl")
    } else if str_eq(war_type, "war/preferences") {
        Some("dataset.preferences")
    } else if str_eq(war_type, "war/split") {
        Some("dataset.split")
    } else if str_eq(war_type, "war/checkpoint") {
        Some("checkpoint.hf")
    } else if str_eq(war_type, "war/model") {
        Some("model.gguf")
    } else if str_eq(war_type, "war/report") {
        Some("eval.report")
    } else if str_eq(war_type, "war/checks") {
        Some("checks.jsonl")
    } else {
        None
    }
}

/// One declared port and what it maps to.
#[derive(Debug, Clone, PartialEq, Eq)]
pub struct PortMapping {
    pub war_port: String,
    /// The BLUT kind, or the WAR type when there is none.
    pub blut_kind: String,
    pub compatible: bool,
}

/// The mapping of port `name` of type `port_type` on stage `stage_id`: an
/// unmapped type is reported as itself and marked incompatible.
pub fn map_port(stage_id: &str, name: &str, port_type: &str) -> (r: PortMapping)
    ensures
        r.war_port@ == stage_id@ + "."@ + name@,
        r.compatible == spec_blut_kind(port_type@) is Some,
        r.blut_kind@ == match spec_blut_kind(port_type@) {
            Some(k) => k,
            None => port_type@,
        },
{
    let mut p = chars_of(stage_id);
    push_str(&mut p, ".");
    push_str(&mut p, name);
    let mapped = blut_kind(port_type);
    let kind = match mapped {
        Some(k) => string_of(&chars_of(k)),
        None => string_of(&chars_of(port_type)),
    };
    PortMapping { war_port: string_of(&p), blut_kind: kind, compatible: mapped.is_some() }
}

/// What the neighbour's JSON answer held, field by field, each absent when
/// it was missing or of another type.
#[derive(Debug, Clone, PartialEq, Eq)]
pub struct BlutAnswer {
    pub accepted: Option<bool>,
    pub name: Option<String>,
    pub error: Option<String>,
    pub fingerprint: Option<String>,
    pub recipes_registered: Option<u64>,
    /// The whole JSON answer as text, for messages.
    pub rendered: String,
}

pub open spec fn killed(binary: Seq<char>) -> Seq<char> {
    "`"@ + binary
        + " plan check` was killed by a signal and never exited normally, so it produced no verdict. Whatever it printed first is not an answer."@
}

pub open spec fn no_accepted(binary: Seq<char>, rendered: Seq<char>) -> Seq<char> {
    "`"@ + binary
        + " plan check --json` printed JSON with no `accepted` field, so there is no verdict to record: "@
        + rendered
}

pub open spec fn bool_word(b: bool) -> Seq<char> {
    if b {
        "true"@
    } else {
        "false"@
    }
}

pub open spec fn int_text(n: i32) -> Seq<char> {
    if n < 0 {
        "-"@ + decimal((-n) as nat)
    } else {
        decimal(n as nat)
    }
}

pub open spec fn disagreeing(binary: Seq<char>, accepted: bool, code: i32) -> Seq<char> {
    "`"@ + binary + " plan check` reported accepted="@ + bool_word(accepted)
        + " but exited with "@ + int_text(code)
        + ". A verdict that disagrees with its own exit status is not recordable."@
}

pub open spec fn no_detail(binary: Seq<char>, accepted: bool, rendered: Seq<char>) -> Seq<char> {
    "`"@ + binary + " plan check --json` reported accepted="@ + bool_word(accepted) + " but no `"@
        + (if accepted {
        "name"@
    } else {
        "error"@
    }) + "` field, so there is nothing to record but a string this repository made up: "@
        + rendered
}

/// The verdict an answer makes, or why there is none: killed by a signal;
/// no `accepted`; an exit status that disagrees with it; no detail.
pub open spec fn spec_verdict(binary: Seq<char>, exit_code: Option<i32>, a: BlutAnswer) -> Result<
    (bool, Seq<char>),
    Seq<char>,
> {
    match exit_code {
        None => Err(killed(binary)),
        Some(code) => match a.accepted {
            None => Err(no_accepted(binary, a.rendered@)),
            Some(acc) => if acc != (code == 0) {
                Err(disagreeing(binary, acc, code))
            } else {
                match (if acc {
                    a.name
                } else {
                    a.error
                }) {
                    None => Err(no_detail(binary, acc, a.rendered@)),
                    Some(d) => Ok((acc, d@)),
                }
            },
        },
    }
}

fn push_int(v: &mut Vec<char>, n: i32)
    ensures
        final(v)@ == old(v)@ + int_text(n),
{
    if n < 0 {
        push_str(v, "-");
        let m: i64 = -(n as i64);
        push_decimal(v, m as u64);
    } else {
        push_decimal(v, n as u64);
    }
}

/// The verdict BLUT's answer amounts to, read field by field and checked
/// against the binary's exit status.
pub fn verdict_of(binary: &str, exit_code: Option<i32>, a: &BlutAnswer) -> (r: Result<
    BlutVerdict,
    String,
>)
    ensures
        match (r, spec_verdict(binary@, exit_code, *a)) {
            (Ok(v), Ok((acc, d))) => {
                &&& v.accepted == acc
                &&& v.detail@ == d
                &&& v.fingerprint == a.fingerprint
                &&& v.recipes_registered == a.recipes_registered
                &&& v.binary@ == binary@
                &&& Some(v.exit_code) == exit_code
            },
            (Err(m), Err(n)) => m@ == n,
            _ => false,
        },
{
    let code = match exit_code {
        None => {
            let mut v = chars_of("`");
            push_str(&mut v, binary);
            push_str(
                &mut v,
                " plan check` was killed by a signal and never exited normally, so it produced no verdict. Whatever it printed first is not an answer.",
            );
            return Err(string_of(&v));
        },
        Some(c) => c,
    };
    let accepted = match a.accepted {
        None => {
            let mut v = chars_of("`");
            push_str(&mut v, binary);
            push_str(
                &mut v,
                " plan check --json` printed JSON with no `accepted` field, so there is no verdict to record: ",
            );
            push_str(&mut v, a.rendered.as_str());
            return Err(string_of(&v));
        },
        Some(b) => b,
    };
    if accepted != (code == 0) {
        let mut v = chars_of("`");
        push_str(&mut v, binary);
        push_str(&mut v, " plan check` reported accepted=");
        push_str(&mut v, if accepted { "true" } else { "false" });
        push_str(&mut v, " but exited with ");
        push_int(&mut v, code);
        push_str(&mut v, ". A verdict that disagrees with its own exit status is not recordable.");
        return Err(string_of(&v));
    }
    let detail = if accepted { &a.name } else { &a.error };
    match detail {
        None => {
            let mut v = chars_of("`");
            push_str(&mut v, binary);
            push_str(&mut v, " plan check --json` reported accepted=");
            push_str(&mut v, if accepted { "true" } else { "false" });
            push_str(&mut v, " but no `");
            push_str(&mut v, if accepted { "name" } else { "error" });
            push_str(
                &mut v,
                "` field, so there is nothing to record but a string this repository made up: ",
            );
            push_str(&mut v, a.rendered.as_str());
            Err(string_of(&v))
        },
        Some(d) => Ok(
            BlutVerdict {
                accepted,
                detail: string_of(&chars_of(d.as_str())),
                fingerprint: a.fingerprint.clone(),
                recipes_registered: a.recipes_registered,
                binary: string_of(&chars_of(binary)),
                exit_code: code,
            },
        ),
    }
}

// ---------------------------------------------------------------------------
// Lowering a milestone graph
// ---------------------------------------------------------------------------

/// A declared port of a stage.
#[derive(Debug)]
pub struct Port {
    pub name: String,
    pub port_type: String,
}

/// What lowering reads of one stage of the milestone graph: its id, whether
/// its executor is BLUT, which BLUT stage it names, and its ports.
#[derive(Debug)]
pub struct LowerStage {
    pub id: String,
    pub blut: bool,
    pub executor_ref: Option<String>,
    pub inputs: Vec<Port>,
    pub outputs: Vec<Port>,
}

/// The first twelve characters of the pin, as findings quote it.
pub open spec fn short_pin() -> Seq<char> {
    BLUT_PIN@.take(12)
}

/// The stages whose executor is BLUT, by position, in order.
pub open spec fn spec_lowerable(stages: Seq<LowerStage>) -> Seq<int>
    decreases stages.len(),
{
    if stages.len() == 0 {
        seq![]
    } else {
        let before = spec_lowerable(stages.drop_last());
        if stages.last().blut {
            before.push(stages.len() - 1)
        } else {
            before
        }
    }
}

/// The ids of the stages whose executor is not BLUT, in order.
pub open spec fn spec_foreign(stages: Seq<LowerStage>) -> Seq<Seq<char>>
    decreases stages.len(),
{
    if stages.len() == 0 {
        seq![]
    } else {
        let before = spec_foreign(stages.drop_last());
        if !stages.last().blut {
            before.push(stages.last().id@)
        } else {
            before
        }
    }
}

/// Whether a lowerable stage names no BLUT stage: no `executor_ref`, or
/// one that is blank.
pub open spec fn unbound(s: LowerStage) -> bool {
    match s.executor_ref {
        None => true,
        Some(r) => crate::text::trim(r@).len() == 0,
    }
}

/// The ids of the lowerable stages that name no BLUT stage, in order.
pub open spec fn spec_unbound(stages: Seq<LowerStage>) -> Seq<Seq<char>>
    decreases stages.len(),
{
    if stages.len() == 0 {
        seq![]
    } else {
        let before = spec_unbound(stages.drop_last());
        if stages.last().blut && unbound(stages.last()) {
            before.push(stages.last().id@)
        } else {
            before
        }
    }
}

/// How many ports the lowerable stages declare.
pub open spec fn spec_ports(stages: Seq<LowerStage>) -> nat
    decreases stages.len(),
{
    if stages.len() == 0 {
        0
    } else {
        spec_ports(stages.drop_last()) + if stages.last().blut {
            (stages.last().inputs.len() + stages.last().outputs.len()) as nat
        } else {
            0nat
        }
    }
}

/// The BLUT stage each lowerable stage names, in order (the reference as
/// written).
pub open spec fn spec_nodes(stages: Seq<LowerStage>) -> Seq<Seq<char>>
    decreases stages.len(),
{
    if stages.len() == 0 {
        seq![]
    } else {
        let before = spec_nodes(stages.drop_last());
        if stages.last().blut {
            before.push(match stages.last().executor_ref { Some(r) => r@, None => seq![] })
        } else {
            before
        }
    }
}

/// The edges of a plan of `n` nodes: each node after the first follows the
/// one before it.
pub open spec fn chain_edges(n: nat) -> Seq<(u32, u32)> {
    Seq::new(if n > 0 { (n - 1) as nat } else { 0 }, |i: int| (u32_or_zero(i), u32_or_zero(i + 1)))
}

/// A position as a `u32`, or 0 where it does not fit.
pub open spec fn u32_or_zero(i: int) -> u32 {
    if 0 <= i <= u32::MAX {
        i as u32
    } else {
        0
    }
}

/// A plan lowered from a milestone graph: the BLUT stage of each node, and
/// the edges between them.
#[derive(Debug)]
pub struct LoweredPlan {
    pub nodes: Vec<String>,
    pub edges: Vec<(u32, u32)>,
}

/// What lowering decides once the ports are mapped (`mapped` of them): the
/// findings in order, and the plan when the graph lowers. A graph with no
/// stages, or with no BLUT stage, is refused with a warning; a lowerable
/// stage that names no BLUT stage is an error; otherwise the ports are
/// reported (as unchecked when there are none) and the plan passes.
pub open spec fn spec_lower(
    alias: Seq<char>,
    stages: Seq<LowerStage>,
    mapped: nat,
) -> (Seq<Finding>, Option<(Seq<Seq<char>>, Seq<(u32, u32)>)>) {
    let n = spec_lowerable(stages).len();
    if stages.len() == 0 {
        (seq![(Severity::Warn, "blut.no-stages"@, true, alias + ": declares no stages, so there is nothing to lower"@)], None)
    } else if n == 0 {
        (
            seq![(
                Severity::Warn,
                "blut.not-computational"@,
                true,
                alias
                    + ": no stage declares `executor_kind: blut`, so this Warrant is not a computational WAR. Refused rather than lowered — §49.2 says reject, not degrade. Foreign executors present: "@
                    + join(spec_foreign(stages), ", "@),
            )],
            None,
        )
    } else {
        let ports: Finding = if spec_ports(stages) == 0 {
            (
                Severity::Warn,
                "blut.no-ports"@,
                true,
                alias + ": "@ + decimal(n)
                    + " lowerable stage(s) declare no inputs or outputs, so §49.2's port-kind check had nothing to check. This is not a passed check — the PlanSpec below carries no typed edges at all."@,
            )
        } else {
            (
                Severity::Pass,
                "blut.ports-mapped"@,
                false,
                alias + ": "@ + decimal(mapped) + " port(s) map to kinds BLUT declares at "@ + short_pin(),
            )
        };
        if spec_unbound(stages).len() > 0 {
            (
                seq![
                    ports,
                    (
                        Severity::Error,
                        "blut.unbound-stage"@,
                        true,
                        alias + ": stage(s) "@ + join(spec_unbound(stages), ", "@)
                            + " declare `executor_kind: blut` but no `executor_ref`, so nothing says which BLUT stage they are. Refused rather than lowered under the WAR id — guessing produces a PlanSpec that names a stage the author never chose."@,
                    ),
                ],
                None,
            )
        } else {
            (
                seq![
                    ports,
                    (
                        Severity::Pass,
                        "blut.lowered"@,
                        false,
                        alias + ": lowered "@ + decimal(n) + " stage(s) against a pinned registry (blut@"@ + short_pin() + ")"@,
                    ),
                ],
                Some((spec_nodes(stages), chain_edges(n))),
            )
        }
    }
}

/// A port mapping as plain values.
pub open spec fn mapping_of(stage_id: Seq<char>, p: Port) -> (Seq<char>, Seq<char>, bool) {
    (
        stage_id + "."@ + p.name@,
        match spec_blut_kind(p.port_type@) {
            Some(k) => k,
            None => p.port_type@,
        },
        spec_blut_kind(p.port_type@) is Some,
    )
}

pub open spec fn stage_mappings(s: LowerStage) -> Seq<(Seq<char>, Seq<char>, bool)> {
    (s.inputs@ + s.outputs@).map_values(|p: Port| mapping_of(s.id@, p))
}

/// The port mappings of the lowerable stages: each stage's inputs, then its
/// outputs, stage by stage.
pub open spec fn spec_mappings(stages: Seq<LowerStage>) -> Seq<(Seq<char>, Seq<char>, bool)>
    decreases stages.len(),
{
    if stages.len() == 0 {
        seq![]
    } else {
        spec_mappings(stages.drop_last()) + if stages.last().blut {
            stage_mappings(stages.last())
        } else {
            seq![]
        }
    }
}

pub open spec fn mapping_views(ms: Seq<PortMapping>) -> Seq<(Seq<char>, Seq<char>, bool)> {
    ms.map_values(|m: PortMapping| (m.war_port@, m.blut_kind@, m.compatible))
}

fn push_ports(out: &mut Vec<PortMapping>, stage_id: &str, ports: &Vec<Port>)
    ensures
        mapping_views(final(out)@) == mapping_views(old(out)@) + ports@.map_values(|p: Port| mapping_of(stage_id@, p)),
{
    let ghost start = mapping_views(out@);
    let mut i: usize = 0;
    while i < ports.len()
        invariant
            i <= ports.len(),
            mapping_views(out@) == start + ports@.take(i as int).map_values(|p: Port| mapping_of(stage_id@, p)),
        decreases ports.len() - i,
    {
        let m = map_port(stage_id, ports[i].name.as_str(), ports[i].port_type.as_str());
        let ghost before = out@;
        out.push(m);
        proof {
            assert(mapping_views(out@) =~= mapping_views(before).push(mapping_of(stage_id@, ports@[i as int])));
            assert(ports@.take(i + 1).map_values(|p: Port| mapping_of(stage_id@, p)) =~= ports@.take(i as int).map_values(|p: Port| mapping_of(stage_id@, p)).push(mapping_of(stage_id@, ports@[i as int])));
        }
        i = i + 1;
    }
    proof {
        assert(ports@.take(ports.len() as int) =~= ports@);
    }
}

/// The port mappings of the stages whose executor is BLUT.
pub fn port_mappings(stages: &Vec<LowerStage>) -> (r: Vec<PortMapping>)
    ensures
        mapping_views(r@) == spec_mappings(stages@),
{
    let mut out: Vec<PortMapping> = Vec::new();
    let mut i: usize = 0;
    while i < stages.len()
        invariant
            i <= stages.len(),
            mapping_views(out@) == spec_mappings(stages@.take(i as int)),
        decreases stages.len() - i,
    {
        proof {
            assert(stages@.take(i + 1).drop_last() =~= stages@.take(i as int));
            assert(stages@.take(i + 1).last() == stages@[i as int]);
        }
        let s = &stages[i];
        if s.blut {
            let ghost before = mapping_views(out@);
            push_ports(&mut out, s.id.as_str(), &s.inputs);
            push_ports(&mut out, s.id.as_str(), &s.outputs);
            proof {
                assert((s.inputs@ + s.outputs@).map_values(|p: Port| mapping_of(s.id@, p)) =~= s.inputs@.map_values(|p: Port| mapping_of(s.id@, p)) + s.outputs@.map_values(|p: Port| mapping_of(s.id@, p)));
            }
        } else {
            proof {
                assert(mapping_views(out@) + seq![] =~= mapping_views(out@));
            }
        }
        i = i + 1;
    }
    proof {
        assert(stages@.take(stages.len() as int) =~= stages@);
    }
    out
}

pub open spec fn plan_view(p: Option<LoweredPlan>) -> Option<(Seq<Seq<char>>, Seq<(u32, u32)>)> {
    match p {
        Some(lp) => Some((strs(lp.nodes@), lp.edges@)),
        None => None,
    }
}

fn stage_ids_where(stages: &Vec<LowerStage>, foreign: bool) -> (r: Vec<Vec<char>>)
    ensures
        foreign ==> views(r@) == spec_foreign(stages@),
        !foreign ==> views(r@) == spec_unbound(stages@),
{
    let mut out: Vec<Vec<char>> = Vec::new();
    let mut i: usize = 0;
    while i < stages.len()
        invariant
            i <= stages.len(),
            foreign ==> views(out@) == spec_foreign(stages@.take(i as int)),
            !foreign ==> views(out@) == spec_unbound(stages@.take(i as int)),
        decreases stages.len() - i,
    {
        proof {
            assert(stages@.take(i + 1).drop_last() =~= stages@.take(i as int));
            assert(stages@.take(i + 1).last() == stages@[i as int]);
        }
        let s = &stages[i];
        let pick = if foreign {
            !s.blut
        } else {
            s.blut && match &s.executor_ref {
                None => true,
                Some(r) => crate::text::trimmed(&chars_of(r.as_str())).len() == 0,
            }
        };
        if pick {
            let ghost before = out@;
            out.push(chars_of(s.id.as_str()));
            proof {
                assert(views(out@) =~= views(before).push(s.id@));
            }
        }
        i = i + 1;
    }
    proof {
        assert(stages@.take(stages.len() as int) =~= stages@);
    }
    out
}

fn count_lowerable(stages: &Vec<LowerStage>) -> (r: (usize, bool))
    ensures
        r.0 == spec_lowerable(stages@).len(),
        r.1 == (spec_ports(stages@) == 0),
{
    let mut n: usize = 0;
    let mut none: bool = true;
    let mut i: usize = 0;
    while i < stages.len()
        invariant
            i <= stages.len(),
            n <= i,
            n == spec_lowerable(stages@.take(i as int)).len(),
            none == (spec_ports(stages@.take(i as int)) == 0),
        decreases stages.len() - i,
    {
        proof {
            assert(stages@.take(i + 1).drop_last() =~= stages@.take(i as int));
            assert(stages@.take(i + 1).last() == stages@[i as int]);
        }
        if stages[i].blut {
            n = n + 1;
            if stages[i].inputs.len() > 0 || stages[i].outputs.len() > 0 {
                none = false;
            }
        }
        i = i + 1;
    }
    proof {
        assert(stages@.take(stages.len() as int) =~= stages@);
    }
    (n, none)
}

/// What lowering reports and the plan it produces, once `mapped` ports are
/// mapped: a graph with no stages is reported against the manifest
/// (`manifest_file`), everything else against the milestones atom
/// (`milestones_file`).
pub fn lower_findings(
    alias: &str,
    manifest_file: &str,
    milestones_file: &str,
    stages: &Vec<LowerStage>,
    mapped: usize,
) -> (r: (Vec<Diagnostic>, Option<LoweredPlan>))
    ensures
        all_agree(r.0@, if stages.len() == 0 { manifest_file@ } else { milestones_file@ }, spec_lower(alias@, stages@, mapped as nat).0),
        plan_view(r.1) == spec_lower(alias@, stages@, mapped as nat).1,
{
    let mut out: Vec<Diagnostic> = Vec::new();
    let ghost want = spec_lower(alias@, stages@, mapped as nat);
    let ghost e = Seq::<Finding>::empty();
    if stages.len() == 0 {
        let mut m = chars_of(alias);
        push_str(&mut m, ": declares no stages, so there is nothing to lower");
        let d = make(Severity::Warn, "blut.no-stages", true, manifest_file, &m);
        push_agreeing(&mut out, d, Ghost(manifest_file@), Ghost(e), Ghost(want.0[0]));
        proof { assert(e.push(want.0[0]) =~= want.0); }
        return (out, None);
    }
    let (n, no_ports) = count_lowerable(stages);
    if n == 0 {
        let foreign = stage_ids_where(stages, true);
        let mut m = chars_of(alias);
        push_str(&mut m, ": no stage declares `executor_kind: blut`, so this Warrant is not a computational WAR. Refused rather than lowered — §49.2 says reject, not degrade. Foreign executors present: ");
        push_join(&mut m, &foreign, foreign.len(), ", ");
        proof { assert(views(foreign@).take(foreign.len() as int) =~= views(foreign@)); }
        let d = make(Severity::Warn, "blut.not-computational", true, milestones_file, &m);
        push_agreeing(&mut out, d, Ghost(milestones_file@), Ghost(e), Ghost(want.0[0]));
        proof { assert(e.push(want.0[0]) =~= want.0); }
        return (out, None);
    }
    let pin = chars_of(BLUT_PIN);
    proof { reveal_strlit("33b3e047fd8eae50c4f706e7e3c7f4a3648a5778"); }
    let short = crate::text::slice_of(&pin, 0, 12);
    proof { assert(short@ =~= short_pin()); }
    let mut m = chars_of(alias);
    push_str(&mut m, ": ");
    let d = if no_ports {
        push_decimal(&mut m, n as u64);
        push_str(&mut m, " lowerable stage(s) declare no inputs or outputs, so §49.2's port-kind check had nothing to check. This is not a passed check — the PlanSpec below carries no typed edges at all.");
        make(Severity::Warn, "blut.no-ports", true, milestones_file, &m)
    } else {
        push_decimal(&mut m, mapped as u64);
        push_str(&mut m, " port(s) map to kinds BLUT declares at ");
        crate::text::push_all(&mut m, &short);
        make(Severity::Pass, "blut.ports-mapped", false, milestones_file, &m)
    };
    push_agreeing(&mut out, d, Ghost(milestones_file@), Ghost(e), Ghost(want.0[0]));
    let unbound_ids = stage_ids_where(stages, false);
    if unbound_ids.len() > 0 {
        let mut w = chars_of(alias);
        push_str(&mut w, ": stage(s) ");
        push_join(&mut w, &unbound_ids, unbound_ids.len(), ", ");
        push_str(&mut w, " declare `executor_kind: blut` but no `executor_ref`, so nothing says which BLUT stage they are. Refused rather than lowered under the WAR id — guessing produces a PlanSpec that names a stage the author never chose.");
        proof { assert(views(unbound_ids@).take(unbound_ids.len() as int) =~= views(unbound_ids@)); }
        let d2 = make(Severity::Error, "blut.unbound-stage", true, milestones_file, &w);
        push_agreeing(&mut out, d2, Ghost(milestones_file@), Ghost(e.push(want.0[0])), Ghost(want.0[1]));
        proof { assert(e.push(want.0[0]).push(want.0[1]) =~= want.0); }
        return (out, None);
    }
    let mut nodes: Vec<String> = Vec::new();
    let mut i: usize = 0;
    while i < stages.len()
        invariant
            i <= stages.len(),
            strs(nodes@) == spec_nodes(stages@.take(i as int)),
        decreases stages.len() - i,
    {
        proof {
            assert(stages@.take(i + 1).drop_last() =~= stages@.take(i as int));
            assert(stages@.take(i + 1).last() == stages@[i as int]);
        }
        if stages[i].blut {
            let node = match &stages[i].executor_ref {
                Some(r) => string_of(&chars_of(r.as_str())),
                None => String::new(),
            };
            let ghost before = nodes@;
            nodes.push(node);
            proof {
                assert(strs(nodes@) =~= strs(before).push(match stages@[i as int].executor_ref { Some(r) => r@, None => seq![] }));
            }
        }
        i = i + 1;
    }
    proof {
        assert(stages@.take(stages.len() as int) =~= stages@);
    }
    let mut edges: Vec<(u32, u32)> = Vec::new();
    let mut k: usize = 1;
    while k < n
        invariant
            1 <= k,
            k <= n || n == 0,
            n > 0,
            edges@ == Seq::new((k - 1) as nat, |j: int| (u32_or_zero(j), u32_or_zero(j + 1))),
        decreases n - k,
    {
        let a: u32 = if k - 1 <= 0xffff_ffffusize { (k - 1) as u32 } else { 0 };
        let b: u32 = if k <= 0xffff_ffffusize { k as u32 } else { 0 };
        let ghost before = edges@;
        edges.push((a, b));
        proof {
            assert(edges@ =~= Seq::new(k as nat, |j: int| (u32_or_zero(j), u32_or_zero(j + 1))));
        }
        k = k + 1;
    }
    proof {
        assert(edges@ =~= chain_edges(n as nat));
    }
    let mut lm = chars_of(alias);
    push_str(&mut lm, ": lowered ");
    push_decimal(&mut lm, n as u64);
    push_str(&mut lm, " stage(s) against a pinned registry (blut@");
    crate::text::push_all(&mut lm, &short);
    push_str(&mut lm, ")");
    let d3 = make(Severity::Pass, "blut.lowered", false, milestones_file, &lm);
    push_agreeing(&mut out, d3, Ghost(milestones_file@), Ghost(e.push(want.0[0])), Ghost(want.0[1]));
    proof { assert(e.push(want.0[0]).push(want.0[1]) =~= want.0); }
    (out, Some(LoweredPlan { nodes, edges }))
}

/// The fingerprint as findings quote it: at most its first twelve
/// characters, `<none reported>` when BLUT gave none.
pub open spec fn fingerprint_text(f: Option<String>) -> Seq<char> {
    match f {
        None => "<none reported>"@,
        Some(s) => s@.take(if s@.len() < 12 { s@.len() as int } else { 12 }),
    }
}

/// The finding on what BLUT answered. Acceptance passes; a refusal is unknown
/// rather than an error, since obtaining an authoritative answer is what
/// the command is for. The fingerprint is quoted by its first characters,
/// which must be ASCII.
pub fn verdict_finding(alias: &str, milestones_file: &str, v: &BlutVerdict) -> (d: Diagnostic)
    requires
        v.fingerprint matches Some(f) ==> forall|i: int| 0 <= i < f@.len() && i < 12 ==> (f@[i] as u32) < 128,
    ensures
        finding_of(d, milestones_file@) == Some(if v.accepted {
            (
                Severity::Pass,
                "blut.accepted"@,
                false,
                alias@ + ": BLUT accepted the lowering (fingerprint "@ + fingerprint_text(v.fingerprint) + ", "@
                    + spec_describe_count(v.recipes_registered) + " recipes registered, exit "@ + int_text(v.exit_code)
                    + ") — reported by "@ + v.binary@,
            )
        } else {
            (
                Severity::Unknown,
                "blut.refused"@,
                true,
                alias@ + ": BLUT refused the lowering (exit "@ + int_text(v.exit_code) + ", "@
                    + spec_describe_count(v.recipes_registered) + " recipes registered) — "@ + v.detail@,
            )
        }),
{
    let mut m = chars_of(alias);
    if v.accepted {
        push_str(&mut m, ": BLUT accepted the lowering (fingerprint ");
        match &v.fingerprint {
            None => push_str(&mut m, "<none reported>"),
            Some(f) => {
                let fv = chars_of(f.as_str());
                let n = if fv.len() < 12 { fv.len() } else { 12 };
                let head = crate::text::slice_of(&fv, 0, n);
                crate::text::push_all(&mut m, &head);
            },
        }
        push_str(&mut m, ", ");
        push_str(&mut m, describe_count(v.recipes_registered).as_str());
        push_str(&mut m, " recipes registered, exit ");
        push_int(&mut m, v.exit_code);
        push_str(&mut m, ") — reported by ");
        push_str(&mut m, v.binary.as_str());
        make(Severity::Pass, "blut.accepted", false, milestones_file, &m)
    } else {
        push_str(&mut m, ": BLUT refused the lowering (exit ");
        push_int(&mut m, v.exit_code);
        push_str(&mut m, ", ");
        push_str(&mut m, describe_count(v.recipes_registered).as_str());
        push_str(&mut m, " recipes registered) — ");
        push_str(&mut m, v.detail.as_str());
        make(Severity::Unknown, "blut.refused", true, milestones_file, &m)
    }
}

/// The note a lowering with no BLUT binary to ask carries, with the plan's
/// JSON.
pub fn unverified_note(json: &str) -> (r: String)
    ensures
        r@ == "This PlanSpec is structurally faithful to a schema read from BLUT at "@ + short_pin()
            + ", and has NOT been through BLUT's parser — no binary was named. Pass --verify <blut-binary> to get BLUT's own verdict; \"BLUT accepted this\" is a strictly stronger claim than anything here establishes.\n\n"@
            + json@,
{
    let pin = chars_of(BLUT_PIN);
    proof { reveal_strlit("33b3e047fd8eae50c4f706e7e3c7f4a3648a5778"); }
    let short = crate::text::slice_of(&pin, 0, 12);
    proof { assert(short@ =~= short_pin()); }
    let mut m = chars_of("This PlanSpec is structurally faithful to a schema read from BLUT at ");
    crate::text::push_all(&mut m, &short);
    push_str(&mut m, ", and has NOT been through BLUT's parser — no binary was named. Pass --verify <blut-binary> to get BLUT's own verdict; \"BLUT accepted this\" is a strictly stronger claim than anything here establishes.\n\n");
    push_str(&mut m, json);
    string_of(&m)
}

/// The note beside what BLUT answered, saying whose answer it is and what it is
/// not, with the plan's JSON.
pub fn verdict_note(binary: &str, json: &str) -> (r: String)
    ensures
        r@ == "Verdict obtained from "@ + binary@
            + " — a separate program this repository does not control, whose refusal messages it cannot author. That is what makes it `authoritative_external` (§40.2) rather than a self-report (§51.3).\n\nIt is NOT an execution. OW-WAR-0047's OBL-001 asks for status, artifact and lineage receipts from a real BLUT run; a typecheck produces none of those, so this does not discharge it.\n\nNote that every stage this repository names is a `STAGE-NNN` identifier that no cookbook compiles in, so a refusal naming an unknown stage is the expected and correct answer, not a defect in the lowering.\n\n"@
            + json@,
{
    let mut m = chars_of("Verdict obtained from ");
    push_str(&mut m, binary);
    push_str(&mut m, " — a separate program this repository does not control, whose refusal messages it cannot author. That is what makes it `authoritative_external` (§40.2) rather than a self-report (§51.3).\n\nIt is NOT an execution. OW-WAR-0047's OBL-001 asks for status, artifact and lineage receipts from a real BLUT run; a typecheck produces none of those, so this does not discharge it.\n\nNote that every stage this repository names is a `STAGE-NNN` identifier that no cookbook compiles in, so a refusal naming an unknown stage is the expected and correct answer, not a defect in the lowering.\n\n");
    push_str(&mut m, json);
    string_of(&m)
}

/// Why a stage's `executor_args`, given serde_json's reading of them, are
/// refused: not JSON, or JSON that is not an object (stage arguments are
/// named). None when they are an object.
pub open spec fn spec_args_refusal(stage_id: Seq<char>, reading: Result<JsonView, Seq<char>>) -> Option<Seq<char>> {
    match reading {
        Ok(JsonView::Object(_)) => None,
        Ok(_) => Some(
            "stage "@ + stage_id + ": `executor_args` must be a JSON object — stage arguments are named"@,
        ),
        Err(e) => Some("stage "@ + stage_id + ": `executor_args` is not JSON: "@ + e),
    }
}

/// The refusal for a stage's `executor_args` given how they read.
pub fn args_refusal(stage_id: &str, reading: &Result<JsonValue, String>) -> (r: Option<String>)
    ensures
        match r {
            Some(m) => spec_args_refusal(stage_id@, json_result_view(*reading)) == Some(m@),
            None => spec_args_refusal(stage_id@, json_result_view(*reading)) is None,
        },
{
    match reading {
        Ok(JsonValue::Object(_)) => None,
        Ok(_) => {
            let mut m = chars_of("stage ");
            push_str(&mut m, stage_id);
            push_str(&mut m, ": `executor_args` must be a JSON object — stage arguments are named");
            Some(string_of(&m))
        },
        Err(e) => {
            let mut m = chars_of("stage ");
            push_str(&mut m, stage_id);
            push_str(&mut m, ": `executor_args` is not JSON: ");
            push_str(&mut m, e.as_str());
            Some(string_of(&m))
        },
    }
}

/// Whether a stage's `executor_args` may be lowered: absent ones are an
/// empty object; present ones must read as a JSON object. The refusal
/// otherwise.
pub fn executor_args_refusal(stage_id: &str, raw: Option<&str>) -> (r: Option<String>)
    ensures
        match raw {
            None => r is None,
            Some(t) => match r {
                Some(m) => spec_args_refusal(stage_id@, json_reading(t@)) == Some(m@),
                None => spec_args_refusal(stage_id@, json_reading(t@)) is None,
            },
        },
{
    match raw {
        None => None,
        Some(t) => args_refusal(stage_id, &read_json(t)),
    }
}

} // verus!
