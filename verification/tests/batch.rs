use openwarrant::batch::{
    batch_next, batch_start, recorded_message, refusal_message, unkept_message, BatchAction, BatchEvent,
    BatchPhase, BatchRefusal,
};
use openwarrant::batch::marker_paths;
use openwarrant::batch::{
    batch_id, choose_acts, left_out_acceptance, left_out_signer, recover_alone, would_record,
    act_word, batch_members, interrupted_message, recover_target, recoverable, touches,
    unreadable_marker, Listed, Marker, Root, Signer, RECORDING_SCHEMA,
};
use openwarrant::console::Pending;

fn marker() -> Marker {
    Marker {
        schema: RECORDING_SCHEMA.to_owned(),
        batch_id: "B-7".to_owned(),
        roots: vec![Root {
            dir: "docs/warrants/OW-WAR-0001".to_owned(),
            copy: Some("0".to_owned()),
        }],
        paths: vec![
            Listed {
                path: "docs/warrants/OW-WAR-0001/authorization.toml".to_owned(),
                prior: "absent".to_owned(),
            },
            Listed {
                path: "docs/warrants/OW-WAR-0001/journal.jsonl".to_owned(),
                prior: "sha256:aa".to_owned(),
            },
        ],
    }
}

#[test]
fn a_marker_touches_the_warrants_it_lists_and_no_other() {
    let m = marker();
    assert!(touches(&m, "docs/warrants/OW-WAR-0001"));
    assert!(touches(&m, "docs/warrants"));
    assert!(!touches(&m, "docs/warrants/OW-WAR-000"));
    assert!(!touches(&m, "docs/warrants/OW-WAR-0002"));
}

#[test]
fn an_interrupted_batch_names_every_path_and_the_undo() {
    let text = interrupted_message(&marker());
    assert!(text.starts_with("batch B-7 began recording and never finished"));
    assert!(text.contains(
        "Paths it may have written: docs/warrants/OW-WAR-0001/authorization.toml, docs/warrants/OW-WAR-0001/journal.jsonl. `war sign --batch recover:B-7` restores"
    ));
    let blank = unreadable_marker("B-9");
    assert!(interrupted_message(&blank).contains("(the marker does not parse; its roots cannot be read)"));
    assert!(recoverable(&blank, "B-9"));
    assert!(!recoverable(&blank, "B-7"));
}

#[test]
fn a_recover_target_names_its_batch() {
    assert_eq!(recover_target("recover:B-7").as_deref(), Some("B-7"));
    assert_eq!(recover_target("OW-WAR-0001"), None);
}

#[test]
fn one_signer_in_one_role_per_batch() {
    let s = |a: &str, r: &str| Some(Signer { actor: a.to_owned(), role: r.to_owned() });
    let members = batch_members(&vec![
        None,
        s("brian", "authorizer"),
        s("brian", "resolver"),
        s("brian", "authorizer"),
        s("ana", "authorizer"),
    ]);
    assert_eq!(members, vec![false, true, false, true, false]);
    assert_eq!(act_word(&Pending::Accept { version: "1".to_owned() }), "accept");
}

#[test]
fn named_targets_are_chosen_once_each() {
    let ts: Vec<String> = vec!["W-1".into(), "W-2".into()];
    assert_eq!(choose_acts(&ts, &vec![Some(3), Some(1)]).unwrap(), vec![3, 1]);
    let dup: Vec<String> = vec!["W-1".into(), "W-2".into(), "W-1".into()];
    let d = choose_acts(&dup, &vec![Some(0), None, Some(0)]).unwrap_err();
    assert_eq!(d.rule, "batch.unknown-act");
    assert_eq!(d.file.as_deref(), Some("W-2"));
    assert_eq!(d.message, "W-2 awaits no signature; `war sign --list` shows what does");
    let d = choose_acts(&dup, &vec![Some(0), Some(1), Some(0)]).unwrap_err();
    assert_eq!(d.rule, "batch.duplicate-act");
    assert_eq!(d.message, "W-1 is named twice; a batch lists each act once");
    assert!(choose_acts(&Vec::new(), &Vec::new()).unwrap().is_empty());
}

#[test]
fn the_batch_id_and_dry_run_verdict() {
    assert_eq!(batch_id("2026-01-02T03:04:05Z", "{\"acts\":[]}"), "B-20260102T030405Z-055649a7");
    let d = would_record("ada", "owner", &vec![("authorize".into(), "W-1".into()), ("resolve".into(), "W-2".into())]);
    assert_eq!(d.rule, "batch.would-record");
    assert_eq!(d.message, "2 act(s) as ada (owner), one signature: authorize W-1, resolve W-2");
    assert_eq!(left_out_acceptance("accept SAS 1.1", "SAS-1.1"), "accept SAS 1.1 — a SAS acceptance signs alone: `war sign SAS-1.1 --ssh-sign`");
    assert_eq!(
        left_out_signer("resolve W-2", "bob", "owner", "ada", "owner"),
        "resolve W-2 — bob as owner; this batch is ada as owner: a second batch"
    );
    let d = recover_alone("B-1");
    assert_eq!(d.message, "recover:B-1 is named with other targets; recovery is its own act");
    assert_eq!(d.file.as_deref(), Some("war sign --batch"));
}

fn listed(path: &str, prior: &str) -> Listed {
    Listed { path: path.to_owned(), prior: prior.to_owned() }
}

#[test]
fn marker_paths_are_sorted_and_listed_once() {
    let out = marker_paths(vec![
        listed("docs/w/b.md", "sha256:bb"),
        listed("docs/w/a.md", "sha256:aa"),
        listed("docs/w/b.md", "absent"),
        listed("docs/w/c.md", "absent"),
    ]);
    let rows: Vec<(&str, &str)> = out.iter().map(|l| (l.path.as_str(), l.prior.as_str())).collect();
    assert_eq!(
        rows,
        vec![("docs/w/a.md", "sha256:aa"), ("docs/w/b.md", "sha256:bb"), ("docs/w/c.md", "absent")]
    );
    assert!(marker_paths(vec![]).is_empty());
}

fn drive(events: &[BatchEvent]) -> Vec<BatchAction> {
    let mut s = batch_start();
    let mut out = Vec::new();
    for e in events {
        let (n, a) = batch_next(&s, e);
        s = n;
        out.push(a);
    }
    out
}

fn refused(why: BatchRefusal, discard: bool, remove_batch: bool, keep_refused: bool, finish_marker: bool) -> BatchAction {
    BatchAction::Refuse { why, discard, remove_batch, keep_refused, finish_marker }
}

#[test]
fn a_whole_batch_is_judged_signed_judged_again_and_recorded() {
    let acts = drive(&[
        BatchEvent::Started { ssh_sign: true, dry_run: false, interrupted: false },
        BatchEvent::Drafted { drafts: 2 },
        BatchEvent::Judged { all_ready: true },
        BatchEvent::Signed { signed: true },
        BatchEvent::Rejudged { all_ready: true },
        BatchEvent::Kept { kept: true },
        BatchEvent::Recorded { ok: true },
        BatchEvent::Recorded { ok: true },
        BatchEvent::Recorded { ok: true },
    ]);
    assert_eq!(
        acts,
        vec![
            BatchAction::Draft,
            BatchAction::Judge,
            BatchAction::Sign,
            BatchAction::Rejudge,
            BatchAction::Keep,
            BatchAction::RecordNext,
            BatchAction::RecordNext,
            BatchAction::Finish,
            BatchAction::Nothing,
        ]
    );
}

#[test]
fn every_batch_refusal_leaves_nothing_recorded() {
    let start = BatchEvent::Started { ssh_sign: true, dry_run: false, interrupted: false };
    let two = BatchEvent::Drafted { drafts: 2 };
    assert_eq!(
        drive(&[BatchEvent::Started { ssh_sign: false, dry_run: false, interrupted: false }]),
        vec![refused(BatchRefusal::NeedsSsh, false, false, false, false)]
    );
    assert_eq!(
        drive(&[BatchEvent::Started { ssh_sign: true, dry_run: false, interrupted: true }]),
        vec![BatchAction::ReportInterrupted]
    );
    assert_eq!(drive(&[start, BatchEvent::Drafted { drafts: 0 }])[1], refused(BatchRefusal::Empty, false, false, false, false));
    assert_eq!(
        drive(&[start, two, BatchEvent::Judged { all_ready: false }])[2],
        refused(BatchRefusal::Refused, true, false, false, false)
    );
    assert_eq!(
        drive(&[BatchEvent::Started { ssh_sign: false, dry_run: true, interrupted: false }, two, BatchEvent::Judged { all_ready: true }])[2],
        BatchAction::WouldRecord
    );
    let signed = [start, two, BatchEvent::Judged { all_ready: true }];
    let mut es = signed.to_vec();
    es.push(BatchEvent::Signed { signed: false });
    assert_eq!(drive(&es)[3], refused(BatchRefusal::Signature, true, true, false, false));
    let mut es = signed.to_vec();
    es.extend([BatchEvent::Signed { signed: true }, BatchEvent::Rejudged { all_ready: false }]);
    assert_eq!(drive(&es)[4], refused(BatchRefusal::DigestMoved, true, false, true, false));
    let mut es = signed.to_vec();
    es.extend([
        BatchEvent::Signed { signed: true },
        BatchEvent::Rejudged { all_ready: true },
        BatchEvent::Kept { kept: true },
        BatchEvent::Recorded { ok: true },
        BatchEvent::Recorded { ok: false },
        BatchEvent::Restored { ok: true },
    ]);
    let acts = drive(&es);
    assert_eq!(acts[7], BatchAction::Restore);
    assert_eq!(acts[8], refused(BatchRefusal::Incomplete, true, false, true, true));
    assert_eq!(BatchRefusal::IncompleteMarkerStays.rule(), "batch.incomplete");
    assert_eq!(BatchRefusal::DigestMoved.rule(), "batch.digest-moved");
    let _ = BatchPhase::Done;
}

#[test]
fn batch_refusals_say_what_stands() {
    assert_eq!(
        refusal_message(BatchRefusal::Signature, "agent refused", "", "", ""),
        "not signed; nothing written: agent refused"
    );
    assert_eq!(
        refusal_message(BatchRefusal::IncompleteMarkerStays, "w1 authorize: x", "EIO", "docs/authority/batches/B-1.recording", "B-1"),
        "w1 authorize: x. The restore ALSO failed (EIO); the marker docs/authority/batches/B-1.recording stays, every batch refuses batch.interrupted until `war sign --batch recover:B-1` succeeds"
    );
    assert_eq!(
        unkept_message("disk full"),
        "the prior bytes could not be kept before the first record (disk full); nothing was recorded, and the signed batch is kept as .refused.json"
    );
    assert_eq!(
        recorded_message("B-1", 2, 2, "docs/authority/batches/B-1.json"),
        "batch B-1: 2 of 2 act(s) recorded under one signature → docs/authority/batches/B-1.json"
    );
}
