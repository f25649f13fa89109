//! The operator-owned authority store: the account that executes agent work
//! must not own it. This module decides whether a store location is safe
//! from what the file system reports about it.

use vstd::prelude::*;

use crate::text::{chars_of, string_of, strs};

verus! {

/// `rustix::process::geteuid`, as a raw uid. The result is the running
/// process's effective user and depends on nothing the library holds, so
/// nothing is claimed of it.
#[verifier::external_body]
fn operator_uid() -> (r: u32) {
    rustix::process::geteuid().as_raw()
}

/// What `symlink_metadata` reports of one directory on the way to the store.
#[derive(Debug, Clone, Copy, PartialEq, Eq, Structural)]
pub struct Meta {
    pub is_dir: bool,
    pub is_symlink: bool,
    pub uid: u32,
    pub mode: u32,
}

/// Why a store location is refused, by rule; `None` accepts it. The path
/// must be absolute with no `..`; outside a test store the agent account
/// must be named and be another account; every directory from the store up
/// must be a real directory, and outside a test store none may be writable
/// by group or others, owned by anyone but root or the operator, or owned by
/// the agent; the store itself must be the operator's and private.
pub open spec fn spec_guard(
    absolute: bool,
    has_parent_dir: bool,
    uid: u32,
    agent: Option<u32>,
    test: bool,
    ancestors: Seq<Meta>,
    root: Meta,
) -> Option<Seq<char>> {
    if !absolute || has_parent_dir {
        Some("authority-store-absolute-path-required"@)
    } else if !test && (agent is None || agent == Some(uid)) {
        Some("authority-store-separate-account-required"@)
    } else {
        match first_unsafe(ancestors, uid, agent, test) {
            Some(rule) => Some(rule),
            None => if !test && (root.uid != uid || (root.mode & 0o077u32) != 0) {
                Some("authority-store-private-owner-required"@)
            } else {
                None
            },
        }
    }
}

/// The first ancestor that is not a real directory, or (outside a test
/// store) is unsafely owned or writable.
pub open spec fn first_unsafe(ms: Seq<Meta>, uid: u32, agent: Option<u32>, test: bool) -> Option<
    Seq<char>,
>
    decreases ms.len(),
{
    if ms.len() == 0 {
        None
    } else {
        let m = ms[0];
        if !m.is_dir || m.is_symlink {
            Some("authority-store-directory-required"@)
        } else if !test && ((m.mode & 0o022u32) != 0 || (m.uid != 0 && m.uid != uid) || agent
            == Some(m.uid)) {
            Some("authority-store-unsafe-owner-or-mode"@)
        } else {
            first_unsafe(ms.drop_first(), uid, agent, test)
        }
    }
}

/// Whether a store location is safe for the operator `uid`.
pub fn guard(
    absolute: bool,
    has_parent_dir: bool,
    uid: u32,
    agent: Option<u32>,
    test: bool,
    ancestors: &Vec<Meta>,
    root: Meta,
) -> (r: Option<String>)
    ensures
        match (r, spec_guard(absolute, has_parent_dir, uid, agent, test, ancestors@, root)) {
            (Some(a), Some(b)) => a@ == b,
            (None, None) => true,
            _ => false,
        },
{
    if !absolute || has_parent_dir {
        return Some(string_of(&chars_of("authority-store-absolute-path-required")));
    }
    if !test && (agent.is_none() || agent == Some(uid)) {
        return Some(string_of(&chars_of("authority-store-separate-account-required")));
    }
    let mut i: usize = 0;
    assert(ancestors@.skip(0) =~= ancestors@);
    while i < ancestors.len()
        invariant
            i <= ancestors.len(),
            absolute && !has_parent_dir,
            !(!test && (agent is None || agent == Some(uid))),
            first_unsafe(ancestors@, uid, agent, test) == first_unsafe(
                ancestors@.skip(i as int),
                uid,
                agent,
                test,
            ),
        decreases ancestors.len() - i,
    {
        let m = ancestors[i];
        proof {
            assert(ancestors@.skip(i as int)[0] == m);
            assert(ancestors@.skip(i as int).drop_first() =~= ancestors@.skip(i + 1));
        }
        if !m.is_dir || m.is_symlink {
            return Some(string_of(&chars_of("authority-store-directory-required")));
        }
        if !test && ((m.mode & 0o022u32) != 0 || (m.uid != 0 && m.uid != uid) || agent == Some(
            m.uid,
        )) {
            return Some(string_of(&chars_of("authority-store-unsafe-owner-or-mode")));
        }
        i = i + 1;
    }
    proof {
        assert(ancestors@.skip(i as int).len() == 0);
    }
    if !test && (root.uid != uid || (root.mode & 0o077u32) != 0) {
        return Some(string_of(&chars_of("authority-store-private-owner-required")));
    }
    None
}

/// Whether a store location is safe for the account running this process:
/// returns that account's uid and the verdict of [`guard`] for it.
pub fn guard_for_operator(
    absolute: bool,
    has_parent_dir: bool,
    agent: Option<u32>,
    test: bool,
    ancestors: &Vec<Meta>,
    root: Meta,
) -> (r: (u32, Option<String>))
    ensures
        match (r.1, spec_guard(absolute, has_parent_dir, r.0, agent, test, ancestors@, root)) {
            (Some(a), Some(b)) => a@ == b,
            (None, None) => true,
            _ => false,
        },
{
    let uid = operator_uid();
    let verdict = guard(absolute, has_parent_dir, uid, agent, test, ancestors, root);
    (uid, verdict)
}

/// Outside a test store, the agent's own account never holds the store.
pub proof fn lemma_agent_never_holds_the_store(
    absolute: bool,
    has_parent_dir: bool,
    uid: u32,
    agent: Option<u32>,
    ancestors: Seq<Meta>,
    root: Meta,
)
    requires
        agent == Some(uid),
    ensures
        spec_guard(absolute, has_parent_dir, uid, agent, false, ancestors, root) is Some,
{
}

// ---------------------------------------------------------------------------
// The store's snapshot
// ---------------------------------------------------------------------------

/// The schema every snapshot of the store carries.
pub const STORE_SCHEMA: &'static str = "oh.war/authority-store/1";

/// The most transitions one store holds.
pub const TRANSITION_LIMIT: usize = 4096;

/// The largest snapshot, in bytes.
pub const STORE_LIMIT: usize = 8388608;

/// What a transition's digests are: its own, the head it follows, the head
/// it makes, and the principals whose signatures it carries, in key order.
#[derive(Debug, Clone, PartialEq, Eq)]
pub struct TransitionDigests {
    pub digest: String,
    pub previous: String,
    pub next: String,
    pub signers: Vec<String>,
}

/// What an activation receipt records of the transition it observed.
#[derive(Debug, Clone, PartialEq, Eq)]
pub struct Receipt {
    /// The sequence of the revision the transition made.
    pub sequence: u64,
    pub transition_digest: String,
    pub previous_head: String,
    pub new_head: String,
    pub authenticated_signers: Vec<String>,
}

/// Whether a receipt records the transition it names.
pub open spec fn receipt_matches(r: Receipt, t: TransitionDigests) -> bool {
    &&& r.transition_digest@ == t.digest@
    &&& r.previous_head@ == t.previous@
    &&& r.new_head@ == t.next@
    &&& strs(r.authenticated_signers@) == strs(t.signers@)
}

/// The first receipt, in sequence order, that names no transition or does
/// not record the one it names: its rule.
pub open spec fn receipt_refusal(ts: Seq<TransitionDigests>, rs: Seq<Receipt>) -> Option<Seq<char>>
    decreases rs.len(),
{
    if rs.len() == 0 {
        None
    } else {
        let r = rs[0];
        if r.sequence == 0 || r.sequence - 1 >= ts.len() {
            Some("authority-receipt-sequence"@)
        } else if !receipt_matches(r, ts[r.sequence - 1]) {
            Some("authority-receipt-subject"@)
        } else {
            receipt_refusal(ts, rs.drop_first())
        }
    }
}

fn same_strings(a: &Vec<String>, b: &Vec<String>) -> (r: bool)
    ensures
        r == (strs(a@) == strs(b@)),
{
    if a.len() != b.len() {
        proof {
            assert(strs(a@).len() != strs(b@).len());
        }
        return false;
    }
    let mut i: usize = 0;
    while i < a.len()
        invariant
            i <= a.len() == b.len(),
            forall|j: int| 0 <= j < i ==> a@[j]@ == b@[j]@,
        decreases a.len() - i,
    {
        if !crate::text::str_eq(a[i].as_str(), b[i].as_str()) {
            proof {
                assert(strs(a@)[i as int] != strs(b@)[i as int]);
            }
            return false;
        }
        i = i + 1;
    }
    proof {
        assert(strs(a@) =~= strs(b@));
    }
    true
}

/// The rule a snapshot's receipts break, if any; `receipts` in ascending
/// sequence order, as the store keeps them.
pub fn receipts_refusal(transitions: &Vec<TransitionDigests>, receipts: &Vec<Receipt>) -> (r: Option<String>)
    ensures
        match (r, receipt_refusal(transitions@, receipts@)) {
            (Some(a), Some(b)) => a@ == b,
            (None, None) => true,
            _ => false,
        },
{
    let mut i: usize = 0;
    proof {
        assert(receipts@.skip(0) =~= receipts@);
    }
    while i < receipts.len()
        invariant
            i <= receipts.len(),
            receipt_refusal(transitions@, receipts@) == receipt_refusal(transitions@, receipts@.skip(i as int)),
        decreases receipts.len() - i,
    {
        proof {
            assert(receipts@.skip(i as int)[0] == receipts@[i as int]);
            assert(receipts@.skip(i as int).drop_first() =~= receipts@.skip(i + 1));
        }
        let r = &receipts[i];
        if r.sequence == 0 || r.sequence - 1 >= transitions.len() as u64 {
            return Some(string_of(&chars_of("authority-receipt-sequence")));
        }
        let t = &transitions[(r.sequence - 1) as usize];
        if !crate::text::str_eq(r.transition_digest.as_str(), t.digest.as_str())
            || !crate::text::str_eq(r.previous_head.as_str(), t.previous.as_str())
            || !crate::text::str_eq(r.new_head.as_str(), t.next.as_str())
            || !same_strings(&r.authenticated_signers, &t.signers) {
            return Some(string_of(&chars_of("authority-receipt-subject")));
        }
        i = i + 1;
    }
    None
}

/// The rule a snapshot's shape breaks before its transitions are checked:
/// another schema or too many transitions, then a genesis that is not
/// sequence zero.
pub open spec fn spec_shape_refusal(schema: Seq<char>, transitions: nat, genesis_sequence: u64) -> Option<Seq<char>> {
    if schema != STORE_SCHEMA@ || transitions > TRANSITION_LIMIT {
        Some("authority-store-format"@)
    } else if genesis_sequence != 0 {
        Some("authority-bootstrap-sequence"@)
    } else {
        None
    }
}

pub fn shape_refusal(schema: &str, transitions: usize, genesis_sequence: u64) -> (r: Option<String>)
    ensures
        match (r, spec_shape_refusal(schema@, transitions as nat, genesis_sequence)) {
            (Some(a), Some(b)) => a@ == b,
            (None, None) => true,
            _ => false,
        },
{
    if !crate::text::str_eq(schema, STORE_SCHEMA) || transitions > TRANSITION_LIMIT {
        Some(string_of(&chars_of("authority-store-format")))
    } else if genesis_sequence != 0 {
        Some(string_of(&chars_of("authority-bootstrap-sequence")))
    } else {
        None
    }
}

/// Whether a loaded snapshot is taken as read: its bytes are its canonical
/// form, and it is a test store exactly when one was asked for.
pub open spec fn spec_load_refusal(canonical: bool, test_store: bool, test: bool) -> Option<Seq<char>> {
    if !canonical {
        Some("authority-store-noncanonical"@)
    } else if test_store != test {
        Some("authority-store-mode-mismatch"@)
    } else {
        None
    }
}

pub fn load_refusal(canonical: bool, test_store: bool, test: bool) -> (r: Option<String>)
    ensures
        match (r, spec_load_refusal(canonical, test_store, test)) {
            (Some(a), Some(b)) => a@ == b,
            (None, None) => true,
            _ => false,
        },
{
    if !canonical {
        Some(string_of(&chars_of("authority-store-noncanonical")))
    } else if test_store != test {
        Some(string_of(&chars_of("authority-store-mode-mismatch")))
    } else {
        None
    }
}

/// A transition is activated only while the store has room for it, and a
/// snapshot is written only while it fits.
pub fn store_full(transitions: usize, snapshot_len: usize) -> (r: bool)
    ensures
        r == (transitions >= TRANSITION_LIMIT || snapshot_len > STORE_LIMIT),
{
    transitions >= TRANSITION_LIMIT || snapshot_len > STORE_LIMIT
}

/// A genesis is taken only when nothing is stored yet, it is sequence zero,
/// and its digest is the one the operator expects.
pub open spec fn spec_bootstrap_refusal(stored: bool, sequence: u64, digest: Seq<char>, expected: Seq<char>) -> Option<Seq<char>> {
    if stored {
        Some("authority-already-bootstrapped"@)
    } else if sequence != 0 || digest != expected {
        Some("authority-bootstrap-digest-or-sequence"@)
    } else {
        None
    }
}

pub fn bootstrap_refusal(stored: bool, sequence: u64, digest: &str, expected: &str) -> (r: Option<String>)
    ensures
        match (r, spec_bootstrap_refusal(stored, sequence, digest@, expected@)) {
            (Some(a), Some(b)) => a@ == b,
            (None, None) => true,
            _ => false,
        },
{
    if stored {
        Some(string_of(&chars_of("authority-already-bootstrapped")))
    } else if sequence != 0 || !crate::text::str_eq(digest, expected) {
        Some(string_of(&chars_of("authority-bootstrap-digest-or-sequence")))
    } else {
        None
    }
}

/// Every receipt of a snapshot that passes the receipt check names a
/// transition the store holds: its sequence is between one and the number
/// of transitions.
pub proof fn lemma_receipts_name_transitions(ts: Seq<TransitionDigests>, rs: Seq<Receipt>)
    requires
        receipt_refusal(ts, rs) is None,
    ensures
        forall|i: int| 0 <= i < rs.len() ==> 1 <= #[trigger] rs[i].sequence <= ts.len(),
    decreases rs.len(),
{
    if rs.len() > 0 {
        lemma_receipts_name_transitions(ts, rs.drop_first());
        assert forall|i: int| 0 <= i < rs.len() implies 1 <= #[trigger] rs[i].sequence <= ts.len() by {
            if i > 0 {
                assert(rs[i] == rs.drop_first()[i - 1]);
            }
        }
    }
}

} // verus!
