//! Whole-record writes: a record is written to a temp file beside it and
//! renamed over it only if the record is still what the writer read. This
//! module holds the naming of those temp files, how a leftover one names its
//! record, and how a refused write describes what it saw.

use vstd::prelude::*;

use crate::digest::{sha256_hex, sha256_of, spec_hex};
use crate::text::{chars_of, decimal, digit_char, push_decimal, push_str, string_of};

verus! {

/// What every temp file name ends with.
pub const TEMP_SUFFIX: &'static str = ".war-tmp";

/// What a record was when it was read: absent, or these bytes (by SHA-256).
#[derive(Debug, Clone, PartialEq, Eq)]
pub enum Prestate {
    Absent,
    Digest(String),
}

pub open spec fn prestate_view(p: Prestate) -> Option<Seq<char>> {
    match p {
        Prestate::Absent => None,
        Prestate::Digest(d) => Some(d@),
    }
}

impl Prestate {
    /// The prestate a file holding exactly `bytes` has.
    pub fn of(bytes: &[u8]) -> (r: Prestate)
        ensures
            prestate_view(r) == Some(spec_hex(sha256_of(bytes@))),
    {
        Prestate::Digest(sha256_hex(bytes))
    }

    pub open spec fn spec_describe(self) -> Seq<char> {
        match self {
            Prestate::Absent => "absent"@,
            Prestate::Digest(d) => "sha256:"@ + d@.take(if d@.len() < 16 {
                d@.len() as int
            } else {
                16
            }),
        }
    }

    /// `absent`, or the digest's first sixteen characters.
    pub fn describe(&self) -> (r: String)
        ensures
            r@ == self.spec_describe(),
    {
        match self {
            Prestate::Absent => string_of(&chars_of("absent")),
            Prestate::Digest(d) => {
                let v = chars_of(d.as_str());
                let n = if v.len() < 16 { v.len() } else { 16 };
                let head = crate::text::slice_of(&v, 0, n);
                let mut out = chars_of("sha256:");
                crate::text::push_all(&mut out, &head);
                proof {
                    assert(head@ =~= d@.take(n as int));
                }
                string_of(&out)
            },
        }
    }
}

/// The message of a write refused because the record moved after it was read.
pub open spec fn spec_moved_message(path: Seq<char>, expected: Prestate, now: Prestate) -> Seq<
    char,
> {
    path + " changed after it was read (read as "@ + expected.spec_describe() + ", now "@
        + now.spec_describe()
        + "); another process wrote it. Nothing was written over it — read it again and redo the act"@
}

/// Whether a write may go ahead: the record is still what was read; if not,
/// the `storage.prestate-moved` message.
pub fn prestate_check(path: &str, expected: &Prestate, now: &Prestate) -> (r: Option<String>)
    ensures
        prestate_view(*now) == prestate_view(*expected) <==> r is None,
        r matches Some(m) ==> m@ == spec_moved_message(path@, *expected, *now),
{
    let same = match (expected, now) {
        (Prestate::Absent, Prestate::Absent) => true,
        (Prestate::Digest(a), Prestate::Digest(b)) => crate::text::str_eq(a.as_str(), b.as_str()),
        _ => false,
    };
    if same {
        return None;
    }
    let mut m = chars_of(path);
    push_str(&mut m, " changed after it was read (read as ");
    push_str(&mut m, expected.describe().as_str());
    push_str(&mut m, ", now ");
    push_str(&mut m, now.describe().as_str());
    push_str(
        &mut m,
        "); another process wrote it. Nothing was written over it — read it again and redo the act",
    );
    Some(string_of(&m))
}

// ---------------------------------------------------------------------------
// Temp file names
// ---------------------------------------------------------------------------

pub open spec fn hex_char(d: nat) -> char {
    if d < 10 {
        digit_char(d)
    } else if d == 10 {
        'a'
    } else if d == 11 {
        'b'
    } else if d == 12 {
        'c'
    } else if d == 13 {
        'd'
    } else if d == 14 {
        'e'
    } else {
        'f'
    }
}

/// `{n:x}`: lowercase hex, no padding.
pub open spec fn hex_of(n: nat) -> Seq<char>
    decreases n,
{
    if n < 16 {
        seq![hex_char(n)]
    } else {
        hex_of(n / 16).push(hex_char(n % 16))
    }
}

/// `{n:08x}`: lowercase hex, zero-padded to eight digits.
pub open spec fn hex8(n: nat) -> Seq<char> {
    let h = hex_of(n);
    if h.len() >= 8 {
        h
    } else {
        Seq::new((8 - h.len()) as nat, |i: int| '0') + h
    }
}

/// The temp file a write of record `name` uses: `.<name>.<pid>.<nonce>.war-tmp`,
/// the nonce being the clock's nanoseconds, zero-padded, then a counter.
pub open spec fn spec_temp_name(name: Seq<char>, pid: u32, nanos: u32, counter: u64) -> Seq<char> {
    "."@ + name + "."@ + decimal(pid as nat) + "."@ + hex8(nanos as nat) + hex_of(counter as nat)
        + TEMP_SUFFIX@
}

fn hex_digit(d: u64) -> (c: char)
    requires
        d < 16,
    ensures
        c == hex_char(d as nat),
{
    if d == 0 { '0' }
    else if d == 1 { '1' }
    else if d == 2 { '2' }
    else if d == 3 { '3' }
    else if d == 4 { '4' }
    else if d == 5 { '5' }
    else if d == 6 { '6' }
    else if d == 7 { '7' }
    else if d == 8 { '8' }
    else if d == 9 { '9' }
    else if d == 10 { 'a' }
    else if d == 11 { 'b' }
    else if d == 12 { 'c' }
    else if d == 13 { 'd' }
    else if d == 14 { 'e' }
    else { 'f' }
}

fn hex_chars(n: u64) -> (r: Vec<char>)
    ensures
        r@ == hex_of(n as nat),
    decreases n,
{
    let c = hex_digit(n % 16);
    if n < 16 {
        vec![c]
    } else {
        let mut r = hex_chars(n / 16);
        r.push(c);
        r
    }
}

/// The name of the temp file a write of `name` uses, for this process, clock
/// reading and counter value.
pub fn temp_name(name: &str, pid: u32, nanos: u32, counter: u64) -> (r: String)
    ensures
        r@ == spec_temp_name(name@, pid, nanos, counter),
{
    let mut out = chars_of(".");
    push_str(&mut out, name);
    push_str(&mut out, ".");
    push_decimal(&mut out, pid as u64);
    push_str(&mut out, ".");
    let h = hex_chars(nanos as u64);
    let mut k = h.len();
    let ghost before = out@;
    while k < 8
        invariant
            h.len() <= k,
            k <= 8 || k == h.len(),
            out@ == before + Seq::new((k - h.len()) as nat, |i: int| '0'),
        decreases 8 - k,
    {
        out.push('0');
        proof {
            assert(out@ =~= before + Seq::new((k + 1 - h.len()) as nat, |i: int| '0'));
        }
        k = k + 1;
    }
    crate::text::push_all(&mut out, &h);
    let c = hex_chars(counter);
    crate::text::push_all(&mut out, &c);
    push_str(&mut out, TEMP_SUFFIX);
    proof {
        let h8 = hex8(nanos as nat);
        if h@.len() >= 8 {
            assert(Seq::new((k - h.len()) as nat, |i: int| '0') =~= Seq::<char>::empty());
        }
        assert(out@ =~= spec_temp_name(name@, pid, nanos, counter));
    }
    string_of(&out)
}

/// The position of the last `c` in `s`.
pub open spec fn last_index(s: Seq<char>, c: char) -> Option<nat>
    decreases s.len(),
{
    if s.len() == 0 {
        None
    } else if s.last() == c {
        Some((s.len() - 1) as nat)
    } else {
        last_index(s.drop_last(), c)
    }
}

pub open spec fn is_hex(c: char) -> bool {
    ('0' <= c <= '9') || ('a' <= c <= 'f') || ('A' <= c <= 'F')
}

/// The record a temp file of this naming was meant to replace: strip the
/// leading `.` and the suffix, take the nonce and then the process id from
/// the right; the name must be non-empty, the process id decimal, the nonce
/// hex. Any other file name names no record.
pub open spec fn spec_record_of(file: Seq<char>) -> Option<Seq<char>> {
    if file.len() < 9 || file[0] != '.' || !crate::text::ends_with(file, TEMP_SUFFIX@) {
        None
    } else {
        let inner = file.subrange(1, file.len() - 8);
        match last_index(inner, '.') {
            None => None,
            Some(k) => {
                let rest = inner.take(k as int);
                let nonce = inner.skip(k + 1 as int);
                match last_index(rest, '.') {
                    None => None,
                    Some(j) => {
                        let name = rest.take(j as int);
                        let pid = rest.skip(j + 1 as int);
                        if name.len() == 0 || pid.len() == 0 || nonce.len() == 0 || !(forall|
                            i: int,
                        |
                            0 <= i < pid.len() ==> crate::text::is_ascii_digit(#[trigger] pid[i]))
                            || !(forall|i: int| 0 <= i < nonce.len() ==> is_hex(#[trigger] nonce[i])) {
                            None
                        } else {
                            Some(name)
                        }
                    },
                }
            },
        }
    }
}

fn last_dot(v: &Vec<char>, end: usize) -> (r: Option<usize>)
    requires
        end <= v.len(),
    ensures
        match (r, last_index(v@.take(end as int), '.')) {
            (Some(a), Some(b)) => a as nat == b,
            (None, None) => true,
            _ => false,
        },
        r matches Some(a) ==> a < end,
{
    let mut k = end;
    while k > 0 && v[k - 1] != '.'
        invariant
            k <= end <= v.len(),
            last_index(v@.take(end as int), '.') == last_index(v@.take(k as int), '.'),
        decreases k,
    {
        proof {
            assert(v@.take(k as int).drop_last() =~= v@.take(k - 1));
            assert(v@.take(k as int).last() == v@[k - 1]);
        }
        k = k - 1;
    }
    if k == 0 {
        proof {
            assert(v@.take(0).len() == 0);
        }
        None
    } else {
        proof {
            assert(v@.take(k as int).last() == v@[k - 1]);
        }
        Some(k - 1)
    }
}

fn all_digits(v: &Vec<char>, lo: usize, hi: usize) -> (r: bool)
    requires
        lo <= hi <= v.len(),
    ensures
        r == forall|i: int|
            0 <= i < hi - lo ==> crate::text::is_ascii_digit(#[trigger] v@.subrange(lo as int, hi as int)[i]),
{
    let mut i = lo;
    while i < hi
        invariant
            lo <= i <= hi <= v.len(),
            forall|j: int| lo <= j < i ==> crate::text::is_ascii_digit(#[trigger] v@[j]),
        decreases hi - i,
    {
        if !crate::text::is_digit_char(v[i]) {
            assert(v@.subrange(lo as int, hi as int)[i - lo] == v@[i as int]);
            return false;
        }
        i = i + 1;
    }
    assert forall|j: int| 0 <= j < hi - lo implies crate::text::is_ascii_digit(
        #[trigger] v@.subrange(lo as int, hi as int)[j],
    ) by {
        assert(v@.subrange(lo as int, hi as int)[j] == v@[lo + j]);
    }
    true
}

fn all_hex(v: &Vec<char>, lo: usize, hi: usize) -> (r: bool)
    requires
        lo <= hi <= v.len(),
    ensures
        r == forall|i: int| 0 <= i < hi - lo ==> is_hex(#[trigger] v@.subrange(lo as int, hi as int)[i]),
{
    let mut i = lo;
    while i < hi
        invariant
            lo <= i <= hi <= v.len(),
            forall|j: int| lo <= j < i ==> is_hex(#[trigger] v@[j]),
        decreases hi - i,
    {
        let c = v[i];
        if !(('0' <= c && c <= '9') || ('a' <= c && c <= 'f') || ('A' <= c && c <= 'F')) {
            assert(v@.subrange(lo as int, hi as int)[i - lo] == v@[i as int]);
            return false;
        }
        i = i + 1;
    }
    assert forall|j: int| 0 <= j < hi - lo implies is_hex(#[trigger] v@.subrange(lo as int, hi as int)[j]) by {
        assert(v@.subrange(lo as int, hi as int)[j] == v@[lo + j]);
    }
    true
}

/// The record file a temp file name was meant to replace, if the name is
/// one this naming produces.
pub fn record_of(file: &str) -> (r: Option<String>)
    ensures
        match (r, spec_record_of(file@)) {
            (Some(a), Some(b)) => a@ == b,
            (None, None) => true,
            _ => false,
        },
{
    let v = chars_of(file);
    let suffix = chars_of(TEMP_SUFFIX);
    proof {
        reveal_strlit(".war-tmp");
        reveal_strlit(".");
    }
    if v.len() < 9 || v[0] != '.' || !crate::text::has_suffix(&v, &suffix) {
        return None;
    }
    let inner = crate::text::slice_of(&v, 1, v.len() - 8);
    proof {
        assert(inner@ =~= file@.subrange(1, file@.len() - 8));
        assert(inner@.take(inner.len() as int) =~= inner@);
    }
    let k = match last_dot(&inner, inner.len()) {
        None => {
            return None;
        },
        Some(k) => k,
    };
    proof {
        assert(inner@.take(k as int).take(k as int) =~= inner@.take(k as int));
        assert(inner@.take(k as int) =~= inner@.take(k as int));
    }
    let j = match last_dot(&inner, k) {
        None => {
            return None;
        },
        Some(j) => j,
    };
    proof {
        let rest = inner@.take(k as int);
        assert(rest.take(j as int) =~= inner@.subrange(0, j as int));
        assert(rest.skip(j + 1) =~= inner@.subrange(j + 1, k as int));
        assert(inner@.skip(k + 1) =~= inner@.subrange(k + 1, inner@.len() as int));
    }
    if j == 0 || k == j + 1 || inner.len() == k + 1 {
        return None;
    }
    if !all_digits(&inner, j + 1, k) || !all_hex(&inner, k + 1, inner.len()) {
        return None;
    }
    let name = crate::text::slice_of(&inner, 0, j);
    Some(string_of(&name))
}

proof fn lemma_no_dot_last_index(a: Seq<char>, b: Seq<char>)
    requires
        !b.contains('.'),
    ensures
        last_index(a + seq!['.'] + b, '.') == Some(a.len()),
    decreases b.len(),
{
    if b.len() == 0 {
        assert(a + seq!['.'] + b =~= a.push('.'));
    } else {
        assert((a + seq!['.'] + b).drop_last() =~= a + seq!['.'] + b.drop_last());
        assert((a + seq!['.'] + b).last() == b.last());
        assert(b.contains(b.last()) ==> b.last() != '.');
        assert(b.drop_last().contains('.') ==> b.contains('.')) by {
            if b.drop_last().contains('.') {
                let i = choose|i: int| 0 <= i < b.drop_last().len() && b.drop_last()[i] == '.';
                assert(b[i] == '.');
            }
        }
        assert(b[b.len() - 1] == b.last());
        lemma_no_dot_last_index(a, b.drop_last());
    }
}

proof fn lemma_hex_of(n: nat)
    ensures
        hex_of(n).len() > 0,
        forall|i: int| 0 <= i < hex_of(n).len() ==> is_hex(#[trigger] hex_of(n)[i]),
    decreases n,
{
    if n >= 16 {
        lemma_hex_of(n / 16);
        assert forall|i: int| 0 <= i < hex_of(n).len() implies is_hex(#[trigger] hex_of(n)[i]) by {
            if i < hex_of(n / 16).len() {
                assert(hex_of(n)[i] == hex_of(n / 16)[i]);
            }
        }
    }
}

proof fn lemma_decimal(n: nat)
    ensures
        decimal(n).len() > 0,
        forall|i: int| 0 <= i < decimal(n).len() ==> crate::text::is_ascii_digit(#[trigger] decimal(n)[i]),
    decreases n,
{
    if n >= 10 {
        lemma_decimal(n / 10);
        assert forall|i: int| 0 <= i < decimal(n).len() implies crate::text::is_ascii_digit(
            #[trigger] decimal(n)[i],
        ) by {
            if i < decimal(n / 10).len() {
                assert(decimal(n)[i] == decimal(n / 10)[i]);
            }
        }
    }
}

/// A temp file names the record it was written for: for every non-empty
/// record name, whatever the process, clock and counter, the temp name's
/// record is that name.
pub proof fn lemma_temp_name_names_its_record(name: Seq<char>, pid: u32, nanos: u32, counter: u64)
    requires
        name.len() > 0,
    ensures
        spec_record_of(spec_temp_name(name, pid, nanos, counter)) == Some(name),
{
    reveal_strlit(".war-tmp");
    reveal_strlit(".");
    let d = decimal(pid as nat);
    let h8 = hex8(nanos as nat);
    let hc = hex_of(counter as nat);
    let nonce = h8 + hc;
    lemma_decimal(pid as nat);
    lemma_hex_of(nanos as nat);
    lemma_hex_of(counter as nat);
    assert forall|i: int| 0 <= i < h8.len() implies is_hex(#[trigger] h8[i]) by {
        let h = hex_of(nanos as nat);
        if h.len() < 8 {
            let pad = Seq::new((8 - h.len()) as nat, |k: int| '0');
            if i >= pad.len() {
                assert(h8[i] == h[i - pad.len()]);
            } else {
                assert(h8[i] == '0');
            }
        }
    }
    assert forall|i: int| 0 <= i < nonce.len() implies is_hex(#[trigger] nonce[i]) by {
        if i < h8.len() {
            assert(nonce[i] == h8[i]);
        } else {
            assert(nonce[i] == hc[i - h8.len()]);
        }
    }
    assert(!nonce.contains('.')) by {
        if nonce.contains('.') {
            let i = choose|i: int| 0 <= i < nonce.len() && nonce[i] == '.';
            assert(is_hex(nonce[i]));
        }
    }
    assert(!d.contains('.')) by {
        if d.contains('.') {
            let i = choose|i: int| 0 <= i < d.len() && d[i] == '.';
            assert(crate::text::is_ascii_digit(d[i]));
        }
    }
    let file = spec_temp_name(name, pid, nanos, counter);
    let rest = name + "."@ + d;
    let inner = rest + "."@ + nonce;
    assert(file =~= "."@ + inner + TEMP_SUFFIX@);
    assert(file.subrange(1, file.len() - 8) =~= inner);
    assert(crate::text::ends_with(file, TEMP_SUFFIX@)) by {
        assert(file.subrange(file.len() - 8, file.len() as int) =~= TEMP_SUFFIX@);
    }
    assert(inner =~= rest + seq!['.'] + nonce);
    lemma_no_dot_last_index(rest, nonce);
    assert(rest =~= name + seq!['.'] + d);
    lemma_no_dot_last_index(name, d);
    assert(inner.take(rest.len() as int) =~= rest);
    assert(inner.skip(rest.len() + 1 as int) =~= nonce);
    assert(rest.take(name.len() as int) =~= name);
    assert(rest.skip(name.len() + 1 as int) =~= d);
}

} // verus!
