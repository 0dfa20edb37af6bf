//! The sidecar metadata record kept beside every cached value, its expiry
//! rule, and its on-disk JSON form.
//!
//! The record is persisted as the exact byte sequence
//! `{"ttl_secs":N,"created_unixtime":M}` with both numbers in canonical
//! decimal (no sign, no leading zeros). `encode_metadata` produces that
//! sequence and `decode_metadata` accepts it and nothing else: any other
//! content is reported as corrupt, which the cache answers by deleting the
//! offending files and reporting a miss.

use vstd::prelude::*;

verus! {

/// Expiry record stored beside a cached value: how long the value may live
/// and when it was created, both in whole seconds. A `ttl_secs` of zero
/// means the value never expires.
#[derive(Clone, Copy, Debug, PartialEq, Eq, Structural)]
pub struct FileCacheItemMetadata {
    pub ttl_secs: u64,
    pub created_unixtime: u64,
}

/// Whether a value created at `created_unixtime` with `ttl_secs` to live is
/// stale at time `now`. A zero TTL never expires, and a clock that reads at
/// or before the creation time leaves the value fresh.
pub open spec fn spec_expired(m: FileCacheItemMetadata, now: u64) -> bool {
    now > m.created_unixtime && m.ttl_secs > 0 && now - m.created_unixtime > m.ttl_secs
}

impl FileCacheItemMetadata {
    /// Expiry evaluator: decides at read time whether this record says the
    /// cached value is stale.
    pub fn is_expired(&self, now: u64) -> (r: bool)
        ensures
            r == spec_expired(*self, now),
    {
        if now > self.created_unixtime {
            let diff_secs = now - self.created_unixtime;
            self.ttl_secs > 0 && diff_secs > self.ttl_secs
        } else {
            false
        }
    }
}

/// An ASCII decimal digit byte, `'0'` through `'9'`.
pub open spec fn is_ascii_digit(b: u8) -> bool {
    48 <= b && b <= 57
}

/// The canonical decimal digit bytes of `n`: no sign, no leading zeros.
pub open spec fn spec_digits(n: nat) -> Seq<u8>
    decreases n,
{
    if n < 10 {
        seq![(n + 48) as u8]
    } else {
        spec_digits(n / 10).push((n % 10 + 48) as u8)
    }
}

/// The numeric value of a sequence of ASCII digit bytes, most significant
/// first.
pub open spec fn spec_digits_val(s: Seq<u8>) -> int
    decreases s.len(),
{
    if s.len() == 0 {
        0
    } else {
        spec_digits_val(s.drop_last()) * 10 + (s.last() - 48)
    }
}

/// The bytes of the text `{"ttl_secs":`.
pub open spec fn spec_meta_prefix() -> Seq<u8> {
    seq![123u8, 34u8, 116u8, 116u8, 108u8, 95u8, 115u8, 101u8, 99u8, 115u8, 34u8, 58u8]
}

/// The bytes of the text `,"created_unixtime":`.
pub open spec fn spec_meta_infix() -> Seq<u8> {
    seq![
        44u8, 34u8, 99u8, 114u8, 101u8, 97u8, 116u8, 101u8, 100u8, 95u8, 117u8, 110u8, 105u8,
        120u8, 116u8, 105u8, 109u8, 101u8, 34u8, 58u8,
    ]
}

/// The canonical byte form of a metadata record:
/// `{"ttl_secs":N,"created_unixtime":M}`.
pub open spec fn spec_encode_metadata(m: FileCacheItemMetadata) -> Seq<u8> {
    spec_meta_prefix() + spec_digits(m.ttl_secs as nat) + spec_meta_infix() + spec_digits(
        m.created_unixtime as nat,
    ) + seq![125u8]
}

/// Appends the canonical decimal digits of `n`.
fn push_digits(out: &mut Vec<u8>, n: u64)
    ensures
        final(out)@ == old(out)@ + spec_digits(n as nat),
    decreases n,
{
    if n < 10 {
        out.push((n + 48) as u8);
        assert(out@ =~= old(out)@ + spec_digits(n as nat));
    } else {
        push_digits(out, n / 10);
        out.push((n % 10 + 48) as u8);
        assert(out@ =~= old(out)@ + spec_digits(n as nat));
    }
}

/// Appends the bytes of the text `{"ttl_secs":`.
fn push_meta_prefix(out: &mut Vec<u8>)
    ensures
        final(out)@ == old(out)@ + spec_meta_prefix(),
{
    out.push(123);
    out.push(34);
    out.push(116);
    out.push(116);
    out.push(108);
    out.push(95);
    out.push(115);
    out.push(101);
    out.push(99);
    out.push(115);
    out.push(34);
    out.push(58);
    assert(out@ =~= old(out)@ + spec_meta_prefix());
}

/// Appends the bytes of the text `,"created_unixtime":`.
fn push_meta_infix(out: &mut Vec<u8>)
    ensures
        final(out)@ == old(out)@ + spec_meta_infix(),
{
    out.push(44);
    out.push(34);
    out.push(99);
    out.push(114);
    out.push(101);
    out.push(97);
    out.push(116);
    out.push(101);
    out.push(100);
    out.push(95);
    out.push(117);
    out.push(110);
    out.push(105);
    out.push(120);
    out.push(116);
    out.push(105);
    out.push(109);
    out.push(101);
    out.push(34);
    out.push(58);
    assert(out@ =~= old(out)@ + spec_meta_infix());
}

/// The canonical digit string of a number is never empty, holds only
/// ASCII digits, and starts with `'0'` exactly when the number is zero.
proof fn lemma_digits_shape(n: nat)
    ensures
        spec_digits(n).len() >= 1,
        forall|i: int| 0 <= i < spec_digits(n).len() ==> is_ascii_digit(#[trigger] spec_digits(n)[i]),
        spec_digits(n)[0] == 48 <==> n == 0,
    decreases n,
{
    if n >= 10 {
        lemma_digits_shape(n / 10);
        assert(spec_digits(n)[0] == spec_digits(n / 10)[0]);
        assert forall|i: int| 0 <= i < spec_digits(n).len() implies is_ascii_digit(
            #[trigger] spec_digits(n)[i],
        ) by {
            if i < spec_digits(n / 10).len() {
                assert(spec_digits(n)[i] == spec_digits(n / 10)[i]);
            }
        }
    }
}

/// Reading the canonical digit string of a number back as a number gives
/// the number itself.
proof fn lemma_digits_val_of_digits(n: nat)
    ensures
        spec_digits_val(spec_digits(n)) == n,
    decreases n,
{
    if n < 10 {
        assert(spec_digits(n).drop_last() =~= Seq::<u8>::empty());
        assert(spec_digits_val(Seq::<u8>::empty()) == 0);
        assert(spec_digits(n).last() == (n + 48) as u8);
        assert((n + 48) as u8 == n + 48);
    } else {
        lemma_digits_val_of_digits(n / 10);
        assert(spec_digits(n).drop_last() =~= spec_digits(n / 10));
    }
}

/// A digit string that does not start with `'0'` has a positive value.
proof fn lemma_digits_val_positive(s: Seq<u8>)
    requires
        s.len() >= 1,
        forall|i: int| 0 <= i < s.len() ==> is_ascii_digit(#[trigger] s[i]),
        s[0] != 48,
    ensures
        spec_digits_val(s) >= 1,
    decreases s.len(),
{
    if s.len() == 1 {
        assert(s.last() == s[0]);
    } else {
        lemma_digits_val_positive(s.drop_last());
        assert(spec_digits_val(s.drop_last()) * 10 >= 10) by (nonlinear_arith)
            requires
                spec_digits_val(s.drop_last()) >= 1,
        ;
    }
}

/// A nonempty digit string without a leading zero is the canonical digit
/// string of its own value.
proof fn lemma_digits_canonical(s: Seq<u8>)
    requires
        s.len() >= 1,
        forall|i: int| 0 <= i < s.len() ==> is_ascii_digit(#[trigger] s[i]),
        s.len() == 1 || s[0] != 48,
    ensures
        spec_digits_val(s) >= 0,
        spec_digits(spec_digits_val(s) as nat) == s,
    decreases s.len(),
{
    if s.len() == 1 {
        let d = s[0] - 48;
        assert(s.last() == s[0]);
        assert(s.drop_last() =~= Seq::<u8>::empty());
        assert(spec_digits_val(Seq::<u8>::empty()) == 0);
        assert(spec_digits_val(s) == d);
        assert(spec_digits(d as nat) =~= s);
    } else {
        let rest = s.drop_last();
        let d = (s.last() - 48) as int;
        lemma_digits_canonical(rest);
        lemma_digits_val_positive(rest);
        let v = spec_digits_val(s);
        let w = spec_digits_val(rest);
        assert(v == w * 10 + d);
        assert(v / 10 == w && v % 10 == d) by (nonlinear_arith)
            requires
                v == w * 10 + d,
                0 <= d < 10,
                w >= 1,
        ;
        assert(spec_digits(v as nat) == spec_digits((v as nat) / 10).push(
            ((v as nat) % 10 + 48) as u8,
        ));
        assert((v as nat) / 10 == w as nat && (v as nat) % 10 == d as nat);
        assert(spec_digits(v as nat) =~= s);
    }
}

/// The value of a digit string grows (weakly) with each digit taken from
/// the front: every prefix values at most the whole.
proof fn lemma_digits_val_prefix(s: Seq<u8>, i: int)
    requires
        0 <= i <= s.len(),
        forall|j: int| 0 <= j < s.len() ==> is_ascii_digit(#[trigger] s[j]),
    ensures
        0 <= spec_digits_val(s.take(i)) <= spec_digits_val(s),
    decreases s.len() - i,
{
    if i == s.len() {
        assert(s.take(i) =~= s);
        lemma_digits_val_nonneg(s);
    } else {
        lemma_digits_val_prefix(s, i + 1);
        let p = s.take(i + 1);
        assert(p.drop_last() =~= s.take(i));
        assert(p.last() == s[i]);
        let w = spec_digits_val(s.take(i));
        lemma_digits_val_nonneg(s.take(i));
        assert(w <= w * 10) by (nonlinear_arith)
            requires
                w >= 0,
        ;
    }
}

/// The value of a digit string is never negative.
proof fn lemma_digits_val_nonneg(s: Seq<u8>)
    requires
        forall|j: int| 0 <= j < s.len() ==> is_ascii_digit(#[trigger] s[j]),
    ensures
        spec_digits_val(s) >= 0,
    decreases s.len(),
{
    if s.len() > 0 {
        lemma_digits_val_nonneg(s.drop_last());
        let w = spec_digits_val(s.drop_last());
        assert(w * 10 >= 0) by (nonlinear_arith)
            requires
                w >= 0,
        ;
    }
}

/// A run of digits that starts at one place and is stopped by the end of
/// the sequence or a non-digit is stopped at one place only.
proof fn lemma_digit_run_unique(s: Seq<u8>, start: int, e1: int, e2: int)
    requires
        start <= e1 <= s.len(),
        start <= e2 <= s.len(),
        forall|i: int| start <= i < e1 ==> is_ascii_digit(#[trigger] s[i]),
        e1 == s.len() || !is_ascii_digit(s[e1]),
        forall|i: int| start <= i < e2 ==> is_ascii_digit(#[trigger] s[i]),
        e2 == s.len() || !is_ascii_digit(s[e2]),
    ensures
        e1 == e2,
{
    if e1 < e2 {
        assert(is_ascii_digit(s[e1]));
    }
    if e2 < e1 {
        assert(is_ascii_digit(s[e2]));
    }
}

/// The record, if any, whose canonical encoding a byte sequence is.
/// Exactly one record qualifies when any does, since the encoding is
/// injective.
pub open spec fn spec_decode_metadata(s: Seq<u8>) -> Option<FileCacheItemMetadata> {
    if exists|m: FileCacheItemMetadata| s == spec_encode_metadata(m) {
        Some(choose|m: FileCacheItemMetadata| s == spec_encode_metadata(m))
    } else {
        None
    }
}

/// How an encoded record reads at each position: the five pieces in order,
/// the digit runs delimited by the non-digit bytes `,` and `}`.
proof fn lemma_encoding_facts(s: Seq<u8>, m: FileCacheItemMetadata)
    requires
        s == spec_encode_metadata(m),
    ensures
        ({
            let dt = spec_digits(m.ttl_secs as nat);
            let dc = spec_digits(m.created_unixtime as nat);
            &&& dt.len() >= 1 && dc.len() >= 1
            &&& s.len() == 33 + dt.len() + dc.len()
            &&& s.len() >= 35
            &&& s.subrange(0, 12) == spec_meta_prefix()
            &&& s.subrange(12, 12 + dt.len() as int) == dt
            &&& forall|i: int| 12 <= i < 12 + dt.len() ==> is_ascii_digit(#[trigger] s[i])
            &&& s[12 + dt.len() as int] == 44
            &&& !is_ascii_digit(s[12 + dt.len() as int])
            &&& s.subrange(12 + dt.len() as int, 32 + dt.len() as int) == spec_meta_infix()
            &&& s.subrange(32 + dt.len() as int, 32 + dt.len() + dc.len() as int) == dc
            &&& forall|i: int|
                32 + dt.len() <= i < 32 + dt.len() + dc.len() ==> is_ascii_digit(#[trigger] s[i])
            &&& s[s.len() - 1] == 125
            &&& !is_ascii_digit(s[s.len() - 1])
        }),
{
    let dt = spec_digits(m.ttl_secs as nat);
    let dc = spec_digits(m.created_unixtime as nat);
    lemma_digits_shape(m.ttl_secs as nat);
    lemma_digits_shape(m.created_unixtime as nat);
    assert(spec_meta_prefix().len() == 12);
    assert(spec_meta_infix().len() == 20);
    assert(s.subrange(0, 12) =~= spec_meta_prefix());
    assert(s.subrange(12, 12 + dt.len() as int) =~= dt);
    assert(s.subrange(12 + dt.len() as int, 32 + dt.len() as int) =~= spec_meta_infix());
    assert(s.subrange(32 + dt.len() as int, 32 + dt.len() + dc.len() as int) =~= dc);
    assert forall|i: int| 12 <= i < 12 + dt.len() implies is_ascii_digit(#[trigger] s[i]) by {
        assert(s[i] == dt[i - 12]);
    }
    assert forall|i: int| 32 + dt.len() <= i < 32 + dt.len() + dc.len() implies is_ascii_digit(
        #[trigger] s[i],
    ) by {
        assert(s[i] == dc[i - 32 - dt.len()]);
    }
    assert(s[12 + dt.len() as int] == spec_meta_infix()[0]);
}

/// A digit run parsed out of an encoded record where its TTL stands can
/// only be the TTL's own digits.
proof fn lemma_encoding_first_run(
    s: Seq<u8>,
    m: FileCacheItemMetadata,
    ttl: u64,
    end1: int,
)
    requires
        s == spec_encode_metadata(m),
        12 < end1 <= s.len(),
        s.subrange(12, end1) == spec_digits(ttl as nat),
        end1 == s.len() || !is_ascii_digit(s[end1]),
    ensures
        end1 == 12 + spec_digits(m.ttl_secs as nat).len(),
        ttl == m.ttl_secs,
{
    let dt = spec_digits(m.ttl_secs as nat);
    lemma_encoding_facts(s, m);
    lemma_digits_shape(ttl as nat);
    assert forall|i: int| 12 <= i < end1 implies is_ascii_digit(#[trigger] s[i]) by {
        assert(s[i] == spec_digits(ttl as nat)[i - 12]);
    }
    lemma_digit_run_unique(s, 12, end1, 12 + dt.len() as int);
    assert(spec_digits(ttl as nat) == dt);
    lemma_digits_val_of_digits(ttl as nat);
    lemma_digits_val_of_digits(m.ttl_secs as nat);
}

/// A digit run parsed out of an encoded record where its creation time
/// stands can only be the creation time's own digits.
proof fn lemma_encoding_second_run(
    s: Seq<u8>,
    m: FileCacheItemMetadata,
    created: u64,
    start2: int,
    end2: int,
)
    requires
        s == spec_encode_metadata(m),
        start2 == 32 + spec_digits(m.ttl_secs as nat).len(),
        start2 < end2 <= s.len(),
        s.subrange(start2, end2) == spec_digits(created as nat),
        end2 == s.len() || !is_ascii_digit(s[end2]),
    ensures
        end2 == start2 + spec_digits(m.created_unixtime as nat).len(),
        end2 == s.len() - 1,
        created == m.created_unixtime,
{
    let dc = spec_digits(m.created_unixtime as nat);
    lemma_encoding_facts(s, m);
    lemma_digits_shape(created as nat);
    assert forall|i: int| start2 <= i < end2 implies is_ascii_digit(#[trigger] s[i]) by {
        assert(s[i] == spec_digits(created as nat)[i - start2]);
    }
    lemma_digit_run_unique(s, start2, end2, start2 + dc.len() as int);
    assert(spec_digits(created as nat) == dc);
    lemma_digits_val_of_digits(created as nat);
    lemma_digits_val_of_digits(m.created_unixtime as nat);
}

/// No two distinct records share an encoding.
proof fn lemma_encode_injective(m1: FileCacheItemMetadata, m2: FileCacheItemMetadata)
    requires
        spec_encode_metadata(m1) == spec_encode_metadata(m2),
    ensures
        m1 == m2,
{
    let s = spec_encode_metadata(m1);
    let dt2 = spec_digits(m2.ttl_secs as nat);
    lemma_encoding_facts(s, m2);
    lemma_encoding_first_run(s, m1, m2.ttl_secs, 12 + dt2.len() as int);
    lemma_encoding_second_run(
        s,
        m1,
        m2.created_unixtime,
        32 + dt2.len() as int,
        32 + dt2.len() + spec_digits(m2.created_unixtime as nat).len() as int,
    );
}

/// Decoding inverts encoding: the canonical bytes of a record decode to
/// that record and no other.
pub proof fn lemma_decode_of_encode(m: FileCacheItemMetadata)
    ensures
        spec_decode_metadata(spec_encode_metadata(m)) == Some(m),
{
    let s = spec_encode_metadata(m);
    assert(exists|w: FileCacheItemMetadata| s == spec_encode_metadata(w));
    let w = choose|w: FileCacheItemMetadata| s == spec_encode_metadata(w);
    lemma_encode_injective(m, w);
}

/// Whatever decodes was the encoding of what it decodes to: a decoded
/// record re-encodes to the very bytes it came from.
pub proof fn lemma_decode_sound(s: Seq<u8>)
    ensures
        spec_decode_metadata(s) matches Some(m) ==> s == spec_encode_metadata(m),
{
}

/// Serializes a metadata record to its canonical on-disk bytes.
pub fn encode_metadata(m: &FileCacheItemMetadata) -> (r: Vec<u8>)
    ensures
        r@ == spec_encode_metadata(*m),
{
    let mut out: Vec<u8> = Vec::new();
    push_meta_prefix(&mut out);
    push_digits(&mut out, m.ttl_secs);
    push_meta_infix(&mut out);
    push_digits(&mut out, m.created_unixtime);
    out.push(125);
    assert(out@ =~= spec_encode_metadata(*m));
    out
}

/// Whether `pat` occurs in `s` exactly at position `at`.
fn bytes_match_at(s: &Vec<u8>, at: usize, pat: &Vec<u8>) -> (r: bool)
    requires
        at + pat@.len() <= s@.len(),
    ensures
        r == (s@.subrange(at as int, at + pat@.len()) == pat@),
{
    let sn = s.len();
    let mut i: usize = 0;
    while i < pat.len()
        invariant
            0 <= i <= pat@.len(),
            at + pat@.len() <= s@.len(),
            sn == s@.len(),
            forall|j: int| 0 <= j < i ==> s@[at + j] == #[trigger] pat@[j],
        decreases pat@.len() - i,
    {
        if s[at + i] != pat[i] {
            proof {
                assert(s@.subrange(at as int, at + pat@.len())[i as int] == s@[at + i]);
            }
            return false;
        }
        i = i + 1;
    }
    proof {
        assert(s@.subrange(at as int, at + pat@.len()) =~= pat@);
    }
    true
}

/// Parses the digit run that starts at `start` as a canonical decimal
/// number: the run must be nonempty, carry no leading zero, and fit in a
/// `u64`; it ends at the first non-digit byte or at the end of the input.
/// Returns the number and where the run ended, or nothing when no such
/// run stands at `start`.
fn parse_canonical_u64(s: &Vec<u8>, start: usize) -> (r: Option<(u64, usize)>)
    requires
        start <= s@.len(),
    ensures
        match r {
            Some(p) => {
                &&& start < p.1 <= s@.len()
                &&& s@.subrange(start as int, p.1 as int) == spec_digits(p.0 as nat)
                &&& (p.1 == s@.len() || !is_ascii_digit(s@[p.1 as int]))
            },
            None => forall|v: u64, e: int|
                #![trigger spec_digits(v as nat), s@.subrange(start as int, e)]
                start < e <= s@.len() && (e == s@.len() || !is_ascii_digit(s@[e]))
                    ==> s@.subrange(start as int, e) != spec_digits(v as nat),
        },
{
    let len = s.len();
    let mut end = start;
    while end < len && 48 <= s[end] && s[end] <= 57
        invariant
            start <= end <= len,
            len == s@.len(),
            forall|i: int| start <= i < end ==> is_ascii_digit(#[trigger] s@[i]),
        decreases len - end,
    {
        end = end + 1;
    }
    if end == start {
        proof {
            assert forall|v: u64, e: int|
                start < e <= s@.len() && (e == s@.len() || !is_ascii_digit(
                    s@[e],
                )) implies s@.subrange(start as int, e) != spec_digits(v as nat) by {
                if s@.subrange(start as int, e) == spec_digits(v as nat) {
                    lemma_digits_shape(v as nat);
                    assert(s@[start as int] == s@.subrange(start as int, e)[0]);
                    assert(is_ascii_digit(s@[start as int]));
                }
            }
        }
        return None;
    }
    if s[start] == 48 && end - start > 1 {
        proof {
            assert forall|v: u64, e: int|
                start < e <= s@.len() && (e == s@.len() || !is_ascii_digit(
                    s@[e],
                )) implies s@.subrange(start as int, e) != spec_digits(v as nat) by {
                if s@.subrange(start as int, e) == spec_digits(v as nat) {
                    lemma_digits_shape(v as nat);
                    assert forall|i: int| start <= i < e implies is_ascii_digit(
                        #[trigger] s@[i],
                    ) by {
                        assert(s@[i] == spec_digits(v as nat)[i - start]);
                    }
                    lemma_digit_run_unique(s@, start as int, e, end as int);
                    assert(s@[start as int] == spec_digits(v as nat)[0]);
                    assert(v == 0);
                    assert(spec_digits(v as nat).len() == 1);
                }
            }
        }
        return None;
    }
    let ghost run = s@.subrange(start as int, end as int);
    proof {
        assert(spec_digits_val(Seq::<u8>::empty()) == 0);
        assert(s@.subrange(start as int, start as int) =~= Seq::<u8>::empty());
    }
    let mut acc: u64 = 0;
    let mut i = start;
    while i < end
        invariant
            start <= i <= end <= s@.len(),
            start < end,
            forall|j: int| start <= j < end ==> is_ascii_digit(#[trigger] s@[j]),
            end == s@.len() || !is_ascii_digit(s@[end as int]),
            end - start > 1 ==> s@[start as int] != 48,
            run == s@.subrange(start as int, end as int),
            acc == spec_digits_val(s@.subrange(start as int, i as int)),
        decreases end - i,
    {
        let b = s[i];
        let d = b - 48;
        proof {
            let cur = s@.subrange(start as int, i + 1);
            assert(cur.drop_last() =~= s@.subrange(start as int, i as int));
            assert(cur.last() == s@[i as int]);
            assert(spec_digits_val(cur) == acc * 10 + d);
        }
        if acc > u64::MAX / 10 || (acc == u64::MAX / 10 && d > 5) {
            proof {
                assert forall|v: u64, e: int|
                    start < e <= s@.len() && (e == s@.len() || !is_ascii_digit(
                        s@[e],
                    )) implies s@.subrange(start as int, e) != spec_digits(v as nat) by {
                    if s@.subrange(start as int, e) == spec_digits(v as nat) {
                        lemma_digits_shape(v as nat);
                        assert forall|k: int| start <= k < e implies is_ascii_digit(
                            #[trigger] s@[k],
                        ) by {
                            assert(s@[k] == spec_digits(v as nat)[k - start]);
                        }
                        lemma_digit_run_unique(s@, start as int, e, end as int);
                        assert(e == end as int);
                        assert(s@.subrange(start as int, e) == run);
                        assert(run == spec_digits(v as nat));
                        lemma_digits_val_of_digits(v as nat);
                        assert(spec_digits_val(run) == v);
                        lemma_digits_val_prefix(run, i + 1 - start);
                        assert(run.take(i + 1 - start) =~= s@.subrange(start as int, i + 1));
                        assert(acc * 10 + d <= u64::MAX);
                    }
                }
            }
            return None;
        }
        acc = acc * 10 + (d as u64);
        i = i + 1;
    }
    proof {
        assert(run =~= s@.subrange(start as int, end as int));
        lemma_digits_canonical(run);
    }
    Some((acc, end))
}

/// Deserializes a metadata record from its on-disk bytes. Returns the
/// record exactly when the bytes are the canonical encoding of one; any
/// other content — the work of a crash, an editor, or another writer — is
/// reported as corrupt by returning nothing.
pub fn decode_metadata(s: &Vec<u8>) -> (r: Option<FileCacheItemMetadata>)
    ensures
        r == spec_decode_metadata(s@),
        r matches Some(m) ==> s@ == spec_encode_metadata(m),
{
    let n = s.len();
    let mut prefix_pat: Vec<u8> = Vec::new();
    push_meta_prefix(&mut prefix_pat);
    let mut infix_pat: Vec<u8> = Vec::new();
    push_meta_infix(&mut infix_pat);
    if n < 12 || !bytes_match_at(s, 0, &prefix_pat) {
        proof {
            assert forall|m: FileCacheItemMetadata| s@ != spec_encode_metadata(m) by {
                if s@ == spec_encode_metadata(m) {
                    lemma_encoding_facts(s@, m);
                }
            }
        }
        return None;
    }
    let first = parse_canonical_u64(s, 12);
    if first.is_none() {
        proof {
            assert forall|m: FileCacheItemMetadata| s@ != spec_encode_metadata(m) by {
                if s@ == spec_encode_metadata(m) {
                    lemma_encoding_facts(s@, m);
                    let dt = spec_digits(m.ttl_secs as nat);
                    assert(s@.subrange(12, 12 + dt.len() as int) == spec_digits(
                        m.ttl_secs as nat,
                    ));
                }
            }
        }
        return None;
    }
    let (ttl, end1) = first.unwrap();
    if n - end1 < 20 || !bytes_match_at(s, end1, &infix_pat) {
        proof {
            assert forall|m: FileCacheItemMetadata| s@ != spec_encode_metadata(m) by {
                if s@ == spec_encode_metadata(m) {
                    lemma_encoding_first_run(s@, m, ttl, end1 as int);
                    lemma_encoding_facts(s@, m);
                }
            }
        }
        return None;
    }
    let second = parse_canonical_u64(s, end1 + 20);
    if second.is_none() {
        proof {
            assert forall|m: FileCacheItemMetadata| s@ != spec_encode_metadata(m) by {
                if s@ == spec_encode_metadata(m) {
                    lemma_encoding_first_run(s@, m, ttl, end1 as int);
                    lemma_encoding_facts(s@, m);
                    let dt = spec_digits(m.ttl_secs as nat);
                    let dc = spec_digits(m.created_unixtime as nat);
                    assert(s@.subrange(32 + dt.len() as int, 32 + dt.len() + dc.len() as int)
                        == spec_digits(m.created_unixtime as nat));
                }
            }
        }
        return None;
    }
    let (created, end2) = second.unwrap();
    if end2 != n - 1 || s[end2] != 125 {
        proof {
            assert forall|m: FileCacheItemMetadata| s@ != spec_encode_metadata(m) by {
                if s@ == spec_encode_metadata(m) {
                    lemma_encoding_first_run(s@, m, ttl, end1 as int);
                    lemma_encoding_second_run(s@, m, created, end1 + 20, end2 as int);
                    lemma_encoding_facts(s@, m);
                }
            }
        }
        return None;
    }
    let result = FileCacheItemMetadata { ttl_secs: ttl, created_unixtime: created };
    proof {
        let e = spec_encode_metadata(result);
        let dt = spec_digits(ttl as nat);
        let dc = spec_digits(created as nat);
        assert(spec_meta_prefix().len() == 12);
        assert(spec_meta_infix().len() == 20);
        assert(dt.len() == end1 - 12);
        assert(dc.len() == end2 - end1 - 20);
        assert(e.len() == n);
        assert forall|i: int| 0 <= i < n implies s@[i] == e[i] by {
            if i < 12 {
                assert(s@[i] == s@.subrange(0, 12)[i]);
                assert(e[i] == spec_meta_prefix()[i]);
            } else if i < end1 {
                assert(s@[i] == s@.subrange(12, end1 as int)[i - 12]);
                assert(e[i] == dt[i - 12]);
            } else if i < end1 + 20 {
                assert(s@[i] == s@.subrange(end1 as int, end1 + 20)[i - end1]);
                assert(e[i] == spec_meta_infix()[i - end1]);
            } else if i < end2 {
                assert(s@[i] == s@.subrange(end1 + 20, end2 as int)[i - end1 - 20]);
                assert(e[i] == dc[i - end1 - 20]);
            } else {
                assert(e[i] == 125);
            }
        }
        assert(s@ =~= e);
        lemma_decode_of_encode(result);
    }
    Some(result)
}

} // verus!
