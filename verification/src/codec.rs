//! The on-disk shape of the two durable documents, byte for byte.
//!
//! The marker document is `{"startTime":N}` and the collection document is
//! `{"records":[{"start":N,"end":N},...]}`, where each `N` is a decimal
//! (possibly negative) count of milliseconds since the Unix epoch. `enc_*`
//! give the bytes written; `parse_*` give the meaning of bytes read. The
//! encoder emits canonical documents and the round-trip lemmas prove that
//! the parser maps every encoded collection back to the original.

use vstd::prelude::*;

use crate::tracker::{EndTime, StartTime, TimeRecord};

verus! {

pub open spec fn is_digit(b: u8) -> bool {
    48 <= b && b <= 57
}

/// Decimal digits of `n`, most significant first.
pub open spec fn dec_u64(n: nat) -> Seq<u8>
    decreases n,
{
    if n < 10 {
        seq![(48 + n) as u8]
    } else {
        dec_u64(n / 10) + seq![(48 + n % 10) as u8]
    }
}

/// Decimal digits of `v`, with a leading minus sign when `v` is negative.
pub open spec fn dec_i64(v: int) -> Seq<u8> {
    if v < 0 {
        seq![45u8] + dec_u64((-v) as nat)
    } else {
        dec_u64(v as nat)
    }
}

/// The bytes of `{"startTime":`.
pub open spec fn marker_prefix() -> Seq<u8> {
    seq![123u8, 34u8, 115u8, 116u8, 97u8, 114u8, 116u8, 84u8, 105u8, 109u8, 101u8, 34u8, 58u8]
}

/// The bytes of `{"records":[`.
pub open spec fn db_prefix() -> Seq<u8> {
    seq![123u8, 34u8, 114u8, 101u8, 99u8, 111u8, 114u8, 100u8, 115u8, 34u8, 58u8, 91u8]
}

/// The bytes of `{"start":`.
pub open spec fn rec_start_prefix() -> Seq<u8> {
    seq![123u8, 34u8, 115u8, 116u8, 97u8, 114u8, 116u8, 34u8, 58u8]
}

/// The bytes of `,"end":`.
pub open spec fn rec_end_prefix() -> Seq<u8> {
    seq![44u8, 34u8, 101u8, 110u8, 100u8, 34u8, 58u8]
}

/// One record as `{"start":N,"end":N}`.
pub open spec fn enc_record(r: TimeRecord) -> Seq<u8> {
    rec_start_prefix() + dec_i64(r.start.0 as int) + rec_end_prefix() + dec_i64(r.end.0 as int)
        + seq![125u8]
}

/// The records after the first, each preceded by a comma.
pub open spec fn enc_records_rest(rs: Seq<TimeRecord>) -> Seq<u8>
    decreases rs.len(),
{
    if rs.len() == 0 {
        Seq::<u8>::empty()
    } else {
        seq![44u8] + enc_record(rs[0]) + enc_records_rest(rs.skip(1))
    }
}

/// The comma-separated list of all records.
pub open spec fn enc_records(rs: Seq<TimeRecord>) -> Seq<u8> {
    if rs.len() == 0 {
        Seq::<u8>::empty()
    } else {
        enc_record(rs[0]) + enc_records_rest(rs.skip(1))
    }
}

/// The whole collection document.
pub open spec fn enc_db(rs: Seq<TimeRecord>) -> Seq<u8> {
    db_prefix() + enc_records(rs) + seq![93u8, 125u8]
}

/// The whole marker document.
pub open spec fn enc_marker(start_ms: i64) -> Seq<u8> {
    marker_prefix() + dec_i64(start_ms as int) + seq![125u8]
}

/// Consume decimal digits starting at `i`, extending the accumulator `acc`;
/// stops at the first non-digit. Rejects values above `u64::MAX`.
pub open spec fn parse_digits(s: Seq<u8>, i: int, acc: nat) -> Option<(nat, int)>
    decreases s.len() - i,
{
    if 0 <= i && i < s.len() && is_digit(s[i]) {
        let a2 = (acc * 10 + (s[i] - 48)) as nat;
        if a2 > u64::MAX {
            None
        } else {
            parse_digits(s, i + 1, a2)
        }
    } else {
        Some((acc, i))
    }
}

/// A non-empty run of digits starting at `i`, as an unsigned value.
pub open spec fn parse_u64_at(s: Seq<u8>, i: int) -> Option<(nat, int)> {
    if 0 <= i && i < s.len() && is_digit(s[i]) {
        parse_digits(s, i, 0)
    } else {
        None
    }
}

/// An optionally negated run of digits starting at `i`, as an `i64`.
pub open spec fn parse_i64_at(s: Seq<u8>, i: int) -> Option<(i64, int)> {
    if 0 <= i && i < s.len() && s[i] == 45 {
        match parse_u64_at(s, i + 1) {
            None => None,
            Some((n, j)) => if n <= 0x8000_0000_0000_0000 {
                Some(((-(n as int)) as i64, j))
            } else {
                None
            },
        }
    } else {
        match parse_u64_at(s, i) {
            None => None,
            Some((n, j)) => if n <= i64::MAX {
                Some((n as i64, j))
            } else {
                None
            },
        }
    }
}

/// The literal `lit` at position `i`; on a match, the position after it.
pub open spec fn expect_at(s: Seq<u8>, i: int, lit: Seq<u8>) -> Option<int> {
    if 0 <= i && i + lit.len() <= s.len() && s.subrange(i, i + lit.len() as int) == lit {
        Some(i + lit.len())
    } else {
        None
    }
}

/// One `{"start":N,"end":N}` object at position `i`.
pub open spec fn parse_record_at(s: Seq<u8>, i: int) -> Option<(TimeRecord, int)> {
    match expect_at(s, i, rec_start_prefix()) {
        None => None,
        Some(j1) => match parse_i64_at(s, j1) {
            None => None,
            Some((sv, j2)) => match expect_at(s, j2, rec_end_prefix()) {
                None => None,
                Some(j3) => match parse_i64_at(s, j3) {
                    None => None,
                    Some((ev, j4)) => match expect_at(s, j4, seq![125u8]) {
                        None => None,
                        Some(j5) => Some(
                            (TimeRecord { start: StartTime(sv), end: EndTime(ev) }, j5),
                        ),
                    },
                },
            },
        },
    }
}

/// Zero or more `,record` continuations starting at `i`, appended to `acc`.
pub open spec fn parse_records_rest(s: Seq<u8>, i: int, acc: Seq<TimeRecord>) -> Option<
    (Seq<TimeRecord>, int),
>
    decreases s.len() - i,
{
    if 0 <= i && i < s.len() && s[i] == 44u8 {
        match parse_record_at(s, i + 1) {
            None => None,
            Some((r, j)) => if i < j && j <= s.len() {
                parse_records_rest(s, j, acc.push(r))
            } else {
                None
            },
        }
    } else {
        Some((acc, i))
    }
}

/// The meaning of a whole collection document.
pub open spec fn parse_db(s: Seq<u8>) -> Option<Seq<TimeRecord>> {
    match expect_at(s, 0, db_prefix()) {
        None => None,
        Some(i) => if i < s.len() && s[i] == 93u8 {
            if expect_at(s, i, seq![93u8, 125u8]) == Some(s.len() as int) {
                Some(Seq::<TimeRecord>::empty())
            } else {
                None
            }
        } else {
            match parse_record_at(s, i) {
                None => None,
                Some((r0, j)) => match parse_records_rest(s, j, seq![r0]) {
                    None => None,
                    Some((rs, k)) => if expect_at(s, k, seq![93u8, 125u8]) == Some(s.len() as int) {
                        Some(rs)
                    } else {
                        None
                    },
                },
            }
        },
    }
}

/// The meaning of a whole marker document.
pub open spec fn parse_marker(s: Seq<u8>) -> Option<i64> {
    match expect_at(s, 0, marker_prefix()) {
        None => None,
        Some(i) => match parse_i64_at(s, i) {
            None => None,
            Some((v, j)) => if expect_at(s, j, seq![125u8]) == Some(s.len() as int) {
                Some(v)
            } else {
                None
            },
        },
    }
}

fn push_marker_prefix(out: &mut Vec<u8>)
    ensures
        final(out)@ == old(out)@ + marker_prefix(),
{
    out.push(123u8);
    out.push(34u8);
    out.push(115u8);
    out.push(116u8);
    out.push(97u8);
    out.push(114u8);
    out.push(116u8);
    out.push(84u8);
    out.push(105u8);
    out.push(109u8);
    out.push(101u8);
    out.push(34u8);
    out.push(58u8);
    proof {
        assert(out@ =~= old(out)@ + marker_prefix());
    }
}

fn push_db_prefix(out: &mut Vec<u8>)
    ensures
        final(out)@ == old(out)@ + db_prefix(),
{
    out.push(123u8);
    out.push(34u8);
    out.push(114u8);
    out.push(101u8);
    out.push(99u8);
    out.push(111u8);
    out.push(114u8);
    out.push(100u8);
    out.push(115u8);
    out.push(34u8);
    out.push(58u8);
    out.push(91u8);
    proof {
        assert(out@ =~= old(out)@ + db_prefix());
    }
}

fn push_rec_start_prefix(out: &mut Vec<u8>)
    ensures
        final(out)@ == old(out)@ + rec_start_prefix(),
{
    out.push(123u8);
    out.push(34u8);
    out.push(115u8);
    out.push(116u8);
    out.push(97u8);
    out.push(114u8);
    out.push(116u8);
    out.push(34u8);
    out.push(58u8);
    proof {
        assert(out@ =~= old(out)@ + rec_start_prefix());
    }
}

fn push_rec_end_prefix(out: &mut Vec<u8>)
    ensures
        final(out)@ == old(out)@ + rec_end_prefix(),
{
    out.push(44u8);
    out.push(34u8);
    out.push(101u8);
    out.push(110u8);
    out.push(100u8);
    out.push(34u8);
    out.push(58u8);
    proof {
        assert(out@ =~= old(out)@ + rec_end_prefix());
    }
}

pub(crate) fn push_u64_dec(out: &mut Vec<u8>, n: u64)
    ensures
        final(out)@ == old(out)@ + dec_u64(n as nat),
    decreases n,
{
    if n < 10 {
        out.push(48 + n as u8);
        proof {
            assert(out@ =~= old(out)@ + dec_u64(n as nat));
        }
    } else {
        push_u64_dec(out, n / 10);
        out.push(48 + (n % 10) as u8);
        proof {
            assert(out@ =~= old(out)@ + dec_u64(n as nat));
        }
    }
}

fn push_i64_dec(out: &mut Vec<u8>, v: i64)
    ensures
        final(out)@ == old(out)@ + dec_i64(v as int),
{
    if v >= 0 {
        push_u64_dec(out, v as u64);
    } else {
        out.push(45u8);
        let m: u64 = (-(v as i128)) as u64;
        proof {
            assert(m as nat == (-(v as int)) as nat);
        }
        push_u64_dec(out, m);
        proof {
            assert(out@ =~= old(out)@ + dec_i64(v as int));
        }
    }
}

fn push_record(out: &mut Vec<u8>, rec: TimeRecord)
    ensures
        final(out)@ == old(out)@ + enc_record(rec),
{
    push_rec_start_prefix(out);
    push_i64_dec(out, rec.start.0);
    push_rec_end_prefix(out);
    push_i64_dec(out, rec.end.0);
    out.push(125u8);
    proof {
        assert(out@ =~= old(out)@ + enc_record(rec));
    }
}

fn push_records_rest(out: &mut Vec<u8>, records: &Vec<TimeRecord>, i: usize)
    requires
        i <= records.len(),
    ensures
        final(out)@ == old(out)@ + enc_records_rest(records@.skip(i as int)),
    decreases records.len() - i,
{
    if i < records.len() {
        out.push(44u8);
        push_record(out, records[i]);
        push_records_rest(out, records, i + 1);
        proof {
            assert(records@.skip(i as int)[0] == records@[i as int]);
            assert(records@.skip(i as int).skip(1) =~= records@.skip(i as int + 1));
            assert(out@ =~= old(out)@ + enc_records_rest(records@.skip(i as int)));
        }
    } else {
        proof {
            assert(records@.skip(i as int) =~= Seq::<TimeRecord>::empty());
        }
    }
}

/// The canonical bytes of the marker document recording `start_ms`.
pub fn encode_marker(start_ms: i64) -> (r: Vec<u8>)
    ensures
        r@ == enc_marker(start_ms),
{
    let mut out: Vec<u8> = Vec::new();
    push_marker_prefix(&mut out);
    push_i64_dec(&mut out, start_ms);
    out.push(125u8);
    proof {
        assert(out@ =~= enc_marker(start_ms));
    }
    out
}

/// The canonical bytes of the collection document holding `records`.
pub fn encode_db(records: &Vec<TimeRecord>) -> (r: Vec<u8>)
    ensures
        r@ == enc_db(records@),
{
    let mut out: Vec<u8> = Vec::new();
    push_db_prefix(&mut out);
    if records.len() > 0 {
        push_record(&mut out, records[0]);
        push_records_rest(&mut out, records, 1);
    }
    out.push(93u8);
    out.push(125u8);
    proof {
        assert(out@ =~= enc_db(records@));
    }
    out
}

fn marker_prefix_vec() -> (r: Vec<u8>)
    ensures
        r@ == marker_prefix(),
{
    let mut out: Vec<u8> = Vec::new();
    push_marker_prefix(&mut out);
    out
}

fn db_prefix_vec() -> (r: Vec<u8>)
    ensures
        r@ == db_prefix(),
{
    let mut out: Vec<u8> = Vec::new();
    push_db_prefix(&mut out);
    out
}

fn rec_start_prefix_vec() -> (r: Vec<u8>)
    ensures
        r@ == rec_start_prefix(),
{
    let mut out: Vec<u8> = Vec::new();
    push_rec_start_prefix(&mut out);
    out
}

fn rec_end_prefix_vec() -> (r: Vec<u8>)
    ensures
        r@ == rec_end_prefix(),
{
    let mut out: Vec<u8> = Vec::new();
    push_rec_end_prefix(&mut out);
    out
}

fn expect_bytes(s: &Vec<u8>, i: usize, lit: &Vec<u8>) -> (r: Option<usize>)
    ensures
        match r {
            Some(j) => expect_at(s@, i as int, lit@) == Some(j as int),
            None => expect_at(s@, i as int, lit@) is None,
        },
{
    if s.len() < lit.len() || i > s.len() - lit.len() {
        return None;
    }
    let mut k: usize = 0;
    while k < lit.len()
        invariant
            i + lit.len() <= s.len(),
            k <= lit.len(),
            forall|t: int| 0 <= t < k ==> s@[i + t] == lit@[t],
        decreases lit.len() - k,
    {
        if s[i + k] != lit[k] {
            proof {
                assert(s@.subrange(i as int, i + lit@.len())[k as int] == s@[i + k]);
            }
            return None;
        }
        k = k + 1;
    }
    proof {
        assert(s@.subrange(i as int, i + lit@.len()) =~= lit@);
    }
    Some(i + lit.len())
}

fn parse_digits_exec(s: &Vec<u8>, i: usize, acc: u64) -> (r: Option<(u64, usize)>)
    ensures
        match r {
            Some((v, j)) => parse_digits(s@, i as int, acc as nat) == Some((v as nat, j as int)),
            None => parse_digits(s@, i as int, acc as nat) is None,
        },
    decreases s@.len() - i,
{
    if i < s.len() && 48 <= s[i] && s[i] <= 57 {
        let d = s[i] - 48;
        let wide: u128 = acc as u128 * 10 + d as u128;
        if wide > u64::MAX as u128 {
            None
        } else {
            parse_digits_exec(s, i + 1, wide as u64)
        }
    } else {
        Some((acc, i))
    }
}

fn parse_u64_exec(s: &Vec<u8>, i: usize) -> (r: Option<(u64, usize)>)
    ensures
        match r {
            Some((v, j)) => parse_u64_at(s@, i as int) == Some((v as nat, j as int)),
            None => parse_u64_at(s@, i as int) is None,
        },
{
    if i < s.len() && 48 <= s[i] && s[i] <= 57 {
        parse_digits_exec(s, i, 0)
    } else {
        None
    }
}

fn parse_i64_exec(s: &Vec<u8>, i: usize) -> (r: Option<(i64, usize)>)
    ensures
        match r {
            Some((v, j)) => parse_i64_at(s@, i as int) == Some((v, j as int)),
            None => parse_i64_at(s@, i as int) is None,
        },
{
    if i < s.len() && s[i] == 45u8 {
        match parse_u64_exec(s, i + 1) {
            None => None,
            Some((n, j)) => {
                if n <= 0x8000_0000_0000_0000u64 {
                    let v: i64 = if n == 0x8000_0000_0000_0000u64 {
                        i64::MIN
                    } else {
                        -(n as i64)
                    };
                    proof {
                        assert(v as int == -(n as int));
                    }
                    Some((v, j))
                } else {
                    None
                }
            },
        }
    } else {
        match parse_u64_exec(s, i) {
            None => None,
            Some((n, j)) => if n <= i64::MAX as u64 {
                Some((n as i64, j))
            } else {
                None
            },
        }
    }
}

fn parse_record_exec(s: &Vec<u8>, i: usize) -> (r: Option<(TimeRecord, usize)>)
    ensures
        match r {
            Some((rec, j)) => parse_record_at(s@, i as int) == Some((rec, j as int)),
            None => parse_record_at(s@, i as int) is None,
        },
{
    let p1 = rec_start_prefix_vec();
    let j1 = match expect_bytes(s, i, &p1) {
        None => {
            return None;
        },
        Some(j) => j,
    };
    let (sv, j2) = match parse_i64_exec(s, j1) {
        None => {
            return None;
        },
        Some(x) => x,
    };
    let p2 = rec_end_prefix_vec();
    let j3 = match expect_bytes(s, j2, &p2) {
        None => {
            return None;
        },
        Some(j) => j,
    };
    let (ev, j4) = match parse_i64_exec(s, j3) {
        None => {
            return None;
        },
        Some(x) => x,
    };
    if j4 < s.len() && s[j4] == 125u8 {
        proof {
            assert(s@.subrange(j4 as int, j4 + 1int) =~= seq![125u8]);
        }
        Some((TimeRecord { start: StartTime(sv), end: EndTime(ev) }, j4 + 1))
    } else {
        proof {
            if j4 < s@.len() {
                assert(s@.subrange(j4 as int, j4 + 1int)[0] == s@[j4 as int]);
            }
        }
        None
    }
}

fn parse_records_rest_exec(s: &Vec<u8>, i: usize, acc: &mut Vec<TimeRecord>) -> (r: Option<usize>)
    ensures
        match r {
            Some(j) => parse_records_rest(s@, i as int, old(acc)@) == Some((final(acc)@, j as int)),
            None => parse_records_rest(s@, i as int, old(acc)@) is None,
        },
    decreases s@.len() - i,
{
    if i < s.len() && s[i] == 44u8 {
        match parse_record_exec(s, i + 1) {
            None => None,
            Some((rec, j)) => {
                if i < j && j <= s.len() {
                    acc.push(rec);
                    parse_records_rest_exec(s, j, acc)
                } else {
                    None
                }
            },
        }
    } else {
        Some(i)
    }
}

/// Read a collection document; `None` when the bytes are not one.
pub fn decode_db(s: &Vec<u8>) -> (r: Option<Vec<TimeRecord>>)
    ensures
        match r {
            Some(v) => parse_db(s@) == Some(v@),
            None => parse_db(s@) is None,
        },
{
    let pre = db_prefix_vec();
    let i = match expect_bytes(s, 0, &pre) {
        None => {
            return None;
        },
        Some(j) => j,
    };
    if i < s.len() && s[i] == 93u8 {
        if s.len() >= 2 && i == s.len() - 2 && s[i + 1] == 125u8 {
            proof {
                assert(s@.subrange(i as int, i + 2int) =~= seq![93u8, 125u8]);
            }
            let empty: Vec<TimeRecord> = Vec::new();
            proof {
                assert(empty@ =~= Seq::<TimeRecord>::empty());
            }
            Some(empty)
        } else {
            proof {
                if i + 2 <= s@.len() {
                    assert(s@.subrange(i as int, i + 2int)[0] == s@[i as int]);
                    assert(s@.subrange(i as int, i + 2int)[1] == s@[i + 1int]);
                }
            }
            None
        }
    } else {
        let (r0, j) = match parse_record_exec(s, i) {
            None => {
                return None;
            },
            Some(x) => x,
        };
        let mut acc: Vec<TimeRecord> = Vec::new();
        acc.push(r0);
        proof {
            assert(acc@ =~= seq![r0]);
        }
        let k = match parse_records_rest_exec(s, j, &mut acc) {
            None => {
                return None;
            },
            Some(k) => k,
        };
        if s.len() >= 2 && k == s.len() - 2 && s[k] == 93u8 && s[k + 1] == 125u8 {
            proof {
                assert(s@.subrange(k as int, k + 2int) =~= seq![93u8, 125u8]);
            }
            Some(acc)
        } else {
            proof {
                if k + 2 <= s@.len() {
                    assert(s@.subrange(k as int, k + 2int)[0] == s@[k as int]);
                    assert(s@.subrange(k as int, k + 2int)[1] == s@[k + 1int]);
                }
            }
            None
        }
    }
}

/// Read a marker document; `None` when the bytes are not one.
pub fn decode_marker(s: &Vec<u8>) -> (r: Option<i64>)
    ensures
        match r {
            Some(v) => parse_marker(s@) == Some(v),
            None => parse_marker(s@) is None,
        },
{
    let pre = marker_prefix_vec();
    let i = match expect_bytes(s, 0, &pre) {
        None => {
            return None;
        },
        Some(j) => j,
    };
    let (v, j) = match parse_i64_exec(s, i) {
        None => {
            return None;
        },
        Some(x) => x,
    };
    if s.len() >= 1 && j == s.len() - 1 && s[j] == 125u8 {
        proof {
            assert(s@.subrange(j as int, j + 1int) =~= seq![125u8]);
        }
        Some(v)
    } else {
        proof {
            if j < s@.len() {
                assert(s@.subrange(j as int, j + 1int)[0] == s@[j as int]);
            }
        }
        None
    }
}

/// 10 to the number of digits of `n`.
pub open spec fn dec_scale(n: nat) -> nat
    decreases n,
{
    if n < 10 {
        10
    } else {
        10 * dec_scale(n / 10)
    }
}

pub(crate) proof fn lemma_dec_u64_digits(n: nat)
    ensures
        dec_u64(n).len() >= 1,
        forall|k: int| 0 <= k < dec_u64(n).len() ==> is_digit(dec_u64(n)[k]),
    decreases n,
{
    if n < 10 {
    } else {
        lemma_dec_u64_digits(n / 10);
        assert forall|k: int| 0 <= k < dec_u64(n).len() implies is_digit(dec_u64(n)[k]) by {
            if k < dec_u64(n / 10).len() {
                assert(dec_u64(n)[k] == dec_u64(n / 10)[k]);
            } else {
                assert(dec_u64(n)[k] == (48 + n % 10) as u8);
            }
        }
    }
}

proof fn lemma_dec_i64_len(v: int)
    ensures
        dec_i64(v).len() >= 1,
{
    if v < 0 {
        lemma_dec_u64_digits((-v) as nat);
    } else {
        lemma_dec_u64_digits(v as nat);
    }
}

proof fn lemma_subrange_split(s: Seq<u8>, i: int, a: Seq<u8>, b: Seq<u8>)
    requires
        0 <= i,
        i + a.len() + b.len() <= s.len(),
        s.subrange(i, i + a.len() + b.len()) == a + b,
    ensures
        s.subrange(i, i + a.len() as int) == a,
        s.subrange(i + a.len() as int, i + a.len() + b.len()) == b,
{
    assert forall|k: int| 0 <= k < a.len() implies s.subrange(i, i + a.len() as int)[k] == a[k] by {
        assert(s.subrange(i, i + a.len() + b.len())[k] == (a + b)[k]);
    }
    assert(s.subrange(i, i + a.len() as int) =~= a);
    assert forall|k: int|
        0 <= k < b.len() implies s.subrange(i + a.len() as int, i + a.len() + b.len())[k]
        == b[k] by {
        assert(s.subrange(i + a.len() as int, i + a.len() + b.len())[k] == s[i + a.len() + k]);
        assert(s.subrange(i, i + a.len() + b.len())[a.len() + k] == s[i + a.len() + k]);
        assert((a + b)[a.len() + k] == b[k]);
    }
    assert(s.subrange(i + a.len() as int, i + a.len() + b.len()) =~= b);
}

proof fn lemma_parse_digits_of_dec(s: Seq<u8>, i: int, n: nat, acc: nat)
    requires
        0 <= i,
        i + dec_u64(n).len() <= s.len(),
        s.subrange(i, i + dec_u64(n).len() as int) == dec_u64(n),
        acc * dec_scale(n) + n <= u64::MAX,
    ensures
        parse_digits(s, i, acc) == parse_digits(
            s,
            i + dec_u64(n).len() as int,
            (acc * dec_scale(n) + n) as nat,
        ),
    decreases n,
{
    if n < 10 {
        assert(s.subrange(i, i + 1)[0] == s[i]);
        assert(s[i] == (48 + n) as u8);
        assert(s[i] - 48 == n);
        assert(dec_scale(n) == 10);
        assert(parse_digits(s, i, acc) == parse_digits(s, i + 1, (acc * 10 + n) as nat));
    } else {
        let n1 = n / 10;
        let d = n % 10;
        let tail = seq![(48 + d) as u8];
        lemma_subrange_split(s, i, dec_u64(n1), tail);
        let l1 = dec_u64(n1).len() as int;
        assert(s.subrange(i + l1, i + l1 + 1)[0] == s[i + l1]);
        assert(s[i + l1] == (48 + d) as u8);
        assert(n == 10 * n1 + d);
        assert(dec_scale(n) == 10 * dec_scale(n1));
        assert(10 * (acc * dec_scale(n1) + n1) + d == acc * dec_scale(n) + n) by (nonlinear_arith)
            requires
                n == 10 * n1 + d,
                dec_scale(n) == 10 * dec_scale(n1),
        ;
        let mid = (acc * dec_scale(n1) + n1) as nat;
        assert(mid <= u64::MAX);
        lemma_parse_digits_of_dec(s, i, n1, acc);
        assert(is_digit(s[i + l1]));
        assert(s[i + l1] - 48 == d);
        assert(parse_digits(s, i + l1, mid) == parse_digits(s, i + l1 + 1, (mid * 10 + d) as nat));
        assert((mid * 10 + d) as nat == (acc * dec_scale(n) + n) as nat);
        assert(i + l1 + 1 == i + dec_u64(n).len());
    }
}

proof fn lemma_parse_u64_of_dec(s: Seq<u8>, i: int, n: nat)
    requires
        0 <= i,
        i + dec_u64(n).len() <= s.len(),
        s.subrange(i, i + dec_u64(n).len() as int) == dec_u64(n),
        n <= u64::MAX,
        i + dec_u64(n).len() == s.len() || !is_digit(s[i + dec_u64(n).len()]),
    ensures
        parse_u64_at(s, i) == Some((n, i + dec_u64(n).len() as int)),
{
    lemma_dec_u64_digits(n);
    assert(s.subrange(i, i + dec_u64(n).len() as int)[0] == s[i]);
    assert(is_digit(s[i]));
    assert(0 * dec_scale(n) + n == n);
    lemma_parse_digits_of_dec(s, i, n, 0);
    let e = i + dec_u64(n).len() as int;
    assert(parse_digits(s, e, n) == Some((n, e)));
}

proof fn lemma_parse_i64_of_dec(s: Seq<u8>, i: int, v: i64)
    requires
        0 <= i,
        i + dec_i64(v as int).len() <= s.len(),
        s.subrange(i, i + dec_i64(v as int).len() as int) == dec_i64(v as int),
        i + dec_i64(v as int).len() == s.len() || !is_digit(s[i + dec_i64(v as int).len()]),
    ensures
        parse_i64_at(s, i) == Some((v, i + dec_i64(v as int).len() as int)),
{
    if v >= 0 {
        let n = v as nat;
        lemma_dec_u64_digits(n);
        assert(s.subrange(i, i + dec_u64(n).len() as int)[0] == s[i]);
        assert(is_digit(s[i]));
        assert(s[i] != 45);
        lemma_parse_u64_of_dec(s, i, n);
        assert(n <= i64::MAX);
    } else {
        let n = (-(v as int)) as nat;
        lemma_subrange_split(s, i, seq![45u8], dec_u64(n));
        assert(s.subrange(i, i + 1)[0] == s[i]);
        assert(s[i] == 45);
        lemma_parse_u64_of_dec(s, i + 1, n);
        assert(n <= 0x8000_0000_0000_0000);
        assert(((-(n as int)) as i64) == v);
    }
}

proof fn lemma_enc_record_shape(r: TimeRecord)
    ensures
        enc_record(r).len() >= 19,
        enc_record(r)[0] == 123u8,
{
    lemma_dec_i64_len(r.start.0 as int);
    lemma_dec_i64_len(r.end.0 as int);
    assert(enc_record(r)[0] == rec_start_prefix()[0]);
}

proof fn lemma_parse_record_of_enc(s: Seq<u8>, i: int, r: TimeRecord)
    requires
        0 <= i,
        i + enc_record(r).len() <= s.len(),
        s.subrange(i, i + enc_record(r).len() as int) == enc_record(r),
    ensures
        parse_record_at(s, i) == Some((r, i + enc_record(r).len() as int)),
{
    let p1 = rec_start_prefix();
    let d1 = dec_i64(r.start.0 as int);
    let p2 = rec_end_prefix();
    let d2 = dec_i64(r.end.0 as int);
    let cl = seq![125u8];
    assert(enc_record(r) =~= p1 + (d1 + p2 + d2 + cl));
    lemma_subrange_split(s, i, p1, d1 + p2 + d2 + cl);
    let i1 = i + p1.len() as int;
    assert(d1 + p2 + d2 + cl =~= d1 + (p2 + d2 + cl));
    lemma_subrange_split(s, i1, d1, p2 + d2 + cl);
    let i2 = i1 + d1.len() as int;
    assert(p2 + d2 + cl =~= p2 + (d2 + cl));
    lemma_subrange_split(s, i2, p2, d2 + cl);
    let i3 = i2 + p2.len() as int;
    lemma_subrange_split(s, i3, d2, cl);
    let i4 = i3 + d2.len() as int;
    assert(expect_at(s, i, p1) == Some(i1));
    assert(s.subrange(i2, i2 + p2.len() as int)[0] == s[i2]);
    assert(s[i2] == 44);
    assert(!is_digit(s[i2]));
    lemma_parse_i64_of_dec(s, i1, r.start.0);
    assert(expect_at(s, i2, p2) == Some(i3));
    assert(s.subrange(i3 + d2.len() as int, i3 + d2.len() + cl.len()) == cl);
    assert(s.subrange(i4, i4 + 1)[0] == s[i4]);
    assert(s[i4] == 125);
    assert(!is_digit(s[i4]));
    lemma_parse_i64_of_dec(s, i3, r.end.0);
    assert(expect_at(s, i4, seq![125u8]) == Some(i4 + 1));
    assert(i4 + 1 == i + enc_record(r).len());
    assert(TimeRecord { start: StartTime(r.start.0), end: EndTime(r.end.0) } == r);
}

proof fn lemma_parse_records_rest_of_enc(s: Seq<u8>, i: int, rs: Seq<TimeRecord>, acc: Seq<TimeRecord>)
    requires
        0 <= i,
        i + enc_records_rest(rs).len() <= s.len(),
        s.subrange(i, i + enc_records_rest(rs).len() as int) == enc_records_rest(rs),
        i + enc_records_rest(rs).len() == s.len() || s[i + enc_records_rest(rs).len()] != 44u8,
    ensures
        parse_records_rest(s, i, acc) == Some((acc + rs, i + enc_records_rest(rs).len() as int)),
    decreases rs.len(),
{
    if rs.len() == 0 {
        assert(acc + rs =~= acc);
    } else {
        let r0 = rs[0];
        let rest = rs.skip(1);
        assert(enc_records_rest(rs) =~= seq![44u8] + (enc_record(r0) + enc_records_rest(rest)));
        lemma_subrange_split(s, i, seq![44u8], enc_record(r0) + enc_records_rest(rest));
        assert(s.subrange(i, i + 1)[0] == s[i]);
        assert(s[i] == 44);
        lemma_subrange_split(s, i + 1, enc_record(r0), enc_records_rest(rest));
        lemma_enc_record_shape(r0);
        lemma_parse_record_of_enc(s, i + 1, r0);
        let j = i + 1 + enc_record(r0).len() as int;
        lemma_parse_records_rest_of_enc(s, j, rest, acc.push(r0));
        assert(acc.push(r0) + rest =~= acc + rs);
    }
}

#[verifier::spinoff_prover]
proof fn lemma_db_roundtrip_empty(rs: Seq<TimeRecord>)
    requires
        rs.len() == 0,
    ensures
        parse_db(enc_db(rs)) == Some(rs),
{
    let s = enc_db(rs);
    assert(s =~= db_prefix() + seq![93u8, 125u8]);
    assert(s.subrange(0, 12) =~= db_prefix());
    assert(expect_at(s, 0, db_prefix()) == Some(12int));
    assert(s[12] == 93u8);
    assert(s.subrange(12, 14) =~= seq![93u8, 125u8]);
    assert(expect_at(s, 12, seq![93u8, 125u8]) == Some(14int));
    assert(rs =~= Seq::<TimeRecord>::empty());
}

#[verifier::rlimit(100)]
#[verifier::spinoff_prover]
proof fn lemma_db_roundtrip_nonempty(rs: Seq<TimeRecord>)
    requires
        rs.len() > 0,
    ensures
        parse_db(enc_db(rs)) == Some(rs),
{
    let s = enc_db(rs);
    let body = enc_records(rs);
    let tail = seq![93u8, 125u8];
    assert(s.subrange(0, s.len() as int) =~= s);
    assert(s =~= db_prefix() + (body + tail));
    lemma_subrange_split(s, 0, db_prefix(), body + tail);
    let i = db_prefix().len() as int;
    assert(expect_at(s, 0, db_prefix()) == Some(i));
    let r0 = rs[0];
    let rest = rs.skip(1);
    assert(body + tail =~= enc_record(r0) + (enc_records_rest(rest) + tail));
    lemma_subrange_split(s, i, enc_record(r0), enc_records_rest(rest) + tail);
    lemma_enc_record_shape(r0);
    assert(s.subrange(i, i + enc_record(r0).len() as int)[0] == s[i]);
    assert(s[i] == 123u8);
    lemma_parse_record_of_enc(s, i, r0);
    let j = i + enc_record(r0).len() as int;
    lemma_subrange_split(s, j, enc_records_rest(rest), tail);
    let e = j + enc_records_rest(rest).len() as int;
    assert(s.subrange(e, e + 2)[0] == s[e]);
    assert(s[e] == 93u8);
    lemma_parse_records_rest_of_enc(s, j, rest, seq![r0]);
    assert(seq![r0] + rest =~= rs);
    assert(expect_at(s, e, seq![93u8, 125u8]) == Some(e + 2));
    assert(e + 2 == s.len());
}

/// Round trip of the collection document: parsing the encoding of any
/// sequence of records — empty, one, or many — yields that same sequence,
/// order and values intact.
pub proof fn lemma_db_roundtrip(rs: Seq<TimeRecord>)
    ensures
        parse_db(enc_db(rs)) == Some(rs),
{
    if rs.len() == 0 {
        lemma_db_roundtrip_empty(rs);
    } else {
        lemma_db_roundtrip_nonempty(rs);
    }
}

/// Round trip of the marker document: parsing the encoding of any start
/// time yields that start time.
pub proof fn lemma_marker_roundtrip(start_ms: i64)
    ensures
        parse_marker(enc_marker(start_ms)) == Some(start_ms),
{
    let s = enc_marker(start_ms);
    let d = dec_i64(start_ms as int);
    let cl = seq![125u8];
    assert(s.subrange(0, s.len() as int) =~= s);
    assert(s =~= marker_prefix() + (d + cl));
    lemma_subrange_split(s, 0, marker_prefix(), d + cl);
    let i = marker_prefix().len() as int;
    assert(expect_at(s, 0, marker_prefix()) == Some(i));
    lemma_subrange_split(s, i, d, cl);
    let j = i + d.len() as int;
    assert(s.subrange(j, j + 1)[0] == s[j]);
    assert(s[j] == 125);
    assert(!is_digit(s[j]));
    lemma_parse_i64_of_dec(s, i, start_ms);
    assert(expect_at(s, j, seq![125u8]) == Some(j + 1));
    assert(j + 1 == s.len());
}

} // verus!
