//! Formatting a duration as `HH:MM:SS`.

use vstd::prelude::*;

use crate::codec::{dec_u64, is_digit, lemma_dec_u64_digits, push_u64_dec};

verus! {

/// The characters with the same code points as the given bytes.
pub open spec fn chars_of(b: Seq<u8>) -> Seq<char> {
    b.map_values(|x: u8| x as char)
}

/// `n` in decimal, left-padded with a zero to at least two digits.
pub open spec fn pad2(n: nat) -> Seq<u8> {
    if n < 10 {
        seq![48u8] + dec_u64(n)
    } else {
        dec_u64(n)
    }
}

/// The bytes of `duration_ms` formatted as zero-padded hours, minutes and
/// seconds separated by colons.
pub open spec fn spec_hms(ms: u64) -> Seq<u8> {
    let total = ms / 1000;
    let h = total / 3600;
    let m = (total % 3600) / 60;
    let s = total % 60;
    pad2(h as nat) + seq![58u8] + pad2(m as nat) + seq![58u8] + pad2(s as nat)
}

/// Relies on `String::from_utf8`: bytes below 128 are ASCII and decode to
/// the string whose characters have exactly those code points, in order.
#[verifier::external_body]
fn ascii_to_string(bytes: Vec<u8>) -> (r: String)
    requires
        forall|k: int| 0 <= k < bytes@.len() ==> bytes@[k] < 128,
    ensures
        r@ == chars_of(bytes@),
{
    String::from_utf8(bytes).unwrap_or_default()
}

fn push_pad2(out: &mut Vec<u8>, n: u64)
    ensures
        final(out)@ == old(out)@ + pad2(n as nat),
{
    if n < 10 {
        out.push(48u8);
    }
    push_u64_dec(out, n);
    proof {
        assert(out@ =~= old(out)@ + pad2(n as nat));
    }
}

proof fn lemma_pad2_ascii(n: nat)
    ensures
        forall|k: int| 0 <= k < pad2(n).len() ==> pad2(n)[k] < 128,
{
    lemma_dec_u64_digits(n);
    assert forall|k: int| 0 <= k < pad2(n).len() implies pad2(n)[k] < 128 by {
        if n < 10 {
            if k == 0 {
                assert(pad2(n)[0] == 48u8);
            } else {
                assert(pad2(n)[k] == dec_u64(n)[k - 1]);
                assert(is_digit(dec_u64(n)[k - 1]));
            }
        } else {
            assert(is_digit(dec_u64(n)[k]));
        }
    }
}

/// Formats durations as hours, minutes and seconds, two digits each.
#[derive(Debug, PartialEq, Eq, Structural)]
pub struct HMSFormatter;

impl Default for HMSFormatter {
    fn default() -> (r: Self)
        ensures
            r == (HMSFormatter {  }),
    {
        HMSFormatter {  }
    }
}

impl HMSFormatter {
    /// `duration_ms` milliseconds as `HH:MM:SS` (whole seconds; hours may
    /// take more than two digits when the duration asks for them).
    pub fn format(&self, duration_ms: u64) -> (r: String)
        ensures
            r@ == chars_of(spec_hms(duration_ms)),
    {
        let total = duration_ms / 1000;
        let h = total / 3600;
        let m = (total % 3600) / 60;
        let s = total % 60;
        let mut out: Vec<u8> = Vec::new();
        push_pad2(&mut out, h);
        out.push(58u8);
        push_pad2(&mut out, m);
        out.push(58u8);
        push_pad2(&mut out, s);
        proof {
            assert(out@ =~= spec_hms(duration_ms));
            lemma_pad2_ascii(h as nat);
            lemma_pad2_ascii(m as nat);
            lemma_pad2_ascii(s as nat);
            assert forall|k: int| 0 <= k < out@.len() implies out@[k] < 128 by {
                let p1 = pad2(h as nat);
                let p2 = pad2(m as nat);
                let p3 = pad2(s as nat);
                if k < p1.len() {
                    assert(out@[k] == p1[k]);
                } else if k == p1.len() {
                    assert(out@[k] == 58u8);
                } else if k < p1.len() + 1 + p2.len() {
                    assert(out@[k] == p2[k - p1.len() - 1]);
                } else if k == p1.len() + 1 + p2.len() {
                    assert(out@[k] == 58u8);
                } else {
                    assert(out@[k] == p3[k - p1.len() - 1 - p2.len() - 1]);
                }
            }
        }
        ascii_to_string(out)
    }
}

} // verus!
