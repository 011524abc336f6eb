//! Base-128 variable-length integers, the scalar building block of the
//! metadata messages.
//!
//! A varint is a run of bytes whose low seven bits carry the value, least
//! significant group first; every byte but the last has its high bit set. At
//! most ten bytes encode one 64-bit value, and a tenth byte above 1 would
//! overflow 64 bits and is rejected.

use vstd::prelude::*;

verus! {

use crate::Error;

/// Parses the varint that starts `count` groups into an encoding, at byte
/// position `pos` of `s`. Yields the decoded value and the number of bytes
/// consumed from `pos` on, or `None` if the bytes are not a valid varint.
pub open spec fn parse_varint_from(s: Seq<u8>, pos: int, count: nat) -> Option<(nat, nat)>
    decreases 10 - count,
{
    if count >= 10 || pos < 0 || pos >= s.len() {
        None
    } else {
        let b = s[pos];
        if b < 0x80 {
            if count == 9 && b >= 2 {
                None
            } else {
                Some((b as nat, 1))
            }
        } else {
            match parse_varint_from(s, pos + 1, (count + 1) as nat) {
                None => None,
                Some((v, n)) => Some((((b - 0x80) + 128 * v) as nat, (n + 1) as nat)),
            }
        }
    }
}

/// The varint at byte position `pos` of `s`: its value and byte length.
pub open spec fn parse_varint(s: Seq<u8>, pos: int) -> Option<(nat, nat)> {
    parse_varint_from(s, pos, 0)
}

/// A parsed varint consumes between one and ten bytes, stays inside `s`, and
/// its value fits 64 bits.
pub proof fn lemma_parse_varint_bounds(s: Seq<u8>, pos: int, count: nat)
    requires
        parse_varint_from(s, pos, count) is Some,
    ensures
        ({
            let (v, n) = parse_varint_from(s, pos, count)->Some_0;
            &&& 1 <= n <= 10 - count
            &&& pos + n <= s.len()
            &&& v < varint_bound(10 - count)
        }),
    decreases 10 - count,
{
    lemma_varint_bound_pos(9 - count);
    let b = s[pos];
    if b >= 0x80 {
        lemma_parse_varint_bounds(s, pos + 1, (count + 1) as nat);
    }
}

/// The group bound is positive.
pub proof fn lemma_varint_bound_pos(n: int)
    ensures
        varint_bound(n) >= 1,
    decreases n,
{
    if n > 1 {
        lemma_varint_bound_pos(n - 1);
    }
}

/// Largest value expressible in `n` more groups: the final group is capped
/// at 1, every earlier one carries seven bits.
pub open spec fn varint_bound(n: int) -> nat
    decreases n,
{
    if n <= 0 {
        1
    } else if n == 1 {
        2
    } else {
        128 * varint_bound(n - 1)
    }
}

/// Relies on `prost::encoding::decode_varint`: it decodes the base-128
/// varint at the head of the buffer, consuming at most ten bytes, and
/// rejects a missing terminator byte as well as a tenth byte above 1.
#[verifier::external_body]
pub(crate) fn decode_varint_at(buf: &Vec<u8>, pos: usize) -> (r: Result<(u64, usize), Error>)
    requires
        pos <= buf@.len(),
    ensures
        match r {
            Ok(p) => parse_varint(buf@, pos as int) == Some((p.0 as nat, p.1 as nat)),
            Err(e) => e == Error::MetadataDecode && parse_varint(buf@, pos as int) is None,
        },
{
    let mut rest: &[u8] = &buf[pos..];
    let before = rest.len();
    match prost::encoding::decode_varint(&mut rest) {
        Ok(v) => Ok((v, before - rest.len())),
        Err(_) => Err(Error::MetadataDecode),
    }
}

} // verus!
