//! Variable-length integer codec.
//!
//! A non-negative integer is encoded into a self-terminating byte sequence:
//! a value below 248 is a single byte holding the value itself; any larger
//! value is a tag byte `247 + n` followed by its `n` big-endian bytes,
//! where `n` is the least number of bytes that can hold the value.
//! Only the canonical (shortest) form decodes successfully, so every value
//! has exactly one byte representation.

use vstd::prelude::*;
use vstd::slice::{slice_index_get, slice_subrange};
use crate::error::Error;

verus! {

/// `256 ^ n`.
pub open spec fn pow256(n: nat) -> nat
    decreases n,
{
    if n == 0 {
        1
    } else {
        256 * pow256((n - 1) as nat)
    }
}

/// The least number of big-endian bytes that can hold `v` (at least one).
pub open spec fn be_len(v: nat) -> nat
    decreases v,
{
    if v < 256 {
        1
    } else {
        1 + be_len(v / 256)
    }
}

/// The `n` low-order base-256 digits of `v`, most significant first.
pub open spec fn be_bytes(v: nat, n: nat) -> Seq<u8>
    decreases n,
{
    if n == 0 {
        Seq::empty()
    } else {
        be_bytes(v / 256, (n - 1) as nat) + seq![(v % 256) as u8]
    }
}

/// The integer whose big-endian base-256 digits are `s`.
pub open spec fn be_val(s: Seq<u8>) -> nat
    decreases s.len(),
{
    if s.len() == 0 {
        0
    } else {
        (be_val(s.drop_last()) * 256 + s.last()) as nat
    }
}

/// The canonical encoding of `v`.
pub open spec fn encoding(v: u64) -> Seq<u8> {
    if v < 248 {
        seq![v as u8]
    } else {
        seq![(247 + be_len(v as nat)) as u8] + be_bytes(v as nat, be_len(v as nat))
    }
}

/// How many bytes the canonical encoding of `v` occupies.
pub open spec fn encoding_len(v: u64) -> nat {
    if v < 248 {
        1
    } else {
        1 + be_len(v as nat)
    }
}

/// The value and consumed byte count of the canonical encoding at the front
/// of `bytes`, or `None` if `bytes` is empty, truncated mid-encoding, or a
/// non-canonical (redundant) form.
pub open spec fn spec_decode(bytes: Seq<u8>) -> Option<(u64, nat)> {
    if bytes.len() == 0 {
        None
    } else if bytes[0] < 248 {
        Some((bytes[0] as u64, 1nat))
    } else {
        let n = (bytes[0] - 247) as nat;
        if bytes.len() < 1 + n {
            None
        } else {
            let v = be_val(bytes.subrange(1, 1 + n as int));
            if v < pow256(8) && encoding_len(v as u64) == 1 + n {
                Some((v as u64, 1 + n))
            } else {
                None
            }
        }
    }
}

/// `pow256` grows with its exponent.
proof fn lemma_pow256_mono(a: nat, b: nat)
    requires
        a <= b,
    ensures
        pow256(a) <= pow256(b),
        pow256(a) >= 1,
    decreases b,
{
    if b == 0 {
    } else if a == b {
        lemma_pow256_mono((a - 1) as nat, (b - 1) as nat);
    } else {
        lemma_pow256_mono(a, (b - 1) as nat);
    }
}

/// A value always fits in `be_len` of it many big-endian bytes.
proof fn lemma_be_len_fits(v: nat)
    ensures
        1 <= be_len(v),
        v < pow256(be_len(v)),
    decreases v,
{
    if v < 256 {
        reveal_with_fuel(pow256, 2);
        assert(pow256(1) == 256);
    } else {
        lemma_be_len_fits(v / 256);
        assert(v < 256 * pow256(be_len(v / 256))) by (nonlinear_arith)
            requires
                v / 256 < pow256(be_len(v / 256)),
                v >= 256,
        {}
        assert(be_len(v) == 1 + be_len(v / 256));
        assert(pow256(be_len(v)) == 256 * pow256(be_len(v / 256)));
    }
}

/// A value below `256 ^ m` needs at most `m` big-endian bytes.
proof fn lemma_be_len_le(v: nat, m: nat)
    requires
        m >= 1,
        v < pow256(m),
    ensures
        be_len(v) <= m,
    decreases m,
{
    if v < 256 {
    } else {
        assert(v / 256 < pow256((m - 1) as nat)) by (nonlinear_arith)
            requires
                v < 256 * pow256((m - 1) as nat),
                v >= 256,
        {}
        lemma_be_len_le(v / 256, (m - 1) as nat);
    }
}

/// `be_bytes` yields exactly the requested number of bytes.
proof fn lemma_be_bytes_len(v: nat, n: nat)
    ensures
        be_bytes(v, n).len() == n,
    decreases n,
{
    if n > 0 {
        lemma_be_bytes_len(v / 256, (n - 1) as nat);
    }
}

/// Reading back the big-endian bytes of `v` yields `v`, provided `v` fits.
proof fn lemma_be_bytes_val(v: nat, n: nat)
    requires
        v < pow256(n),
    ensures
        be_val(be_bytes(v, n)) == v,
    decreases n,
{
    if n == 0 {
    } else {
        assert(v / 256 < pow256((n - 1) as nat) && v == (v / 256) * 256 + (v % 256))
            by (nonlinear_arith)
            requires
                v < 256 * pow256((n - 1) as nat),
        {}
        lemma_be_bytes_val(v / 256, (n - 1) as nat);
        lemma_be_bytes_len(v / 256, (n - 1) as nat);
        let s = be_bytes(v, n);
        assert(s.drop_last() =~= be_bytes(v / 256, (n - 1) as nat));
        assert(s.last() == (v % 256) as u8);
    }
}

/// The encoding is exactly `encoding_len` bytes long.
pub proof fn lemma_encoding_len(v: u64)
    ensures
        encoding(v).len() == encoding_len(v),
        1 <= encoding_len(v) <= 9,
{
    if v >= 248 {
        lemma_be_len_fits(v as nat);
        lemma_be_bytes_len(v as nat, be_len(v as nat));
        reveal_with_fuel(pow256, 9);
        assert(pow256(8) == 0x1_0000_0000_0000_0000);
        lemma_be_len_le(v as nat, 8);
    }
}

/// Round trip: the canonical encoding of `v`, followed by anything, decodes
/// to `v` and consumes exactly the encoding.
pub proof fn lemma_encoding_roundtrip(v: u64, rest: Seq<u8>)
    ensures
        spec_decode(encoding(v) + rest) == Some((v, encoding_len(v))),
{
    let bytes = encoding(v) + rest;
    lemma_encoding_len(v);
    if v < 248 {
        assert(bytes[0] == v as u8);
    } else {
        let k = be_len(v as nat);
        lemma_be_len_fits(v as nat);
        reveal_with_fuel(pow256, 9);
        assert(pow256(8) == 0x1_0000_0000_0000_0000);
        lemma_be_len_le(v as nat, 8);
        lemma_be_bytes_len(v as nat, k);
        assert(bytes[0] == (247 + k) as u8);
        assert(bytes[0] >= 248);
        let n = (bytes[0] - 247) as nat;
        assert(n == k);
        assert(bytes.subrange(1, 1 + n as int) =~= be_bytes(v as nat, k));
        lemma_be_bytes_val(v as nat, k);
        lemma_pow256_mono(k, 8);
    }
}

/// The exact byte count an encoding of `value` will occupy, without
/// performing any write.
pub fn encoding_length(value: u64) -> (r: usize)
    ensures
        r == encoding_len(value),
        1 <= r <= 9,
{
    proof {
        reveal_with_fuel(be_len, 9);
    }
    if value < 248 {
        1
    } else if value < 256 {
        2
    } else if value < 65536 {
        3
    } else if value < 16777216 {
        4
    } else if value < 4294967296 {
        5
    } else if value < 1099511627776 {
        6
    } else if value < 281474976710656 {
        7
    } else if value < 72057594037927936 {
        8
    } else {
        9
    }
}

/// Writes the canonical encoding of `value` into `out` at `pos`, returning
/// how many bytes were written. The caller sizes the room for it with
/// `encoding_length`; bytes outside the written range are untouched.
pub fn encode(value: u64, out: &mut Vec<u8>, pos: usize) -> (n: usize)
    requires
        pos + encoding_len(value) <= old(out)@.len(),
    ensures
        n == encoding_len(value),
        final(out)@.len() == old(out)@.len(),
        final(out)@.subrange(pos as int, pos + n) == encoding(value),
        forall|i: int|
            (0 <= i < pos || pos + n <= i < old(out)@.len()) ==> final(out)@[i] == old(out)@[i],
{
    proof {
        lemma_encoding_len(value);
    }
    if value < 248 {
        out.set(pos, value as u8);
        assert(out@.subrange(pos as int, pos + 1) =~= encoding(value));
        1
    } else {
        let len = encoding_length(value);
        let k = len - 1;
        let cap = out.len();
        let ghost base = out@;
        out.set(pos, (247 + k as u64) as u8);
        let mut x = value;
        let mut idx = k;
        proof {
            assert(be_bytes(x as nat, idx as nat) + out@.subrange(
                pos + idx + 1,
                pos + k + 1,
            ) =~= be_bytes(value as nat, k as nat));
        }
        while idx > 0
            invariant
                idx <= k,
                k == be_len(value as nat),
                1 <= k <= 8,
                pos + k + 1 <= cap,
                out@.len() == base.len(),
                base.len() == cap,
                out@[pos as int] == (247 + k) as u8,
                be_bytes(value as nat, k as nat) == be_bytes(x as nat, idx as nat)
                    + out@.subrange(pos + idx + 1, pos + k + 1),
                forall|i: int|
                    (0 <= i < pos || pos + k + 1 <= i < base.len()) ==> out@[i] == base[i],
            decreases idx,
        {
            let ghost before = out@;
            out.set(pos + idx, (x % 256) as u8);
            proof {
                lemma_be_bytes_len(x as nat / 256, (idx - 1) as nat);
                assert(out@.subrange(pos + idx, pos + k + 1) =~= seq![(x % 256) as u8]
                    + before.subrange(pos + idx + 1, pos + k + 1));
                assert(be_bytes(x as nat, idx as nat) == be_bytes(x as nat / 256, (idx - 1) as nat)
                    + seq![(x as nat % 256) as u8]);
                assert(be_bytes((x / 256) as nat, (idx - 1) as nat) + out@.subrange(
                    pos + idx,
                    pos + k + 1,
                ) =~= be_bytes(x as nat, idx as nat) + before.subrange(pos + idx + 1, pos + k + 1));
            }
            x = x / 256;
            idx = idx - 1;
        }
        proof {
            assert(be_bytes(x as nat, 0) + out@.subrange(pos + 1, pos + k + 1) =~= out@.subrange(
                pos + 1,
                pos + k + 1,
            ));
            lemma_be_bytes_len(value as nat, k as nat);
            assert(out@.subrange(pos as int, pos + 1 + k) =~= seq![(247 + k) as u8] + be_bytes(
                value as nat,
                k as nat,
            ));
        }
        len
    }
}

/// Parses the smallest valid prefix of `bytes` as a canonically encoded
/// integer, returning the decoded value and the unconsumed suffix.
pub fn decode(bytes: &[u8]) -> (r: Result<(u64, &[u8]), Error>)
    ensures
        match spec_decode(bytes@) {
            Some((v, n)) => r matches Ok(p) && p.0 == v && p.1@ == bytes@.skip(n as int),
            None => r == Err::<(u64, &[u8]), Error>(Error::DecodeVaru64Error),
        },
{
    let len = bytes.len();
    if len == 0 {
        return Err(Error::DecodeVaru64Error);
    }
    let first = *slice_index_get(bytes, 0);
    if first < 248 {
        let rest = slice_subrange(bytes, 1, len);
        assert(rest@ =~= bytes@.skip(1));
        return Ok((first as u64, rest));
    }
    let n = (first - 247) as usize;
    if len < 1 + n {
        return Err(Error::DecodeVaru64Error);
    }
    let mut v: u64 = 0;
    let mut i: usize = 0;
    proof {
        reveal_with_fuel(pow256, 9);
        assert(pow256(8) == 0x1_0000_0000_0000_0000);
        assert(bytes@.subrange(1, 1) =~= Seq::<u8>::empty());
    }
    while i < n
        invariant
            i <= n,
            1 <= n <= 8,
            1 + n <= bytes@.len(),
            v as nat == be_val(bytes@.subrange(1, 1 + i as int)),
            (v as nat) < pow256(i as nat),
            pow256(8) == 0x1_0000_0000_0000_0000,
        decreases n - i,
    {
        let b = *slice_index_get(bytes, 1 + i);
        proof {
            lemma_pow256_mono(i as nat, 7);
            let s = bytes@.subrange(1, 1 + (i + 1) as int);
            assert(s.drop_last() =~= bytes@.subrange(1, 1 + i as int));
            assert(s.last() == bytes@[1 + i as int]);
        }
        v = v * 256 + (b as u64);
        i = i + 1;
    }
    if encoding_length(v) == 1 + n {
        let rest = slice_subrange(bytes, 1 + n, len);
        assert(rest@ =~= bytes@.skip(1 + n as int));
        Ok((v, rest))
    } else {
        Err(Error::DecodeVaru64Error)
    }
}

} // verus!
