//! The tagged hash value and its codec.
//!
//! On the wire a value is `<algorithm id: varu64><digest length: varu64>`
//! followed by the raw digest bytes. The one recognized algorithm id is
//! `0` (BLAKE3) with a fixed 32-byte digest, so a full encoding is 34
//! bytes; the redundant length field keeps the format open to future
//! variable-length algorithms.

use vstd::prelude::*;
use vstd::slice::{slice_index_get, slice_subrange, slice_to_vec};
use vstd::std_specs::cmp::PartialEqSpec;
use crate::digest::{blake3_digest, blake3_hash_bytes};
use crate::error::Error;
use crate::sink::Sink;
use crate::varu64;

verus! {

/// The byte length of a BLAKE3 digest.
pub const BLAKE3_HASH_SIZE: usize = 32;

/// The wire tag of the BLAKE3 variant.
pub const BLAKE3_NUMERIC_ID: u64 = 0;

/// The most bytes an encoded value occupies: one byte each for the
/// algorithm id and the digest length, then the digest itself.
pub const MAX_YAMF_HASH_SIZE: usize = BLAKE3_HASH_SIZE + 2;

/// A container of digest bytes: either an owned buffer or a borrowed view,
/// both seen as the byte sequence they hold.
pub trait DigestBuf: View<V = Seq<u8>> {
    /// The digest bytes themselves.
    fn as_bytes(&self) -> (r: &[u8])
        ensures
            r@ == self@,
    ;
}

impl DigestBuf for Vec<u8> {
    fn as_bytes(&self) -> (r: &[u8]) {
        self.as_slice()
    }
}

impl<'a> DigestBuf for &'a [u8] {
    fn as_bytes(&self) -> (r: &[u8]) {
        *self
    }
}

/// A self-describing hash value: a digest tagged with the algorithm that
/// produced it. The container `T` is either owned or borrowed; the meaning
/// of the value is the digest bytes alone.
#[derive(Debug)]
pub enum YamfHash<T: DigestBuf> {
    /// A BLAKE3 digest.
    Blake3(T),
}

/// The encoding of a value whose digest bytes are `digest`: the varu64
/// encodings of the algorithm id and the digest length, then the digest.
pub open spec fn spec_encoding(digest: Seq<u8>) -> Seq<u8> {
    varu64::encoding(BLAKE3_NUMERIC_ID) + varu64::encoding(BLAKE3_HASH_SIZE as u64) + digest
}

/// What decoding a byte sequence yields: the digest bytes and the
/// unconsumed suffix, or the error the input deserves. The digest length
/// field is consumed but not interpreted: the one recognized algorithm
/// fixes the digest length, and its length field always encodes as the
/// single byte 32.
pub open spec fn spec_decode_yamf(bytes: Seq<u8>) -> Result<(Seq<u8>, Seq<u8>), Error> {
    match varu64::spec_decode(bytes) {
        None => Err(Error::DecodeVaru64Error),
        Some((id, n)) => {
            if id != BLAKE3_NUMERIC_ID {
                Err(Error::DecodeUnsupportedAlgorithm)
            } else if bytes.len() < n + 1 + BLAKE3_HASH_SIZE {
                Err(Error::DecodeError)
            } else {
                Ok(
                    (
                        bytes.subrange(n + 1 as int, n + 1 + BLAKE3_HASH_SIZE as int),
                        bytes.skip(n + 1 + BLAKE3_HASH_SIZE as int),
                    ),
                )
            }
        },
    }
}

/// Computes the BLAKE3 digest of `bytes` and wraps it as an owned value.
pub fn new_blake3(bytes: &[u8]) -> (r: YamfHash<Vec<u8>>)
    ensures
        r.digest() == blake3_digest(bytes@),
        r.wf(),
{
    let digest = blake3_hash_bytes(bytes);
    YamfHash::Blake3(digest)
}

impl<T: DigestBuf> YamfHash<T> {
    /// The digest bytes this value carries.
    pub open spec fn digest(self) -> Seq<u8> {
        match self {
            YamfHash::Blake3(d) => d@,
        }
    }

    /// The digest has the length its algorithm dictates.
    pub open spec fn wf(self) -> bool {
        self.digest().len() == BLAKE3_HASH_SIZE
    }

    /// The bytes `encode` writes for this value.
    pub open spec fn encoding(self) -> Seq<u8> {
        spec_encoding(self.digest())
    }

    /// The id and length fields of the encoding: what the streaming encode
    /// hands to the sink first, before the digest bytes.
    pub open spec fn encoding_header(self) -> Seq<u8> {
        varu64::encoding(BLAKE3_NUMERIC_ID) + varu64::encoding(BLAKE3_HASH_SIZE as u64)
    }

    /// How many bytes `encode` writes.
    pub open spec fn spec_encoding_length(self) -> nat {
        (varu64::encoding_len(BLAKE3_NUMERIC_ID) + varu64::encoding_len(BLAKE3_HASH_SIZE as u64)
            + BLAKE3_HASH_SIZE) as nat
    }

    /// The exact number of bytes an encoding of this value occupies,
    /// computed without writing anything.
    pub fn encoding_length(&self) -> (r: usize)
        ensures
            r == self.spec_encoding_length(),
            self.wf() ==> r == self.encoding().len(),
    {
        match self {
            YamfHash::Blake3(_) => varu64::encoding_length(BLAKE3_NUMERIC_ID)
                + varu64::encoding_length(BLAKE3_HASH_SIZE as u64) + BLAKE3_HASH_SIZE,
        }
    }

    /// Writes the encoding into the front of `out`, returning how many
    /// bytes were written. If `out` is shorter than the encoding needs,
    /// nothing is written and the size error is returned.
    pub fn encode(&self, out: &mut Vec<u8>) -> (r: Result<usize, Error>)
        requires
            self.wf(),
        ensures
            old(out)@.len() < self.spec_encoding_length() ==> r == Err::<usize, Error>(
                Error::EncodeError,
            ) && final(out)@ == old(out)@,
            old(out)@.len() >= self.spec_encoding_length() ==> {
                &&& r == Ok::<usize, Error>(MAX_YAMF_HASH_SIZE)
                &&& final(out)@ == self.encoding() + old(out)@.skip(
                    self.spec_encoding_length() as int,
                )
            },
    {
        let encoded_size = self.encoding_length();
        if out.len() < encoded_size {
            return Err(Error::EncodeError);
        }
        let ghost orig = out@;
        varu64::encode(BLAKE3_NUMERIC_ID, out, 0);
        varu64::encode(BLAKE3_HASH_SIZE as u64, out, 1);
        let d = match self {
            YamfHash::Blake3(b) => b.as_bytes(),
        };
        let mut i: usize = 0;
        while i < BLAKE3_HASH_SIZE
            invariant
                i <= BLAKE3_HASH_SIZE,
                d@ == self.digest(),
                d@.len() == BLAKE3_HASH_SIZE,
                out@.len() == orig.len(),
                orig.len() >= MAX_YAMF_HASH_SIZE,
                out@.subrange(0, 1) == varu64::encoding(BLAKE3_NUMERIC_ID),
                out@.subrange(1, 2) == varu64::encoding(BLAKE3_HASH_SIZE as u64),
                forall|j: int| 0 <= j < i ==> out@[2 + j] == d@[j],
                forall|j: int|
                    MAX_YAMF_HASH_SIZE <= j < orig.len() ==> out@[j] == orig[j],
            decreases BLAKE3_HASH_SIZE - i,
        {
            let ghost before = out@;
            out.set(2 + i, *slice_index_get(d, i));
            proof {
                assert(out@.subrange(0, 1) =~= before.subrange(0, 1));
                assert(out@.subrange(1, 2) =~= before.subrange(1, 2));
            }
            i = i + 1;
        }
        proof {
            assert(out@ =~= self.encoding() + orig.skip(self.spec_encoding_length() as int));
        }
        Ok(encoded_size)
    }

    /// Writes the encoding to `w` as two writes, the id and length fields
    /// first and the digest bytes second. The operation succeeds exactly
    /// when the sink accepts both writes; the first rejected write aborts
    /// it with the stream-write error, attempting nothing further, and
    /// writes the sink already accepted are not rolled back.
    pub fn encode_write<W: Sink>(&self, w: &mut W) -> (r: Result<(), Error>)
        ensures
            r is Ok <==> old(w).accepts(self.encoding_header()) && old(w).accepts(self.encoding()),
            r is Ok ==> final(w).sunk() == old(w).sunk() + self.encoding(),
            r is Err ==> r == Err::<(), Error>(Error::EncodeWriteError),
            !old(w).accepts(self.encoding_header()) ==> final(w).sunk() == old(w).sunk(),
            old(w).accepts(self.encoding_header()) && !old(w).accepts(self.encoding())
                ==> final(w).sunk() == old(w).sunk() + self.encoding_header(),
    {
        let mut header: Vec<u8> = Vec::new();
        header.push(0);
        header.push(0);
        varu64::encode(BLAKE3_NUMERIC_ID, &mut header, 0);
        varu64::encode(BLAKE3_HASH_SIZE as u64, &mut header, 1);
        proof {
            assert(header@ =~= self.encoding_header());
        }
        let d = match self {
            YamfHash::Blake3(b) => b.as_bytes(),
        };
        proof {
            assert(header@ + d@ =~= self.encoding());
        }
        match w.write_all(header.as_slice()) {
            Ok(_) => {},
            Err(_) => {
                return Err(Error::EncodeWriteError);
            },
        }
        match w.write_all(d) {
            Ok(_) => {},
            Err(_) => {
                return Err(Error::EncodeWriteError);
            },
        }
        proof {
            assert(old(w).sunk() + header@ + d@ =~= old(w).sunk() + self.encoding());
        }
        Ok(())
    }

    /// Parses the front of `bytes` as a tagged hash value, slicing the
    /// digest out of the input without copying, and returns it with the
    /// unconsumed suffix.
    pub fn decode<'a>(bytes: &'a [u8]) -> (r: Result<(YamfHash<&'a [u8]>, &'a [u8]), Error>)
        ensures
            match spec_decode_yamf(bytes@) {
                Ok(p) => {
                    &&& r matches Ok(q)
                    &&& q.0.digest() == p.0
                    &&& q.0.wf()
                    &&& q.1@ == p.1
                },
                Err(e) => r == Err::<(YamfHash<&'a [u8]>, &'a [u8]), Error>(e),
            },
    {
        match varu64::decode(bytes) {
            Err(e) => Err(e),
            Ok((id, rest)) => {
                if id != BLAKE3_NUMERIC_ID {
                    Err(Error::DecodeUnsupportedAlgorithm)
                } else if rest.len() < 1 + BLAKE3_HASH_SIZE {
                    Err(Error::DecodeError)
                } else {
                    let ghost n = varu64::spec_decode(bytes@)->Some_0.1;
                    let digest = slice_subrange(rest, 1, 1 + BLAKE3_HASH_SIZE);
                    let remaining = slice_subrange(rest, 1 + BLAKE3_HASH_SIZE, rest.len());
                    proof {
                        assert(digest@ =~= bytes@.subrange(
                            n + 1 as int,
                            n + 1 + BLAKE3_HASH_SIZE as int,
                        ));
                        assert(remaining@ =~= bytes@.skip(n + 1 + BLAKE3_HASH_SIZE as int));
                    }
                    Ok((YamfHash::Blake3(digest), remaining))
                }
            },
        }
    }

    /// Parses exactly as `decode` does, but copies the digest into an
    /// owned value with no dependency on the input buffer.
    pub fn decode_owned<'a>(bytes: &'a [u8]) -> (r: Result<
        (YamfHash<Vec<u8>>, &'a [u8]),
        Error,
    >)
        ensures
            match spec_decode_yamf(bytes@) {
                Ok(p) => {
                    &&& r matches Ok(q)
                    &&& q.0.digest() == p.0
                    &&& q.0.wf()
                    &&& q.1@ == p.1
                },
                Err(e) => r == Err::<(YamfHash<Vec<u8>>, &'a [u8]), Error>(e),
            },
    {
        match varu64::decode(bytes) {
            Err(e) => Err(e),
            Ok((id, rest)) => {
                if id != BLAKE3_NUMERIC_ID {
                    Err(Error::DecodeUnsupportedAlgorithm)
                } else if rest.len() < 1 + BLAKE3_HASH_SIZE {
                    Err(Error::DecodeError)
                } else {
                    let ghost n = varu64::spec_decode(bytes@)->Some_0.1;
                    let digest = slice_to_vec(slice_subrange(rest, 1, 1 + BLAKE3_HASH_SIZE));
                    let remaining = slice_subrange(rest, 1 + BLAKE3_HASH_SIZE, rest.len());
                    proof {
                        assert(digest@ =~= bytes@.subrange(
                            n + 1 as int,
                            n + 1 + BLAKE3_HASH_SIZE as int,
                        ));
                        assert(remaining@ =~= bytes@.skip(n + 1 + BLAKE3_HASH_SIZE as int));
                    }
                    Ok((YamfHash::Blake3(digest), remaining))
                }
            },
        }
    }
}

/// Byte-for-byte equality of two slices.
fn bytes_eq(a: &[u8], b: &[u8]) -> (r: bool)
    ensures
        r <==> a@ == b@,
{
    if a.len() != b.len() {
        return false;
    }
    let mut i: usize = 0;
    while i < a.len()
        invariant
            i <= a@.len(),
            a@.len() == b@.len(),
            forall|j: int| 0 <= j < i ==> a@[j] == b@[j],
        decreases a@.len() - i,
    {
        if *slice_index_get(a, i) != *slice_index_get(b, i) {
            return false;
        }
        i = i + 1;
    }
    proof {
        assert(a@ =~= b@);
    }
    true
}

impl<B1: DigestBuf, B2: DigestBuf> PartialEq<YamfHash<B2>> for YamfHash<B1> {
    /// Two values are equal iff they carry the same algorithm and
    /// bit-identical digest bytes, whatever their containers are.
    fn eq(&self, other: &YamfHash<B2>) -> (r: bool) {
        match (self, other) {
            (YamfHash::Blake3(a), YamfHash::Blake3(b)) => bytes_eq(a.as_bytes(), b.as_bytes()),
        }
    }
}

impl<B1: DigestBuf, B2: DigestBuf> vstd::std_specs::cmp::PartialEqSpecImpl<YamfHash<B2>> for YamfHash<B1> {
    open spec fn obeys_eq_spec() -> bool {
        true
    }

    open spec fn eq_spec(&self, other: &YamfHash<B2>) -> bool {
        self.digest() == other.digest()
    }
}

impl<'a> From<&'a YamfHash<Vec<u8>>> for YamfHash<&'a [u8]> {
    /// A borrowed view of an owned value, carrying the same digest.
    fn from(h: &'a YamfHash<Vec<u8>>) -> (r: YamfHash<&'a [u8]>)
        ensures
            r.digest() == h.digest(),
    {
        match h {
            YamfHash::Blake3(v) => YamfHash::Blake3(v.as_slice()),
        }
    }
}

impl<'a> vstd::std_specs::convert::FromSpecImpl<&'a YamfHash<Vec<u8>>> for YamfHash<&'a [u8]> {
    open spec fn obeys_from_spec() -> bool {
        false
    }

    open spec fn from_spec(h: &'a YamfHash<Vec<u8>>) -> Self {
        arbitrary()
    }
}

/// Round trip: the encoding of any 32-byte digest, followed by any trailing
/// bytes, decodes back to exactly that digest and hands back exactly the
/// trailing bytes.
pub proof fn lemma_round_trip(digest: Seq<u8>, rest: Seq<u8>)
    requires
        digest.len() == BLAKE3_HASH_SIZE,
    ensures
        spec_decode_yamf(spec_encoding(digest) + rest) == Ok::<(Seq<u8>, Seq<u8>), Error>(
            (digest, rest),
        ),
{
    let bytes = spec_encoding(digest) + rest;
    let tail = varu64::encoding(BLAKE3_HASH_SIZE as u64) + digest + rest;
    assert(bytes =~= varu64::encoding(BLAKE3_NUMERIC_ID) + tail);
    varu64::lemma_encoding_roundtrip(BLAKE3_NUMERIC_ID, tail);
    assert(varu64::spec_decode(bytes) == Some((BLAKE3_NUMERIC_ID, 1nat)));
    assert(bytes.subrange(2, 2 + BLAKE3_HASH_SIZE) =~= digest);
    assert(bytes.skip(2 + BLAKE3_HASH_SIZE) =~= rest);
}

/// Length agreement: the encoding of any 32-byte digest occupies exactly
/// the advertised encoding length.
pub proof fn lemma_length_agreement(digest: Seq<u8>)
    requires
        digest.len() == BLAKE3_HASH_SIZE,
    ensures
        spec_encoding(digest).len() == MAX_YAMF_HASH_SIZE,
{
}

/// Equality of tagged hash values is structural over the digest bytes and
/// symmetric, whatever the two representations are.
pub proof fn lemma_eq_representation_independent<B1: DigestBuf, B2: DigestBuf>(
    a: YamfHash<B1>,
    b: YamfHash<B2>,
)
    ensures
        a.eq_spec(&b) <==> a.digest() == b.digest(),
        a.eq_spec(&b) <==> b.eq_spec(&a),
{
}

/// Representation independence: a borrowed decode and an owned decode of
/// the encoding of a well-formed value, with any trailing bytes, are equal
/// to each other and to that value.
pub proof fn lemma_decode_representation_independent<
    B1: DigestBuf,
    B2: DigestBuf,
    B3: DigestBuf,
>(borrowed: YamfHash<B1>, owned: YamfHash<B2>, source: YamfHash<B3>, rest: Seq<u8>)
    requires
        source.wf(),
        borrowed.digest() == spec_decode_yamf(source.encoding() + rest)->Ok_0.0,
        owned.digest() == spec_decode_yamf(source.encoding() + rest)->Ok_0.0,
    ensures
        borrowed.eq_spec(&owned),
        owned.eq_spec(&borrowed),
        borrowed.eq_spec(&source),
        owned.eq_spec(&source),
        source.eq_spec(&borrowed),
        source.eq_spec(&owned),
{
    lemma_round_trip(source.digest(), rest);
}

/// Determinism: any two values carrying the digest computed over the same
/// input bytes are equal, whatever their representations are.
pub proof fn lemma_compute_deterministic<B1: DigestBuf, B2: DigestBuf>(
    a: YamfHash<B1>,
    b: YamfHash<B2>,
    input: Seq<u8>,
)
    requires
        a.digest() == blake3_digest(input),
        b.digest() == blake3_digest(input),
    ensures
        a.eq_spec(&b),
        b.eq_spec(&a),
{
}

} // verus!
