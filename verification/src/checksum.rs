//! The checksum of uploaded bytes: CRC-32 with the IEEE polynomial, as the `crc` crate computes it.
use crc::crc32::Hasher32;
use vstd::prelude::*;

verus! {

/// A remainder after one more bit: shifted down, and reduced by the IEEE polynomial where a one
/// drops out.
pub open spec fn crc32_bit(v: u32) -> u32 {
    if v & 1 == 1 {
        (v >> 1) ^ 0xedb8_8320
    } else {
        v >> 1
    }
}

/// A remainder after eight more bits.
pub open spec fn crc32_bits(v: u32) -> u32 {
    crc32_bit(crc32_bit(crc32_bit(crc32_bit(crc32_bit(crc32_bit(crc32_bit(crc32_bit(v))))))))
}

/// The checksum of bytes that are put behind others whose checksum is `sum`. A checksum is the
/// complement of a remainder.
pub open spec fn crc32_extended(sum: u32, data: Seq<u8>) -> u32
    decreases data.len(),
{
    if data.len() == 0 {
        sum
    } else {
        !crc32_bits(!crc32_extended(sum, data.drop_last()) ^ (data.last() as u32))
    }
}

/// The IEEE CRC-32 of a sequence of bytes.
pub open spec fn crc32_ieee(data: Seq<u8>) -> u32 {
    crc32_extended(0, data)
}

/// Calls `crc::crc32::Digest::new` with the IEEE polynomial and reads `sum32`. Trusted to be the
/// checksum of no bytes, which is zero.
#[verifier::external_body]
pub(crate) fn empty_checksum() -> (sum: u32)
    ensures
        sum == crc32_ieee(Seq::empty()),
{
    crc::crc32::Digest::new(crc::crc32::IEEE).sum32()
}

/// Takes up a digest at the checksum `sum` (`crc::crc32::Digest::new_with_initial`, with the IEEE
/// polynomial), writes `data` to it and reads `sum32`. Trusted to give the checksum of `data` put
/// behind bytes whose checksum is `sum`.
#[verifier::external_body]
pub(crate) fn extend_checksum(sum: u32, data: &[u8]) -> (r: u32)
    ensures
        r == crc32_extended(sum, data@),
{
    let mut digest = crc::crc32::Digest::new_with_initial(crc::crc32::IEEE, sum);
    digest.write(data);
    digest.sum32()
}

/// The checksum of bytes in two parts goes on from the checksum of the first.
pub proof fn lemma_crc32_concat(sum: u32, a: Seq<u8>, b: Seq<u8>)
    ensures
        crc32_extended(sum, a + b) == crc32_extended(crc32_extended(sum, a), b),
    decreases b.len(),
{
    if b.len() == 0 {
        assert(a + b == a);
    } else {
        assert((a + b).drop_last() == a + b.drop_last());
        assert((a + b).last() == b.last());
        lemma_crc32_concat(sum, a, b.drop_last());
    }
}

/// A running checksum of the bytes that were written to it.
pub struct Digest {
    sum: u32,
    written: Ghost<Seq<u8>>,
}

impl View for Digest {
    type V = Seq<u8>;

    /// The bytes that were written.
    closed spec fn view(&self) -> Seq<u8> {
        self.written@
    }
}

impl Digest {
    #[verifier::type_invariant]
    closed spec fn wf(self) -> bool {
        self.sum == crc32_ieee(self.written@)
    }

    /// A digest to which nothing was written.
    pub fn new() -> (digest: Digest)
        ensures
            digest@ == Seq::<u8>::empty(),
    {
        Digest { sum: empty_checksum(), written: Ghost(Seq::empty()) }
    }

    /// The digest after `data` is written too.
    pub fn write(self, data: &[u8]) -> (digest: Digest)
        ensures
            digest@ == self@ + data@,
    {
        proof {
            use_type_invariant(&self);
            lemma_crc32_concat(0, self.written@, data@);
        }
        let ghost written = self.written@ + data@;
        Digest { sum: extend_checksum(self.sum, data), written: Ghost(written) }
    }

    /// The checksum of all that was written.
    pub fn sum32(&self) -> (sum: u32)
        ensures
            sum == crc32_ieee(self@),
    {
        proof {
            use_type_invariant(self);
        }
        self.sum
    }
}

} // verus!
