//! Raw audio: 16-bit little-endian samples.

use vstd::prelude::*;

verus! {

/// The sample whose low and high bytes are given, in two's complement.
pub open spec fn sample_of(low: u8, high: u8) -> int {
    let n = low + 256 * high;
    if n < 0x8000 {
        n
    } else {
        n - 0x1_0000
    }
}

/// The samples of a payload. A last byte without a partner is no sample.
pub open spec fn pcm_samples(payload: Seq<u8>) -> Seq<i16> {
    Seq::new(
        payload.len() / 2,
        |i: int| sample_of(payload[2 * i], payload[2 * i + 1]) as i16,
    )
}

/// Decodes a payload.
pub fn decode_pcm(payload: &[u8]) -> (samples: Vec<i16>)
    ensures
        samples@ == pcm_samples(payload@),
{
    let mut samples: Vec<i16> = Vec::new();
    for i in 0..payload.len() / 2
        invariant
            samples@ == pcm_samples(payload@).take(i as int),
    {
        let n: i32 = payload[2 * i] as i32 + 256 * payload[2 * i + 1] as i32;
        let sample: i16 = if n < 0x8000 {
            n as i16
        } else {
            (n - 0x1_0000) as i16
        };
        samples.push(sample);
        assert(sample == pcm_samples(payload@)[i as int]);
        assert(samples@ =~= pcm_samples(payload@).take(i + 1));
    }
    assert(samples@ =~= pcm_samples(payload@));
    samples
}

/// A sample's value is the one that its two bytes encode: writing it back in
/// little-endian order gives the same bytes.
pub proof fn law_sample_bytes(low: u8, high: u8)
    ensures
        -0x8000 <= sample_of(low, high) < 0x8000,
        sample_of(low, high) % 256 == low,
        (sample_of(low, high) / 256) % 256 == high,
{
}

/// Audio that is cut between two samples decodes piece by piece.
pub proof fn law_pcm_of_pieces(first: Seq<u8>, second: Seq<u8>)
    requires
        first.len() % 2 == 0,
    ensures
        pcm_samples(first + second) == pcm_samples(first) + pcm_samples(second),
{
    assert(pcm_samples(first + second) =~= pcm_samples(first) + pcm_samples(second));
}

/// There is one sample for every two bytes, each at its place: the low byte comes
/// first, and the high byte carries the sign.
pub proof fn law_samples_in_order(payload: Seq<u8>)
    ensures
        pcm_samples(payload).len() == payload.len() / 2,
        forall|i: int|
            0 <= i < payload.len() / 2 ==> #[trigger] pcm_samples(payload)[i] == payload[2 * i] + 256
                * (if payload[2 * i + 1] < 128 {
                payload[2 * i + 1] as int
            } else {
                payload[2 * i + 1] - 256
            }),
{
}

} // verus!
