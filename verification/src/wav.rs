//! A WAV file of 16-bit PCM mono audio: a 44-byte header followed by the
//! samples, each as two little-endian bytes.
use vstd::prelude::*;
use vstd::bytes::{
    spec_u16_to_le_bytes, spec_u32_to_le_bytes, spec_u16_from_le_bytes, spec_u32_from_le_bytes,
    u16_to_le_bytes, u32_to_le_bytes, lemma_auto_spec_u16_to_from_le_bytes,
    lemma_auto_spec_u32_to_from_le_bytes,
};

verus! {

/// The length of the header that precedes the samples.
pub const WAV_HEADER_LEN: usize = 44;

/// Bytes per sample: 16-bit PCM.
pub const BYTES_PER_SAMPLE: u16 = 2;

/// Channels: mono.
pub const NUM_CHANNELS: u16 = 1;

/// The format code of integer PCM.
pub const PCM_FORMAT: u16 = 1;

/// The length of the `fmt ` chunk's body.
pub const FMT_CHUNK_LEN: u32 = 16;

/// The four ASCII bytes of `tag`.
pub open spec fn tag_bytes(a: u8, b: u8, c: u8, d: u8) -> Seq<u8> {
    seq![a, b, c, d]
}

/// The size of the data chunk: two bytes per sample.
pub open spec fn data_size(num_samples: u32) -> int {
    num_samples * 2
}

/// The 44-byte header of a WAV file that holds `num_samples` 16-bit mono
/// samples at `sample_rate` samples per second.
pub open spec fn wav_header(num_samples: u32, sample_rate: u32) -> Seq<u8> {
    // "RIFF", the size of what follows, "WAVE"
    tag_bytes(0x52, 0x49, 0x46, 0x46) + spec_u32_to_le_bytes((36 + data_size(num_samples)) as u32)
        + tag_bytes(0x57, 0x41, 0x56, 0x45)
    // "fmt ": PCM, one channel, the rate, bytes per second, bytes per frame, bits per sample
     + tag_bytes(0x66, 0x6d, 0x74, 0x20) + spec_u32_to_le_bytes(16) + spec_u16_to_le_bytes(1)
        + spec_u16_to_le_bytes(1) + spec_u32_to_le_bytes(sample_rate) + spec_u32_to_le_bytes(
        (sample_rate * 2) as u32,
    ) + spec_u16_to_le_bytes(2) + spec_u16_to_le_bytes(16)
    // "data" and its size
     + tag_bytes(0x64, 0x61, 0x74, 0x61) + spec_u32_to_le_bytes(data_size(num_samples) as u32)
}

/// The samples as 16-bit little-endian bytes, in order.
pub open spec fn pcm16_bytes(samples: Seq<i16>) -> Seq<u8>
    decreases samples.len(),
{
    if samples.len() == 0 {
        Seq::empty()
    } else {
        pcm16_bytes(samples.drop_last()) + spec_u16_to_le_bytes(samples.last() as u16)
    }
}

/// A complete WAV file: the header for the number of samples (a `usize`
/// cast to `u32`) and then the samples.
pub open spec fn wav_file(samples: Seq<i16>, sample_rate: u32) -> Seq<u8> {
    wav_header((samples.len() as usize) as u32, sample_rate) + pcm16_bytes(samples)
}

/// The header's sizes and the byte rate fit their `u32` fields.
pub open spec fn wav_fits(samples: Seq<i16>, sample_rate: u32) -> bool {
    &&& 36 + data_size((samples.len() as usize) as u32) <= u32::MAX
    &&& sample_rate * 2 <= u32::MAX
}

proof fn lemma_pcm16_len(samples: Seq<i16>)
    ensures
        pcm16_bytes(samples).len() == 2 * samples.len(),
    decreases samples.len(),
{
    lemma_auto_spec_u16_to_from_le_bytes();
    if samples.len() > 0 {
        lemma_pcm16_len(samples.drop_last());
    }
}

fn append_tag(out: &mut Vec<u8>, a: u8, b: u8, c: u8, d: u8)
    ensures
        final(out)@ == old(out)@ + tag_bytes(a, b, c, d),
{
    out.push(a);
    out.push(b);
    out.push(c);
    out.push(d);
    assert(final(out)@ =~= old(out)@ + tag_bytes(a, b, c, d));
}

fn append_u32(out: &mut Vec<u8>, x: u32)
    ensures
        final(out)@ == old(out)@ + spec_u32_to_le_bytes(x),
{
    let mut bytes = u32_to_le_bytes(x);
    out.append(&mut bytes);
}

fn append_u16(out: &mut Vec<u8>, x: u16)
    ensures
        final(out)@ == old(out)@ + spec_u16_to_le_bytes(x),
{
    let mut bytes = u16_to_le_bytes(x);
    out.append(&mut bytes);
}

/// Appends each sample as two little-endian bytes.
pub fn append_pcm16(out: &mut Vec<u8>, samples: &[i16])
    ensures
        final(out)@ == old(out)@ + pcm16_bytes(samples@),
{
    let ghost start = out@;
    let mut i: usize = 0;
    while i < samples.len()
        invariant
            i <= samples@.len(),
            out@ == start + pcm16_bytes(samples@.take(i as int)),
        decreases samples@.len() - i,
    {
        append_u16(out, samples[i] as u16);
        proof {
            assert(samples@.take(i + 1).drop_last() =~= samples@.take(i as int));
            assert(samples@.take(i + 1).last() == samples@[i as int]);
            assert(out@ =~= start + pcm16_bytes(samples@.take(i + 1)));
        }
        i = i + 1;
    }
    assert(samples@.take(i as int) =~= samples@);
}

/// The samples as 16-bit little-endian bytes, as an audio encoder's frame
/// takes them.
pub fn pcm16_le_bytes(samples: &[i16]) -> (bytes: Vec<u8>)
    ensures
        bytes@ == pcm16_bytes(samples@),
{
    let mut out: Vec<u8> = Vec::new();
    append_pcm16(&mut out, samples);
    assert(out@ =~= pcm16_bytes(samples@));
    out
}

/// The bytes of a 16-bit PCM mono WAV file holding `samples` at
/// `sample_rate`. The header records the number of samples cast to `u32`;
/// the sizes and the byte rate are computed in `u32` and must fit it.
pub fn encode_wav(samples: &[i16], sample_rate: u32) -> (bytes: Vec<u8>)
    requires
        wav_fits(samples@, sample_rate),
    ensures
        bytes@ == wav_file(samples@, sample_rate),
{
    let num_samples: u32 = #[verifier::truncate] (samples.len() as u32);
    // one channel of two-byte samples
    let data_size: u32 = num_samples * 2;
    let file_size: u32 = 36 + data_size;
    let byte_rate: u32 = sample_rate * 2;
    let block_align: u16 = NUM_CHANNELS * BYTES_PER_SAMPLE;
    let bits_per_sample: u16 = BYTES_PER_SAMPLE * 8;

    let mut out: Vec<u8> = Vec::new();
    append_tag(&mut out, 0x52, 0x49, 0x46, 0x46);
    append_u32(&mut out, file_size);
    append_tag(&mut out, 0x57, 0x41, 0x56, 0x45);
    append_tag(&mut out, 0x66, 0x6d, 0x74, 0x20);
    append_u32(&mut out, FMT_CHUNK_LEN);
    append_u16(&mut out, PCM_FORMAT);
    append_u16(&mut out, NUM_CHANNELS);
    append_u32(&mut out, sample_rate);
    append_u32(&mut out, byte_rate);
    append_u16(&mut out, block_align);
    append_u16(&mut out, bits_per_sample);
    append_tag(&mut out, 0x64, 0x61, 0x74, 0x61);
    append_u32(&mut out, data_size);
    assert(out@ =~= wav_header(num_samples, sample_rate));
    append_pcm16(&mut out, samples);
    out
}

proof fn lemma_pcm16_sample(samples: Seq<i16>, i: int)
    requires
        0 <= i < samples.len(),
    ensures
        pcm16_bytes(samples).subrange(2 * i, 2 * i + 2) == spec_u16_to_le_bytes(samples[i] as u16),
    decreases samples.len(),
{
    lemma_auto_spec_u16_to_from_le_bytes();
    let prefix = samples.drop_last();
    lemma_pcm16_len(prefix);
    if i < samples.len() - 1 {
        lemma_pcm16_sample(prefix, i);
        assert(pcm16_bytes(samples).subrange(2 * i, 2 * i + 2) =~= pcm16_bytes(prefix).subrange(
            2 * i,
            2 * i + 2,
        ));
    } else {
        assert(pcm16_bytes(samples).subrange(2 * i, 2 * i + 2) =~= spec_u16_to_le_bytes(
            samples.last() as u16,
        ));
    }
}

/// What a WAV reader finds in the bytes that `encode_wav` produces: the
/// file is 44 + 2n bytes long for n samples, its tags stand where the format
/// puts them, each size field holds the number of bytes that follow it, the
/// format fields describe 16-bit PCM mono at the given rate, and the i-th
/// sample is read back from bytes 44 + 2i and 45 + 2i.
pub proof fn lemma_wav_read_back(samples: Seq<i16>, sample_rate: u32)
    requires
        wav_fits(samples, sample_rate),
        samples.len() <= u32::MAX,
    ensures
        ({
            let f = wav_file(samples, sample_rate);
            &&& f.len() == 44 + 2 * samples.len()
            &&& f.subrange(0, 4) == tag_bytes(0x52, 0x49, 0x46, 0x46)
            &&& spec_u32_from_le_bytes(f.subrange(4, 8)) == f.len() - 8
            &&& f.subrange(8, 12) == tag_bytes(0x57, 0x41, 0x56, 0x45)
            &&& f.subrange(12, 16) == tag_bytes(0x66, 0x6d, 0x74, 0x20)
            &&& spec_u32_from_le_bytes(f.subrange(16, 20)) == 16
            &&& spec_u16_from_le_bytes(f.subrange(20, 22)) == 1
            &&& spec_u16_from_le_bytes(f.subrange(22, 24)) == 1
            &&& spec_u32_from_le_bytes(f.subrange(24, 28)) == sample_rate
            &&& spec_u32_from_le_bytes(f.subrange(28, 32)) == sample_rate * 2
            &&& spec_u16_from_le_bytes(f.subrange(32, 34)) == 2
            &&& spec_u16_from_le_bytes(f.subrange(34, 36)) == 16
            &&& f.subrange(36, 40) == tag_bytes(0x64, 0x61, 0x74, 0x61)
            &&& spec_u32_from_le_bytes(f.subrange(40, 44)) == f.len() - 44
            &&& forall|i: int|
                0 <= i < samples.len() ==> spec_u16_from_le_bytes(
                    #[trigger] f.subrange(44 + 2 * i, 46 + 2 * i),
                ) == samples[i] as u16
        }),
{
    lemma_auto_spec_u16_to_from_le_bytes();
    lemma_auto_spec_u32_to_from_le_bytes();
    lemma_pcm16_len(samples);
    let n = (samples.len() as usize) as u32;
    let h = wav_header(n, sample_rate);
    let f = wav_file(samples, sample_rate);
    let p = pcm16_bytes(samples);
    assert(h.len() == 44);
    assert(f.subrange(0, 4) =~= tag_bytes(0x52, 0x49, 0x46, 0x46));
    assert(f.subrange(4, 8) =~= spec_u32_to_le_bytes((36 + data_size(n)) as u32));
    assert(f.subrange(8, 12) =~= tag_bytes(0x57, 0x41, 0x56, 0x45));
    assert(f.subrange(12, 16) =~= tag_bytes(0x66, 0x6d, 0x74, 0x20));
    assert(f.subrange(16, 20) =~= spec_u32_to_le_bytes(16));
    assert(f.subrange(20, 22) =~= spec_u16_to_le_bytes(1));
    assert(f.subrange(22, 24) =~= spec_u16_to_le_bytes(1));
    assert(f.subrange(24, 28) =~= spec_u32_to_le_bytes(sample_rate));
    assert(f.subrange(28, 32) =~= spec_u32_to_le_bytes((sample_rate * 2) as u32));
    assert(f.subrange(32, 34) =~= spec_u16_to_le_bytes(2));
    assert(f.subrange(34, 36) =~= spec_u16_to_le_bytes(16));
    assert(f.subrange(36, 40) =~= tag_bytes(0x64, 0x61, 0x74, 0x61));
    assert(f.subrange(40, 44) =~= spec_u32_to_le_bytes(data_size(n) as u32));
    assert forall|i: int| 0 <= i < samples.len() implies spec_u16_from_le_bytes(
        #[trigger] f.subrange(44 + 2 * i, 46 + 2 * i),
    ) == samples[i] as u16 by {
        lemma_pcm16_sample(samples, i);
        assert(f.subrange(44 + 2 * i, 46 + 2 * i) =~= p.subrange(2 * i, 2 * i + 2));
    }
}

} // verus!
