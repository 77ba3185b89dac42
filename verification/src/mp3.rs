//! The decisions of the MP3 encoding loop: which sample format the encoder
//! gets, whether the samples go through a resampler, how the samples are cut
//! into frames, and which encoded packets are written.
use vstd::prelude::*;

verus! {

/// The MP3 bit rate, in bits per second.
pub const MP3_BIT_RATE: usize = 192_000;

/// The frame size used when the encoder reports none.
pub const FALLBACK_FRAME_SIZE: usize = 1024;

/// Whether the channels of a sample format lie interleaved in one plane or
/// in one plane each.
#[derive(Debug, Clone, Copy, PartialEq, Eq, Structural)]
pub enum SampleLayout {
    Packed,
    Planar,
}

/// An audio sample format: the type of one sample and its layout.
#[derive(Debug, Clone, Copy, PartialEq, Eq, Structural)]
pub enum SampleFormat {
    NoFormat,
    U8(SampleLayout),
    I16(SampleLayout),
    I32(SampleLayout),
    I64(SampleLayout),
    F32(SampleLayout),
    F64(SampleLayout),
}

/// The sample format given to the encoder: the first one that the codec
/// lists, or packed 16-bit integers when it lists none.
pub fn encoder_sample_format(first_listed: Option<SampleFormat>) -> (f: SampleFormat)
    ensures
        first_listed matches Some(g) ==> f == g,
        first_listed is None ==> f == SampleFormat::I16(SampleLayout::Packed),
{
    match first_listed {
        Some(g) => g,
        None => SampleFormat::I16(SampleLayout::Packed),
    }
}

/// Whether the samples go through a resampler before the encoder: every
/// format but packed 16-bit integers needs one; those are written directly.
pub fn needs_resampler(format: SampleFormat) -> (b: bool)
    ensures
        b <==> format != SampleFormat::I16(SampleLayout::Packed),
{
    match format {
        SampleFormat::I16(SampleLayout::Packed) => false,
        _ => true,
    }
}

/// The number of samples per frame: the encoder's frame size, or
/// `FALLBACK_FRAME_SIZE` when the encoder reports zero.
pub fn effective_frame_size(encoder_frame_size: u32) -> (n: usize)
    ensures
        encoder_frame_size > 0 ==> n == encoder_frame_size,
        encoder_frame_size == 0 ==> n == FALLBACK_FRAME_SIZE,
        n > 0,
{
    if encoder_frame_size > 0 {
        encoder_frame_size as usize
    } else {
        FALLBACK_FRAME_SIZE
    }
}

/// Whether an encoded packet is written: empty packets are skipped.
pub fn should_write_packet(size: usize) -> (b: bool)
    ensures
        b <==> size != 0,
{
    size != 0
}

/// One frame of samples: `len` samples from `offset`, stamped `pts`.
#[derive(Debug, Clone, Copy, PartialEq, Eq, Structural)]
pub struct Chunk {
    pub offset: usize,
    pub len: usize,
    pub pts: i64,
}

/// The smaller of two numbers.
pub open spec fn min(a: int, b: int) -> int {
    if a <= b {
        a
    } else {
        b
    }
}

/// `chunks` cuts `total` samples into frames of `frame_size`: the first
/// starts at zero, each starts where the one before it ends, each takes
/// `frame_size` samples or what is left if that is fewer, each is stamped
/// with its offset, and the last ends at `total`. No samples, no chunk.
pub open spec fn is_chunk_plan(chunks: Seq<Chunk>, total: int, frame_size: int) -> bool {
    &&& chunks.len() == 0 <==> total == 0
    &&& chunks.len() > 0 ==> chunks[0].offset == 0
    &&& chunks.len() > 0 ==> chunks.last().offset + chunks.last().len == total
    &&& forall|i: int|
        0 <= i < chunks.len() ==> {
            &&& (#[trigger] chunks[i]).len == min(frame_size, total - chunks[i].offset)
            &&& chunks[i].offset < total
            &&& chunks[i].pts == chunks[i].offset
        }
    &&& forall|i: int|
        0 <= i < chunks.len() - 1 ==> #[trigger] chunks[i + 1].offset == chunks[i].offset
            + chunks[i].len
}

/// The frames in which `total` samples go to the encoder, in order.
pub fn plan_chunks(total: usize, frame_size: usize) -> (chunks: Vec<Chunk>)
    requires
        frame_size > 0,
        total <= i64::MAX,
    ensures
        is_chunk_plan(chunks@, total as int, frame_size as int),
        forall|i: int| 0 <= i < chunks@.len() - 1 ==> (#[trigger] chunks@[i]).len == frame_size,
        chunks@.len() > 0 ==> 0 < chunks@.last().len <= frame_size,
        chunks@.len() > 0 ==> chunks@.last().len == total - chunks@.last().offset,
        forall|k: int| 0 <= k < chunks@.len() ==> (#[trigger] chunks@[k]).offset == k * frame_size,
        (chunks@.len() - 1) * frame_size < total <= chunks@.len() * frame_size || total == 0,
{
    let mut chunks: Vec<Chunk> = Vec::new();
    let mut pts: i64 = 0;
    let mut offset: usize = 0;
    while offset < total
        invariant
            frame_size > 0,
            total <= i64::MAX,
            offset <= total,
            pts == offset,
            chunks@.len() == 0 <==> offset == 0,
            chunks@.len() > 0 ==> chunks@[0].offset == 0,
            chunks@.len() > 0 ==> chunks@.last().offset + chunks@.last().len == offset,
            forall|i: int|
                0 <= i < chunks@.len() ==> {
                    &&& (#[trigger] chunks@[i]).len == min(
                        frame_size as int,
                        total - chunks@[i].offset,
                    )
                    &&& chunks@[i].offset < total
                    &&& chunks@[i].pts == chunks@[i].offset
                },
            forall|i: int|
                0 <= i < chunks@.len() - 1 ==> #[trigger] chunks@[i + 1].offset == chunks@[i].offset
                    + chunks@[i].len,
        decreases total - offset,
    {
        let remaining = total - offset;
        let len = if frame_size < remaining {
            frame_size
        } else {
            remaining
        };
        let ghost before = chunks@;
        chunks.push(Chunk { offset, len, pts });
        assert forall|i: int| 0 <= i < chunks@.len() - 1 implies #[trigger] chunks@[i + 1].offset
            == chunks@[i].offset + chunks@[i].len by {
            if i < before.len() - 1 {
                assert(chunks@[i + 1] == before[i + 1]);
            }
        }
        pts = pts + len as i64;
        offset = offset + len;
    }
    proof {
        lemma_full_frames_then_rest(chunks@, total as int, frame_size as int);
        lemma_chunk_offsets(chunks@, total as int, frame_size as int);
    }
    chunks
}

/// In a chunk plan, chunk `k` starts at sample `k * frame_size`, and there are
/// just enough chunks for the samples: one less would not hold them all.
pub proof fn lemma_chunk_offsets(chunks: Seq<Chunk>, total: int, frame_size: int)
    requires
        frame_size > 0,
        is_chunk_plan(chunks, total, frame_size),
    ensures
        forall|k: int| 0 <= k < chunks.len() ==> (#[trigger] chunks[k]).offset == k * frame_size,
        (chunks.len() - 1) * frame_size < total <= chunks.len() * frame_size || total == 0,
{
    lemma_full_frames_then_rest(chunks, total, frame_size);
    assert forall|k: int| 0 <= k < chunks.len() implies (#[trigger] chunks[k]).offset == k
        * frame_size by {
        lemma_chunk_offset_at(chunks, total, frame_size, k);
    }
    if chunks.len() > 0 {
        let n = chunks.len() as int;
        let l = chunks[n - 1];
        assert(l.offset == (n - 1) * frame_size);
        assert(0 < l.len <= frame_size);
        assert(l.offset + l.len == total);
        assert((n - 1) * frame_size + frame_size == n * frame_size) by (nonlinear_arith);
    }
}

proof fn lemma_chunk_offset_at(chunks: Seq<Chunk>, total: int, frame_size: int, k: int)
    requires
        frame_size > 0,
        is_chunk_plan(chunks, total, frame_size),
        0 <= k < chunks.len(),
    ensures
        chunks[k].offset == k * frame_size,
    decreases k,
{
    if k > 0 {
        let j = k - 1;
        lemma_chunk_offset_at(chunks, total, frame_size, j);
        lemma_full_frames_then_rest(chunks, total, frame_size);
        assert(chunks[j + 1].offset == chunks[j].offset + chunks[j].len);
        assert(chunks[j].len == frame_size);
        assert(j * frame_size + frame_size == k * frame_size) by (nonlinear_arith)
            requires
                k == j + 1,
        ;
    }
}

/// In a chunk plan, every chunk but the last holds exactly `frame_size`
/// samples, and the last holds the samples that are left, at least one and
/// at most `frame_size`.
pub proof fn lemma_full_frames_then_rest(chunks: Seq<Chunk>, total: int, frame_size: int)
    requires
        frame_size > 0,
        is_chunk_plan(chunks, total, frame_size),
    ensures
        forall|i: int| 0 <= i < chunks.len() - 1 ==> (#[trigger] chunks[i]).len == frame_size,
        forall|i: int|
            0 <= i < chunks.len() - 1 ==> (#[trigger] chunks[i]).offset + frame_size < total,
        chunks.len() > 0 ==> 0 < chunks.last().len <= frame_size,
        chunks.len() > 0 ==> chunks.last().len == total - chunks.last().offset,
        chunks.len() > 0 ==> total - chunks.last().offset <= frame_size,
{
    assert forall|i: int| 0 <= i < chunks.len() - 1 implies (#[trigger] chunks[i]).len
        == frame_size && chunks[i].offset + frame_size < total by {
        let c = chunks[i];
        let d = chunks[i + 1];
        assert(d.offset == c.offset + c.len);
        assert(d.offset < total);
        assert(c.len == min(frame_size, total - c.offset));
        if total - c.offset <= frame_size {
            assert(c.len == total - c.offset);
            assert(false);
        }
    }
    if chunks.len() > 0 {
        let l = chunks.last();
        assert(l == chunks[chunks.len() - 1]);
        assert(l.len == min(frame_size, total - l.offset));
        assert(l.offset < total);
        if frame_size < total - l.offset {
            assert(l.offset + l.len < total);
        }
    }
}

/// Chunk `c` holds sample index `s`.
pub open spec fn chunk_holds(c: Chunk, s: int) -> bool {
    c.offset <= s < c.offset + c.len
}

/// A chunk plan encodes every sample exactly once: each sample index below
/// `total` lies in exactly one chunk.
pub proof fn lemma_chunks_cover_once(chunks: Seq<Chunk>, total: int, frame_size: int, s: int)
    requires
        frame_size > 0,
        is_chunk_plan(chunks, total, frame_size),
        0 <= s < total,
    ensures
        exists|i: int| 0 <= i < chunks.len() && #[trigger] chunk_holds(chunks[i], s),
        forall|i: int, j: int|
            0 <= i < chunks.len() && 0 <= j < chunks.len() && #[trigger] chunk_holds(chunks[i], s)
                && #[trigger] chunk_holds(chunks[j], s) ==> i == j,
{
    lemma_offsets_grow(chunks, total, frame_size);
    let i = lemma_find_chunk(chunks, total, frame_size, s, chunks.len() - 1);
    assert(chunk_holds(chunks[i], s));
    assert forall|i: int, j: int|
        0 <= i < chunks.len() && 0 <= j < chunks.len() && #[trigger] chunk_holds(chunks[i], s)
            && #[trigger] chunk_holds(chunks[j], s) implies i == j by {
        if i < j {
            assert(chunks[i].offset + chunks[i].len <= chunks[j].offset);
        } else if j < i {
            assert(chunks[j].offset + chunks[j].len <= chunks[i].offset);
        }
    }
}

/// In a chunk plan, a chunk ends no later than any later chunk starts.
proof fn lemma_offsets_grow(chunks: Seq<Chunk>, total: int, frame_size: int)
    requires
        frame_size > 0,
        is_chunk_plan(chunks, total, frame_size),
    ensures
        forall|i: int, j: int|
            0 <= i < j < chunks.len() ==> #[trigger] chunks[i].offset + chunks[i].len
                <= #[trigger] chunks[j].offset,
{
    assert forall|i: int, j: int| 0 <= i < j < chunks.len() implies #[trigger] chunks[i].offset
        + chunks[i].len <= #[trigger] chunks[j].offset by {
        lemma_offsets_grow_from(chunks, total, frame_size, i, j);
    }
}

proof fn lemma_offsets_grow_from(chunks: Seq<Chunk>, total: int, frame_size: int, i: int, j: int)
    requires
        frame_size > 0,
        is_chunk_plan(chunks, total, frame_size),
        0 <= i < j < chunks.len(),
    ensures
        chunks[i].offset + chunks[i].len <= chunks[j].offset,
    decreases j - i,
{
    assert(chunks[j - 1 + 1].offset == chunks[j - 1].offset + chunks[j - 1].len);
    if i < j - 1 {
        lemma_offsets_grow_from(chunks, total, frame_size, i, j - 1);
        assert(chunks[j - 1].len == min(frame_size, total - chunks[j - 1].offset));
    }
}

/// The chunk among the first `k + 1` that holds sample `s`, given that `s`
/// lies before the end of chunk `k`.
proof fn lemma_find_chunk(chunks: Seq<Chunk>, total: int, frame_size: int, s: int, k: int) -> (i: int)
    requires
        frame_size > 0,
        is_chunk_plan(chunks, total, frame_size),
        0 <= s,
        0 <= k < chunks.len(),
        s < chunks[k].offset + chunks[k].len,
    ensures
        0 <= i <= k,
        chunks[i].offset <= s < chunks[i].offset + chunks[i].len,
    decreases k,
{
    if chunks[k].offset <= s {
        k
    } else {
        assert(k > 0);
        assert(chunks[k - 1 + 1].offset == chunks[k - 1].offset + chunks[k - 1].len);
        lemma_find_chunk(chunks, total, frame_size, s, k - 1)
    }
}

} // verus!
