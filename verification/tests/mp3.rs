use voice_actions::mp3::{
    effective_frame_size, encoder_sample_format, needs_resampler, plan_chunks,
    should_write_packet, Chunk, SampleFormat, SampleLayout, FALLBACK_FRAME_SIZE, MP3_BIT_RATE,
};

#[test]
fn chunks_of_2500_samples_in_frames_of_1024() {
    assert_eq!(
        plan_chunks(2500, 1024),
        vec![
            Chunk { offset: 0, len: 1024, pts: 0 },
            Chunk { offset: 1024, len: 1024, pts: 1024 },
            Chunk { offset: 2048, len: 452, pts: 2048 },
        ]
    );
}

#[test]
fn chunks_fit_exact_multiple() {
    let c = plan_chunks(2304, 1152);
    assert_eq!(c.len(), 2);
    assert_eq!(c[1], Chunk { offset: 1152, len: 1152, pts: 1152 });
}

#[test]
fn no_samples_no_chunks() {
    assert!(plan_chunks(0, 1024).is_empty());
    assert_eq!(plan_chunks(5, 1024), vec![Chunk { offset: 0, len: 5, pts: 0 }]);
}

#[test]
fn chunks_cover_every_sample_once() {
    let total = 10_007;
    let c = plan_chunks(total, 333);
    let mut seen = vec![0u8; total];
    for ch in &c {
        for s in ch.offset..ch.offset + ch.len {
            seen[s] += 1;
        }
    }
    assert!(seen.iter().all(|&n| n == 1));
}

#[test]
fn frame_size_falls_back_to_1024() {
    assert_eq!(effective_frame_size(0), FALLBACK_FRAME_SIZE);
    assert_eq!(FALLBACK_FRAME_SIZE, 1024);
    assert_eq!(effective_frame_size(1152), 1152);
}

#[test]
fn only_packed_i16_skips_the_resampler() {
    assert!(!needs_resampler(SampleFormat::I16(SampleLayout::Packed)));
    assert!(needs_resampler(SampleFormat::I16(SampleLayout::Planar)));
    assert!(needs_resampler(SampleFormat::F32(SampleLayout::Planar)));
    assert!(needs_resampler(SampleFormat::NoFormat));
}

#[test]
fn encoder_format_defaults_to_packed_i16() {
    assert_eq!(encoder_sample_format(None), SampleFormat::I16(SampleLayout::Packed));
    assert_eq!(
        encoder_sample_format(Some(SampleFormat::F32(SampleLayout::Planar))),
        SampleFormat::F32(SampleLayout::Planar)
    );
}

#[test]
fn empty_packets_are_skipped() {
    assert!(!should_write_packet(0));
    assert!(should_write_packet(417));
    assert_eq!(MP3_BIT_RATE, 192_000);
}
