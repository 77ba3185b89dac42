use voice_actions::wav::{encode_wav, pcm16_le_bytes, WAV_HEADER_LEN};

fn u32_at(b: &[u8], i: usize) -> u32 {
    u32::from_le_bytes([b[i], b[i + 1], b[i + 2], b[i + 3]])
}

fn u16_at(b: &[u8], i: usize) -> u16 {
    u16::from_le_bytes([b[i], b[i + 1]])
}

#[test]
fn wav_of_three_samples_exact_bytes() {
    let bytes = encode_wav(&[0, 1, -1], 24000);
    let mut expected: Vec<u8> = Vec::new();
    expected.extend_from_slice(b"RIFF");
    expected.extend_from_slice(&42u32.to_le_bytes());
    expected.extend_from_slice(b"WAVEfmt ");
    expected.extend_from_slice(&16u32.to_le_bytes());
    expected.extend_from_slice(&1u16.to_le_bytes());
    expected.extend_from_slice(&1u16.to_le_bytes());
    expected.extend_from_slice(&24000u32.to_le_bytes());
    expected.extend_from_slice(&48000u32.to_le_bytes());
    expected.extend_from_slice(&2u16.to_le_bytes());
    expected.extend_from_slice(&16u16.to_le_bytes());
    expected.extend_from_slice(b"data");
    expected.extend_from_slice(&6u32.to_le_bytes());
    expected.extend_from_slice(&[0x00, 0x00, 0x01, 0x00, 0xff, 0xff]);
    assert_eq!(bytes, expected);
}

#[test]
fn wav_header_describes_its_data() {
    let samples: Vec<i16> = (0..1000).map(|i| (i * 37 - 18000) as i16).collect();
    let b = encode_wav(&samples, 44100);
    assert_eq!(b.len(), WAV_HEADER_LEN + 2 * samples.len());
    assert_eq!(u32_at(&b, 4) as usize, b.len() - 8);
    assert_eq!(u32_at(&b, 24), 44100);
    assert_eq!(u32_at(&b, 28), 88200);
    assert_eq!(u16_at(&b, 32), 2);
    assert_eq!(u16_at(&b, 34), 16);
    assert_eq!(u32_at(&b, 40) as usize, b.len() - 44);
    for (i, &s) in samples.iter().enumerate() {
        assert_eq!(u16_at(&b, 44 + 2 * i) as i16, s);
    }
}

#[test]
fn empty_wav_is_just_a_header() {
    let b = encode_wav(&[], 16000);
    assert_eq!(b.len(), 44);
    assert_eq!(u32_at(&b, 4), 36);
    assert_eq!(u32_at(&b, 40), 0);
    assert_eq!(&b[36..40], b"data");
}

#[test]
fn pcm_bytes_are_little_endian() {
    assert_eq!(pcm16_le_bytes(&[0x1234, -2, i16::MIN]), vec![0x34, 0x12, 0xfe, 0xff, 0x00, 0x80]);
    assert_eq!(pcm16_le_bytes(&[]), Vec::<u8>::new());
}
