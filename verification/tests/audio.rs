use svs::audio::{pcm_duration_ms, pcm_to_wav};

#[test]
fn wav_header_is_44_bytes() {
    let wav = pcm_to_wav(&[0u8; 0]);
    assert_eq!(wav.len(), 44);
    assert_eq!(&wav[0..4], b"RIFF");
    assert_eq!(&wav[8..12], b"WAVE");
    assert_eq!(&wav[12..16], b"fmt ");
    assert_eq!(&wav[36..40], b"data");
}

#[test]
fn duration_matches_sample_count() {
    // 24_000 samples * 2 bytes/sample = 48_000 bytes = 1 second.
    let pcm = vec![0u8; 48_000];
    assert_eq!(pcm_duration_ms(&pcm), 1000);
}

#[test]
fn wav_header_fields_and_payload() {
    let pcm: Vec<u8> = (0..10u8).collect();
    let wav = pcm_to_wav(&pcm);
    assert_eq!(wav.len(), 54);
    let le32 = |o: usize| u32::from_le_bytes([wav[o], wav[o + 1], wav[o + 2], wav[o + 3]]);
    let le16 = |o: usize| u16::from_le_bytes([wav[o], wav[o + 1]]);
    assert_eq!(le32(4), 46);
    assert_eq!(le32(16), 16);
    assert_eq!(le16(20), 1);
    assert_eq!(le16(22), 1);
    assert_eq!(le32(24), 24_000);
    assert_eq!(le32(28), 48_000);
    assert_eq!(le16(32), 2);
    assert_eq!(le16(34), 16);
    assert_eq!(le32(40), 10);
    assert_eq!(&wav[44..], &pcm[..]);
}

#[test]
fn duration_rounds_down_and_ignores_odd_byte() {
    assert_eq!(pcm_duration_ms(&[]), 0);
    assert_eq!(pcm_duration_ms(&[0u8; 47]), 0);
    assert_eq!(pcm_duration_ms(&[0u8; 48]), 1);
    assert_eq!(pcm_duration_ms(&[0u8; 49]), 1);
    assert_eq!(pcm_duration_ms(&vec![0u8; 72_001]), 1500);
}

#[test]
fn duration_agrees_with_wav_header() {
    let pcm = vec![7u8; 12_345];
    let wav = pcm_to_wav(&pcm);
    let data = u32::from_le_bytes([wav[40], wav[41], wav[42], wav[43]]) as u64;
    let align = u16::from_le_bytes([wav[32], wav[33]]) as u64;
    let rate = u32::from_le_bytes([wav[24], wav[25], wav[26], wav[27]]) as u64;
    assert_eq!(pcm_duration_ms(&pcm), (data / align) * 1000 / rate);
}

#[test]
fn duration_depends_on_length_only() {
    assert_eq!(pcm_duration_ms(&[0u8; 4800]), pcm_duration_ms(&[0xffu8; 4800]));
    assert_eq!(pcm_duration_ms(&[7u8; 4800]), 100);
}

#[test]
fn joined_buffers_add_up_within_a_millisecond() {
    // 23 and 25 samples: 0 ms and 1 ms alone, 2 ms together.
    let a = vec![0u8; 46];
    let b = vec![0u8; 50];
    let joined = [a.clone(), b.clone()].concat();
    assert_eq!(pcm_duration_ms(&a), 0);
    assert_eq!(pcm_duration_ms(&b), 1);
    assert_eq!(pcm_duration_ms(&joined), 2);
}
