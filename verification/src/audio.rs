//! PCM/WAV helpers. Gemini TTS returns signed 16-bit little-endian PCM,
//! mono, at 24 kHz; it is wrapped in a minimal RIFF/WAVE container so any
//! decoder can read it.

use vstd::prelude::*;

verus! {

pub const GEMINI_TTS_SAMPLE_RATE: u32 = 24_000;

pub const GEMINI_TTS_NUM_CHANNELS: u16 = 1;

pub const GEMINI_TTS_BITS_PER_SAMPLE: u16 = 16;

/// Size in bytes of the RIFF/WAVE header written by `pcm_to_wav`.
pub const WAV_HEADER_LEN: usize = 44;

/// Bytes per second of the PCM stream.
pub open spec fn byte_rate() -> int {
    GEMINI_TTS_SAMPLE_RATE * GEMINI_TTS_NUM_CHANNELS * (GEMINI_TTS_BITS_PER_SAMPLE / 8)
}

/// Bytes per sample frame (all channels).
pub open spec fn block_align() -> int {
    GEMINI_TTS_NUM_CHANNELS * (GEMINI_TTS_BITS_PER_SAMPLE / 8)
}

/// Little-endian encoding of `v` on two bytes.
pub open spec fn le16(v: int) -> Seq<u8> {
    seq![(v % 256) as u8, ((v / 256) % 256) as u8]
}

/// Little-endian encoding of `v` on four bytes.
pub open spec fn le32(v: int) -> Seq<u8> {
    seq![
        (v % 256) as u8,
        ((v / 0x100) % 256) as u8,
        ((v / 0x1_0000) % 256) as u8,
        ((v / 0x100_0000) % 256) as u8,
    ]
}

/// The four ASCII bytes of a RIFF chunk tag.
pub open spec fn tag(a: char, b: char, c: char, d: char) -> Seq<u8> {
    seq![a as u8, b as u8, c as u8, d as u8]
}

/// The 44-byte header of a mono 16-bit 24 kHz PCM WAV file whose data
/// chunk holds `data_len` bytes.
pub open spec fn wav_header(data_len: int) -> Seq<u8> {
    tag('R', 'I', 'F', 'F') + le32(36 + data_len) + tag('W', 'A', 'V', 'E') + tag('f', 'm', 't', ' ')
        + le32(16) + le16(1) + le16(GEMINI_TTS_NUM_CHANNELS as int) + le32(
        GEMINI_TTS_SAMPLE_RATE as int,
    ) + le32(byte_rate()) + le16(block_align()) + le16(GEMINI_TTS_BITS_PER_SAMPLE as int) + tag(
        'd',
        'a',
        't',
        'a',
    ) + le32(data_len)
}

/// The WAV file that wraps `pcm`.
pub open spec fn wav_file(pcm: Seq<u8>) -> Seq<u8> {
    wav_header(pcm.len() as int) + pcm
}

/// Duration in whole milliseconds of a PCM buffer of `len` bytes.
pub open spec fn duration_ms_of_len(len: int) -> int {
    (len / block_align()) * 1000 / GEMINI_TTS_SAMPLE_RATE as int
}

/// Reads the little-endian 16-bit value at `off`.
pub open spec fn read_le16(s: Seq<u8>, off: int) -> int {
    s[off] + 0x100 * s[off + 1]
}

/// Reads the little-endian 32-bit value at `off`.
pub open spec fn read_le32(s: Seq<u8>, off: int) -> int {
    s[off] + 0x100 * s[off + 1] + 0x1_0000 * s[off + 2] + 0x100_0000 * s[off + 3]
}

fn push_le16(out: &mut Vec<u8>, v: u16)
    ensures
        final(out)@ == old(out)@ + le16(v as int),
{
    out.push((v % 256) as u8);
    out.push(((v / 256) % 256) as u8);
    assert(final(out)@ =~= old(out)@ + le16(v as int));
}

fn push_le32(out: &mut Vec<u8>, v: u32)
    ensures
        final(out)@ == old(out)@ + le32(v as int),
{
    out.push((v % 256) as u8);
    out.push(((v / 0x100) % 256) as u8);
    out.push(((v / 0x1_0000) % 256) as u8);
    out.push(((v / 0x100_0000) % 256) as u8);
    assert(final(out)@ =~= old(out)@ + le32(v as int));
}

fn push_tag(out: &mut Vec<u8>, a: char, b: char, c: char, d: char)
    requires
        (a as int) < 128,
        (b as int) < 128,
        (c as int) < 128,
        (d as int) < 128,
    ensures
        final(out)@ == old(out)@ + tag(a, b, c, d),
{
    out.push(a as u8);
    out.push(b as u8);
    out.push(c as u8);
    out.push(d as u8);
    assert(final(out)@ =~= old(out)@ + tag(a, b, c, d));
}

/// Wraps raw PCM in a minimal RIFF/WAVE container.
///
/// The RIFF chunk size `36 + pcm.len()` must fit in 32 bits.
pub fn pcm_to_wav(pcm: &[u8]) -> (out: Vec<u8>)
    requires
        pcm@.len() + 36 <= u32::MAX,
    ensures
        out@ == wav_file(pcm@),
        out@.len() == WAV_HEADER_LEN + pcm@.len(),
{
    let sample_rate = GEMINI_TTS_SAMPLE_RATE;
    let num_channels = GEMINI_TTS_NUM_CHANNELS;
    let bits_per_sample = GEMINI_TTS_BITS_PER_SAMPLE;

    let byte_rate: u32 = sample_rate * (num_channels as u32) * ((bits_per_sample / 8) as u32);
    let block_align: u16 = num_channels * (bits_per_sample / 8);
    let data_size: u32 = pcm.len() as u32;
    let total_size: u32 = 36 + data_size;

    let mut out: Vec<u8> = Vec::new();
    push_tag(&mut out, 'R', 'I', 'F', 'F');
    push_le32(&mut out, total_size);
    push_tag(&mut out, 'W', 'A', 'V', 'E');
    push_tag(&mut out, 'f', 'm', 't', ' ');
    push_le32(&mut out, 16);
    push_le16(&mut out, 1);
    push_le16(&mut out, num_channels);
    push_le32(&mut out, sample_rate);
    push_le32(&mut out, byte_rate);
    push_le16(&mut out, block_align);
    push_le16(&mut out, bits_per_sample);
    push_tag(&mut out, 'd', 'a', 't', 'a');
    push_le32(&mut out, data_size);
    let ghost header = out@;
    assert(header =~= wav_header(pcm@.len() as int));
    let mut i: usize = 0;
    while i < pcm.len()
        invariant
            i <= pcm@.len(),
            out@ == header + pcm@.subrange(0, i as int),
        decreases pcm@.len() - i,
    {
        out.push(pcm[i]);
        i = i + 1;
        assert(out@ =~= header + pcm@.subrange(0, i as int));
    }
    assert(pcm@.subrange(0, pcm@.len() as int) =~= pcm@);
    out
}

/// Approximate duration of a raw PCM buffer, in milliseconds.
pub fn pcm_duration_ms(pcm: &[u8]) -> (ms: u64)
    requires
        (pcm@.len() / 2) * 1000 <= u64::MAX,
    ensures
        ms == duration_ms_of_len(pcm@.len() as int),
{
    let channels: usize = GEMINI_TTS_NUM_CHANNELS as usize;
    let sample_bytes: usize = (GEMINI_TTS_BITS_PER_SAMPLE / 8) as usize;
    assert(channels == 1 && sample_bytes == 2);
    let bytes_per_sample: usize = channels * sample_bytes;
    let samples: usize = pcm.len() / bytes_per_sample;
    (samples as u64 * 1000) / (GEMINI_TTS_SAMPLE_RATE as u64)
}

proof fn lemma_le16_read(v: int)
    requires
        0 <= v < 0x1_0000,
    ensures
        le16(v)[0] + 0x100 * le16(v)[1] == v,
{
    assert((v % 256) + 256 * ((v / 256) % 256) == v) by (nonlinear_arith)
        requires
            0 <= v < 0x1_0000,
    ;
}

proof fn lemma_le32_read(v: int)
    requires
        0 <= v < 0x1_0000_0000,
    ensures
        le32(v)[0] + 0x100 * le32(v)[1] + 0x1_0000 * le32(v)[2] + 0x100_0000 * le32(v)[3] == v,
{
    assert((v % 256) + 0x100 * ((v / 0x100) % 256) + 0x1_0000 * ((v / 0x1_0000) % 256) + 0x100_0000
        * ((v / 0x100_0000) % 256) == v) by (nonlinear_arith)
        requires
            0 <= v < 0x1_0000_0000,
    ;
}

/// The WAV file written for `pcm` is a 44-byte header followed by `pcm`
/// unchanged, and a WAV reader finds in that header: the RIFF chunk size
/// (total length minus 8), a 16-byte PCM (format 1) `fmt ` chunk for one
/// channel at 24 kHz, 16 bits per sample, 48000 bytes per second and
/// 2-byte frames, and a `data` chunk whose size is the length of `pcm`.
pub proof fn lemma_wav_layout(pcm: Seq<u8>)
    requires
        pcm.len() + 36 <= u32::MAX,
    ensures
        ({
            let w = wav_file(pcm);
            &&& w.len() == 44 + pcm.len()
            &&& w.subrange(44, w.len() as int) == pcm
            &&& w.subrange(0, 4) == tag('R', 'I', 'F', 'F')
            &&& read_le32(w, 4) == w.len() - 8
            &&& w.subrange(8, 12) == tag('W', 'A', 'V', 'E')
            &&& w.subrange(12, 16) == tag('f', 'm', 't', ' ')
            &&& read_le32(w, 16) == 16
            &&& read_le16(w, 20) == 1
            &&& read_le16(w, 22) == GEMINI_TTS_NUM_CHANNELS
            &&& read_le32(w, 24) == GEMINI_TTS_SAMPLE_RATE
            &&& read_le32(w, 28) == byte_rate()
            &&& read_le16(w, 32) == block_align()
            &&& read_le16(w, 34) == GEMINI_TTS_BITS_PER_SAMPLE
            &&& w.subrange(36, 40) == tag('d', 'a', 't', 'a')
            &&& read_le32(w, 40) == pcm.len()
        }),
{
    let w = wav_file(pcm);
    let n = pcm.len() as int;
    lemma_le32_read(36 + n);
    lemma_le32_read(16);
    lemma_le16_read(1);
    lemma_le16_read(2);
    lemma_le16_read(16);
    lemma_le32_read(24000);
    lemma_le32_read(48000);
    lemma_le32_read(n);
    assert(w.subrange(44, w.len() as int) =~= pcm);
    assert(w.subrange(0, 4) =~= tag('R', 'I', 'F', 'F'));
    assert(w.subrange(8, 12) =~= tag('W', 'A', 'V', 'E'));
    assert(w.subrange(12, 16) =~= tag('f', 'm', 't', ' '));
    assert(w.subrange(36, 40) =~= tag('d', 'a', 't', 'a'));
}

/// The duration `pcm_duration_ms` reports for `pcm` is the one a WAV
/// reader computes from the header of `pcm_to_wav(pcm)`: the data size
/// divided by the frame size gives the sample count, which is converted
/// to milliseconds at the header's sample rate.
pub proof fn lemma_duration_agrees_with_header(pcm: Seq<u8>)
    requires
        pcm.len() + 36 <= u32::MAX,
    ensures
        ({
            let w = wav_file(pcm);
            duration_ms_of_len(pcm.len() as int) == (read_le32(w, 40) / read_le16(w, 32)) * 1000
                / read_le32(w, 24)
        }),
{
    lemma_wav_layout(pcm);
}

/// A longer PCM buffer never has a shorter duration.
pub proof fn lemma_duration_monotonic(len1: int, len2: int)
    requires
        0 <= len1 <= len2,
    ensures
        duration_ms_of_len(len1) <= duration_ms_of_len(len2),
{
    assert(len1 / 2 <= len2 / 2) by (nonlinear_arith)
        requires
            0 <= len1 <= len2,
    ;
    let a = len1 / 2;
    let b = len2 / 2;
    assert(a * 1000 / 24000 <= b * 1000 / 24000) by (nonlinear_arith)
        requires
            0 <= a <= b,
    ;
}

/// The duration depends on the number of PCM bytes only, never on the
/// sample values: two buffers of one length have one duration.
pub proof fn lemma_duration_depends_on_length(a: Seq<u8>, b: Seq<u8>)
    requires
        a.len() == b.len(),
    ensures
        duration_ms_of_len(a.len() as int) == duration_ms_of_len(b.len() as int),
{
}

/// Joining a buffer of whole samples to another gives at least the sum of
/// their durations and at most one millisecond more (each duration is
/// rounded down on its own).
pub proof fn lemma_duration_of_concat(a: Seq<u8>, b: Seq<u8>)
    requires
        a.len() % 2 == 0,
    ensures
        duration_ms_of_len(a.len() as int) + duration_ms_of_len(b.len() as int)
            <= duration_ms_of_len((a + b).len() as int),
        duration_ms_of_len((a + b).len() as int) <= duration_ms_of_len(a.len() as int)
            + duration_ms_of_len(b.len() as int) + 1,
{
    let la = a.len() as int;
    let lb = b.len() as int;
    assert((a + b).len() == la + lb);
    let x = la / 2;
    let y = lb / 2;
    assert((la + lb) / 2 == x + y);
    assert(x * 1000 / 24000 == x / 24 && y * 1000 / 24000 == y / 24 && (x + y) * 1000 / 24000 == (
    x + y) / 24) by (nonlinear_arith)
        requires
            x >= 0,
            y >= 0,
    ;
    assert(x / 24 + y / 24 <= (x + y) / 24 <= x / 24 + y / 24 + 1) by (nonlinear_arith)
        requires
            x >= 0,
            y >= 0,
    ;
}

} // verus!
