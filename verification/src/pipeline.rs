//! The decisions of the render pipeline (slides → notes → narration →
//! segments → MP4) that lie between its I/O steps: where each cached file
//! lives, what kind of input was given, when a cached result is reused,
//! and which segments are encoded.

use vstd::prelude::*;
use crate::audio::{WAV_HEADER_LEN, wav_file, wav_header};
use crate::edits::SlideReplacement;
use crate::ffmpeg::{EncodeOptions, SegmentInput};
use crate::models::{Transition, Voice};
use crate::paths::{join_path, joined};
use crate::pdf::extension_of;
use crate::text::{
    digit_char, ascii_lower, ascii_lowercase, chars_eq_str, chars_of, decimal, push_decimal_padded, push_str,
    string_of, zero_pad,
};

verus! {

/// Everything a render needs to know besides the adapters.
#[derive(Debug)]
pub struct RenderOptions {
    pub input: String,
    pub output: String,
    pub cache_dir: String,
    pub voice: Voice,
    pub transition: Transition,
    pub notes_model: String,
    pub gemini_concurrency: usize,
    pub encode_concurrency: usize,
    pub encode: EncodeOptions,
    pub pdf_dpi: u32,
    pub pdf_jpeg_quality: u32,
    pub keep_cache: bool,
    pub regenerate_notes: bool,
    pub regenerate_audio: bool,
    pub replacements: Vec<SlideReplacement>,
    pub removals: Vec<usize>,
}

// ─── Cache layout ────────────────────────────────────────────────────

/// The sub-directories of the cache.
pub struct CacheLayout {
    pub images_dir: String,
    pub notes_dir: String,
    pub audio_dir: String,
    pub segments_dir: String,
    pub replacements_dir: String,
}

/// The cache sub-directories: `images/`, `notes/`, `audio/`, `segments/`,
/// and `replacements/` for the first pages of replacement PDFs.
pub fn cache_layout(cache_dir: &str) -> (l: CacheLayout)
    ensures
        l.images_dir@ == joined(cache_dir@, "images"@),
        l.notes_dir@ == joined(cache_dir@, "notes"@),
        l.audio_dir@ == joined(cache_dir@, "audio"@),
        l.segments_dir@ == joined(cache_dir@, "segments"@),
        l.replacements_dir@ == joined(cache_dir@, "replacements"@),
{
    CacheLayout {
        images_dir: join_path(cache_dir, "images"),
        notes_dir: join_path(cache_dir, "notes"),
        audio_dir: join_path(cache_dir, "audio"),
        segments_dir: join_path(cache_dir, "segments"),
        replacements_dir: join_path(cache_dir, "replacements"),
    }
}

/// The cache directories removed once the video is written: without
/// `keep_cache`, the segments, which are heavy intermediates; the images,
/// notes and audio are always kept.
pub fn dirs_to_clear(layout: &CacheLayout, keep_cache: bool) -> (d: Vec<String>)
    ensures
        keep_cache ==> d@.len() == 0,
        !keep_cache ==> d@.len() == 1 && d@[0]@ == layout.segments_dir@,
{
    let mut d: Vec<String> = Vec::new();
    if !keep_cache {
        d.push(string_of(&chars_of(layout.segments_dir.as_str())));
    }
    d
}

/// `prefix`, the index on at least four digits (`{i:04}`), then `suffix`.
pub open spec fn numbered_name(prefix: Seq<char>, i: nat, suffix: Seq<char>) -> Seq<char> {
    prefix + zero_pad(decimal(i), 4) + suffix
}

fn numbered(prefix: &str, i: usize, suffix: &str) -> (s: String)
    ensures
        s@ == numbered_name(prefix@, i as nat, suffix@),
{
    let mut out: Vec<char> = Vec::new();
    push_str(&mut out, prefix);
    push_decimal_padded(&mut out, i as u128, 4);
    push_str(&mut out, suffix);
    assert(out@ =~= numbered_name(prefix@, i as nat, suffix@));
    string_of(&out)
}

/// The cached notes of slide `i`: `slide_0000.txt`, …
pub fn notes_file_name(i: usize) -> (s: String)
    ensures
        s@ == numbered_name("slide_"@, i as nat, ".txt"@),
{
    numbered("slide_", i, ".txt")
}

/// The cached narration of slide `i` as WAV: `slide_0000.wav`, …
pub fn wav_file_name(i: usize) -> (s: String)
    ensures
        s@ == numbered_name("slide_"@, i as nat, ".wav"@),
{
    numbered("slide_", i, ".wav")
}

/// The cached narration of slide `i` as raw PCM: `slide_0000.pcm`, …
pub fn pcm_file_name(i: usize) -> (s: String)
    ensures
        s@ == numbered_name("slide_"@, i as nat, ".pcm"@),
{
    numbered("slide_", i, ".pcm")
}

/// Where the first page of the PDF replacing slide `n` is rendered:
/// `replacement_0001` (to which `pdftoppm` adds `.jpg`).
pub fn replacement_page_prefix(n: usize) -> (s: String)
    ensures
        s@ == numbered_name("replacement_"@, n as nat, ""@),
{
    numbered("replacement_", n, "")
}

/// The encoded segment of slide `i`: `segment_0000.mp4`, …
pub fn segment_file_name(i: usize) -> (s: String)
    ensures
        s@ == numbered_name("segment_"@, i as nat, ".mp4"@),
{
    numbered("segment_", i, ".mp4")
}

/// The number written by the decimal digits `s`.
pub open spec fn digits_value(s: Seq<char>) -> int
    decreases s.len(),
{
    if s.len() == 0 {
        0
    } else {
        digits_value(s.drop_last()) * 10 + (s.last() as int - 48)
    }
}

pub(crate) proof fn lemma_decimal_value(n: nat)
    ensures
        digits_value(decimal(n)) == n,
        forall|k: int| 0 <= k < decimal(n).len() ==> 48 <= #[trigger] decimal(n)[k] as int <= 57,
    decreases n,
{
    let d = (n % 10) as int;
    assert(digit_char(d) as int == 48 + d);
    if n >= 10 {
        lemma_decimal_value(n / 10);
        assert(decimal(n).drop_last() =~= decimal(n / 10));
        assert(decimal(n).last() == digit_char(d));
        assert(n == (n / 10) * 10 + d);
        assert forall|k: int| 0 <= k < decimal(n).len() implies 48 <= #[trigger] decimal(n)[k] as int
            <= 57 by {
            if k < decimal(n).len() - 1 {
                assert(decimal(n)[k] == decimal(n / 10)[k]);
            }
        }
    } else {
        assert(decimal(n).drop_last() =~= Seq::<char>::empty());
        assert(digits_value(Seq::<char>::empty()) == 0);
        assert(decimal(n).last() == digit_char(d));
    }
}

pub(crate) proof fn lemma_leading_zeros_value(z: Seq<char>, s: Seq<char>)
    requires
        forall|k: int| 0 <= k < z.len() ==> z[k] == '0',
    ensures
        digits_value(z + s) == digits_value(s),
    decreases z.len() + s.len(),
{
    if s.len() == 0 {
        assert(z + s =~= z);
        if z.len() > 0 {
            assert(z.drop_last() + s =~= z.drop_last());
            lemma_leading_zeros_value(z.drop_last(), s);
        }
    } else {
        assert((z + s).drop_last() =~= z + s.drop_last());
        lemma_leading_zeros_value(z, s.drop_last());
    }
}

pub(crate) proof fn lemma_padded_value(n: nat, w: nat)
    ensures
        digits_value(zero_pad(decimal(n), w)) == n,
{
    lemma_decimal_value(n);
    if decimal(n).len() < w {
        let z = Seq::new((w - decimal(n).len()) as nat, |k: int| '0');
        lemma_leading_zeros_value(z, decimal(n));
    }
}

/// Distinct slides never share a cache or segment file: names built from
/// the same prefix and suffix with different indices differ.
pub proof fn lemma_numbered_names_distinct(prefix: Seq<char>, suffix: Seq<char>, i: nat, j: nat)
    requires
        i != j,
    ensures
        numbered_name(prefix, i, suffix) != numbered_name(prefix, j, suffix),
{
    let a = zero_pad(decimal(i), 4);
    let b = zero_pad(decimal(j), 4);
    if numbered_name(prefix, i, suffix) == numbered_name(prefix, j, suffix) {
        let x = numbered_name(prefix, i, suffix);
        assert(x == prefix + a + suffix);
        assert(x == prefix + b + suffix);
        assert(x.len() == prefix.len() + a.len() + suffix.len());
        assert(x.len() == prefix.len() + b.len() + suffix.len());
        assert(x.subrange(prefix.len() as int, (prefix.len() + a.len()) as int) =~= a);
        assert(x.subrange(prefix.len() as int, (prefix.len() + b.len()) as int) =~= b);
        lemma_padded_value(i, 4);
        lemma_padded_value(j, 4);
    }
}

// ─── Decisions ───────────────────────────────────────────────────────

/// Where the slides come from.
#[derive(Debug, Clone, Copy, PartialEq, Eq, Structural)]
pub enum SlideSource {
    /// A directory of slide images.
    Directory,
    /// A PDF to rasterise (or whose cached rasterisation to reuse).
    Pdf,
    /// A file that is neither a directory nor a PDF.
    Unsupported,
    /// Nothing at the input path.
    Missing,
}

/// A directory is read for images; a file is a PDF when its extension
/// is `pdf` in any ASCII case, and refused otherwise.
pub open spec fn slide_source_of(is_dir: bool, is_file: bool, file_name: Seq<char>) -> SlideSource {
    if is_dir {
        SlideSource::Directory
    } else if is_file {
        match extension_of(file_name) {
            Some(e) => if ascii_lower(e) == "pdf"@ {
                SlideSource::Pdf
            } else {
                SlideSource::Unsupported
            },
            None => SlideSource::Unsupported,
        }
    } else {
        SlideSource::Missing
    }
}

/// Classifies the input from what the file system says of it and its
/// file name.
pub fn slide_source(is_dir: bool, is_file: bool, file_name: &str) -> (s: SlideSource)
    ensures
        s == slide_source_of(is_dir, is_file, file_name@),
{
    if is_dir {
        return SlideSource::Directory;
    }
    if !is_file {
        return SlideSource::Missing;
    }
    let name = chars_of(file_name);
    match crate::pdf::file_extension(&name) {
        Some(e) => {
            let es = string_of(&e);
            let l = ascii_lowercase(es.as_str());
            if chars_eq_str(&l, "pdf") {
                SlideSource::Pdf
            } else {
                SlideSource::Unsupported
            }
        },
        None => SlideSource::Unsupported,
    }
}

/// The number of tasks run at once for a requested concurrency: at least one.
pub fn permits(concurrency: usize) -> (n: usize)
    ensures
        n == if concurrency < 1 {
            1
        } else {
            concurrency
        },
{
    if concurrency < 1 {
        1
    } else {
        concurrency
    }
}

/// Cached notes are reused unless regeneration was asked for.
pub fn reuse_cached_notes(regenerate: bool, cached_notes_readable: bool) -> (r: bool)
    ensures
        r == (!regenerate && cached_notes_readable),
{
    !regenerate && cached_notes_readable
}

/// Cached narration is reused unless regeneration was asked for, when
/// its raw PCM can be read and its WAV holds more than a header.
pub open spec fn audio_reusable(regenerate: bool, wav_len: Option<int>, pcm_readable: bool) -> bool {
    !regenerate && pcm_readable && wav_len is Some && wav_len->0 > WAV_HEADER_LEN
}

/// Whether the cached narration of a slide is reused.
pub fn reuse_cached_audio(regenerate: bool, wav_len: Option<u64>, pcm_readable: bool) -> (r: bool)
    ensures
        r == audio_reusable(
            regenerate,
            match wav_len {
                Some(l) => Some(l as int),
                None => None,
            },
            pcm_readable,
        ),
{
    match wav_len {
        Some(len) => !regenerate && pcm_readable && len > WAV_HEADER_LEN as u64,
        None => false,
    }
}

/// The WAV that `pcm_to_wav` writes for a narration is reused by a later
/// run exactly when the narration is not empty: an empty answer from
/// the TTS is asked for again.
pub proof fn lemma_written_audio_reused(pcm: Seq<u8>)
    ensures
        audio_reusable(false, Some(wav_file(pcm).len() as int), true) <==> pcm.len() > 0,
{
    assert(wav_header(pcm.len() as int).len() == 44);
}

/// The narration of one slide: its WAV file and its duration.
pub struct AudioOutput {
    pub path: String,
    pub duration_ms: u64,
}

/// The segment of slide `i`.
pub open spec fn planned_segment(
    images: Seq<String>,
    audio: Seq<AudioOutput>,
    segments_dir: Seq<char>,
    transition: Transition,
    i: int,
    s: SegmentInput,
) -> bool {
    &&& s.index == i
    &&& s.image_path@ == images[i]@
    &&& s.audio_path@ == audio[i].path@
    &&& s.output_path@ == joined(segments_dir, numbered_name("segment_"@, i as nat, ".mp4"@))
    &&& s.duration_ms == audio[i].duration_ms
    &&& s.transition == transition
}

/// One segment per slide, in slide order: the slide's image and
/// narration, its file in `segments_dir`, its duration and the chosen
/// transition.
pub fn segment_plan(
    images: &Vec<String>,
    audio: &Vec<AudioOutput>,
    segments_dir: &str,
    transition: Transition,
) -> (segs: Vec<SegmentInput>)
    requires
        images@.len() == audio@.len(),
    ensures
        segs@.len() == images@.len(),
        forall|i: int|
            0 <= i < segs@.len() ==> planned_segment(
                images@,
                audio@,
                segments_dir@,
                transition,
                i,
                #[trigger] segs@[i],
            ),
{
    let mut segs: Vec<SegmentInput> = Vec::new();
    let mut i: usize = 0;
    while i < images.len()
        invariant
            images@.len() == audio@.len(),
            i <= images@.len(),
            segs@.len() == i,
            forall|k: int|
                0 <= k < i ==> planned_segment(
                    images@,
                    audio@,
                    segments_dir@,
                    transition,
                    k,
                    #[trigger] segs@[k],
                ),
        decreases images@.len() - i,
    {
        let name = segment_file_name(i);
        let seg = SegmentInput {
            index: i,
            image_path: images[i].clone(),
            audio_path: audio[i].path.clone(),
            output_path: join_path(segments_dir, name.as_str()),
            duration_ms: audio[i].duration_ms,
            transition,
        };
        segs.push(seg);
        i = i + 1;
    }
    segs
}

} // verus!
