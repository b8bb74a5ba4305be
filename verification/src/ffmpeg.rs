//! FFmpeg command lines for the video export: one MP4 segment per
//! slide+narration pair, then either a `concat` copy of the segments
//! (when no slide has a transition) or an `xfade` filter graph that keeps
//! the full narration of every slide.
//!
//! Durations are whole milliseconds; FFmpeg receives them as seconds with
//! three decimals.

use vstd::prelude::*;
use crate::models::{Transition, xfade_name_of};
use crate::pipeline::{digits_value, lemma_decimal_value, lemma_padded_value};
use crate::text::{
    chars_of, join, join_strings, decimal, push_chars, push_decimal, push_decimal_padded, push_str, replace_all,
    replace_chars, string_of, views, zero_pad,
};

verus! {

/// Output shape and x264 preset of the encoded segments.
#[derive(Debug, Clone, Copy)]
pub struct EncodeOptions {
    pub width: u32,
    pub height: u32,
    pub fps: u32,
    pub preset: &'static str,
}

impl Default for EncodeOptions {
    fn default() -> (o: Self)
        ensures
            o.width == 1920,
            o.height == 1080,
            o.fps == 30,
            o.preset@ == "veryfast"@,
    {
        EncodeOptions { width: 1920, height: 1080, fps: 30, preset: "veryfast" }
    }
}

/// One slide of the video: its image, its narration, where its segment
/// is written, how long it lasts and how it is entered.
#[derive(Debug)]
pub struct SegmentInput {
    pub index: usize,
    pub image_path: String,
    pub audio_path: String,
    pub output_path: String,
    pub duration_ms: u64,
    pub transition: Transition,
}

/// `ms` milliseconds written as seconds with three decimals (`{:.3}`).
pub open spec fn seconds_text(ms: nat) -> Seq<char> {
    decimal(ms / 1000) + "."@ + zero_pad(decimal(ms % 1000), 3)
}

fn push_seconds(out: &mut Vec<char>, ms: u128)
    ensures
        final(out)@ == old(out)@ + seconds_text(ms as nat),
{
    push_decimal(out, ms / 1000);
    push_str(out, ".");
    push_decimal_padded(out, ms % 1000, 3);
    assert(final(out)@ =~= old(out)@ + seconds_text(ms as nat));
}

/// Writes `ms` milliseconds as seconds with three decimals.
pub fn format_seconds(ms: u64) -> (s: String)
    ensures
        s@ == seconds_text(ms as nat),
{
    let mut out: Vec<char> = Vec::new();
    push_seconds(&mut out, ms as u128);
    assert(out@ =~= seconds_text(ms as nat));
    string_of(&out)
}

/// The filter that letterboxes a slide into `width`×`height`.
pub open spec fn video_filter_text(width: nat, height: nat) -> Seq<char> {
    "scale="@ + decimal(width) + ":"@ + decimal(height) + ":force_original_aspect_ratio=decrease,pad="@
        + decimal(width) + ":"@ + decimal(height) + ":(ow-iw)/2:(oh-ih)/2,format=yuv420p"@
}

/// The `-vf` filter of a segment: scale to fit, pad to the frame, yuv420p.
pub fn video_filter(width: u32, height: u32) -> (s: String)
    ensures
        s@ == video_filter_text(width as nat, height as nat),
{
    let mut out: Vec<char> = Vec::new();
    push_str(&mut out, "scale=");
    push_decimal(&mut out, width as u128);
    push_str(&mut out, ":");
    push_decimal(&mut out, height as u128);
    push_str(&mut out, ":force_original_aspect_ratio=decrease,pad=");
    push_decimal(&mut out, width as u128);
    push_str(&mut out, ":");
    push_decimal(&mut out, height as u128);
    push_str(&mut out, ":(ow-iw)/2:(oh-ih)/2,format=yuv420p");
    assert(out@ =~= video_filter_text(width as nat, height as nat));
    string_of(&out)
}

/// The FFmpeg arguments that encode one segment: the still image looped
/// for the narration's duration, scaled and padded, at the chosen frame
/// rate, in H.264 with the chosen preset and AAC audio.
pub open spec fn encode_segment_argv(opts: EncodeOptions, seg: SegmentInput) -> Seq<Seq<char>> {
    seq![
        "-y"@,
        "-loop"@,
        "1"@,
        "-i"@,
        seg.image_path@,
        "-i"@,
        seg.audio_path@,
        "-t"@,
        seconds_text(seg.duration_ms as nat),
        "-vf"@,
        video_filter_text(opts.width as nat, opts.height as nat),
        "-r"@,
        decimal(opts.fps as nat),
        "-c:v"@,
        "libx264"@,
        "-preset"@,
        opts.preset@,
        "-c:a"@,
        "aac"@,
        "-shortest"@,
        seg.output_path@,
    ]
}

/// Every segment is encoded at the frame rate asked for: the argument
/// after `-r` is made of decimal digits that read back as `opts.fps`,
/// whatever the segment.
pub proof fn lemma_segment_frame_rate(opts: EncodeOptions, seg: SegmentInput)
    ensures
        encode_segment_argv(opts, seg)[11] == "-r"@,
        digits_value(encode_segment_argv(opts, seg)[12]) == opts.fps,
        forall|k: int|
            0 <= k < encode_segment_argv(opts, seg)[12].len() ==> 48
                <= #[trigger] encode_segment_argv(opts, seg)[12][k] as int <= 57,
{
    lemma_decimal_value(opts.fps as nat);
}

/// Whether `t` is a non-empty run of decimal digits whose value is `n`.
pub open spec fn reads_as(t: Seq<char>, n: int) -> bool {
    &&& t.len() > 0
    &&& forall|k: int| 0 <= k < t.len() ==> 48 <= #[trigger] t[k] as int <= 57
    &&& digits_value(t) == n
}

/// Whether `t` writes `ms` milliseconds as seconds with three decimals:
/// the whole seconds, a `.`, then exactly three digits of milliseconds.
pub open spec fn shows_seconds(t: Seq<char>, ms: int) -> bool {
    &&& t.len() >= 5
    &&& t[t.len() - 4] == '.'
    &&& reads_as(t.take(t.len() - 4), ms / 1000)
    &&& reads_as(t.skip(t.len() - 3), ms % 1000)
}

/// Whether the video filter `t` scales to fit and pads to a frame of
/// `w` by `h`.
pub open spec fn shows_frame_size(t: Seq<char>, w: int, h: int) -> bool {
    exists|ws: Seq<char>, hs: Seq<char>|
        #![trigger reads_as(ws, w), reads_as(hs, h)]
        reads_as(ws, w) && reads_as(hs, h) && t == "scale="@ + ws + ":"@ + hs
            + ":force_original_aspect_ratio=decrease,pad="@ + ws + ":"@ + hs
            + ":(ow-iw)/2:(oh-ih)/2,format=yuv420p"@
}

proof fn lemma_decimal_reads_as(n: nat)
    ensures
        reads_as(decimal(n), n as int),
{
    lemma_decimal_value(n);
    crate::text::lemma_decimal_len(n);
}

/// Milliseconds are written as seconds with three decimals that read
/// back as the same milliseconds.
pub proof fn lemma_seconds_text_reads_back(ms: nat)
    ensures
        shows_seconds(seconds_text(ms), ms as int),
{
    let d = decimal(ms / 1000);
    let f = zero_pad(decimal(ms % 1000), 3);
    lemma_decimal_reads_as(ms / 1000);
    lemma_decimal_reads_as(ms % 1000);
    crate::text::lemma_decimal_len(ms % 1000);
    lemma_padded_value(ms % 1000, 3);
    reveal_strlit(".");
    let t = seconds_text(ms);
    assert(f.len() == 3);
    assert(t =~= d + "."@ + f);
    assert(t.take(t.len() - 4) =~= d);
    assert(t.skip(t.len() - 3) =~= f);
    assert forall|k: int| 0 <= k < f.len() implies 48 <= #[trigger] f[k] as int <= 57 by {
        let e = decimal(ms % 1000);
        if e.len() < 3 {
            let z = Seq::new((3 - e.len()) as nat, |j: int| '0');
            assert(f == z + e);
            if k >= z.len() {
                assert(f[k] == e[k - z.len()]);
            }
        }
    }
}

/// The video filter fits each slide to the frame size asked for: both
/// the scale and the pad read back as `width` by `height`.
pub proof fn lemma_video_filter_size(width: nat, height: nat)
    ensures
        shows_frame_size(video_filter_text(width, height), width as int, height as int),
{
    lemma_decimal_reads_as(width);
    lemma_decimal_reads_as(height);
    assert(reads_as(decimal(width), width as int) && reads_as(decimal(height), height as int));
}

/// A segment shows its own slide image with its own narration, for that
/// narration's duration, at the frame size and preset asked for, and is
/// written to its own output path.
pub proof fn lemma_segment_inputs_and_timing(opts: EncodeOptions, seg: SegmentInput)
    ensures
        ({
            let a = encode_segment_argv(opts, seg);
            &&& a.len() == 21
            &&& a[3] == "-i"@ && a[4] == seg.image_path@
            &&& a[5] == "-i"@ && a[6] == seg.audio_path@
            &&& a[7] == "-t"@ && shows_seconds(a[8], seg.duration_ms as int)
            &&& a[9] == "-vf"@ && shows_frame_size(a[10], opts.width as int, opts.height as int)
            &&& a[15] == "-preset"@ && a[16] == opts.preset@
            &&& a[20] == seg.output_path@
        }),
{
    lemma_seconds_text_reads_back(seg.duration_ms as nat);
    lemma_video_filter_size(opts.width as nat, opts.height as nat);
}

fn lit(s: &str) -> (r: String)
    ensures
        r@ == s@,
{
    let cs = chars_of(s);
    string_of(&cs)
}

fn decimal_string(n: u128) -> (r: String)
    ensures
        r@ == decimal(n as nat),
{
    let mut out: Vec<char> = Vec::new();
    push_decimal(&mut out, n);
    assert(out@ =~= decimal(n as nat));
    string_of(&out)
}

/// The FFmpeg arguments that encode `seg` into its MP4 segment.
pub fn encode_segment_args(opts: &EncodeOptions, seg: &SegmentInput) -> (args: Vec<String>)
    ensures
        views(args@) == encode_segment_argv(*opts, *seg),
{
    let mut args: Vec<String> = Vec::new();
    args.push(lit("-y"));
    args.push(lit("-loop"));
    args.push(lit("1"));
    args.push(lit("-i"));
    args.push(seg.image_path.clone());
    args.push(lit("-i"));
    args.push(seg.audio_path.clone());
    args.push(lit("-t"));
    args.push(format_seconds(seg.duration_ms));
    args.push(lit("-vf"));
    args.push(video_filter(opts.width, opts.height));
    args.push(lit("-r"));
    args.push(decimal_string(opts.fps as u128));
    args.push(lit("-c:v"));
    args.push(lit("libx264"));
    args.push(lit("-preset"));
    args.push(lit(opts.preset));
    args.push(lit("-c:a"));
    args.push(lit("aac"));
    args.push(lit("-shortest"));
    args.push(seg.output_path.clone());
    assert(views(args@) =~= encode_segment_argv(*opts, *seg));
    args
}

/// Where an `ffmpeg` binary is looked for, in order: the `PATH`, then
/// the Homebrew, system and MacPorts locations.
pub open spec fn ffmpeg_candidate_paths() -> Seq<Seq<char>> {
    seq![
        "ffmpeg"@,
        "/opt/homebrew/bin/ffmpeg"@,
        "/usr/local/bin/ffmpeg"@,
        "/usr/bin/ffmpeg"@,
        "/opt/local/bin/ffmpeg"@,
    ]
}

/// The `ffmpeg` locations to probe, in order.
pub fn ffmpeg_candidates() -> (c: Vec<&'static str>)
    ensures
        c@.map_values(|s: &'static str| s@) == ffmpeg_candidate_paths(),
{
    let c = vec![
        "ffmpeg",
        "/opt/homebrew/bin/ffmpeg",
        "/usr/local/bin/ffmpeg",
        "/usr/bin/ffmpeg",
        "/opt/local/bin/ffmpeg",
    ];
    assert(c@.map_values(|s: &'static str| s@) =~= ffmpeg_candidate_paths());
    c
}

/// The first candidate that answered, given whether each probed one did:
/// candidates are tried in order and the first that works is used.
pub fn first_working(ok: &Vec<bool>) -> (r: Option<usize>)
    ensures
        r matches Some(i) ==> i < ok@.len() && ok@[i as int] && forall|j: int|
            0 <= j < i ==> !ok@[j],
        r is None <==> forall|j: int| 0 <= j < ok@.len() ==> !ok@[j],
{
    let mut i: usize = 0;
    while i < ok.len()
        invariant
            i <= ok@.len(),
            forall|j: int| 0 <= j < i ==> !ok@[j],
        decreases ok@.len() - i,
    {
        if ok[i] {
            return Some(i);
        }
        i = i + 1;
    }
    None
}

// ─── Assembly ────────────────────────────────────────────────────────

/// How the encoded segments are joined into the final video.
#[derive(Debug, Clone, Copy, PartialEq, Eq, Structural)]
pub enum AssemblyMode {
    /// Stream-copy the segments one after the other.
    ConcatCopy,
    /// Re-encode through an `xfade` filter graph.
    Crossfade,
}

/// Whether some slide after the first is entered with a transition.
pub open spec fn has_transitions(segs: Seq<SegmentInput>) -> bool {
    exists|i: int| 1 <= i < segs.len() && segs[i].transition != Transition::Cut
}

/// Concat-copy when there are fewer than two segments or no slide after
/// the first has a transition; cross-fade otherwise.
pub open spec fn assembly_mode_of(segs: Seq<SegmentInput>) -> AssemblyMode {
    if segs.len() < 2 || !has_transitions(segs) {
        AssemblyMode::ConcatCopy
    } else {
        AssemblyMode::Crossfade
    }
}

/// Chooses how to join `segments`.
pub fn assembly_mode(segments: &Vec<SegmentInput>) -> (m: AssemblyMode)
    ensures
        m == assembly_mode_of(segments@),
{
    if segments.len() < 2 {
        return AssemblyMode::ConcatCopy;
    }
    let mut i: usize = 1;
    while i < segments.len()
        invariant
            1 <= i <= segments@.len(),
            forall|k: int| 1 <= k < i ==> segments@[k].transition == Transition::Cut,
        decreases segments@.len() - i,
    {
        if segments[i].transition != Transition::Cut {
            assert(has_transitions(segments@));
            return AssemblyMode::Crossfade;
        }
        i = i + 1;
    }
    AssemblyMode::ConcatCopy
}

/// A path quoted for an FFmpeg concat list: each `'` closes the quote,
/// is written escaped, and reopens it.
pub open spec fn concat_quoted(path: Seq<char>) -> Seq<char> {
    replace_all(path, "'"@, "'\\''"@)
}

/// The concat-demuxer list line of one segment.
pub open spec fn concat_line(path: Seq<char>) -> Seq<char> {
    "file '"@ + concat_quoted(path) + "'\n"@
}

/// The concat-demuxer list of `segs`, one line per segment in order.
pub open spec fn concat_list_text(segs: Seq<SegmentInput>) -> Seq<char>
    decreases segs.len(),
{
    if segs.len() == 0 {
        Seq::empty()
    } else {
        concat_list_text(segs.drop_last()) + concat_line(segs.last().output_path@)
    }
}

/// The body of the `segments.txt` list that the concat demuxer reads.
pub fn concat_list(segments: &Vec<SegmentInput>) -> (body: String)
    ensures
        body@ == concat_list_text(segments@),
{
    let quote = chars_of("'");
    let escaped = chars_of("'\\''");
    proof {
        reveal_strlit("'");
    }
    let mut out: Vec<char> = Vec::new();
    let mut i: usize = 0;
    while i < segments.len()
        invariant
            i <= segments@.len(),
            quote@ == "'"@,
            quote@.len() > 0,
            escaped@ == "'\\''"@,
            out@ == concat_list_text(segments@.take(i as int)),
        decreases segments@.len() - i,
    {
        let path = chars_of(segments[i].output_path.as_str());
        let q = replace_chars(&path, &quote, &escaped);
        push_str(&mut out, "file '");
        push_chars(&mut out, &q);
        push_str(&mut out, "'\n");
        assert(segments@.take(i + 1).drop_last() =~= segments@.take(i as int));
        i = i + 1;
    }
    assert(segments@.take(segments@.len() as int) =~= segments@);
    string_of(&out)
}

/// The FFmpeg arguments that stream-copy the segments listed in
/// `list_path` into `output_path`.
pub open spec fn concat_argv(list_path: Seq<char>, output_path: Seq<char>) -> Seq<Seq<char>> {
    seq![
        "-y"@,
        "-f"@,
        "concat"@,
        "-safe"@,
        "0"@,
        "-i"@,
        list_path,
        "-c"@,
        "copy"@,
        output_path,
    ]
}

/// The FFmpeg arguments of a concat-copy assembly.
pub fn concat_args(list_path: &str, output_path: &str) -> (args: Vec<String>)
    ensures
        views(args@) == concat_argv(list_path@, output_path@),
{
    let mut args: Vec<String> = Vec::new();
    args.push(lit("-y"));
    args.push(lit("-f"));
    args.push(lit("concat"));
    args.push(lit("-safe"));
    args.push(lit("0"));
    args.push(lit("-i"));
    args.push(lit(list_path));
    args.push(lit("-c"));
    args.push(lit("copy"));
    args.push(lit(output_path));
    assert(views(args@) =~= concat_argv(list_path@, output_path@));
    args
}

// ─── Cross-fade filter graph ─────────────────────────────────────────

/// The text of `i` in decimal.
pub open spec fn dec(i: int) -> Seq<char> {
    decimal(i as nat)
}

/// The filter that resets the timestamps of input `i` and names its
/// streams `v{i}` and `a{i}`.
pub open spec fn input_filter(i: int) -> Seq<char> {
    "["@ + dec(i) + ":v]settb=AVTB,setpts=PTS-STARTPTS,setsar=1[v"@ + dec(i) + "];["@ + dec(i)
        + ":a]asetpts=PTS-STARTPTS[a"@ + dec(i) + "]"@
}

/// The label of the video assembled from slides `0..=i`.
pub open spec fn video_label(i: int) -> Seq<char> {
    if i == 0 {
        "v0"@
    } else {
        "vx"@ + dec(i)
    }
}

/// The label of the audio assembled from slides `0..=i`.
pub open spec fn audio_label(i: int) -> Seq<char> {
    if i == 0 {
        "a0"@
    } else {
        "ax"@ + dec(i)
    }
}

/// Milliseconds of narration before slide `i`.
pub open spec fn elapsed_before(segs: Seq<SegmentInput>, i: int) -> int
    decreases i,
{
    if i <= 0 {
        0
    } else {
        elapsed_before(segs, i - 1) + segs[i - 1].duration_ms
    }
}

/// Where the transition into slide `i` starts, in milliseconds: the
/// narration before it, but at least 10 ms.
pub open spec fn offset_ms(segs: Seq<SegmentInput>, i: int) -> int {
    if elapsed_before(segs, i) < 10 {
        10
    } else {
        elapsed_before(segs, i)
    }
}

/// The cross-fade length, as FFmpeg reads it.
pub open spec fn xfade_duration_text() -> Seq<char> {
    "0.75"@
}

/// The filters that append slide `i` to the result of slides `0..i`.
/// Without a transition the video and audio are concatenated; with one,
/// the video so far is held for the cross-fade length, cross-faded into
/// slide `i` at the offset, and the audio is concatenated so that no
/// narration is lost.
pub open spec fn step_filters(segs: Seq<SegmentInput>, i: int) -> Seq<Seq<char>> {
    let vl = video_label(i - 1);
    let al = audio_label(i - 1);
    let t = segs[i].transition;
    if t == Transition::Cut {
        seq![
            "["@ + vl + "]["@ + al + "][v"@ + dec(i) + "][a"@ + dec(i) + "]concat=n=2:v=1:a=1["@
                + video_label(i) + "]["@ + audio_label(i) + "]"@,
        ]
    } else {
        seq![
            "["@ + vl + "]tpad=stop_mode=clone:stop_duration="@ + xfade_duration_text() + "[vp"@
                + dec(i) + "]"@,
            "[vp"@ + dec(i) + "][v"@ + dec(i) + "]xfade=transition="@ + xfade_name_of(t)
                + ":duration="@ + xfade_duration_text() + ":offset="@ + seconds_text(
                offset_ms(segs, i) as nat,
            ) + "["@ + video_label(i) + "]"@,
            "["@ + al + "][a"@ + dec(i) + "]concat=n=2:v=0:a=1["@ + audio_label(i) + "]"@,
        ]
    }
}

/// The filters that append slides `1..upto`, in order.
pub open spec fn transition_filters(segs: Seq<SegmentInput>, upto: int) -> Seq<Seq<char>>
    decreases upto,
{
    if upto <= 1 {
        Seq::empty()
    } else {
        transition_filters(segs, upto - 1) + step_filters(segs, upto - 1)
    }
}

/// The input filters of slides `0..n`.
pub open spec fn input_filters(n: int) -> Seq<Seq<char>>
    decreases n,
{
    if n <= 0 {
        Seq::empty()
    } else {
        input_filters(n - 1).push(input_filter(n - 1))
    }
}

/// All the filters of the cross-fade graph of `segs`.
pub open spec fn xfade_filters(segs: Seq<SegmentInput>) -> Seq<Seq<char>> {
    input_filters(segs.len() as int) + transition_filters(segs, segs.len() as int)
}

/// The filters of a cross-fade assembly and the labels of the final
/// video and audio streams.
pub struct XfadeGraph {
    pub filters: Vec<String>,
    pub video_label: String,
    pub audio_label: String,
}

proof fn lemma_elapsed_bound(segs: Seq<SegmentInput>, i: int)
    requires
        0 <= i <= segs.len(),
    ensures
        0 <= elapsed_before(segs, i) <= i * 0x1_0000_0000_0000_0000,
    decreases i,
{
    if i > 0 {
        lemma_elapsed_bound(segs, i - 1);
    }
}

fn push_label(out: &mut Vec<char>, prefix: &str, i: usize)
    ensures
        final(out)@ == old(out)@ + prefix@ + dec(i as int),
{
    push_str(out, prefix);
    push_decimal(out, i as u128);
}

fn label_chars(video: bool, i: usize) -> (l: Vec<char>)
    ensures
        l@ == (if video { video_label(i as int) } else { audio_label(i as int) }),
{
    let mut l: Vec<char> = Vec::new();
    if i == 0 {
        if video {
            push_str(&mut l, "v0");
        } else {
            push_str(&mut l, "a0");
        }
    } else if video {
        push_label(&mut l, "vx", i);
    } else {
        push_label(&mut l, "ax", i);
    }
    assert(l@ =~= (if video { video_label(i as int) } else { audio_label(i as int) }));
    l
}

/// Builds the cross-fade filter graph of `segments`.
pub fn xfade_filter_graph(segments: &Vec<SegmentInput>) -> (g: XfadeGraph)
    requires
        segments@.len() >= 1,
    ensures
        views(g.filters@) == xfade_filters(segments@),
        g.video_label@ == video_label(segments@.len() - 1),
        g.audio_label@ == audio_label(segments@.len() - 1),
{
    let n = segments.len();
    let mut filters: Vec<String> = Vec::new();
    let mut i: usize = 0;
    while i < n
        invariant
            n == segments@.len(),
            i <= n,
            views(filters@) == input_filters(i as int),
        decreases n - i,
    {
        let mut f: Vec<char> = Vec::new();
        push_label(&mut f, "[", i);
        push_label(&mut f, ":v]settb=AVTB,setpts=PTS-STARTPTS,setsar=1[v", i);
        push_label(&mut f, "];[", i);
        push_label(&mut f, ":a]asetpts=PTS-STARTPTS[a", i);
        push_str(&mut f, "]");
        assert(f@ =~= input_filter(i as int));
        filters.push(string_of(&f));
        assert(views(filters@) =~= input_filters(i + 1));
        i = i + 1;
    }
    let ghost inputs = views(filters@);
    let mut vl = label_chars(true, 0);
    let mut al = label_chars(false, 0);
    let mut elapsed: u128 = segments[0].duration_ms as u128;
    proof {
        reveal_with_fuel(elapsed_before, 2);
    }
    let mut i: usize = 1;
    while i < n
        invariant
            n == segments@.len(),
            1 <= i <= n,
            inputs == input_filters(n as int),
            views(filters@) == inputs + transition_filters(segments@, i as int),
            vl@ == video_label(i - 1),
            al@ == audio_label(i - 1),
            elapsed == elapsed_before(segments@, i as int),
        decreases n - i,
    {
        let ghost before = views(filters@);
        let t = segments[i].transition;
        let nvl = label_chars(true, i);
        let nal = label_chars(false, i);
        if t == Transition::Cut {
            let mut f: Vec<char> = Vec::new();
            push_str(&mut f, "[");
            push_chars(&mut f, &vl);
            push_str(&mut f, "][");
            push_chars(&mut f, &al);
            push_label(&mut f, "][v", i);
            push_label(&mut f, "][a", i);
            push_str(&mut f, "]concat=n=2:v=1:a=1[");
            push_chars(&mut f, &nvl);
            push_str(&mut f, "][");
            push_chars(&mut f, &nal);
            push_str(&mut f, "]");
            filters.push(string_of(&f));
            assert(views(filters@) =~= before + step_filters(segments@, i as int));
        } else {
            let offset: u128 = if elapsed < 10 {
                10
            } else {
                elapsed
            };
            let mut f1: Vec<char> = Vec::new();
            push_str(&mut f1, "[");
            push_chars(&mut f1, &vl);
            push_str(&mut f1, "]tpad=stop_mode=clone:stop_duration=");
            push_str(&mut f1, "0.75");
            push_label(&mut f1, "[vp", i);
            push_str(&mut f1, "]");
            let mut f2: Vec<char> = Vec::new();
            push_label(&mut f2, "[vp", i);
            push_label(&mut f2, "][v", i);
            push_str(&mut f2, "]xfade=transition=");
            push_str(&mut f2, t.xfade_name());
            push_str(&mut f2, ":duration=");
            push_str(&mut f2, "0.75");
            push_str(&mut f2, ":offset=");
            push_seconds(&mut f2, offset);
            push_str(&mut f2, "[");
            push_chars(&mut f2, &nvl);
            push_str(&mut f2, "]");
            let mut f3: Vec<char> = Vec::new();
            push_str(&mut f3, "[");
            push_chars(&mut f3, &al);
            push_label(&mut f3, "][a", i);
            push_str(&mut f3, "]concat=n=2:v=0:a=1[");
            push_chars(&mut f3, &nal);
            push_str(&mut f3, "]");
            filters.push(string_of(&f1));
            filters.push(string_of(&f2));
            filters.push(string_of(&f3));
            assert(views(filters@) =~= before + step_filters(segments@, i as int));
        }
        proof {
            lemma_elapsed_bound(segments@, i + 1);
        }
        elapsed = elapsed + segments[i].duration_ms as u128;
        vl = nvl;
        al = nal;
        i = i + 1;
    }
    XfadeGraph { filters, video_label: string_of(&vl), audio_label: string_of(&al) }
}

/// The number of slides among `1..upto` entered with a transition.
pub open spec fn transition_count(segs: Seq<SegmentInput>, upto: int) -> int
    decreases upto,
{
    if upto <= 1 {
        0
    } else {
        transition_count(segs, upto - 1) + if segs[upto - 1].transition == Transition::Cut {
            0int
        } else {
            1int
        }
    }
}

proof fn lemma_input_filters_len(n: int)
    requires
        n >= 0,
    ensures
        input_filters(n).len() == n,
    decreases n,
{
    if n > 0 {
        lemma_input_filters_len(n - 1);
    }
}

proof fn lemma_transition_filters_len(segs: Seq<SegmentInput>, upto: int)
    requires
        1 <= upto,
    ensures
        transition_filters(segs, upto).len() == (upto - 1) + 2 * transition_count(segs, upto),
        (forall|k: int| 1 <= k < upto ==> segs[k].transition == Transition::Cut) ==> transition_count(
            segs,
            upto,
        ) == 0,
    decreases upto,
{
    if upto > 1 {
        lemma_transition_filters_len(segs, upto - 1);
    }
}

/// The cross-fade graph has one input filter per slide, then one filter
/// for each later slide joined without a transition and three for each
/// one entered with a transition; when no later slide has a transition
/// there is no cross-fade in it at all, only concatenations.
pub proof fn lemma_xfade_filter_count(segs: Seq<SegmentInput>)
    requires
        segs.len() >= 1,
    ensures
        xfade_filters(segs).len() == 2 * segs.len() - 1 + 2 * transition_count(segs, segs.len() as int),
        !has_transitions(segs) ==> transition_count(segs, segs.len() as int) == 0,
{
    lemma_input_filters_len(segs.len() as int);
    lemma_transition_filters_len(segs, segs.len() as int);
}

proof fn lemma_elapsed_monotonic(segs: Seq<SegmentInput>, i: int, j: int)
    requires
        0 <= i <= j <= segs.len(),
    ensures
        elapsed_before(segs, i) <= elapsed_before(segs, j),
    decreases j - i,
{
    if i < j {
        lemma_elapsed_monotonic(segs, i, j - 1);
    }
}

/// Later transitions never start earlier: the offsets of the cross-fades
/// grow with the slide index.
pub proof fn lemma_offsets_monotonic(segs: Seq<SegmentInput>, i: int, j: int)
    requires
        0 <= i <= j <= segs.len(),
    ensures
        offset_ms(segs, i) <= offset_ms(segs, j),
{
    lemma_elapsed_monotonic(segs, i, j);
}

/// Each cross-fade starts once the narration of every slide before it has
/// played: there is no narration before the first slide, the narration
/// before slide `i + 1` is the narration before slide `i` followed by
/// slide `i`'s own, and the transition into slide `i` starts at the end of
/// that narration, or at 10 ms when it ends earlier.
pub proof fn lemma_offset_after_previous_slides(segs: Seq<SegmentInput>, i: int)
    requires
        0 <= i < segs.len(),
    ensures
        elapsed_before(segs, 0) == 0,
        elapsed_before(segs, i + 1) == elapsed_before(segs, i) + segs[i].duration_ms,
        offset_ms(segs, i) >= 10,
        offset_ms(segs, i) >= elapsed_before(segs, i),
        offset_ms(segs, i) == 10 || offset_ms(segs, i) == elapsed_before(segs, i),
{
}

/// The cross-fade into slide `i` uses the slide's own transition and
/// starts at `offset_ms(segs, i)`: the text after `:offset=` reads back as
/// that many milliseconds. A cut joins the slides without a cross-fade.
pub proof fn lemma_transition_step_offset(segs: Seq<SegmentInput>, i: int)
    requires
        1 <= i < segs.len(),
    ensures
        segs[i].transition == Transition::Cut ==> step_filters(segs, i).len() == 1,
        segs[i].transition != Transition::Cut ==> step_filters(segs, i).len() == 3 && exists|
            t: Seq<char>,
        |
            #![trigger shows_seconds(t, offset_ms(segs, i))]
            shows_seconds(t, offset_ms(segs, i)) && step_filters(segs, i)[1] == "[vp"@ + dec(i)
                + "][v"@ + dec(i) + "]xfade=transition="@ + xfade_name_of(segs[i].transition)
                + ":duration="@ + xfade_duration_text() + ":offset="@ + t + "["@ + video_label(i)
                + "]"@,
{
    lemma_seconds_text_reads_back(offset_ms(segs, i) as nat);
    assert(offset_ms(segs, i) >= 0) by {
        lemma_elapsed_monotonic(segs, 0, i);
    }
}

/// The narration before slide `i` depends only on the durations of the
/// slides before it.
pub proof fn lemma_elapsed_from_earlier_durations(a: Seq<SegmentInput>, b: Seq<SegmentInput>, i: int)
    requires
        0 <= i <= a.len(),
        i <= b.len(),
        forall|k: int| 0 <= k < i ==> #[trigger] a[k].duration_ms == b[k].duration_ms,
    ensures
        elapsed_before(a, i) == elapsed_before(b, i),
    decreases i,
{
    if i > 0 {
        lemma_elapsed_from_earlier_durations(a, b, i - 1);
    }
}

/// The `-i` arguments that read the segments of `segs`, in order.
pub open spec fn segment_inputs(segs: Seq<SegmentInput>) -> Seq<Seq<char>>
    decreases segs.len(),
{
    if segs.len() == 0 {
        Seq::empty()
    } else {
        segment_inputs(segs.drop_last()) + seq!["-i"@, segs.last().output_path@]
    }
}

/// The FFmpeg arguments of a cross-fade assembly of `segs` into
/// `output_path`: every segment as an input, the filter graph joined
/// with `;`, the final streams mapped, H.264 `veryfast` yuv420p video and
/// AAC audio.
pub open spec fn xfade_argv(segs: Seq<SegmentInput>, output_path: Seq<char>) -> Seq<Seq<char>> {
    seq!["-y"@] + segment_inputs(segs) + seq![
        "-filter_complex"@,
        join(xfade_filters(segs), ";"@),
        "-map"@,
        "["@ + video_label(segs.len() - 1) + "]"@,
        "-map"@,
        "["@ + audio_label(segs.len() - 1) + "]"@,
        "-c:v"@,
        "libx264"@,
        "-preset"@,
        "veryfast"@,
        "-pix_fmt"@,
        "yuv420p"@,
        "-c:a"@,
        "aac"@,
        output_path,
    ]
}

fn bracketed(label: &String) -> (r: String)
    ensures
        r@ == "["@ + label@ + "]"@,
{
    let mut out: Vec<char> = Vec::new();
    push_str(&mut out, "[");
    let l = chars_of(label.as_str());
    push_chars(&mut out, &l);
    push_str(&mut out, "]");
    assert(out@ =~= "["@ + label@ + "]"@);
    string_of(&out)
}

/// The FFmpeg arguments that cross-fade `segments` into `output_path`.
pub fn xfade_args(segments: &Vec<SegmentInput>, output_path: &str) -> (args: Vec<String>)
    requires
        segments@.len() >= 1,
    ensures
        views(args@) == xfade_argv(segments@, output_path@),
{
    let mut args: Vec<String> = Vec::new();
    args.push(lit("-y"));
    let mut i: usize = 0;
    while i < segments.len()
        invariant
            i <= segments@.len(),
            views(args@) == seq!["-y"@] + segment_inputs(segments@.take(i as int)),
        decreases segments@.len() - i,
    {
        let ghost old_views = views(args@);
        let p = segments[i].output_path.clone();
        assert(p@ == segments@[i as int].output_path@);
        args.push(lit("-i"));
        args.push(p);
        assert(views(args@) =~= old_views + seq!["-i"@, segments@[i as int].output_path@]);
        let ghost prefix = segments@.take(i + 1);
        assert(prefix.drop_last() =~= segments@.take(i as int));
        assert(prefix.last() == segments@[i as int]);
        assert(segment_inputs(prefix) == segment_inputs(segments@.take(i as int)) + seq![
            "-i"@,
            segments@[i as int].output_path@,
        ]);
        i = i + 1;
        assert(views(args@) =~= seq!["-y"@] + segment_inputs(segments@.take(i as int)));
    }
    assert(segments@.take(segments@.len() as int) =~= segments@);
    let graph = xfade_filter_graph(segments);
    args.push(lit("-filter_complex"));
    args.push(join_strings(&graph.filters, ";"));
    args.push(lit("-map"));
    args.push(bracketed(&graph.video_label));
    args.push(lit("-map"));
    args.push(bracketed(&graph.audio_label));
    args.push(lit("-c:v"));
    args.push(lit("libx264"));
    args.push(lit("-preset"));
    args.push(lit("veryfast"));
    args.push(lit("-pix_fmt"));
    args.push(lit("yuv420p"));
    args.push(lit("-c:a"));
    args.push(lit("aac"));
    args.push(lit(output_path));
    assert(views(args@) =~= xfade_argv(segments@, output_path@));
    args
}

} // verus!
