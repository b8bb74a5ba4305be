use svs::ffmpeg::{
    assembly_mode, concat_args, concat_list, encode_segment_args, ffmpeg_candidates, first_working,
    format_seconds, video_filter, xfade_args, xfade_filter_graph, AssemblyMode, EncodeOptions,
    SegmentInput,
};
use svs::models::Transition;

fn seg(i: usize, out: &str, ms: u64, t: Transition) -> SegmentInput {
    SegmentInput {
        index: i,
        image_path: format!("/img/{i}.jpg"),
        audio_path: format!("/aud/{i}.wav"),
        output_path: out.to_string(),
        duration_ms: ms,
        transition: t,
    }
}

#[test]
fn seconds_have_three_decimals() {
    assert_eq!(format_seconds(0), "0.000");
    assert_eq!(format_seconds(1500), "1.500");
    assert_eq!(format_seconds(12_345), "12.345");
    assert_eq!(format_seconds(7), "0.007");
}

#[test]
fn video_filter_letterboxes() {
    assert_eq!(
        video_filter(1920, 1080),
        "scale=1920:1080:force_original_aspect_ratio=decrease,pad=1920:1080:(ow-iw)/2:(oh-ih)/2,format=yuv420p"
    );
}

#[test]
fn encode_options_default() {
    let o = EncodeOptions::default();
    assert_eq!((o.width, o.height, o.fps, o.preset), (1920, 1080, 30, "veryfast"));
}

#[test]
fn encode_segment_argument_list() {
    let s = seg(0, "/seg/segment_0000.mp4", 2250, Transition::Slide);
    let args = encode_segment_args(&EncodeOptions::default(), &s);
    let expected: Vec<String> = [
        "-y", "-loop", "1", "-i", "/img/0.jpg", "-i", "/aud/0.wav", "-t", "2.250", "-vf",
        "scale=1920:1080:force_original_aspect_ratio=decrease,pad=1920:1080:(ow-iw)/2:(oh-ih)/2,format=yuv420p",
        "-r", "30", "-c:v", "libx264", "-preset", "veryfast", "-c:a", "aac", "-shortest",
        "/seg/segment_0000.mp4",
    ]
    .iter()
    .map(|s| s.to_string())
    .collect();
    assert_eq!(args, expected);
}

#[test]
fn assembly_concat_without_transitions() {
    let one = vec![seg(0, "a", 1, Transition::Zoom)];
    assert_eq!(assembly_mode(&one), AssemblyMode::ConcatCopy);
    let cuts = vec![seg(0, "a", 1, Transition::Zoom), seg(1, "b", 1, Transition::Cut)];
    assert_eq!(assembly_mode(&cuts), AssemblyMode::ConcatCopy);
    let fade = vec![seg(0, "a", 1, Transition::Cut), seg(1, "b", 1, Transition::Fade)];
    assert_eq!(assembly_mode(&fade), AssemblyMode::Crossfade);
}

#[test]
fn concat_list_escapes_quotes() {
    let segs = vec![seg(0, "/s/a.mp4", 1, Transition::Cut), seg(1, "/s/it's.mp4", 1, Transition::Cut)];
    assert_eq!(concat_list(&segs), "file '/s/a.mp4'\nfile '/s/it'\\''s.mp4'\n");
    assert_eq!(concat_list(&Vec::new()), "");
}

#[test]
fn concat_argument_list() {
    assert_eq!(
        concat_args("/s/segments.txt", "/out.mp4"),
        vec!["-y", "-f", "concat", "-safe", "0", "-i", "/s/segments.txt", "-c", "copy", "/out.mp4"]
    );
}

#[test]
fn xfade_graph_for_mixed_transitions() {
    let segs = vec![
        seg(0, "/s/0.mp4", 2000, Transition::Slide),
        seg(1, "/s/1.mp4", 3000, Transition::Fade),
        seg(2, "/s/2.mp4", 1000, Transition::Cut),
    ];
    let g = xfade_filter_graph(&segs);
    assert_eq!(
        g.filters,
        vec![
            "[0:v]settb=AVTB,setpts=PTS-STARTPTS,setsar=1[v0];[0:a]asetpts=PTS-STARTPTS[a0]",
            "[1:v]settb=AVTB,setpts=PTS-STARTPTS,setsar=1[v1];[1:a]asetpts=PTS-STARTPTS[a1]",
            "[2:v]settb=AVTB,setpts=PTS-STARTPTS,setsar=1[v2];[2:a]asetpts=PTS-STARTPTS[a2]",
            "[v0]tpad=stop_mode=clone:stop_duration=0.75[vp1]",
            "[vp1][v1]xfade=transition=fade:duration=0.75:offset=2.000[vx1]",
            "[a0][a1]concat=n=2:v=0:a=1[ax1]",
            "[vx1][ax1][v2][a2]concat=n=2:v=1:a=1[vx2][ax2]",
        ]
    );
    assert_eq!(g.video_label, "vx2");
    assert_eq!(g.audio_label, "ax2");
}

#[test]
fn xfade_offset_is_at_least_ten_ms() {
    let segs = vec![seg(0, "/s/0.mp4", 0, Transition::Cut), seg(1, "/s/1.mp4", 5, Transition::Zoom)];
    let g = xfade_filter_graph(&segs);
    assert_eq!(g.filters[3], "[vp1][v1]xfade=transition=zoomin:duration=0.75:offset=0.010[vx1]");
}

#[test]
fn xfade_argument_list() {
    let segs = vec![seg(0, "/s/0.mp4", 1000, Transition::Cut), seg(1, "/s/1.mp4", 1000, Transition::Wipe)];
    let args = xfade_args(&segs, "/out.mp4");
    assert_eq!(&args[..5], &["-y", "-i", "/s/0.mp4", "-i", "/s/1.mp4"]);
    assert_eq!(args[5], "-filter_complex");
    assert!(args[6].contains(";[v0]tpad=stop_mode=clone:stop_duration=0.75[vp1];"));
    assert!(args[6].contains("xfade=transition=wipeleft:duration=0.75:offset=1.000[vx1]"));
    assert_eq!(
        &args[7..],
        &["-map", "[vx1]", "-map", "[ax1]", "-c:v", "libx264", "-preset", "veryfast", "-pix_fmt",
          "yuv420p", "-c:a", "aac", "/out.mp4"]
    );
}

#[test]
fn ffmpeg_probe_order() {
    assert_eq!(
        ffmpeg_candidates(),
        vec!["ffmpeg", "/opt/homebrew/bin/ffmpeg", "/usr/local/bin/ffmpeg", "/usr/bin/ffmpeg", "/opt/local/bin/ffmpeg"]
    );
}

#[test]
fn first_working_candidate_is_used() {
    assert_eq!(first_working(&vec![]), None);
    assert_eq!(first_working(&vec![false, false]), None);
    assert_eq!(first_working(&vec![false, true, true]), Some(1));
    assert_eq!(first_working(&vec![true]), Some(0));
}
