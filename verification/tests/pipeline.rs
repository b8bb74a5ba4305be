use svs::ffmpeg::SegmentInput;
use svs::models::Transition;
use svs::pipeline::{
    cache_layout, dirs_to_clear, notes_file_name, pcm_file_name, permits, reuse_cached_audio, reuse_cached_notes,
    segment_file_name, segment_plan, slide_source, wav_file_name, AudioOutput, SlideSource,
};

#[test]
fn cache_file_names_are_zero_padded() {
    assert_eq!(notes_file_name(0), "slide_0000.txt");
    assert_eq!(wav_file_name(7), "slide_0007.wav");
    assert_eq!(pcm_file_name(123), "slide_0123.pcm");
    assert_eq!(segment_file_name(12345), "segment_12345.mp4");
    assert_ne!(notes_file_name(1), notes_file_name(10));
}

#[test]
fn cache_layout_subdirectories() {
    let l = cache_layout("/x/deck.svs-cache");
    assert_eq!(l.images_dir, "/x/deck.svs-cache/images");
    assert_eq!(l.notes_dir, "/x/deck.svs-cache/notes");
    assert_eq!(l.audio_dir, "/x/deck.svs-cache/audio");
    assert_eq!(l.segments_dir, "/x/deck.svs-cache/segments");
}

#[test]
fn input_classification() {
    assert_eq!(slide_source(true, false, "slides"), SlideSource::Directory);
    assert_eq!(slide_source(false, true, "deck.PDF"), SlideSource::Pdf);
    assert_eq!(slide_source(false, true, "deck.pptx"), SlideSource::Unsupported);
    assert_eq!(slide_source(false, true, "pdf"), SlideSource::Unsupported);
    assert_eq!(slide_source(false, false, "deck.pdf"), SlideSource::Missing);
}

#[test]
fn cache_reuse_decisions() {
    assert_eq!(permits(0), 1);
    assert_eq!(permits(4), 4);
    assert!(reuse_cached_notes(false, true));
    assert!(!reuse_cached_notes(true, true));
    assert!(reuse_cached_audio(false, Some(45), true));
    assert!(!reuse_cached_audio(false, Some(44), true));
    assert!(!reuse_cached_audio(false, None, true));
    assert!(!reuse_cached_audio(false, Some(100), false));
    assert!(!reuse_cached_audio(true, Some(100), true));
}

#[test]
fn segments_follow_slides() {
    let images = vec!["/i/a.jpg".to_string(), "/i/b.jpg".to_string()];
    let audio = vec![
        AudioOutput { path: "/a/slide_0000.wav".to_string(), duration_ms: 1200 },
        AudioOutput { path: "/a/slide_0001.wav".to_string(), duration_ms: 800 },
    ];
    let segs: Vec<SegmentInput> = segment_plan(&images, &audio, "/seg", Transition::Wipe);
    assert_eq!(segs.len(), 2);
    assert_eq!(segs[1].index, 1);
    assert_eq!(segs[1].image_path, "/i/b.jpg");
    assert_eq!(segs[1].audio_path, "/a/slide_0001.wav");
    assert_eq!(segs[1].output_path, "/seg/segment_0001.mp4");
    assert_eq!(segs[1].duration_ms, 800);
    assert_eq!(segs[0].transition, Transition::Wipe);
}

#[test]
fn written_narration_is_reused_unless_empty() {
    let empty = svs::audio::pcm_to_wav(&[]);
    assert!(!reuse_cached_audio(false, Some(empty.len() as u64), true));
    let spoken = svs::audio::pcm_to_wav(&[0, 0]);
    assert!(reuse_cached_audio(false, Some(spoken.len() as u64), true));
}

#[test]
fn replacement_page_prefixes() {
    assert_eq!(svs::pipeline::replacement_page_prefix(1), "replacement_0001");
    let l = cache_layout("/c");
    assert_eq!(l.replacements_dir, "/c/replacements");
}

#[test]
fn only_segments_are_cleared_without_keep_cache() {
    let layout = cache_layout("/c");
    assert_eq!(dirs_to_clear(&layout, false), vec!["/c/segments".to_string()]);
    assert!(dirs_to_clear(&layout, true).is_empty());
}
