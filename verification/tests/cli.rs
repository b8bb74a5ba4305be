use svs::cli::{
    action_for_choice, cache_action, default_paths, encode_concurrency_for, parse_cache_choice,
    CacheAction, CacheChoice,
};

#[test]
fn default_paths_next_to_input() {
    let p = default_paths("/home/u/talks/deck.pdf");
    assert_eq!(p.output, "/home/u/talks/deck.mp4");
    assert_eq!(p.cache_dir, "/home/u/talks/deck.svs-cache");
    let d = default_paths("/home/u/slides");
    assert_eq!(d.output, "/home/u/slides.mp4");
    let r = default_paths("/deck.tar.pdf");
    assert_eq!(r.output, "/deck.tar.mp4");
    let root = default_paths("/");
    assert_eq!(root.output, "./slidevoice.mp4");
    assert_eq!(root.cache_dir, "./slidevoice.svs-cache");
    let dot = default_paths("/x/.hidden");
    assert_eq!(dot.output, "/x/.hidden.mp4");
}

#[test]
fn cache_prompt_answers() {
    assert_eq!(parse_cache_choice("c\n"), CacheChoice::Clear);
    assert_eq!(parse_cache_choice("  CLEAR "), CacheChoice::Clear);
    assert_eq!(parse_cache_choice("\n"), CacheChoice::Resume);
    assert_eq!(parse_cache_choice("r"), CacheChoice::Resume);
    assert_eq!(parse_cache_choice("cl"), CacheChoice::Resume);
}

#[test]
fn cache_actions() {
    assert_eq!(cache_action(false, true, false), CacheAction::Keep);
    assert_eq!(cache_action(true, true, false), CacheAction::Clear);
    assert_eq!(cache_action(true, false, true), CacheAction::Keep);
    assert_eq!(cache_action(true, false, false), CacheAction::Ask);
    assert_eq!(action_for_choice(CacheChoice::Clear), CacheAction::Clear);
    assert_eq!(action_for_choice(CacheChoice::Resume), CacheAction::Keep);
}

#[test]
fn encode_concurrency_defaults() {
    assert_eq!(encode_concurrency_for(None), 2);
    assert_eq!(encode_concurrency_for(Some(1)), 1);
    assert_eq!(encode_concurrency_for(Some(6)), 3);
    assert_eq!(encode_concurrency_for(Some(16)), 8);
    assert_eq!(encode_concurrency_for(Some(64)), 32);
}
