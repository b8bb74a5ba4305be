use std::str::FromStr;

use svs::models::{Transition, Voice};

#[test]
fn voice_labels() {
    assert_eq!(Voice::Zephyr.label(), "Zephyr");
    assert_eq!(Voice::Puck.label(), "Puck");
    assert_eq!(Voice::Charon.label(), "Charon");
    assert_eq!(Voice::Kore.label(), "Kore");
    assert_eq!(Voice::Fenrir.label(), "Fenrir");
    assert_eq!(Voice::default(), Voice::Zephyr);
}

#[test]
fn xfade_names() {
    assert_eq!(Transition::Cut.xfade_name(), "fade");
    assert_eq!(Transition::Fade.xfade_name(), "fade");
    assert_eq!(Transition::Slide.xfade_name(), "slideleft");
    assert_eq!(Transition::Wipe.xfade_name(), "wipeleft");
    assert_eq!(Transition::Zoom.xfade_name(), "zoomin");
    assert_eq!(Transition::default(), Transition::Slide);
}

#[test]
fn transition_parse_ignores_case() {
    assert_eq!(Transition::from_str("none"), Ok(Transition::Cut));
    assert_eq!(Transition::from_str("FADE"), Ok(Transition::Fade));
    assert_eq!(Transition::from_str("Slide"), Ok(Transition::Slide));
    assert_eq!(Transition::parse("wIpE"), Ok(Transition::Wipe));
    assert_eq!(Transition::parse("zoom"), Ok(Transition::Zoom));
}

#[test]
fn transition_parse_error_names_input() {
    assert_eq!(
        Transition::from_str("Dissolve"),
        Err("unknown transition: dissolve".to_string())
    );
    assert_eq!(Transition::parse(""), Err("unknown transition: ".to_string()));
    assert_eq!(Transition::parse(" fade"), Err("unknown transition:  fade".to_string()));
}
