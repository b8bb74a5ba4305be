//! The TTS voices and slide transitions offered by SlideVoice Studio.

use vstd::prelude::*;
use crate::text::{ascii_lower, ascii_lowercase, chars_eq_str, push_chars, string_of};

verus! {

/// Gemini TTS voices supported by SlideVoice Studio.
#[derive(Debug, Clone, Copy, PartialEq, Eq, Structural)]
pub enum Voice {
    Zephyr,
    Puck,
    Charon,
    Kore,
    Fenrir,
}

/// The name under which Gemini knows a voice.
pub open spec fn voice_label(v: Voice) -> Seq<char> {
    match v {
        Voice::Zephyr => "Zephyr"@,
        Voice::Puck => "Puck"@,
        Voice::Charon => "Charon"@,
        Voice::Kore => "Kore"@,
        Voice::Fenrir => "Fenrir"@,
    }
}

impl Voice {
    /// The voice name sent to Gemini TTS.
    pub fn label(self) -> (r: &'static str)
        ensures
            r@ == voice_label(self),
    {
        match self {
            Voice::Zephyr => "Zephyr",
            Voice::Puck => "Puck",
            Voice::Charon => "Charon",
            Voice::Kore => "Kore",
            Voice::Fenrir => "Fenrir",
        }
    }
}

impl Default for Voice {
    fn default() -> (v: Self)
        ensures
            v == Voice::Zephyr,
    {
        Voice::Zephyr
    }
}

/// Slide entry transitions; each maps to an FFmpeg `xfade` type. `Cut`
/// (named `none` on the command line) joins two slides without an effect.
#[derive(Debug, Clone, Copy, PartialEq, Eq, Structural)]
pub enum Transition {
    Cut,
    Fade,
    Slide,
    Wipe,
    Zoom,
}

/// The FFmpeg `xfade` transition used for a slide transition.
pub open spec fn xfade_name_of(t: Transition) -> Seq<char> {
    match t {
        Transition::Cut => "fade"@,
        Transition::Fade => "fade"@,
        Transition::Slide => "slideleft"@,
        Transition::Wipe => "wipeleft"@,
        Transition::Zoom => "zoomin"@,
    }
}

/// The transition whose lower-case name is `name`, if any.
pub open spec fn transition_named(name: Seq<char>) -> Option<Transition> {
    if name == "none"@ {
        Some(Transition::Cut)
    } else if name == "fade"@ {
        Some(Transition::Fade)
    } else if name == "slide"@ {
        Some(Transition::Slide)
    } else if name == "wipe"@ {
        Some(Transition::Wipe)
    } else if name == "zoom"@ {
        Some(Transition::Zoom)
    } else {
        None
    }
}

/// What parsing `s` as a transition gives: the transition named by `s`
/// in any ASCII case, or the message naming the lower-cased input.
pub open spec fn parse_transition_result(s: Seq<char>) -> Result<Transition, Seq<char>> {
    match transition_named(ascii_lower(s)) {
        Some(t) => Ok(t),
        None => Err("unknown transition: "@ + ascii_lower(s)),
    }
}

impl Transition {
    /// FFmpeg `xfade` transition name. `Cut` falls back to `fade` since
    /// the assembly path skips xfade entirely when every slide is `Cut`.
    pub fn xfade_name(self) -> (r: &'static str)
        ensures
            r@ == xfade_name_of(self),
    {
        match self {
            Transition::Cut | Transition::Fade => "fade",
            Transition::Slide => "slideleft",
            Transition::Wipe => "wipeleft",
            Transition::Zoom => "zoomin",
        }
    }

    /// Parses a transition name, ignoring ASCII case.
    pub fn parse(s: &str) -> (r: Result<Transition, String>)
        ensures
            match (r, parse_transition_result(s@)) {
                (Ok(t), Ok(u)) => t == u,
                (Err(e), Err(m)) => e@ == m,
                _ => false,
            },
    {
        let lower = ascii_lowercase(s);
        if chars_eq_str(&lower, "none") {
            Ok(Transition::Cut)
        } else if chars_eq_str(&lower, "fade") {
            Ok(Transition::Fade)
        } else if chars_eq_str(&lower, "slide") {
            Ok(Transition::Slide)
        } else if chars_eq_str(&lower, "wipe") {
            Ok(Transition::Wipe)
        } else if chars_eq_str(&lower, "zoom") {
            Ok(Transition::Zoom)
        } else {
            let mut msg: Vec<char> = crate::text::chars_of("unknown transition: ");
            push_chars(&mut msg, &lower);
            Err(string_of(&msg))
        }
    }
}

impl Default for Transition {
    fn default() -> (t: Self)
        ensures
            t == Transition::Slide,
    {
        Transition::Slide
    }
}

impl core::str::FromStr for Transition {
    type Err = String;

    fn from_str(s: &str) -> (r: Result<Self, Self::Err>)
        ensures
            match (r, parse_transition_result(s@)) {
                (Ok(t), Ok(u)) => t == u,
                (Err(e), Err(m)) => e@ == m,
                _ => false,
            },
    {
        Transition::parse(s)
    }
}

/// Parsing a transition name ignores ASCII case: lower-casing the input
/// first changes neither the transition found nor the error message.
pub proof fn lemma_parse_ignores_case(s: Seq<char>)
    ensures
        parse_transition_result(ascii_lower(s)) == parse_transition_result(s),
{
    assert(ascii_lower(ascii_lower(s)) =~= ascii_lower(s));
}

/// Every transition is found again from its lower-case name.
pub proof fn lemma_transition_names()
    ensures
        transition_named("none"@) == Some(Transition::Cut),
        transition_named("fade"@) == Some(Transition::Fade),
        transition_named("slide"@) == Some(Transition::Slide),
        transition_named("wipe"@) == Some(Transition::Wipe),
        transition_named("zoom"@) == Some(Transition::Zoom),
{
    reveal_strlit("none");
    reveal_strlit("fade");
    reveal_strlit("slide");
    reveal_strlit("wipe");
    reveal_strlit("zoom");
    assert("none"@[0] != "fade"@[0] && "none"@[0] != "wipe"@[0] && "none"@[0] != "zoom"@[0]);
    assert("fade"@[0] != "wipe"@[0] && "fade"@[0] != "zoom"@[0] && "wipe"@[0] != "zoom"@[0]);
    assert("slide"@.len() == 5 && "none"@.len() == 4 && "fade"@.len() == 4);
}

/// Distinct voices are sent to Gemini under distinct names.
pub proof fn lemma_voice_labels_distinct(a: Voice, b: Voice)
    requires
        a != b,
    ensures
        voice_label(a) != voice_label(b),
{
    reveal_strlit("Zephyr");
    reveal_strlit("Puck");
    reveal_strlit("Charon");
    reveal_strlit("Kore");
    reveal_strlit("Fenrir");
    assert("Zephyr"@.len() == 6 && "Puck"@.len() == 4 && "Charon"@.len() == 6 && "Kore"@.len() == 4
        && "Fenrir"@.len() == 6);
    assert("Zephyr"@[0] != "Charon"@[0] && "Zephyr"@[0] != "Fenrir"@[0] && "Charon"@[0]
        != "Fenrir"@[0] && "Puck"@[0] != "Kore"@[0]);
}

} // verus!
