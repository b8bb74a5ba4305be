//! Verified core of the SlideVoice Studio headless renderer: the WAV
//! container, the slide models, the FFmpeg argument and filter-graph
//! builders, the Gemini request/response logic, and the small decisions
//! that the render pipeline takes between its I/O steps.

pub mod audio;
pub mod text;
pub mod models;
pub mod ffmpeg;
pub mod gemini;
pub mod pdf;
pub mod paths;
pub mod pipeline;
pub mod cli;
pub mod edits;
pub mod natural;
