use vstd::prelude::*;

pub mod agent;
pub mod api;
pub mod attachment;
pub mod audio_buffers;
pub mod autopilot;
pub mod backend_picker;
pub mod backend_select;
pub mod chat_session;
pub mod chat_view;
pub mod clock;
pub mod hemisphere;
pub mod hooks;
pub mod palette;
pub mod paths;
pub mod seqs;
pub mod session;
pub mod session_state;
pub mod settings;
pub mod skills;
pub mod speech;
pub mod speech_laws;
pub mod speech_urls;
pub mod stt;
pub mod text;
pub mod tools;
pub mod transcript;
pub mod tui_state;
pub mod voice_controls;
pub mod voice_core;
pub mod wake;

verus! {

} // verus!
