//! Verified core of the loquazX dubbing pipeline.

pub mod audio;
pub mod download;
pub mod ids;
pub mod media;
pub mod models;
pub mod paths;
pub mod presentacion;
pub mod project;
pub mod text;
pub mod time;
pub mod transcribe;
pub mod translate_engine;
pub mod translation;
pub mod tts;
pub mod tts_edge;
pub mod voices;
pub mod wav;
