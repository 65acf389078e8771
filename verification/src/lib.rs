//! A read-along engine: a document of text segments with optional audio,
//! and the state that keeps the highlighted word in step with playback.

pub mod controls;
pub mod document;
pub mod mapper;
pub mod reader;
pub mod track;
