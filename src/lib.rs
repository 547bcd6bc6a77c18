//! A command-line assistant's streaming core: an incremental decoder for
//! server-sent events, the interpretation of each provider dialect's frames as text
//! deltas, and a renderer that repaints only the part of a growing Markdown answer
//! that changed. Around it: provider settings, request construction, the progress
//! indicator's text, model lists and the cards that show settings.
pub mod text;
pub mod json;
pub mod config;
pub mod sse;
pub mod sse_laws;
pub mod interpret;
pub mod stream;
pub mod request;
pub mod chat;
pub mod setup;
pub mod ui;
pub mod render;
pub mod loader;
pub mod models;
