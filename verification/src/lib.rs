//! Verified core of a desktop podcast/audio transcriber.
pub mod text;
pub mod json;
pub mod paths;
pub mod search;
pub mod history;
pub mod output;
pub mod settings;
pub mod table;
pub mod transcribe;
pub mod memo;
pub mod files;
pub mod setup;
