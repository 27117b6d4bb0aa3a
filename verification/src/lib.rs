pub mod chars;
pub mod text;
pub mod commands;
pub mod cleanup;
pub mod learning;
pub mod recorder;
pub mod db;
pub mod context;
pub mod settings;
pub mod streaming;
pub mod audio;
pub mod hotkeys;
pub mod llm_cleanup;
pub mod transcribe;
pub mod transcribe_local;
pub mod clipboard;
pub mod laws;
