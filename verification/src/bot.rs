//! The Discord bot.
pub mod audio_effects;
pub mod tts;
pub mod commands;
pub mod soundboard;
pub mod voice_eavesdrop;
pub mod generator;
pub mod error;
pub mod lang;
pub mod voice_capture;
