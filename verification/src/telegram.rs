//! The Telegram bot.
pub mod audio_effects;
pub mod tts;
pub mod commands;
