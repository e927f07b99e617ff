//! The WhatsApp bot.
pub mod audio_effects;
pub mod llm;
pub mod commands;
