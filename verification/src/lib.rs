//! Verified core of the voice-TTS bots: command parsing, voice/effect
//! validation, cache naming, LLM reply screening and the other decisions the
//! Discord, Telegram and WhatsApp front ends and the voice-clone service make.
use vstd::prelude::*;

pub mod text;
pub mod deps;
pub mod bot;
pub mod wapp;
pub mod telegram;
pub mod voiceclone;
