use discord_llm_bot::telegram::commands::{
    chat_allowed, classify_telegram_command, config_allowed_chats, help_text, is_pickable_cached,
    is_sample_document, parse_command, pin_voice, plain_message_is_question, telegram_cached_shortcut, vc_owner,
    voice_line, Command,
};

#[test]
fn telegram_command_split_drops_bot_name() {
    assert_eq!(parse_command("/Speak@MyBot hello  "), ("/speak".to_string(), "hello".to_string()));
    assert_eq!(parse_command("/help@MyBot"), ("/help".to_string(), String::new()));
    assert_eq!(parse_command("/ask what is it"), ("/ask".to_string(), "what is it".to_string()));
}

#[test]
fn telegram_command_names() {
    assert!(matches!(classify_telegram_command("/start"), Command::Help));
    assert!(matches!(classify_telegram_command("/createvoice"), Command::CreateVoice));
    assert!(matches!(classify_telegram_command("/myvoices"), Command::MyVoices));
    assert!(matches!(classify_telegram_command("/deletevoice"), Command::DeleteVoice));
    assert!(matches!(classify_telegram_command("/t"), Command::Translate));
    assert!(matches!(classify_telegram_command("/nope"), Command::Unknown));
}

#[test]
fn telegram_private_questions() {
    assert!(plain_message_is_question("what time is it", true));
    assert!(!plain_message_is_question("/speak hi", true));
    assert!(!plain_message_is_question("hello", false));
}

#[test]
fn telegram_allowlist() {
    assert_eq!(config_allowed_chats(" -100123, 42 ,abc,, "), Some(vec![-100123, 42]));
    assert_eq!(config_allowed_chats(""), None);
    assert_eq!(config_allowed_chats("x,y"), None);
    assert!(chat_allowed(&None, 5));
    assert!(chat_allowed(&Some(vec![1, 5]), 5));
    assert!(!chat_allowed(&Some(vec![1, 5]), 6));
}

#[test]
fn telegram_voice_pinning() {
    assert_eq!(pin_voice("random", "clone|bob", "demon"), "Google");
    assert_eq!(pin_voice("random", "clone|bob", "none"), "clone|bob");
    assert_eq!(pin_voice("clone:bob", "clone|bob", "random"), "Google");
    assert_eq!(pin_voice("clone:bob", "clone|bob", "demon"), "clone|bob");
}

#[test]
fn telegram_random_shortcut_and_pickable_files() {
    assert!(telegram_cached_shortcut("", "Google", "none", "", true));
    assert!(!telegram_cached_shortcut("", "clone|bob", "none", "", true));
    assert!(!telegram_cached_shortcut("--voice Google", "Google", "none", "", true));
    assert!(is_pickable_cached("audios/Google_x.mp3"));
    assert!(!is_pickable_cached("audios/clone_bob_x.mp3"));
    assert!(!is_pickable_cached("audios/clone|bob_x.mp3"));
}

#[test]
fn telegram_voice_cloning_helpers() {
    assert_eq!(vc_owner(12), "telegram:12");
    assert!(is_sample_document(Some("Sample.MP3")));
    assert!(is_sample_document(Some("a.wav")));
    assert!(!is_sample_document(Some("a.ogg")));
    assert!(!is_sample_document(None));
    assert_eq!(voice_line("bob"), "• **bob** — `/speak testo --voice bob`");
}

#[test]
fn telegram_help_text() {
    assert_eq!(
        help_text("T\n", "Voices: {}\nEffects: {}", false),
        "T\nVoices: `Google`\nEffects: `none`, `chipmunk`, `demon`, `woman`, `random`"
    );
    assert_eq!(
        help_text("", "{} | {}", true),
        "`Google` (cloned voices by name, see /myvoices; /random picks a random voice when none is given) | `none`, `chipmunk`, `demon`, `woman`, `random`"
    );
}

#[test]
fn telegram_bot_mention_reads_as_plain_command() {
    for (with_bot, plain) in [
        ("/ask@tts_bot what time is it", "/ask what time is it"),
        ("/random@tts_bot", "/random"),
        ("/speak@x  ciao ", "/speak  ciao "),
    ] {
        assert_eq!(parse_command(with_bot), parse_command(plain));
    }
}
