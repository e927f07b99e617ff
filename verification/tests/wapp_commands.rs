use discord_llm_bot::wapp::commands::{
    classify_wapp_command, parse_command, parse_translate_args, parse_voice_effect, random_command_effect,
    wapp_cached_shortcut, Command,
};

fn triple(args: &str) -> (String, String, String) {
    parse_voice_effect(args)
}

#[test]
fn wapp_voice_effect_flags() {
    assert_eq!(
        triple("hello world --voice clone:bob --effect demon"),
        ("hello world".to_string(), "clone:bob".to_string(), "demon".to_string())
    );
    assert_eq!(triple("--effect echo ciao"), ("ciao".to_string(), "Google".to_string(), "echo".to_string()));
    assert_eq!(triple("hi --voice"), ("hi".to_string(), "Google".to_string(), "none".to_string()));
    assert_eq!(triple("--voice --effect x hi"), ("hi".to_string(), "Google".to_string(), "x".to_string()));
}

#[test]
fn wapp_plain_args_keep_defaults() {
    assert_eq!(triple("  lots   of   space  "), ("lots of space".to_string(), "Google".to_string(), "none".to_string()));
    assert_eq!(triple(""), (String::new(), "Google".to_string(), "none".to_string()));
}

#[test]
fn wapp_command_split() {
    assert_eq!(parse_command("/Speak  hello there "), ("/speak".to_string(), "hello there".to_string()));
    assert_eq!(parse_command("/HELP"), ("/help".to_string(), String::new()));
}

#[test]
fn wapp_command_names() {
    assert!(matches!(classify_wapp_command("/speak"), Command::Speak));
    assert!(matches!(classify_wapp_command("/s"), Command::Speak));
    assert!(matches!(classify_wapp_command("/r"), Command::Random));
    assert!(matches!(classify_wapp_command("/a"), Command::Ask));
    assert!(matches!(classify_wapp_command("/translate"), Command::Translate));
    assert!(matches!(classify_wapp_command("/j"), Command::Joke));
    assert!(matches!(classify_wapp_command("/stats"), Command::Stats));
    assert!(matches!(classify_wapp_command("/h"), Command::Help));
    assert!(matches!(classify_wapp_command("/createvoice"), Command::Unknown));
    assert!(matches!(classify_wapp_command("/x"), Command::Unknown));
}

#[test]
fn wapp_translate_arguments() {
    assert_eq!(parse_translate_args("ciao mondo en"), Some(("ciao mondo".to_string(), "en".to_string())));
    assert_eq!(parse_translate_args("ciao"), None);
    assert_eq!(parse_translate_args("ciao "), None);
    assert_eq!(parse_translate_args(" en"), None);
}

#[test]
fn wapp_random_effects_and_shortcut() {
    assert_eq!(random_command_effect("none", "cats"), "random");
    assert_eq!(random_command_effect("none", "cats --effect none"), "none");
    assert_eq!(random_command_effect("demon", "x"), "demon");
    assert!(wapp_cached_shortcut("", "none", "", true));
    assert!(!wapp_cached_shortcut("--voice x", "none", "", true));
    assert!(!wapp_cached_shortcut("", "none", "cat", true));
    assert!(!wapp_cached_shortcut("", "echo", "", true));
    assert!(!wapp_cached_shortcut("", "none", "", false));
}

#[test]
fn wapp_flags_after_text_read_back() {
    assert_eq!(
        parse_voice_effect("ciao  a tutti --voice clone:bob --effect echo"),
        ("ciao a tutti".to_string(), "clone:bob".to_string(), "echo".to_string())
    );
    assert_eq!(
        parse_voice_effect("--voice Google --effect none"),
        (String::new(), "Google".to_string(), "none".to_string())
    );
}
