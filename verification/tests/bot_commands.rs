use discord_llm_bot::bot::commands::{
    joke_translation_target, translated_joke,
    audio_extension_allowed, check_image_dimensions, check_request, classify_create_error, connect_step, delete_decision,
    effect_choices, endpoint_count_label, fill_one, fill_two, grants_untimeout, is_image_content_type, is_parent_admin,
    is_pickable_cached_mp3, is_timed_out, joke_from_body, like_pattern, max_upload_bytes, member_has_untimeout_right,
    nickname_ok, no_sentence_message, pick_presence_game, record_exchange, resolve_effect, resolve_voice,
    sample_size_ok, sentences_from_file, should_self_demute, spoken_text, upload_path, uptime_label,
    use_cached_shortcut, vc_owner, voice_choices, voice_label_for_cached, voice_list_line, volume_level, validate_image_bytes,
    ConnectStep, ConversationMessage, CreateVoiceFailure, DeleteDecision, RequestCheck, ADMINISTRATOR,
    ASK_MAX_CHARS, HISTORY_LIMIT, MODERATE_MEMBERS, MUTE_MEMBERS, SPEAK_MAX_CHARS, SPEAK, CONNECT,
    bot_voice_permissions_ok,
};
use discord_llm_bot::bot::audio_effects::RANDOM_EFFECT_POOL;
use discord_llm_bot::bot::tts::ClonedVoice;

#[test]
fn bot_resolve_voice_defaults_and_random() {
    assert_eq!(resolve_voice(None), "Google");
    assert_eq!(resolve_voice(Some("clone:bob")), "clone:bob");
    assert_eq!(resolve_voice(Some("random")), "Google");
}

#[test]
fn bot_resolve_effect_defaults_and_random() {
    assert_eq!(resolve_effect(None, "none"), "none");
    assert_eq!(resolve_effect(Some("demon"), "none"), "demon");
    for _ in 0..20 {
        let e = resolve_effect(Some("random"), "none");
        assert!(RANDOM_EFFECT_POOL.contains(&e.as_str()));
        let d = resolve_effect(None, "random");
        assert!(RANDOM_EFFECT_POOL.contains(&d.as_str()));
    }
}

#[test]
fn bot_request_checks_in_order() {
    assert!(matches!(check_request("Google", "none", Some("hi"), SPEAK_MAX_CHARS), RequestCheck::Accepted));
    assert!(matches!(check_request("clone:", "none", Some("hi"), SPEAK_MAX_CHARS), RequestCheck::InvalidVoice));
    assert!(matches!(check_request("clone:", "bogus", Some("hi"), SPEAK_MAX_CHARS), RequestCheck::InvalidVoice));
    assert!(matches!(check_request("Google", "echo", Some("hi"), SPEAK_MAX_CHARS), RequestCheck::InvalidEffect));
    let long = "x".repeat(201);
    assert!(matches!(check_request("Google", "none", Some(&long), SPEAK_MAX_CHARS), RequestCheck::TextTooLong));
    assert!(matches!(check_request("Google", "none", Some(&long), ASK_MAX_CHARS), RequestCheck::Accepted));
    assert!(matches!(check_request("Google", "none", None, 0), RequestCheck::Accepted));
    let exact = "é".repeat(200);
    assert!(matches!(check_request("Google", "none", Some(&exact), SPEAK_MAX_CHARS), RequestCheck::Accepted));
}

#[test]
fn bot_spoken_text_is_cut_at_200_chars() {
    assert_eq!(spoken_text("short"), "short");
    let long = "a".repeat(250);
    assert_eq!(spoken_text(&long), format!("{}...", "a".repeat(200)));
    assert_eq!(spoken_text(&"b".repeat(200)), "b".repeat(200));
}

#[test]
fn bot_cached_shortcut_conditions() {
    assert!(use_cached_shortcut(false, "none", true, None));
    assert!(use_cached_shortcut(false, "none", true, Some("   ")));
    assert!(!use_cached_shortcut(false, "none", true, Some("cat")));
    assert!(!use_cached_shortcut(true, "none", true, None));
    assert!(!use_cached_shortcut(false, "demon", true, None));
    assert!(!use_cached_shortcut(false, "none", false, None));
}

#[test]
fn bot_pickable_cached_files() {
    assert!(is_pickable_cached_mp3("audios/Google_abc.mp3"));
    assert!(!is_pickable_cached_mp3("audios/clone|bob_abc.mp3"));
    assert!(!is_pickable_cached_mp3("audios/Google_abc.wav"));
    assert!(!is_pickable_cached_mp3("audios/.mp3"));
}

#[test]
fn bot_cached_file_voice_labels() {
    assert_eq!(voice_label_for_cached("audios/Google_abc.mp3"), "Google");
    assert_eq!(voice_label_for_cached("audios/Homer_abc.mp3"), "Unknown");
    assert_eq!(voice_label_for_cached("Google.mp3"), "Google");
}

#[test]
fn bot_no_sentence_messages() {
    assert_eq!(no_sentence_message("none found", "nothing about {}", None), "none found");
    assert_eq!(no_sentence_message("none found", "nothing about {}", Some("  ")), "none found");
    assert_eq!(no_sentence_message("none found", "nothing about {}", Some("cats")), "nothing about cats");
}

#[test]
fn bot_template_filling() {
    assert_eq!(fill_two("Playing: **{}** with voice: {}", "hi", "Google"), "Playing: **hi** with voice: Google");
    assert_eq!(fill_one("Volume {}%", "50"), "Volume 50%");
    assert_eq!(fill_one("no slot", "x"), "no slot");
    assert_eq!(fill_two("{} {} {}", "a", "b"), "a b {}");
}

fn msg(role: &str, content: &str) -> ConversationMessage {
    ConversationMessage { role: role.to_string(), content: content.to_string() }
}

#[test]
fn bot_history_records_exchange() {
    let mut h = Vec::new();
    record_exchange(&mut h, "q", "a");
    assert_eq!(h.len(), 2);
    assert_eq!(h[0].role, "user");
    assert_eq!(h[0].content, "q");
    assert_eq!(h[1].role, "assistant");
    assert_eq!(h[1].content, "a");
}

#[test]
fn bot_history_keeps_newest_twenty() {
    let mut h: Vec<ConversationMessage> = (0..20).map(|i| msg("user", &i.to_string())).collect();
    record_exchange(&mut h, "q", "a");
    assert_eq!(h.len(), HISTORY_LIMIT);
    assert_eq!(h[0].content, "2");
    assert_eq!(h[18].content, "q");
    assert_eq!(h[19].content, "a");
}

#[test]
fn bot_voice_clone_helpers() {
    assert_eq!(vc_owner(42), "discord:42");
    assert_eq!(vc_owner(0), "discord:0");
    assert!(sample_size_ok(4000));
    assert!(sample_size_ok(12_000_000));
    assert!(!sample_size_ok(3999));
    assert!(!sample_size_ok(12_000_001));
}

#[test]
fn bot_create_error_kinds() {
    assert!(matches!(classify_create_error("voice already exists"), CreateVoiceFailure::AlreadyExists));
    assert!(matches!(classify_create_error("could not decode audio sample"), CreateVoiceFailure::SampleInvalid));
    assert!(matches!(classify_create_error("sample too short"), CreateVoiceFailure::SampleInvalid));
    assert!(matches!(classify_create_error("size must be between 4KB and 12MB"), CreateVoiceFailure::SampleInvalid));
    assert!(matches!(classify_create_error("invalid voice name"), CreateVoiceFailure::InvalidName));
    assert!(matches!(classify_create_error("network down"), CreateVoiceFailure::Other));
}

#[test]
fn bot_voice_list_lines() {
    assert_eq!(voice_list_line("bob", "discord:1", "discord:1"), "🟢 **bob** — `--voice bob`");
    assert_eq!(voice_list_line("bob", "discord:2", "discord:1"), "⚪ **bob** — `--voice bob`");
}

fn voice(name: &str, owner: &str) -> ClonedVoice {
    ClonedVoice { name: name.to_string(), owner: owner.to_string() }
}

#[test]
fn bot_delete_decisions() {
    let voices = vec![voice("bob", "discord:1"), voice("amy", "discord:2"), voice("bob", "discord:3")];
    assert!(matches!(delete_decision(&voices, "zed", "discord:1", false), DeleteDecision::NotFound));
    assert!(matches!(delete_decision(&voices, "amy", "discord:1", false), DeleteDecision::NotOwner));
    match delete_decision(&voices, "amy", "discord:1", true) {
        DeleteDecision::Delete(o) => assert_eq!(o, "discord:2"),
        _ => panic!("admin may delete"),
    }
    match delete_decision(&voices, "bob", "discord:1", false) {
        DeleteDecision::Delete(o) => assert_eq!(o, "discord:1"),
        _ => panic!("owner may delete"),
    }
    assert!(matches!(delete_decision(&voices, "bob", "discord:3", false), DeleteDecision::NotOwner));
}

#[test]
fn bot_volume_levels() {
    assert_eq!(volume_level(None), 100);
    assert_eq!(volume_level(Some(50)), 50);
    assert_eq!(volume_level(Some(-5)), 0);
    assert_eq!(volume_level(Some(150)), 100);
}

#[test]
fn bot_audio_extensions() {
    assert!(audio_extension_allowed("song.MP3"));
    assert!(audio_extension_allowed("a.b.flac"));
    assert!(!audio_extension_allowed("notes.txt"));
    assert!(!audio_extension_allowed("mp3file"));
    assert!(audio_extension_allowed("mp3"));
}

#[test]
fn bot_upload_limits() {
    assert_eq!(max_upload_bytes(None), 25 * 1024 * 1024);
    assert_eq!(max_upload_bytes(Some(1)), 1_048_576);
    assert_eq!(max_upload_bytes(Some(u64::MAX)), u64::MAX);
}

#[test]
fn bot_uptime_labels() {
    assert_eq!(uptime_label(0), "0h 0m");
    assert_eq!(uptime_label(3725), "1h 2m");
    assert_eq!(uptime_label(90_000), "25h 0m");
}

#[test]
fn bot_endpoint_counts() {
    assert_eq!(endpoint_count_label(""), 0);
    assert_eq!(endpoint_count_label("http://a, http://b"), 2);
    assert_eq!(endpoint_count_label("http://a,, ,http://b,"), 2);
}

#[test]
fn bot_jokes() {
    assert_eq!(
        joke_from_body("{\"type\":\"twopart\",\"setup\":\"Why?\",\"delivery\":\"Because.\"}"),
        Some("Why?. Because.".to_string())
    );
    assert_eq!(joke_from_body("{\"joke\":\"One liner\"}"), Some("One liner".to_string()));
    assert_eq!(joke_from_body("{\"error\":true,\"joke\":\"x\"}"), None);
    assert_eq!(joke_from_body("{\"error\":false,\"joke\":\"x\"}"), Some("x".to_string()));
    assert_eq!(joke_from_body("garbage"), None);
}

#[test]
fn bot_parent_admin() {
    assert!(is_parent_admin(10, "10", 7, "7"));
    assert!(!is_parent_admin(10, "11", 7, "7"));
    assert!(!is_parent_admin(10, "10", 7, "8"));
    assert!(!is_parent_admin(10, " 10", 7, "7"));
}

#[test]
fn bot_nicknames_and_images() {
    assert!(nickname_ok(&"n".repeat(32)));
    assert!(!nickname_ok(&"n".repeat(33)));
    assert!(is_image_content_type(Some("image/png")));
    assert!(!is_image_content_type(Some("text/plain")));
    assert!(!is_image_content_type(None));
    assert_eq!(check_image_dimensions(Some((128, 128))), Ok((128, 128)));
    assert_eq!(check_image_dimensions(Some((127, 500))), Err("too_small"));
    assert_eq!(check_image_dimensions(None), Err("invalid"));
    assert_eq!(validate_image_bytes(b"not an image"), Err("invalid"));
}

#[test]
fn bot_upload_paths() {
    assert_eq!(upload_path("/tmp", "u1", "dir/song.mp3"), "/tmp/u1_song.mp3");
    assert_eq!(upload_path("/tmp", "u1", "song.mp3"), "/tmp/u1_song.mp3");
    assert_eq!(upload_path("/tmp", "u1", "dir/"), "/tmp/u1_audio.mp3");
}

#[test]
fn bot_connect_steps() {
    assert!(matches!(connect_step(None, 5, false, false), ConnectStep::Join));
    assert!(matches!(connect_step(Some(5), 5, false, false), ConnectStep::Stay));
    assert!(matches!(connect_step(Some(4), 5, true, false), ConnectStep::Stay));
    assert!(matches!(connect_step(Some(4), 5, false, true), ConnectStep::Stay));
    assert!(matches!(connect_step(Some(4), 5, false, false), ConnectStep::Switch));
}

#[test]
fn bot_voice_autocomplete() {
    let cloned = vec!["bob".to_string(), "Robert".to_string(), "amy".to_string()];
    assert_eq!(voice_choices("", &cloned), vec!["Google", "random", "bob", "Robert", "amy"]);
    assert_eq!(voice_choices("RO", &cloned), vec!["Robert"]);
    assert_eq!(voice_choices("o", &cloned), vec!["Google", "random", "bob", "Robert"]);
    assert_eq!(voice_choices("goo", &cloned), vec!["Google"]);
    let many: Vec<String> = (0..40).map(|i| format!("v{}", i)).collect();
    assert_eq!(voice_choices("", &many).len(), 25);
}

#[test]
fn bot_effect_autocomplete() {
    assert_eq!(effect_choices(""), vec!["none", "chipmunk", "demon", "sexy", "random"]);
    assert_eq!(effect_choices("D"), vec!["demon", "random"]);
    assert_eq!(effect_choices("zz"), Vec::<&str>::new());
}

#[test]
fn bot_presence_game_pick() {
    assert_eq!(pick_presence_game(&Vec::new()), None);
    let games = vec!["Dota 2".to_string(), "CS2".to_string()];
    let g = pick_presence_game(&games).expect("a game");
    assert!(games.contains(&g));
}

#[test]
fn bot_permission_checks() {
    assert!(should_self_demute(true, Some(ADMINISTRATOR)));
    assert!(should_self_demute(true, Some(MUTE_MEMBERS | 1)));
    assert!(!should_self_demute(false, Some(ADMINISTRATOR)));
    assert!(!should_self_demute(true, Some(1)));
    assert!(!should_self_demute(true, None));
    assert!(grants_untimeout(MODERATE_MEMBERS));
    assert!(!grants_untimeout(MUTE_MEMBERS));
    assert!(member_has_untimeout_right(Some(ADMINISTRATOR), None));
    assert!(!member_has_untimeout_right(Some(0), Some(&vec![ADMINISTRATOR])));
    assert!(member_has_untimeout_right(None, Some(&vec![0, MODERATE_MEMBERS])));
    assert!(!member_has_untimeout_right(None, Some(&vec![0, MUTE_MEMBERS])));
    assert!(!member_has_untimeout_right(None, None));
}

#[test]
fn bot_timeouts() {
    assert!(is_timed_out(Some(2000), 1000));
    assert!(!is_timed_out(Some(1000), 1000));
    assert!(!is_timed_out(None, 1000));
}

#[test]
fn bot_sentence_file_lines() {
    assert_eq!(sentences_from_file("  one \n\n two\n   \nthree"), vec!["one", "two", "three"]);
    assert_eq!(sentences_from_file(""), Vec::<String>::new());
}

#[test]
fn bot_like_patterns() {
    assert_eq!(like_pattern("cat"), "%cat%");
    assert_eq!(like_pattern(""), "%%");
}

fn png_bytes(width: u32, height: u32) -> Vec<u8> {
    let img = image::DynamicImage::new_rgb8(width, height);
    let mut buf = std::io::Cursor::new(Vec::new());
    img.write_to(&mut buf, image::ImageFormat::Png).expect("encode png");
    buf.into_inner()
}

#[test]
fn bot_avatar_image_validation() {
    assert_eq!(validate_image_bytes(&png_bytes(200, 150)), Ok((200, 150)));
    assert_eq!(validate_image_bytes(&png_bytes(64, 300)), Err("too_small"));
}

#[test]
fn bot_voice_channel_permissions() {
    assert_eq!(SPEAK, 1 << 21);
    assert_eq!(CONNECT, 1 << 20);
    assert!(bot_voice_permissions_ok(SPEAK | CONNECT, true));
    assert!(bot_voice_permissions_ok(SPEAK, false));
    assert!(!bot_voice_permissions_ok(SPEAK, true));
    assert!(!bot_voice_permissions_ok(CONNECT, false));
}

#[test]
fn bot_joke_translation_decision() {
    assert_eq!(joke_translation_target("ita", true), Some("it"));
    assert_eq!(joke_translation_target("fra", true), Some("it"));
    assert_eq!(joke_translation_target("eng", true), None);
    assert_eq!(joke_translation_target("ita", false), None);
    assert_eq!(translated_joke("joke".to_string(), Ok("barzelletta".to_string())), "barzelletta");
    assert_eq!(translated_joke("joke".to_string(), Err("down".to_string())), "joke");
}
