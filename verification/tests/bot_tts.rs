use id3::TagLike;
use discord_llm_bot::bot::tts::{
    google_tts_step, GoogleAction, GoogleOutcome, pick_random_voice, cached_sentence_label, read_id3_lyrics, sentence_label,
    base64_decode, clone_and_google_failed, clone_voice_name, effect_is_applied, env_flag, extract_api_error,
    get_effect_filter, get_file_path, get_file_path_with_effect, get_temp_path, get_voice_name_from_token,
    get_voice_token, is_valid_clone_name, is_valid_voice, plan_cache_hit, plan_generated_audio, voiceclone_configured,
    AudioSource, CachedPlan,
};

const HELLO_MD5: &str = "5d41402abc4b2a76b9719d911017c592";

#[test]
fn bot_voice_token_of_each_spelling() {
    assert_eq!(get_voice_token("Google"), "Google");
    assert_eq!(get_voice_token("clone:bob"), "clone|bob");
    assert_eq!(get_voice_token("clone|bob"), "clone|bob");
    assert_eq!(get_voice_token("bob"), "clone|bob");
    assert_eq!(get_voice_token("random"), "Google");
    assert_eq!(get_voice_token("two words"), "Google");
}

#[test]
fn bot_clone_name_rules() {
    assert!(is_valid_clone_name("my-voice_1"));
    assert!(!is_valid_clone_name(""));
    assert!(!is_valid_clone_name("google"));
    assert!(!is_valid_clone_name("GOOGLE"));
    assert!(!is_valid_clone_name("Random"));
    assert!(!is_valid_clone_name("none"));
    assert!(!is_valid_clone_name("a b"));
    assert!(is_valid_clone_name(&"x".repeat(64)));
    assert!(!is_valid_clone_name(&"x".repeat(65)));
}

#[test]
fn bot_clone_voice_name_resolves_spellings() {
    assert_eq!(clone_voice_name("clone:bob"), Some("bob".to_string()));
    assert_eq!(clone_voice_name("clone|bob"), Some("bob".to_string()));
    assert_eq!(clone_voice_name("bob"), Some("bob".to_string()));
    assert_eq!(clone_voice_name("Google"), None);
    assert_eq!(clone_voice_name("no way"), None);
}

#[test]
fn bot_valid_voices() {
    assert!(is_valid_voice("random"));
    assert!(is_valid_voice("Google"));
    assert!(is_valid_voice("clone:bob"));
    assert!(is_valid_voice("clone|bob"));
    assert!(is_valid_voice("bob"));
    assert!(!is_valid_voice("clone:"));
    assert!(!is_valid_voice("none"));
    assert!(!is_valid_voice("bad name"));
}

#[test]
fn bot_voiceclone_configured_needs_a_key() {
    assert!(voiceclone_configured(Some("key")));
    assert!(!voiceclone_configured(Some("   ")));
    assert!(!voiceclone_configured(None));
}

#[test]
fn bot_token_display_names() {
    assert_eq!(get_voice_name_from_token("clone|bob"), "bob");
    assert_eq!(get_voice_name_from_token("Google"), "Google");
    assert_eq!(get_voice_name_from_token("Homer"), "Unknown");
    assert_eq!(get_voice_name_from_token(&get_voice_token("clone:bob")), "bob");
}

#[test]
fn bot_cache_paths_use_md5_of_text() {
    assert_eq!(get_file_path("Google", "hello"), format!("audios/Google_{}.mp3", HELLO_MD5));
    assert_eq!(get_file_path("clone:bob", "hello"), format!("audios/clone_bob_{}.mp3", HELLO_MD5));
    assert_eq!(get_file_path("bob", "hello"), format!("audios/clone_bob_{}.mp3", HELLO_MD5));
    assert_eq!(get_file_path("Google", ""), "audios/Google_d41d8cd98f00b204e9800998ecf8427e.mp3");
    assert_eq!(
        get_file_path_with_effect("Google", "hello", "chipmunk"),
        format!("audios/Google_chipmunk_{}.mp3", HELLO_MD5)
    );
    assert_eq!(get_file_path_with_effect("Google", "hello", "random"), get_file_path("Google", "hello"));
    assert_eq!(get_file_path_with_effect("Google", "hello", "none"), get_file_path("Google", "hello"));
}

#[test]
fn bot_effect_filters() {
    assert_eq!(get_effect_filter("chipmunk"), Some("asetrate=44100*1.5,aresample=44100,atempo=0.6667".to_string()));
    assert_eq!(get_effect_filter("demon"), Some("asetrate=44100*0.5,aresample=44100,bass=g=18".to_string()));
    assert_eq!(get_effect_filter("sexy"), None);
    assert_eq!(get_effect_filter("none"), None);
}

#[test]
fn bot_base64_decoding() {
    assert_eq!(base64_decode("aGVsbG8="), Some(b"hello".to_vec()));
    assert_eq!(base64_decode("TWFu"), Some(b"Man".to_vec()));
    assert_eq!(base64_decode("aGVs\nbG8="), Some(b"hello".to_vec()));
    assert_eq!(base64_decode(""), Some(Vec::new()));
    assert_eq!(base64_decode("/+8="), Some(vec![0xff, 0xef]));
    assert_eq!(base64_decode("a$bc"), None);
}

#[test]
fn bot_api_error_messages() {
    assert_eq!(extract_api_error("{\"message\":\"bad voice\"}"), "bad voice");
    assert_eq!(extract_api_error("{\"detail\":\"quota\"}"), "quota");
    assert_eq!(extract_api_error("{\"message\":5,\"error\":\"e\"}"), "e");
    assert_eq!(extract_api_error("{\"reason\":\"r\",\"error\":\"first\"}"), "first");
    assert_eq!(extract_api_error("not json"), "not json");
    assert_eq!(extract_api_error(&"a".repeat(200)), "a".repeat(160));
}

#[test]
fn bot_env_flags() {
    assert!(env_flag(Some("true")));
    assert!(env_flag(Some("TRUE")));
    assert!(!env_flag(Some("yes")));
    assert!(!env_flag(None));
}

#[test]
fn bot_effect_applied() {
    assert!(!effect_is_applied("none"));
    assert!(!effect_is_applied("random"));
    assert!(effect_is_applied("demon"));
}

#[test]
fn bot_temp_paths() {
    assert_eq!(get_temp_path("/tmp", "Google", "hello", "none"), format!("/tmp/tts_Google_{}.mp3", HELLO_MD5));
    assert_eq!(get_temp_path("/tmp", "Google", "hello", "demon"), format!("/tmp/tts_Google_demon_{}.mp3", HELLO_MD5));
    assert_eq!(get_temp_path("/t", "clone:bob", "hello", "none"), format!("/t/tts_clone_bob_{}.mp3", HELLO_MD5));
}

#[test]
fn bot_both_voices_failed_message() {
    assert_eq!(clone_and_google_failed("bob", "e1", "e2"), "clone 'bob' failed (e1) and Google TTS also failed (e2)");
}

#[test]
fn bot_plan_google_saved_plain() {
    let p = plan_generated_audio(true, "/tmp", "Google", "hello", "none", &AudioSource::Google, false);
    let w = p.cache_write.expect("cache write");
    assert_eq!(w.path, format!("audios/Google_{}.mp3", HELLO_MD5));
    assert_eq!(w.artist, "Google");
    assert!(p.temp_write.is_none());
    assert_eq!(p.result.file_path, format!("audios/Google_{}.mp3", HELLO_MD5));
    assert_eq!(p.result.actual_voice, "Google");
    assert!(p.result.fallback_used.is_none());
}

#[test]
fn bot_plan_google_saved_with_effect() {
    let p = plan_generated_audio(true, "/tmp", "Google", "hello", "demon", &AudioSource::Google, false);
    assert!(p.cache_write.is_some());
    let t = p.temp_write.expect("temp write");
    assert_eq!(t.path, format!("/tmp/tts_Google_demon_{}.mp3", HELLO_MD5));
    assert_eq!(t.effect, Some("demon".to_string()));
    assert_eq!(p.result.file_path, t.path);
}

#[test]
fn bot_plan_google_already_cached() {
    let p = plan_generated_audio(true, "/tmp", "Google", "hello", "demon", &AudioSource::Google, true);
    assert!(p.cache_write.is_none());
    assert!(p.temp_write.is_none());
    assert_eq!(p.result.file_path, format!("audios/Google_{}.mp3", HELLO_MD5));
}

#[test]
fn bot_plan_without_disk_cache_uses_temp() {
    let p = plan_generated_audio(false, "/tmp", "Google", "hello", "none", &AudioSource::Google, false);
    assert!(p.cache_write.is_none());
    let t = p.temp_write.expect("temp write");
    assert_eq!(t.path, format!("/tmp/tts_Google_{}.mp3", HELLO_MD5));
    assert!(t.effect.is_none());
}

#[test]
fn bot_plan_clone_saved() {
    let src = AudioSource::Clone("bob".to_string());
    let p = plan_generated_audio(true, "/tmp", "clone:bob", "hello", "none", &src, false);
    let w = p.cache_write.expect("cache write");
    assert_eq!(w.path, format!("audios/clone_bob_{}.mp3", HELLO_MD5));
    assert_eq!(w.artist, "clone:bob");
    assert_eq!(p.result.actual_voice, "clone:bob");
}

#[test]
fn bot_plan_clone_fallback_notice() {
    let src = AudioSource::CloneFallback { name: "bob".to_string(), error: "timeout".to_string() };
    let p = plan_generated_audio(true, "/tmp", "clone:bob", "hello", "none", &src, false);
    assert!(p.cache_write.is_none());
    assert_eq!(p.result.actual_voice, "Google");
    assert_eq!(
        p.result.fallback_used,
        Some("⚠️ Voce clonata 'bob' non disponibile (timeout), sto usando Google".to_string())
    );
    assert_eq!(p.result.file_path, format!("/tmp/tts_Google_{}.mp3", HELLO_MD5));
}

#[test]
fn bot_cache_hit_plans() {
    match plan_cache_hit("/tmp", "Google", "hello", "none") {
        CachedPlan::Play(r) => assert_eq!(r.file_path, format!("audios/Google_{}.mp3", HELLO_MD5)),
        _ => panic!("expected a plain play"),
    }
    match plan_cache_hit("/tmp", "Google", "hello", "chipmunk") {
        CachedPlan::Effect { input, temp, result } => {
            assert_eq!(input, format!("audios/Google_{}.mp3", HELLO_MD5));
            assert_eq!(temp, format!("/tmp/tts_Google_chipmunk_{}.mp3", HELLO_MD5));
            assert_eq!(result.file_path, temp);
        },
        _ => panic!("expected an effect pass"),
    }
}

#[test]
fn bot_google_tts_url() {
    let f = discord_llm_bot::bot::tts::google_tts_url;
    assert_eq!(
        f("ciao a tutti!", "ita"),
        "https://translate.google.com/translate_tts?ie=UTF-8&q=ciao%20a%20tutti%21&tl=it&client=tw-ob"
    );
    assert_eq!(f("hi", "eng"), "https://translate.google.com/translate_tts?ie=UTF-8&q=hi&tl=en&client=tw-ob");
    assert_eq!(f("hi", "en"), "https://translate.google.com/translate_tts?ie=UTF-8&q=hi&tl=it&client=tw-ob");
}

#[test]
fn bot_google_tts_retries() {
    assert!(matches!(google_tts_step(1, GoogleOutcome::Body(100)), GoogleAction::Accept));
    assert!(matches!(google_tts_step(1, GoogleOutcome::Body(99)), GoogleAction::Retry { wait_ms: 500 }));
    assert!(matches!(google_tts_step(2, GoogleOutcome::SendFailed("x".into())), GoogleAction::Retry { wait_ms: 1000 }));
    match google_tts_step(3, GoogleOutcome::Body(10)) {
        GoogleAction::Fail(e) => assert_eq!(e, "Google TTS returned too few bytes, possibly an error page"),
        _ => panic!("expected a failure"),
    }
    match google_tts_step(3, GoogleOutcome::Status("404 Not Found".into())) {
        GoogleAction::Fail(e) => assert_eq!(e, "Google TTS returned status: 404 Not Found"),
        _ => panic!("expected a failure"),
    }
    match google_tts_step(1, GoogleOutcome::BodyFailed("reset".into())) {
        GoogleAction::Fail(e) => assert_eq!(e, "reset"),
        _ => panic!("expected a failure"),
    }
    match google_tts_step(3, GoogleOutcome::SendFailed("timeout".into())) {
        GoogleAction::Fail(e) => assert_eq!(e, "timeout"),
        _ => panic!("expected a failure"),
    }
}

#[test]
fn bot_cached_sentence_labels() {
    let mut tag = id3::Tag::new();
    tag.add_frame(id3::frame::Lyrics {
        lang: "ita".to_string(),
        description: String::new(),
        text: "Ciao a tutti".to_string(),
    });
    let mut bytes: Vec<u8> = Vec::new();
    tag.write_to(&mut bytes, id3::Version::Id3v24).expect("tag written");
    bytes.extend_from_slice(&[0u8; 64]);
    assert_eq!(read_id3_lyrics(&bytes), Some("Ciao a tutti".to_string()));
    assert_eq!(cached_sentence_label(Some(&bytes)), "Ciao a tutti");
    assert_eq!(read_id3_lyrics(&[0u8; 64]), None);
    assert_eq!(cached_sentence_label(Some(&[0u8; 64])), "Cached audio");
    assert_eq!(cached_sentence_label(None), "Cached audio");
    assert_eq!(sentence_label(Some("x".to_string())), "x");
}

#[test]
fn bot_random_voice_pool() {
    assert_eq!(pick_random_voice(None), "Google");
    assert_eq!(pick_random_voice(Some(&Vec::new())), "Google");
    let cloned = vec!["bob".to_string(), "ann".to_string()];
    for _ in 0..20 {
        let v = pick_random_voice(Some(&cloned));
        assert!(v == "Google" || v == "bob" || v == "ann");
    }
}

#[test]
fn bot_base64_round_trip_and_failures() {
    let samples: Vec<Vec<u8>> = vec![vec![], b"h".to_vec(), b"he".to_vec(), b"hello".to_vec(), (0u8..=255).collect()];
    for b in samples {
        let enc = base64::Engine::encode(&base64::engine::general_purpose::STANDARD, &b);
        assert_eq!(base64_decode(&enc), Some(b));
    }
    assert_eq!(base64_decode("aGVs bG8="), Some(b"hello".to_vec()));
    assert_eq!(base64_decode("aGVs\tbG8=\n"), Some(b"hello".to_vec()));
    assert_eq!(base64_decode("aGVs*bG8="), None);
    assert_eq!(base64_decode("aGVs-bG8"), None);
}
