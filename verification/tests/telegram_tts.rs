use discord_llm_bot::telegram::tts::{
    base64_decode, cloned_name, extract_sidecar_error, get_file_path, get_file_path_with_effect, get_temp_path,
    get_voice_name_from_token, get_voice_token, is_cloned_request, is_valid_voice, plan_cache_hit,
    plan_generated_audio, voiceclone_base_url, voiceclone_configured, CachedPlan,
};

const HELLO_MD5: &str = "5d41402abc4b2a76b9719d911017c592";

#[test]
fn telegram_voice_tokens() {
    assert_eq!(get_voice_token("Google"), "Google");
    assert_eq!(get_voice_token("clone:bob"), "clone|bob");
    assert_eq!(get_voice_token("clone|bob"), "clone|bob");
    assert_eq!(get_voice_token("bob"), "Google");
}

#[test]
fn telegram_token_display_round_trip() {
    assert_eq!(get_voice_name_from_token("clone|bob"), "clone:bob");
    assert_eq!(get_voice_name_from_token(&get_voice_token("clone:bob")), "clone:bob");
    assert_eq!(get_voice_name_from_token("Google"), "Google");
    assert_eq!(get_voice_name_from_token("x"), "Unknown");
}

#[test]
fn telegram_sidecar_url() {
    assert_eq!(voiceclone_base_url(Some(" http://sidecar:8000// ")), Some("http://sidecar:8000".to_string()));
    assert_eq!(voiceclone_base_url(Some("   ")), None);
    assert_eq!(voiceclone_base_url(None), None);
    assert!(voiceclone_configured(Some("http://x")));
    assert!(!voiceclone_configured(Some("")));
}

#[test]
fn telegram_sidecar_errors() {
    assert_eq!(extract_sidecar_error("{\"error\":\"voice exists\"}"), "voice exists");
    assert_eq!(extract_sidecar_error("{\"message\":\"m\"}"), "{\"message\":\"m\"}");
    assert_eq!(extract_sidecar_error(&"b".repeat(170)), "b".repeat(160));
}

#[test]
fn telegram_valid_voices() {
    assert!(is_valid_voice("random"));
    assert!(is_valid_voice("Google"));
    assert!(is_valid_voice("clone:bob_1"));
    assert!(is_valid_voice("clone|google"));
    assert!(!is_valid_voice("clone:"));
    assert!(!is_valid_voice("bob"));
    assert!(!is_valid_voice(&format!("clone:{}", "a".repeat(65))));
}

#[test]
fn telegram_cache_paths() {
    assert_eq!(get_file_path("Google", "hello"), format!("audios/Google_{}.mp3", HELLO_MD5));
    assert_eq!(get_file_path("clone:bob", "hello"), format!("audios/clone_bob_{}.mp3", HELLO_MD5));
    assert_eq!(
        get_file_path_with_effect("Google", "hello", "woman"),
        format!("audios/Google_woman_{}.mp3", HELLO_MD5)
    );
    assert_eq!(get_temp_path("/t", "clone|bob", "hello", "demon"), format!("/t/tts_clone_bob_demon_{}.mp3", HELLO_MD5));
}

#[test]
fn telegram_cloned_requests() {
    assert!(is_cloned_request("clone|bob"));
    assert!(!is_cloned_request("clone:bob"));
    assert_eq!(cloned_name("clone|bob"), "bob");
    assert_eq!(cloned_name("Google"), "Google");
}

#[test]
fn telegram_plans() {
    let p = plan_generated_audio(true, "/t", "clone|bob", "hello", "none", false);
    assert!(p.cache_write.is_none());
    assert_eq!(p.temp_write.expect("temp").path, format!("/t/tts_clone_bob_{}.mp3", HELLO_MD5));
    assert_eq!(p.result.actual_voice, "clone|bob");
    let g = plan_generated_audio(true, "/t", "Google", "hello", "none", false);
    assert_eq!(g.cache_write.expect("cache").path, format!("audios/Google_{}.mp3", HELLO_MD5));
    assert_eq!(g.result.file_path, format!("audios/Google_{}.mp3", HELLO_MD5));
    let n = plan_generated_audio(false, "/t", "Google", "hello", "demon", false);
    let t = n.temp_write.expect("temp");
    assert_eq!(t.effect, Some("demon".to_string()));
    assert_eq!(n.result.file_path, format!("/t/tts_Google_demon_{}.mp3", HELLO_MD5));
    match plan_cache_hit("/t", "Google", "hello", "random") {
        CachedPlan::Play(r) => assert_eq!(r.file_path, format!("audios/Google_{}.mp3", HELLO_MD5)),
        _ => panic!("random plays the plain file"),
    }
}

#[test]
fn telegram_shares_base64_decoder() {
    assert_eq!(base64_decode("aGk="), Some(b"hi".to_vec()));
}

#[test]
fn telegram_cache_shared_with_discord() {
    for voice in ["Google", "clone:bob", "clone|bob"] {
        for effect in ["none", "random", "demon"] {
            assert_eq!(
                get_file_path_with_effect(voice, "hello", effect),
                discord_llm_bot::bot::tts::get_file_path_with_effect(voice, "hello", effect)
            );
        }
    }
}
