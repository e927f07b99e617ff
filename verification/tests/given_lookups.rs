use discord_llm_bot::bot::commands::joke_from_fields;
use discord_llm_bot::bot::soundboard::{
    soundboard_cache_path_for_hash, soundboard_play_path_for_hash, sounds_from_captures,
};
use discord_llm_bot::bot::tts::{
    cache_path_for_hash, error_message_from_lookups, plan_cache_hit_for_hash, plan_generated_audio_for_hash,
    temp_path_for_hash, AudioSource, CachedPlan,
};
use discord_llm_bot::telegram::tts as tel;
use discord_llm_bot::text::first_found;
use discord_llm_bot::voiceclone::synth_cache_path_for_hash;
use discord_llm_bot::wapp::llm::{
    cleaned_phrase_accepted, is_garbage_label, looks_like_refusal_lowercase, phrase_from_fields,
};

fn some(s: &str) -> Option<String> {
    Some(s.to_string())
}

#[test]
fn given_hash_cache_paths() {
    assert_eq!(cache_path_for_hash("Google", "abc", "none"), "audios/Google_abc.mp3");
    assert_eq!(cache_path_for_hash("clone:bob", "abc", "demon"), "audios/clone_bob_demon_abc.mp3");
    assert_eq!(temp_path_for_hash("/tmp", "Google", "abc", "robot"), "/tmp/tts_Google_robot_abc.mp3");
    assert_eq!(temp_path_for_hash("/tmp", "Google", "abc", "random"), "/tmp/tts_Google_abc.mp3");
    assert_eq!(tel::cache_path_for_hash("clone|ann", "ff", "none"), "audios/clone_ann_ff.mp3");
    assert_eq!(tel::temp_path_for_hash("/t", "Google", "ff", "echo"), "/t/tts_Google_echo_ff.mp3");
    assert_eq!(soundboard_cache_path_for_hash("/tmp", "h1"), "/tmp/soundboard/h1.mp3");
    assert_eq!(
        soundboard_play_path_for_hash("/tmp", "h1", "none", "u"),
        ("/tmp/soundboard/h1.mp3".to_string(), false)
    );
    assert_eq!(
        soundboard_play_path_for_hash("/tmp", "h1", "robot", "u7"),
        ("/tmp/sb_eff_u7_h1.mp3".to_string(), true)
    );
    assert_eq!(synth_cache_path_for_hash("audios", " bob ", "h2"), "audios/clone|bob_h2.mp3");
}

#[test]
fn given_hash_plans() {
    let p = plan_generated_audio_for_hash(true, "/tmp", "Google", "abc", "demon", &AudioSource::Google, false);
    assert_eq!(p.cache_write.expect("cache write").path, "audios/Google_abc.mp3");
    let t = p.temp_write.expect("temp write");
    assert_eq!(t.path, "/tmp/tts_Google_demon_abc.mp3");
    assert_eq!(p.result.file_path, t.path);
    match plan_cache_hit_for_hash("/tmp", "clone:bob", "abc", "none") {
        CachedPlan::Play(r) => assert_eq!(r.file_path, "audios/clone_bob_abc.mp3"),
        _ => panic!("expected a plain play"),
    }
    let q = tel::plan_generated_audio_for_hash(false, "/t", "clone|ann", "ab", "none", false);
    assert_eq!(q.temp_write.expect("temp write").path, "/t/tts_clone_ann_ab.mp3");
    match tel::plan_cache_hit_for_hash("/t", "Google", "ab", "echo") {
        tel::CachedPlan::Effect { input, temp, .. } => {
            assert_eq!(input, "audios/Google_ab.mp3");
            assert_eq!(temp, "/t/tts_Google_echo_ab.mp3");
        },
        _ => panic!("expected an effect"),
    }
}

#[test]
fn given_lookups_first_found() {
    assert_eq!(first_found(&vec![None, some("b"), some("c")]), some("b"));
    assert_eq!(first_found(&vec![None, None]), None);
    assert_eq!(first_found(&vec![]), None);
}

#[test]
fn given_lookups_error_messages() {
    assert_eq!(error_message_from_lookups("{}", &vec![None, some("quota"), None, some("x")]), "quota");
    assert_eq!(error_message_from_lookups("plain body", &vec![None, None, None, None]), "plain body");
    let long = "y".repeat(200);
    assert_eq!(error_message_from_lookups(&long, &vec![None, None, None, None]), "y".repeat(160));
}

#[test]
fn given_lookups_jokes() {
    assert_eq!(joke_from_fields(Some(false), some("Why"), some("Because"), None), some("Why. Because"));
    assert_eq!(joke_from_fields(None, None, None, some("One liner")), some("One liner"));
    assert_eq!(joke_from_fields(Some(true), some("Why"), some("Because"), some("x")), None);
    assert_eq!(joke_from_fields(None, some("Why"), None, None), None);
}

#[test]
fn given_lookups_phrases() {
    let p = phrase_from_fields(None, None, &vec![None, some("  \"Ciao!\" "), None, None]).expect("phrase");
    assert_eq!(p.text, "Ciao!");
    assert!(!p.refused);
    let r = phrase_from_fields(None, some(" YES "), &vec![None, None, None, None]).expect("refusal");
    assert_eq!(r.text, "");
    assert!(r.refused);
    assert!(phrase_from_fields(Some(false), some("true"), &vec![None, None, None, None]).is_none());
}

#[test]
fn given_lookups_sounds() {
    let links = vec![some("/media/a.mp3"), None, some("https://cdn/b.mp3")];
    let titles = vec![some(" A &amp; B "), some("Second")];
    let items = sounds_from_captures(links, titles).expect("sounds");
    assert_eq!(items.len(), 2);
    assert_eq!(items[0].title, "A & B");
    assert_eq!(items[0].url, "https://www.myinstants.com/media/a.mp3");
    assert_eq!(items[1].title, "Second");
    assert_eq!(items[1].url, "https://cdn/b.mp3");
    match sounds_from_captures(vec![], vec![some("t")]) {
        Err(e) => assert_eq!(e, "No sounds found for that search on MyInstants."),
        Ok(_) => panic!("expected no sounds"),
    }
}

#[test]
fn given_lowercase_screening() {
    assert!(looks_like_refusal_lowercase("i'm sorry, i can't do that"));
    assert!(!looks_like_refusal_lowercase("I'M SORRY, I CAN'T DO THAT"));
    assert!(is_garbage_label("user safety: safe"));
    assert!(is_garbage_label("safety:"));
    assert!(!is_garbage_label("ciao a tutti, come state oggi?"));
}

#[test]
fn given_lowercase_phrase_checks() {
    assert!(cleaned_phrase_accepted("Ciao Marco, bentornato!", "ciao marco, bentornato!", "Marco", "marco", 10));
    assert!(!cleaned_phrase_accepted("Ciao Marco, bentornato!", "ciao marco, bentornato!", "Luca", "luca", 10));
    assert!(cleaned_phrase_accepted("Ciao a tutti, bentornati!", "ciao a tutti, bentornati!", "", "", 10));
    assert!(!cleaned_phrase_accepted("Ciao!", "ciao!", "", "", 10));
    assert!(!cleaned_phrase_accepted("{\"text\": \"ciao\"}", "{\"text\": \"ciao\"}", "", "", 5));
    assert!(!cleaned_phrase_accepted("User safety: safe", "user safety: safe", "", "", 5));
}

#[test]
fn given_lowercase_eavesdrop_screening() {
    let check = discord_llm_bot::bot::voice_eavesdrop::validate_lowercase_response;
    assert!(check("che bella serata ragazzi", 24));
    assert!(!check("ciao", 4));
    assert!(!check("safe: the user is fine", 22));
    assert!(!check("blocked content", 15));
    assert!(!check("here is some ```code```", 23));
    assert!(!check("i'm sorry, i can't help with that", 33));
}
