use discord_llm_bot::telegram::audio_effects::{is_valid_effect, random_effect, AVAILABLE_EFFECTS, RANDOM_EFFECT_POOL};

#[test]
fn audio_effects_test_is_valid_effect() {
    assert!(is_valid_effect("none"));
    assert!(is_valid_effect("chipmunk"));
    assert!(is_valid_effect("demon"));
    assert!(is_valid_effect("woman"));
    assert!(is_valid_effect("random"));
    assert!(!is_valid_effect("woman1"));
    assert!(!is_valid_effect("woman2"));
    assert!(!is_valid_effect("woman3"));
    assert!(!is_valid_effect("bass"));
    assert!(!is_valid_effect("telephone"));
    assert!(!is_valid_effect("underwater"));
    assert!(!is_valid_effect("echo"));
    assert!(!is_valid_effect("reverb"));
    assert!(!is_valid_effect("invalid"));
}

#[test]
fn audio_effects_test_available_effects_does_not_contain_removed() {
    assert!(!AVAILABLE_EFFECTS.contains(&"echo"));
    assert!(!AVAILABLE_EFFECTS.contains(&"reverb"));
}

#[test]
fn telegram_random_effect_is_from_pool() {
    for _ in 0..50 {
        let e = random_effect();
        assert!(RANDOM_EFFECT_POOL.contains(&e));
        assert!(is_valid_effect(e));
    }
}
