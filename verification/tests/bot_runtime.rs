use discord_llm_bot::bot::generator::{truncate_string, GenerationOutcome, GeneratorCycle, MAX_GENERATED_PER_CYCLE};
use discord_llm_bot::bot::lang::Lang;
use discord_llm_bot::bot::voice_capture::{is_clone_owner, same_voice_channel, SsrcTracker};
use discord_llm_bot::bot::voice_eavesdrop::{
    is_enabled, pick_eavesdrop_target, set_enabled, validate_response, VoiceChannelInfo, VoiceEavesdropState, VoiceMember, TICK_SECS,
};

#[test]
fn eavesdrop_disabled_never_fires() {
    let mut s = VoiceEavesdropState::new(false);
    for _ in 0..10 {
        assert!(!s.tick(0));
        assert!(!s.check(1, 5));
    }
    assert_eq!(s.next_eavesdrop_secs, None);
}

#[test]
fn eavesdrop_counts_down_then_fires() {
    let mut s = VoiceEavesdropState::new(true);
    assert!(!s.tick(25));
    assert_eq!(s.next_eavesdrop_secs, Some(25 - TICK_SECS));
    assert!(!s.tick(999));
    assert_eq!(s.next_eavesdrop_secs, Some(5));
    assert!(s.tick(999));
    assert_eq!(s.next_eavesdrop_secs, None);
}

#[test]
fn eavesdrop_short_delay_fires_at_once() {
    let mut s = VoiceEavesdropState::new(true);
    assert!(s.check(1, TICK_SECS));
    assert_eq!(s.next_eavesdrop_secs, None);
}

#[test]
fn eavesdrop_disable_drops_timer_and_reschedule_sets_it() {
    let mut s = VoiceEavesdropState::new(true);
    s.reschedule(120);
    assert_eq!(s.next_eavesdrop_secs, Some(120));
    assert!(!s.set_enabled(false));
    assert_eq!(s.next_eavesdrop_secs, None);
    assert!(s.set_enabled(true));
    assert!(s.enabled);
}

#[test]
fn eavesdrop_response_screening() {
    assert!(validate_response("Che bella giornata oggi!"));
    assert!(!validate_response("hey"));
    assert!(!validate_response("I'm sorry, I can't do that."));
    assert!(!validate_response("As an AI I must stay quiet"));
    assert!(!validate_response("{\"text\": \"hello\"}"));
    assert!(!validate_response("User Safety: safe"));
    assert!(!validate_response("Safe to say hello"));
    assert!(!validate_response("Error: something failed"));
    assert!(!validate_response("```code```"));
}

fn member(user_id: u64, is_bot: Option<bool>, name: Option<&str>) -> VoiceMember {
    VoiceMember { user_id, is_bot, name: name.map(|n| n.to_string()) }
}

#[test]
fn eavesdrop_target_is_busiest_channel() {
    let channels = vec![
        VoiceChannelInfo { id: 10, members: vec![member(1, Some(false), Some("ann"))] },
        VoiceChannelInfo {
            id: 20,
            members: vec![member(99, None, None), member(2, Some(true), Some("bot")), member(3, None, None), member(4, Some(false), Some("dan"))],
        },
        VoiceChannelInfo { id: 30, members: vec![member(5, Some(false), Some("eve")), member(6, Some(false), Some("fay"))] },
    ];
    let t = pick_eavesdrop_target(&channels, 99).expect("a target");
    assert_eq!(t.channel_id, 20);
    assert_eq!(t.humans, 2);
    assert_eq!(t.username, "3");
}

#[test]
fn eavesdrop_no_humans_no_target() {
    let channels = vec![VoiceChannelInfo { id: 10, members: vec![member(99, None, None), member(2, Some(true), None)] }];
    assert!(pick_eavesdrop_target(&channels, 99).is_none());
    assert!(pick_eavesdrop_target(&Vec::new(), 99).is_none());
}

#[test]
fn generator_cycle_limits() {
    let mut c = GeneratorCycle::new();
    assert!(!c.is_full());
    assert!(!c.skips_voice("Homer"));
    c.record("Homer", GenerationOutcome::Produced { fallback: false });
    c.record("Homer", GenerationOutcome::Produced { fallback: true });
    c.record("Google", GenerationOutcome::Produced { fallback: false });
    c.record("Homer", GenerationOutcome::Failed);
    assert_eq!((c.generated, c.other_voice, c.failed), (2, 1, 1));
    assert_eq!(c.status(), "Generated 2 files (1 FakeYou), 1 failures");
    let mut d = GeneratorCycle::new();
    for _ in 0..3 {
        d.record("Homer", GenerationOutcome::Produced { fallback: false });
    }
    assert!(d.skips_voice("Homer"));
    assert!(!d.skips_voice("Google"));
    for _ in 0..3 {
        d.record("Google", GenerationOutcome::Produced { fallback: false });
    }
    assert_eq!(d.generated, MAX_GENERATED_PER_CYCLE);
    assert!(d.is_full());
    assert_eq!(d.status(), "Generated 6 files successfully (3 FakeYou)");
}

#[test]
fn generator_truncates_log_strings() {
    assert_eq!(truncate_string("short", 10), "short");
    assert_eq!(truncate_string("exactly10!", 10), "exactly10!");
    assert_eq!(truncate_string("a longer sentence", 8), "a longer...");
    assert_eq!(truncate_string("ééé", 4), "ééé...");
}

#[test]
fn lang_english_and_italian() {
    let en = Lang::new("eng");
    assert_eq!(en.join_success, "I'm joining the channel");
    assert_eq!(en.playing, "Playing: **{}** with voice: {}");
    let it = Lang::new("ita");
    assert_eq!(it.join_success, "Sto entrando nel canale");
    assert_eq!(it.no_sentence, "Nessuna frase trovata");
    let other = Lang::new("fr");
    assert_eq!(other.stop_success, "Interrompo il bot");
}

#[test]
fn capture_routes_ssrc_to_user() {
    let mut t = SsrcTracker::new();
    assert!(!t.belongs_to(7, 1));
    t.act(7, Some(1));
    t.act(8, None);
    assert!(t.belongs_to(7, 1));
    assert!(!t.belongs_to(7, 2));
    assert_eq!(t.user_of(7), Some(1));
    assert_eq!(t.user_of(8), None);
    t.act(7, Some(2));
    assert_eq!(t.user_of(7), Some(2));
}

#[test]
fn capture_owner_and_channel_checks() {
    assert!(is_clone_owner(5, "5", 9));
    assert!(is_clone_owner(9, "5", 9));
    assert!(!is_clone_owner(4, "5", 9));
    assert!(same_voice_channel(Some(3), Some(3)));
    assert!(!same_voice_channel(Some(3), Some(4)));
    assert!(!same_voice_channel(None, Some(4)));
    assert!(!same_voice_channel(Some(3), None));
}

#[test]
fn eavesdrop_shared_state_toggles() {
    let mut none: Option<VoiceEavesdropState> = None;
    assert_eq!(set_enabled(&mut none, true), None);
    assert_eq!(is_enabled(&none), None);
    let mut st = Some(VoiceEavesdropState::new(true));
    st.as_mut().unwrap().reschedule(120);
    assert_eq!(set_enabled(&mut st, true), Some(true));
    assert_eq!(st.as_ref().unwrap().next_eavesdrop_secs, Some(120));
    assert_eq!(set_enabled(&mut st, false), Some(false));
    assert_eq!(is_enabled(&st), Some(false));
    assert_eq!(st.as_ref().unwrap().next_eavesdrop_secs, None);
}
