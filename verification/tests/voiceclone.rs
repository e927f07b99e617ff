use discord_llm_bot::voiceclone::{
    cache_prefix, decode_sample_rate, decode_wav, delete_outcome, stt_language, stt_length_ok, synth_cache_path,
    valid_voice_name, validate_create, validate_synthesize, voice_token, BAD_REQUEST, CONFLICT, NOT_FOUND,
};

fn chunk(tag: &[u8; 4], body: &[u8]) -> Vec<u8> {
    let mut v = tag.to_vec();
    v.extend_from_slice(&(body.len() as u32).to_le_bytes());
    v.extend_from_slice(body);
    if body.len() % 2 == 1 {
        v.push(0);
    }
    v
}

fn fmt_body(channels: u16, rate: u32) -> Vec<u8> {
    let mut f = Vec::new();
    f.extend_from_slice(&1u16.to_le_bytes());
    f.extend_from_slice(&channels.to_le_bytes());
    f.extend_from_slice(&rate.to_le_bytes());
    f.extend_from_slice(&(rate * 2 * channels as u32).to_le_bytes());
    f.extend_from_slice(&(2 * channels).to_le_bytes());
    f.extend_from_slice(&16u16.to_le_bytes());
    f
}

fn wav(chunks: &[Vec<u8>]) -> Vec<u8> {
    let body: Vec<u8> = chunks.concat();
    let mut v = b"RIFF".to_vec();
    v.extend_from_slice(&((body.len() + 4) as u32).to_le_bytes());
    v.extend_from_slice(b"WAVE");
    v.extend_from_slice(&body);
    v
}

fn samples_bytes(s: &[i16]) -> Vec<u8> {
    s.iter().flat_map(|x| x.to_le_bytes()).collect()
}

#[test]
fn voiceclone_names_and_tokens() {
    assert!(valid_voice_name(" bob "));
    assert!(valid_voice_name("google"));
    assert!(!valid_voice_name("Google"));
    assert!(!valid_voice_name("random"));
    assert!(!valid_voice_name("none"));
    assert!(!valid_voice_name("a b"));
    assert!(!valid_voice_name("   "));
    assert!(!valid_voice_name(&"a".repeat(65)));
    assert_eq!(voice_token(" bob "), "clone|bob");
    assert_eq!(cache_prefix("bob"), "clone|bob_");
    assert_eq!(synth_cache_path("/audios", " bob", "hello"), "/audios/clone|bob_5d41402abc4b2a76b9719d911017c592.mp3");
}

#[test]
fn voiceclone_synthesis_checks() {
    assert_eq!(validate_synthesize("  hi ", " bob "), Ok(("hi".to_string(), "bob".to_string())));
    assert_eq!(validate_synthesize("  ", "bob"), Err((BAD_REQUEST, "text is required".to_string())));
    assert_eq!(validate_synthesize(&"a".repeat(601), "bob"), Err((BAD_REQUEST, "text too long".to_string())));
    assert!(validate_synthesize(&"é".repeat(600), "bob").is_ok());
    assert_eq!(validate_synthesize("hi", "  "), Err((BAD_REQUEST, "voice is required".to_string())));
}

#[test]
fn voiceclone_creation_checks() {
    assert_eq!(validate_create("bob", 1, 5, 5000), Ok(()));
    assert_eq!(
        validate_create("bad name", 1, 5, 5000),
        Err((BAD_REQUEST, "invalid voice name (allowed: A-Z a-z 0-9 _ -, length 1-64, not Google/random)".to_string()))
    );
    assert_eq!(validate_create("bob", 5, 5, 5000), Err((CONFLICT, "voice limit reached (5); delete one first".to_string())));
    assert_eq!(
        validate_create("bob", 1, 5, 100),
        Err((BAD_REQUEST, "audio sample must be between 4KB and 12MB (got 100 bytes)".to_string()))
    );
    assert_eq!(validate_create("bob", 1, 5, 12_000_000), Ok(()));
}

#[test]
fn voiceclone_deletion_outcome() {
    assert_eq!(delete_outcome(" bob ", 0), Err((NOT_FOUND, "voice 'bob' not found".to_string())));
    assert_eq!(delete_outcome("bob", 2), Ok(()));
}

#[test]
fn voiceclone_recognition_language() {
    assert_eq!(stt_language(Some(" EN "), Some("it")), "en");
    assert_eq!(stt_language(Some("auto"), Some("IT")), "it");
    assert_eq!(stt_language(Some(""), Some("Auto")), "");
    assert_eq!(stt_language(None, None), "");
    assert!(stt_length_ok(24000 * 60, 24000));
    assert!(!stt_length_ok(24000 * 60 + 1, 24000));
}

#[test]
fn voiceclone_sample_rate_of_upload() {
    let w = wav(&[chunk(b"fmt ", &fmt_body(1, 16000)), chunk(b"data", &samples_bytes(&[0, 0]))]);
    assert_eq!(decode_sample_rate(&w), Some(16000));
    assert_eq!(decode_sample_rate(b"ID3 not a wav file at all......"), Some(24000));
}

#[test]
fn voiceclone_decodes_wav() {
    let w = wav(&[
        chunk(b"fmt ", &fmt_body(2, 16000)),
        chunk(b"LIST", b"xyz"),
        chunk(b"data", &samples_bytes(&[1, -2, 300, -32768])),
    ]);
    let d = decode_wav(&w).expect("wav");
    assert_eq!(d.samples, vec![1, -2, 300, -32768]);
    assert_eq!(d.rate, 16000);
    assert_eq!(d.channels, 2);
}

#[test]
fn voiceclone_rejects_bad_wavs() {
    let no_data = wav(&[chunk(b"fmt ", &fmt_body(1, 8000)), chunk(b"LIST", &[0u8; 20])]);
    assert!(decode_wav(&no_data).is_none());
    let short_fmt = wav(&[chunk(b"fmt ", &[1, 0, 1, 0]), chunk(b"data", &[0u8; 40])]);
    assert!(decode_wav(&short_fmt).is_none());
    let mut not_riff = wav(&[chunk(b"fmt ", &fmt_body(1, 8000)), chunk(b"data", &[0u8; 8])]);
    not_riff[0] = b'X';
    assert!(decode_wav(&not_riff).is_none());
    assert!(decode_wav(&[0u8; 10]).is_none());
}

#[test]
fn voiceclone_truncated_data_chunk() {
    let mut w = wav(&[chunk(b"fmt ", &fmt_body(1, 8000)), chunk(b"data", &samples_bytes(&[7, 8, 9]))]);
    w.truncate(w.len() - 3);
    let d = decode_wav(&w).expect("wav");
    assert_eq!(d.samples, vec![7]);
    assert_eq!(d.channels, 1);
}
