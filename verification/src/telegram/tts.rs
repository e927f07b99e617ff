//! Voice tokens, voice validation, cache paths and the voice-clone sidecar
//! helpers of the Telegram bot.
use vstd::prelude::*;
use crate::text::{
    chars_of, eq_str, starts_with, starts_with_str, is_ascii_alnum, char_is_ascii_alnum, trim, trim_ws,
    trim_end_by, trim_end_vec, Strip, string_from_chars, replace_all, replace_str, append, append_str, slice,
    slice_all, one_of, is_one_of,
};
use crate::bot::tts::{clone_colon, clone_pipe, google, effect_applies, effect_is_applied};
use crate::deps::{md5_hex, md5_hex_of, json_pointer_str, json_pointer_str_of};
use vstd::string::StringSliceAdditionalSpecFns;

verus! {

pub use crate::bot::tts::{base64_decode, read_id3_lyrics, sentence_label, cached_sentence_label};

/// Built-in voices (cloned voices are resolved through the sidecar).
pub const AVAILABLE_VOICES: [&'static str; 1] = ["Google"];

/// A cloned voice registered on the sidecar.
pub struct ClonedVoice {
    pub name: String,
    pub owner: String,
}

/// Where the generated audio for a request ended up.
pub struct TtsResult {
    pub file_path: String,
    pub actual_voice: String,
}

/// The cache-path token of a voice: `clone|<name>` for cloned voices,
/// `Google` otherwise.
pub open spec fn voice_token_of(voice: Seq<char>) -> Seq<char> {
    if starts_with(voice, clone_pipe()) {
        voice
    } else if starts_with(voice, clone_colon()) {
        clone_pipe() + voice.skip(6)
    } else {
        google()
    }
}

fn voice_token_vec(voice: &Vec<char>) -> (r: Vec<char>)
    ensures
        r@ == voice_token_of(voice@),
{
    proof {
        reveal_strlit("clone|");
        reveal_strlit("clone:");
        reveal_strlit("Google");
        assert("clone:"@ =~= clone_colon());
        assert("clone|"@ =~= clone_pipe());
        assert("Google"@ =~= google());
    }
    if starts_with_str(voice, "clone|") {
        return slice_all(voice);
    }
    if starts_with_str(voice, "clone:") {
        let mut t = chars_of("clone|");
        let rest = slice(voice, 6, voice.len());
        append(&mut t, &rest);
        assert(rest@ =~= voice@.skip(6));
        return t;
    }
    chars_of("Google")
}

/// Build the cache-path token for a voice.
pub fn get_voice_token(voice: &str) -> (r: String)
    ensures
        r@ == voice_token_of(voice@),
{
    let v = chars_of(voice);
    string_from_chars(voice_token_vec(&v))
}

/// The sidecar base URL from `VOICECLONE_URL`: trimmed, trailing `/` removed;
/// `None` when unset or blank.
pub open spec fn sidecar_base(url: Option<Seq<char>>) -> Option<Seq<char>> {
    match url {
        Some(u) => if trim(u).len() > 0 { Some(trim_end_by(trim(u), Strip::Char('/'))) } else { None },
        None => None,
    }
}

pub fn voiceclone_base_url(url: Option<&str>) -> (r: Option<String>)
    ensures
        match r {
            Some(b) => sidecar_base(match url { Some(u) => Some(u@), None => None }) == Some(b@),
            None => sidecar_base(match url { Some(u) => Some(u@), None => None }) is None,
        },
{
    match url {
        Some(u) => {
            let v = chars_of(u);
            let t = trim_ws(&v);
            if t.len() > 0 {
                Some(string_from_chars(trim_end_vec(&t, &Strip::Char('/'))))
            } else {
                None
            }
        },
        None => None,
    }
}

/// The voice-clone sidecar is usable when its URL is set and not blank.
pub fn voiceclone_configured(url: Option<&str>) -> (b: bool)
    ensures
        b == (sidecar_base(match url { Some(u) => Some(u@), None => None }) is Some),
{
    voiceclone_base_url(url).is_some()
}

/// The readable message of a sidecar error body: its `error` string, else
/// the first 160 characters.
pub open spec fn sidecar_error_message(body: Seq<char>) -> Seq<char> {
    crate::bot::tts::error_message_from(body, seq![json_pointer_str_of(body, "/error"@)])
}

pub fn extract_sidecar_error(body: &str) -> (r: String)
    ensures
        r@ == sidecar_error_message(body@),
{
    let e = json_pointer_str(body, "/error");
    let found = vec![e];
    assert(crate::text::opt_views(found@) =~= seq![json_pointer_str_of(body@, "/error"@)]);
    crate::bot::tts::error_message_from_lookups(body, &found)
}

/// A cloned-voice name as the sidecar accepts it: 1 to 64 ASCII letters,
/// digits, `-` or `_`.
pub open spec fn sidecar_name_ok(name: Seq<char>) -> bool {
    &&& name.len() > 0
    &&& name.len() <= 64
    &&& forall|i: int| 0 <= i < name.len() ==> {
        let c = #[trigger] name[i];
        is_ascii_alnum(c) || c == '-' || c == '_'
    }
}

/// Whether a voice is accepted: `random`, a well-formed `clone:`/`clone|`
/// name, or a built-in voice.
pub open spec fn valid_voice(voice: Seq<char>) -> bool {
    if voice == "random"@ {
        true
    } else if starts_with(voice, clone_colon()) || starts_with(voice, clone_pipe()) {
        sidecar_name_ok(voice.skip(6))
    } else {
        is_one_of(voice, AVAILABLE_VOICES@)
    }
}

fn name_ok_vec(v: &Vec<char>) -> (b: bool)
    ensures
        b == sidecar_name_ok(v@),
{
    if v.len() == 0 || v.len() > 64 {
        return false;
    }
    let mut i: usize = 0;
    while i < v.len()
        invariant
            i <= v.len(),
            forall|k: int| 0 <= k < i ==> {
                let c = #[trigger] v@[k];
                is_ascii_alnum(c) || c == '-' || c == '_'
            },
        decreases v.len() - i,
    {
        let c = v[i];
        if !(char_is_ascii_alnum(c) || c == '-' || c == '_') {
            return false;
        }
        i += 1;
    }
    true
}

/// Check if a voice name is valid.
pub fn is_valid_voice(voice: &str) -> (b: bool)
    ensures
        b == valid_voice(voice@),
{
    let v = chars_of(voice);
    proof {
        reveal_strlit("clone|");
        reveal_strlit("clone:");
        assert("clone:"@ =~= clone_colon());
        assert("clone|"@ =~= clone_pipe());
    }
    if eq_str(&v, "random") {
        return true;
    }
    if starts_with_str(&v, "clone:") || starts_with_str(&v, "clone|") {
        let rest = slice(&v, 6, v.len());
        assert(rest@ =~= v@.skip(6));
        return name_ok_vec(&rest);
    }
    one_of(&v, &AVAILABLE_VOICES)
}

/// Display name for a voice token: `clone:<name>` for a cloned voice,
/// `Google` for the Google token, `Unknown` otherwise.
pub open spec fn voice_name_from_token(token: Seq<char>) -> Seq<char> {
    if starts_with(token, clone_pipe()) {
        clone_colon() + token.skip(6)
    } else if token == google() {
        google()
    } else {
        "Unknown"@
    }
}

pub fn get_voice_name_from_token(token: &str) -> (r: String)
    ensures
        r@ == voice_name_from_token(token@),
{
    let t = chars_of(token);
    proof {
        reveal_strlit("clone|");
        reveal_strlit("clone:");
        reveal_strlit("Google");
        assert("clone|"@ =~= clone_pipe());
        assert("clone:"@ =~= clone_colon());
        assert("Google"@ =~= google());
    }
    if starts_with_str(&t, "clone|") {
        let rest = slice(&t, 6, t.len());
        assert(rest@ =~= t@.skip(6));
        let mut v = chars_of("clone:");
        append(&mut v, &rest);
        string_from_chars(v)
    } else if eq_str(&t, "Google") {
        "Google".to_string()
    } else {
        "Unknown".to_string()
    }
}

/// `audios/<token>[_<effect>]_<hash>.mp3`, the token with `|` as `_`.
pub open spec fn cache_path(voice: Seq<char>, hash: Seq<char>, effect: Seq<char>) -> Seq<char> {
    let token = replace_all(voice_token_of(voice), seq!['|'], seq!['_']);
    "audios/"@ + token + (if effect_applies(effect) { seq!['_'] + effect } else { Seq::empty() }) + seq!['_'] + hash
        + ".mp3"@
}

/// Compute the cache file path, with the effect in the name when applied.
pub fn get_file_path_with_effect(voice: &str, text: &str, effect: &str) -> (r: String)
    ensures
        r@ == cache_path(voice@, md5_hex_of(text.spec_bytes()), effect@),
{
    let hash = md5_hex(text);
    cache_path_for_hash(voice, hash.as_str(), effect)
}

/// The cache file path for a voice, an already computed text hash and an
/// effect.
pub fn cache_path_for_hash(voice: &str, hash: &str, effect: &str) -> (r: String)
    ensures
        r@ == cache_path(voice@, hash@, effect@),
{
    let v = chars_of(voice);
    let e = chars_of(effect);
    let vt = voice_token_vec(&v);
    proof {
        reveal_strlit("|");
        reveal_strlit("_");
        assert("|"@ =~= seq!['|']);
        assert("_"@ =~= seq!['_']);
    }
    let token = replace_str(&vt, "|", "_");
    let mut p = chars_of("audios/");
    append(&mut p, &token);
    let ghost before = p@;
    if effect_is_applied(effect) {
        p.push('_');
        append(&mut p, &e);
        assert(p@ =~= before + (seq!['_'] + e@));
    } else {
        assert(p@ =~= before + Seq::<char>::empty());
    }
    p.push('_');
    append_str(&mut p, hash);
    append_str(&mut p, ".mp3");
    string_from_chars(p)
}

/// The plain (no-effect) cache path.
pub fn get_file_path(voice: &str, text: &str) -> (r: String)
    ensures
        r@ == cache_path(voice@, md5_hex_of(text.spec_bytes()), "none"@),
{
    get_file_path_with_effect(voice, text, "none")
}

/// `<temp_dir>/tts_<token>[_<effect>]_<hash>.mp3`.
pub open spec fn temp_tts_path(temp_dir: Seq<char>, voice: Seq<char>, effect: Seq<char>, hash: Seq<char>) -> Seq<char> {
    let token = replace_all(voice_token_of(voice), seq!['|'], seq!['_']);
    temp_dir + "/tts_"@ + token + (if effect_applies(effect) { seq!['_'] + effect } else { Seq::empty() }) + seq!['_']
        + hash + ".mp3"@
}

pub fn get_temp_path(temp_dir: &str, voice: &str, text: &str, effect: &str) -> (r: String)
    ensures
        r@ == temp_tts_path(temp_dir@, voice@, effect@, md5_hex_of(text.spec_bytes())),
{
    let hash = md5_hex(text);
    temp_path_for_hash(temp_dir, voice, hash.as_str(), effect)
}

/// Path of a temporary audio file for a voice, an already computed text hash
/// and an effect.
pub fn temp_path_for_hash(temp_dir: &str, voice: &str, hash: &str, effect: &str) -> (r: String)
    ensures
        r@ == temp_tts_path(temp_dir@, voice@, effect@, hash@),
{
    let v = chars_of(voice);
    let e = chars_of(effect);
    let vt = voice_token_vec(&v);
    proof {
        reveal_strlit("|");
        reveal_strlit("_");
        assert("|"@ =~= seq!['|']);
        assert("_"@ =~= seq!['_']);
    }
    let token = replace_str(&vt, "|", "_");
    let mut p = chars_of(temp_dir);
    append_str(&mut p, "/tts_");
    append(&mut p, &token);
    let ghost before = p@;
    if effect_is_applied(effect) {
        p.push('_');
        append(&mut p, &e);
        assert(p@ =~= before + (seq!['_'] + e@));
    } else {
        assert(p@ =~= before + Seq::<char>::empty());
    }
    p.push('_');
    append_str(&mut p, hash);
    append_str(&mut p, ".mp3");
    string_from_chars(p)
}

/// Requests for these voices are synthesized by the sidecar.
pub fn is_cloned_request(voice: &str) -> (b: bool)
    ensures
        b == starts_with(voice@, clone_pipe()),
{
    let v = chars_of(voice);
    proof {
        reveal_strlit("clone|");
        assert("clone|"@ =~= clone_pipe());
    }
    starts_with_str(&v, "clone|")
}

/// The name the sidecar synthesizes a `clone|<name>` voice with.
pub fn cloned_name(voice: &str) -> (r: String)
    ensures
        starts_with(voice@, clone_pipe()) ==> r@ == voice@.skip(6),
        !starts_with(voice@, clone_pipe()) ==> r@ == voice@,
{
    let v = chars_of(voice);
    proof {
        reveal_strlit("clone|");
        assert("clone|"@ =~= clone_pipe());
    }
    if starts_with_str(&v, "clone|") {
        let rest = slice(&v, 6, v.len());
        assert(rest@ =~= v@.skip(6));
        string_from_chars(rest)
    } else {
        voice.to_string()
    }
}


pub use crate::bot::tts::{CacheWrite, TempWrite, google_tts_url, google_tts_step, GoogleOutcome, GoogleAction, GOOGLE_ATTEMPTS};

/// What to do with freshly generated audio, and what the request returns.
pub struct GeneratedPlan {
    pub cache_write: Option<CacheWrite>,
    pub temp_write: Option<TempWrite>,
    pub result: TtsResult,
}

/// What [`plan_generated_audio`] decides, for the hash of the text.
pub open spec fn generated_plan_spec(
    r: GeneratedPlan,
    save_mp3: bool,
    temp_dir: Seq<char>,
    voice: Seq<char>,
    hash: Seq<char>,
    effect: Seq<char>,
    plain_exists: bool,
) -> bool {
    let apply = effect_applies(effect);
    if starts_with(voice, clone_pipe()) {
        let temp = temp_tts_path(temp_dir, voice, effect, hash);
        &&& r.cache_write is None
        &&& (r.temp_write matches Some(t) && t.path@ == temp && (apply ==> (t.effect matches Some(e) && e@ == effect))
            && (!apply ==> t.effect is None))
        &&& r.result.file_path@ == temp
        &&& r.result.actual_voice@ == voice
    } else {
        let plain = cache_path(google(), hash, "none"@);
        let temp = temp_tts_path(temp_dir, google(), effect, hash);
        &&& r.result.actual_voice@ == google()
        &&& if save_mp3 {
            &&& (plain_exists ==> r.cache_write is None && r.temp_write is None && r.result.file_path@ == plain)
            &&& (!plain_exists ==> (r.cache_write matches Some(w) && w.path@ == plain && w.artist@ == google()))
            &&& (!plain_exists && apply ==> (r.temp_write matches Some(t) && t.path@ == temp
                && (t.effect matches Some(e) && e@ == effect) && r.result.file_path@ == temp))
            &&& (!plain_exists && !apply ==> r.temp_write is None && r.result.file_path@ == plain)
        } else {
            &&& r.cache_write is None
            &&& (r.temp_write matches Some(t) && t.path@ == temp && (apply ==> (t.effect matches Some(e) && e@ == effect))
                && (!apply ==> t.effect is None))
            &&& r.result.file_path@ == temp
        }
    }
}

/// Decide what happens to generated audio: cloned voices (`clone|<name>`)
/// go to a temporary file; Google audio is cached when disk caching is on
/// (`plain_exists`: its plain cache file is already there), the effect, if
/// any, being applied into a temporary file.
pub fn plan_generated_audio(save_mp3: bool, temp_dir: &str, voice: &str, text: &str, effect: &str, plain_exists: bool) -> (r: GeneratedPlan)
    ensures
        generated_plan_spec(r, save_mp3, temp_dir@, voice@, md5_hex_of(text.spec_bytes()), effect@, plain_exists),
{
    let hash = md5_hex(text);
    plan_generated_audio_for_hash(save_mp3, temp_dir, voice, hash.as_str(), effect, plain_exists)
}

/// [`plan_generated_audio`] for an already computed hash of the text.
pub fn plan_generated_audio_for_hash(
    save_mp3: bool,
    temp_dir: &str,
    voice: &str,
    hash: &str,
    effect: &str,
    plain_exists: bool,
) -> (r: GeneratedPlan)
    ensures
        generated_plan_spec(r, save_mp3, temp_dir@, voice@, hash@, effect@, plain_exists),
{
    let apply = effect_is_applied(effect);
    let temp_effect: Option<String> = if apply { Some(effect.to_string()) } else { None };
    proof {
        reveal_strlit("Google");
        assert("Google"@ =~= google());
    }
    if is_cloned_request(voice) {
        let temp = temp_path_for_hash(temp_dir, voice, hash, effect);
        return GeneratedPlan {
            cache_write: None,
            temp_write: Some(TempWrite { path: temp.clone(), effect: temp_effect }),
            result: TtsResult { file_path: temp, actual_voice: voice.to_string() },
        };
    }
    proof {
        reveal_strlit("none");
    }
    let plain = cache_path_for_hash("Google", hash, "none");
    let temp = temp_path_for_hash(temp_dir, "Google", hash, effect);
    if save_mp3 {
        if plain_exists {
            GeneratedPlan {
                cache_write: None,
                temp_write: None,
                result: TtsResult { file_path: plain, actual_voice: "Google".to_string() },
            }
        } else {
            let w = CacheWrite { path: plain.clone(), artist: "Google".to_string() };
            if apply {
                GeneratedPlan {
                    cache_write: Some(w),
                    temp_write: Some(TempWrite { path: temp.clone(), effect: Some(effect.to_string()) }),
                    result: TtsResult { file_path: temp, actual_voice: "Google".to_string() },
                }
            } else {
                GeneratedPlan {
                    cache_write: Some(w),
                    temp_write: None,
                    result: TtsResult { file_path: plain, actual_voice: "Google".to_string() },
                }
            }
        }
    } else {
        GeneratedPlan {
            cache_write: None,
            temp_write: Some(TempWrite { path: temp.clone(), effect: temp_effect }),
            result: TtsResult { file_path: temp, actual_voice: "Google".to_string() },
        }
    }
}

/// What a request that hits the plain cache does.
pub enum CachedPlan {
    Play(TtsResult),
    Effect { input: String, temp: String, result: TtsResult },
}

/// Plan a request whose plain cache file ([`get_file_path`]) exists.
pub fn plan_cache_hit(temp_dir: &str, voice: &str, text: &str, effect: &str) -> (r: CachedPlan)
    ensures
        cached_plan_spec(r, temp_dir@, voice@, md5_hex_of(text.spec_bytes()), effect@),
{
    let hash = md5_hex(text);
    plan_cache_hit_for_hash(temp_dir, voice, hash.as_str(), effect)
}

/// What [`plan_cache_hit`] decides, for the hash of the text.
pub open spec fn cached_plan_spec(r: CachedPlan, temp_dir: Seq<char>, voice: Seq<char>, hash: Seq<char>, effect: Seq<char>) -> bool {
    let plain = cache_path(voice, hash, "none"@);
    if effect_applies(effect) {
        r matches CachedPlan::Effect { input, temp, result } && input@ == plain
            && temp@ == temp_tts_path(temp_dir, voice, effect, hash) && result.file_path@ == temp@
            && result.actual_voice@ == voice
    } else {
        r matches CachedPlan::Play(result) && result.file_path@ == plain && result.actual_voice@ == voice
    }
}

/// [`plan_cache_hit`] for an already computed hash of the text.
pub fn plan_cache_hit_for_hash(temp_dir: &str, voice: &str, hash: &str, effect: &str) -> (r: CachedPlan)
    ensures
        cached_plan_spec(r, temp_dir@, voice@, hash@, effect@),
{
    let plain = cache_path_for_hash(voice, hash, "none");
    if effect_is_applied(effect) {
        let temp = temp_path_for_hash(temp_dir, voice, hash, effect);
        CachedPlan::Effect {
            input: plain,
            temp: temp.clone(),
            result: TtsResult { file_path: temp, actual_voice: voice.to_string() },
        }
    } else {
        CachedPlan::Play(TtsResult { file_path: plain, actual_voice: voice.to_string() })
    }
}

/// A cached file's token reads back as the voice that was asked for:
/// `clone:<name>` is cached under `clone|<name>`, which is displayed as
/// `clone:<name>`; the Google voice is its own token and display name.
pub proof fn lemma_token_display_round_trip(name: Seq<char>)
    ensures
        voice_token_of(clone_colon() + name) == clone_pipe() + name,
        voice_name_from_token(voice_token_of(clone_colon() + name)) == clone_colon() + name,
        voice_token_of(google()) == google(),
        voice_name_from_token(google()) == google(),
{
    let c = clone_colon() + name;
    let p = clone_pipe() + name;
    assert(c.take(6) =~= clone_colon());
    assert(p.take(6) =~= clone_pipe());
    assert(c.skip(6) =~= name);
    assert(p.skip(6) =~= name);
    assert(!starts_with(c, clone_pipe())) by {
        assert(c.take(6)[5] != clone_pipe()[5]);
    }
    assert(!starts_with(google(), clone_pipe())) by {
        assert(google().take(6)[0] != clone_pipe()[0]);
    }
    assert(!starts_with(google(), clone_colon())) by {
        assert(google().take(6)[0] != clone_colon()[0]);
    }
}

/// The Telegram bot caches audio under the same file names as the Discord
/// bot, so the two share one cache: for the Google voice and for a cloned
/// voice, written `clone:<name>` or `clone|<name>`, both compute the same
/// path for the same text hash and effect.
pub proof fn lemma_cache_shared_with_discord(name: Seq<char>, hash: Seq<char>, effect: Seq<char>)
    ensures
        cache_path(google(), hash, effect) == crate::bot::tts::cache_path(google(), hash, effect),
        cache_path(clone_colon() + name, hash, effect) == crate::bot::tts::cache_path(clone_colon() + name, hash, effect),
        cache_path(clone_pipe() + name, hash, effect) == crate::bot::tts::cache_path(clone_pipe() + name, hash, effect),
{
    reveal_strlit("audios/");
    reveal_strlit(".mp3");
    let c = clone_colon() + name;
    let p = clone_pipe() + name;
    assert(c.take(6) =~= clone_colon());
    assert(p.take(6) =~= clone_pipe());
    assert(c.skip(6) =~= name);
    assert(p.skip(6) =~= name);
    assert(!starts_with(c, clone_pipe())) by {
        assert(c.take(6)[5] != clone_pipe()[5]);
    }
    assert(!starts_with(google(), clone_pipe())) by {
        assert(google().take(6)[0] != clone_pipe()[0]);
    }
    assert(!starts_with(google(), clone_colon())) by {
        assert(google().take(6)[0] != clone_colon()[0]);
    }
    assert(crate::bot::tts::clone_name_of(google()) is None);
    assert("audios/"@ =~= seq!['a', 'u', 'd', 'i', 'o', 's', '/']);
    assert(".mp3"@ =~= seq!['.', 'm', 'p', '3']);
    assert(cache_path(google(), hash, effect) =~= crate::bot::tts::cache_path(google(), hash, effect));
    assert(cache_path(c, hash, effect) =~= crate::bot::tts::cache_path(c, hash, effect));
    assert(cache_path(p, hash, effect) =~= crate::bot::tts::cache_path(p, hash, effect));
}
} // verus!
