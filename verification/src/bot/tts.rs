//! Voice names, voice tokens and cache paths of the Discord bot's TTS layer.
use vstd::prelude::*;
use crate::text::{
    chars_of, lowercase_of, to_lowercase, eq_str, starts_with, starts_with_str, slice, slice_all, append, append_str,
    string_from_chars, replace_all, replace_str, is_ascii_alnum, char_is_ascii_alnum,
    eq_ignore_ascii_case, eq_ignore_case, trim, trim_ws, first_some, first_found, opt_views,
};
use crate::deps::{md5_hex, md5_hex_of, json_pointer_str, json_pointer_str_of, opt_string_view, url_encode, percent_encode, random_below};
use vstd::string::StringSliceAdditionalSpecFns;
use id3::TagLike;

verus! {

/// Built-in voices (only the Google voice; cloned voices are dynamic).
pub const AVAILABLE_VOICES: [&'static str; 1] = ["Google"];

/// A cloned voice registered in the local voice registry.
pub struct ClonedVoice {
    pub name: String,
    pub owner: String,
}

/// Where the generated audio for a request ended up.
pub struct TtsResult {
    pub file_path: String,
    pub actual_voice: String,
    /// Set when a cloned-voice request was synthesized with Google instead.
    pub fallback_used: Option<String>,
}

pub open spec fn clone_colon() -> Seq<char> {
    seq!['c', 'l', 'o', 'n', 'e', ':']
}

pub open spec fn clone_pipe() -> Seq<char> {
    seq!['c', 'l', 'o', 'n', 'e', '|']
}

pub open spec fn google() -> Seq<char> {
    seq!['G', 'o', 'o', 'g', 'l', 'e']
}

pub open spec fn reserved_names() -> Seq<Seq<char>> {
    seq![seq!['g', 'o', 'o', 'g', 'l', 'e'], seq!['r', 'a', 'n', 'd', 'o', 'm'], seq!['n', 'o', 'n', 'e']]
}

/// Charset, length and reservation rules of a cloned-voice name.
pub open spec fn clone_name_ok(name: Seq<char>) -> bool {
    &&& name.len() > 0
    &&& name.len() <= 64
    &&& forall|i: int| 0 <= i < name.len() ==> {
        let c = #[trigger] name[i];
        is_ascii_alnum(c) || c == '-' || c == '_'
    }
    &&& forall|k: int| 0 <= k < 3 ==> !eq_ignore_ascii_case(name, #[trigger] reserved_names()[k])
}

/// The cloned-voice name a voice string asks for, if any.
pub open spec fn clone_name_of(voice: Seq<char>) -> Option<Seq<char>> {
    if starts_with(voice, clone_colon()) || starts_with(voice, clone_pipe()) {
        Some(voice.skip(6))
    } else if clone_name_ok(voice) && voice != google() {
        Some(voice)
    } else {
        None
    }
}

/// The cache-path token of a voice.
pub open spec fn voice_token_of(voice: Seq<char>) -> Seq<char> {
    if starts_with(voice, clone_pipe()) {
        voice
    } else if starts_with(voice, clone_colon()) {
        clone_pipe() + voice.skip(6)
    } else {
        match clone_name_of(voice) {
            Some(name) => clone_pipe() + name,
            None => google(),
        }
    }
}

/// True when the name has the charset of a cloned-voice name and does not
/// collide (case-insensitively) with a built-in or reserved voice.
pub fn is_valid_clone_name(name: &str) -> (b: bool)
    ensures
        b == clone_name_ok(name@),
{
    let v = chars_of(name);
    clone_name_ok_vec(&v)
}

fn clone_name_ok_vec(v: &Vec<char>) -> (b: bool)
    ensures
        b == clone_name_ok(v@),
{
    if v.len() == 0 || v.len() > 64 {
        return false;
    }
    let mut i: usize = 0;
    while i < v.len()
        invariant
            i <= v.len(),
            forall|k: int| 0 <= k < i ==> {
                let c = #[trigger] v@[k];
                is_ascii_alnum(c) || c == '-' || c == '_'
            },
        decreases v.len() - i,
    {
        let c = v[i];
        if !(char_is_ascii_alnum(c) || c == '-' || c == '_') {
            return false;
        }
        i += 1;
    }
    let g = chars_of("google");
    let r = chars_of("random");
    let n = chars_of("none");
    proof {
        reveal_strlit("google");
        reveal_strlit("random");
        reveal_strlit("none");
        assert(g@ =~= reserved_names()[0]);
        assert(r@ =~= reserved_names()[1]);
        assert(n@ =~= reserved_names()[2]);
    }
    let res = !eq_ignore_case(v, &g) && !eq_ignore_case(v, &r) && !eq_ignore_case(v, &n);
    proof {
        if res {
            assert forall|k: int| 0 <= k < 3 implies !eq_ignore_ascii_case(v@, #[trigger] reserved_names()[k]) by {
                if k == 0 {} else if k == 1 {} else {}
            }
        }
    }
    res
}

/// `voice` with a `clone:` or `clone|` prefix removed, if it has one.
fn strip_clone_prefix(voice: &Vec<char>) -> (r: Option<Vec<char>>)
    ensures
        match r {
            Some(rest) => (starts_with(voice@, clone_colon()) || starts_with(voice@, clone_pipe()))
                && rest@ == voice@.skip(6),
            None => !starts_with(voice@, clone_colon()) && !starts_with(voice@, clone_pipe()),
        },
{
    proof {
        reveal_strlit("clone:");
        reveal_strlit("clone|");
    }
    if starts_with_str(voice, "clone:") || starts_with_str(voice, "clone|") {
        proof {
            assert("clone:"@ =~= clone_colon());
            assert("clone|"@ =~= clone_pipe());
        }
        Some(slice(voice, 6, voice.len()))
    } else {
        proof {
            assert("clone:"@ =~= clone_colon());
            assert("clone|"@ =~= clone_pipe());
        }
        None
    }
}

fn clone_name_vec(voice: &Vec<char>) -> (r: Option<Vec<char>>)
    ensures
        match r {
            Some(n) => clone_name_of(voice@) == Some(n@),
            None => clone_name_of(voice@) is None,
        },
{
    match strip_clone_prefix(voice) {
        Some(rest) => {
            assert(rest@ =~= voice@.skip(6));
            Some(rest)
        },
        None => {
            proof {
                reveal_strlit("Google");
            }
            if clone_name_ok_vec(voice) && !eq_str(voice, "Google") {
                proof {
                    assert("Google"@ =~= google());
                }
                Some(slice_all(voice))
            } else {
                proof {
                    assert("Google"@ =~= google());
                }
                None
            }
        },
    }
}

fn voice_token_vec(voice: &Vec<char>) -> (r: Vec<char>)
    ensures
        r@ == voice_token_of(voice@),
{
    proof {
        reveal_strlit("clone|");
        reveal_strlit("clone:");
        reveal_strlit("Google");
        assert("clone:"@ =~= clone_colon());
        assert("clone|"@ =~= clone_pipe());
        assert("Google"@ =~= google());
    }
    if starts_with_str(voice, "clone|") {
        return slice_all(voice);
    }
    if starts_with_str(voice, "clone:") {
        let mut t = chars_of("clone|");
        let rest = slice(voice, 6, voice.len());
        append(&mut t, &rest);
        assert(rest@ =~= voice@.skip(6));
        return t;
    }
    match clone_name_vec(voice) {
        Some(name) => {
            let mut t = chars_of("clone|");
            append(&mut t, &name);
            t
        },
        None => chars_of("Google"),
    }
}

/// Build the cache-path token for a voice: `clone|<name>` for cloned voices
/// (legacy `clone:<name>` and plain clone names included), `Google` otherwise.
pub fn get_voice_token(voice: &str) -> (r: String)
    ensures
        r@ == voice_token_of(voice@),
{
    let v = chars_of(voice);
    string_from_chars(voice_token_vec(&v))
}

/// Resolve any accepted voice syntax to the plain cloned-voice name, or
/// `None` when the voice is not a clone request.
pub fn clone_voice_name(voice: &str) -> (r: Option<String>)
    ensures
        match r {
            Some(n) => clone_name_of(voice@) == Some(n@),
            None => clone_name_of(voice@) is None,
        },
{
    let v = chars_of(voice);
    match clone_name_vec(&v) {
        Some(n) => Some(string_from_chars(n)),
        None => None,
    }
}

/// Whether a voice name is accepted: `random`, a well-formed `clone:`/`clone|`
/// name, a built-in voice, or a well-formed plain clone name.
pub open spec fn valid_voice(voice: Seq<char>) -> bool {
    if voice == seq!['r', 'a', 'n', 'd', 'o', 'm'] {
        true
    } else if starts_with(voice, clone_colon()) || starts_with(voice, clone_pipe()) {
        clone_name_ok(voice.skip(6))
    } else {
        voice == google() || clone_name_ok(voice)
    }
}

/// Check if a voice name is valid.
pub fn is_valid_voice(voice: &str) -> (b: bool)
    ensures
        b == valid_voice(voice@),
{
    let v = chars_of(voice);
    proof {
        reveal_strlit("random");
        reveal_strlit("Google");
        assert("random"@ =~= seq!['r', 'a', 'n', 'd', 'o', 'm']);
        assert("Google"@ =~= google());
    }
    if eq_str(&v, "random") {
        return true;
    }
    match strip_clone_prefix(&v) {
        Some(rest) => clone_name_ok_vec(&rest),
        None => eq_str(&v, "Google") || clone_name_ok_vec(&v),
    }
}

/// The fish.audio voice-clone feature is available when the API key
/// setting (`FISH_AUDIO_API_KEY`, read by the caller) is set and not blank.
pub fn voiceclone_configured(fish_api_key: Option<&str>) -> (b: bool)
    ensures
        b == match fish_api_key {
            Some(k) => trim(k@).len() > 0,
            None => false,
        },
{
    match fish_api_key {
        Some(k) => {
            let v = chars_of(k);
            trim_ws(&v).len() > 0
        },
        None => false,
    }
}

/// Display name for a voice token: the plain name of a cloned voice,
/// `Google` for the Google token, `Unknown` otherwise.
pub open spec fn voice_name_from_token(token: Seq<char>) -> Seq<char> {
    if starts_with(token, clone_pipe()) {
        token.skip(6)
    } else if token == google() {
        google()
    } else {
        seq!['U', 'n', 'k', 'n', 'o', 'w', 'n']
    }
}

/// Reverse-lookup a voice name from its token.
pub fn get_voice_name_from_token(token: &str) -> (r: String)
    ensures
        r@ == voice_name_from_token(token@),
{
    let t = chars_of(token);
    proof {
        reveal_strlit("clone|");
        reveal_strlit("Google");
        reveal_strlit("Unknown");
        assert("clone|"@ =~= clone_pipe());
        assert("Google"@ =~= google());
        assert("Unknown"@ =~= seq!['U', 'n', 'k', 'n', 'o', 'w', 'n']);
    }
    if starts_with_str(&t, "clone|") {
        let r = slice(&t, 6, t.len());
        assert(r@ =~= t@.skip(6));
        string_from_chars(r)
    } else if eq_str(&t, "Google") {
        string_from_chars(chars_of("Google"))
    } else {
        string_from_chars(chars_of("Unknown"))
    }
}

/// The file-name token of a voice in the cache directory (`|` becomes `_`).
pub open spec fn path_token(voice: Seq<char>) -> Seq<char> {
    match clone_name_of(voice) {
        Some(name) => replace_all(voice_token_of(clone_pipe() + name), seq!['|'], seq!['_']),
        None => replace_all(voice_token_of(voice), seq!['|'], seq!['_']),
    }
}

/// Whether an effect name changes the audio (anything but `none`/`random`).
pub open spec fn effect_applies(effect: Seq<char>) -> bool {
    effect != seq!['n', 'o', 'n', 'e'] && effect != seq!['r', 'a', 'n', 'd', 'o', 'm']
}

/// `audios/<token>[_<effect>]_<md5(text)>.mp3`.
pub open spec fn cache_path(voice: Seq<char>, hash: Seq<char>, effect: Seq<char>) -> Seq<char> {
    let mid = if effect_applies(effect) {
        path_token(voice) + seq!['_'] + effect + seq!['_'] + hash
    } else {
        path_token(voice) + seq!['_'] + hash
    };
    seq!['a', 'u', 'd', 'i', 'o', 's', '/'] + mid + seq!['.', 'm', 'p', '3']
}

fn effect_applies_vec(effect: &Vec<char>) -> (b: bool)
    ensures
        b == effect_applies(effect@),
{
    proof {
        reveal_strlit("none");
        reveal_strlit("random");
        assert("none"@ =~= seq!['n', 'o', 'n', 'e']);
        assert("random"@ =~= seq!['r', 'a', 'n', 'd', 'o', 'm']);
    }
    !eq_str(effect, "none") && !eq_str(effect, "random")
}

/// Compute the cache file path; the effect name is part of the file name
/// when an effect is applied.
pub fn get_file_path_with_effect(voice: &str, text: &str, effect: &str) -> (r: String)
    ensures
        r@ == cache_path(voice@, md5_hex_of(text.spec_bytes()), effect@),
{
    let hash = md5_hex(text);
    cache_path_for_hash(voice, hash.as_str(), effect)
}

/// The cache file path for a voice, an already computed text hash and an
/// effect.
pub fn cache_path_for_hash(voice: &str, hash: &str, effect: &str) -> (r: String)
    ensures
        r@ == cache_path(voice@, hash@, effect@),
{
    let h = chars_of(hash);
    let v = chars_of(voice);
    let e = chars_of(effect);
    let token = match clone_name_vec(&v) {
        Some(name) => {
            let mut t = chars_of("clone|");
            proof {
                reveal_strlit("clone|");
                assert("clone|"@ =~= clone_pipe());
            }
            append(&mut t, &name);
            let vt = voice_token_vec(&t);
            proof { reveal_strlit("|"); reveal_strlit("_"); }
            replace_str(&vt, "|", "_")
        },
        None => {
            let vt = voice_token_vec(&v);
            proof { reveal_strlit("|"); reveal_strlit("_"); }
            replace_str(&vt, "|", "_")
        },
    };
    proof {
        assert("|"@ =~= seq!['|']);
        assert("_"@ =~= seq!['_']);
    }
    let mut p = chars_of("audios/");
    let ghost p0 = p@;
    append(&mut p, &token);
    p.push('_');
    if effect_applies_vec(&e) {
        append(&mut p, &e);
        p.push('_');
    }
    append(&mut p, &h);
    append_str(&mut p, ".mp3");
    proof {
        reveal_strlit("audios/");
        reveal_strlit(".mp3");
        assert(p0 =~= seq!['a', 'u', 'd', 'i', 'o', 's', '/']);
        assert(".mp3"@ =~= seq!['.', 'm', 'p', '3']);
        assert(p@ =~= cache_path(voice@, hash@, effect@));
    }
    string_from_chars(p)
}

/// The plain (no-effect) cache path.
pub fn get_file_path(voice: &str, text: &str) -> (r: String)
    ensures
        r@ == cache_path(voice@, md5_hex_of(text.spec_bytes()), seq!['n', 'o', 'n', 'e']),
{
    proof {
        reveal_strlit("none");
        assert("none"@ =~= seq!['n', 'o', 'n', 'e']);
    }
    get_file_path_with_effect(voice, text, "none")
}

/// The ffmpeg filter string of an effect (`None` for effects without one).
pub fn get_effect_filter(effect: &str) -> (r: Option<String>)
    ensures
        effect@ == "chipmunk"@ ==> (r matches Some(f) && f@ == "asetrate=44100*1.5,aresample=44100,atempo=0.6667"@),
        effect@ == "demon"@ ==> (r matches Some(f) && f@ == "asetrate=44100*0.5,aresample=44100,bass=g=18"@),
        effect@ != "chipmunk"@ && effect@ != "demon"@ ==> r is None,
{
    let e = chars_of(effect);
    proof {
        reveal_strlit("chipmunk");
        reveal_strlit("demon");
        assert("chipmunk"@.len() != "demon"@.len());
    }
    if eq_str(&e, "chipmunk") {
        Some(string_from_chars(chars_of("asetrate=44100*1.5,aresample=44100,atempo=0.6667")))
    } else if eq_str(&e, "demon") {
        Some(string_from_chars(chars_of("asetrate=44100*0.5,aresample=44100,bass=g=18")))
    } else {
        None
    }
}


// ───────────────────────── base64 ─────────────────────────

/// The value of a base64 digit (`A`-`Z`, `a`-`z`, `0`-`9`, `+`, `/`).
pub open spec fn sextet_of(c: u8) -> Option<u8> {
    if 0x41 <= c <= 0x5A {
        Some((c - 0x41) as u8)
    } else if 0x61 <= c <= 0x7A {
        Some((c - 0x61 + 26) as u8)
    } else if 0x30 <= c <= 0x39 {
        Some((c - 0x30 + 52) as u8)
    } else if c == 0x2B {
        Some(62u8)
    } else if c == 0x2F {
        Some(63u8)
    } else {
        None
    }
}

/// Bytes the decoder passes over: padding and ASCII whitespace.
pub open spec fn b64_skipped(c: u8) -> bool {
    c == 0x3D || c == 0x20 || c == 0x09 || c == 0x0A || c == 0x0C || c == 0x0D
}

/// The digit values of an encoded text, skipped bytes left out; `None`
/// when it holds a byte outside the alphabet.
pub open spec fn sextets(s: Seq<u8>) -> Option<Seq<u8>>
    decreases s.len(),
{
    if s.len() == 0 {
        Some(Seq::empty())
    } else {
        match sextets(s.drop_last()) {
            None => None,
            Some(v) => if b64_skipped(s.last()) {
                Some(v)
            } else {
                match sextet_of(s.last()) {
                    Some(d) => Some(v.push(d)),
                    None => None,
                }
            },
        }
    }
}

/// Byte `k` of the bit string made of the 6-bit digits `v`: bits `8k` to
/// `8k + 7`, which straddle digits `8k / 6` and the one after it.
pub open spec fn regrouped_byte(v: Seq<u8>, k: int) -> u8 {
    let i = (8 * k) / 6;
    let r = (8 * k) % 6;
    if r == 0 {
        (((v[i] as u32) << 2u32) | ((v[i + 1] as u32) >> 4u32)) as u8
    } else if r == 2 {
        ((((v[i] as u32) & 0xFu32) << 4u32) | ((v[i + 1] as u32) >> 2u32)) as u8
    } else {
        ((((v[i] as u32) & 0x3u32) << 6u32) | (v[i + 1] as u32)) as u8
    }
}

/// The whole bytes the digits `v` encode (a trailing partial byte is dropped).
pub open spec fn regrouped(v: Seq<u8>) -> Seq<u8> {
    Seq::new(((6 * v.len()) / 8) as nat, |k: int| regrouped_byte(v, k))
}

/// Lenient standard-base64 decoding: padding and whitespace are ignored,
/// any other byte outside the alphabet makes the input invalid.
pub open spec fn base64_decoded(s: Seq<u8>) -> Option<Seq<u8>> {
    match sextets(s) {
        Some(v) => Some(regrouped(v)),
        None => None,
    }
}

fn sextet_exec(c: u8) -> (r: Option<u32>)
    ensures
        match sextet_of(c) {
            Some(d) => r == Some(d as u32),
            None => r is None,
        },
{
    if 0x41 <= c && c <= 0x5A {
        Some((c - 0x41) as u32)
    } else if 0x61 <= c && c <= 0x7A {
        Some((c - 0x61 + 26) as u32)
    } else if 0x30 <= c && c <= 0x39 {
        Some((c - 0x30 + 52) as u32)
    } else if c == 0x2B {
        Some(62)
    } else if c == 0x2F {
        Some(63)
    } else {
        None
    }
}

proof fn lemma_regroup_step(prev: u32, buf: u32, d: u32, bits: u32)
    requires
        buf & 63 == prev,
        prev < 64,
        d < 64,
        bits == 0 || bits == 2 || bits == 4 || bits == 6,
    ensures
        (bits == 6 ==> ((((buf << 6u32) | d) >> 4u32) & 0xFF) as u8 == ((prev << 2u32) | (d >> 4u32)) as u8),
        (bits == 4 ==> ((((buf << 6u32) | d) >> 2u32) & 0xFF) as u8 == (((prev & 0xFu32) << 4u32) | (d >> 2u32)) as u8),
        (bits == 2 ==> ((((buf << 6u32) | d) >> 0u32) & 0xFF) as u8 == (((prev & 0x3u32) << 6u32) | d) as u8),
        (((buf << 6u32) | d) & 63) == d,
{
    assert(bits == 6 ==> ((((buf << 6u32) | d) >> 4u32) & 0xFF) as u8 == ((prev << 2u32) | (d >> 4u32)) as u8) by (bit_vector)
        requires buf & 63 == prev, prev < 64, d < 64;
    assert(bits == 4 ==> ((((buf << 6u32) | d) >> 2u32) & 0xFF) as u8 == (((prev & 0xFu32) << 4u32) | (d >> 2u32)) as u8) by (bit_vector)
        requires buf & 63 == prev, prev < 64, d < 64;
    assert(bits == 2 ==> ((((buf << 6u32) | d) >> 0u32) & 0xFF) as u8 == (((prev & 0x3u32) << 6u32) | d) as u8) by (bit_vector)
        requires buf & 63 == prev, prev < 64, d < 64;
    assert((((buf << 6u32) | d) & 63) == d) by (bit_vector)
        requires d < 64;
}

/// Decode standard base64 (padding and ASCII whitespace are ignored);
/// `None` when the text holds any other byte outside the alphabet.
pub fn base64_decode(s: &str) -> (r: Option<Vec<u8>>)
    ensures
        match r {
            Some(b) => base64_decoded(s.spec_bytes()) == Some(b@),
            None => base64_decoded(s.spec_bytes()) is None,
        },
{
    let bytes = s.as_bytes();
    let mut out: Vec<u8> = Vec::new();
    let mut buf: u32 = 0;
    let mut bits: u32 = 0;
    let mut i: usize = 0;
    let ghost mut vals: Seq<u8> = Seq::empty();
    assert(bytes@.take(0) =~= Seq::<u8>::empty());
    while i < bytes.len()
        invariant
            bytes@ == s.spec_bytes(),
            i <= bytes@.len(),
            sextets(bytes@.take(i as int)) == Some(vals),
            forall|j: int| 0 <= j < vals.len() ==> vals[j] < 64,
            bits as int == (6 * vals.len()) % 8,
            vals.len() > 0 ==> (buf & 63) == vals.last() as u32,
            out@.len() == (6 * vals.len()) / 8,
            forall|k: int| 0 <= k < out@.len() ==> out@[k] == regrouped_byte(vals, k),
        decreases bytes@.len() - i,
    {
        let c = bytes[i];
        assert(bytes@.take(i + 1).drop_last() =~= bytes@.take(i as int));
        if c == 0x3D || c == 0x20 || c == 0x09 || c == 0x0A || c == 0x0C || c == 0x0D {
            i += 1;
            continue;
        }
        let d = match sextet_exec(c) {
            Some(d) => d,
            None => {
                proof {
                    lemma_sextets_none_extends(bytes@, (i + 1) as int);
                }
                return None;
            },
        };
        let ghost old_vals = vals;
        let ghost old_buf = buf;
        let ghost m: int = old_vals.len() as int;
        proof {
            vals = vals.push(d as u8);
            if m > 0 {
                assert(bits == 0 || bits == 2 || bits == 4 || bits == 6) by (nonlinear_arith)
                    requires bits as int == (6 * m) % 8, m > 0;
                lemma_regroup_step(old_vals.last() as u32, old_buf, d, bits);
            } else {
                assert((((old_buf << 6u32) | d) & 63) == d) by (bit_vector)
                    requires d < 64;
            }
        }
        buf = (buf << 6) | d;
        bits += 6;
        if bits >= 8 {
            bits -= 8;
            let byte = ((buf >> bits) & 0xFF) as u8;
            proof {
                let k = out@.len() as int;
                assert(6 * m == 8 * k + (bits + 2)) by (nonlinear_arith)
                    requires bits as int + 2 == (6 * m) % 8, k == (6 * m) / 8;
                assert(8 * k == 6 * (m - 1) + (6 - (bits + 2))) by (nonlinear_arith)
                    requires 6 * m == 8 * k + (bits + 2);
                assert((8 * k) / 6 == m - 1 && (8 * k) % 6 == 6 - (bits + 2)) by (nonlinear_arith)
                    requires 8 * k == 6 * (m - 1) + (6 - (bits + 2)), bits + 2 == 2 || bits + 2 == 4 || bits + 2 == 6;
                assert(vals[m - 1] == old_vals.last());
                assert(vals[m] == d as u8);
            }
            out.push(byte);
            proof {
                let k = (out@.len() - 1) as int;
                assert(out@[k] == regrouped_byte(vals, k));
                assert forall|j: int| 0 <= j < out@.len() implies out@[j] == regrouped_byte(vals, j) by {
                    if j < k {
                        assert(regrouped_byte(vals, j) == regrouped_byte(old_vals, j)) by {
                            assert((8 * j) / 6 + 1 < m) by (nonlinear_arith)
                                requires 0 <= j < k, 8 * k <= 6 * m - 2;
                        }
                    }
                }
                assert(out@.len() == (6 * vals.len()) / 8) by (nonlinear_arith)
                    requires out@.len() == k + 1, 8 * k == 6 * (m - 1) + (6 - (bits + 2)), vals.len() == m + 1, bits < 6;
            }
        } else {
            proof {
                assert(out@.len() == (6 * vals.len()) / 8) by (nonlinear_arith)
                    requires bits as int == (6 * m) % 8 + 6, bits < 8, out@.len() == (6 * m) / 8, vals.len() == m + 1;
                assert forall|j: int| 0 <= j < out@.len() implies out@[j] == regrouped_byte(vals, j) by {
                    assert((8 * j) / 6 + 1 < m) by (nonlinear_arith)
                        requires 0 <= j < (6 * m) / 8, (6 * m) % 8 == 0 || (6 * m) % 8 == 2 || (6 * m) % 8 == 4 || (6 * m) % 8 == 6;
                    assert(regrouped_byte(vals, j) == regrouped_byte(old_vals, j));
                }
            }
        }
        proof {
            assert(bits as int == (6 * vals.len()) % 8) by (nonlinear_arith)
                requires bits as int == ((6 * m) % 8 + 6) % 8, vals.len() == m + 1;
        }
        i += 1;
    }
    assert(bytes@.take(i as int) =~= bytes@);
    proof {
        assert(regrouped(vals) =~= out@);
    }
    Some(out)
}

proof fn lemma_sextets_none_extends(s: Seq<u8>, k: int)
    requires
        0 <= k <= s.len(),
        sextets(s.take(k)) is None,
    ensures
        sextets(s) is None,
    decreases s.len() - k,
{
    if k < s.len() {
        assert(s.take(k + 1).drop_last() =~= s.take(k));
        lemma_sextets_none_extends(s, k + 1);
    } else {
        assert(s.take(k) =~= s);
    }
}

// ───────────────────────── base64 laws ─────────────────────────

/// A byte that makes decoding fail: neither skipped nor a base64 digit.
pub open spec fn b64_foreign(c: u8) -> bool {
    !b64_skipped(c) && sextet_of(c) is None
}

/// Decoding fails exactly when the text holds a byte outside the alphabet,
/// `=` and ASCII whitespace.
pub proof fn lemma_base64_fails_on_foreign_bytes(s: Seq<u8>)
    ensures
        base64_decoded(s) is None <==> exists|i: int| 0 <= i < s.len() && b64_foreign(#[trigger] s[i]),
    decreases s.len(),
{
    if s.len() > 0 {
        let t = s.drop_last();
        lemma_base64_fails_on_foreign_bytes(t);
        if exists|i: int| 0 <= i < t.len() && b64_foreign(#[trigger] t[i]) {
            let i = choose|i: int| 0 <= i < t.len() && b64_foreign(#[trigger] t[i]);
            assert(s[i] == t[i]);
        }
        if exists|i: int| 0 <= i < s.len() && b64_foreign(#[trigger] s[i]) {
            let i = choose|i: int| 0 <= i < s.len() && b64_foreign(#[trigger] s[i]);
            if i < s.len() - 1 {
                assert(t[i] == s[i]);
            }
        }
        assert(s.last() == s[s.len() - 1]);
    }
}

/// The base64 character of a digit value below 64.
pub open spec fn b64_char(d: u8) -> u8 {
    if d < 26 {
        (0x41 + d) as u8
    } else if d < 52 {
        (0x61 + d - 26) as u8
    } else if d < 62 {
        (0x30 + d - 52) as u8
    } else if d == 62 {
        0x2Bu8
    } else {
        0x2Fu8
    }
}

/// The digit values of standard base64: four digits per three bytes, two
/// or three for a trailing one or two bytes.
pub open spec fn encoded_digits(b: Seq<u8>) -> Seq<u8>
    decreases b.len(),
{
    if b.len() == 0 {
        Seq::empty()
    } else if b.len() == 1 {
        seq![b[0] >> 2u8, (b[0] & 3u8) << 4u8]
    } else if b.len() == 2 {
        seq![b[0] >> 2u8, ((b[0] & 3u8) << 4u8) | (b[1] >> 4u8), (b[1] & 15u8) << 2u8]
    } else {
        seq![b[0] >> 2u8, ((b[0] & 3u8) << 4u8) | (b[1] >> 4u8), ((b[1] & 15u8) << 2u8) | (b[2] >> 6u8), b[2] & 63u8]
            + encoded_digits(b.skip(3))
    }
}

/// Standard base64 with `=` padding (the `STANDARD` engine's output).
pub open spec fn base64_encoded(b: Seq<u8>) -> Seq<u8> {
    let pad: Seq<u8> = if b.len() % 3 == 1 {
        seq![0x3Du8, 0x3Du8]
    } else if b.len() % 3 == 2 {
        seq![0x3Du8]
    } else {
        Seq::empty()
    };
    encoded_digits(b).map_values(|d: u8| b64_char(d)) + pad
}

proof fn lemma_b64_char(d: u8)
    requires
        d < 64,
    ensures
        sextet_of(b64_char(d)) == Some(d),
        !b64_skipped(b64_char(d)),
{
}

proof fn lemma_encoded_digits_small(b: Seq<u8>)
    ensures
        forall|k: int| 0 <= k < encoded_digits(b).len() ==> #[trigger] encoded_digits(b)[k] < 64,
        encoded_digits(b).len() == if b.len() % 3 == 0 { 4 * (b.len() / 3) } else { 4 * (b.len() / 3) + b.len() % 3 + 1 },
    decreases b.len(),
{
    if b.len() >= 3 {
        lemma_encoded_digits_small(b.skip(3));
        let (b0, b1, b2) = (b[0], b[1], b[2]);
        assert(b0 >> 2u8 < 64 && ((b0 & 3u8) << 4u8) | (b1 >> 4u8) < 64 && ((b1 & 15u8) << 2u8) | (b2 >> 6u8) < 64
            && b2 & 63u8 < 64) by (bit_vector);
        let g = seq![b0 >> 2u8, ((b0 & 3u8) << 4u8) | (b1 >> 4u8), ((b1 & 15u8) << 2u8) | (b2 >> 6u8), b2 & 63u8];
        assert forall|k: int| 0 <= k < encoded_digits(b).len() implies #[trigger] encoded_digits(b)[k] < 64 by {
            if k >= 4 {
                assert(encoded_digits(b)[k] == encoded_digits(b.skip(3))[k - 4]);
            }
        }
    } else if b.len() == 2 {
        let (b0, b1) = (b[0], b[1]);
        assert(b0 >> 2u8 < 64 && ((b0 & 3u8) << 4u8) | (b1 >> 4u8) < 64 && (b1 & 15u8) << 2u8 < 64) by (bit_vector);
    } else if b.len() == 1 {
        let b0 = b[0];
        assert(b0 >> 2u8 < 64 && (b0 & 3u8) << 4u8 < 64) by (bit_vector);
    }
}

proof fn lemma_sextets_of_chars(v: Seq<u8>)
    requires
        forall|k: int| 0 <= k < v.len() ==> #[trigger] v[k] < 64,
    ensures
        sextets(v.map_values(|d: u8| b64_char(d))) == Some(v),
    decreases v.len(),
{
    if v.len() > 0 {
        let c = v.map_values(|d: u8| b64_char(d));
        assert(c.drop_last() =~= v.drop_last().map_values(|d: u8| b64_char(d)));
        lemma_sextets_of_chars(v.drop_last());
        lemma_b64_char(v.last());
        assert(c.last() == b64_char(v.last()));
        assert(v.drop_last().push(v.last()) =~= v);
    } else {
        assert(v.map_values(|d: u8| b64_char(d)) =~= Seq::<u8>::empty());
    }
}

proof fn lemma_sextets_skip_padding(s: Seq<u8>, p: Seq<u8>)
    requires
        forall|k: int| 0 <= k < p.len() ==> b64_skipped(#[trigger] p[k]),
    ensures
        sextets(s + p) == sextets(s),
    decreases p.len(),
{
    if p.len() > 0 {
        assert((s + p).drop_last() =~= s + p.drop_last());
        lemma_sextets_skip_padding(s, p.drop_last());
        assert((s + p).last() == p[p.len() - 1]);
    } else {
        assert(s + p =~= s);
    }
}

proof fn lemma_regroup_shift(g: Seq<u8>, r: Seq<u8>, k: int)
    requires
        g.len() == 4,
        3 <= k < ((6 * (4 + r.len())) / 8) as int,
    ensures
        regrouped_byte(g + r, k) == regrouped_byte(r, k - 3),
{
    let v = g + r;
    let j = k - 3;
    assert((8 * k) / 6 == 4 + (8 * j) / 6 && (8 * k) % 6 == (8 * j) % 6) by (nonlinear_arith)
        requires j == k - 3, j >= 0;
    assert((8 * j) / 6 + 1 < r.len()) by (nonlinear_arith)
        requires 0 <= j, 3 + j < (6 * (4 + r.len())) / 8;
    let i = (8 * k) / 6;
    assert(v[i] == r[i - 4]);
    assert(v[i + 1] == r[i - 3]);
}

proof fn lemma_regrouped_digits(b: Seq<u8>)
    ensures
        regrouped(encoded_digits(b)) == b,
    decreases b.len(),
{
    lemma_encoded_digits_small(b);
    let v = encoded_digits(b);
    if b.len() >= 3 {
        let (b0, b1, b2) = (b[0], b[1], b[2]);
        let r = encoded_digits(b.skip(3));
        let g = seq![b0 >> 2u8, ((b0 & 3u8) << 4u8) | (b1 >> 4u8), ((b1 & 15u8) << 2u8) | (b2 >> 6u8), b2 & 63u8];
        assert(v == g + r);
        lemma_regrouped_digits(b.skip(3));
        lemma_encoded_digits_small(b.skip(3));
        assert((6 * (4 + r.len())) / 8 == 3 + (6 * r.len()) / 8) by (nonlinear_arith);
        assert(regrouped(v).len() == b.len());
        let (d0, d1, d2, d3) = (g[0], g[1], g[2], g[3]);
        assert((((d0 as u32) << 2u32) | ((d1 as u32) >> 4u32)) as u8 == b0) by (bit_vector)
            requires d0 == b0 >> 2u8, d1 == ((b0 & 3u8) << 4u8) | (b1 >> 4u8);
        assert(((((d1 as u32) & 0xFu32) << 4u32) | ((d2 as u32) >> 2u32)) as u8 == b1) by (bit_vector)
            requires d1 == ((b0 & 3u8) << 4u8) | (b1 >> 4u8), d2 == ((b1 & 15u8) << 2u8) | (b2 >> 6u8);
        assert(((((d2 as u32) & 0x3u32) << 6u32) | (d3 as u32)) as u8 == b2) by (bit_vector)
            requires d2 == ((b1 & 15u8) << 2u8) | (b2 >> 6u8), d3 == b2 & 63u8;
        assert forall|k: int| 0 <= k < b.len() implies #[trigger] regrouped(v)[k] == b[k] by {
            if k >= 3 {
                lemma_regroup_shift(g, r, k);
                assert(regrouped(r)[k - 3] == b.skip(3)[k - 3]);
            } else if k == 0 {
                assert((8 * 0) / 6 == 0 && (8 * 0) % 6 == 0);
            } else if k == 1 {
                assert((8 * 1) / 6 == 1 && (8 * 1) % 6 == 2);
            } else {
                assert((8 * 2) / 6 == 2 && (8 * 2) % 6 == 4);
            }
        }
        assert(regrouped(v) =~= b);
    } else if b.len() == 2 {
        let (b0, b1) = (b[0], b[1]);
        let (d0, d1, d2) = (v[0], v[1], v[2]);
        assert((((d0 as u32) << 2u32) | ((d1 as u32) >> 4u32)) as u8 == b0) by (bit_vector)
            requires d0 == b0 >> 2u8, d1 == ((b0 & 3u8) << 4u8) | (b1 >> 4u8);
        assert(((((d1 as u32) & 0xFu32) << 4u32) | ((d2 as u32) >> 2u32)) as u8 == b1) by (bit_vector)
            requires d1 == ((b0 & 3u8) << 4u8) | (b1 >> 4u8), d2 == (b1 & 15u8) << 2u8;
        assert((8 * 1) / 6 == 1 && (8 * 1) % 6 == 2);
        assert(regrouped(v) =~= b);
    } else if b.len() == 1 {
        let b0 = b[0];
        let (d0, d1) = (v[0], v[1]);
        assert((((d0 as u32) << 2u32) | ((d1 as u32) >> 4u32)) as u8 == b0) by (bit_vector)
            requires d0 == b0 >> 2u8, d1 == (b0 & 3u8) << 4u8;
        assert(regrouped(v) =~= b);
    } else {
        assert(regrouped(v) =~= b);
    }
}

/// Decoding gives back what standard base64 (with padding) encodes, for
/// every byte string.
pub proof fn lemma_base64_round_trip(b: Seq<u8>)
    ensures
        base64_decoded(base64_encoded(b)) == Some(b),
{
    let v = encoded_digits(b);
    lemma_encoded_digits_small(b);
    lemma_sextets_of_chars(v);
    let pad: Seq<u8> = if b.len() % 3 == 1 {
        seq![0x3Du8, 0x3Du8]
    } else if b.len() % 3 == 2 {
        seq![0x3Du8]
    } else {
        Seq::empty()
    };
    lemma_sextets_skip_padding(v.map_values(|d: u8| b64_char(d)), pad);
    lemma_regrouped_digits(b);
}

// ───────────────────────── API errors ─────────────────────────

/// Fields of a JSON error body that hold a readable message, in order.
pub const API_ERROR_FIELDS: [&'static str; 4] = ["/message", "/error", "/detail", "/reason"];

/// What serde_json finds at each of [`API_ERROR_FIELDS`] of a body, in order.
pub open spec fn api_error_lookups(body: Seq<char>) -> Seq<Option<Seq<char>>> {
    Seq::new(4, |j: int| json_pointer_str_of(body, API_ERROR_FIELDS[j]@))
}

/// The message of an error body given what its fields hold: the first field
/// that holds a string, else the body cut to its first 160 characters.
pub open spec fn error_message_from(body: Seq<char>, found: Seq<Option<Seq<char>>>) -> Seq<char> {
    match first_some(found) {
        Some(m) => m,
        None => if body.len() > 160 {
            body.take(160)
        } else {
            body
        },
    }
}

/// The readable message of an error body: the first of
/// [`API_ERROR_FIELDS`] holding a string, else the first 160 characters.
pub open spec fn api_error_message(body: Seq<char>) -> Seq<char> {
    error_message_from(body, api_error_lookups(body))
}

/// Pull a short human-readable error message out of a fish.audio JSON body,
/// or fall back to the truncated raw body.
pub fn extract_api_error(body: &str) -> (r: String)
    ensures
        r@ == api_error_message(body@),
{
    let mut found: Vec<Option<String>> = Vec::new();
    let mut k: usize = 0;
    while k < 4
        invariant
            k <= 4,
            found@.len() == k,
            forall|j: int| 0 <= j < k ==> opt_views(found@)[j] == #[trigger] api_error_lookups(body@)[j],
        decreases 4 - k,
    {
        let v = json_pointer_str(body, API_ERROR_FIELDS[k]);
        found.push(v);
        proof {
            assert(opt_views(found@)[k as int] == opt_string_view(v));
        }
        k += 1;
    }
    assert(opt_views(found@) =~= api_error_lookups(body@));
    error_message_from_lookups(body, &found)
}

/// The message of an error body given what its fields were found to hold
/// (see [`error_message_from`]).
pub fn error_message_from_lookups(body: &str, found: &Vec<Option<String>>) -> (r: String)
    ensures
        r@ == error_message_from(body@, opt_views(found@)),
{
    match first_found(found) {
        Some(m) => m,
        None => {
            let v = chars_of(body);
            if v.len() > 160 {
                let t = slice(&v, 0, 160);
                assert(t@ =~= body@.take(160));
                string_from_chars(t)
            } else {
                string_from_chars(v)
            }
        },
    }
}

// ───────────────────────── random voice ─────────────────────────

/// The voices `/random` picks from: the built-in voices, then every cloned
/// voice when the registry could be read.
pub open spec fn random_voice_pool(cloned: Option<Seq<Seq<char>>>) -> Seq<Seq<char>> {
    match cloned {
        Some(c) => seq![google()] + c,
        None => seq![google()],
    }
}

/// The names of the cloned voices, when the registry answered.
pub open spec fn cloned_names(cloned: Option<&Vec<String>>) -> Option<Seq<Seq<char>>> {
    match cloned {
        Some(c) => Some(c@.map_values(|s: String| s@)),
        None => None,
    }
}

/// A uniformly random voice of [`random_voice_pool`] (`cloned` being the
/// names of the registered cloned voices, when the registry answered).
pub fn pick_random_voice(cloned: Option<&Vec<String>>) -> (r: String)
    ensures
        exists|i: int| 0 <= i < random_voice_pool(cloned_names(cloned)).len()
            && r@ == #[trigger] random_voice_pool(cloned_names(cloned))[i],
{
    let names = random_voice_names(cloned);
    let i = random_below(names.len());
    voice_at_draw(cloned, i)
}

/// The voices of [`random_voice_pool`], in order.
pub fn random_voice_names(cloned: Option<&Vec<String>>) -> (names: Vec<String>)
    ensures
        names@.len() == random_voice_pool(cloned_names(cloned)).len(),
        forall|k: int| 0 <= k < names@.len() ==> (#[trigger] names@[k])@ == random_voice_pool(cloned_names(cloned))[k],
{
    let ghost pool = random_voice_pool(cloned_names(cloned));
    proof {
        reveal_strlit("Google");
        assert(AVAILABLE_VOICES[0]@ =~= google());
    }
    let mut names: Vec<String> = Vec::new();
    names.push(AVAILABLE_VOICES[0].to_string());
    match cloned {
        Some(c) => {
            let ghost cv = c@.map_values(|s: String| s@);
            let mut j: usize = 0;
            while j < c.len()
                invariant
                    j <= c@.len(),
                    cv == c@.map_values(|s: String| s@),
                    names@.len() == 1 + j,
                    names@[0]@ == google(),
                    forall|k: int| 0 <= k < j ==> (#[trigger] names@[k + 1])@ == cv[k],
                decreases c@.len() - j,
            {
                names.push(c[j].clone());
                j += 1;
            }
            assert forall|k: int| 0 <= k < names@.len() implies (#[trigger] names@[k])@ == pool[k] by {
                if k > 0 {
                    assert(names@[(k - 1) + 1]@ == cv[k - 1]);
                }
            }
        },
        None => {},
    }
    names
}

/// The voice a draw of `k` picks: entry `k` of the pool, so draw 0 is
/// `Google` and draw `j + 1` is the `j`-th cloned voice.
pub fn voice_at_draw(cloned: Option<&Vec<String>>, k: usize) -> (r: String)
    requires
        k < random_voice_pool(cloned_names(cloned)).len(),
    ensures
        r@ == random_voice_pool(cloned_names(cloned))[k as int],
        k == 0 ==> r@ == "Google"@,
        cloned matches Some(c) ==> (k >= 1 ==> r@ == c@[k - 1]@),
{
    proof {
        lemma_random_pool_members(cloned);
    }
    let names = random_voice_names(cloned);
    names[k].clone()
}

/// The pool `/random` draws from holds `Google` first and then every cloned
/// voice, in order, and nothing else; each of its entries is the voice of
/// one draw value below its length.
pub proof fn lemma_random_pool_members(cloned: Option<&Vec<String>>)
    ensures
        random_voice_pool(cloned_names(cloned)).len() == 1 + match cloned {
            Some(c) => c@.len(),
            None => 0,
        },
        random_voice_pool(cloned_names(cloned))[0] == "Google"@,
        cloned matches Some(c) ==> forall|j: int| 0 <= j < c@.len() ==> #[trigger] random_voice_pool(cloned_names(cloned))[j + 1]
            == c@[j]@,
{
    reveal_strlit("Google");
    assert("Google"@ =~= google());
}

// ───────────────────────── cached audio labels ─────────────────────────

/// What the id3 crate reads as the text of the `USLT` (lyrics) frame of an
/// audio file's ID3 tag, given the file's bytes; nothing without a tag or
/// such a frame.
pub uninterp spec fn id3_lyrics_of(bytes: Seq<u8>) -> Option<Seq<char>>;

/// Read the lyrics (the sentence text) from the ID3 tag of an audio file's
/// bytes: id3's `Tag::read_from2`, then the `USLT` frame (`TagLike::get`)
/// and its `Lyrics` content's text. The contract names the result; the ID3
/// format is the crate's.
#[verifier::external_body]
pub fn read_id3_lyrics(bytes: &[u8]) -> (r: Option<String>)
    ensures
        opt_string_view(r) == id3_lyrics_of(bytes@),
{
    match id3::Tag::read_from2(std::io::Cursor::new(bytes)) {
        Ok(tag) => match tag.get("USLT") {
            Some(frame) => match frame.content().lyrics() {
                Some(l) => Some(l.text.clone()),
                None => None,
            },
            None => None,
        },
        Err(_) => None,
    }
}

/// The label of a cached sentence: its lyrics, else `Cached audio`.
pub open spec fn sentence_label_of(lyrics: Option<Seq<char>>) -> Seq<char> {
    match lyrics {
        Some(l) => l,
        None => "Cached audio"@,
    }
}

/// The label `/random` shows for a cached file, given its lyrics.
pub fn sentence_label(lyrics: Option<String>) -> (r: String)
    ensures
        r@ == sentence_label_of(opt_string_view(lyrics)),
{
    match lyrics {
        Some(l) => l,
        None => "Cached audio".to_string(),
    }
}

/// The label `/random` shows for a cached file, given its bytes when it
/// could be read.
pub fn cached_sentence_label(bytes: Option<&[u8]>) -> (r: String)
    ensures
        r@ == sentence_label_of(match bytes {
            Some(b) => id3_lyrics_of(b@),
            None => None,
        }),
{
    match bytes {
        Some(b) => sentence_label(read_id3_lyrics(b)),
        None => sentence_label(None),
    }
}

// ───────────────────────── Google TTS ─────────────────────────

/// The Google TTS language of a `LANG` setting: `en` for `eng`, else `it`.
pub open spec fn google_language(lang: Seq<char>) -> Seq<char> {
    if lang == "eng"@ { "en"@ } else { "it"@ }
}

/// The Google TTS request URL for a text in a language setting.
pub fn google_tts_url(text: &str, lang: &str) -> (r: String)
    ensures
        r@ == "https://translate.google.com/translate_tts?ie=UTF-8&q="@ + percent_encode(text.spec_bytes()) + "&tl="@
            + google_language(lang@) + "&client=tw-ob"@,
{
    let mut v = chars_of("https://translate.google.com/translate_tts?ie=UTF-8&q=");
    let e = url_encode(text);
    append_str(&mut v, e.as_str());
    append_str(&mut v, "&tl=");
    let lv = chars_of(lang);
    if eq_str(&lv, "eng") {
        append_str(&mut v, "en");
    } else {
        append_str(&mut v, "it");
    }
    append_str(&mut v, "&client=tw-ob");
    string_from_chars(v)
}

/// Attempts at Google TTS before giving up.
pub const GOOGLE_ATTEMPTS: u64 = 3;

/// What one Google TTS attempt gave.
pub enum GoogleOutcome {
    /// The request could not be sent; the error as rendered.
    SendFailed(String),
    /// A non-success status, as rendered.
    Status(String),
    /// The body could not be read; the error as rendered.
    BodyFailed(String),
    /// A body of this many bytes.
    Body(usize),
}

/// What to do after an attempt.
pub enum GoogleAction {
    /// Use the body.
    Accept,
    /// Wait, then try again.
    Retry { wait_ms: u64 },
    /// Give up with this error.
    Fail(String),
}

/// Decide after Google TTS attempt `attempt` (counted from 1): a body of at
/// least 100 bytes is accepted; a failed send, a non-success status or a
/// short body is retried after `500 * attempt` ms until the third attempt,
/// which fails with its error; a body that cannot be read fails at once.
pub fn google_tts_step(attempt: u64, outcome: GoogleOutcome) -> (a: GoogleAction)
    requires
        1 <= attempt <= GOOGLE_ATTEMPTS,
    ensures
        match outcome {
            GoogleOutcome::Body(n) => if n >= 100 {
                a is Accept
            } else if attempt < GOOGLE_ATTEMPTS {
                a == GoogleAction::Retry { wait_ms: (500 * attempt) as u64 }
            } else {
                a matches GoogleAction::Fail(e) && e@ == "Google TTS returned too few bytes, possibly an error page"@
            },
            GoogleOutcome::BodyFailed(e) => a matches GoogleAction::Fail(m) && m@ == e@,
            GoogleOutcome::SendFailed(e) => if attempt < GOOGLE_ATTEMPTS {
                a == GoogleAction::Retry { wait_ms: (500 * attempt) as u64 }
            } else {
                a matches GoogleAction::Fail(m) && m@ == e@
            },
            GoogleOutcome::Status(st) => if attempt < GOOGLE_ATTEMPTS {
                a == GoogleAction::Retry { wait_ms: (500 * attempt) as u64 }
            } else {
                a matches GoogleAction::Fail(m) && m@ == "Google TTS returned status: "@ + st@
            },
        },
{
    match outcome {
        GoogleOutcome::Body(n) => {
            if n >= 100 {
                return GoogleAction::Accept;
            }
            if attempt < GOOGLE_ATTEMPTS {
                GoogleAction::Retry { wait_ms: 500 * attempt }
            } else {
                GoogleAction::Fail("Google TTS returned too few bytes, possibly an error page".to_string())
            }
        },
        GoogleOutcome::BodyFailed(e) => GoogleAction::Fail(e),
        GoogleOutcome::SendFailed(e) => {
            if attempt < GOOGLE_ATTEMPTS {
                GoogleAction::Retry { wait_ms: 500 * attempt }
            } else {
                GoogleAction::Fail(e)
            }
        },
        GoogleOutcome::Status(st) => {
            if attempt < GOOGLE_ATTEMPTS {
                GoogleAction::Retry { wait_ms: 500 * attempt }
            } else {
                let mut v = chars_of("Google TTS returned status: ");
                append_str(&mut v, st.as_str());
                GoogleAction::Fail(string_from_chars(v))
            }
        },
    }
}

// ───────────────────────── generation plan ─────────────────────────

/// `SAVE_MP3_ON_DISK` is on when its value, lowercased, is `true`
/// (unset counts as `false`).
pub open spec fn flag_enabled(value: Option<Seq<char>>) -> bool {
    match value {
        Some(v) => lowercase_of(v) == "true"@,
        None => false,
    }
}

/// Whether a boolean setting (`SAVE_MP3_ON_DISK`, `TEL_ENABLED`, ...) is on.
pub fn env_flag(value: Option<&str>) -> (b: bool)
    ensures
        b == flag_enabled(match value { Some(v) => Some(v@), None => None }),
{
    match value {
        Some(v) => {
            let l = to_lowercase(v);
            let lv = chars_of(l.as_str());
            eq_str(&lv, "true")
        },
        None => false,
    }
}

/// Whether an effect changes the audio (anything but `none` and `random`).
pub fn effect_is_applied(effect: &str) -> (b: bool)
    ensures
        b == effect_applies(effect@),
{
    let e = chars_of(effect);
    effect_applies_vec(&e)
}

/// `<temp_dir>/tts_<token>[_<effect>]_<hash>.mp3`, the token with `|` as `_`.
pub open spec fn temp_tts_path(temp_dir: Seq<char>, voice: Seq<char>, effect: Seq<char>, hash: Seq<char>) -> Seq<char> {
    let token = replace_all(voice_token_of(voice), seq!['|'], seq!['_']);
    temp_dir + "/tts_"@ + token + (if effect_applies(effect) { seq!['_'] + effect } else { Seq::empty() }) + seq!['_']
        + hash + ".mp3"@
}

/// Path of a temporary audio file for a voice, text and effect.
pub fn get_temp_path(temp_dir: &str, voice: &str, text: &str, effect: &str) -> (r: String)
    ensures
        r@ == temp_tts_path(temp_dir@, voice@, effect@, md5_hex_of(text.spec_bytes())),
{
    let hash = md5_hex(text);
    temp_path_for_hash(temp_dir, voice, hash.as_str(), effect)
}

/// Path of a temporary audio file for a voice, an already computed text hash
/// and an effect.
pub fn temp_path_for_hash(temp_dir: &str, voice: &str, hash: &str, effect: &str) -> (r: String)
    ensures
        r@ == temp_tts_path(temp_dir@, voice@, effect@, hash@),
{
    let v = chars_of(voice);
    let e = chars_of(effect);
    let vt = voice_token_vec(&v);
    proof {
        reveal_strlit("|");
        reveal_strlit("_");
        assert("|"@ =~= seq!['|']);
        assert("_"@ =~= seq!['_']);
    }
    let token = replace_str(&vt, "|", "_");
    let mut p = chars_of(temp_dir);
    append_str(&mut p, "/tts_");
    append(&mut p, &token);
    let ghost before = p@;
    if effect_applies_vec(&e) {
        p.push('_');
        append(&mut p, &e);
        assert(p@ =~= before + (seq!['_'] + e@));
    } else {
        assert(p@ =~= before + Seq::<char>::empty());
    }
    p.push('_');
    append_str(&mut p, hash);
    append_str(&mut p, ".mp3");
    string_from_chars(p)
}

/// Where the audio for a request comes from once the cache missed.
pub enum AudioSource {
    /// The cloned voice of that name produced the audio.
    Clone(String),
    /// The cloned voice failed with the given error; Google produced it.
    CloneFallback { name: String, error: String },
    /// The Google voice.
    Google,
}

/// Writing the generated bytes into the plain cache, with ID3 tags
/// (`artist`, and the text as title and lyrics).
pub struct CacheWrite {
    pub path: String,
    pub artist: String,
}

/// Writing the bytes (through `effect` when set) to a temporary file that
/// is removed after a while.
pub struct TempWrite {
    pub path: String,
    pub effect: Option<String>,
}

/// What to do with freshly generated audio, and what the request returns.
pub struct GeneratedPlan {
    pub cache_write: Option<CacheWrite>,
    pub temp_write: Option<TempWrite>,
    pub result: TtsResult,
}

/// The voice whose token names the cache entry of generated audio.
pub open spec fn source_voice(src: AudioSource) -> Seq<char> {
    match src {
        AudioSource::Clone(name) => name@,
        _ => google(),
    }
}

/// The notice shown when a cloned voice fell back to Google.
pub open spec fn fallback_notice(name: Seq<char>, error: Seq<char>) -> Seq<char> {
    "⚠️ Voce clonata '"@ + name + "' non disponibile ("@ + error + "), sto usando Google"@
}

/// The message when both the cloned voice and Google failed.
pub fn clone_and_google_failed(name: &str, clone_error: &str, google_error: &str) -> (r: String)
    ensures
        r@ == "clone '"@ + name@ + "' failed ("@ + clone_error@ + ") and Google TTS also failed ("@ + google_error@ + ")"@,
{
    let mut v = chars_of("clone '");
    append_str(&mut v, name);
    append_str(&mut v, "' failed (");
    append_str(&mut v, clone_error);
    append_str(&mut v, ") and Google TTS also failed (");
    append_str(&mut v, google_error);
    append_str(&mut v, ")");
    string_from_chars(v)
}

/// The plain cache path the generated audio belongs to.
pub fn generated_plain_path(src: &AudioSource, text: &str) -> (r: String)
    ensures
        r@ == cache_path(source_voice(*src), md5_hex_of(text.spec_bytes()), seq!['n', 'o', 'n', 'e']),
{
    match src {
        AudioSource::Clone(name) => get_file_path(name.as_str(), text),
        _ => {
            proof {
                reveal_strlit("Google");
                assert("Google"@ =~= google());
            }
            get_file_path("Google", text)
        },
    }
}

/// What [`plan_generated_audio`] decides, for the hash of the text.
pub open spec fn generated_plan_spec(
    r: GeneratedPlan,
    save_mp3: bool,
    temp_dir: Seq<char>,
    voice: Seq<char>,
    hash: Seq<char>,
    effect: Seq<char>,
    src: AudioSource,
    plain_exists: bool,
) -> bool {
    let plain = cache_path(source_voice(src), hash, seq!['n', 'o', 'n', 'e']);
    let apply = effect_applies(effect);
    let temp = temp_tts_path(temp_dir, source_voice(src), effect, hash);
    match src {
        AudioSource::Google => if save_mp3 {
            &&& (plain_exists ==> r.cache_write is None && r.temp_write is None && r.result.file_path@ == plain)
            &&& (!plain_exists ==> (r.cache_write matches Some(w) && w.path@ == plain && w.artist@ == google()))
            &&& (!plain_exists && apply ==> (r.temp_write matches Some(t) && t.path@ == temp
                && (t.effect matches Some(e) && e@ == effect) && r.result.file_path@ == temp))
            &&& (!plain_exists && !apply ==> r.temp_write is None && r.result.file_path@ == plain)
            &&& r.result.actual_voice@ == google()
            &&& r.result.fallback_used is None
        } else {
            &&& r.cache_write is None
            &&& (r.temp_write matches Some(t) && t.path@ == temp && (apply ==> (t.effect matches Some(e) && e@ == effect))
                && (!apply ==> t.effect is None))
            &&& r.result.file_path@ == temp
            &&& r.result.actual_voice@ == google()
            &&& r.result.fallback_used is None
        },
        AudioSource::Clone(name) => if save_mp3 && !apply {
            &&& r.temp_write is None
            &&& (plain_exists ==> r.cache_write is None)
            &&& (!plain_exists ==> (r.cache_write matches Some(w) && w.path@ == plain && w.artist@ == "clone:"@ + name@))
            &&& r.result.file_path@ == plain
            &&& r.result.actual_voice@ == voice
            &&& r.result.fallback_used is None
        } else {
            &&& r.cache_write is None
            &&& (r.temp_write matches Some(t) && t.path@ == temp && (apply ==> (t.effect matches Some(e) && e@ == effect))
                && (!apply ==> t.effect is None))
            &&& r.result.file_path@ == temp
            &&& r.result.actual_voice@ == name@
            &&& r.result.fallback_used is None
        },
        AudioSource::CloneFallback { name, error } => {
            &&& r.cache_write is None
            &&& (r.temp_write matches Some(t) && t.path@ == temp && (apply ==> (t.effect matches Some(e) && e@ == effect))
                && (!apply ==> t.effect is None))
            &&& r.result.file_path@ == temp
            &&& r.result.actual_voice@ == google()
            &&& (r.result.fallback_used matches Some(m) && m@ == fallback_notice(name@, error@))
        },
    }
}

/// Decide what happens to generated audio. `plain_exists` tells whether the
/// plain cache file of [`generated_plain_path`] is already on disk.
pub fn plan_generated_audio(
    save_mp3: bool,
    temp_dir: &str,
    voice: &str,
    text: &str,
    effect: &str,
    src: &AudioSource,
    plain_exists: bool,
) -> (r: GeneratedPlan)
    ensures
        generated_plan_spec(r, save_mp3, temp_dir@, voice@, md5_hex_of(text.spec_bytes()), effect@, *src, plain_exists),
{
    let hash = md5_hex(text);
    plan_generated_audio_for_hash(save_mp3, temp_dir, voice, hash.as_str(), effect, src, plain_exists)
}

/// [`plan_generated_audio`] for an already computed hash of the text.
pub fn plan_generated_audio_for_hash(
    save_mp3: bool,
    temp_dir: &str,
    voice: &str,
    hash: &str,
    effect: &str,
    src: &AudioSource,
    plain_exists: bool,
) -> (r: GeneratedPlan)
    ensures
        generated_plan_spec(r, save_mp3, temp_dir@, voice@, hash@, effect@, *src, plain_exists),
{
    let apply = effect_is_applied(effect);
    proof {
        reveal_strlit("Google");
        reveal_strlit("none");
        assert("Google"@ =~= google());
        assert("none"@ =~= seq!['n', 'o', 'n', 'e']);
    }
    let src_voice: String = match src {
        AudioSource::Clone(name) => name.clone(),
        _ => "Google".to_string(),
    };
    let plain = cache_path_for_hash(src_voice.as_str(), hash, "none");
    let temp = temp_path_for_hash(temp_dir, src_voice.as_str(), hash, effect);
    let temp_effect: Option<String> = if apply { Some(effect.to_string()) } else { None };
    match src {
        AudioSource::Google => {
            if save_mp3 {
                if plain_exists {
                    GeneratedPlan {
                        cache_write: None,
                        temp_write: None,
                        result: TtsResult { file_path: plain, actual_voice: "Google".to_string(), fallback_used: None },
                    }
                } else {
                    let w = CacheWrite { path: plain.clone(), artist: "Google".to_string() };
                    if apply {
                        GeneratedPlan {
                            cache_write: Some(w),
                            temp_write: Some(TempWrite { path: temp.clone(), effect: Some(effect.to_string()) }),
                            result: TtsResult { file_path: temp, actual_voice: "Google".to_string(), fallback_used: None },
                        }
                    } else {
                        GeneratedPlan {
                            cache_write: Some(w),
                            temp_write: None,
                            result: TtsResult { file_path: plain, actual_voice: "Google".to_string(), fallback_used: None },
                        }
                    }
                }
            } else {
                GeneratedPlan {
                    cache_write: None,
                    temp_write: Some(TempWrite { path: temp.clone(), effect: temp_effect }),
                    result: TtsResult { file_path: temp, actual_voice: "Google".to_string(), fallback_used: None },
                }
            }
        },
        AudioSource::Clone(name) => {
            if save_mp3 && !apply {
                let mut artist = chars_of("clone:");
                append_str(&mut artist, name.as_str());
                let cw = if plain_exists {
                    None
                } else {
                    Some(CacheWrite { path: plain.clone(), artist: string_from_chars(artist) })
                };
                GeneratedPlan {
                    cache_write: cw,
                    temp_write: None,
                    result: TtsResult { file_path: plain, actual_voice: voice.to_string(), fallback_used: None },
                }
            } else {
                GeneratedPlan {
                    cache_write: None,
                    temp_write: Some(TempWrite { path: temp.clone(), effect: temp_effect }),
                    result: TtsResult { file_path: temp, actual_voice: name.clone(), fallback_used: None },
                }
            }
        },
        AudioSource::CloneFallback { name, error } => {
            let mut m = chars_of("⚠️ Voce clonata '");
            append_str(&mut m, name.as_str());
            append_str(&mut m, "' non disponibile (");
            append_str(&mut m, error.as_str());
            append_str(&mut m, "), sto usando Google");
            GeneratedPlan {
                cache_write: None,
                temp_write: Some(TempWrite { path: temp.clone(), effect: temp_effect }),
                result: TtsResult {
                    file_path: temp,
                    actual_voice: "Google".to_string(),
                    fallback_used: Some(string_from_chars(m)),
                },
            }
        },
    }
}

/// What a request that hits the plain cache does.
pub enum CachedPlan {
    /// Play the cached file as it is.
    Play(TtsResult),
    /// Run the cached file through the effect into `temp`, then play that.
    Effect { input: String, temp: String, result: TtsResult },
}

/// Plan a request whose plain cache file (the [`get_file_path`] of the
/// voice and text) exists.
pub fn plan_cache_hit(temp_dir: &str, voice: &str, text: &str, effect: &str) -> (r: CachedPlan)
    ensures
        cached_plan_spec(r, temp_dir@, voice@, md5_hex_of(text.spec_bytes()), effect@),
{
    let hash = md5_hex(text);
    plan_cache_hit_for_hash(temp_dir, voice, hash.as_str(), effect)
}

/// What [`plan_cache_hit`] decides, for the hash of the text.
pub open spec fn cached_plan_spec(r: CachedPlan, temp_dir: Seq<char>, voice: Seq<char>, hash: Seq<char>, effect: Seq<char>) -> bool {
    let plain = cache_path(voice, hash, seq!['n', 'o', 'n', 'e']);
    if effect_applies(effect) {
        r matches CachedPlan::Effect { input, temp, result } && input@ == plain
            && temp@ == temp_tts_path(temp_dir, voice, effect, hash) && result.file_path@ == temp@
            && result.actual_voice@ == voice && result.fallback_used is None
    } else {
        r matches CachedPlan::Play(result) && result.file_path@ == plain && result.actual_voice@ == voice
            && result.fallback_used is None
    }
}

/// [`plan_cache_hit`] for an already computed hash of the text.
pub fn plan_cache_hit_for_hash(temp_dir: &str, voice: &str, hash: &str, effect: &str) -> (r: CachedPlan)
    ensures
        cached_plan_spec(r, temp_dir@, voice@, hash@, effect@),
{
    proof {
        reveal_strlit("none");
        assert("none"@ =~= seq!['n', 'o', 'n', 'e']);
    }
    let plain = cache_path_for_hash(voice, hash, "none");
    if effect_is_applied(effect) {
        let temp = temp_path_for_hash(temp_dir, voice, hash, effect);
        CachedPlan::Effect {
            input: plain,
            temp: temp.clone(),
            result: TtsResult { file_path: temp, actual_voice: voice.to_string(), fallback_used: None },
        }
    } else {
        CachedPlan::Play(TtsResult { file_path: plain, actual_voice: voice.to_string(), fallback_used: None })
    }
}

// ───────────────────────── laws ─────────────────────────

/// The three spellings of a cloned voice (`clone:<name>`, `clone|<name>`
/// and the plain name) share one cache token, `clone|<name>`, and that
/// token is displayed as the plain name again.
pub proof fn lemma_clone_spellings_share_token(name: Seq<char>)
    requires
        clone_name_ok(name),
    ensures
        voice_token_of(clone_colon() + name) == clone_pipe() + name,
        voice_token_of(clone_pipe() + name) == clone_pipe() + name,
        voice_token_of(name) == clone_pipe() + name,
        voice_name_from_token(clone_pipe() + name) == name,
        valid_voice(clone_colon() + name) && valid_voice(clone_pipe() + name) && valid_voice(name),
{
    let c = clone_colon() + name;
    let p = clone_pipe() + name;
    assert(c.take(6) =~= clone_colon());
    assert(p.take(6) =~= clone_pipe());
    assert(c.skip(6) =~= name);
    assert(p.skip(6) =~= name);
    assert(!starts_with(c, clone_pipe())) by {
        assert(c[5] != clone_pipe()[5]);
    }
    if starts_with(name, clone_pipe()) || starts_with(name, clone_colon()) {
        assert(is_ascii_alnum(name[5]) || name[5] == '-' || name[5] == '_');
        assert(name.take(6)[5] == name[5]);
    }
    if name == google() {
        assert(eq_ignore_ascii_case(name, reserved_names()[0])) by {
            assert forall|i: int| 0 <= i < name.len() implies crate::text::ascii_lower(#[trigger] name[i])
                == crate::text::ascii_lower(reserved_names()[0][i]) by {
            }
        }
    }
}

/// An effect that changes nothing (`none`, `random`) never names a cache
/// entry of its own: such requests share the plain audio's path.
pub proof fn lemma_plain_effects_share_path(voice: Seq<char>, hash: Seq<char>)
    ensures
        cache_path(voice, hash, "random"@) == cache_path(voice, hash, seq!['n', 'o', 'n', 'e']),
        cache_path(voice, hash, "none"@) == cache_path(voice, hash, seq!['n', 'o', 'n', 'e']),
{
    reveal_strlit("random");
    reveal_strlit("none");
    assert("none"@ =~= seq!['n', 'o', 'n', 'e']);
    assert("random"@ =~= seq!['r', 'a', 'n', 'd', 'o', 'm']);
}
} // verus!
