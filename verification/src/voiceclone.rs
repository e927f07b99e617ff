//! The voice-clone service: voice names and tokens, request validation,
//! the WAV reader used for reference samples, and the cache layout shared
//! with the bots.
use vstd::prelude::*;
use crate::text::{
    chars_of, eq_str, trim, trim_ws, is_ascii_alnum, char_is_ascii_alnum, lowercase_of, to_lowercase,
    string_from_chars, append, append_str, decimal, decimal_chars, eq_ignore_ascii_case, eq_ignore_case,
    starts_with, slice_all,
};
use crate::deps::{md5_hex, md5_hex_of};
use vstd::string::StringSliceAdditionalSpecFns;

verus! {

/// A voice name the service accepts: trimmed, 1 to 64 ASCII letters,
/// digits, `-` or `_`, and not `Google`, `random` or `none`.
pub open spec fn voice_name_ok(name: Seq<char>) -> bool {
    let n = trim(name);
    &&& n.len() > 0
    &&& n.len() <= 64
    &&& forall|i: int| 0 <= i < n.len() ==> {
        let c = #[trigger] n[i];
        is_ascii_alnum(c) || c == '-' || c == '_'
    }
    &&& n != "Google"@
    &&& n != "random"@
    &&& n != "none"@
}

/// Check a voice name.
pub fn valid_voice_name(name: &str) -> (b: bool)
    ensures
        b == voice_name_ok(name@),
{
    let v = chars_of(name);
    let n = trim_ws(&v);
    if n.len() == 0 || n.len() > 64 {
        return false;
    }
    let mut i: usize = 0;
    while i < n.len()
        invariant
            n@ == trim(name@),
            i <= n@.len(),
            forall|k: int| 0 <= k < i ==> {
                let c = #[trigger] n@[k];
                is_ascii_alnum(c) || c == '-' || c == '_'
            },
        decreases n@.len() - i,
    {
        let c = n[i];
        if !(char_is_ascii_alnum(c) || c == '-' || c == '_') {
            proof {
                assert(n@[i as int] == c);
                assert(trim(name@)[i as int] == c);
            }
            return false;
        }
        i += 1;
    }
    !eq_str(&n, "Google") && !eq_str(&n, "random") && !eq_str(&n, "none")
}

/// The token used in file names for a cloned voice: `clone|<name>`.
pub fn voice_token(name: &str) -> (r: String)
    ensures
        r@ == "clone|"@ + trim(name@),
{
    let v = chars_of(name);
    let t = trim_ws(&v);
    let mut r = chars_of("clone|");
    append(&mut r, &t);
    string_from_chars(r)
}

/// `<audios_dir>/clone|<name>_<md5(text)>.mp3`: where synthesized audio is cached.
pub fn synth_cache_path(audios_dir: &str, voice: &str, text: &str) -> (r: String)
    ensures
        r@ == audios_dir@ + "/"@ + "clone|"@ + trim(voice@) + "_"@ + md5_hex_of(text.spec_bytes()) + ".mp3"@,
{
    let h = md5_hex(text);
    synth_cache_path_for_hash(audios_dir, voice, h.as_str())
}

/// [`synth_cache_path`] for an already computed hash of the text.
pub fn synth_cache_path_for_hash(audios_dir: &str, voice: &str, hash: &str) -> (r: String)
    ensures
        r@ == audios_dir@ + "/"@ + "clone|"@ + trim(voice@) + "_"@ + hash@ + ".mp3"@,
{
    let mut r = chars_of(audios_dir);
    append_str(&mut r, "/");
    let t = voice_token(voice);
    append_str(&mut r, t.as_str());
    append_str(&mut r, "_");
    append_str(&mut r, hash);
    append_str(&mut r, ".mp3");
    string_from_chars(r)
}

/// Cached files of a voice start with this prefix: `clone|<name>_`.
pub fn cache_prefix(name: &str) -> (r: String)
    ensures
        r@ == "clone|"@ + name@ + "_"@,
{
    let mut r = chars_of("clone|");
    append_str(&mut r, name);
    append_str(&mut r, "_");
    string_from_chars(r)
}

/// Status codes the service answers with.
pub const BAD_REQUEST: u16 = 400;
pub const NOT_FOUND: u16 = 404;
pub const CONFLICT: u16 = 409;

/// A synthesis request checked: the trimmed text (1 to 600 characters) and
/// the trimmed voice name (not empty).
pub open spec fn synthesize_check(text: Seq<char>, voice: Seq<char>) -> Result<(Seq<char>, Seq<char>), Seq<char>> {
    let t = trim(text);
    let v = trim(voice);
    if t.len() == 0 {
        Err("text is required"@)
    } else if t.len() > 600 {
        Err("text too long"@)
    } else if v.len() == 0 {
        Err("voice is required"@)
    } else {
        Ok((t, v))
    }
}

/// Validate a synthesis request; an error is answered with `400`.
pub fn validate_synthesize(text: &str, voice: &str) -> (r: Result<(String, String), (u16, String)>)
    ensures
        match r {
            Ok((t, v)) => synthesize_check(text@, voice@) == Ok::<(Seq<char>, Seq<char>), Seq<char>>((t@, v@)),
            Err((code, m)) => code == BAD_REQUEST && synthesize_check(text@, voice@) == Err::<(Seq<char>, Seq<char>), Seq<char>>(m@),
        },
{
    let tv = chars_of(text);
    let t = trim_ws(&tv);
    if t.len() == 0 {
        return Err((BAD_REQUEST, "text is required".to_string()));
    }
    if t.len() > 600 {
        return Err((BAD_REQUEST, "text too long".to_string()));
    }
    let vv = chars_of(voice);
    let v = trim_ws(&vv);
    if v.len() == 0 {
        return Err((BAD_REQUEST, "voice is required".to_string()));
    }
    Ok((string_from_chars(t), string_from_chars(v)))
}

/// The checks of a voice creation before its sample is decoded: the name,
/// the voice limit, and the decoded sample size.
pub fn validate_create(name: &str, total_voices: i64, max_voices: i64, sample_len: usize) -> (r: Result<(), (u16, String)>)
    ensures
        match r {
            Ok(()) => voice_name_ok(name@) && total_voices < max_voices && 4000 <= sample_len <= 12_000_000,
            Err((code, m)) => if !voice_name_ok(name@) {
                code == BAD_REQUEST
                    && m@ == "invalid voice name (allowed: A-Z a-z 0-9 _ -, length 1-64, not Google/random)"@
            } else if total_voices >= max_voices {
                code == CONFLICT && m@ == "voice limit reached ("@ + crate::text::decimal_int(max_voices as int)
                    + "); delete one first"@
            } else {
                code == BAD_REQUEST && !(4000 <= sample_len <= 12_000_000) && m@
                    == "audio sample must be between 4KB and 12MB (got "@ + decimal(sample_len as nat) + " bytes)"@
            },
        },
{
    if !valid_voice_name(name) {
        return Err((BAD_REQUEST, "invalid voice name (allowed: A-Z a-z 0-9 _ -, length 1-64, not Google/random)".to_string()));
    }
    if total_voices >= max_voices {
        let mut m = chars_of("voice limit reached (");
        let d = crate::text::decimal_chars_i64(max_voices);
        append(&mut m, &d);
        append_str(&mut m, "); delete one first");
        return Err((CONFLICT, string_from_chars(m)));
    }
    if sample_len < 4000 || sample_len > 12_000_000 {
        let mut m = chars_of("audio sample must be between 4KB and 12MB (got ");
        let d = decimal_chars(sample_len as u64);
        append(&mut m, &d);
        append_str(&mut m, " bytes)");
        return Err((BAD_REQUEST, string_from_chars(m)));
    }
    Ok(())
}

/// The answer when a deletion removed nothing.
pub fn delete_outcome(name: &str, rows_affected: u64) -> (r: Result<(), (u16, String)>)
    ensures
        rows_affected == 0 ==> (r matches Err((code, m)) && code == NOT_FOUND && m@ == "voice '"@ + trim(name@) + "' not found"@),
        rows_affected > 0 ==> r is Ok,
{
    if rows_affected == 0 {
        let v = chars_of(name);
        let t = trim_ws(&v);
        let mut m = chars_of("voice '");
        append(&mut m, &t);
        append_str(&mut m, "' not found");
        Err((NOT_FOUND, string_from_chars(m)))
    } else {
        Ok(())
    }
}

/// A language hint for speech recognition: trimmed and lowercased, unless
/// blank or `auto`.
pub open spec fn usable_hint(h: Option<Seq<char>>) -> Option<Seq<char>> {
    match h {
        Some(s) => {
            let l = lowercase_of(trim(s));
            if l.len() > 0 && !eq_ignore_ascii_case(l, "auto"@) { Some(l) } else { None }
        },
        None => None,
    }
}

fn usable_hint_exec(h: Option<&str>) -> (r: Option<String>)
    ensures
        match r {
            Some(s) => usable_hint(match h { Some(x) => Some(x@), None => None }) == Some(s@),
            None => usable_hint(match h { Some(x) => Some(x@), None => None }) is None,
        },
{
    match h {
        Some(s) => {
            let v = chars_of(s);
            let t = string_from_chars(trim_ws(&v));
            let l = to_lowercase(t.as_str());
            let lv = chars_of(l.as_str());
            let auto = chars_of("auto");
            if lv.len() > 0 && !eq_ignore_case(&lv, &auto) {
                Some(l)
            } else {
                None
            }
        },
        None => None,
    }
}

/// The recognition language: the request's hint, else the configured
/// default (`VOICECLONE_STT_LANG`), else empty (auto-detect).
pub fn stt_language(query: Option<&str>, default: Option<&str>) -> (r: String)
    ensures
        r@ == match usable_hint(match query { Some(x) => Some(x@), None => None }) {
            Some(l) => l,
            None => match usable_hint(match default { Some(x) => Some(x@), None => None }) {
                Some(l) => l,
                None => Seq::empty(),
            },
        },
{
    match usable_hint_exec(query) {
        Some(l) => l,
        None => match usable_hint_exec(default) {
            Some(l) => l,
            None => String::new(),
        },
    }
}

/// Longest recording accepted for recognition, in seconds.
pub const MAX_STT_SECS: u64 = 60;

/// Whether a recording is short enough to transcribe: at most a minute at
/// its sample rate.
pub fn stt_length_ok(samples: usize, rate: u32) -> (b: bool)
    ensures
        b == (samples <= rate as int * 60),
{
    (samples as u64) <= (rate as u64) * 60
}

// ───────────────────────── WAV ─────────────────────────

/// Little-endian 16-bit value at `i`.
pub open spec fn le16(b: Seq<u8>, i: int) -> nat {
    (b[i] + 256 * b[i + 1]) as nat
}

/// Little-endian 32-bit value at `i`.
pub open spec fn le32(b: Seq<u8>, i: int) -> nat {
    (b[i] + 256 * b[i + 1] + 65536 * b[i + 2] + 16777216 * b[i + 3]) as nat
}

/// The four bytes at `i` spell `tag`.
pub open spec fn tag_at(b: Seq<u8>, i: int, tag: Seq<u8>) -> bool {
    tag.len() == 4 && i + 4 <= b.len() && b.subrange(i, i + 4) == tag
}

pub open spec fn riff() -> Seq<u8> { seq![0x52u8, 0x49, 0x46, 0x46] }
pub open spec fn wave() -> Seq<u8> { seq![0x57u8, 0x41, 0x56, 0x45] }
pub open spec fn fmt_tag() -> Seq<u8> { seq![0x66u8, 0x6D, 0x74, 0x20] }
pub open spec fn data_tag() -> Seq<u8> { seq![0x64u8, 0x61, 0x74, 0x61] }

/// Sample rate used for the one-minute limit: the header's rate for a
/// 16-bit PCM WAV, else 24 kHz (what the bots send as MP3).
pub open spec fn sample_rate_of(b: Seq<u8>) -> nat {
    if b.len() > 28 && tag_at(b, 0, riff()) && tag_at(b, 8, wave()) { le32(b, 24) } else { 24000 }
}

fn tag_is(b: &[u8], i: usize, t0: u8, t1: u8, t2: u8, t3: u8) -> (r: bool)
    requires
        i + 4 <= b@.len(),
    ensures
        r == tag_at(b@, i as int, seq![t0, t1, t2, t3]),
{
    let r = b[i] == t0 && b[i + 1] == t1 && b[i + 2] == t2 && b[i + 3] == t3;
    proof {
        if r {
            assert(b@.subrange(i as int, i + 4) =~= seq![t0, t1, t2, t3]);
        } else {
            if b@.subrange(i as int, i + 4) == seq![t0, t1, t2, t3] {
                assert(b@.subrange(i as int, i + 4)[0] == t0);
                assert(b@.subrange(i as int, i + 4)[1] == t1);
                assert(b@.subrange(i as int, i + 4)[2] == t2);
                assert(b@.subrange(i as int, i + 4)[3] == t3);
            }
        }
    }
    r
}

fn read_le32(b: &[u8], i: usize) -> (r: u64)
    requires
        i + 4 <= b@.len(),
    ensures
        r == le32(b@, i as int),
{
    b[i] as u64 + 256 * (b[i + 1] as u64) + 65536 * (b[i + 2] as u64) + 16777216 * (b[i + 3] as u64)
}

fn read_le16(b: &[u8], i: usize) -> (r: u64)
    requires
        i + 2 <= b@.len(),
    ensures
        r == le16(b@, i as int),
{
    b[i] as u64 + 256 * (b[i + 1] as u64)
}

/// Sample rate of an upload, for the one-minute limit.
pub fn decode_sample_rate(bytes: &[u8]) -> (r: Option<u32>)
    ensures
        r == Some(sample_rate_of(bytes@) as u32),
{
    if bytes.len() > 28 && tag_is(bytes, 0, 0x52, 0x49, 0x46, 0x46) && tag_is(bytes, 8, 0x57, 0x41, 0x56, 0x45) {
        let v = read_le32(bytes, 24);
        Some(v as u32)
    } else {
        Some(24000)
    }
}

/// Walking the chunks of a WAV file from offset `i`: the channel count and
/// rate of the last `fmt ` chunk and the span of the last `data` chunk seen;
/// `None` for a truncated or short `fmt ` chunk.
pub open spec fn wav_walk(b: Seq<u8>, i: int, channels: nat, rate: nat, data: Option<(int, int)>) -> Option<(nat, nat, Option<(int, int)>)>
    decreases b.len() - i,
{
    if i < 0 || i + 8 > b.len() {
        Some((channels, rate, data))
    } else {
        let size = le32(b, i + 4);
        let next = i + 8 + size + size % 2;
        let state = if tag_at(b, i, fmt_tag()) {
            if i + 8 + size > b.len() || size < 16 {
                None
            } else {
                let ch = le16(b, i + 10);
                Some((if ch == 0 { 1 } else { ch }, le32(b, i + 12), data))
            }
        } else if tag_at(b, i, data_tag()) {
            let end = if i + 8 + size < b.len() { i + 8 + size } else { b.len() as int };
            Some((channels, rate, Some((i + 8, end))))
        } else {
            Some((channels, rate, data))
        };
        match state {
            None => None,
            Some((c2, r2, d2)) => if next > b.len() {
                Some((c2, r2, d2))
            } else {
                wav_walk(b, next, c2, r2, d2)
            },
        }
    }
}

/// The little-endian 16-bit samples of a byte span (a trailing odd byte is
/// dropped).
pub open spec fn pcm16(d: Seq<u8>) -> Seq<i16> {
    Seq::new(d.len() / 2, |k: int| ((d[2 * k] as u16) | ((d[2 * k + 1] as u16) << 8u16)) as i16)
}

/// A decoded 16-bit PCM WAV file.
pub struct WavData {
    pub samples: Vec<i16>,
    pub rate: u32,
    pub channels: u16,
}

/// What a 16-bit PCM WAV file holds: its samples, rate and channel count;
/// `None` when it is not one (too short, wrong header, bad `fmt ` chunk,
/// no `data` chunk).
pub open spec fn wav_contents(b: Seq<u8>) -> Option<(Seq<i16>, nat, nat)> {
    if b.len() < 44 || !tag_at(b, 0, riff()) || !tag_at(b, 8, wave()) {
        None
    } else {
        match wav_walk(b, 12, 1, 24000, None) {
            Some((ch, rate, Some((s, e)))) => Some((pcm16(b.subrange(s, e)), rate, ch)),
            _ => None,
        }
    }
}

/// Minimal 16-bit PCM WAV parser (RIFF header + data chunk).
pub fn decode_wav(bytes: &[u8]) -> (r: Option<WavData>)
    ensures
        match r {
            Some(w) => wav_contents(bytes@) == Some((w.samples@, w.rate as nat, w.channels as nat)),
            None => wav_contents(bytes@) is None,
        },
{
    let n = bytes.len();
    if n < 44 || !tag_is(bytes, 0, 0x52, 0x49, 0x46, 0x46) || !tag_is(bytes, 8, 0x57, 0x41, 0x56, 0x45) {
        return None;
    }
    let mut i: u64 = 12;
    let mut channels: u64 = 1;
    let mut rate: u64 = 24000;
    let mut data: Option<(usize, usize)> = None;
    let mut stop = false;
    while !stop && n as u64 - i >= 8
        invariant
            n == bytes@.len(),
            i <= n,
            channels < 65536,
            rate < 0x1_0000_0000,
            match data {
                Some((s, e)) => s <= e <= n,
                None => true,
            },
            stop ==> wav_walk(bytes@, 12, 1, 24000, None) == Some((channels as nat, rate as nat, match data {
                Some((s, e)) => Some((s as int, e as int)),
                None => None,
            })),
            !stop ==> wav_walk(bytes@, 12, 1, 24000, None) == wav_walk(bytes@, i as int, channels as nat, rate as nat, match data {
                Some((s, e)) => Some((s as int, e as int)),
                None => None,
            }),
        decreases n as u64 - i, (if stop { 0int } else { 1int }),
    {
        let iu = i as usize;
        let size = read_le32(bytes, iu + 4);
        let remaining: u64 = n as u64 - i - 8;
        proof {
            assert(fmt_tag() =~= seq![0x66u8, 0x6D, 0x74, 0x20]);
            assert(data_tag() =~= seq![0x64u8, 0x61, 0x74, 0x61]);
        }
        if tag_is(bytes, iu, 0x66, 0x6D, 0x74, 0x20) {
            if size > remaining || size < 16 {
                return None;
            }
            let ch = read_le16(bytes, iu + 10);
            channels = if ch == 0 { 1 } else { ch };
            rate = read_le32(bytes, iu + 12);
        } else if tag_is(bytes, iu, 0x64, 0x61, 0x74, 0x61) {
            let end: usize = if size < remaining { (i + 8 + size) as usize } else { n };
            data = Some((iu + 8, end));
        }
        if size + size % 2 > remaining {
            stop = true;
        } else {
            i = i + 8 + size + size % 2;
        }
    }
    let (s, e) = match data {
        Some(d) => d,
        None => return None,
    };
    let mut samples: Vec<i16> = Vec::new();
    let mut k: usize = 0;
    let ghost span = bytes@.subrange(s as int, e as int);
    while k < (e - s) / 2
        invariant
            s <= e <= bytes@.len(),
            span == bytes@.subrange(s as int, e as int),
            k <= (e - s) / 2,
            samples@.len() == k,
            forall|j: int| 0 <= j < k ==> samples@[j] == pcm16(span)[j],
        decreases (e - s) / 2 - k,
    {
        let lo = bytes[s + 2 * k];
        let hi = bytes[s + 2 * k + 1];
        let u: u16 = (lo as u16) | ((hi as u16) << 8u16);
        let sample: i16 = #[verifier::truncate] (u as i16);
        samples.push(sample);
        k += 1;
    }
    assert(samples@ =~= pcm16(span));
    Some(WavData { samples, rate: rate as u32, channels: channels as u16 })
}

} // verus!
