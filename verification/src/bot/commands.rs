//! Decisions of the Discord bot's slash commands: request validation, the
//! spoken text, conversation history, voice-clone management, uploads,
//! volume and the other checks the commands make before doing any I/O.
use vstd::prelude::*;
use crate::text::{
    chars_of, eq_str, starts_with, starts_with_str, contains_seq, contains_str, trim, trim_ws,
    lowercase_of, to_lowercase, string_from_chars, truncate_with_ellipsis, truncate_chars,
    split_char, split_on, replace_first, fill_placeholder, decimal, decimal_chars, u64_to_string,
    append, append_str, slice, slice_all, is_one_of, one_of, find_last, rfind_char,
};
use crate::bot::tts::{
    AVAILABLE_VOICES, valid_voice, is_valid_voice, voice_name_from_token, get_voice_name_from_token,
    ClonedVoice,
};
use crate::bot::audio_effects::{effect_names, is_valid_effect, random_effect, RANDOM_EFFECT_POOL};
use crate::deps::{
    random_below, json_pointer_str, json_pointer_str_of, json_pointer_bool, json_pointer_bool_of, image_dimensions,
    image_dimensions_of, opt_string_view,
};
use crate::wapp::llm::config_list;

verus! {

/// The voice a command uses: the requested one (`Google` by default), with
/// `random` drawn from [`AVAILABLE_VOICES`].
pub fn resolve_voice(voice: Option<&str>) -> (r: String)
    ensures
        match voice {
            Some(v) => if v@ == "random"@ {
                exists|i: int| 0 <= i < 1 && r@ == (#[trigger] AVAILABLE_VOICES[i])@
            } else {
                r@ == v@
            },
            None => r@ == "Google"@,
        },
{
    match voice {
        Some(v) => {
            let vv = chars_of(v);
            if eq_str(&vv, "random") {
                let i = random_below(1);
                AVAILABLE_VOICES[i].to_string()
            } else {
                v.to_string()
            }
        },
        None => "Google".to_string(),
    }
}

/// The effect a command uses: the requested one (`default` when absent),
/// with `random` drawn from [`RANDOM_EFFECT_POOL`].
pub fn resolve_effect(effect: Option<&str>, default: &str) -> (r: String)
    ensures
        ({
            let e = match effect {
                Some(x) => x@,
                None => default@,
            };
            if e == "random"@ {
                exists|i: int| 0 <= i < 4 && r@ == (#[trigger] RANDOM_EFFECT_POOL[i])@
            } else {
                r@ == e
            }
        }),
{
    let e: &str = match effect {
        Some(x) => x,
        None => default,
    };
    let ev = chars_of(e);
    if eq_str(&ev, "random") {
        random_effect().to_string()
    } else {
        e.to_string()
    }
}

/// Why a voice request is turned down, or that it is accepted.
pub enum RequestCheck {
    Accepted,
    InvalidVoice,
    InvalidEffect,
    TextTooLong,
}

/// The verdict on a request: the voice is checked first, then the effect,
/// then the length (in characters) of the text, when there is one.
pub open spec fn request_verdict(voice: Seq<char>, effect: Seq<char>, text: Option<Seq<char>>, max_chars: nat) -> RequestCheck {
    if !valid_voice(voice) {
        RequestCheck::InvalidVoice
    } else if !effect_names().contains(effect) {
        RequestCheck::InvalidEffect
    } else if text is Some && text->0.len() > max_chars {
        RequestCheck::TextTooLong
    } else {
        RequestCheck::Accepted
    }
}

/// Check a resolved voice, effect and text against the command's limits.
pub fn check_request(voice: &str, effect: &str, text: Option<&str>, max_chars: usize) -> (r: RequestCheck)
    ensures
        r == request_verdict(voice@, effect@, match text { Some(t) => Some(t@), None => None }, max_chars as nat),
{
    if !is_valid_voice(voice) {
        return RequestCheck::InvalidVoice;
    }
    if !is_valid_effect(effect) {
        return RequestCheck::InvalidEffect;
    }
    match text {
        Some(t) => {
            let tv = chars_of(t);
            if tv.len() > max_chars {
                return RequestCheck::TextTooLong;
            }
        },
        None => {},
    }
    RequestCheck::Accepted
}

/// Longest text `/speak` and `/random` accept (the Google TTS limit).
pub const SPEAK_MAX_CHARS: usize = 200;

/// Longest question `/ask` and `/translate` accept.
pub const ASK_MAX_CHARS: usize = 500;

/// The text actually spoken: at most 200 characters, `...` marking a cut.
pub fn spoken_text(s: &str) -> (r: String)
    ensures
        r@ == truncate_with_ellipsis(s@, 200),
{
    let v = chars_of(s);
    string_from_chars(truncate_chars(&v, 200))
}

/// Whether `/random` may play a random cached file instead of generating:
/// no voice given, no effect to apply, disk caching on, no search text.
pub open spec fn cached_shortcut(voice_given: bool, effect: Seq<char>, save_mp3: bool, search: Option<Seq<char>>) -> bool {
    &&& !voice_given
    &&& effect == "none"@
    &&& save_mp3
    &&& !(search is Some && trim(search->0).len() > 0)
}

pub fn use_cached_shortcut(voice_given: bool, effect: &str, save_mp3: bool, search: Option<&str>) -> (b: bool)
    ensures
        b == cached_shortcut(voice_given, effect@, save_mp3, match search { Some(s) => Some(s@), None => None }),
{
    let e = chars_of(effect);
    let has_search = match search {
        Some(s) => {
            let sv = chars_of(s);
            trim_ws(&sv).len() > 0
        },
        None => false,
    };
    !voice_given && eq_str(&e, "none") && save_mp3 && !has_search
}

/// The last path component (after the last `/`).
pub open spec fn file_name(path: Seq<char>) -> Seq<char> {
    match find_last(path, '/') {
        Some(i) => path.skip(i + 1),
        None => path,
    }
}

/// The extension of a file name: after its last `.`, when that dot is not
/// its first character.
pub open spec fn extension(name: Seq<char>) -> Option<Seq<char>> {
    match find_last(name, '.') {
        Some(i) => if i > 0 { Some(name.skip(i + 1)) } else { None },
        None => None,
    }
}

/// A file name without its extension.
pub open spec fn file_stem(name: Seq<char>) -> Seq<char> {
    match find_last(name, '.') {
        Some(i) => if i > 0 { name.take(i) } else { name },
        None => name,
    }
}

fn file_name_vec(path: &Vec<char>) -> (r: Vec<char>)
    ensures
        r@ == file_name(path@),
{
    let n = path.len();
    match rfind_char(path, '/') {
        Some(i) => {
            assert(i < n);
            let r = slice(path, i + 1, path.len());
            assert(r@ =~= path@.skip(i + 1));
            r
        },
        None => slice_all(path),
    }
}

fn extension_vec(name: &Vec<char>) -> (r: Option<Vec<char>>)
    ensures
        match r {
            Some(e) => extension(name@) == Some(e@),
            None => extension(name@) is None,
        },
{
    let n = name.len();
    match rfind_char(name, '.') {
        Some(i) => if i > 0 {
            assert(i < n);
            let e = slice(name, i + 1, name.len());
            assert(e@ =~= name@.skip(i + 1));
            Some(e)
        } else {
            None
        },
        None => None,
    }
}

fn file_stem_vec(name: &Vec<char>) -> (r: Vec<char>)
    ensures
        r@ == file_stem(name@),
{
    match rfind_char(name, '.') {
        Some(i) => if i > 0 {
            let s = slice(name, 0, i);
            assert(s@ =~= name@.take(i as int));
            s
        } else {
            slice_all(name)
        },
        None => slice_all(name),
    }
}

/// A cached file `/random` may pick: an `.mp3` that is not a cloned voice.
pub open spec fn pickable_cached_mp3(path: Seq<char>) -> bool {
    &&& extension(file_name(path)) == Some("mp3"@)
    &&& !contains_seq(path, "clone|"@)
}

pub fn is_pickable_cached_mp3(path: &str) -> (b: bool)
    ensures
        b == pickable_cached_mp3(path@),
{
    let p = chars_of(path);
    let name = file_name_vec(&p);
    let ext_ok = match extension_vec(&name) {
        Some(e) => eq_str(&e, "mp3"),
        None => false,
    };
    ext_ok && !contains_str(&p, "clone|")
}

/// The voice shown for a cached file: the token before the first `_` of
/// its file stem, looked up with [`get_voice_name_from_token`].
pub open spec fn cached_voice_label(path: Seq<char>) -> Seq<char> {
    voice_name_from_token(split_char(file_stem(file_name(path)), '_')[0])
}

pub fn voice_label_for_cached(path: &str) -> (r: String)
    ensures
        r@ == cached_voice_label(path@),
{
    let p = chars_of(path);
    let name = file_name_vec(&p);
    let stem = file_stem_vec(&name);
    let parts = split_on(&stem, '_');
    proof {
        crate::text::lemma_split_nonempty(stem@, '_');
    }
    let first = string_from_chars(slice_all(&parts[0]));
    get_voice_name_from_token(first.as_str())
}

/// The reply when no sentence matched: the `with_text` template filled with
/// the search text when one was given, `plain` otherwise.
pub fn no_sentence_message(plain: &str, with_text: &str, search: Option<&str>) -> (r: String)
    ensures
        match search {
            Some(t) => if trim(t@).len() > 0 {
                r@ == replace_first(with_text@, "{}"@, t@)
            } else {
                r@ == plain@
            },
            None => r@ == plain@,
        },
{
    match search {
        Some(t) => {
            let tv = chars_of(t);
            if trim_ws(&tv).len() > 0 {
                let w = chars_of(with_text);
                proof {
                    reveal_strlit("{}");
                }
                string_from_chars(fill_placeholder(&w, "{}", &tv))
            } else {
                plain.to_string()
            }
        },
        None => plain.to_string(),
    }
}

/// Fill the first two `{}` of a template (e.g. "Playing: **{}** with voice: {}").
pub fn fill_two(template: &str, first: &str, second: &str) -> (r: String)
    ensures
        r@ == replace_first(replace_first(template@, "{}"@, first@), "{}"@, second@),
{
    proof {
        reveal_strlit("{}");
    }
    let t = chars_of(template);
    let a = chars_of(first);
    let b = chars_of(second);
    let once = fill_placeholder(&t, "{}", &a);
    string_from_chars(fill_placeholder(&once, "{}", &b))
}

/// Fill the first `{}` of a template.
pub fn fill_one(template: &str, value: &str) -> (r: String)
    ensures
        r@ == replace_first(template@, "{}"@, value@),
{
    proof {
        reveal_strlit("{}");
    }
    let t = chars_of(template);
    let a = chars_of(value);
    string_from_chars(fill_placeholder(&t, "{}", &a))
}

// ───────────────────────── conversation history ─────────────────────────

/// A single message in the conversation history.
#[derive(Clone)]
pub struct ConversationMessage {
    pub role: String,
    pub content: String,
}

/// Messages kept per guild.
pub const HISTORY_LIMIT: usize = 20;

/// A history as `(role, content)` pairs.
pub open spec fn history_view(h: Seq<ConversationMessage>) -> Seq<(Seq<char>, Seq<char>)> {
    h.map_values(|m: ConversationMessage| (m.role@, m.content@))
}

/// The newest [`HISTORY_LIMIT`] messages of a history.
pub open spec fn keep_newest(h: Seq<(Seq<char>, Seq<char>)>) -> Seq<(Seq<char>, Seq<char>)> {
    if h.len() > HISTORY_LIMIT {
        h.skip(h.len() - HISTORY_LIMIT)
    } else {
        h
    }
}

/// Append a question and its answer to a history, keeping the newest
/// [`HISTORY_LIMIT`] messages.
pub fn record_exchange(history: &mut Vec<ConversationMessage>, question: &str, answer: &str)
    ensures
        history_view(final(history)@) == keep_newest(
            history_view(old(history)@).push(("user"@, question@)).push(("assistant"@, answer@)),
        ),
{
    let ghost before = history_view(history@);
    history.push(ConversationMessage { role: "user".to_string(), content: question.to_string() });
    history.push(ConversationMessage { role: "assistant".to_string(), content: answer.to_string() });
    let ghost full = before.push(("user"@, question@)).push(("assistant"@, answer@));
    assert(history_view(history@) =~= full);
    if history.len() > HISTORY_LIMIT {
        let start = history.len() - HISTORY_LIMIT;
        let mut kept: Vec<ConversationMessage> = Vec::new();
        let mut i: usize = start;
        while i < history.len()
            invariant
                start <= i <= history@.len(),
                start == history@.len() - HISTORY_LIMIT,
                history_view(history@) == full,
                history_view(kept@) =~= full.subrange(start as int, i as int),
            decreases history@.len() - i,
        {
            let m = ConversationMessage { role: history[i].role.clone(), content: history[i].content.clone() };
            let ghost prev = kept@;
            assert(full[i as int] == (history@[i as int].role@, history@[i as int].content@));
            kept.push(m);
            assert(kept@ =~= prev.push(m));
            assert(history_view(kept@) =~= history_view(prev).push((m.role@, m.content@)));
            assert(full.subrange(start as int, i + 1) =~= full.subrange(start as int, i as int).push(full[i as int]));
            i += 1;
        }
        assert(full.subrange(start as int, full.len() as int) =~= full.skip(start as int));
        *history = kept;
    }
}

/// After an exchange is recorded the history holds at most
/// [`HISTORY_LIMIT`] messages, ends with the question and its answer, and
/// every message in it is one of the newest, in the order they came.
pub proof fn lemma_history_window(h: Seq<(Seq<char>, Seq<char>)>, question: (Seq<char>, Seq<char>), answer: (Seq<char>, Seq<char>))
    ensures
        ({
            let full = h.push(question).push(answer);
            let kept = keep_newest(full);
            &&& kept.len() <= HISTORY_LIMIT
            &&& kept.len() >= 2
            &&& kept[kept.len() - 2] == question
            &&& kept[kept.len() - 1] == answer
            &&& forall|k: int| 0 <= k < kept.len() ==> #[trigger] kept[k] == full[full.len() - kept.len() + k]
        }),
{
}

// ───────────────────────── voice cloning ─────────────────────────

/// Owner identity of a Discord user for voice cloning: `discord:<id>`.
pub fn vc_owner(user_id: u64) -> (r: String)
    ensures
        r@ == "discord:"@ + decimal(user_id as nat),
{
    let mut v = chars_of("discord:");
    let d = decimal_chars(user_id);
    append(&mut v, &d);
    string_from_chars(v)
}

/// Accepted size of an uploaded voice sample, in bytes.
pub fn sample_size_ok(size: u32) -> (b: bool)
    ensures
        b == (4000 <= size <= 12_000_000),
{
    !(size < 4000 || size > 12_000_000)
}

/// How a failed voice creation is reported.
pub enum CreateVoiceFailure {
    AlreadyExists,
    SampleInvalid,
    InvalidName,
    Other,
}

/// Classify a voice-creation error by its wording.
pub open spec fn create_failure_kind(e: Seq<char>) -> CreateVoiceFailure {
    if contains_seq(e, "already exists"@) {
        CreateVoiceFailure::AlreadyExists
    } else if contains_seq(e, "could not decode"@) || contains_seq(e, "too short"@) || contains_seq(e, "between 4KB"@) {
        CreateVoiceFailure::SampleInvalid
    } else if contains_seq(e, "invalid voice name"@) {
        CreateVoiceFailure::InvalidName
    } else {
        CreateVoiceFailure::Other
    }
}

pub fn classify_create_error(e: &str) -> (r: CreateVoiceFailure)
    ensures
        r == create_failure_kind(e@),
{
    let v = chars_of(e);
    if contains_str(&v, "already exists") {
        CreateVoiceFailure::AlreadyExists
    } else if contains_str(&v, "could not decode") || contains_str(&v, "too short") || contains_str(&v, "between 4KB") {
        CreateVoiceFailure::SampleInvalid
    } else if contains_str(&v, "invalid voice name") {
        CreateVoiceFailure::InvalidName
    } else {
        CreateVoiceFailure::Other
    }
}

/// A line of the voice list: a badge (own voice or someone else's), the name
/// and how to use it.
pub fn voice_list_line(name: &str, owner: &str, me: &str) -> (r: String)
    ensures
        r@ == (if owner@ == me@ { "🟢"@ } else { "⚪"@ }) + " **"@ + name@ + "** — `--voice "@ + name@ + "`"@,
{
    let o = chars_of(owner);
    let m = chars_of(me);
    let mut v = if crate::text::seq_eq(&o, &m) { chars_of("🟢") } else { chars_of("⚪") };
    append_str(&mut v, " **");
    append_str(&mut v, name);
    append_str(&mut v, "** — `--voice ");
    append_str(&mut v, name);
    append_str(&mut v, "`");
    string_from_chars(v)
}

/// What `/deletevoice` does with a name.
pub enum DeleteDecision {
    /// No voice has that name.
    NotFound,
    /// The voice belongs to someone else and the requester is no admin.
    NotOwner,
    /// Delete the voice registered under this owner.
    Delete(String),
}

/// The first voice of that name, if any.
pub open spec fn first_named(voices: Seq<ClonedVoice>, name: Seq<char>) -> Option<int> {
    if exists|i: int| 0 <= i < voices.len() && voices[i].name@ == name {
        Some(choose|i: int| 0 <= i < voices.len() && voices[i].name@ == name && forall|j: int| 0 <= j < i ==> voices[j].name@ != name)
    } else {
        None
    }
}

/// Decide a deletion: the first voice with that name is deleted when the
/// requester owns it or is an admin.
pub fn delete_decision(voices: &Vec<ClonedVoice>, name: &str, requester: &str, is_admin: bool) -> (r: DeleteDecision)
    ensures
        match first_named(voices@, name@) {
            None => r is NotFound,
            Some(i) => if !is_admin && voices@[i].owner@ != requester@ {
                r is NotOwner
            } else {
                r matches DeleteDecision::Delete(o) && o@ == voices@[i].owner@
            },
        },
{
    let n = chars_of(name);
    let req = chars_of(requester);
    let mut i: usize = 0;
    while i < voices.len()
        invariant
            n@ == name@,
            req@ == requester@,
            i <= voices@.len(),
            forall|j: int| 0 <= j < i ==> voices@[j].name@ != name@,
        decreases voices@.len() - i,
    {
        let vn = chars_of(voices[i].name.as_str());
        if crate::text::seq_eq(&vn, &n) {
            proof {
                let w = choose|k: int| 0 <= k < voices@.len() && voices@[k].name@ == name@ && forall|j: int| 0 <= j < k ==> voices@[j].name@ != name@;
                assert(0 <= i < voices@.len() && voices@[i as int].name@ == name@ && forall|j: int| 0 <= j < i ==> voices@[j].name@ != name@);
                if w < i {
                } else if w > i {
                    assert(voices@[i as int].name@ != name@);
                }
                assert(w == i);
            }
            let ov = chars_of(voices[i].owner.as_str());
            if !is_admin && !crate::text::seq_eq(&ov, &req) {
                return DeleteDecision::NotOwner;
            }
            return DeleteDecision::Delete(voices[i].owner.clone());
        }
        i += 1;
    }
    DeleteDecision::NotFound
}

// ───────────────────────── playback and uploads ─────────────────────────

/// The volume level set by `/volume`: the requested level (100 when
/// absent) clamped to 0..=100.
pub fn volume_level(level: Option<i64>) -> (r: i64)
    ensures
        r == match level {
            Some(l) => if l < 0 { 0 } else if l > 100 { 100 } else { l },
            None => 100,
        },
        0 <= r <= 100,
{
    let l = match level {
        Some(l) => l,
        None => 100,
    };
    if l < 0 {
        0
    } else if l > 100 {
        100
    } else {
        l
    }
}

/// Extensions `/audio` plays.
pub const AUDIO_EXTENSIONS: [&'static str; 5] = ["mp3", "wav", "ogg", "m4a", "flac"];

/// The extension of an upload: the lowercased text after the last `.`
/// (the whole name when it has none).
pub open spec fn upload_extension(filename: Seq<char>) -> Seq<char> {
    let parts = split_char(filename, '.');
    lowercase_of(parts.last())
}

/// Whether an uploaded file may be played.
pub fn audio_extension_allowed(filename: &str) -> (b: bool)
    ensures
        b == is_one_of(upload_extension(filename@), AUDIO_EXTENSIONS@),
{
    let f = chars_of(filename);
    let parts = split_on(&f, '.');
    proof {
        crate::text::lemma_split_nonempty(f@, '.');
    }
    let last = string_from_chars(slice_all(&parts[parts.len() - 1]));
    let l = to_lowercase(last.as_str());
    let lv = chars_of(l.as_str());
    one_of(&lv, &AUDIO_EXTENSIONS)
}

/// Upload limit in bytes from the `MAX_AUDIO_FILE_SIZE_MB` setting already
/// parsed (25 MB when unset or unparsable); saturates instead of wrapping.
pub fn max_upload_bytes(max_size_mb: Option<u64>) -> (r: u64)
    ensures
        ({
            let mb = match max_size_mb { Some(m) => m, None => 25 };
            r == if mb * 1048576 <= u64::MAX { mb * 1048576 } else { u64::MAX as int }
        }),
{
    let mb = match max_size_mb {
        Some(m) => m,
        None => 25,
    };
    if mb > u64::MAX / 1048576 {
        u64::MAX
    } else {
        mb * 1048576
    }
}

/// Uptime as `<hours>h <minutes>m`.
pub fn uptime_label(secs: u64) -> (r: String)
    ensures
        r@ == decimal((secs / 3600) as nat) + "h "@ + decimal(((secs % 3600) / 60) as nat) + "m"@,
{
    let mut v = decimal_chars(secs / 3600);
    append_str(&mut v, "h ");
    let m = decimal_chars((secs % 3600) / 60);
    append(&mut v, &m);
    append_str(&mut v, "m");
    string_from_chars(v)
}

/// Number of configured LLM endpoints (non-blank items of `LLM_ENDPOINTS`).
pub fn endpoint_count_label(endpoints: &str) -> (n: usize)
    ensures
        n == config_list(endpoints@).len(),
{
    crate::wapp::llm::parse_config_list(endpoints).len()
}

/// The joke given what a JokeAPI body holds at `error`, `setup`, `delivery`
/// and `joke`: `setup. delivery` for a two-part joke, the single joke
/// otherwise; nothing when the API reports an error or there is neither.
pub open spec fn joke_from(
    error: Option<bool>,
    setup: Option<Seq<char>>,
    delivery: Option<Seq<char>>,
    single: Option<Seq<char>>,
) -> Option<Seq<char>> {
    let setup = match setup { Some(s) => s, None => Seq::empty() };
    let delivery = match delivery { Some(s) => s, None => Seq::empty() };
    let single = match single { Some(s) => s, None => Seq::empty() };
    if error == Some(true) {
        None
    } else if setup.len() > 0 && delivery.len() > 0 {
        Some(setup + ". "@ + delivery)
    } else if single.len() > 0 {
        Some(single)
    } else {
        None
    }
}

/// The joke in a JokeAPI body (see [`joke_from`]).
pub open spec fn joke_of(body: Seq<char>) -> Option<Seq<char>> {
    joke_from(
        json_pointer_bool_of(body, "/error"@),
        json_pointer_str_of(body, "/setup"@),
        json_pointer_str_of(body, "/delivery"@),
        json_pointer_str_of(body, "/joke"@),
    )
}

/// Read the joke out of a JokeAPI response body.
pub fn joke_from_body(body: &str) -> (r: Option<String>)
    ensures
        opt_string_view(r) == joke_of(body@),
{
    let error = json_pointer_bool(body, "/error");
    let setup = json_pointer_str(body, "/setup");
    let delivery = json_pointer_str(body, "/delivery");
    let single = json_pointer_str(body, "/joke");
    joke_from_fields(error, setup, delivery, single)
}

/// The joke given what a JokeAPI body was found to hold (see [`joke_from`]).
pub fn joke_from_fields(
    error: Option<bool>,
    setup: Option<String>,
    delivery: Option<String>,
    single: Option<String>,
) -> (r: Option<String>)
    ensures
        opt_string_view(r) == joke_from(error, opt_string_view(setup), opt_string_view(delivery), opt_string_view(single)),
{
    if error == Some(true) {
        return None;
    }
    let setup = match setup { Some(s) => chars_of(s.as_str()), None => Vec::new() };
    let delivery = match delivery { Some(s) => chars_of(s.as_str()), None => Vec::new() };
    let single = match single { Some(s) => chars_of(s.as_str()), None => Vec::new() };
    if setup.len() > 0 && delivery.len() > 0 {
        let mut v = slice_all(&setup);
        append_str(&mut v, ". ");
        append(&mut v, &delivery);
        Some(string_from_chars(v))
    } else if single.len() > 0 {
        Some(string_from_chars(single))
    } else {
        None
    }
}


/// The language a fetched joke is translated to: Italian unless the bot
/// speaks English (`LANG` is `eng`) or no LLM is configured, in which case
/// the English joke is kept.
pub fn joke_translation_target(lang: &str, llm_configured: bool) -> (r: Option<&'static str>)
    ensures
        r matches Some(t) ==> t@ == "it"@,
        r is Some <==> (lang@ != "eng"@ && llm_configured),
{
    let l = chars_of(lang);
    if !eq_str(&l, "eng") && llm_configured {
        Some("it")
    } else {
        None
    }
}

/// The joke to speak after a translation attempt: the translation, or the
/// untranslated joke when translating failed.
pub fn translated_joke(joke: String, translation: Result<String, String>) -> (r: String)
    ensures
        r@ == match translation {
            Ok(t) => t@,
            Err(_) => joke@,
        },
{
    match translation {
        Ok(t) => t,
        Err(_) => joke,
    }
}

// ───────────────────────── admin commands ─────────────────────────

/// Admin commands (/restart, /rename, /avatar) run only in the configured
/// guild and for the configured admin.
pub fn is_parent_admin(guild_id: u64, env_guild_id: &str, author: u64, admin_id: &str) -> (b: bool)
    ensures
        b == (decimal(guild_id as nat) == env_guild_id@ && decimal(author as nat) == admin_id@),
{
    let g = decimal_chars(guild_id);
    let a = decimal_chars(author);
    eq_str(&g, env_guild_id) && eq_str(&a, admin_id)
}

/// Longest nickname /rename sets, in characters.
pub const MAX_NICKNAME_CHARS: usize = 32;

pub fn nickname_ok(name: &str) -> (b: bool)
    ensures
        b == (name@.len() <= MAX_NICKNAME_CHARS),
{
    let v = chars_of(name);
    v.len() <= MAX_NICKNAME_CHARS
}

/// /avatar accepts attachments whose content type is an image.
pub fn is_image_content_type(content_type: Option<&str>) -> (b: bool)
    ensures
        b == match content_type {
            Some(ct) => starts_with(ct@, "image/"@),
            None => false,
        },
{
    match content_type {
        Some(ct) => {
            let v = chars_of(ct);
            starts_with_str(&v, "image/")
        },
        None => false,
    }
}

/// The verdict on an avatar image given its decoded size: `invalid` when it
/// could not be decoded, `too_small` under 128x128 pixels (Discord's
/// minimum), else its dimensions.
pub open spec fn image_verdict(dims: Option<(u32, u32)>) -> Result<(u32, u32), Seq<char>> {
    match dims {
        None => Err("invalid"@),
        Some((w, h)) => if w < 128 || h < 128 { Err("too_small"@) } else { Ok((w, h)) },
    }
}

/// Judge an avatar image by its decoded size (see [`image_verdict`]).
pub fn check_image_dimensions(dims: Option<(u32, u32)>) -> (r: Result<(u32, u32), &'static str>)
    ensures
        match r {
            Ok(d) => image_verdict(dims) == Ok::<(u32, u32), Seq<char>>(d),
            Err(e) => image_verdict(dims) == Err::<(u32, u32), Seq<char>>(e@),
        },
{
    match dims {
        None => Err("invalid"),
        Some((w, h)) => if w < 128 || h < 128 {
            Err("too_small")
        } else {
            Ok((w, h))
        },
    }
}

/// Validate uploaded avatar bytes: decode them and check their size.
pub fn validate_image_bytes(bytes: &[u8]) -> (r: Result<(u32, u32), &'static str>)
    ensures
        match r {
            Ok(d) => image_verdict(image_dimensions_of(bytes@)) == Ok::<(u32, u32), Seq<char>>(d),
            Err(e) => image_verdict(image_dimensions_of(bytes@)) == Err::<(u32, u32), Seq<char>>(e@),
        },
{
    check_image_dimensions(image_dimensions(bytes))
}

/// Where an uploaded file is stored: `<temp_dir>/<unique>_<name>`, the name
/// being the upload's last path component (`audio.mp3` when it has none).
pub fn upload_path(temp_dir: &str, unique: &str, filename: &str) -> (r: String)
    ensures
        r@ == temp_dir@ + "/"@ + unique@ + "_"@ + (if file_name(filename@).len() > 0 { file_name(filename@) } else { "audio.mp3"@ }),
{
    let f = chars_of(filename);
    let name = file_name_vec(&f);
    let mut v = chars_of(temp_dir);
    append_str(&mut v, "/");
    append_str(&mut v, unique);
    append_str(&mut v, "_");
    if name.len() > 0 {
        append(&mut v, &name);
    } else {
        append_str(&mut v, "audio.mp3");
    }
    string_from_chars(v)
}

// ───────────────────────── voice connection ─────────────────────────

/// What joining a user's voice channel takes.
pub enum ConnectStep {
    /// Stay where the bot is.
    Stay,
    /// Leave the current channel, then join the target.
    Switch,
    /// Join the target.
    Join,
}

/// The bot joins the invoker's channel unless it is already there, is
/// playing in another channel, or the invoker is with it in its channel.
pub fn connect_step(bot_channel: Option<u64>, target: u64, bot_playing: bool, member_in_bot_channel: bool) -> (r: ConnectStep)
    ensures
        match bot_channel {
            Some(c) => if c == target || bot_playing || member_in_bot_channel {
                r is Stay
            } else {
                r is Switch
            },
            None => r is Join,
        },
{
    match bot_channel {
        Some(c) => if c == target || bot_playing || member_in_bot_channel {
            ConnectStep::Stay
        } else {
            ConnectStep::Switch
        },
        None => ConnectStep::Join,
    }
}

/// Autocomplete offers at most this many choices.
pub const MAX_CHOICES: usize = 25;

/// The built-in voice choices: the voices and `random`.
pub const BUILTIN_CHOICES: [&'static str; 2] = ["Google", "random"];

/// `name` matches what the user typed (`typed` is already lowercased).
pub open spec fn offered(name: Seq<char>, typed: Seq<char>) -> bool {
    crate::text::contains_seq(lowercase_of(name), typed)
}

/// The voice autocomplete choices for what the user typed: matching
/// built-ins first, then matching cloned voices (all of them when nothing
/// was typed), at most [`MAX_CHOICES`].
pub open spec fn voice_choice_list(typed: Seq<char>, cloned: Seq<Seq<char>>) -> Seq<Seq<char>>
    decreases cloned.len(),
{
    if cloned.len() == 0 {
        let b0 = if offered("Google"@, typed) { seq!["Google"@] } else { Seq::empty() };
        b0 + if offered("random"@, typed) { seq!["random"@] } else { Seq::empty() }
    } else {
        let init = voice_choice_list(typed, cloned.drop_last());
        let n = cloned.last();
        if init.len() < MAX_CHOICES && (typed.len() == 0 || offered(n, typed)) {
            init.push(n)
        } else {
            init
        }
    }
}

fn offered_exec(name: &str, typed: &Vec<char>) -> (b: bool)
    ensures
        b == offered(name@, typed@),
{
    let l = to_lowercase(name);
    let lv = chars_of(l.as_str());
    crate::text::contains(&lv, typed)
}

/// The voices offered while the user types a voice name.
pub fn voice_choices(current: &str, cloned: &Vec<String>) -> (r: Vec<String>)
    ensures
        r@.len() == voice_choice_list(lowercase_of(current@), cloned@.map_values(|s: String| s@)).len(),
        forall|k: int| 0 <= k < r@.len() ==> (#[trigger] r@[k])@ == voice_choice_list(lowercase_of(current@), cloned@.map_values(|s: String| s@))[k],
{
    let cur_s = to_lowercase(current);
    let cur = chars_of(cur_s.as_str());
    let ghost names = cloned@.map_values(|s: String| s@);
    let mut out: Vec<String> = Vec::new();
    proof {
        reveal_strlit("Google");
        reveal_strlit("random");
    }
    if offered_exec("Google", &cur) {
        out.push("Google".to_string());
    }
    if offered_exec("random", &cur) {
        out.push("random".to_string());
    }
    assert(names.take(0) =~= Seq::<Seq<char>>::empty());
    assert(voice_choice_list(cur@, names.take(0)).len() == out@.len());
    let mut i: usize = 0;
    while i < cloned.len()
        invariant
            names == cloned@.map_values(|s: String| s@),
            cur@ == lowercase_of(current@),
            i <= cloned@.len(),
            out@.len() == voice_choice_list(cur@, names.take(i as int)).len(),
            forall|k: int| 0 <= k < out@.len() ==> (#[trigger] out@[k])@ == voice_choice_list(cur@, names.take(i as int))[k],
        decreases cloned@.len() - i,
    {
        assert(names.take(i + 1).drop_last() =~= names.take(i as int));
        if out.len() < MAX_CHOICES && (cur.len() == 0 || offered_exec(cloned[i].as_str(), &cur)) {
            out.push(cloned[i].clone());
        }
        i += 1;
    }
    assert(names.take(i as int) =~= names);
    out
}

/// The effects offered for what the user typed (lowercased), in order.
pub open spec fn effect_choice_list(typed: Seq<char>, effects: Seq<&'static str>) -> Seq<&'static str>
    decreases effects.len(),
{
    if effects.len() == 0 {
        Seq::empty()
    } else {
        let init = effect_choice_list(typed, effects.drop_last());
        if offered(effects.last()@, typed) { init.push(effects.last()) } else { init }
    }
}

/// The effects offered while the user types an effect name.
pub fn effect_choices(current: &str) -> (r: Vec<&'static str>)
    ensures
        r@ == effect_choice_list(lowercase_of(current@), crate::bot::audio_effects::AVAILABLE_EFFECTS@),
{
    let cur_s = to_lowercase(current);
    let cur = chars_of(cur_s.as_str());
    let effects = crate::bot::audio_effects::AVAILABLE_EFFECTS;
    let mut out: Vec<&'static str> = Vec::new();
    let mut i: usize = 0;
    assert(effects@.take(0) =~= Seq::<&'static str>::empty());
    while i < 5
        invariant
            effects@ == crate::bot::audio_effects::AVAILABLE_EFFECTS@,
            effects@.len() == 5,
            cur@ == lowercase_of(current@),
            i <= 5,
            out@ == effect_choice_list(cur@, effects@.take(i as int)),
        decreases 5 - i,
    {
        assert(effects@.take(i + 1).drop_last() =~= effects@.take(i as int));
        let e = effects[i];
        if offered_exec(e, &cur) {
            out.push(e);
        }
        i += 1;
    }
    assert(effects@.take(5) =~= effects@);
    out
}

/// Pick the game shown as the bot's activity among the names SteamSpy
/// listed; nothing when it listed none.
pub fn pick_presence_game(games: &Vec<String>) -> (r: Option<String>)
    ensures
        games@.len() == 0 ==> r is None,
        games@.len() > 0 ==> (r matches Some(g) && exists|i: int| 0 <= i < games@.len() && g@ == (#[trigger] games@[i])@),
{
    if games.len() == 0 {
        return None;
    }
    let i = random_below(games.len());
    Some(games[i].clone())
}

// ───────────────────────── self-healing ─────────────────────────

/// Discord permission bits involved.
pub const ADMINISTRATOR: u64 = 0x8;
pub const MUTE_MEMBERS: u64 = 0x40_0000;
pub const MODERATE_MEMBERS: u64 = 0x100_0000_0000;

/// Voice permission bits (`CONNECT`, `SPEAK`).
pub const CONNECT: u64 = 0x10_0000;
pub const SPEAK: u64 = 0x20_0000;

/// `Permissions::contains`.
pub open spec fn has_flag(perms: u64, flag: u64) -> bool {
    perms & flag == flag
}

/// The bot demutes itself when server-muted and allowed to (administrator
/// or mute-members).
pub fn should_self_demute(is_muted: bool, perms: Option<u64>) -> (b: bool)
    ensures
        b == (is_muted && match perms {
            Some(p) => has_flag(p, ADMINISTRATOR) || has_flag(p, MUTE_MEMBERS),
            None => false,
        }),
{
    let allowed = match perms {
        Some(p) => (p & ADMINISTRATOR) == ADMINISTRATOR || (p & MUTE_MEMBERS) == MUTE_MEMBERS,
        None => false,
    };
    is_muted && allowed
}

/// Whether the bot may use the invoker's voice channel: it must be allowed
/// to speak there, and to connect when it has to join.
pub fn bot_voice_permissions_ok(perms: u64, needs_connect: bool) -> (b: bool)
    ensures
        b == (has_flag(perms, SPEAK) && (!needs_connect || has_flag(perms, CONNECT))),
{
    (perms & SPEAK) == SPEAK && (!needs_connect || (perms & CONNECT) == CONNECT)
}

/// Whether a permission set grants the right to remove timeouts.
pub fn grants_untimeout(perms: u64) -> (b: bool)
    ensures
        b == (has_flag(perms, ADMINISTRATOR) || has_flag(perms, MODERATE_MEMBERS)),
{
    (perms & ADMINISTRATOR) == ADMINISTRATOR || (perms & MODERATE_MEMBERS) == MODERATE_MEMBERS
}

/// Whether the bot may remove its own timeout: from the member's
/// permissions when present, else from the permissions of its roles
/// (`role_perms`, those of the member's roles; `None` when the lookup failed).
pub fn member_has_untimeout_right(member_perms: Option<u64>, role_perms: Option<&Vec<u64>>) -> (b: bool)
    ensures
        b == match member_perms {
            Some(p) => has_flag(p, ADMINISTRATOR) || has_flag(p, MODERATE_MEMBERS),
            None => match role_perms {
                Some(rs) => exists|i: int| 0 <= i < rs@.len() && (has_flag(#[trigger] rs@[i], ADMINISTRATOR) || has_flag(
                    rs@[i],
                    MODERATE_MEMBERS,
                )),
                None => false,
            },
        },
{
    match member_perms {
        Some(p) => grants_untimeout(p),
        None => match role_perms {
            Some(rs) => any_role_grants(rs),
            None => false,
        },
    }
}

fn any_role_grants(rs: &Vec<u64>) -> (b: bool)
    ensures
        b == exists|i: int| 0 <= i < rs@.len() && (has_flag(#[trigger] rs@[i], ADMINISTRATOR) || has_flag(rs@[i], MODERATE_MEMBERS)),
{
    let mut i: usize = 0;
    while i < rs.len()
        invariant
            i <= rs@.len(),
            forall|k: int| 0 <= k < i ==> !(has_flag(#[trigger] rs@[k], ADMINISTRATOR) || has_flag(rs@[k], MODERATE_MEMBERS)),
        decreases rs@.len() - i,
    {
        if grants_untimeout(rs[i]) {
            assert(has_flag(rs@[i as int], ADMINISTRATOR) || has_flag(rs@[i as int], MODERATE_MEMBERS));
            return true;
        }
        i += 1;
    }
    false
}

/// Timed out: the timeout end is set and in the future (milliseconds).
pub fn is_timed_out(until_ms: Option<i64>, now_ms: i64) -> (b: bool)
    ensures
        b == match until_ms {
            Some(t) => t > now_ms,
            None => false,
        },
{
    match until_ms {
        Some(t) => t > now_ms,
        None => false,
    }
}

// ───────────────────────── sentence file ─────────────────────────

/// The sentences of a sentence file: its lines, trimmed, blanks dropped.
pub fn sentences_from_file(contents: &str) -> (r: Vec<String>)
    ensures
        r@.len() == crate::wapp::llm::nonblank_items(split_char(contents@, '\n')).len(),
        forall|k: int| 0 <= k < r@.len() ==> (#[trigger] r@[k])@ == crate::wapp::llm::nonblank_items(split_char(contents@, '\n'))[k],
{
    let c = chars_of(contents);
    let parts = split_on(&c, '\n');
    let ghost all = split_char(contents@, '\n');
    let mut out: Vec<String> = Vec::new();
    let mut i: usize = 0;
    assert(all.take(0) =~= Seq::<Seq<char>>::empty());
    while i < parts.len()
        invariant
            parts@.len() == all.len(),
            forall|k: int| 0 <= k < parts@.len() ==> (#[trigger] parts@[k])@ == all[k],
            i <= parts@.len(),
            out@.len() == crate::wapp::llm::nonblank_items(all.take(i as int)).len(),
            forall|k: int| 0 <= k < out@.len() ==> (#[trigger] out@[k])@ == crate::wapp::llm::nonblank_items(all.take(i as int))[k],
        decreases parts@.len() - i,
    {
        assert(all.take(i + 1).drop_last() =~= all.take(i as int));
        let t = trim_ws(&parts[i]);
        if t.len() > 0 {
            out.push(string_from_chars(t));
        }
        i += 1;
    }
    assert(all.take(i as int) =~= all);
    out
}

/// The `LIKE` pattern of a sentence search: `%<text>%`.
pub fn like_pattern(text: &str) -> (r: String)
    ensures
        r@ == "%"@ + text@ + "%"@,
{
    let mut v = chars_of("%");
    append_str(&mut v, text);
    append_str(&mut v, "%");
    string_from_chars(v)
}
} // verus!
