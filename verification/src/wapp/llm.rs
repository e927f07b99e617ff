//! Screening of LLM completions for the phrase features (JSON reply
//! protocol, refusal detection, garbage rejection), endpoint configuration
//! and the endpoint-rotation policy of `ask` and `translate`.
use vstd::prelude::*;
use crate::text::{
    chars_of, eq_str, starts_with, starts_with_str, contains_seq, contains_str, contains_any,
    contains_any_of, is_one_of, one_of, trim, trim_by, trim_vec, trim_ws, Strip, lowercase_of,
    to_lowercase, string_from_chars, truncate_with_ellipsis, truncate_chars, first_line,
    first_line_of, split_char, split_on, find_first, find_last, find_char, rfind_char, slice,
    utf8_len, utf8_len_of, append, append_str, slice_all, split_str, split_by_str, first_occurrence,
    first_index_of, first_some, first_found, opt_views, occurs_at, matches_at, all_ascii, ascii_lowered, ascii_lower, ascii_uppered, decimal, decimal_chars, trim_start_by, trim_end_by,
};
use vstd::string::StringSliceAdditionalSpecFns;
use crate::deps::{
    json_pointer_str, json_pointer_str_of, json_pointer_bool, json_pointer_bool_of, opt_string_view, json_array_len,
    json_array_len_of,
};

verus! {

pub use crate::bot::commands::ConversationMessage;

/// Marker prefix of a refusal returned in place of a phrase.
pub const REFUSAL_PREFIX: &'static str = "REFUSED:";

/// Whether an error string returned by an LLM function is a refusal.
pub fn is_refusal_error(err: &str) -> (b: bool)
    ensures
        b == starts_with(err@, REFUSAL_PREFIX@),
{
    let e = chars_of(err);
    starts_with_str(&e, REFUSAL_PREFIX)
}

/// JSON response-format instruction appended to the system prompts (English).
pub const JSON_FORMAT_EN: &'static str = "RESPONSE FORMAT (mandatory): your ENTIRE reply must be one single JSON object and nothing else — no markdown fences, no explanations: {\"text\": \"<the single sentence to say out loud>\", \"refused\": <true|false>}. If you refuse to fulfil the request for ANY reason (safety, policy, or anything else), set \"refused\": true; in that case \"text\" may be empty. If you comply, set \"refused\": false and put ONLY the single spoken sentence inside \"text\".";

/// JSON response-format instruction appended to the system prompts (Italian).
pub const JSON_FORMAT_IT: &'static str = "FORMATO RISPOSTA (obbligatorio): l'INTERA risposta deve essere un solo oggetto JSON e nient'altro — niente markdown, niente spiegazioni: {\"text\": \"<la singola frase da dire ad alta voce>\", \"refused\": <true|false>}. Se rifiuti di eseguire la richiesta per QUALSIASI motivo (sicurezza, policy o altro), imposta \"refused\": true; in tal caso \"text\" può essere vuoto. Se esegui la richiesta, imposta \"refused\": false e metti SOLO la singola frase da pronunciare dentro \"text\".";

/// Pick the JSON response-format instruction matching the configured language.
pub fn json_format_for(lang: &str) -> (r: &'static str)
    ensures
        r == if starts_with(lang@, "eng"@) { JSON_FORMAT_EN } else { JSON_FORMAT_IT },
{
    let l = chars_of(lang);
    if starts_with_str(&l, "eng") {
        JSON_FORMAT_EN
    } else {
        JSON_FORMAT_IT
    }
}

/// Unambiguous refusal phrases (matched on the lowercased text).
pub const STRONG_REFUSALS: [&'static str; 68] = [
    "cannot comply", "can't comply", "cannot generate", "can't generate",
    "cannot fulfill", "cannot fulfil", "can't fulfill", "can't fulfil",
    "cannot do that", "can't do that", "cannot help with", "can't help with",
    "cannot provide", "can't provide", "cannot assist", "can't assist",
    "unable to comply", "unable to fulfill", "unable to fulfil",
    "unable to help", "unable to assist",
    "must decline", "have to decline", "will not comply", "won't comply",
    "as an ai", "i'm an ai", "i am an ai", "as a language model",
    "against my guidelines", "against my policy", "against my policies",
    "against the guidelines", "against the policy", "content policy",
    "not appropriate", "inappropriate content",
    "i'm not comfortable", "i am not comfortable",
    "non posso accontentare", "non posso aiutarti", "non posso aiutare",
    "non posso rispondere", "non posso esaudire", "non posso soddisfare",
    "non posso complire", "non posso fare questo", "non posso farlo",
    "non riesco a soddisfare", "non riesco ad aiutarti", "non riesco a complire",
    "non mi è permesso", "non mi é permesso", "non mi e permesso",
    "non mi è concesso", "non mi é concesso",
    "non sono autorizzato", "non sono autorizzata", "non sono in grado",
    "contro le mie linee guida", "linee guida", "politiche di contenuto",
    "contenuto inappropriato", "non è appropriato", "non é appropriato",
    "come modello linguistico", "in quanto modello", "in quanto ia",
];

/// Apologies; a refusal when they co-occur with an inability phrase.
pub const APOLOGIES: [&'static str; 7] = [
    "i'm sorry", "i am sorry", "sorry but", "sorry,",
    "mi dispiace", "mi spiace", "mi rammarico",
];

/// First-person inability phrases.
pub const INABILITIES: [&'static str; 11] = [
    "i can't", "i cannot", "i can not", "i won't", "i will not",
    "i'm unable", "i am unable",
    "non posso", "non riesco", "non è possibile", "non é possibile",
];

/// Negated modals that, after a first-person `i` and any words, make an
/// inability (`i really can't`, `i just cannot`).
pub const NEGATED_MODALS: [&'static str; 5] = ["can't", "cannot", "can not", "won't", "will not"];

/// Characters allowed between `i` and a negated modal: lowercase ASCII
/// letters and spaces (one clause, no punctuation).
pub open spec fn gap_char(c: char) -> bool {
    c == ' ' || (0x61 <= (c as u32) <= 0x7A)
}

/// A negated modal starts at `q`.
pub open spec fn modal_at(lower: Seq<char>, q: int) -> bool {
    exists|m: int| 0 <= m < NEGATED_MODALS@.len() && occurs_at(lower, (#[trigger] NEGATED_MODALS@[m])@, q)
}

/// `i ` starts at `p`.
pub open spec fn i_at(lower: Seq<char>, p: int) -> bool {
    lower[p] == 'i' && lower[p + 1] == ' '
}

/// `i ` at `p`, then only letters and spaces up to a negated modal at `q`.
pub open spec fn gapped_inability(lower: Seq<char>, p: int, q: int) -> bool {
    &&& 0 <= p
    &&& p + 2 <= q
    &&& q < lower.len()
    &&& i_at(lower, p)
    &&& forall|k: int| p + 2 <= k < q ==> gap_char(#[trigger] lower[k])
    &&& modal_at(lower, q)
}

/// A first-person inability: one of [`INABILITIES`], or `i` followed within
/// the clause by a negated modal.
pub open spec fn inability_in(lower: Seq<char>) -> bool {
    ||| contains_any(lower, INABILITIES@)
    ||| exists|p: int, q: int| gapped_inability(lower, p, q)
}

/// Refusal heuristics on an already lowercased text.
pub open spec fn refusal_in_lowercase(lower: Seq<char>) -> bool {
    ||| contains_any(lower, STRONG_REFUSALS@)
    ||| (contains_any(lower, APOLOGIES@) && inability_in(lower))
}

/// Refusal / policy-dodge boilerplate in a completion.
pub open spec fn is_refusal_text(text: Seq<char>) -> bool {
    refusal_in_lowercase(lowercase_of(text))
}

/// Detect refusal / policy-dodge boilerplate in an LLM response; on ASCII
/// text the verdict is that of its ASCII-lowercased form.
pub fn looks_like_refusal(text: &str) -> (b: bool)
    ensures
        b == is_refusal_text(text@),
        all_ascii(text@) ==> b == refusal_in_lowercase(ascii_lowered(text@)),
{
    let lower = to_lowercase(text);
    looks_like_refusal_lowercase(lower.as_str())
}

/// The refusal heuristics of [`looks_like_refusal`] on an already
/// lowercased text.
pub fn looks_like_refusal_lowercase(lower: &str) -> (b: bool)
    ensures
        b == refusal_in_lowercase(lower@),
{
    let lower = chars_of(lower);
    contains_any_of(&lower, &STRONG_REFUSALS) || (
    contains_any_of(&lower, &APOLOGIES) && (contains_any_of(&lower, &INABILITIES) || has_gapped_inability(&lower)))
}

fn modal_at_exec(l: &Vec<char>, q: usize) -> (b: bool)
    ensures
        b == modal_at(l@, q as int),
{
    let mut m: usize = 0;
    while m < NEGATED_MODALS.len()
        invariant
            m <= NEGATED_MODALS@.len(),
            forall|j: int| 0 <= j < m ==> !occurs_at(l@, (#[trigger] NEGATED_MODALS@[j])@, q as int),
        decreases NEGATED_MODALS@.len() - m,
    {
        let pv = chars_of(NEGATED_MODALS[m]);
        if matches_at(l, &pv, q) {
            return true;
        }
        m += 1;
    }
    false
}

fn is_gap_char(c: char) -> (b: bool)
    ensures
        b == gap_char(c),
{
    c == ' ' || ('a' <= c && c <= 'z')
}

/// Whether an `i`, followed within the clause by the negated modal at `q`,
/// comes before it.
fn gapped_before(l: &Vec<char>, q: usize) -> (b: bool)
    requires
        q < l@.len(),
        modal_at(l@, q as int),
    ensures
        b == exists|p: int| gapped_inability(l@, p, q as int),
{
    let mut j: usize = q;
    let mut blocked = false;
    while j > 0 && !blocked
        invariant
            j <= q < l@.len(),
            modal_at(l@, q as int),
            forall|k: int| j <= k < q ==> gap_char(#[trigger] l@[k]),
            forall|p: int| 0 <= p && j < p + 2 <= q ==> !#[trigger] i_at(l@, p),
            blocked ==> j > 0 && !gap_char(l@[j - 1]) && !(j >= 2 && i_at(l@, j - 2)),
        decreases 2 * j + (if blocked { 0int } else { 1int }),
    {
        if j >= 2 && l[j - 2] == 'i' && l[j - 1] == ' ' {
            assert(gapped_inability(l@, j - 2, q as int));
            return true;
        }
        if !is_gap_char(l[j - 1]) {
            blocked = true;
        } else {
            j -= 1;
        }
    }
    assert forall|p: int| !gapped_inability(l@, p, q as int) by {
        if gapped_inability(l@, p, q as int) && p + 2 < j {
            assert(gap_char(l@[j - 1]));
        }
    }
    false
}

/// Whether some `i`, followed within the clause by a negated modal, occurs.
fn has_gapped_inability(l: &Vec<char>) -> (b: bool)
    ensures
        b == exists|p: int, q: int| gapped_inability(l@, p, q),
{
    let mut q: usize = 0;
    while q < l.len()
        invariant
            q <= l@.len(),
            forall|p: int, q2: int| q2 < q ==> !gapped_inability(l@, p, q2),
        decreases l@.len() - q,
    {
        if modal_at_exec(l, q) {
            if gapped_before(l, q) {
                return true;
            }
        }
        q += 1;
    }
    false
}

/// `trim().trim_matches('"').trim_matches('\'').trim()`.
pub open spec fn unquote(s: Seq<char>) -> Seq<char> {
    trim(trim_by(trim_by(trim(s), Strip::Char('"')), Strip::Char('\'')))
}

fn unquote_vec(s: &Vec<char>) -> (r: Vec<char>)
    ensures
        r@ == unquote(s@),
{
    let a = trim_ws(s);
    let b = trim_vec(&a, &Strip::Char('"'));
    let c = trim_vec(&b, &Strip::Char('\''));
    trim_ws(&c)
}

/// A phrase parsed from the `{"text": ..., "refused": ...}` reply protocol.
pub struct StructuredPhrase {
    pub text: String,
    pub refused: bool,
}

/// The JSON object of a completion: from the first `{` to the last `}`.
pub open spec fn json_object_span(raw: Seq<char>) -> Option<Seq<char>> {
    match (find_first(raw, '{'), find_last(raw, '}')) {
        (Some(start), Some(end)) => if end < start {
            None
        } else {
            Some(raw.subrange(start, end + 1))
        },
        _ => None,
    }
}

/// The `refused` flag given what a reply object holds at `refused`: a
/// boolean, or a string spelling `true`/`yes`/`1`.
pub open spec fn refused_from(flag: Option<bool>, flag_text: Option<Seq<char>>) -> bool {
    match flag {
        Some(b) => b,
        None => match flag_text {
            Some(s) => is_one_of(lowercase_of(trim(s)), TRUTHY@),
            None => false,
        },
    }
}

/// The `refused` flag of a reply object (see [`refused_from`]).
pub open spec fn refused_flag(body: Seq<char>) -> bool {
    refused_from(json_pointer_bool_of(body, "/refused"@), json_pointer_str_of(body, "/refused"@))
}

/// Spellings of a true `refused` flag given as a string.
pub const TRUTHY: [&'static str; 3] = ["true", "yes", "1"];

/// Keys under which the reply text is accepted, in order.
pub const TEXT_KEYS: [&'static str; 4] = ["/text", "/content", "/response", "/phrase"];

/// What serde_json finds at each of [`TEXT_KEYS`] of a reply object.
pub open spec fn text_lookups(body: Seq<char>) -> Seq<Option<Seq<char>>> {
    Seq::new(4, |j: int| json_pointer_str_of(body, TEXT_KEYS[j]@))
}

/// The reply text of an object: the first of [`TEXT_KEYS`] holding a string.
pub open spec fn reply_text(body: Seq<char>) -> Seq<char> {
    match first_some(text_lookups(body)) {
        Some(t) => t,
        None => Seq::empty(),
    }
}

/// The phrase read from a refusal flag and a raw reply text: the text
/// unquoted, or `None` when it is empty and nothing was refused.
pub open spec fn phrase_from(refused: bool, text: Seq<char>) -> Option<(Seq<char>, bool)> {
    let t = unquote(text);
    if t.len() == 0 && !refused {
        None
    } else {
        Some((t, refused))
    }
}

/// The structured reading of a completion: `(text, refused)`, or `None`
/// when it carries neither a text nor a refusal flag.
pub open spec fn structured_phrase(raw: Seq<char>) -> Option<(Seq<char>, bool)> {
    match json_object_span(raw) {
        Some(body) => phrase_from(refused_flag(body), reply_text(body)),
        None => None,
    }
}

/// The phrase of a reply object given what it was found to hold: the
/// `refused` entry as a boolean and as a string, and the [`TEXT_KEYS`]
/// entries in order.
pub fn phrase_from_fields(flag: Option<bool>, flag_text: Option<String>, texts: &Vec<Option<String>>) -> (r: Option<StructuredPhrase>)
    ensures
        match r {
            Some(p) => phrase_from(refused_from(flag, opt_string_view(flag_text)), match first_some(opt_views(texts@)) {
                Some(t) => t,
                None => Seq::empty(),
            }) == Some((p.text@, p.refused)),
            None => phrase_from(refused_from(flag, opt_string_view(flag_text)), match first_some(opt_views(texts@)) {
                Some(t) => t,
                None => Seq::empty(),
            }) is None,
        },
{
    let refused = match flag {
        Some(b) => b,
        None => match flag_text {
            Some(s) => {
                let v = chars_of(s.as_str());
                let t = string_from_chars(trim_ws(&v));
                let l = to_lowercase(t.as_str());
                let lv = chars_of(l.as_str());
                one_of(&lv, &TRUTHY)
            },
            None => false,
        },
    };
    let t0 = match first_found(texts) {
        Some(t) => chars_of(t.as_str()),
        None => Vec::new(),
    };
    let text = unquote_vec(&t0);
    if text.len() == 0 && !refused {
        return None;
    }
    Some(StructuredPhrase { text: string_from_chars(text), refused })
}

/// Parse the `{"text": ..., "refused": ...}` object out of a raw completion:
/// the first `{` through the last `}` is read as JSON.
pub fn parse_structured_phrase(raw: &str) -> (r: Option<StructuredPhrase>)
    ensures
        match r {
            Some(p) => structured_phrase(raw@) == Some((p.text@, p.refused)),
            None => structured_phrase(raw@) is None,
        },
{
    let v = chars_of(raw);
    let start = match find_char(&v, '{') {
        Some(i) => i,
        None => return None,
    };
    let end = match rfind_char(&v, '}') {
        Some(i) => i,
        None => return None,
    };
    if end < start {
        return None;
    }
    let n = v.len();
    assert(end < n);
    let body_v = slice(&v, start, end + 1);
    let body = string_from_chars(body_v);
    let flag = json_pointer_bool(body.as_str(), "/refused");
    let flag_text = json_pointer_str(body.as_str(), "/refused");
    let mut texts: Vec<Option<String>> = Vec::new();
    let mut k: usize = 0;
    while k < 4
        invariant
            k <= 4,
            texts@.len() == k,
            forall|j: int| 0 <= j < k ==> opt_views(texts@)[j] == #[trigger] text_lookups(body@)[j],
        decreases 4 - k,
    {
        let t = json_pointer_str(body.as_str(), TEXT_KEYS[k]);
        texts.push(t);
        proof {
            assert(opt_views(texts@)[k as int] == opt_string_view(t));
        }
        k += 1;
    }
    assert(opt_views(texts@) =~= text_lookups(body@));
    phrase_from_fields(flag, flag_text, &texts)
}

/// Labels that reasoning models leak instead of a phrase.
pub const GARBAGE_PATTERNS: [&'static str; 21] = [
    "user safety", "safe", "unsafe", "safety:", "content policy", "policy:", "flag:",
    "category:", "rating:", "sentiment:", "label:", "classification:", "moderation:",
    "toxicity:", "output:", "response:", "result:", "answer:", "greeting:", "welcome:",
    "goodbye:",
];

/// The text after the first `:` (`split(':').nth(1)`), trimmed.
pub open spec fn after_colon(lower: Seq<char>) -> Seq<char> {
    let parts = split_char(lower, ':');
    if parts.len() > 1 {
        trim(parts[1])
    } else {
        Seq::empty()
    }
}

/// A cleaned, lowercased phrase that is a label rather than a sentence:
/// exactly a garbage pattern, or `pattern: value` whose value is short or
/// itself a pattern.
pub open spec fn is_garbage(lower: Seq<char>) -> bool {
    exists|i: int| 0 <= i < GARBAGE_PATTERNS@.len() && {
        let p = (#[trigger] GARBAGE_PATTERNS@[i])@;
        ||| lower == p
        ||| ((starts_with(lower, p + seq![':']) || starts_with(lower, p + seq![' ', ':'])) && (
        utf8_len(after_colon(lower)) < 15 || is_one_of(after_colon(lower), GARBAGE_PATTERNS@)))
    }
}

/// The phrase a completion stands for, after cleaning, or `None` when it
/// is not a usable spoken sentence.
pub open spec fn validated_phrase(raw: Seq<char>, expected_user: Seq<char>, min_len: nat) -> Option<Seq<char>> {
    let trimmed = unquote(raw);
    let cleaned = unquote(first_line(trimmed));
    if trimmed.len() == 0 || cleaned.len() == 0 {
        None
    } else if cleaned_phrase_ok(cleaned, lowercase_of(cleaned), expected_user, lowercase_of(expected_user), min_len) {
        Some(cleaned)
    } else {
        None
    }
}

/// The checks a cleaned, non-empty phrase passes, given its lowercase form
/// and that of the expected user name: no label, at least `min_len`
/// characters, no JSON or code, and the user named when one is expected.
pub open spec fn cleaned_phrase_ok(
    cleaned: Seq<char>,
    lower: Seq<char>,
    expected_user: Seq<char>,
    user_lower: Seq<char>,
    min_len: nat,
) -> bool {
    &&& !is_garbage(lower)
    &&& cleaned.len() >= min_len
    &&& !(starts_with(cleaned, seq!['{']) || starts_with(cleaned, seq!['[']) || contains_seq(cleaned, seq![':', '"', ')']))
    &&& (contains_seq(lower, user_lower) || expected_user.len() == 0)
}

/// The checks of [`validate_phrase`] on a cleaned phrase, given its
/// lowercase form and that of the expected user name.
pub fn cleaned_phrase_accepted(cleaned: &str, lower: &str, expected_user: &str, user_lower: &str, min_len: usize) -> (b: bool)
    ensures
        b == cleaned_phrase_ok(cleaned@, lower@, expected_user@, user_lower@, min_len as nat),
{
    if is_garbage_label(lower) {
        return false;
    }
    let cv = chars_of(cleaned);
    if cv.len() < min_len {
        return false;
    }
    proof {
        reveal_strlit("{");
        reveal_strlit("[");
        reveal_strlit(":\")");
        assert("{"@ =~= seq!['{']);
        assert("["@ =~= seq!['[']);
        assert(":\")"@ =~= seq![':', '"', ')']);
    }
    if starts_with_str(&cv, "{") || starts_with_str(&cv, "[") || contains_str(&cv, ":\")") {
        return false;
    }
    let lv = chars_of(lower);
    let uv = chars_of(user_lower);
    let user_v = chars_of(expected_user);
    crate::text::contains(&lv, &uv) || user_v.len() == 0
}

/// Whether a cleaned, already lowercased phrase is a label rather than a
/// sentence (see [`is_garbage`]).
pub fn is_garbage_label(text: &str) -> (b: bool)
    ensures
        b == is_garbage(text@),
{
    let lower = &chars_of(text);
    let parts = split_on(lower, ':');
    let after: Vec<char> = if parts.len() > 1 {
        trim_ws(&parts[1])
    } else {
        Vec::new()
    };
    assert(after@ == after_colon(lower@));
    let short = utf8_len_of(&after) < 15;
    let label = one_of(&after, &GARBAGE_PATTERNS);
    let mut i: usize = 0;
    while i < GARBAGE_PATTERNS.len()
        invariant
            i <= GARBAGE_PATTERNS@.len(),
            lower@ == text@,
            after@ == after_colon(lower@),
            short == (utf8_len(after@) < 15),
            label == is_one_of(after@, GARBAGE_PATTERNS@),
            forall|k: int| 0 <= k < i ==> !{
                let p = (#[trigger] GARBAGE_PATTERNS@[k])@;
                ||| lower@ == p
                ||| ((starts_with(lower@, p + seq![':']) || starts_with(lower@, p + seq![' ', ':'])) && (
                utf8_len(after_colon(lower@)) < 15 || is_one_of(after_colon(lower@), GARBAGE_PATTERNS@)))
            },
        decreases GARBAGE_PATTERNS@.len() - i,
    {
        let p = GARBAGE_PATTERNS[i];
        let pv = chars_of(p);
        if eq_str(lower, p) {
            return true;
        }
        let mut p1 = slice_all(&pv);
        p1.push(':');
        let mut p2 = slice_all(&pv);
        p2.push(' ');
        p2.push(':');
        proof {
            assert(p1@ =~= p@ + seq![':']);
            assert(p2@ =~= p@ + seq![' ', ':']);
        }
        if (crate::text::starts_with_seq(lower, &p1) || crate::text::starts_with_seq(lower, &p2)) && (short || label) {
            return true;
        }
        i += 1;
    }
    false
}

/// Validate that an LLM-generated phrase is a spoken sentence and not a
/// system artifact; returns the cleaned first line.
pub fn validate_phrase(raw: &str, expected_user: &str, min_len: usize) -> (r: Option<String>)
    ensures
        match r {
            Some(c) => validated_phrase(raw@, expected_user@, min_len as nat) == Some(c@),
            None => validated_phrase(raw@, expected_user@, min_len as nat) is None,
        },
{
    let rv = chars_of(raw);
    let trimmed = unquote_vec(&rv);
    if trimmed.len() == 0 {
        return None;
    }
    let first = first_line_of(&trimmed);
    let cleaned = unquote_vec(&first);
    if cleaned.len() == 0 {
        return None;
    }
    let cleaned_s = string_from_chars(slice_all(&cleaned));
    let lower_s = to_lowercase(cleaned_s.as_str());
    let user_lower_s = to_lowercase(expected_user);
    if cleaned_phrase_accepted(cleaned_s.as_str(), lower_s.as_str(), expected_user, user_lower_s.as_str(), min_len) {
        Some(cleaned_s)
    } else {
        None
    }
}

/// Truncate to 200 characters plus `...` (the Google TTS limit).
pub fn truncate_for_tts(s: String) -> (r: String)
    ensures
        r@ == truncate_with_ellipsis(s@, 200),
{
    let v = chars_of(s.as_str());
    string_from_chars(truncate_chars(&v, 200))
}

/// Classification of a raw completion for the phrase features.
pub enum PhraseOutcome {
    /// A validated, cleaned phrase ready for TTS (truncated to 200 chars).
    Phrase(String),
    /// The LLM refused; never speak it.
    Refused,
    /// Garbage or invalid output; worth retrying.
    Invalid,
}

/// The outcome a completion is classified as: `Some(phrase)` for a usable
/// phrase, `None` for a refusal (`true`) or invalid output (`false`).
pub open spec fn phrase_outcome(raw: Seq<char>, expected_user: Seq<char>, min_len: nat) -> (Option<Seq<char>>, bool) {
    let (text, refused) = match structured_phrase(raw) {
        Some((t, r)) => (t, r || is_refusal_text(t)),
        None => (raw, is_refusal_text(raw)),
    };
    if refused {
        (None, true)
    } else {
        match validated_phrase(text, expected_user, min_len) {
            Some(c) => (Some(truncate_with_ellipsis(c, 200)), false),
            None => (None, false),
        }
    }
}

/// Process a raw completion: prefer the JSON protocol, fall back to the
/// plain text, and short-circuit refusals either way.
pub fn process_phrase_response(raw: &str, expected_user: &str, min_len: usize) -> (r: PhraseOutcome)
    ensures
        match r {
            PhraseOutcome::Phrase(c) => phrase_outcome(raw@, expected_user@, min_len as nat) == (Some(c@), false),
            PhraseOutcome::Refused => phrase_outcome(raw@, expected_user@, min_len as nat).1,
            PhraseOutcome::Invalid => phrase_outcome(raw@, expected_user@, min_len as nat) == (None::<Seq<char>>, false),
        },
{
    match parse_structured_phrase(raw) {
        Some(sp) => {
            if sp.refused || looks_like_refusal(sp.text.as_str()) {
                return PhraseOutcome::Refused;
            }
            match validate_phrase(sp.text.as_str(), expected_user, min_len) {
                Some(c) => PhraseOutcome::Phrase(truncate_for_tts(c)),
                None => PhraseOutcome::Invalid,
            }
        },
        None => {
            if looks_like_refusal(raw) {
                return PhraseOutcome::Refused;
            }
            match validate_phrase(raw, expected_user, min_len) {
                Some(c) => PhraseOutcome::Phrase(truncate_for_tts(c)),
                None => PhraseOutcome::Invalid,
            }
        },
    }
}


// ───────────────────────── endpoint configuration ─────────────────────────

/// One OpenAI-compatible chat endpoint.
pub struct LlmEndpoint {
    pub base_url: String,
    pub api_key: String,
    pub model: String,
}

/// The trimmed, non-blank items of a list of pieces.
pub open spec fn nonblank_items(parts: Seq<Seq<char>>) -> Seq<Seq<char>>
    decreases parts.len(),
{
    if parts.len() == 0 {
        Seq::empty()
    } else {
        let init = nonblank_items(parts.drop_last());
        let t = trim(parts.last());
        if t.len() > 0 {
            init.push(t)
        } else {
            init
        }
    }
}

/// A comma-separated setting: `split(',')`, trimmed, blanks dropped.
pub open spec fn config_list(v: Seq<char>) -> Seq<Seq<char>> {
    nonblank_items(split_char(v, ','))
}

/// Number of usable endpoints: endpoints and models are paired up.
pub open spec fn endpoint_count(endpoints: Seq<char>, models: Seq<char>) -> nat {
    let e = config_list(endpoints).len();
    let m = config_list(models).len();
    if e < m { e } else { m }
}

/// The API key of endpoint `i`: its entry in the key list, `ollama` when
/// the list is shorter.
pub open spec fn endpoint_key(api_keys: Seq<char>, i: int) -> Seq<char> {
    if i < config_list(api_keys).len() {
        config_list(api_keys)[i]
    } else {
        "ollama"@
    }
}

/// The items of a comma-separated setting.
pub fn parse_config_list(v: &str) -> (r: Vec<String>)
    ensures
        r@.len() == config_list(v@).len(),
        forall|i: int| 0 <= i < r@.len() ==> (#[trigger] r@[i])@ == config_list(v@)[i],
{
    let chars = chars_of(v);
    let parts = split_on(&chars, ',');
    let mut out: Vec<String> = Vec::new();
    let mut i: usize = 0;
    let ghost all = split_char(v@, ',');
    assert(all.take(0) =~= Seq::<Seq<char>>::empty());
    while i < parts.len()
        invariant
            i <= parts@.len(),
            parts@.len() == all.len(),
            forall|k: int| 0 <= k < parts@.len() ==> (#[trigger] parts@[k])@ == all[k],
            out@.len() == nonblank_items(all.take(i as int)).len(),
            forall|k: int| 0 <= k < out@.len() ==> (#[trigger] out@[k])@ == nonblank_items(all.take(i as int))[k],
        decreases parts@.len() - i,
    {
        assert(all.take(i + 1).drop_last() =~= all.take(i as int));
        let t = trim_ws(&parts[i]);
        if t.len() > 0 {
            out.push(string_from_chars(t));
        }
        i += 1;
    }
    assert(all.take(i as int) =~= all);
    out
}

/// Pair the configured endpoints, API keys and models (the raw values of
/// `LLM_ENDPOINTS`, `LLM_API_KEYS`, `LLM_MODELS`, empty when unset).
pub fn get_endpoint_configs(endpoints: &str, api_keys: &str, models: &str) -> (r: Vec<LlmEndpoint>)
    ensures
        r@.len() == endpoint_count(endpoints@, models@),
        forall|i: int| 0 <= i < r@.len() ==> {
            &&& (#[trigger] r@[i]).base_url@ == config_list(endpoints@)[i]
            &&& r@[i].model@ == config_list(models@)[i]
            &&& r@[i].api_key@ == endpoint_key(api_keys@, i)
        },
        forall|i: int| 0 <= i < r@.len() && i < config_list(api_keys@).len() ==> (#[trigger] r@[i]).api_key@
            == config_list(api_keys@)[i],
        forall|i: int| 0 <= i < r@.len() && i >= config_list(api_keys@).len() ==> (#[trigger] r@[i]).api_key@
            == "ollama"@,
{
    proof {
        lemma_endpoint_key_by_position(api_keys@);
    }
    let e = parse_config_list(endpoints);
    let k = parse_config_list(api_keys);
    let m = parse_config_list(models);
    let n = if e.len() < m.len() { e.len() } else { m.len() };
    let mut out: Vec<LlmEndpoint> = Vec::new();
    let mut i: usize = 0;
    while i < n
        invariant
            n <= e@.len(),
            n <= m@.len(),
            n == endpoint_count(endpoints@, models@),
            i <= n,
            e@.len() == config_list(endpoints@).len(),
            m@.len() == config_list(models@).len(),
            k@.len() == config_list(api_keys@).len(),
            forall|j: int| 0 <= j < e@.len() ==> (#[trigger] e@[j])@ == config_list(endpoints@)[j],
            forall|j: int| 0 <= j < m@.len() ==> (#[trigger] m@[j])@ == config_list(models@)[j],
            forall|j: int| 0 <= j < k@.len() ==> (#[trigger] k@[j])@ == config_list(api_keys@)[j],
            out@.len() == i,
            forall|j: int| 0 <= j < i ==> {
                &&& (#[trigger] out@[j]).base_url@ == config_list(endpoints@)[j]
                &&& out@[j].model@ == config_list(models@)[j]
                &&& out@[j].api_key@ == endpoint_key(api_keys@, j)
            },
        decreases n - i,
    {
        let key = if i < k.len() {
            k[i].clone()
        } else {
            "ollama".to_string()
        };
        out.push(LlmEndpoint { base_url: e[i].clone(), api_key: key, model: m[i].clone() });
        i += 1;
    }
    out
}

/// Whether any LLM endpoint is configured.
pub fn is_configured(endpoints: &str, api_keys: &str, models: &str) -> (b: bool)
    ensures
        b == (endpoint_count(endpoints@, models@) > 0),
{
    get_endpoint_configs(endpoints, api_keys, models).len() > 0
}

// ───────────────────────── endpoint rotation ─────────────────────────

/// Retries of one endpoint after an empty or unusable completion.
pub const MAX_EMPTY_RETRIES: u32 = 2;

/// What an attempt against one endpoint produced.
pub enum Completion {
    /// HTTP 429.
    RateLimited,
    /// Another non-success status, rendered as reqwest shows it.
    HttpError { status: String, body: String },
    /// The body was not JSON.
    BadJson(String),
    /// `choices[0].message.content` (empty when absent).
    Content(String),
    /// The request did not complete.
    ConnectFailed(String),
}

/// Which feature drives the rotation.
pub enum LlmTask {
    Ask,
    Translate,
}

/// What one attempt means for the rotation.
pub enum Verdict {
    /// Try the same endpoint again.
    Retry,
    /// The final answer.
    Answer(Seq<char>),
    /// This endpoint failed with the given error.
    Failure(Seq<char>),
}

/// The verdict on an attempt that has already been retried `retries` times.
pub open spec fn attempt_verdict(task: LlmTask, base: Seq<char>, o: Completion, retries: nat) -> Verdict {
    match o {
        Completion::RateLimited => Verdict::Failure("Rate limited at "@ + base),
        Completion::HttpError { status, body } => match task {
            LlmTask::Ask => Verdict::Failure("HTTP "@ + status@ + " at "@ + base + ": "@ + body@),
            LlmTask::Translate => Verdict::Failure("HTTP "@ + status@ + " at "@ + base),
        },
        Completion::BadJson(e) => Verdict::Failure("JSON parse error at "@ + base + ": "@ + e@),
        Completion::ConnectFailed(e) => Verdict::Failure("Connection error at "@ + base + ": "@ + e@),
        Completion::Content(c) => if c@.len() == 0 {
            if retries + 1 <= MAX_EMPTY_RETRIES {
                Verdict::Retry
            } else {
                Verdict::Failure("Empty response at "@ + base)
            }
        } else {
            match task {
                LlmTask::Ask => {
                    let (phrase, refused) = phrase_outcome(c@, Seq::empty(), 1);
                    match phrase {
                        Some(p) => Verdict::Answer(p),
                        None => if refused {
                            Verdict::Answer(REFUSAL_PREFIX@ + "ask"@)
                        } else if retries + 1 <= MAX_EMPTY_RETRIES {
                            Verdict::Retry
                        } else {
                            Verdict::Failure("Invalid/garbage response at "@ + base)
                        },
                    }
                },
                LlmTask::Translate => {
                    let cleaned = unquote(c@);
                    if cleaned.len() == 0 {
                        Verdict::Failure("Empty response after cleanup at "@ + base)
                    } else {
                        Verdict::Answer(truncate_with_ellipsis(cleaned, 200))
                    }
                },
            }
        },
    }
}

/// Where the rotation stands: the endpoint being tried and how often it
/// has been retried.
pub struct Rotation {
    pub endpoint: usize,
    pub empty_retries: u32,
}

/// The next thing to do.
pub enum RotationAction {
    /// Send the request to this endpoint.
    Send(usize),
    /// The feature's result.
    Finish(Result<String, String>),
}

/// Attempts still available from a rotation state, over `n` endpoints.
pub open spec fn attempts_left(st: Rotation, n: nat) -> int {
    (n - st.endpoint - 1) * (MAX_EMPTY_RETRIES + 1) + (MAX_EMPTY_RETRIES - st.empty_retries) + 1
}

/// The first step of `ask`.
pub enum AskStart {
    /// No endpoint is configured: answer with this error, with no web
    /// search and no completion request.
    NotConfigured(String),
    /// Search the web for context, then run the rotation.
    SearchThenAsk,
}

/// `ask` checks the configuration before anything goes out: with no
/// endpoint it fails at once.
pub fn ask_start(n_endpoints: usize) -> (r: AskStart)
    ensures
        n_endpoints == 0 ==> (r matches AskStart::NotConfigured(e) && e@ == "No LLM endpoints configured"@),
        n_endpoints > 0 ==> r is SearchThenAsk,
{
    if n_endpoints == 0 {
        AskStart::NotConfigured("No LLM endpoints configured".to_string())
    } else {
        AskStart::SearchThenAsk
    }
}

/// Start a rotation over `n` endpoints.
pub fn rotation_start(n: usize) -> (r: (Rotation, RotationAction))
    ensures
        n == 0 ==> (r.1 matches RotationAction::Finish(Err(e)) && e@ == "No LLM endpoints configured"@),
        n > 0 ==> (r.1 matches RotationAction::Send(i) && i == 0 && r.0.endpoint == 0 && r.0.empty_retries == 0),
{
    if n == 0 {
        (Rotation { endpoint: 0, empty_retries: 0 }, RotationAction::Finish(Err("No LLM endpoints configured".to_string())))
    } else {
        (Rotation { endpoint: 0, empty_retries: 0 }, RotationAction::Send(0))
    }
}

fn with_base(lit: &str, base: &Vec<char>) -> (r: Vec<char>)
    ensures
        r@ == lit@ + base@,
{
    let mut v = chars_of(lit);
    append(&mut v, base);
    v
}

fn verdict_exec(task: &LlmTask, base: &Vec<char>, o: &Completion, retries: u32) -> (r: (u8, Vec<char>))
    requires
        retries <= MAX_EMPTY_RETRIES,
    ensures
        r.0 == 0 ==> attempt_verdict(*task, base@, *o, retries as nat) == Verdict::Retry,
        r.0 == 1 ==> attempt_verdict(*task, base@, *o, retries as nat) == Verdict::Answer(r.1@),
        r.0 == 2 ==> attempt_verdict(*task, base@, *o, retries as nat) == Verdict::Failure(r.1@),
        r.0 <= 2,
{
    match o {
        Completion::RateLimited => (2, with_base("Rate limited at ", base)),
        Completion::HttpError { status, body } => {
            let mut v = chars_of("HTTP ");
            append_str(&mut v, status.as_str());
            append_str(&mut v, " at ");
            append(&mut v, base);
            match task {
                LlmTask::Ask => {
                    append_str(&mut v, ": ");
                    append_str(&mut v, body.as_str());
                },
                LlmTask::Translate => {},
            }
            (2, v)
        },
        Completion::BadJson(e) => {
            let mut v = with_base("JSON parse error at ", base);
            append_str(&mut v, ": ");
            append_str(&mut v, e.as_str());
            (2, v)
        },
        Completion::ConnectFailed(e) => {
            let mut v = with_base("Connection error at ", base);
            append_str(&mut v, ": ");
            append_str(&mut v, e.as_str());
            (2, v)
        },
        Completion::Content(c) => {
            let cv = chars_of(c.as_str());
            if cv.len() == 0 {
                if retries + 1 <= MAX_EMPTY_RETRIES {
                    (0, Vec::new())
                } else {
                    (2, with_base("Empty response at ", base))
                }
            } else {
                match task {
                    LlmTask::Ask => {
                        proof {
                            reveal_strlit("");
                            assert(""@ =~= Seq::<char>::empty());
                        }
                        match process_phrase_response(c.as_str(), "", 1) {
                            PhraseOutcome::Phrase(p) => (1, chars_of(p.as_str())),
                            PhraseOutcome::Refused => {
                                let mut v = chars_of(REFUSAL_PREFIX);
                                append_str(&mut v, "ask");
                                (1, v)
                            },
                            PhraseOutcome::Invalid => {
                                if retries + 1 <= MAX_EMPTY_RETRIES {
                                    (0, Vec::new())
                                } else {
                                    (2, with_base("Invalid/garbage response at ", base))
                                }
                            },
                        }
                    },
                    LlmTask::Translate => {
                        let cleaned = unquote_vec(&cv);
                        if cleaned.len() == 0 {
                            (2, with_base("Empty response after cleanup at ", base))
                        } else {
                            (1, truncate_chars(&cleaned, 200))
                        }
                    },
                }
            }
        },
    }
}

/// Advance the rotation after an attempt against `endpoints[st.endpoint]`:
/// retry the same endpoint (at most [`MAX_EMPTY_RETRIES`] times), move on
/// to the next endpoint after a failure, or finish with the answer, or with
/// the last error once every endpoint has failed.
pub fn rotation_step(task: LlmTask, endpoints: &Vec<LlmEndpoint>, st: &mut Rotation, outcome: Completion) -> (a: RotationAction)
    requires
        old(st).endpoint < endpoints@.len(),
        old(st).empty_retries <= MAX_EMPTY_RETRIES,
    ensures
        final(st).empty_retries <= MAX_EMPTY_RETRIES,
        final(st).endpoint < endpoints@.len(),
        match attempt_verdict(task, endpoints@[old(st).endpoint as int].base_url@, outcome, old(st).empty_retries as nat) {
            Verdict::Retry => a == RotationAction::Send(old(st).endpoint) && final(st).endpoint == old(st).endpoint
                && final(st).empty_retries == old(st).empty_retries + 1,
            Verdict::Answer(s) => a matches RotationAction::Finish(Ok(r)) && r@ == s,
            Verdict::Failure(e) => if old(st).endpoint + 1 < endpoints@.len() {
                a == RotationAction::Send((old(st).endpoint + 1) as usize) && final(st).endpoint == old(st).endpoint + 1
                    && final(st).empty_retries == 0
            } else {
                a matches RotationAction::Finish(Err(r)) && r@ == "All LLM endpoints failed. Last error: "@ + e
            },
        },
        a matches RotationAction::Send(i) ==> i == final(st).endpoint && attempts_left(*final(st), endpoints@.len())
            < attempts_left(*old(st), endpoints@.len()),
        task is Translate ==> (outcome matches Completion::Content(c) ==> (0 < unquote(c@).len() <= 200 ==> (a matches
            RotationAction::Finish(Ok(r)) && r@ == unquote(c@)))),
{
    proof {
        match &outcome {
            Completion::Content(c) => {
                lemma_translation_kept_whole(endpoints@[old(st).endpoint as int].base_url@, *c, old(st).empty_retries as nat);
            },
            _ => {},
        }
    }
    let base = chars_of(endpoints[st.endpoint].base_url.as_str());
    let (kind, text) = verdict_exec(&task, &base, &outcome, st.empty_retries);
    if kind == 0 {
        st.empty_retries = st.empty_retries + 1;
        RotationAction::Send(st.endpoint)
    } else if kind == 1 {
        RotationAction::Finish(Ok(string_from_chars(text)))
    } else if st.endpoint < endpoints.len() - 1 {
        st.endpoint = st.endpoint + 1;
        st.empty_retries = 0;
        RotationAction::Send(st.endpoint)
    } else {
        let mut v = chars_of("All LLM endpoints failed. Last error: ");
        append(&mut v, &text);
        RotationAction::Finish(Err(string_from_chars(v)))
    }
}

/// A rotation over `n` endpoints sends at most `n * (MAX_EMPTY_RETRIES + 1)`
/// requests: that many attempts are left at the start, every valid state
/// has at least one left, and each `Send` of [`rotation_step`] uses one up.
pub proof fn lemma_rotation_attempts_bounded(n: nat, st: Rotation)
    requires
        st.endpoint < n,
        st.empty_retries <= MAX_EMPTY_RETRIES,
    ensures
        attempts_left(Rotation { endpoint: 0, empty_retries: 0 }, n) == n * (MAX_EMPTY_RETRIES + 1),
        1 <= attempts_left(st, n) <= n * (MAX_EMPTY_RETRIES + 1),
{
}

/// The chat-completions URL of an endpoint base URL.
pub fn completions_url(base_url: &str) -> (r: String)
    ensures
        r@ == crate::text::trim_end_by(base_url@, Strip::Char('/')) + "/chat/completions"@,
{
    let b = chars_of(base_url);
    let mut t = crate::text::trim_end_vec(&b, &Strip::Char('/'));
    append_str(&mut t, "/chat/completions");
    string_from_chars(t)
}

/// `choices[0].message.content` of a chat-completions body, empty when absent.
pub fn completion_content(body: &str) -> (r: String)
    ensures
        r@ == match json_pointer_str_of(body@, "/choices/0/message/content"@) {
            Some(c) => c,
            None => Seq::empty(),
        },
{
    match json_pointer_str(body, "/choices/0/message/content") {
        Some(c) => c,
        None => String::new(),
    }
}

// ───────────────────────── prompts ─────────────────────────

/// Personality line of the `ask` system prompt.
pub open spec fn ask_personality(lang: Seq<char>) -> Seq<char> {
    if lang == "eng"@ {
        "You are a humorous Discord voice bot. Keep your answer to a single short sentence (max 200 characters). Be funny and casual."@
    } else {
        "Sei un bot vocale Discord umoristico. Rispondi con una singola frase breve (massimo 200 caratteri). Sii divertente e alla mano."@
    }
}

/// Language instruction of the `ask` system prompt.
pub open spec fn ask_lang_instruction(lang: Seq<char>) -> Seq<char> {
    if lang == "eng"@ {
        "Respond in English."@
    } else {
        "Rispondi in italiano."@
    }
}

/// `- s` lines for the first sentences, joined by newlines.
pub open spec fn bullet_lines(sentences: Seq<Seq<char>>) -> Seq<char>
    decreases sentences.len(),
{
    if sentences.len() == 0 {
        Seq::empty()
    } else if sentences.len() == 1 {
        "- "@ + sentences[0]
    } else {
        bullet_lines(sentences.drop_last()) + "\n- "@ + sentences.last()
    }
}

/// The `ask` system prompt: personality, nickname, language, up to 30
/// example sentences, the answering rules and the JSON reply format.
pub open spec fn ask_prompt(lang: Seq<char>, nickname: Seq<char>, sentences: Seq<Seq<char>>) -> Seq<char> {
    ask_personality(lang) + "\nYou are known as \""@ + nickname + "\".\n"@ + ask_lang_instruction(lang)
        + "\nHere are some example phrases that reflect your personality and style:\n"@ + bullet_lines(
        if sentences.len() > 30 { sentences.take(30) } else { sentences },
    )
        + "\nAnswer the user's question concisely. Do not use markdown, emojis, or multi-line responses. Just give the spoken answer text.\n"@
        + (if starts_with(lang, "eng"@) { JSON_FORMAT_EN } else { JSON_FORMAT_IT })@
}

/// Build the `ask` system prompt from the configured language (`LANG`),
/// the bot's nickname and the stored sentences.
pub fn ask_system_prompt(lang: &str, nickname: &str, sentences: &Vec<String>) -> (r: String)
    ensures
        r@ == ask_prompt(lang@, nickname@, sentences@.map_values(|s: String| s@)),
{
    let ghost all = sentences@.map_values(|s: String| s@);
    let l = chars_of(lang);
    let eng = eq_str(&l, "eng");
    let mut p: Vec<char> = if eng {
        chars_of("You are a humorous Discord voice bot. Keep your answer to a single short sentence (max 200 characters). Be funny and casual.")
    } else {
        chars_of("Sei un bot vocale Discord umoristico. Rispondi con una singola frase breve (massimo 200 caratteri). Sii divertente e alla mano.")
    };
    append_str(&mut p, "\nYou are known as \"");
    append_str(&mut p, nickname);
    append_str(&mut p, "\".\n");
    if eng {
        append_str(&mut p, "Respond in English.");
    } else {
        append_str(&mut p, "Rispondi in italiano.");
    }
    append_str(&mut p, "\nHere are some example phrases that reflect your personality and style:\n");
    let ghost before = p@;
    let n: usize = if sentences.len() > 30 { 30 } else { sentences.len() };
    let ghost used = if all.len() > 30 { all.take(30) } else { all };
    assert(used.len() == n);
    let mut i: usize = 0;
    while i < n
        invariant
            n <= sentences@.len(),
            all == sentences@.map_values(|s: String| s@),
            used.len() == n,
            forall|k: int| 0 <= k < n ==> used[k] == all[k],
            i <= n,
            p@ == before + bullet_lines(used.take(i as int)),
        decreases n - i,
    {
        assert(used.take(i + 1).drop_last() =~= used.take(i as int));
        if i > 0 {
            append_str(&mut p, "\n- ");
        } else {
            append_str(&mut p, "- ");
        }
        append_str(&mut p, sentences[i].as_str());
        proof {
            assert(used.take(i + 1).last() == sentences@[i as int]@);
            if i == 0 {
                reveal_strlit("- ");
                assert(bullet_lines(used.take(1)) =~= "- "@ + used.take(1)[0]);
            }
        }
        i += 1;
    }
    assert(used.take(n as int) =~= used);
    append_str(&mut p, "\nAnswer the user's question concisely. Do not use markdown, emojis, or multi-line responses. Just give the spoken answer text.\n");
    append_str(&mut p, json_format_for(lang));
    proof {
        reveal_strlit("eng");
        if eng {
            assert(l@ == "eng"@);
        }
    }
    string_from_chars(p)
}

/// The `translate` system prompt.
pub open spec fn translate_prompt(target_lang: Seq<char>, lang: Seq<char>) -> Seq<char> {
    let bot_lang = if lang == "eng"@ { "English"@ } else { "Italian"@ };
    "You are a translation bot. Translate the user's text to "@ + target_lang
        + ". Output ONLY the translation — no explanations, no quotes, no extra text. Keep the same tone and register. If the text is already in "@
        + target_lang + ", output it unchanged. The bot's interface language is "@ + bot_lang + "."@
}

/// Build the `translate` system prompt.
pub fn translate_system_prompt(target_lang: &str, lang: &str) -> (r: String)
    ensures
        r@ == translate_prompt(target_lang@, lang@),
{
    let l = chars_of(lang);
    let mut p = chars_of("You are a translation bot. Translate the user's text to ");
    append_str(&mut p, target_lang);
    append_str(&mut p, ". Output ONLY the translation — no explanations, no quotes, no extra text. Keep the same tone and register. If the text is already in ");
    append_str(&mut p, target_lang);
    append_str(&mut p, ", output it unchanged. The bot's interface language is ");
    if eq_str(&l, "eng") {
        append_str(&mut p, "English");
    } else {
        append_str(&mut p, "Italian");
    }
    append_str(&mut p, ".");
    string_from_chars(p)
}

/// The web-search block appended to the question, empty without results.
pub open spec fn web_context_block(digest: Option<Seq<char>>) -> Seq<char> {
    match digest {
        Some(d) => "\n\nWeb search results for the question (may contain the answer):\n"@ + d
            + "\nUse these results if they are relevant; ignore them if not."@,
        None => Seq::empty(),
    }
}

/// The user message of `ask`: the question followed by the web context.
pub fn enriched_question(question: &str, digest: Option<&str>) -> (r: String)
    ensures
        r@ == question@ + web_context_block(match digest {
            Some(d) => Some(d@),
            None => None,
        }),
{
    let mut q = chars_of(question);
    match digest {
        Some(d) => {
            append_str(&mut q, "\n\nWeb search results for the question (may contain the answer):\n");
            append_str(&mut q, d);
            append_str(&mut q, "\nUse these results if they are relevant; ignore them if not.");
        },
        None => {
            proof {
                assert(q@ + Seq::<char>::empty() =~= q@);
            }
        },
    }
    string_from_chars(q)
}

/// Number of history messages sent with a question.
pub const HISTORY_WINDOW: usize = 10;

/// The index of the first history message sent (the last ten are kept).
pub fn history_window_start(len: usize) -> (start: usize)
    ensures
        start == if len > HISTORY_WINDOW { len - HISTORY_WINDOW } else { 0 },
{
    if len > HISTORY_WINDOW {
        len - HISTORY_WINDOW
    } else {
        0
    }
}

// ───────────────────────── web search digests ─────────────────────────

/// Maximum size, in bytes, a search digest grows to.
pub const DIGEST_LIMIT: usize = 1500;

/// Lines kept in a gateway digest.
pub open spec fn is_digest_line(line: Seq<char>) -> bool {
    starts_with(line, "Title:"@) || starts_with(line, "Description:"@)
}

/// The gateway digest of some lines, and whether it stopped growing
/// (it stops once over [`DIGEST_LIMIT`] bytes).
pub open spec fn digest_acc(lines: Seq<Seq<char>>) -> (Seq<char>, bool)
    decreases lines.len(),
{
    if lines.len() == 0 {
        (Seq::empty(), false)
    } else {
        let (d, stopped) = digest_acc(lines.drop_last());
        if stopped {
            (d, true)
        } else {
            let line = lines.last();
            let d2 = if is_digest_line(line) { d + trim(line) + seq!['\n'] } else { d };
            (d2, utf8_len(d2) > DIGEST_LIMIT)
        }
    }
}

/// The compact digest of a search tool's text answer: its `Title:` and
/// `Description:` lines, trimmed, up to about [`DIGEST_LIMIT`] bytes; the
/// first 1500 characters when it has no such line; nothing when empty.
pub open spec fn search_digest(text: Seq<char>) -> Option<Seq<char>> {
    if text.len() == 0 {
        None
    } else {
        let d = digest_acc(split_char(text, '\n')).0;
        if d.len() == 0 {
            Some(if text.len() > 1500 { text.take(1500) } else { text })
        } else {
            Some(d)
        }
    }
}

/// Compact a search answer into the digest given to the LLM.
pub fn mcp_digest(text: &str) -> (r: Option<String>)
    ensures
        match r {
            Some(d) => search_digest(text@) == Some(d@),
            None => search_digest(text@) is None,
        },
{
    let t = chars_of(text);
    if t.len() == 0 {
        return None;
    }
    let lines = split_on(&t, '\n');
    let ghost all = split_char(t@, '\n');
    let mut d: Vec<char> = Vec::new();
    let mut i: usize = 0;
    assert(all.take(0) =~= Seq::<Seq<char>>::empty());
    while i < lines.len()
        invariant
            t@ == text@,
            t@.len() > 0,
            all == split_char(t@, '\n'),
            lines@.len() == all.len(),
            forall|k: int| 0 <= k < lines@.len() ==> (#[trigger] lines@[k])@ == all[k],
            i <= lines@.len(),
            d@ == digest_acc(all.take(i as int)).0,
            !digest_acc(all.take(i as int)).1,
        decreases lines@.len() - i,
    {
        assert(all.take(i + 1).drop_last() =~= all.take(i as int));
        assert(all.take(i + 1).last() == all[i as int]);
        let line = &lines[i];
        assert(line@ == all[i as int]);
        if starts_with_str(line, "Title:") || starts_with_str(line, "Description:") {
            let tl = trim_ws(line);
            append(&mut d, &tl);
            d.push('\n');
        }
        i += 1;
        assert(d@ == digest_acc(all.take(i as int)).0);
        if utf8_len_of(&d) > DIGEST_LIMIT {
            proof {
                lemma_digest_stays(all, i as int);
                assert(utf8_len(d@) > 1500);
                if d@.len() == 0 {
                    assert(utf8_len(d@) == 0);
                }
            }
            assert(all.take(all.len() as int) =~= all);
            return Some(string_from_chars(d));
        }
    }
    assert(all.take(i as int) =~= all);
    if d.len() == 0 {
        if t.len() > 1500 {
            let p = slice(&t, 0, 1500);
            assert(p@ =~= t@.take(1500));
            return Some(string_from_chars(p));
        }
        return Some(string_from_chars(t));
    }
    Some(string_from_chars(d))
}

proof fn lemma_digest_stays(all: Seq<Seq<char>>, i: int)
    requires
        0 <= i <= all.len(),
        digest_acc(all.take(i)).1,
    ensures
        digest_acc(all) == digest_acc(all.take(i)),
    decreases all.len() - i,
{
    if i < all.len() {
        assert(all.take(i + 1).drop_last() =~= all.take(i));
        lemma_digest_stays(all, i + 1);
    } else {
        assert(all.take(i) =~= all);
    }
}

/// The digest of direct search results `(title, content)`, in order: the
/// first five, `Title:`/`Description:` pairs for those with a title, up to
/// about [`DIGEST_LIMIT`] bytes.
pub open spec fn results_acc(results: Seq<(Seq<char>, Seq<char>)>) -> (Seq<char>, bool)
    decreases results.len(),
{
    if results.len() == 0 {
        (Seq::empty(), false)
    } else {
        let (d, stopped) = results_acc(results.drop_last());
        if stopped {
            (d, true)
        } else {
            let (title, content) = results.last();
            let d2 = if title.len() > 0 {
                d + "Title: "@ + title + "\nDescription: "@ + content + "\n"@
            } else {
                d
            };
            (d2, utf8_len(d2) > DIGEST_LIMIT)
        }
    }
}

/// Digest of the first five direct search results; nothing when empty.
pub open spec fn results_digest(results: Seq<(Seq<char>, Seq<char>)>) -> Option<Seq<char>> {
    let d = results_acc(if results.len() > 5 { results.take(5) } else { results }).0;
    if d.len() == 0 { None } else { Some(d) }
}

/// Build the digest of direct search results given as `(title, content)`.
pub fn searxng_digest(results: &Vec<(String, String)>) -> (r: Option<String>)
    ensures
        match r {
            Some(d) => results_digest(results@.map_values(|p: (String, String)| (p.0@, p.1@))) == Some(d@),
            None => results_digest(results@.map_values(|p: (String, String)| (p.0@, p.1@))) is None,
        },
{
    let ghost all = results@.map_values(|p: (String, String)| (p.0@, p.1@));
    let ghost used = if all.len() > 5 { all.take(5) } else { all };
    let n: usize = if results.len() > 5 { 5 } else { results.len() };
    let mut d: Vec<char> = Vec::new();
    let mut i: usize = 0;
    assert(used.take(0) =~= Seq::<(Seq<char>, Seq<char>)>::empty());
    while i < n
        invariant
            n <= results@.len(),
            all == results@.map_values(|p: (String, String)| (p.0@, p.1@)),
            used == if all.len() > 5 { all.take(5) } else { all },
            used.len() == n,
            i <= n,
            d@ == results_acc(used.take(i as int)).0,
            !results_acc(used.take(i as int)).1,
        decreases n - i,
    {
        assert(used.take(i + 1).drop_last() =~= used.take(i as int));
        assert(used.take(i + 1).last() == (results@[i as int].0@, results@[i as int].1@));
        let title = &results[i].0;
        let content = &results[i].1;
        let tv = chars_of(title.as_str());
        if tv.len() > 0 {
            append_str(&mut d, "Title: ");
            append(&mut d, &tv);
            append_str(&mut d, "\nDescription: ");
            append_str(&mut d, content.as_str());
            append_str(&mut d, "\n");
        }
        i += 1;
        if utf8_len_of(&d) > DIGEST_LIMIT {
            proof {
                lemma_results_stays(used, i as int);
            }
            return Some(string_from_chars(d));
        }
    }
    assert(used.take(i as int) =~= used);
    if d.len() == 0 {
        None
    } else {
        Some(string_from_chars(d))
    }
}

/// The JSON pointer of a field of result `i` of a SearXNG reply.
pub open spec fn result_pointer(i: nat, field: Seq<char>) -> Seq<char> {
    "/results/"@ + decimal(i) + "/"@ + field
}

/// A looked-up string, or empty.
pub open spec fn str_or_empty(o: Option<Seq<char>>) -> Seq<char> {
    match o {
        Some(s) => s,
        None => Seq::empty(),
    }
}

/// The `(title, content)` of the first `k` results of a SearXNG reply, a
/// missing or non-string field read as empty.
pub open spec fn searxng_results(body: Seq<char>, k: nat) -> Seq<(Seq<char>, Seq<char>)> {
    Seq::new(k, |i: int| (
        str_or_empty(json_pointer_str_of(body, result_pointer(i as nat, "title"@))),
        str_or_empty(json_pointer_str_of(body, result_pointer(i as nat, "content"@))),
    ))
}

/// The digest of a SearXNG JSON reply: of its first five `results`; nothing
/// when the reply has no `results` array.
pub open spec fn reply_results_digest(body: Seq<char>) -> Option<Seq<char>> {
    match json_array_len_of(body, "/results"@) {
        Some(n) => results_digest(searxng_results(body, if n > 5 { 5 } else { n })),
        None => None,
    }
}

fn result_pointer_exec(i: usize, field: &str) -> (r: String)
    ensures
        r@ == result_pointer(i as nat, field@),
{
    let mut v = chars_of("/results/");
    let d = decimal_chars(i as u64);
    append(&mut v, &d);
    append_str(&mut v, "/");
    append_str(&mut v, field);
    string_from_chars(v)
}

/// Read a SearXNG JSON reply (its `results[].title` and `.content`) and
/// build its digest.
pub fn searxng_reply_digest(body: &str) -> (r: Option<String>)
    ensures
        opt_string_view(r) == reply_results_digest(body@),
{
    let n = match json_array_len(body, "/results") {
        Some(n) => n,
        None => return None,
    };
    let k: usize = if n > 5 { 5 } else { n };
    let ghost want = searxng_results(body@, k as nat);
    let mut results: Vec<(String, String)> = Vec::new();
    let mut i: usize = 0;
    while i < k
        invariant
            i <= k <= 5,
            want == searxng_results(body@, k as nat),
            results@.len() == i,
            forall|j: int| 0 <= j < i ==> ((#[trigger] results@[j]).0@, results@[j].1@) == want[j],
        decreases k - i,
    {
        proof {
            reveal_strlit("title");
            reveal_strlit("content");
        }
        let tp = result_pointer_exec(i, "title");
        let cp = result_pointer_exec(i, "content");
        let t = match json_pointer_str(body, tp.as_str()) {
            Some(t) => t,
            None => String::new(),
        };
        let c = match json_pointer_str(body, cp.as_str()) {
            Some(c) => c,
            None => String::new(),
        };
        results.push((t, c));
        i += 1;
    }
    assert(results@.map_values(|p: (String, String)| (p.0@, p.1@)) =~= want);
    searxng_digest(&results)
}

proof fn lemma_results_stays(all: Seq<(Seq<char>, Seq<char>)>, i: int)
    requires
        0 <= i <= all.len(),
        results_acc(all.take(i)).1,
    ensures
        results_acc(all) == results_acc(all.take(i)),
    decreases all.len() - i,
{
    if i < all.len() {
        assert(all.take(i + 1).drop_last() =~= all.take(i));
        lemma_results_stays(all, i + 1);
    } else {
        assert(all.take(i) =~= all);
    }
}

/// `json_line_trim`: the trimmed SSE data line.
pub fn json_line_trim(s: &str) -> (r: String)
    ensures
        r@ == trim(s@),
{
    let v = chars_of(s);
    string_from_chars(trim_ws(&v))
}

/// Characters outside `<...>` tags, and whether a tag is open, scanning left
/// to right.
pub open spec fn strip_tags_acc(s: Seq<char>) -> (Seq<char>, bool)
    decreases s.len(),
{
    if s.len() == 0 {
        (Seq::empty(), false)
    } else {
        let (out, in_tag) = strip_tags_acc(s.drop_last());
        let c = s.last();
        if c == '<' {
            (out, true)
        } else if c == '>' {
            (out, false)
        } else if !in_tag {
            (out.push(c), in_tag)
        } else {
            (out, in_tag)
        }
    }
}

/// Remove HTML tags: every character between `<` and the next `>`.
pub fn strip_tags(s: &str) -> (r: String)
    ensures
        r@ == strip_tags_acc(s@).0,
{
    let v = chars_of(s);
    string_from_chars(strip_tags_chars(&v))
}

fn strip_tags_chars(v: &Vec<char>) -> (r: Vec<char>)
    ensures
        r@ == strip_tags_acc(v@).0,
{
    let mut out: Vec<char> = Vec::new();
    let mut in_tag = false;
    let mut i: usize = 0;
    assert(v@.take(0) =~= Seq::<char>::empty());
    while i < v.len()
        invariant
            i <= v@.len(),
            (out@, in_tag) == strip_tags_acc(v@.take(i as int)),
        decreases v@.len() - i,
    {
        assert(v@.take(i + 1).drop_last() =~= v@.take(i as int));
        let c = v[i];
        if c == '<' {
            in_tag = true;
        } else if c == '>' {
            in_tag = false;
        } else if !in_tag {
            out.push(c);
        }
        i += 1;
    }
    assert(v@.take(i as int) =~= v@);
    out
}

/// Percent-encode the UTF-8 bytes of a string: ASCII letters, digits and
/// `-_.~` are kept, every other byte becomes `%XX` (uppercase hex).
pub fn urlencode(s: &str) -> (r: String)
    ensures
        r@ == crate::deps::percent_encode(s.spec_bytes()),
{
    let b = s.as_bytes();
    let mut out: Vec<char> = Vec::new();
    let mut i: usize = 0;
    assert(b@.skip(0) =~= b@);
    assert(out@ + crate::deps::percent_encode(b@) =~= crate::deps::percent_encode(b@));
    while i < b.len()
        invariant
            b@ == s.spec_bytes(),
            i <= b@.len(),
            out@ + crate::deps::percent_encode(b@.skip(i as int)) == crate::deps::percent_encode(b@),
        decreases b@.len() - i,
    {
        let ghost old_out = out@;
        let c = b[i];
        assert(b@.skip(i as int).drop_first() =~= b@.skip(i + 1));
        if (c >= 0x41 && c <= 0x5A) || (c >= 0x61 && c <= 0x7A) || (c >= 0x30 && c <= 0x39) || c == 0x2D || c
            == 0x5F || c == 0x2E || c == 0x7E {
            out.push(c as char);
            assert(out@ =~= old_out + seq![c as char]);
        } else {
            out.push('%');
            out.push(hex_digit_upper(c / 16));
            out.push(hex_digit_upper(c % 16));
            assert(out@ =~= old_out + seq!['%', crate::deps::hex_upper(c / 16), crate::deps::hex_upper(c % 16)]);
        }
        i += 1;
    }
    assert(b@.skip(i as int) =~= Seq::<u8>::empty());
    assert(out@ + Seq::<char>::empty() =~= out@);
    string_from_chars(out)
}

fn hex_digit_upper(d: u8) -> (c: char)
    requires
        d < 16,
    ensures
        c == crate::deps::hex_upper(d),
{
    if d < 10 {
        (0x30 + d) as char
    } else {
        (0x41 + d - 10) as char
    }
}

/// The title of a DuckDuckGo result piece: the text between its first `>`
/// and the next `<`.
pub open spec fn ddg_title(p: Seq<char>) -> Option<Seq<char>> {
    match find_first(p, '>') {
        Some(t0) => match find_first(p.skip(t0 + 1), '<') {
            Some(t1) => Some(p.subrange(t0 + 1, t0 + 1 + t1)),
            None => None,
        },
        None => None,
    }
}

/// The snippet of a DuckDuckGo result piece: after its first
/// `result__snippet`, the text between the next `>` and the following `<`.
pub open spec fn ddg_snippet(p: Seq<char>) -> Option<Seq<char>> {
    match first_occurrence(p, "result__snippet"@) {
        Some(s0) => match find_first(p.skip(s0), '>') {
            Some(gt) => match find_first(p.skip(s0 + gt + 1), '<') {
                Some(lt) => Some(p.subrange(s0 + gt + 1, s0 + gt + 1 + lt)),
                None => None,
            },
            None => None,
        },
        None => None,
    }
}

/// The digest after reading one result piece: its title (when it is not
/// empty and still fits under [`DIGEST_LIMIT`] bytes) and its snippet, both
/// without tags.
pub open spec fn ddg_step(d: Seq<char>, p: Seq<char>) -> Seq<char> {
    let d1 = match ddg_title(p) {
        Some(t) => if t.len() > 0 && utf8_len(d) + utf8_len(t) < DIGEST_LIMIT {
            d + "Title: "@ + strip_tags_acc(t).0 + "\n"@
        } else {
            d
        },
        None => d,
    };
    match ddg_snippet(p) {
        Some(sn) => d1 + "Description: "@ + strip_tags_acc(sn).0 + "\n"@,
        None => d1,
    }
}

/// The digest of some result pieces, and whether reading stopped (it stops
/// before a piece once the digest is over [`DIGEST_LIMIT`] bytes).
pub open spec fn ddg_acc(parts: Seq<Seq<char>>) -> (Seq<char>, bool)
    decreases parts.len(),
{
    if parts.len() == 0 {
        (Seq::empty(), false)
    } else {
        let (d, stopped) = ddg_acc(parts.drop_last());
        if stopped || utf8_len(d) > DIGEST_LIMIT {
            (d, true)
        } else {
            (ddg_step(d, parts.last()), false)
        }
    }
}

/// The digest of DuckDuckGo's HTML results page, read piece by piece
/// between the `result__a` markers; nothing when it found nothing.
pub open spec fn ddg_digest(html: Seq<char>) -> Option<Seq<char>> {
    let d = ddg_acc(split_str(html, "result__a"@)).0;
    if d.len() == 0 { None } else { Some(d) }
}

proof fn lemma_ddg_stays(all: Seq<Seq<char>>, i: int)
    requires
        0 <= i <= all.len(),
        ddg_acc(all.take(i)).1,
    ensures
        ddg_acc(all) == ddg_acc(all.take(i)),
    decreases all.len() - i,
{
    if i < all.len() {
        assert(all.take(i + 1).drop_last() =~= all.take(i));
        lemma_ddg_stays(all, i + 1);
    } else {
        assert(all.take(i) =~= all);
    }
}

fn ddg_title_exec(p: &Vec<char>) -> (r: Option<Vec<char>>)
    ensures
        match r {
            Some(t) => ddg_title(p@) == Some(t@),
            None => ddg_title(p@) is None,
        },
{
    let n = p.len();
    match find_char(p, '>') {
        Some(t0) => {
            assert(t0 < n);
            let rest = slice(p, t0 + 1, p.len());
            assert(rest@ =~= p@.skip(t0 + 1));
            match find_char(&rest, '<') {
                Some(t1) => Some(slice(p, t0 + 1, t0 + 1 + t1)),
                None => None,
            }
        },
        None => None,
    }
}

fn ddg_snippet_exec(p: &Vec<char>) -> (r: Option<Vec<char>>)
    ensures
        match r {
            Some(t) => ddg_snippet(p@) == Some(t@),
            None => ddg_snippet(p@) is None,
        },
{
    let key = chars_of("result__snippet");
    match first_index_of(p, &key) {
        Some(s0) => {
            let a = slice(p, s0, p.len());
            assert(a@ =~= p@.skip(s0 as int));
            match find_char(&a, '>') {
                Some(gt) => {
                    let b = slice(p, s0 + gt + 1, p.len());
                    assert(b@ =~= p@.skip(s0 + gt + 1));
                    match find_char(&b, '<') {
                        Some(lt) => Some(slice(p, s0 + gt + 1, s0 + gt + 1 + lt)),
                        None => None,
                    }
                },
                None => None,
            }
        },
        None => None,
    }
}

fn ddg_step_exec(d: &mut Vec<char>, p: &Vec<char>)
    ensures
        final(d)@ == ddg_step(old(d)@, p@),
{
    match ddg_title_exec(p) {
        Some(title) => {
            if title.len() > 0 {
                let tl = utf8_len_of(&title);
                let dl = utf8_len_of(d);
                if tl < DIGEST_LIMIT && dl < DIGEST_LIMIT - tl {
                    append_str(d, "Title: ");
                    let st = strip_tags_chars(&title);
                    append(d, &st);
                    append_str(d, "\n");
                }
            }
        },
        None => {},
    }
    match ddg_snippet_exec(p) {
        Some(sn) => {
            append_str(d, "Description: ");
            let ss = strip_tags_chars(&sn);
            append(d, &ss);
            append_str(d, "\n");
        },
        None => {},
    }
}

/// The digest of DuckDuckGo's HTML results page: `Title:` and
/// `Description:` lines of its results, up to about [`DIGEST_LIMIT`] bytes.
pub fn duckduckgo_digest(html: &str) -> (r: Option<String>)
    ensures
        match r {
            Some(d) => ddg_digest(html@) == Some(d@),
            None => ddg_digest(html@) is None,
        },
{
    let h = chars_of(html);
    let sep = chars_of("result__a");
    proof {
        reveal_strlit("result__a");
    }
    let parts = split_by_str(&h, &sep);
    let ghost all = split_str(html@, "result__a"@);
    let mut d: Vec<char> = Vec::new();
    let mut i: usize = 0;
    assert(all.take(0) =~= Seq::<Seq<char>>::empty());
    while i < parts.len()
        invariant
            all == split_str(html@, "result__a"@),
            parts@.len() == all.len(),
            forall|k: int| 0 <= k < parts@.len() ==> (#[trigger] parts@[k])@ == all[k],
            i <= parts@.len(),
            d@ == ddg_acc(all.take(i as int)).0,
            !ddg_acc(all.take(i as int)).1,
        decreases parts@.len() - i,
    {
        assert(all.take(i + 1).drop_last() =~= all.take(i as int));
        assert(all.take(i + 1).last() == all[i as int]);
        if utf8_len_of(&d) > DIGEST_LIMIT {
            proof {
                assert(utf8_len(d@) > DIGEST_LIMIT);
                assert(ddg_acc(all.take(i + 1)) == (d@, true));
                lemma_ddg_stays(all, i + 1);
            }
            if d.len() == 0 {
                return None;
            }
            return Some(string_from_chars(d));
        }
        ddg_step_exec(&mut d, &parts[i]);
        i += 1;
    }
    assert(all.take(i as int) =~= all);
    if d.len() == 0 {
        None
    } else {
        Some(string_from_chars(d))
    }
}

/// The first SSE line carrying data (`data: ...`) among some lines.
pub open spec fn first_data_line(lines: Seq<Seq<char>>) -> Option<Seq<char>>
    decreases lines.len(),
{
    if lines.len() == 0 {
        None
    } else if starts_with(lines[0], "data: "@) {
        Some(lines[0])
    } else {
        first_data_line(lines.drop_first())
    }
}

/// The text a search tool answered with in an SSE reply: the JSON of the
/// first `data: ` line, at `result.content[0].text`, when not empty.
pub open spec fn tool_text(body: Seq<char>) -> Option<Seq<char>> {
    match first_data_line(split_char(body, '\n')) {
        Some(line) => {
            let json = trim(line.skip(6));
            match json_pointer_str_of(json, "/result/content/0/text"@) {
                Some(t) => if t.len() > 0 { Some(t) } else { None },
                None => None,
            }
        },
        None => None,
    }
}

/// Read the tool's text out of the gateway's SSE reply.
pub fn mcp_tool_text(body: &str) -> (r: Option<String>)
    ensures
        match r {
            Some(t) => tool_text(body@) == Some(t@),
            None => tool_text(body@) is None,
        },
{
    let b = chars_of(body);
    let lines = split_on(&b, '\n');
    let ghost all = split_char(body@, '\n');
    let mut i: usize = 0;
    assert(all.skip(0) =~= all);
    while i < lines.len()
        invariant
            lines@.len() == all.len(),
            all == split_char(body@, '\n'),
            forall|k: int| 0 <= k < lines@.len() ==> (#[trigger] lines@[k])@ == all[k],
            i <= lines@.len(),
            first_data_line(all) == first_data_line(all.skip(i as int)),
        decreases lines@.len() - i,
    {
        assert(all.skip(i as int).drop_first() =~= all.skip(i + 1));
        assert(all.skip(i as int)[0] == all[i as int]);
        if starts_with_str(&lines[i], "data: ") {
            proof {
                reveal_strlit("data: ");
            }
            let line = &lines[i];
            let rest = slice(line, 6, line.len());
            assert(rest@ =~= line@.skip(6));
            let json = string_from_chars(trim_ws(&rest));
            return match json_pointer_str(json.as_str(), "/result/content/0/text") {
                Some(t) => {
                    let tv = chars_of(t.as_str());
                    if tv.len() > 0 { Some(t) } else { None }
                },
                None => None,
            };
        }
        i += 1;
    }
    assert(all.skip(i as int) =~= Seq::<Seq<char>>::empty());
    None
}

/// The digest of the gateway's SSE reply (see [`search_digest`]).
pub fn mcp_answer_digest(body: &str) -> (r: Option<String>)
    ensures
        match tool_text(body@) {
            Some(t) => match r {
                Some(d) => search_digest(t) == Some(d@),
                None => search_digest(t) is None,
            },
            None => r is None,
        },
{
    match mcp_tool_text(body) {
        Some(t) => mcp_digest(t.as_str()),
        None => None,
    }
}

// ───────────────────────── laws ─────────────────────────

/// Endpoints are paired with API keys by position: endpoint `i` gets the
/// `i`-th non-blank key of the key list, and `ollama` only past its end.
pub proof fn lemma_endpoint_key_by_position(api_keys: Seq<char>)
    ensures
        forall|i: int| 0 <= i < config_list(api_keys).len() ==> #[trigger] endpoint_key(api_keys, i)
            == config_list(api_keys)[i],
        forall|i: int| i >= config_list(api_keys).len() ==> #[trigger] endpoint_key(api_keys, i) == "ollama"@,
{
}

/// The reply text of an object is read from `text`, then `content`, then
/// `response`, then `phrase`: the first of these that holds a string.
pub proof fn lemma_reply_text_key_order(body: Seq<char>)
    ensures
        json_pointer_str_of(body, "/text"@) matches Some(t) ==> reply_text(body) == t,
        json_pointer_str_of(body, "/text"@) is None ==> (json_pointer_str_of(body, "/content"@) matches Some(t)
            ==> reply_text(body) == t),
        json_pointer_str_of(body, "/text"@) is None && json_pointer_str_of(body, "/content"@) is None ==> (
        json_pointer_str_of(body, "/response"@) matches Some(t) ==> reply_text(body) == t),
        json_pointer_str_of(body, "/text"@) is None && json_pointer_str_of(body, "/content"@) is None
            && json_pointer_str_of(body, "/response"@) is None ==> (json_pointer_str_of(body, "/phrase"@) matches Some(
            t,
        ) ==> reply_text(body) == t),
        json_pointer_str_of(body, "/text"@) is None && json_pointer_str_of(body, "/content"@) is None
            && json_pointer_str_of(body, "/response"@) is None && json_pointer_str_of(body, "/phrase"@) is None
            ==> reply_text(body) == Seq::<char>::empty(),
{
    reveal_strlit("/text");
    reveal_strlit("/content");
    reveal_strlit("/response");
    reveal_strlit("/phrase");
    reveal_with_fuel(first_some, 5);
    let l = text_lookups(body);
    assert(l[0] == json_pointer_str_of(body, "/text"@));
    assert(l[1] == json_pointer_str_of(body, "/content"@));
    assert(l[2] == json_pointer_str_of(body, "/response"@));
    assert(l[3] == json_pointer_str_of(body, "/phrase"@));
    assert(l.drop_first().drop_first().drop_first().drop_first() =~= Seq::<Option<Seq<char>>>::empty());
    assert(l.drop_first()[0] == l[1]);
    assert(l.drop_first().drop_first()[0] == l[2]);
    assert(l.drop_first().drop_first().drop_first()[0] == l[3]);
}

/// A reply object whose only text is under `response` (no `text` or
/// `content` string, no `refused` flag) reads as that text, unquoted and
/// not refused, when it is not blank.
pub proof fn lemma_response_key_read(raw: Seq<char>, body: Seq<char>, t: Seq<char>)
    requires
        json_object_span(raw) == Some(body),
        json_pointer_str_of(body, "/text"@) is None,
        json_pointer_str_of(body, "/content"@) is None,
        json_pointer_str_of(body, "/response"@) == Some(t),
        json_pointer_bool_of(body, "/refused"@) is None,
        json_pointer_str_of(body, "/refused"@) is None,
        unquote(t).len() > 0,
    ensures
        structured_phrase(raw) == Some((unquote(t), false)),
{
    lemma_reply_text_key_order(body);
}

/// An empty text stays empty when unquoted.
proof fn lemma_unquote_empty(c: Seq<char>)
    requires
        c.len() == 0,
    ensures
        unquote(c).len() == 0,
{
    assert(trim_start_by(c, Strip::Whitespace) == c);
    assert(trim_end_by(c, Strip::Whitespace) == c);
    let t = trim(c);
    assert(t.len() == 0);
    assert(trim_start_by(t, Strip::Char('"')) == t);
    assert(trim_end_by(t, Strip::Char('"')) == t);
    let u = trim_by(t, Strip::Char('"'));
    assert(u.len() == 0);
    assert(trim_start_by(u, Strip::Char('\'')) == u);
    assert(trim_end_by(u, Strip::Char('\'')) == u);
    let w = trim_by(u, Strip::Char('\''));
    assert(w.len() == 0);
    assert(trim_start_by(w, Strip::Whitespace) == w);
    assert(trim_end_by(w, Strip::Whitespace) == w);
}

/// A translation is answered with its cleaned text, whole when it has at
/// most 200 characters, else its first 200 characters and `...`; a
/// translation that cleans up to nothing is a failure of that endpoint.
pub proof fn lemma_translation_kept_whole(base: Seq<char>, c: String, retries: nat)
    ensures
        0 < unquote(c@).len() <= 200 ==> attempt_verdict(LlmTask::Translate, base, Completion::Content(c), retries)
            == Verdict::Answer(unquote(c@)),
        unquote(c@).len() > 200 ==> attempt_verdict(LlmTask::Translate, base, Completion::Content(c), retries)
            == Verdict::Answer(unquote(c@).take(200) + "..."@),
        unquote(c@).len() == 0 && c@.len() > 0 ==> attempt_verdict(LlmTask::Translate, base, Completion::Content(c), retries)
            == Verdict::Failure("Empty response after cleanup at "@ + base),
{
    reveal_strlit("...");
    assert("..."@ =~= crate::text::ellipsis());
    if c@.len() == 0 {
        lemma_unquote_empty(c@);
    }
}


/// A phrase found in a text is still found with text around it.
proof fn lemma_occurs_in_context(l: Seq<char>, n: Seq<char>, i: int, a: Seq<char>, b: Seq<char>)
    requires
        occurs_at(l, n, i),
    ensures
        occurs_at(a + l + b, n, i + a.len()),
{
    let h = a + l + b;
    assert(h.subrange(i + a.len(), i + a.len() + n.len()) =~= l.subrange(i, i + n.len()));
}

proof fn lemma_contains_any_in_context(l: Seq<char>, pats: Seq<&str>, a: Seq<char>, b: Seq<char>)
    requires
        contains_any(l, pats),
    ensures
        contains_any(a + l + b, pats),
{
    let k = choose|k: int| 0 <= k < pats.len() && contains_seq(l, #[trigger] pats[k]@);
    let i = choose|i: int| occurs_at(l, pats[k]@, i);
    lemma_occurs_in_context(l, pats[k]@, i, a, b);
    assert(contains_seq(a + l + b, pats[k]@));
}

/// A refusal stays a refusal whatever text comes before or after it, and
/// ASCII lowercasing goes piece by piece, so on ASCII text
/// [`looks_like_refusal`] keeps its verdict when the text is embedded in a
/// longer one.
pub proof fn lemma_refusal_survives_context(a: Seq<char>, l: Seq<char>, b: Seq<char>)
    requires
        refusal_in_lowercase(l),
    ensures
        refusal_in_lowercase(a + l + b),
        forall|x: Seq<char>, y: Seq<char>, z: Seq<char>| #[trigger] ascii_lowered(x + y + z)
            == ascii_lowered(x) + ascii_lowered(y) + ascii_lowered(z),
        forall|x: Seq<char>, y: Seq<char>, z: Seq<char>| all_ascii(x) && all_ascii(y) && all_ascii(z)
            ==> #[trigger] all_ascii(x + y + z),
{
    let h = a + l + b;
    if contains_any(l, STRONG_REFUSALS@) {
        lemma_contains_any_in_context(l, STRONG_REFUSALS@, a, b);
    } else {
        lemma_contains_any_in_context(l, APOLOGIES@, a, b);
        if contains_any(l, INABILITIES@) {
            lemma_contains_any_in_context(l, INABILITIES@, a, b);
        } else {
            let (p, q) = choose|p: int, q: int| gapped_inability(l, p, q);
            let m = choose|m: int| 0 <= m < NEGATED_MODALS@.len() && occurs_at(l, (#[trigger] NEGATED_MODALS@[m])@, q);
            lemma_occurs_in_context(l, NEGATED_MODALS@[m]@, q, a, b);
            assert(modal_at(h, q + a.len()));
            assert(i_at(h, p + a.len())) by {
                assert(h[p + a.len()] == l[p]);
                assert(h[p + 1 + a.len()] == l[p + 1]);
            }
            assert forall|k: int| p + a.len() + 2 <= k < q + a.len() implies gap_char(#[trigger] h[k]) by {
                assert(h[k] == l[k - a.len()]);
            }
            assert(gapped_inability(h, p + a.len(), q + a.len()));
        }
    }
    assert forall|x: Seq<char>, y: Seq<char>, z: Seq<char>| #[trigger] ascii_lowered(x + y + z)
        == ascii_lowered(x) + ascii_lowered(y) + ascii_lowered(z) by {
        assert(ascii_lowered(x + y + z) =~= ascii_lowered(x) + ascii_lowered(y) + ascii_lowered(z));
    }
    assert forall|x: Seq<char>, y: Seq<char>, z: Seq<char>| all_ascii(x) && all_ascii(y) && all_ascii(z)
        implies #[trigger] all_ascii(x + y + z) by {
        let w = x + y + z;
        assert forall|i: int| 0 <= i < w.len() implies (#[trigger] w[i] as u32) < 128 by {
            if i < x.len() {
                assert(w[i] == x[i]);
            } else if i < x.len() + y.len() {
                assert(w[i] == y[i - x.len()]);
            } else {
                assert(w[i] == z[i - x.len() - y.len()]);
            }
        }
    }
}

/// The refusal verdict on ASCII text ignores case: uppercasing keeps the
/// text ASCII and leaves its ASCII lowercase, hence the verdict of
/// [`looks_like_refusal`], unchanged.
pub proof fn lemma_refusal_ignores_ascii_case(s: Seq<char>)
    ensures
        all_ascii(ascii_uppered(s)) == all_ascii(s),
        ascii_lowered(ascii_uppered(s)) == ascii_lowered(s),
        refusal_in_lowercase(ascii_lowered(ascii_uppered(s))) == refusal_in_lowercase(ascii_lowered(s)),
{
    let u = ascii_uppered(s);
    assert forall|i: int| 0 <= i < s.len() implies ascii_lower(#[trigger] u[i]) == ascii_lower(s[i])
        && ((u[i] as u32) < 128) == ((s[i] as u32) < 128) by {
        assert(u[i] == crate::text::ascii_upper(s[i]));
    }
    assert(ascii_lowered(u) =~= ascii_lowered(s));
    if all_ascii(s) {
        assert forall|i: int| 0 <= i < u.len() implies (#[trigger] u[i] as u32) < 128 by {
            assert((s[i] as u32) < 128);
        }
    }
    if all_ascii(u) {
        assert forall|i: int| 0 <= i < s.len() implies (#[trigger] s[i] as u32) < 128 by {
            assert((u[i] as u32) < 128);
        }
    }
}

/// The wordings the refusal heuristics are documented to cover are
/// refusals: "I'm sorry, I can't do that", "Mi dispiace, non posso
/// accontentare questa richiesta" and "Sorry, I really can't say that" (all
/// ASCII, so [`looks_like_refusal`] reads them through their ASCII
/// lowercase), and "mi dispiace, ma non è possibile", the lowercase form of
/// "Mi dispiace, ma non è possibile".
pub proof fn lemma_documented_refusals()
    ensures
        all_ascii("I'm sorry, I can't do that"@),
        refusal_in_lowercase(ascii_lowered("I'm sorry, I can't do that"@)),
        all_ascii("Mi dispiace, non posso accontentare questa richiesta"@),
        refusal_in_lowercase(ascii_lowered("Mi dispiace, non posso accontentare questa richiesta"@)),
        all_ascii("Sorry, I really can't say that"@),
        refusal_in_lowercase(ascii_lowered("Sorry, I really can't say that"@)),
        refusal_in_lowercase("mi dispiace, ma non è possibile"@),
{
    reveal_strlit("I'm sorry, I can't do that");
    reveal_strlit("i'm sorry, i can't do that");
    reveal_strlit("Mi dispiace, non posso accontentare questa richiesta");
    reveal_strlit("mi dispiace, non posso accontentare questa richiesta");
    reveal_strlit("Sorry, I really can't say that");
    reveal_strlit("sorry, i really can't say that");
    reveal_strlit("mi dispiace, ma non è possibile");
    reveal_strlit("can't do that");
    reveal_strlit("non posso accontentare");
    reveal_strlit("sorry,");
    reveal_strlit("can't");
    reveal_strlit("mi dispiace");
    reveal_strlit("non è possibile");
    // "I'm sorry, I can't do that"
    let l1 = ascii_lowered("I'm sorry, I can't do that"@);
    assert(l1 =~= "i'm sorry, i can't do that"@);
    assert(l1.subrange(13, 26) =~= STRONG_REFUSALS@[9]@);
    assert(occurs_at(l1, STRONG_REFUSALS@[9]@, 13));
    // "Mi dispiace, non posso accontentare questa richiesta"
    let l2 = ascii_lowered("Mi dispiace, non posso accontentare questa richiesta"@);
    assert(l2 =~= "mi dispiace, non posso accontentare questa richiesta"@);
    assert(l2.subrange(13, 35) =~= STRONG_REFUSALS@[39]@);
    assert(occurs_at(l2, STRONG_REFUSALS@[39]@, 13));
    // "Sorry, I really can't say that"
    let l3 = ascii_lowered("Sorry, I really can't say that"@);
    assert(l3 =~= "sorry, i really can't say that"@);
    assert(l3.subrange(0, 6) =~= APOLOGIES@[3]@);
    assert(occurs_at(l3, APOLOGIES@[3]@, 0));
    assert(l3.subrange(16, 21) =~= NEGATED_MODALS@[0]@);
    assert(occurs_at(l3, NEGATED_MODALS@[0]@, 16));
    assert(modal_at(l3, 16));
    assert(i_at(l3, 7));
    assert(gapped_inability(l3, 7, 16));
    // "mi dispiace, ma non è possibile"
    let l4 = "mi dispiace, ma non è possibile"@;
    assert(l4.subrange(0, 11) =~= APOLOGIES@[4]@);
    assert(occurs_at(l4, APOLOGIES@[4]@, 0));
    assert(l4.subrange(16, 31) =~= INABILITIES@[9]@);
    assert(occurs_at(l4, INABILITIES@[9]@, 16));
}


/// A refused `ask` finishes with an answer that [`is_refusal_error`]
/// recognizes, so callers never speak or store it.
pub proof fn lemma_refused_ask_is_flagged(base: Seq<char>, o: Completion, retries: nat)
    requires
        o matches Completion::Content(c) && c@.len() > 0 && phrase_outcome(c@, Seq::empty(), 1) == (None::<Seq<char>>, true),
    ensures
        attempt_verdict(LlmTask::Ask, base, o, retries) matches Verdict::Answer(a) && starts_with(a, REFUSAL_PREFIX@),
{
    let a = REFUSAL_PREFIX@ + "ask"@;
    assert(a.take(REFUSAL_PREFIX@.len() as int) =~= REFUSAL_PREFIX@);
}

/// A phrase accepted for speech is never longer than 200 characters plus
/// the `...` marking a cut.
pub proof fn lemma_spoken_phrase_bounded(s: Seq<char>)
    ensures
        truncate_with_ellipsis(s, 200).len() <= 203,
{
}

/// Removing tags leaves no `<` or `>` behind.
pub proof fn lemma_strip_tags_removes_brackets(s: Seq<char>)
    ensures
        forall|i: int| 0 <= i < strip_tags_acc(s).0.len() ==> #[trigger] strip_tags_acc(s).0[i] != '<'
            && strip_tags_acc(s).0[i] != '>',
    decreases s.len(),
{
    if s.len() > 0 {
        lemma_strip_tags_removes_brackets(s.drop_last());
        let (out, in_tag) = strip_tags_acc(s.drop_last());
        let c = s.last();
        if c != '<' && c != '>' && !in_tag {
            assert forall|i: int| 0 <= i < out.push(c).len() implies #[trigger] out.push(c)[i] != '<'
                && out.push(c)[i] != '>' by {
                if i < out.len() {
                    assert(out.push(c)[i] == out[i]);
                }
            }
        }
    }
}

/// Percent-encoding only produces URL-safe characters: unreserved ASCII,
/// `%` and uppercase hexadecimal digits.
pub proof fn lemma_percent_encoding_url_safe(b: Seq<u8>)
    ensures
        forall|i: int| 0 <= i < crate::deps::percent_encode(b).len() ==> {
            let c = #[trigger] crate::deps::percent_encode(b)[i];
            (c as u32) < 0x80 && (crate::deps::is_unreserved(c as u8) || c == '%')
        },
    decreases b.len(),
{
    if b.len() > 0 {
        lemma_percent_encoding_url_safe(b.drop_first());
        let x = b[0];
        let head = if crate::deps::is_unreserved(x) {
            seq![x as char]
        } else {
            seq!['%', crate::deps::hex_upper(x / 16), crate::deps::hex_upper(x % 16)]
        };
        let e = crate::deps::percent_encode(b);
        assert(e == head + crate::deps::percent_encode(b.drop_first()));
        assert forall|i: int| 0 <= i < e.len() implies {
            let c = #[trigger] e[i];
            (c as u32) < 0x80 && (crate::deps::is_unreserved(c as u8) || c == '%')
        } by {
            if i >= head.len() {
                assert(e[i] == crate::deps::percent_encode(b.drop_first())[i - head.len()]);
            }
        }
    }
}
} // verus!
