//! Command parsing and the decisions of the WhatsApp bot's commands (the
//! Telegram bot shares the argument syntax).
use vstd::prelude::*;
use crate::text::{
    chars_of, eq_str, starts_with, starts_with_str, contains_seq, contains_str, trim, trim_ws, words,
    split_words, lowercase_of, to_lowercase, string_from_chars, append, append_str, slice, slice_all,
    find_first, find_char, find_last, rfind_char,
};

verus! {

/// The text words, voice and effect found in the words of an argument
/// list, reading from word `i` on.
pub open spec fn parse_from(parts: Seq<Seq<char>>, i: int, voice: Seq<char>, effect: Seq<char>, text: Seq<Seq<char>>) -> (
    Seq<Seq<char>>,
    Seq<char>,
    Seq<char>,
)
    decreases parts.len() - i,
{
    if i >= parts.len() || i < 0 {
        (text, voice, effect)
    } else if parts[i] == "--voice"@ {
        if i + 1 < parts.len() && !starts_with(parts[i + 1], "--"@) {
            parse_from(parts, i + 2, parts[i + 1], effect, text)
        } else {
            parse_from(parts, i + 1, voice, effect, text)
        }
    } else if parts[i] == "--effect"@ {
        if i + 1 < parts.len() && !starts_with(parts[i + 1], "--"@) {
            parse_from(parts, i + 2, voice, parts[i + 1], text)
        } else {
            parse_from(parts, i + 1, voice, effect, text)
        }
    } else {
        parse_from(parts, i + 1, voice, effect, text.push(parts[i]))
    }
}

/// Words joined with single spaces.
pub open spec fn space_joined(items: Seq<Seq<char>>) -> Seq<char>
    decreases items.len(),
{
    if items.len() == 0 {
        Seq::empty()
    } else if items.len() == 1 {
        items[0]
    } else {
        space_joined(items.drop_last()) + seq![' '] + items.last()
    }
}

/// `(text, voice, effect)` of an argument list `text --voice X --effect Y`:
/// each flag takes the next word as its value unless that word is itself a
/// flag; defaults are `Google` and `none`.
pub open spec fn parsed_args(args: Seq<char>) -> (Seq<char>, Seq<char>, Seq<char>) {
    let (text, voice, effect) = parse_from(words(args), 0, "Google"@, "none"@, Seq::empty());
    (space_joined(text), voice, effect)
}

/// Parse "text" / "text --voice X --effect Y" into (text, voice, effect).
pub fn parse_voice_effect(args: &str) -> (r: (String, String, String))
    ensures
        (r.0@, r.1@, r.2@) == parsed_args(args@),
{
    let a = chars_of(args);
    let parts = split_words(&a);
    let ghost ps = words(args@);
    let mut voice = chars_of("Google");
    let mut effect = chars_of("none");
    let mut text: Vec<char> = Vec::new();
    let mut n_text: usize = 0;
    let ghost mut text_parts: Seq<Seq<char>> = Seq::empty();
    let mut i: usize = 0;
    while i < parts.len()
        invariant
            parts@.len() == ps.len(),
            forall|k: int| 0 <= k < parts@.len() ==> (#[trigger] parts@[k])@ == ps[k],
            i <= parts@.len() + 1,
            parse_from(ps, 0, "Google"@, "none"@, Seq::empty()) == parse_from(ps, i as int, voice@, effect@, text_parts),
            text@ == space_joined(text_parts),
            n_text == text_parts.len(),
            n_text <= i,
        decreases parts@.len() + 1 - i,
    {
        let p = &parts[i];
        if eq_str(p, "--voice") {
            if i + 1 < parts.len() && !starts_with_str(&parts[i + 1], "--") {
                voice = slice_all(&parts[i + 1]);
                i += 2;
            } else {
                i += 1;
            }
        } else if eq_str(p, "--effect") {
            if i + 1 < parts.len() && !starts_with_str(&parts[i + 1], "--") {
                effect = slice_all(&parts[i + 1]);
                i += 2;
            } else {
                i += 1;
            }
        } else {
            if n_text > 0 {
                text.push(' ');
            }
            append(&mut text, p);
            proof {
                let old_parts = text_parts;
                text_parts = text_parts.push(ps[i as int]);
                if old_parts.len() == 0 {
                    assert(text@ =~= space_joined(text_parts));
                } else {
                    assert(text_parts.drop_last() =~= old_parts);
                }
            }
            n_text += 1;
            i += 1;
        }
    }
    (string_from_chars(text), string_from_chars(voice), string_from_chars(effect))
}

/// A message split into its command (lowercased) and its trimmed arguments,
/// at the first space.
pub open spec fn split_command(text: Seq<char>) -> (Seq<char>, Seq<char>) {
    match find_first(text, ' ') {
        Some(i) => (lowercase_of(text.take(i)), trim(text.skip(i + 1))),
        None => (lowercase_of(text), Seq::empty()),
    }
}

/// Split an incoming (already trimmed) message into command and arguments.
pub fn parse_command(text: &str) -> (r: (String, String))
    ensures
        (r.0@, r.1@) == split_command(text@),
{
    let t = chars_of(text);
    let n = t.len();
    match find_char(&t, ' ') {
        Some(i) => {
            assert(i < n);
            let c = string_from_chars(slice(&t, 0, i));
            let rest = slice(&t, i + 1, t.len());
            assert(rest@ =~= t@.skip(i + 1));
            assert(t@.subrange(0, i as int) =~= t@.take(i as int));
            (to_lowercase(c.as_str()), string_from_chars(trim_ws(&rest)))
        },
        None => (to_lowercase(text), String::new()),
    }
}

/// The commands the bots understand.
pub enum Command {
    Speak,
    Random,
    Ask,
    Translate,
    Joke,
    Stats,
    Help,
    CreateVoice,
    MyVoices,
    DeleteVoice,
    Unknown,
}

/// The WhatsApp commands and their short forms.
pub open spec fn wapp_command(c: Seq<char>) -> Command {
    if c == "/speak"@ || c == "/s"@ {
        Command::Speak
    } else if c == "/random"@ || c == "/r"@ {
        Command::Random
    } else if c == "/ask"@ || c == "/a"@ {
        Command::Ask
    } else if c == "/translate"@ || c == "/t"@ {
        Command::Translate
    } else if c == "/joke"@ || c == "/j"@ {
        Command::Joke
    } else if c == "/stats"@ {
        Command::Stats
    } else if c == "/help"@ || c == "/h"@ {
        Command::Help
    } else {
        Command::Unknown
    }
}

pub fn classify_wapp_command(c: &str) -> (r: Command)
    ensures
        r == wapp_command(c@),
{
    let v = chars_of(c);
    if eq_str(&v, "/speak") || eq_str(&v, "/s") {
        Command::Speak
    } else if eq_str(&v, "/random") || eq_str(&v, "/r") {
        Command::Random
    } else if eq_str(&v, "/ask") || eq_str(&v, "/a") {
        Command::Ask
    } else if eq_str(&v, "/translate") || eq_str(&v, "/t") {
        Command::Translate
    } else if eq_str(&v, "/joke") || eq_str(&v, "/j") {
        Command::Joke
    } else if eq_str(&v, "/stats") {
        Command::Stats
    } else if eq_str(&v, "/help") || eq_str(&v, "/h") {
        Command::Help
    } else {
        Command::Unknown
    }
}

/// `/translate <text> <lang>`: the last word is the target language; both
/// parts trimmed and non-empty, else `None` (usage).
pub open spec fn translate_args(args: Seq<char>) -> Option<(Seq<char>, Seq<char>)> {
    match find_last(args, ' ') {
        Some(i) => {
            let text = trim(args.take(i));
            let lang = trim(args.skip(i + 1));
            if text.len() == 0 || lang.len() == 0 { None } else { Some((text, lang)) }
        },
        None => None,
    }
}

/// Split `/translate` arguments into `(text, target language)`.
pub fn parse_translate_args(args: &str) -> (r: Option<(String, String)>)
    ensures
        match r {
            Some((t, l)) => translate_args(args@) == Some((t@, l@)),
            None => translate_args(args@) is None,
        },
{
    let a = chars_of(args);
    let n = a.len();
    match rfind_char(&a, ' ') {
        Some(i) => {
            assert(i < n);
            let head = slice(&a, 0, i);
            let tail = slice(&a, i + 1, a.len());
            assert(head@ =~= a@.take(i as int));
            assert(tail@ =~= a@.skip(i + 1));
            let text = trim_ws(&head);
            let lang = trim_ws(&tail);
            if text.len() == 0 || lang.len() == 0 {
                None
            } else {
                Some((string_from_chars(text), string_from_chars(lang)))
            }
        },
        None => None,
    }
}

/// `/random` applies a random effect unless the user chose one.
pub fn random_command_effect(effect: &str, args: &str) -> (r: String)
    ensures
        r@ == if effect@ == "none"@ && !contains_seq(args@, "--effect"@) { "random"@ } else { effect@ },
{
    let e = chars_of(effect);
    let a = chars_of(args);
    if eq_str(&e, "none") && !contains_str(&a, "--effect") {
        "random".to_string()
    } else {
        effect.to_string()
    }
}

/// Whether WhatsApp `/random` sends a random cached file: no voice flag, no
/// effect to apply, no search text, disk caching on.
pub fn wapp_cached_shortcut(args: &str, effect: &str, search_text: &str, save_mp3: bool) -> (b: bool)
    ensures
        b == (!contains_seq(args@, "--voice"@) && effect@ == "none"@ && search_text@.len() == 0 && save_mp3),
{
    let a = chars_of(args);
    let e = chars_of(effect);
    let s = chars_of(search_text);
    !contains_str(&a, "--voice") && eq_str(&e, "none") && s.len() == 0 && save_mp3
}


/// Reading words that hold no flag, up to word `n`, only collects them as
/// text.
proof fn lemma_parse_from_without_flags(
    parts: Seq<Seq<char>>,
    i: int,
    n: int,
    voice: Seq<char>,
    effect: Seq<char>,
    text: Seq<Seq<char>>,
)
    requires
        0 <= i <= n <= parts.len(),
        forall|k: int| i <= k < n ==> #[trigger] parts[k] != "--voice"@ && parts[k] != "--effect"@,
    ensures
        parse_from(parts, i, voice, effect, text) == parse_from(parts, n, voice, effect, text + parts.subrange(i, n)),
    decreases n - i,
{
    if i < n {
        lemma_parse_from_without_flags(parts, i + 1, n, voice, effect, text.push(parts[i]));
        assert(text.push(parts[i]) + parts.subrange(i + 1, n) =~= text + parts.subrange(i, n));
    } else {
        assert(text + parts.subrange(i, n) =~= text);
    }
}

/// Arguments without `--voice`/`--effect` flags are all text: their words
/// joined by single spaces, spoken with the default voice and effect.
pub proof fn lemma_plain_args_keep_defaults(args: Seq<char>)
    requires
        forall|k: int| 0 <= k < words(args).len() ==> #[trigger] words(args)[k] != "--voice"@ && words(args)[k]
            != "--effect"@,
    ensures
        parsed_args(args) == (space_joined(words(args)), "Google"@, "none"@),
{
    let ws = words(args);
    lemma_parse_from_without_flags(ws, 0, ws.len() as int, "Google"@, "none"@, Seq::empty());
    assert(Seq::<Seq<char>>::empty() + ws.subrange(0, ws.len() as int) =~= ws);
}

/// Flags given after the text read back as given: arguments whose words are
/// some text words (no flag among them) followed by `--voice V --effect E`,
/// `V` and `E` not flags themselves, are that text spoken with `V` and `E`.
pub proof fn lemma_flags_read_back(args: Seq<char>, text: Seq<Seq<char>>, voice: Seq<char>, effect: Seq<char>)
    requires
        words(args) == text + seq!["--voice"@, voice, "--effect"@, effect],
        forall|k: int| 0 <= k < text.len() ==> #[trigger] text[k] != "--voice"@ && text[k] != "--effect"@,
        !starts_with(voice, "--"@),
        !starts_with(effect, "--"@),
    ensures
        parsed_args(args) == (space_joined(text), voice, effect),
{
    reveal_strlit("--voice");
    reveal_strlit("--effect");
    let ws = words(args);
    let n = text.len() as int;
    assert forall|k: int| 0 <= k < n implies #[trigger] ws[k] != "--voice"@ && ws[k] != "--effect"@ by {
        assert(ws[k] == text[k]);
    }
    lemma_parse_from_without_flags(ws, 0, n, "Google"@, "none"@, Seq::empty());
    assert(Seq::<Seq<char>>::empty() + ws.subrange(0, n) =~= text);
    assert(ws[n] == "--voice"@);
    assert(ws[n + 1] == voice);
    assert(ws[n + 2] == "--effect"@);
    assert(ws[n + 3] == effect);
    assert("--effect"@ != "--voice"@) by {
        assert("--effect"@[2] != "--voice"@[2]);
    }
    assert(parse_from(ws, n, "Google"@, "none"@, text) == parse_from(ws, n + 2, voice, "none"@, text));
    assert(parse_from(ws, n + 2, voice, "none"@, text) == parse_from(ws, n + 4, voice, effect, text));
}

} // verus!
