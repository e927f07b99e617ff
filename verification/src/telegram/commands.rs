//! Command parsing and the decisions of the Telegram bot's commands.
use vstd::prelude::*;
use crate::text::{
    chars_of, eq_str, starts_with, starts_with_str, ends_with, ends_with_str, contains_seq, contains_str, trim,
    trim_ws, lowercase_of, to_lowercase, string_from_chars, append, append_str, slice, slice_all, split_char,
    split_on, find_first, find_char, i64_value, parse_i64, decimal, decimal_chars, replace_first,
    fill_placeholder, one_of, is_one_of,
};
use crate::telegram::tts::AVAILABLE_VOICES;
use crate::telegram::audio_effects::AVAILABLE_EFFECTS;

verus! {

pub use crate::wapp::commands::{parse_voice_effect, parse_translate_args, Command};

/// A message split into its command and its trimmed arguments at the first
/// space; a `@botname` suffix is dropped from the command, which is
/// lowercased.
pub open spec fn split_command(text: Seq<char>) -> (Seq<char>, Seq<char>) {
    let (cmd, args) = match find_first(text, ' ') {
        Some(i) => (text.take(i), trim(text.skip(i + 1))),
        None => (text, Seq::empty()),
    };
    (lowercase_of(split_char(cmd, '@')[0]), args)
}

/// Split an incoming (already trimmed) message into command and arguments.
pub fn parse_command(text: &str) -> (r: (String, String))
    ensures
        (r.0@, r.1@) == split_command(text@),
{
    let t = chars_of(text);
    let n = t.len();
    let (cmd, args) = match find_char(&t, ' ') {
        Some(i) => {
            assert(i < n);
            let c = slice(&t, 0, i);
            let rest = slice(&t, i + 1, t.len());
            assert(rest@ =~= t@.skip(i + 1));
            assert(c@ =~= t@.take(i as int));
            (c, trim_ws(&rest))
        },
        None => (slice_all(&t), Vec::new()),
    };
    let pieces = split_on(&cmd, '@');
    proof {
        crate::text::lemma_split_nonempty(cmd@, '@');
    }
    let first = string_from_chars(slice_all(&pieces[0]));
    (to_lowercase(first.as_str()), string_from_chars(args))
}

/// The Telegram commands and their short forms.
pub open spec fn telegram_command(c: Seq<char>) -> Command {
    if c == "/speak"@ || c == "/s"@ {
        Command::Speak
    } else if c == "/random"@ || c == "/r"@ {
        Command::Random
    } else if c == "/createvoice"@ {
        Command::CreateVoice
    } else if c == "/myvoices"@ {
        Command::MyVoices
    } else if c == "/deletevoice"@ {
        Command::DeleteVoice
    } else if c == "/ask"@ || c == "/a"@ {
        Command::Ask
    } else if c == "/translate"@ || c == "/t"@ {
        Command::Translate
    } else if c == "/joke"@ || c == "/j"@ {
        Command::Joke
    } else if c == "/stats"@ {
        Command::Stats
    } else if c == "/help"@ || c == "/h"@ || c == "/start"@ {
        Command::Help
    } else {
        Command::Unknown
    }
}

pub fn classify_telegram_command(c: &str) -> (r: Command)
    ensures
        r == telegram_command(c@),
{
    let v = chars_of(c);
    if eq_str(&v, "/speak") || eq_str(&v, "/s") {
        Command::Speak
    } else if eq_str(&v, "/random") || eq_str(&v, "/r") {
        Command::Random
    } else if eq_str(&v, "/createvoice") {
        Command::CreateVoice
    } else if eq_str(&v, "/myvoices") {
        Command::MyVoices
    } else if eq_str(&v, "/deletevoice") {
        Command::DeleteVoice
    } else if eq_str(&v, "/ask") || eq_str(&v, "/a") {
        Command::Ask
    } else if eq_str(&v, "/translate") || eq_str(&v, "/t") {
        Command::Translate
    } else if eq_str(&v, "/joke") || eq_str(&v, "/j") {
        Command::Joke
    } else if eq_str(&v, "/stats") {
        Command::Stats
    } else if eq_str(&v, "/help") || eq_str(&v, "/h") || eq_str(&v, "/start") {
        Command::Help
    } else {
        Command::Unknown
    }
}

/// In a private chat a plain (non-command) message is a question for /ask.
pub fn plain_message_is_question(text: &str, private_chat: bool) -> (b: bool)
    ensures
        b == (!starts_with(text@, "/"@) && private_chat),
{
    let t = chars_of(text);
    !starts_with_str(&t, "/") && private_chat
}

/// The chat allowlist of `TEL_ALLOWED_CHATS`: the ids among its
/// comma-separated items (trimmed, blanks and non-numbers skipped), or
/// `None` (all chats) when there is none.
pub open spec fn allowed_ids_acc(parts: Seq<Seq<char>>) -> Seq<int>
    decreases parts.len(),
{
    if parts.len() == 0 {
        Seq::empty()
    } else {
        let init = allowed_ids_acc(parts.drop_last());
        let t = trim(parts.last());
        if t.len() > 0 && i64_value(t) is Some {
            init.push(i64_value(t)->0)
        } else {
            init
        }
    }
}

pub fn config_allowed_chats(raw: &str) -> (r: Option<Vec<i64>>)
    ensures
        ({
            let ids = allowed_ids_acc(split_char(raw@, ','));
            match r {
                Some(v) => ids.len() > 0 && v@.len() == ids.len() && forall|k: int| 0 <= k < v@.len() ==> v@[k] as int == ids[k],
                None => ids.len() == 0,
            }
        }),
{
    let rv = chars_of(raw);
    let parts = split_on(&rv, ',');
    let ghost all = split_char(raw@, ',');
    let mut ids: Vec<i64> = Vec::new();
    let mut i: usize = 0;
    assert(all.take(0) =~= Seq::<Seq<char>>::empty());
    while i < parts.len()
        invariant
            parts@.len() == all.len(),
            forall|k: int| 0 <= k < parts@.len() ==> (#[trigger] parts@[k])@ == all[k],
            i <= parts@.len(),
            ids@.len() == allowed_ids_acc(all.take(i as int)).len(),
            forall|k: int| 0 <= k < ids@.len() ==> ids@[k] as int == allowed_ids_acc(all.take(i as int))[k],
        decreases parts@.len() - i,
    {
        assert(all.take(i + 1).drop_last() =~= all.take(i as int));
        let t = trim_ws(&parts[i]);
        if t.len() > 0 {
            match parse_i64(&t) {
                Some(v) => ids.push(v),
                None => {},
            }
        }
        i += 1;
    }
    assert(all.take(i as int) =~= all);
    if ids.len() == 0 {
        None
    } else {
        Some(ids)
    }
}

/// Whether a chat may use the bot.
pub fn chat_allowed(allowed: &Option<Vec<i64>>, chat_id: i64) -> (b: bool)
    ensures
        b == match allowed {
            Some(v) => v@.contains(chat_id),
            None => true,
        },
{
    match allowed {
        Some(v) => contains_id(v, chat_id),
        None => true,
    }
}

fn contains_id(v: &Vec<i64>, x: i64) -> (b: bool)
    ensures
        b == v@.contains(x),
{
    let mut i: usize = 0;
    while i < v.len()
        invariant
            i <= v@.len(),
            forall|k: int| 0 <= k < i ==> v@[k] != x,
        decreases v@.len() - i,
    {
        if v[i] == x {
            assert(v@[i as int] == x);
            return true;
        }
        i += 1;
    }
    false
}

/// A random voice pick or a random effect renders with the Google voice;
/// only an explicit voice keeps an explicit effect.
pub open spec fn pinned_voice(requested: Seq<char>, picked: Seq<char>, effect: Seq<char>) -> Seq<char> {
    if (requested == "random"@ && effect != "none"@) || effect == "random"@ {
        "Google"@
    } else {
        picked
    }
}

pub fn pin_voice(requested: &str, picked: &str, effect: &str) -> (r: String)
    ensures
        r@ == pinned_voice(requested@, picked@, effect@),
{
    let q = chars_of(requested);
    let e = chars_of(effect);
    if (eq_str(&q, "random") && !eq_str(&e, "none")) || eq_str(&e, "random") {
        "Google".to_string()
    } else {
        picked.to_string()
    }
}

/// Whether Telegram `/random` sends a random cached file: no voice flag, the
/// picked voice is built in, no effect, no search text, disk caching on.
pub fn telegram_cached_shortcut(args: &str, voice: &str, effect: &str, search_text: &str, save_mp3: bool) -> (b: bool)
    ensures
        b == (!contains_seq(args@, "--voice"@) && is_one_of(voice@, AVAILABLE_VOICES@) && effect@ == "none"@
            && search_text@.len() == 0 && save_mp3),
{
    let a = chars_of(args);
    let v = chars_of(voice);
    let e = chars_of(effect);
    let s = chars_of(search_text);
    !contains_str(&a, "--voice") && one_of(&v, &AVAILABLE_VOICES) && eq_str(&e, "none") && s.len() == 0 && save_mp3
}

/// A cached file Telegram `/random` may send: not a cloned voice's file.
pub fn is_pickable_cached(path: &str) -> (b: bool)
    ensures
        b == (!contains_seq(path@, "clone|"@) && !contains_seq(path@, "clone_"@)),
{
    let p = chars_of(path);
    !contains_str(&p, "clone|") && !contains_str(&p, "clone_")
}

/// Owner identity of a Telegram user for voice cloning: `telegram:<id>`.
pub fn vc_owner(user_id: u64) -> (r: String)
    ensures
        r@ == "telegram:"@ + decimal(user_id as nat),
{
    let mut v = chars_of("telegram:");
    let d = decimal_chars(user_id);
    append(&mut v, &d);
    string_from_chars(v)
}

/// A document is a usable voice sample when its name ends in `.mp3` or `.wav`
/// (case-insensitively).
pub fn is_sample_document(file_name: Option<&str>) -> (b: bool)
    ensures
        b == match file_name {
            Some(n) => ends_with(lowercase_of(n@), ".mp3"@) || ends_with(lowercase_of(n@), ".wav"@),
            None => false,
        },
{
    match file_name {
        Some(n) => {
            let l = to_lowercase(n);
            let lv = chars_of(l.as_str());
            ends_with_str(&lv, ".mp3") || ends_with_str(&lv, ".wav")
        },
        None => false,
    }
}

/// A line of /myvoices.
pub fn voice_line(name: &str) -> (r: String)
    ensures
        r@ == "• **"@ + name@ + "** — `/speak testo --voice "@ + name@ + "`"@,
{
    let mut v = chars_of("• **");
    append_str(&mut v, name);
    append_str(&mut v, "** — `/speak testo --voice ");
    append_str(&mut v, name);
    append_str(&mut v, "`");
    string_from_chars(v)
}

/// Names in backticks, joined with `, `.
pub open spec fn code_list(items: Seq<&str>) -> Seq<char>
    decreases items.len(),
{
    if items.len() == 0 {
        Seq::empty()
    } else if items.len() == 1 {
        "`"@ + items[0]@ + "`"@
    } else {
        code_list(items.drop_last()) + ", `"@ + items.last()@ + "`"@
    }
}

fn code_list_exec(items: &[&str]) -> (r: Vec<char>)
    ensures
        r@ == code_list(items@),
{
    let mut v: Vec<char> = Vec::new();
    let mut i: usize = 0;
    assert(items@.take(0) =~= Seq::<&str>::empty());
    while i < items.len()
        invariant
            i <= items@.len(),
            v@ == code_list(items@.take(i as int)),
        decreases items@.len() - i,
    {
        assert(items@.take(i + 1).drop_last() =~= items@.take(i as int));
        if i > 0 {
            append_str(&mut v, ", `");
        } else {
            append_str(&mut v, "`");
        }
        append_str(&mut v, items[i]);
        append_str(&mut v, "`");
        i += 1;
    }
    assert(items@.take(i as int) =~= items@);
    v
}

/// The /help text: the template with the voice list (and the cloned-voice
/// hint when cloning is configured) and the effect list filled in.
pub fn help_text(title: &str, template: &str, cloning: bool) -> (r: String)
    ensures
        r@ == title@ + replace_first(replace_first(template@, "{}"@, code_list(AVAILABLE_VOICES@) + (if cloning {
            " (cloned voices by name, see /myvoices; /random picks a random voice when none is given)"@
        } else {
            Seq::empty()
        })), "{}"@, code_list(AVAILABLE_EFFECTS@)),
{
    proof {
        reveal_strlit("{}");
    }
    let mut voices = code_list_exec(&AVAILABLE_VOICES);
    let ghost vl = voices@;
    if cloning {
        append_str(&mut voices, " (cloned voices by name, see /myvoices; /random picks a random voice when none is given)");
    } else {
        assert(voices@ =~= vl + Seq::<char>::empty());
    }
    let effects = code_list_exec(&AVAILABLE_EFFECTS);
    let t = chars_of(template);
    let once = fill_placeholder(&t, "{}", &voices);
    let twice = fill_placeholder(&once, "{}", &effects);
    let mut out = chars_of(title);
    append(&mut out, &twice);
    string_from_chars(out)
}


/// Addressing the bot by name (`/cmd@botname`, as Telegram writes commands
/// in groups) reads as the plain command with the same arguments.
pub proof fn lemma_bot_mention_ignored(cmd: Seq<char>, bot: Seq<char>, args: Seq<char>)
    requires
        !cmd.contains(' '),
        !cmd.contains('@'),
        !bot.contains(' '),
    ensures
        split_command(cmd + "@"@ + bot + " "@ + args) == split_command(cmd + " "@ + args),
        split_command(cmd + "@"@ + bot) == split_command(cmd),
{
    reveal_strlit("@");
    reveal_strlit(" ");
    let head = cmd + seq!['@'] + bot;
    assert(!head.contains(' ')) by {
        if head.contains(' ') {
            let k = choose|k: int| 0 <= k < head.len() && head[k] == ' ';
            if k < cmd.len() {
                assert(cmd[k] == ' ');
            } else if k > cmd.len() {
                assert(bot[k - cmd.len() - 1] == ' ');
            }
        }
    }
    let t1 = cmd + "@"@ + bot + " "@ + args;
    let t2 = cmd + " "@ + args;
    assert(t1 =~= head + seq![' '] + args);
    assert(t2 =~= cmd + seq![' '] + args);
    crate::text::lemma_find_first_after(head, args, ' ');
    crate::text::lemma_find_first_after(cmd, args, ' ');
    assert(t1.take(head.len() as int) =~= head);
    assert(t1.skip(head.len() + 1int) =~= args);
    assert(t2.take(cmd.len() as int) =~= cmd);
    assert(t2.skip(cmd.len() + 1int) =~= args);
    crate::text::lemma_split_without_sep(cmd, '@');
    crate::text::lemma_split_concat(cmd, bot, '@');
    crate::text::lemma_split_nonempty(bot, '@');
    assert(split_char(head, '@')[0] == cmd);
    assert(cmd + "@"@ + bot =~= head);
}
} // verus!
