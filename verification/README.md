# discord-llm-bot

The decision logic of a family of TTS chat bots (Discord, Telegram,
WhatsApp) and of their voice-clone sidecar, written in Verus. Every
function in `src/` has a contract; Verus proves all of them except the
small trusted wrappers around outside crates and std (marked
`#[verifier::external_body]`), whose contracts are believed as stated.

## Layout

- `src/text.rs`: character-level string operations, each proved against a
  direct specification over `Seq<char>`.
- `src/deps.rs`: the calls into outside crates (rand, md5, urlencoding,
  serde_json, regex, image), each behind a small trusted wrapper whose
  contract says what the crate's source shows, or names the result; the id3
  lyrics reader sits in `src/bot/tts.rs` and the two std wrappers
  (`String::from_iter`, `str::to_lowercase`) in `src/text.rs`.
- `src/bot/`: the Discord bot: voice tokens and cache paths, the TTS
  generation plan, command checks, the soundboard (search page parsing,
  paging, session store, cache eviction), voice eavesdropping and capture,
  the background generator, error bookkeeping, effects.
- `src/telegram/`: the Telegram bot's voice tokens, cache paths and
  commands.
- `src/wapp/`: the WhatsApp bot's commands and the LLM layer (reply
  protocol, refusal and garbage screening, endpoint rotation, web-search
  digests).
- `src/voiceclone.rs`: request validation and paths of the voice-clone
  sidecar.
- `tests/`: executable tests of the library.
- `app/`: the WhatsApp webhook service around the library (HTTP, SQLite,
  audio files, effect signal processing).

Laws that span several functions are public proof functions named
`lemma_*` next to the functions they speak of.
