//! The voice eavesdrop feature: its runtime state and timer, the choice of
//! the channel to visit, and the screening of what the LLM wants to say.
use vstd::prelude::*;
use crate::text::{
    chars_of, contains_any, contains_any_of, starts_with, starts_with_str, lowercase_of, to_lowercase,
    string_from_chars, decimal, decimal_chars, utf8_len,
};
use crate::wapp::llm::{refusal_in_lowercase, looks_like_refusal_lowercase};
use crate::deps::random_in_range;
use vstd::string::StringSliceAdditionalSpecFns;

verus! {

/// Shared state of the voice eavesdrop feature.
pub struct VoiceEavesdropState {
    /// Seconds left until the next eavesdrop session, when one is scheduled.
    pub next_eavesdrop_secs: Option<u64>,
    /// Runtime enable flag (toggled by /enable and /disable).
    pub enabled: bool,
}

/// A delay drawn for the next session lies in `min..=max` seconds.
pub open spec fn in_draw_range(d: u64, min: u64, max: u64) -> bool {
    min <= d <= max
}

/// Seconds between two checks of the eavesdrop loop.
pub const TICK_SECS: u64 = 10;

impl VoiceEavesdropState {
    /// The state the loop starts with.
    pub fn new(enabled: bool) -> (r: Self)
        ensures
            r.enabled == enabled,
            r.next_eavesdrop_secs is None,
    {
        VoiceEavesdropState { next_eavesdrop_secs: None, enabled }
    }

    /// Enable or disable new sessions; disabling drops the pending timer so
    /// re-enabling schedules a fresh one. Returns the new flag.
    pub fn set_enabled(&mut self, enable: bool) -> (r: bool)
        ensures
            r == enable,
            final(self).enabled == enable,
            final(self).next_eavesdrop_secs == if enable { old(self).next_eavesdrop_secs } else { None },
    {
        self.enabled = enable;
        if !enable {
            self.next_eavesdrop_secs = None;
        }
        self.enabled
    }

    /// One check of the loop, `drawn_secs` being a fresh random delay used
    /// when no session is scheduled. Returns whether to eavesdrop now.
    pub fn tick(&mut self, drawn_secs: u64) -> (go: bool)
        ensures
            !old(self).enabled ==> !go && *final(self) == *old(self),
            old(self).enabled ==> {
                let pending = match old(self).next_eavesdrop_secs {
                    Some(s) => s,
                    None => drawn_secs,
                };
                &&& go == (pending <= TICK_SECS)
                &&& final(self).enabled
                &&& final(self).next_eavesdrop_secs == if go { None } else { Some((pending - TICK_SECS) as u64) }
            },
    {
        if !self.enabled {
            return false;
        }
        let pending = match self.next_eavesdrop_secs {
            Some(s) => s,
            None => drawn_secs,
        };
        if pending <= TICK_SECS {
            self.next_eavesdrop_secs = None;
            true
        } else {
            self.next_eavesdrop_secs = Some(pending - TICK_SECS);
            false
        }
    }

    /// One check of the loop with a fresh delay drawn from `min_secs..=max_secs`
    /// when no session is scheduled.
    pub fn check(&mut self, min_secs: u64, max_secs: u64) -> (go: bool)
        requires
            min_secs <= max_secs,
        ensures
            !old(self).enabled ==> !go && *final(self) == *old(self),
            old(self).enabled ==> final(self).enabled && match old(self).next_eavesdrop_secs {
                Some(s) => go == (s <= TICK_SECS) && final(self).next_eavesdrop_secs == if go { None } else { Some((s - TICK_SECS) as u64) },
                None => exists|d: u64| #[trigger] in_draw_range(d, min_secs, max_secs) && go == (d <= TICK_SECS)
                        && final(self).next_eavesdrop_secs == if go { None } else { Some((d - TICK_SECS) as u64) },
            },
    {
        if !self.enabled {
            return false;
        }
        let drawn = match self.next_eavesdrop_secs {
            Some(s) => s,
            None => random_in_range(min_secs, max_secs),
        };
        let go = self.tick(drawn);
        assert(old(self).next_eavesdrop_secs is None ==> in_draw_range(drawn, min_secs, max_secs));
        go
    }

    /// Schedule the next session after a visit, `drawn_secs` being a fresh
    /// random delay.
    pub fn reschedule(&mut self, drawn_secs: u64)
        ensures
            final(self).next_eavesdrop_secs == Some(drawn_secs),
            final(self).enabled == old(self).enabled,
    {
        self.next_eavesdrop_secs = Some(drawn_secs);
    }
}

/// Enable or disable new sessions through the shared state, which exists
/// once the eavesdrop loop has started: `None` (nothing changed) before
/// that, else the new flag.
pub fn set_enabled(state: &mut Option<VoiceEavesdropState>, enable: bool) -> (r: Option<bool>)
    ensures
        *old(state) is None ==> r is None && *final(state) is None,
        *old(state) matches Some(s0) ==> r == Some(enable) && (*final(state) matches Some(s1) && s1.enabled == enable
            && s1.next_eavesdrop_secs == if enable { s0.next_eavesdrop_secs } else { None }),
{
    match state {
        Some(s) => Some(s.set_enabled(enable)),
        None => None,
    }
}

/// The runtime flag, once the eavesdrop loop has started.
pub fn is_enabled(state: &Option<VoiceEavesdropState>) -> (r: Option<bool>)
    ensures
        r == match state {
            Some(s) => Some(s.enabled),
            None => None,
        },
{
    match state {
        Some(s) => Some(s.enabled),
        None => None,
    }
}

/// Markers of a moderation verdict, JSON or other noise in a response.
pub const NOISE_MARKERS: [&'static str; 12] = [
    "user safety", "safe:", "safety:", "policy:", "blocked", "explicit", "content filter", "{", "```",
    "label:", "classification:", "category:",
];

/// Whether a response is worth saying, given its lowercase form and its
/// length in bytes: at least 5 bytes, no refusal, and no moderation
/// verdict, JSON or code in it.
pub open spec fn acceptable_lowercase(lower: Seq<char>, byte_len: nat) -> bool {
    &&& byte_len >= 5
    &&& !refusal_in_lowercase(lower)
    &&& !contains_any(lower, NOISE_MARKERS@)
    &&& !(starts_with(lower, "safe"@) || starts_with(lower, "blocked"@) || starts_with(lower, "error"@))
}

/// Whether a response is worth saying (see [`acceptable_lowercase`]).
pub open spec fn acceptable_response(text: Seq<char>, byte_len: nat) -> bool {
    acceptable_lowercase(lowercase_of(text), byte_len)
}

/// Validate an LLM response; the bot stays silent when it fails.
pub fn validate_response(text: &str) -> (b: bool)
    ensures
        b == acceptable_response(text@, text.len() as nat),
        b ==> !crate::wapp::llm::is_refusal_text(text@),
        b ==> text.len() >= 5,
{
    proof {
        lemma_acceptable_is_not_refusal(lowercase_of(text@), text.len() as nat);
    }
    let l = to_lowercase(text);
    validate_lowercase_response(l.as_str(), text.len())
}

/// The checks of [`validate_response`] on the lowercased response, given
/// the length in bytes of the response itself.
pub fn validate_lowercase_response(lower: &str, byte_len: usize) -> (b: bool)
    ensures
        b == acceptable_lowercase(lower@, byte_len as nat),
        b ==> !refusal_in_lowercase(lower@),
{
    proof {
        lemma_acceptable_is_not_refusal(lower@, byte_len as nat);
    }
    if byte_len < 5 {
        return false;
    }
    if looks_like_refusal_lowercase(lower) {
        return false;
    }
    let lv = chars_of(lower);
    if contains_any_of(&lv, &NOISE_MARKERS) {
        return false;
    }
    !(starts_with_str(&lv, "safe") || starts_with_str(&lv, "blocked") || starts_with_str(&lv, "error"))
}

/// A response the eavesdropper would say is never a refusal by the shared
/// refusal heuristics (a strong refusal phrase, or an apology with a
/// first-person inability), is at least 5 bytes long, and holds no
/// moderation marker, JSON or code.
pub proof fn lemma_acceptable_is_not_refusal(lower: Seq<char>, byte_len: nat)
    ensures
        acceptable_lowercase(lower, byte_len) ==> {
            &&& !refusal_in_lowercase(lower)
            &&& !crate::text::contains_any(lower, crate::wapp::llm::STRONG_REFUSALS@)
            &&& !(crate::text::contains_any(lower, crate::wapp::llm::APOLOGIES@) && crate::wapp::llm::inability_in(lower))
            &&& byte_len >= 5
            &&& !contains_any(lower, NOISE_MARKERS@)
        },
{
}

/// Someone in a voice channel.
pub struct VoiceMember {
    pub user_id: u64,
    /// Whether the user is a bot, when the user is known.
    pub is_bot: Option<bool>,
    /// The user's name, when known.
    pub name: Option<String>,
}

/// A voice channel and who is in it.
pub struct VoiceChannelInfo {
    pub id: u64,
    pub members: Vec<VoiceMember>,
}

/// A member counts as a human: not the bot itself, not a known bot.
pub open spec fn is_human(m: VoiceMember, bot_user: u64) -> bool {
    m.user_id != bot_user && m.is_bot != Some(true)
}

/// Humans among the first `n` members.
pub open spec fn human_count(ms: Seq<VoiceMember>, bot_user: u64, n: int) -> nat
    decreases n,
{
    if n <= 0 {
        0
    } else {
        human_count(ms, bot_user, n - 1) + if is_human(ms[n - 1], bot_user) { 1nat } else { 0nat }
    }
}

/// The busiest of the first `n` channels with humans: `(index, count)`,
/// the first one on ties.
pub open spec fn busiest(chs: Seq<VoiceChannelInfo>, bot_user: u64, n: int) -> Option<(int, nat)>
    decreases n,
{
    if n <= 0 {
        None
    } else {
        let c = human_count(chs[n - 1].members@, bot_user, chs[n - 1].members@.len() as int);
        match busiest(chs, bot_user, n - 1) {
            Some((i, best)) => if c > best { Some((n - 1, c)) } else { Some((i, best)) },
            None => if c > 0 { Some((n - 1, c)) } else { None },
        }
    }
}

/// The name shown for a member: the known name, else the user id.
pub open spec fn member_label(m: VoiceMember) -> Seq<char> {
    match m.name {
        Some(n) => n@,
        None => decimal(m.user_id as nat),
    }
}

/// The first human among the first `n` members.
pub open spec fn first_human(ms: Seq<VoiceMember>, bot_user: u64, n: int) -> Option<int>
    decreases n,
{
    if n <= 0 {
        None
    } else {
        match first_human(ms, bot_user, n - 1) {
            Some(i) => Some(i),
            None => if is_human(ms[n - 1], bot_user) { Some(n - 1) } else { None },
        }
    }
}

/// Where to eavesdrop: the channel with the most humans (the first on
/// ties), how many there are, and the name of its first human.
pub struct EavesdropTarget {
    pub channel_id: u64,
    pub humans: u64,
    pub username: String,
}

fn humans_in(ms: &Vec<VoiceMember>, bot_user: u64) -> (r: (u64, Option<usize>))
    ensures
        r.0 == human_count(ms@, bot_user, ms@.len() as int),
        match r.1 {
            Some(i) => i < ms@.len() && first_human(ms@, bot_user, ms@.len() as int) == Some(i as int),
            None => first_human(ms@, bot_user, ms@.len() as int) is None,
        },
{
    let mut count: u64 = 0;
    let mut first: Option<usize> = None;
    let mut j: usize = 0;
    while j < ms.len()
        invariant
            j <= ms@.len(),
            count <= j,
            count == human_count(ms@, bot_user, j as int),
            match first {
                Some(i) => i < j && first_human(ms@, bot_user, j as int) == Some(i as int),
                None => first_human(ms@, bot_user, j as int) is None,
            },
        decreases ms@.len() - j,
    {
        let m = &ms[j];
        let human = m.user_id != bot_user && m.is_bot != Some(true);
        if human {
            count += 1;
            if first.is_none() {
                first = Some(j);
            }
        }
        j += 1;
    }
    (count, first)
}

/// Pick the channel to eavesdrop on, if any has humans.
pub fn pick_eavesdrop_target(channels: &Vec<VoiceChannelInfo>, bot_user: u64) -> (r: Option<EavesdropTarget>)
    ensures
        match busiest(channels@, bot_user, channels@.len() as int) {
            Some((i, c)) => r matches Some(t) && t.channel_id == channels@[i].id && t.humans == c && ({
                let ms = channels@[i].members@;
                first_human(ms, bot_user, ms.len() as int) matches Some(f) && 0 <= f < ms.len() && t.username@
                    == member_label(ms[f])
            }),
            None => r is None,
        },
{
    let mut best: Option<(usize, u64, usize)> = None;
    let mut k: usize = 0;
    while k < channels.len()
        invariant
            k <= channels@.len(),
            match best {
                Some((i, c, f)) => busiest(channels@, bot_user, k as int) == Some((i as int, c as nat)) && i < k
                    && f < channels@[i as int].members@.len()
                    && first_human(channels@[i as int].members@, bot_user, channels@[i as int].members@.len() as int) == Some(f as int),
                None => busiest(channels@, bot_user, k as int) is None,
            },
        decreases channels@.len() - k,
    {
        let (c, f) = humans_in(&channels[k].members, bot_user);
        if c > 0 {
            let better = match best {
                None => true,
                Some((_, bc, _)) => c > bc,
            };
            if better {
                match f {
                    Some(fi) => {
                        best = Some((k, c, fi));
                    },
                    None => {
                        proof {
                            lemma_count_has_first(channels@[k as int].members@, bot_user, channels@[k as int].members@.len() as int);
                        }
                    },
                }
            }
        }
        k += 1;
    }
    match best {
        Some((i, c, f)) => {
            let m = &channels[i].members[f];
            let name = match &m.name {
                Some(n) => n.clone(),
                None => string_from_chars(decimal_chars(m.user_id)),
            };
            Some(EavesdropTarget { channel_id: channels[i].id, humans: c, username: name })
        },
        None => None,
    }
}

proof fn lemma_count_has_first(ms: Seq<VoiceMember>, bot_user: u64, n: int)
    requires
        0 <= n <= ms.len(),
        human_count(ms, bot_user, n) > 0,
    ensures
        first_human(ms, bot_user, n) is Some,
    decreases n,
{
    if n > 0 && human_count(ms, bot_user, n - 1) > 0 {
        lemma_count_has_first(ms, bot_user, n - 1);
    }
}

} // verus!
