//! Routing of received voice to recording sessions: which SSRC belongs to
//! which Discord user, and which ticks a recording keeps.
use vstd::prelude::*;
use std::collections::HashMap;

verus! {

broadcast use vstd::std_specs::hash::group_hash_axioms;

/// Discord user id used for SSRC mapping.
pub type DiscordUserId = u64;

/// Tracks which SSRC belongs to which Discord user, from the speaking-state
/// updates (voice ticks carry only the SSRC).
pub struct SsrcTracker {
    pub map: HashMap<u32, DiscordUserId>,
}

impl SsrcTracker {
    pub fn new() -> (r: Self)
        ensures
            r.map@ == Map::<u32, DiscordUserId>::empty(),
    {
        SsrcTracker { map: HashMap::new() }
    }

    /// A speaking-state update: map the SSRC to the user when the update
    /// names one.
    pub fn act(&mut self, ssrc: u32, user_id: Option<DiscordUserId>)
        ensures
            final(self).map@ == match user_id {
                Some(u) => old(self).map@.insert(ssrc, u),
                None => old(self).map@,
            },
    {
        match user_id {
            Some(u) => {
                self.map.insert(ssrc, u);
            },
            None => {},
        }
    }

    /// Whether a voice tick from `ssrc` belongs to `target`, as the capture
    /// handler routes it.
    pub fn belongs_to(&self, ssrc: u32, target: DiscordUserId) -> (b: bool)
        ensures
            b == (self.map@.contains_key(ssrc) && self.map@[ssrc] == target),
    {
        match self.map.get(&ssrc) {
            Some(u) => *u == target,
            None => false,
        }
    }

    /// The user a voice tick from `ssrc` belongs to, if known.
    pub fn user_of(&self, ssrc: u32) -> (r: Option<DiscordUserId>)
        ensures
            match r {
                Some(u) => self.map@.contains_key(ssrc) && self.map@[ssrc] == u,
                None => !self.map@.contains_key(ssrc),
            },
    {
        match self.map.get(&ssrc) {
            Some(u) => Some(*u),
            None => None,
        }
    }
}

/// A speaking update that names a user routes that SSRC's voice ticks to
/// that user from then on, and leaves every other SSRC's user as it was.
pub proof fn lemma_update_routes_ssrc(before: Map<u32, DiscordUserId>, ssrc: u32, user: DiscordUserId, other: u32)
    requires
        other != ssrc,
    ensures
        before.insert(ssrc, user).contains_key(ssrc),
        before.insert(ssrc, user)[ssrc] == user,
        before.insert(ssrc, user).contains_key(other) == before.contains_key(other),
        before.contains_key(other) ==> before.insert(ssrc, user)[other] == before[other],
{
}

/// Whether the user that live cloning records is the server owner: the
/// configured admin id or the guild's owner.
pub fn is_clone_owner(author: u64, admin_id: &str, guild_owner: u64) -> (b: bool)
    ensures
        b == (crate::text::decimal(author as nat) == admin_id@ || author == guild_owner),
{
    let a = crate::text::decimal_chars(author);
    crate::text::eq_str(&a, admin_id) || author == guild_owner
}

/// Live cloning records the target only in the bot's own channel.
pub fn same_voice_channel(bot_channel: Option<u64>, target_channel: Option<u64>) -> (b: bool)
    ensures
        b == (bot_channel is Some && target_channel is Some && bot_channel->0 == target_channel->0),
{
    match (bot_channel, target_channel) {
        (Some(b), Some(t)) => b == t,
        _ => false,
    }
}

} // verus!
