//! Effect names accepted by the Telegram bot.
use vstd::prelude::*;
use crate::text::{chars_of, one_of, is_one_of};
use crate::deps::random_below;

verus! {

pub use crate::bot::audio_effects::AudioEffectError;

/// Every effect name the bot accepts.
pub const AVAILABLE_EFFECTS: [&'static str; 5] = ["none", "chipmunk", "demon", "woman", "random"];

/// Pool for resolving a "random" effect: every real effect plus "none".
pub const RANDOM_EFFECT_POOL: [&'static str; 4] = ["none", "chipmunk", "demon", "woman"];

/// Check if an effect name is valid.
pub fn is_valid_effect(effect: &str) -> (b: bool)
    ensures
        b == is_one_of(effect@, AVAILABLE_EFFECTS@),
{
    let e = chars_of(effect);
    one_of(&e, &AVAILABLE_EFFECTS)
}

/// A uniformly random effect from [`RANDOM_EFFECT_POOL`].
pub fn random_effect() -> (r: &'static str)
    ensures
        exists|i: int| 0 <= i < 4 && r == RANDOM_EFFECT_POOL[i],
{
    let i = random_below(4);
    RANDOM_EFFECT_POOL[i]
}


/// Every effect a random pick can give is an accepted effect other than
/// `random` itself.
pub proof fn lemma_random_pool_valid()
    ensures
        forall|i: int| 0 <= i < 4 ==> is_one_of(#[trigger] RANDOM_EFFECT_POOL[i]@, AVAILABLE_EFFECTS@)
            && RANDOM_EFFECT_POOL[i]@ != "random"@,
{
    reveal_strlit("none");
    reveal_strlit("chipmunk");
    reveal_strlit("demon");
    reveal_strlit("woman");
    reveal_strlit("random");
    assert forall|i: int| 0 <= i < 4 implies is_one_of(#[trigger] RANDOM_EFFECT_POOL[i]@, AVAILABLE_EFFECTS@)
        && RANDOM_EFFECT_POOL[i]@ != "random"@ by {
        assert(AVAILABLE_EFFECTS@[i] == RANDOM_EFFECT_POOL[i]);
        assert(RANDOM_EFFECT_POOL[i]@.len() != "random"@.len() || RANDOM_EFFECT_POOL[i]@[0] != "random"@[0]
            || RANDOM_EFFECT_POOL[i]@[1] != "random"@[1]);
    }
}
} // verus!
