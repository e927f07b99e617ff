//! Effect names accepted by the WhatsApp bot.
use vstd::prelude::*;
use crate::text::{chars_of, one_of, is_one_of};
use crate::deps::random_below;

verus! {

pub use crate::bot::audio_effects::AudioEffectError;

/// Every effect name the bot accepts.
pub const AVAILABLE_EFFECTS: [&'static str; 9] = [
    "none", "echo", "reverb", "chipmunk", "demon", "woman1", "woman2", "woman3", "random",
];

/// Pool for resolving a "random" effect: every real effect plus "none".
pub const RANDOM_EFFECT_POOL: [&'static str; 8] = [
    "none", "echo", "reverb", "chipmunk", "demon", "woman1", "woman2", "woman3",
];

/// Check if an effect name is valid.
pub fn is_valid_effect(effect: &str) -> (b: bool)
    ensures
        b == is_one_of(effect@, AVAILABLE_EFFECTS@),
{
    let e = chars_of(effect);
    one_of(&e, &AVAILABLE_EFFECTS)
}

/// A uniformly random effect from [`RANDOM_EFFECT_POOL`].
pub fn random_effect() -> (r: &'static str)
    ensures
        exists|i: int| 0 <= i < 8 && r == RANDOM_EFFECT_POOL[i],
{
    let i = random_below(8);
    RANDOM_EFFECT_POOL[i]
}

/// A uniformly random entry of [`AVAILABLE_EFFECTS`] (how the bot resolves
/// a "random" effect in /speak and /random).
pub fn random_available_effect() -> (r: &'static str)
    ensures
        exists|i: int| 0 <= i < 9 && r == AVAILABLE_EFFECTS[i],
{
    let i = random_below(9);
    AVAILABLE_EFFECTS[i]
}


/// Every effect a random pick can give is an accepted effect other than
/// `random` itself.
pub proof fn lemma_random_pool_valid()
    ensures
        forall|i: int| 0 <= i < 8 ==> is_one_of(#[trigger] RANDOM_EFFECT_POOL[i]@, AVAILABLE_EFFECTS@)
            && RANDOM_EFFECT_POOL[i]@ != "random"@,
{
    reveal_strlit("none");
    reveal_strlit("echo");
    reveal_strlit("reverb");
    reveal_strlit("chipmunk");
    reveal_strlit("demon");
    reveal_strlit("woman1");
    reveal_strlit("woman2");
    reveal_strlit("woman3");
    reveal_strlit("random");
    assert forall|i: int| 0 <= i < 8 implies is_one_of(#[trigger] RANDOM_EFFECT_POOL[i]@, AVAILABLE_EFFECTS@)
        && RANDOM_EFFECT_POOL[i]@ != "random"@ by {
        assert(AVAILABLE_EFFECTS@[i] == RANDOM_EFFECT_POOL[i]);
        assert(RANDOM_EFFECT_POOL[i]@.len() != "random"@.len() || RANDOM_EFFECT_POOL[i]@[0] != "random"@[0]
            || RANDOM_EFFECT_POOL[i]@[1] != "random"@[1]);
    }
}
} // verus!
