//! Effect names accepted by the Discord bot and the dispatch from an effect
//! name to the processing stage that renders it.
use vstd::prelude::*;
use crate::text::{chars_of, eq_str};
use crate::deps::random_below;

verus! {

/// Failure kinds of the effect pipeline; each carries its message.
pub enum AudioEffectError {
    Mp3Decode(String),
    Mp3Encode(String),
    EffectProcessing(String),
    Io(String),
}

pub const AVAILABLE_EFFECTS: [&'static str; 5] = ["none", "chipmunk", "demon", "sexy", "random"];

/// Every effect name the bot accepts.
pub open spec fn effect_names() -> Seq<Seq<char>> {
    seq!["none"@, "chipmunk"@, "demon"@, "sexy"@, "random"@]
}

/// Check if an effect name is valid.
pub fn is_valid_effect(effect: &str) -> (b: bool)
    ensures
        b == effect_names().contains(effect@),
{
    let e = chars_of(effect);
    let r = eq_str(&e, "none") || eq_str(&e, "chipmunk") || eq_str(&e, "demon") || eq_str(&e, "sexy") || eq_str(&e, "random");
    proof {
        let n = effect_names();
        if r {
            if e@ == "none"@ { assert(n[0] == e@); }
            if e@ == "chipmunk"@ { assert(n[1] == e@); }
            if e@ == "demon"@ { assert(n[2] == e@); }
            if e@ == "sexy"@ { assert(n[3] == e@); }
            if e@ == "random"@ { assert(n[4] == e@); }
        }
    }
    r
}

/// Pool for resolving a "random" effect: every real effect plus "none".
pub const RANDOM_EFFECT_POOL: [&'static str; 4] = ["none", "chipmunk", "demon", "sexy"];

/// A uniformly random effect from [`RANDOM_EFFECT_POOL`].
pub fn random_effect() -> (r: &'static str)
    ensures
        exists|i: int| 0 <= i < 4 && r == RANDOM_EFFECT_POOL[i],
{
    let i = random_below(4);
    RANDOM_EFFECT_POOL[i]
}


/// Every listed effect is accepted, and a random pick is always an accepted
/// effect other than `random` itself.
pub proof fn lemma_effect_lists_consistent()
    ensures
        forall|i: int| 0 <= i < 5 ==> effect_names().contains(#[trigger] AVAILABLE_EFFECTS[i]@),
        forall|i: int| 0 <= i < 4 ==> effect_names().contains(#[trigger] RANDOM_EFFECT_POOL[i]@)
            && RANDOM_EFFECT_POOL[i]@ != "random"@,
{
    reveal_strlit("none");
    reveal_strlit("chipmunk");
    reveal_strlit("demon");
    reveal_strlit("sexy");
    reveal_strlit("random");
    let n = effect_names();
    assert(n[0] == AVAILABLE_EFFECTS[0]@);
    assert(n[1] == AVAILABLE_EFFECTS[1]@);
    assert(n[2] == AVAILABLE_EFFECTS[2]@);
    assert(n[3] == AVAILABLE_EFFECTS[3]@);
    assert(n[4] == AVAILABLE_EFFECTS[4]@);
    assert(n[0] == RANDOM_EFFECT_POOL[0]@);
    assert(n[1] == RANDOM_EFFECT_POOL[1]@);
    assert(n[2] == RANDOM_EFFECT_POOL[2]@);
    assert(n[3] == RANDOM_EFFECT_POOL[3]@);
    assert forall|i: int| 0 <= i < 4 implies RANDOM_EFFECT_POOL[i]@ != "random"@ by {
        assert(RANDOM_EFFECT_POOL[i]@.len() != "random"@.len() || RANDOM_EFFECT_POOL[i]@[0] != "random"@[0]);
    }
}
} // verus!
