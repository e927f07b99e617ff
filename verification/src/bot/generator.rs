//! The background generator: which sentences and voices a cycle
//! pre-generates, its per-cycle limits, and its log lines.
use vstd::prelude::*;
use crate::text::{chars_of, eq_str, string_from_chars, truncate_with_ellipsis, truncate_chars, decimal, decimal_chars, append, append_str};

verus! {

/// Files generated per cycle at most.
pub const MAX_GENERATED_PER_CYCLE: u32 = 6;

/// Non-Google generations per cycle at most.
pub const MAX_OTHER_VOICE_PER_CYCLE: u32 = 3;

/// Counters of one generator cycle.
pub struct GeneratorCycle {
    pub generated: u32,
    pub failed: u32,
    pub other_voice: u32,
}

/// What generating one file gave.
pub enum GenerationOutcome {
    /// Audio was produced; `fallback` when Google stood in for the voice.
    Produced { fallback: bool },
    Failed,
}

impl GeneratorCycle {
    pub open spec fn wf(self) -> bool {
        &&& self.generated <= MAX_GENERATED_PER_CYCLE
        &&& self.other_voice <= MAX_OTHER_VOICE_PER_CYCLE
    }

    /// A fresh cycle.
    pub fn new() -> (r: Self)
        ensures
            r.generated == 0 && r.failed == 0 && r.other_voice == 0,
            r.wf(),
    {
        GeneratorCycle { generated: 0, failed: 0, other_voice: 0 }
    }

    /// The cycle is over once it generated [`MAX_GENERATED_PER_CYCLE`] files.
    pub fn is_full(&self) -> (b: bool)
        ensures
            b == (self.generated >= MAX_GENERATED_PER_CYCLE),
    {
        self.generated >= MAX_GENERATED_PER_CYCLE
    }

    /// A non-Google voice is skipped once its per-cycle limit is reached.
    pub fn skips_voice(&self, voice: &str) -> (b: bool)
        ensures
            b == (voice@ != "Google"@ && self.other_voice >= MAX_OTHER_VOICE_PER_CYCLE),
    {
        let v = chars_of(voice);
        !eq_str(&v, "Google") && self.other_voice >= MAX_OTHER_VOICE_PER_CYCLE
    }

    /// Count the outcome of a generation the cycle started (it only starts
    /// one when it is not full and the voice is not skipped).
    pub fn record(&mut self, voice: &str, outcome: GenerationOutcome)
        requires
            old(self).wf(),
            old(self).generated < MAX_GENERATED_PER_CYCLE,
            !(voice@ != "Google"@ && old(self).other_voice >= MAX_OTHER_VOICE_PER_CYCLE),
            old(self).failed < u32::MAX,
        ensures
            final(self).wf(),
            match outcome {
                GenerationOutcome::Produced { fallback } => {
                    &&& final(self).generated == old(self).generated + if fallback { 0int } else { 1int }
                    &&& final(self).other_voice == old(self).other_voice + if voice@ != "Google"@ && !fallback { 1int } else { 0int }
                    &&& final(self).failed == old(self).failed
                },
                GenerationOutcome::Failed => {
                    &&& final(self).generated == old(self).generated
                    &&& final(self).other_voice == old(self).other_voice
                    &&& final(self).failed == old(self).failed + 1
                },
            },
    {
        let v = chars_of(voice);
        match outcome {
            GenerationOutcome::Produced { fallback } => {
                if !fallback {
                    self.generated = self.generated + 1;
                }
                if !eq_str(&v, "Google") && !fallback {
                    self.other_voice = self.other_voice + 1;
                }
            },
            GenerationOutcome::Failed => {
                self.failed = self.failed + 1;
            },
        }
    }

    /// The summary logged at the end of a cycle.
    pub fn status(&self) -> (r: String)
        ensures
            r@ == if self.failed > 0 {
                "Generated "@ + decimal(self.generated as nat) + " files ("@ + decimal(self.other_voice as nat)
                    + " FakeYou), "@ + decimal(self.failed as nat) + " failures"@
            } else {
                "Generated "@ + decimal(self.generated as nat) + " files successfully ("@ + decimal(
                    self.other_voice as nat,
                ) + " FakeYou)"@
            },
    {
        let mut v = chars_of("Generated ");
        let g = decimal_chars(self.generated as u64);
        append(&mut v, &g);
        let o = decimal_chars(self.other_voice as u64);
        if self.failed > 0 {
            append_str(&mut v, " files (");
            append(&mut v, &o);
            append_str(&mut v, " FakeYou), ");
            let f = decimal_chars(self.failed as u64);
            append(&mut v, &f);
            append_str(&mut v, " failures");
        } else {
            append_str(&mut v, " files successfully (");
            append(&mut v, &o);
            append_str(&mut v, " FakeYou)");
        }
        string_from_chars(v)
    }
}

/// Truncate long strings for logging: strings of at most `max_length` bytes
/// are kept, longer ones become their first `max_length` characters and `...`.
pub fn truncate_string(s: &str, max_length: usize) -> (r: String)
    ensures
        r@ == if s.len() <= max_length {
            s@
        } else {
            (if s@.len() > max_length { s@.take(max_length as int) } else { s@ }) + "..."@
        },
{
    let v = chars_of(s);
    if s.len() <= max_length {
        string_from_chars(v)
    } else {
        proof {
            reveal_strlit("...");
        }
        let t = truncate_chars(&v, max_length);
        if v.len() > max_length {
            assert(t@ =~= s@.take(max_length as int) + "..."@);
            string_from_chars(t)
        } else {
            let mut w = v;
            append_str(&mut w, "...");
            string_from_chars(w)
        }
    }
}

} // verus!
