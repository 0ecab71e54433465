//! Where the simulation gets its random choices from.
//!
//! Every choice is a draw: a number that the rules reduce to the range they
//! need. The draws of a run form a script, and the rules are functions of the
//! ocean and the script alone.
use rand::Rng;
use vstd::prelude::*;

verus! {

/// The draw at a place of a script. A script that has run out goes on with
/// zeros.
pub open spec fn draw_at(draws: Seq<u64>, at: nat) -> nat {
    if at < draws.len() {
        draws[at as int] as nat
    } else {
        0
    }
}

/// Two scripts hold the same draws at every place below `upto`.
pub open spec fn agree(a: Seq<u64>, b: Seq<u64>, upto: nat) -> bool {
    forall|i: nat| i < upto ==> draw_at(a, i) == draw_at(b, i)
}

/// Calls `rand::Rng::gen_range` on the thread's generator, `rand::thread_rng()`,
/// with the half-open range from `low` to `high`. The range must not be empty,
/// on which `gen_range` panics; the number that comes back lies in the range.
/// Nothing else is claimed of it: two calls may differ.
#[verifier::external_body]
pub(crate) fn random_in(low: u64, high: u64) -> (value: u64)
    requires
        low < high,
    ensures
        low <= value < high,
{
    rand::thread_rng().gen_range(low..high)
}

/// A source of draws: a script that is read front to back, or the thread's
/// random generator.
pub(crate) struct Dice<'a> {
    script: Option<&'a Vec<u64>>,
    next: usize,
    past: Ghost<Seq<u64>>,
}

impl<'a> Dice<'a> {
    pub(crate) closed spec fn wf(&self) -> bool {
        match self.script {
            Some(script) => self.next == if self.past@.len() < script.len() {
                self.past@.len()
            } else {
                script@.len()
            },
            None => true,
        }
    }

    /// The number of draws made so far.
    pub(crate) closed spec fn used(&self) -> nat {
        self.past@.len()
    }

    /// The script that the draws come from: the one given, or the draws that
    /// the generator has made so far.
    pub(crate) closed spec fn source(&self) -> Seq<u64> {
        match self.script {
            Some(script) => script@,
            None => self.past@,
        }
    }

    pub(crate) closed spec fn scripted(&self) -> bool {
        self.script is Some
    }

    /// Draws from the thread's random generator.
    pub(crate) fn live() -> (dice: Dice<'a>)
        ensures
            dice.wf(),
            dice.used() == 0,
            !dice.scripted(),
    {
        Dice { script: None, next: 0, past: Ghost(Seq::empty()) }
    }

    /// Draws that follow the given script.
    pub(crate) fn replay(script: &'a Vec<u64>) -> (dice: Dice<'a>)
        ensures
            dice.wf(),
            dice.used() == 0,
            dice.scripted(),
            dice.source() == script@,
    {
        Dice { script: Some(script), next: 0, past: Ghost(Seq::empty()) }
    }

    /// The next draw. One from the generator lies below `bound`; one from a
    /// script is whatever the script holds.
    pub(crate) fn roll(&mut self, bound: u64) -> (raw: u64)
        requires
            old(self).wf(),
            bound > 0,
        ensures
            final(self).wf(),
            final(self).used() == old(self).used() + 1,
            raw == draw_at(final(self).source(), old(self).used()),
            agree(old(self).source(), final(self).source(), old(self).used()),
            final(self).scripted() == old(self).scripted(),
            old(self).scripted() ==> final(self).source() == old(self).source(),
            !old(self).scripted() ==> raw < bound,
    {
        let raw = match self.script {
            Some(script) => {
                if self.next < script.len() {
                    let value = script[self.next];
                    self.next = self.next + 1;
                    value
                } else {
                    0
                }
            },
            None => random_in(0, bound),
        };
        proof {
            self.past@ = self.past@.push(raw);
        }
        raw
    }
}

} // verus!
