//! The prover's private randomness.
//!
//! A tape is a transcript seeded with one random scalar; what is drawn from it
//! is a function of that scalar and of what was drawn before.
use crate::scalar::Scalar;
use crate::transcript::{
    append_scalar, challenge, challenge_scalar, challenge_vector, challenges, drawn, history,
    merlin_new, said, History,
};
use merlin::Transcript;
use vstd::prelude::*;
use vstd::string::StringSliceAdditionalSpecFns;

verus! {

/// A source of randomness for a prover.
pub struct RandomTape {
    tape: Transcript,
}

/// The history of a tape that was just made, with its seed.
pub open spec fn fresh_tape(name: &str, seed: Scalar) -> History {
    said(seq![(true, "dom-sep"@, name.spec_bytes())], "init_randomness"@, seed.encoding())
}

impl View for RandomTape {
    type V = History;

    closed spec fn view(&self) -> History {
        history(self.tape)
    }
}

impl RandomTape {
    /// Makes a tape, with a seed from the operating system.
    pub fn new(name: &'static str) -> (r: RandomTape)
        requires
            name.spec_bytes().len() <= u32::MAX,
        ensures
            exists|seed: Scalar| r@ == fresh_tape(name, seed),
    {
        let mut tape = merlin_new(name);
        let seed = Scalar::random();
        append_scalar(&mut tape, "init_randomness", &seed);
        let r = RandomTape { tape };
        assert(r@ == fresh_tape(name, seed));
        r
    }

    /// Draws a scalar.
    pub fn random_scalar(&mut self, label: &'static str) -> (r: Scalar)
        ensures
            r == challenge(old(self)@, label@),
            final(self)@ == drawn(old(self)@, label@),
    {
        challenge_scalar(&mut self.tape, label)
    }

    /// Draws `n` scalars.
    pub fn random_vector(&mut self, label: &'static str, n: usize) -> (r: Vec<Scalar>)
        ensures
            (r@, final(self)@) == challenges(old(self)@, label@, n as nat),
            r@.len() == n,
    {
        challenge_vector(&mut self.tape, label, n)
    }
}

} // verus!
