//! The transcript sponge over the field.
//!
//! The prover threads one sponge through the whole argument: it absorbs
//! every commitment in a fixed order and squeezes the challenges
//! `beta, gamma, alpha, zeta, v` between the rounds.  The permutation is a
//! simple mix — multiply the state by a parameter and add the absorbed
//! element; cube the state and shift it for a challenge — specified exactly,
//! so that the transcript is a function of the absorption sequence alone.

use vstd::prelude::*;

verus! {

use crate::field::{Fe, fadd, fmul};
use crate::srs::GAffine;

/// The constants a sponge is created with.
#[derive(Clone, Copy, Debug, PartialEq, Eq, Structural)]
pub struct SpongeParams {
    /// The starting state.
    pub init: Fe,
    /// The multiplier applied to the state on each absorption.
    pub mix: Fe,
    /// The shift applied to the state on each challenge.
    pub shift: Fe,
}

impl SpongeParams {
    /// All constants reduced.
    pub open spec fn wf(self) -> bool {
        self.init.ok() && self.mix.ok() && self.shift.ok()
    }
}

/// The state after absorbing one element.
pub open spec fn absorb_one(s: int, mix: int, g: int) -> int {
    fadd(fmul(s, mix), g)
}

/// The state after absorbing a sequence of group elements, left to right.
pub open spec fn absorb_seq(s: int, mix: int, gs: Seq<GAffine>) -> int
    decreases gs.len(),
{
    if gs.len() == 0 {
        s
    } else {
        absorb_seq(absorb_one(s, mix, gs[0].x.val()), mix, gs.subrange(1, gs.len() as int))
    }
}

/// The state after squeezing a challenge: the cube of the state, shifted.
pub open spec fn squeeze(s: int, shift: int) -> int {
    fadd(fmul(fmul(s, s), s), shift)
}

/// The transcript sponge: its current state and its constants.
#[derive(Clone, Copy, Debug, PartialEq, Eq, Structural)]
pub struct FqSponge {
    pub state: Fe,
    pub params: SpongeParams,
}

impl FqSponge {
    /// A fresh sponge in the starting state of its parameters.
    pub fn new(params: &SpongeParams) -> (r: FqSponge)
        requires
            params.wf(),
        ensures
            r.state == params.init,
            r.params == *params,
    {
        FqSponge { state: params.init, params: *params }
    }

    /// Well-formed: state and constants reduced.
    pub open spec fn wf(self) -> bool {
        self.state.ok() && self.params.wf()
    }

    /// Absorb a batch of group elements into the transcript, in order.
    pub fn absorb_g(&mut self, gs: &Vec<GAffine>)
        requires
            old(self).wf(),
            forall|i: int| 0 <= i < gs@.len() ==> #[trigger] gs@[i].x.ok(),
        ensures
            final(self).wf(),
            final(self).params == old(self).params,
            final(self).state.val() == absorb_seq(
                old(self).state.val(), old(self).params.mix.val(), gs@),
    {
        let mut i: usize = 0;
        proof {
            assert(gs@.subrange(0, gs@.len() as int) =~= gs@);
        }
        while i < gs.len()
            invariant
                i <= gs@.len(),
                self.wf(),
                self.params == old(self).params,
                forall|j: int| 0 <= j < gs@.len() ==> #[trigger] gs@[j].x.ok(),
                absorb_seq(self.state.val(), self.params.mix.val(),
                    gs@.subrange(i as int, gs@.len() as int))
                    == absorb_seq(old(self).state.val(), old(self).params.mix.val(), gs@),
            decreases gs@.len() - i,
        {
            let ghost pre = gs@.subrange(i as int, gs@.len() as int);
            self.state = self.state.mul(self.params.mix).add(gs[i].x);
            proof {
                assert(pre[0] == gs@[i as int]);
                assert(pre.subrange(1, pre.len() as int)
                    =~= gs@.subrange(i as int + 1, gs@.len() as int));
            }
            i += 1;
        }
        proof {
            assert(gs@.subrange(gs@.len() as int, gs@.len() as int)
                =~= Seq::<GAffine>::empty());
        }
    }

    /// Squeeze the next challenge out of the transcript.
    pub fn challenge(&mut self) -> (c: Fe)
        requires
            old(self).wf(),
        ensures
            final(self).wf(),
            final(self).params == old(self).params,
            final(self).state.val() == squeeze(
                old(self).state.val(), old(self).params.shift.val()),
            c == final(self).state,
    {
        let cube = self.state.mul(self.state).mul(self.state);
        self.state = cube.add(self.params.shift);
        self.state
    }
}

} // verus!
