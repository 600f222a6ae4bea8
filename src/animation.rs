use vstd::prelude::*;

verus! {

/// Number of animation clips that a player cycles through.
pub const ANIMATION_COUNT: usize = 24;

/// The clip a player is on, carried on the player itself; `None` until the
/// player is first seen.
#[derive(Clone, Copy, Debug, PartialEq, Eq, Structural)]
pub struct AnimationCycle {
    pub current: Option<usize>,
}

impl AnimationCycle {
    /// The clip index lies among `count` clips.
    pub open spec fn wf(&self, count: nat) -> bool {
        self.current matches Some(c) ==> c < count
    }

    /// A player not seen yet.
    pub fn new() -> (r: AnimationCycle)
        ensures
            r.current is None,
    {
        AnimationCycle { current: None }
    }

    /// One tick for a player among `count` clips. On first sight it starts
    /// clip 0; afterwards, once the player has finished or paused (`idle`),
    /// it moves to the next clip, wrapping around. The clip to play is
    /// returned; `None` means the player goes on as it is.
    pub fn advance(&mut self, idle: bool, count: usize) -> (r: Option<usize>)
        requires
            0 < count,
            old(self).wf(count as nat),
        ensures
            final(self).wf(count as nat),
            old(self).current is None ==> (r == Some(0usize) && final(self).current == r),
            old(self).current is Some && idle ==> r == Some(
                ((old(self).current.unwrap() + 1) % (count as int)) as usize,
            ) && final(self).current == r,
            old(self).current is Some && !idle ==> (r is None && *final(self) == *old(self)),
    {
        match self.current {
            None => {
                self.current = Some(0);
                Some(0)
            },
            Some(c) => {
                if idle {
                    let next = if c + 1 == count {
                        0
                    } else {
                        c + 1
                    };
                    proof {
                        if c + 1 == count {
                            vstd::arithmetic::div_mod::lemma_mod_self_0(count as int);
                        } else {
                            vstd::arithmetic::div_mod::lemma_small_mod((c + 1) as nat, count as nat);
                        }
                    }
                    self.current = Some(next);
                    Some(next)
                } else {
                    None
                }
            },
        }
    }
}

} // verus!
