//! The effect manager: owns the active top-level effects, drives them
//! once per frame, and evicts the finished ones.

use crate::effect::{children_paint, effect_advanced, effect_complete, Effect};
use crate::grid::{Grid, Region};
use vstd::prelude::*;

verus! {

/// Each effect of `pre` advanced by the same frame delta.
pub open spec fn all_advanced(pre: Seq<Effect>, delta: u32, post: Seq<Effect>) -> bool {
    &&& pre.len() == post.len()
    &&& forall|i: int|
        0 <= i < pre.len() ==> effect_advanced(pre[i], delta, #[trigger] post[i])
}

/// The effects of `s` that are not yet complete, in order.
pub open spec fn surviving(s: Seq<Effect>) -> Seq<Effect>
    decreases s,
{
    if s.len() == 0 {
        Seq::empty()
    } else if effect_complete(s.first()) {
        surviving(s.drop_first())
    } else {
        seq![s.first()] + surviving(s.drop_first())
    }
}

/// Every effect the eviction keeps is incomplete.
pub proof fn lemma_surviving_incomplete(s: Seq<Effect>, i: int)
    requires
        0 <= i < surviving(s).len(),
    ensures
        !effect_complete(surviving(s)[i]),
    decreases s,
{
    if s.len() > 0 {
        if effect_complete(s.first()) {
            lemma_surviving_incomplete(s.drop_first(), i);
        } else {
            if i == 0 {
                assert(surviving(s)[0] == s.first());
            } else {
                assert(surviving(s)[i] == surviving(s.drop_first())[i - 1]);
                lemma_surviving_incomplete(s.drop_first(), i - 1);
            }
        }
    }
}

/// Owns the set of active top-level effects, in insertion order.
pub struct EffectManager {
    /// The active effects; earlier entries were triggered earlier.
    pub effects: Vec<Effect>,
}

impl EffectManager {
    /// A manager with no active effects.
    pub fn new() -> (m: EffectManager)
        ensures
            m.effects@.len() == 0,
    {
        EffectManager { effects: Vec::new() }
    }

    /// Append a newly triggered effect to the active set.
    pub fn add_effect(&mut self, e: Effect)
        ensures
            final(self).effects@ == old(self).effects@.push(e),
    {
        self.effects.push(e);
    }

    /// One frame tick: advance every active effect by `delta`, paint
    /// each into `grid` in insertion order, then drop every effect that
    /// is now complete.  Returns (as ghost data) the advanced effects
    /// before eviction.
    #[verifier::loop_isolation(false)]
    pub fn process_effects(&mut self, delta: u32, grid: &mut Grid, region: Region) -> (mid: Ghost<
        Seq<Effect>,
    >)
        requires
            old(grid).wf(),
        ensures
            all_advanced(old(self).effects@, delta, mid@),
            final(grid).wf(),
            final(grid).width == old(grid).width,
            final(grid).height == old(grid).height,
            final(grid).cells@ == children_paint(
                mid@,
                old(grid).cells@,
                old(grid).width,
                region,
            ),
            final(self).effects@ == surviving(mid@),
    {
        let ghost pre = self.effects@;
        let ghost orig = grid.cells@;
        let w: u16 = grid.width;
        let mut i: usize = 0;
        while i < self.effects.len()
            invariant
                self.effects@.len() == pre.len(),
                i <= pre.len(),
                grid.wf(),
                grid.width == w,
                grid.height == old(grid).height,
                forall|j: int|
                    0 <= j < i ==> effect_advanced(pre[j], delta, #[trigger] self.effects@[j]),
                forall|j: int| i <= j < pre.len() ==> self.effects@[j] == pre[j],
                grid.cells@ == children_paint(self.effects@.take(i as int), orig, w, region),
            decreases pre.len() - i,
        {
            let ghost v0 = self.effects@;
            let e = &mut self.effects[i];
            e.advance(delta);
            proof {
                assert(self.effects@.take(i as int) =~= v0.take(i as int));
            }
            let e2 = &self.effects[i];
            e2.paint(grid, region);
            proof {
                let s = self.effects@;
                assert(s.take(i + 1).drop_last() =~= s.take(i as int));
                assert(s.take(i + 1).last() == s[i as int]);
            }
            i = i + 1;
        }
        let ghost mid = self.effects@;
        proof {
            assert(mid.take(mid.len() as int) =~= mid);
        }
        let mut kept: Vec<Effect> = Vec::new();
        proof {
            assert(kept@ + surviving(mid) =~= surviving(mid));
        }
        while self.effects.len() > 0
            invariant
                kept@ + surviving(self.effects@) == surviving(mid),
            decreases self.effects@.len(),
        {
            let e = self.effects.remove(0);
            let ghost before = kept@;
            let done = e.is_complete();
            if !done {
                kept.push(e);
            }
            proof {
                if !effect_complete(e) {
                    assert(kept@ =~= before + seq![e]);
                    assert(kept@ + surviving(self.effects@) =~= before + (seq![e] + surviving(
                        self.effects@,
                    )));
                }
            }
        }
        proof {
            assert(surviving(self.effects@) =~= Seq::<Effect>::empty());
            assert(kept@ =~= kept@ + surviving(self.effects@));
        }
        self.effects = kept;
        Ghost(mid)
    }
}

} // verus!
