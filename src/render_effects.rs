//! Stateful render effects, such as particles, that run for a number of
//! ticks and then retire.
use vstd::prelude::*;

verus! {

pub trait RenderEffect {
    /// Given the current tick, draws the effect. Returns `true` once the
    /// effect is over; it is then dropped and never drawn again.
    fn tick_and_render(&mut self, tick: u32) -> bool;
}

/// The effects of `effects` whose flag in `done` is unset, in order.
pub open spec fn unfinished<E>(effects: Seq<E>, done: Seq<bool>) -> Seq<E>
    decreases effects.len(),
{
    if effects.len() == 0 {
        Seq::empty()
    } else {
        let rest = unfinished(effects.drop_last(), done.drop_last());
        if done.last() {
            rest
        } else {
            rest.push(effects.last())
        }
    }
}

/// Keeps the effects that are not over, in order: `done[i]` tells whether
/// `effects[i]` reported the end.
pub fn drop_finished<E>(effects: Vec<E>, done: &Vec<bool>) -> (r: Vec<E>)
    requires
        effects@.len() == done@.len(),
    ensures
        r@ == unfinished(effects@, done@),
{
    let ghost all = effects@;
    let mut effects = effects;
    let mut kept: Vec<E> = Vec::new();
    let n = done.len();
    let mut i: usize = 0;
    while effects.len() > 0
        invariant
            all.len() == done@.len(),
            n == done@.len(),
            i + effects@.len() == all.len(),
            effects@ == all.subrange(i as int, all.len() as int),
            kept@ == unfinished(all.subrange(0, i as int), done@.subrange(0, i as int)),
        decreases effects@.len(),
    {
        let e = effects.remove(0);
        proof {
            assert(all.subrange(0, i + 1).drop_last() =~= all.subrange(0, i as int));
            assert(done@.subrange(0, i + 1).drop_last() =~= done@.subrange(0, i as int));
        }
        if !done[i] {
            kept.push(e);
        }
        i = i + 1;
    }
    proof {
        assert(all.subrange(0, all.len() as int) =~= all);
        assert(done@.subrange(0, all.len() as int) =~= done@);
    }
    kept
}

/// The effects that are still running, in the order they were added.
pub struct RenderEffectManager<E> {
    pub effects: Vec<E>,
}

impl<E: RenderEffect> RenderEffectManager<E> {
    pub fn new() -> (r: Self)
        ensures
            r.effects@.len() == 0,
    {
        RenderEffectManager { effects: Vec::new() }
    }

    /// Draws every effect once for `tick`, in order, and drops those that
    /// report they are over. The ones left keep their order: they are the
    /// effects as drawn, less those whose draw reported the end.
    pub fn render_all(&mut self, tick: u32)
        ensures
            exists|drawn: Seq<E>, done: Seq<bool>|
                drawn.len() == old(self).effects@.len() && done.len() == old(self).effects@.len()
                    && final(self).effects@ == #[trigger] unfinished(drawn, done),
            final(self).effects@.len() <= old(self).effects@.len(),
    {
        let mut pending: Vec<E> = Vec::new();
        std::mem::swap(&mut pending, &mut self.effects);
        let ghost n = pending@.len();
        let mut drawn: Vec<E> = Vec::new();
        let mut done: Vec<bool> = Vec::new();
        while pending.len() > 0
            invariant
                drawn@.len() == done@.len(),
                drawn@.len() + pending@.len() == n,
            decreases pending@.len(),
        {
            let mut effect = pending.remove(0);
            let over = effect.tick_and_render(tick);
            drawn.push(effect);
            done.push(over);
        }
        let ghost drawn_view = drawn@;
        self.effects = drop_finished(drawn, &done);
        proof {
            lemma_unfinished_len(self.effects@, drawn_view, done@);
        }
    }

    pub fn add_effect(&mut self, effect: E)
        ensures
            final(self).effects@ == old(self).effects@.push(effect),
    {
        self.effects.push(effect);
    }
}

proof fn lemma_unfinished_len<E>(r: Seq<E>, effects: Seq<E>, done: Seq<bool>)
    requires
        r == unfinished(effects, done),
    ensures
        r.len() <= effects.len(),
    decreases effects.len(),
{
    if effects.len() > 0 {
        lemma_unfinished_len(
            unfinished(effects.drop_last(), done.drop_last()),
            effects.drop_last(),
            done.drop_last(),
        );
    }
}

} // verus!
