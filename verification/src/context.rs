//! Host-side staging for the drawing context.
//!
//! The native drawing context — shader programs, GPU buffers, draw calls —
//! is an outside collaborator and stays outside this crate.  What the
//! per-tick hand-off to it actually transfers is plain data: the valid
//! prefix of the engine's render buffer.  [`GLContext`] stands in for the
//! context on the host side and holds exactly that batch, so the hand-off
//! itself is verified: nothing beyond the alive count ever leaves the
//! engine.

use crate::engine::{ParticleEngine, RenderRecord};
use vstd::prelude::*;

verus! {

/// The host-side stand-in for the drawing context: the last uploaded
/// batch of render records.
pub struct GLContext {
    /// The records staged by the most recent upload.
    pub uploaded: Vec<RenderRecord>,
}

impl GLContext {
    /// An empty context: nothing uploaded yet.
    pub fn new() -> (c: GLContext)
        ensures
            c.uploaded@.len() == 0,
    {
        GLContext { uploaded: Vec::new() }
    }

    /// Stages the valid prefix of the engine's render buffer, replacing
    /// the previous batch: exactly the entries below the alive count are
    /// transferred, in order, and the scratch area beyond it never leaves
    /// the engine.
    pub fn upload(&mut self, engine: &ParticleEngine)
        requires
            engine.wf(),
        ensures
            final(self).uploaded@ == engine.render@.subrange(0, engine.alive_count as int),
    {
        self.uploaded.clear();
        let n: usize = engine.alive_count;
        let mut i: usize = 0;
        while i < n
            invariant
                0 <= i <= n,
                n == engine.alive_count,
                engine.wf(),
                self.uploaded@ == engine.render@.subrange(0, i as int),
            decreases n - i,
        {
            self.uploaded.push(engine.render[i]);
            proof {
                assert(engine.render@.subrange(0, i as int + 1) =~= engine.render@.subrange(
                    0,
                    i as int,
                ).push(engine.render@[i as int]));
            }
            i = i + 1;
        }
    }
}

} // verus!
