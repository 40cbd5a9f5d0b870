//! When a light path ends.
//!
//! A path is followed one ray at a time. For every ray the scene is asked for
//! the nearest hit; on a hit the material is asked to scatter, and the
//! scattered ray is followed one level deeper. Paths are cut at a fixed depth:
//! a hit at that depth is black and the material is not asked at all. The cut
//! is part of the picture and is never softened.

use vstd::prelude::*;
use crate::material::Scatter;

verus! {

/// Depth at which a path is cut.
pub const MAX_DEPTH: u32 = 50;

/// What to do with a ray once the scene has been asked for its nearest hit.
#[derive(Clone, Copy, Debug, PartialEq, Eq, Structural)]
pub enum Probe {
    /// Nothing was hit: the path ends in the background gradient.
    Background,
    /// Something was hit at the cut-off depth: the path ends in black.
    Black,
    /// Something was hit: ask its material to scatter.
    AskMaterial,
}

/// The step taken at `depth` after the hit test.
pub open spec fn probe_of(depth: u32, hit: bool) -> Probe {
    if !hit {
        Probe::Background
    } else if depth < MAX_DEPTH {
        Probe::AskMaterial
    } else {
        Probe::Black
    }
}

/// The depth at which a path goes on after a hit at `depth`, or `None` where
/// it ends in black: because the light was absorbed, or because the path has
/// reached the cut-off depth.
pub open spec fn bounce_of(depth: u32, outcome: Scatter) -> Option<u32> {
    if depth < MAX_DEPTH && !(outcome is Absorbed) {
        Some((depth + 1) as u32)
    } else {
        None
    }
}

/// Decides what follows the hit test of a ray at `depth`.
pub fn probe(depth: u32, hit: bool) -> (step: Probe)
    ensures
        step == probe_of(depth, hit),
{
    if !hit {
        Probe::Background
    } else if depth < MAX_DEPTH {
        Probe::AskMaterial
    } else {
        Probe::Black
    }
}

/// Decides whether a path that was hit at `depth` goes on, and at which depth.
pub fn bounce(depth: u32, outcome: Scatter) -> (next: Option<u32>)
    ensures
        next == bounce_of(depth, outcome),
        next matches Some(deeper) ==> deeper == depth + 1 && deeper <= MAX_DEPTH,
{
    if depth < MAX_DEPTH {
        match outcome {
            Scatter::Absorbed => None,
            _ => Some(depth + 1),
        }
    } else {
        None
    }
}

/// The depth reached by a path whose hits scattered as `outcomes` tells, one
/// entry per hit, or `None` where the path has ended in black on the way.
pub open spec fn follow(outcomes: Seq<Scatter>) -> Option<u32>
    decreases outcomes.len(),
{
    if outcomes.len() == 0 {
        Some(0u32)
    } else {
        match follow(outcomes.drop_last()) {
            Some(depth) => bounce_of(depth, outcomes.last()),
            None => None,
        }
    }
}

/// A path is alive after its hits exactly when none of them absorbed the light
/// and there were no more of them than the cut-off depth allows; its depth is
/// then the number of its hits. So no path scatters more than `MAX_DEPTH`
/// times.
pub proof fn lemma_path_is_cut(outcomes: Seq<Scatter>)
    ensures
        match follow(outcomes) {
            Some(depth) => {
                &&& depth == outcomes.len()
                &&& depth <= MAX_DEPTH
                &&& forall|k: int| 0 <= k < outcomes.len() ==> !(#[trigger] outcomes[k] is Absorbed)
            },
            None => {
                ||| outcomes.len() > MAX_DEPTH
                ||| exists|k: int| 0 <= k < outcomes.len() && #[trigger] outcomes[k] is Absorbed
            },
        },
    decreases outcomes.len(),
{
    if outcomes.len() > 0 {
        let front = outcomes.drop_last();
        lemma_path_is_cut(front);
        match follow(front) {
            Some(depth) => {
                if bounce_of(depth, outcomes.last()) is None {
                    if outcomes.last() is Absorbed {
                        assert(outcomes[outcomes.len() - 1] is Absorbed);
                    }
                } else {
                    assert forall|k: int| 0 <= k < outcomes.len() implies !(
                    #[trigger] outcomes[k] is Absorbed) by {
                        if k < front.len() {
                            assert(front[k] == outcomes[k]);
                        }
                    }
                }
            },
            None => {
                if front.len() <= MAX_DEPTH {
                    let k = choose|k: int| 0 <= k < front.len() && #[trigger] front[k] is Absorbed;
                    assert(outcomes[k] is Absorbed);
                }
            },
        }
    }
}

} // verus!
