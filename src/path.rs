use vstd::prelude::*;

verus! {

/// What the scene and the material of the nearest hit gave back for the current ray
/// of a path.
#[derive(Debug, Clone, Copy, PartialEq, Eq, Structural)]
pub enum Interaction {
    /// The ray hit nothing.
    Miss,
    /// The ray hit a surface whose material produced no outgoing ray (it emitted or
    /// absorbed); its attenuation is the last factor of the path.
    Absorbed,
    /// The ray hit a surface whose material scattered it; its attenuation multiplies
    /// the color carried back by the outgoing ray.
    Scattered,
}

/// What the estimator of a path does next.
#[derive(Debug, Clone, Copy, PartialEq, Eq, Structural)]
pub enum PathAction {
    /// Query the scene for the nearest hit of the current ray, beyond a small epsilon.
    Trace,
    /// Stop: the path ran out of bounces and carries black.
    Black,
    /// Stop: the path left the scene and carries the sky gradient of the ray's
    /// direction, times the attenuations gathered so far.
    Sky,
    /// Stop: the path ends on the surface and carries its attenuation, times the
    /// attenuations gathered so far.
    Surface,
}

/// The decisions of the recursive light-transport estimator: how many bounces a path
/// may still take, and what to do after each interaction. The arithmetic on colors is
/// left to the caller, who multiplies the attenuations of the scattering surfaces into
/// the color that the final action gives.
#[derive(Debug, Clone, Copy, PartialEq, Eq, Structural)]
pub struct PathTracer {
    remaining: u32,
}

impl PathTracer {
    /// Number of scene queries the path may still make.
    pub closed spec fn spec_remaining(&self) -> nat {
        self.remaining as nat
    }

    /// The action for a path with `remaining` bounces left: black once none is left,
    /// else a query of the scene.
    pub open spec fn action_for(remaining: nat) -> PathAction {
        if remaining == 0 {
            PathAction::Black
        } else {
            PathAction::Trace
        }
    }

    /// A path that may bounce `depth` times.
    pub fn new(depth: u32) -> (r: PathTracer)
        ensures
            r.spec_remaining() == depth,
    {
        PathTracer { remaining: depth }
    }

    /// Number of scene queries the path may still make.
    pub fn remaining(&self) -> (r: u32)
        ensures
            r == self.spec_remaining(),
    {
        self.remaining
    }

    /// The first action of the path: black, without any scene query, when the depth is
    /// zero; otherwise a query of the scene.
    pub fn begin(&self) -> (r: PathAction)
        ensures
            r == Self::action_for(self.spec_remaining()),
            self.spec_remaining() == 0 ==> r == PathAction::Black,
    {
        if self.remaining == 0 {
            PathAction::Black
        } else {
            PathAction::Trace
        }
    }

    /// Takes the outcome of a scene query and says what follows: the sky after a miss,
    /// the surface after an absorption, and after a scatter one bounce less, then black
    /// if none is left or another query.
    pub fn step(&mut self, event: Interaction) -> (r: PathAction)
        requires
            old(self).spec_remaining() > 0,
        ensures
            event == Interaction::Miss ==> r == PathAction::Sky && final(self).spec_remaining()
                == old(self).spec_remaining(),
            event == Interaction::Absorbed ==> r == PathAction::Surface
                && final(self).spec_remaining() == old(self).spec_remaining(),
            event == Interaction::Scattered ==> final(self).spec_remaining() == old(
                self,
            ).spec_remaining() - 1 && r == Self::action_for(final(self).spec_remaining()),
    {
        match event {
            Interaction::Miss => PathAction::Sky,
            Interaction::Absorbed => PathAction::Surface,
            Interaction::Scattered => {
                self.remaining = self.remaining - 1;
                self.begin()
            },
        }
    }
}

/// A path with no bounces left returns black, whatever the scene holds: its first
/// action is black and the scene is never queried.
pub proof fn lemma_zero_depth_is_black(depth: nat)
    requires
        depth == 0,
    ensures
        PathTracer::action_for(depth) == PathAction::Black,
{
}

/// Number of scene queries a path with `remaining` bounces makes when the queries
/// give `events` in turn, following `begin` and `step`: none once no bounce is left,
/// and after a miss or an absorption the path is over.
pub open spec fn query_count(remaining: nat, events: Seq<Interaction>) -> nat
    decreases events.len(),
{
    if remaining == 0 || events.len() == 0 {
        0
    } else if events[0] == Interaction::Scattered {
        1 + query_count((remaining - 1) as nat, events.drop_first())
    } else {
        1
    }
}

/// Recursion depth bounds the work of a path: whatever the scene gives back, a path
/// of depth `depth` queries the scene at most `depth` times.
pub proof fn lemma_queries_bounded_by_depth(depth: nat, events: Seq<Interaction>)
    ensures
        query_count(depth, events) <= depth,
    decreases events.len(),
{
    if depth > 0 && events.len() > 0 && events[0] == Interaction::Scattered {
        lemma_queries_bounded_by_depth((depth - 1) as nat, events.drop_first());
    }
}

} // verus!
