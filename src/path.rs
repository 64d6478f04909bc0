//! The termination policy of a light path: when shading a ray stops, and with
//! what, whatever the scene and its materials do.

use vstd::prelude::*;

verus! {

/// What happened to a traced ray in the scene.
#[derive(Clone, Copy, Debug, PartialEq, Eq, Structural)]
pub enum Fate {
    /// It hit nothing: it sees the sky.
    Escaped,
    /// It hit a surface whose material absorbed it.
    Absorbed,
    /// It hit a surface whose material sent out a new, attenuated ray.
    Scattered,
}

/// Where the shading of a path stands.
#[derive(Clone, Copy, Debug, PartialEq, Eq, Structural)]
pub enum Step {
    /// The current ray is to be traced; `bounces_left` counts it and the ones
    /// that may follow.
    Trace { bounces_left: u32 },
    /// The path contributes black: it was absorbed or ran out of bounces.
    Black,
    /// The path ends in the sky: its last ray escaped.
    Sky,
}

/// The first step of a path that may take `depth` bounces.
pub open spec fn first_step(depth: u32) -> Step {
    if depth == 0 {
        Step::Black
    } else {
        Step::Trace { bounces_left: depth }
    }
}

/// The step that follows a traced ray with `bounces_left` bounces left, given its fate.
pub open spec fn step_after(bounces_left: u32, fate: Fate) -> Step {
    match fate {
        Fate::Escaped => Step::Sky,
        Fate::Absorbed => Step::Black,
        Fate::Scattered => if bounces_left <= 1 {
            Step::Black
        } else {
            Step::Trace { bounces_left: (bounces_left - 1) as u32 }
        },
    }
}

/// The step reached from `s` once the rays of the path have met `fates` in turn;
/// fates that come after the path has ended change nothing.
pub open spec fn follow(s: Step, fates: Seq<Fate>) -> Step
    decreases fates.len(),
{
    if fates.len() == 0 {
        s
    } else {
        match s {
            Step::Trace { bounces_left } => follow(step_after(bounces_left, fates[0]), fates.drop_first()),
            _ => s,
        }
    }
}

impl Step {
    /// How shading starts with a budget of `depth` bounces: with no budget the
    /// path is black at once, without looking at the scene.
    pub fn start(depth: u32) -> (r: Step)
        ensures
            r == first_step(depth),
    {
        if depth == 0 {
            Step::Black
        } else {
            Step::Trace { bounces_left: depth }
        }
    }

    /// The step after the current ray met `fate`: an escaped ray ends in the sky,
    /// an absorbed one in black, and a scattered one goes on with one bounce fewer,
    /// or ends in black when that was its last bounce.
    pub fn after(self, fate: Fate) -> (r: Step)
        requires
            self is Trace,
        ensures
            r == step_after(self->bounces_left, fate),
    {
        match self {
            Step::Trace { bounces_left } => match fate {
                Fate::Escaped => Step::Sky,
                Fate::Absorbed => Step::Black,
                Fate::Scattered => if bounces_left <= 1 {
                    Step::Black
                } else {
                    Step::Trace { bounces_left: bounces_left - 1 }
                },
            },
            _ => self,
        }
    }
}

/// A path that may take `depth` bounces has ended once its rays have met
/// `depth` fates, whatever they were: shading always terminates within the budget.
pub proof fn lemma_path_ends(depth: u32, fates: Seq<Fate>)
    requires
        fates.len() >= depth,
    ensures
        !(follow(first_step(depth), fates) is Trace),
    decreases depth,
{
    if depth > 0 {
        let rest = fates.drop_first();
        match fates[0] {
            Fate::Scattered => {
                if depth <= 1 {
                    lemma_ended_stays(Step::Black, rest);
                } else {
                    lemma_path_ends((depth - 1) as u32, rest);
                }
            },
            _ => {
                lemma_ended_stays(step_after(depth, fates[0]), rest);
            },
        }
    }
}

proof fn lemma_ended_stays(s: Step, fates: Seq<Fate>)
    requires
        !(s is Trace),
    ensures
        follow(s, fates) == s,
    decreases fates.len(),
{
}

} // verus!
