//! Which of the two roots of a sphere's quadratic counts as the hit.

use vstd::prelude::*;
use crate::param::Param;

verus! {

/// One of the two places where a ray's line meets a sphere.
#[derive(Clone, Copy, Debug, PartialEq, Eq, Structural)]
pub enum Root {
    /// The root with the square root subtracted.
    Near,
    /// The root with the square root added.
    Far,
}

/// What the quadratic of one ray against one sphere gave.
#[derive(Clone, Copy, Debug, PartialEq, Eq, Structural)]
pub struct Crossing {
    /// The discriminant is strictly positive.
    pub real: bool,
    /// Parameter of the near root.
    pub near: Param,
    /// Parameter of the far root.
    pub far: Param,
}

impl Crossing {
    /// The parameter of `root`.
    pub open spec fn param(self, root: Root) -> Param {
        match root {
            Root::Near => self.near,
            Root::Far => self.far,
        }
    }

    /// The near root does not lie beyond the far root.
    pub open spec fn ordered(self) -> bool {
        !self.far.lt(self.near)
    }

    /// The root taken as the hit inside the open interval from `t_min` to
    /// `t_max`: none without a positive discriminant; else the near root where
    /// it lies inside, else the far root where that one does.
    pub open spec fn accepted(self, t_min: Param, t_max: Param) -> Option<Root> {
        if self.real && self.near.within(t_min, t_max) {
            Some(Root::Near)
        } else if self.real && self.far.within(t_min, t_max) {
            Some(Root::Far)
        } else {
            None
        }
    }

    /// Reads the parameter of `root`.
    pub fn param_of(&self, root: Root) -> (t: Param)
        ensures
            t == self.param(root),
    {
        match root {
            Root::Near => self.near,
            Root::Far => self.far,
        }
    }

    /// Picks the root that counts as the hit inside the open interval from
    /// `t_min` to `t_max`, if there is one.
    pub fn hit(&self, t_min: Param, t_max: Param) -> (root: Option<Root>)
        ensures
            root == self.accepted(t_min, t_max),
    {
        let b1 = self.near.is_within(t_min, t_max);
        let b2 = self.far.is_within(t_min, t_max);
        if self.real && (b1 || b2) {
            if b1 {
                Some(Root::Near)
            } else {
                Some(Root::Far)
            }
        } else {
            None
        }
    }
}

} // verus!
