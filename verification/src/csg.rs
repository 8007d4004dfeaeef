//! The kinds of CSG edit that a chunk's density takes, numbered as the
//! mesh shader reads them.
use vstd::prelude::*;

verus! {

/// A CSG edit of the terrain's density.
#[derive(Debug, Clone, Copy, PartialEq, Eq, Hash, Structural)]
pub enum CSGOperateType {
    Round,
    Union,
    Difference,
    Intersection,
    SmoothUnion,
    SmoothDifference,
    SmoothIntersection,
}

impl CSGOperateType {
    /// The number of the edit: its place in the list above.
    pub open spec fn index_spec(self) -> u32 {
        match self {
            CSGOperateType::Round => 0,
            CSGOperateType::Union => 1,
            CSGOperateType::Difference => 2,
            CSGOperateType::Intersection => 3,
            CSGOperateType::SmoothUnion => 4,
            CSGOperateType::SmoothDifference => 5,
            CSGOperateType::SmoothIntersection => 6,
        }
    }

    /// The number of the edit.
    pub fn to_index(&self) -> (r: u32)
        ensures
            r == self.index_spec(),
    {
        match self {
            CSGOperateType::Round => 0,
            CSGOperateType::Union => 1,
            CSGOperateType::Difference => 2,
            CSGOperateType::Intersection => 3,
            CSGOperateType::SmoothUnion => 4,
            CSGOperateType::SmoothDifference => 5,
            CSGOperateType::SmoothIntersection => 6,
        }
    }
}

/// Distinct edits have distinct numbers.
pub proof fn lemma_index_injective(a: CSGOperateType, b: CSGOperateType)
    requires
        a.index_spec() == b.index_spec(),
    ensures
        a == b,
{
}

} // verus!
