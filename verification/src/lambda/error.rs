//! The ways in which a collision of two particles can fail.

use vstd::prelude::*;

verus! {

/// Why a collision of two particles yields nothing.
#[derive(Debug, Clone, Copy, PartialEq, Eq, Structural)]
pub enum LambdaCollisionError {
    /// The reduction was still going on when it had used up its steps.
    ExceedsReductionLimit,
    /// The population holds fewer than two particles.
    NotEnoughExpressions,
    /// The result is the identity function, and those are discarded.
    IsIdentity,
    /// The result is one of the two particles that collided, and copies are
    /// discarded.
    IsParent,
    /// The result refers to a variable that nothing binds, and such results
    /// are discarded.
    HasFreeVariables,
    /// A term grew larger than the size limit while it was reduced, or so
    /// large that a further step would not fit in a machine word.
    ExceedsDepthLimit,
    /// An argument has the shape of a truth value, or does not use all of its
    /// own arguments.
    BadArgument,
}

impl LambdaCollisionError {
    /// What the error says in words.
    pub open spec fn description(self) -> Seq<char> {
        match self {
            LambdaCollisionError::IsIdentity => "collision result is identity function"@,
            LambdaCollisionError::IsParent => "collision result is isomorphic to parent"@,
            LambdaCollisionError::ExceedsReductionLimit => "collision exceeds reduction limit"@,
            LambdaCollisionError::NotEnoughExpressions => "not enough expressions for further reactions"@,
            LambdaCollisionError::HasFreeVariables => "collision result has free variables"@,
            LambdaCollisionError::ExceedsDepthLimit => "expression exceeds depth limit during reduction"@,
            LambdaCollisionError::BadArgument => "argument is truth-like or doesn't use all of own arguments"@,
        }
    }

    /// What the error says in words.
    pub fn message(&self) -> (text: &'static str)
        ensures
            text@ == self.description(),
    {
        match self {
            LambdaCollisionError::IsIdentity => "collision result is identity function",
            LambdaCollisionError::IsParent => "collision result is isomorphic to parent",
            LambdaCollisionError::ExceedsReductionLimit => "collision exceeds reduction limit",
            LambdaCollisionError::NotEnoughExpressions => "not enough expressions for further reactions",
            LambdaCollisionError::HasFreeVariables => "collision result has free variables",
            LambdaCollisionError::ExceedsDepthLimit => "expression exceeds depth limit during reduction",
            LambdaCollisionError::BadArgument => "argument is truth-like or doesn't use all of own arguments",
        }
    }
}

} // verus!
