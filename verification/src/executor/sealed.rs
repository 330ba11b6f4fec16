//! The seal on the executor's stages.

use crate::executor::Finished;
use crate::executor::Running;
use vstd::prelude::*;

verus! {

/// A stage of the executor. The trait can be used as a bound anywhere, and
/// implemented nowhere else: the stages are the two of this crate.
pub trait CanUseCannotImplement {

}

impl<F> CanUseCannotImplement for Running<F> {

}

impl CanUseCannotImplement for Finished {

}

} // verus!
