use vstd::prelude::*;

use crate::error::EngineError;

verus! {

pub type EngineResult<T> = Result<T, EngineError>;

} // verus!
