use vstd::prelude::*;

use crate::actions::error::ActionError;

verus! {

pub type ActionResult<T> = Result<T, ActionError>;

} // verus!
