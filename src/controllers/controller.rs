use vstd::prelude::*;

verus! {

/// Something that decides the actions of an entity.
pub trait Controller {
    /// Who is deciding.
    spec fn kind(&self) -> ControllerType;

    fn get_type(self) -> (r: ControllerType)
        ensures
            r == self.kind(),
    ;
}

#[derive(Clone, Copy, Debug, PartialEq, Eq, Structural)]
pub enum ControllerType {
    Player,
    Enemy,
}

} // verus!
