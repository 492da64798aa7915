use vstd::prelude::*;

verus! {

/// Switch for the glow drawn over pressed keys.
#[derive(Clone, Copy, Debug)]
pub struct SimpleEffects {
    pub enabled: bool,
}

impl SimpleEffects {
    pub fn new() -> (r: SimpleEffects)
        ensures
            r.enabled,
    {
        SimpleEffects { enabled: true }
    }
}

} // verus!
