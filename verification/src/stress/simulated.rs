use vstd::prelude::*;

verus! {

/// The simulated backend: injects nothing, since the simulated stress models
/// act inside the workloads themselves. Every operation succeeds.
pub struct SimulatedBackend;

impl SimulatedBackend {
    pub fn new() -> (b: Self) {
        SimulatedBackend
    }

    /// The backend's name.
    pub fn name(&self) -> (s: &'static str)
        ensures
            s@ == "simulated"@,
    {
        "simulated"
    }
}

} // verus!
