use vstd::prelude::*;

verus! {

/// The component that submits the initial pods: it needs the API server's
/// simulation id before the simulation starts.
pub struct Workload {
    api_sim_id: u64,
}

impl Workload {
    pub closed spec fn api_sim_id_spec(&self) -> u64 {
        self.api_sim_id
    }

    /// A workload that knows no API server yet (its id is the largest one).
    pub fn new() -> (r: Self)
        ensures
            r.api_sim_id_spec() == u64::MAX,
    {
        Workload { api_sim_id: u64::MAX }
    }

    pub fn presimulation_init(&mut self, api_sim_id: u64)
        ensures
            final(self).api_sim_id_spec() == api_sim_id,
    {
        self.api_sim_id = api_sim_id;
    }

    /// Whether the API server's id is known, as it must be when the
    /// simulation starts.
    pub fn presimulation_check(&self) -> (r: bool)
        ensures
            r == (self.api_sim_id_spec() != u64::MAX),
    {
        self.api_sim_id != u64::MAX
    }

    pub fn api_sim_id(&self) -> (r: u64)
        ensures
            r == self.api_sim_id_spec(),
    {
        self.api_sim_id
    }
}

} // verus!
