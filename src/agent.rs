//! The species of agents, and which field steers the moves of each species.
use vstd::prelude::*;

verus! {

/// The two species of agents.
#[derive(Clone, Copy, Debug, PartialEq, Eq, Structural, Hash)]
pub enum AgentSpecies {
    Red,
    Blue,
}

impl AgentSpecies {
    /// Both species, red first.
    pub fn all() -> (r: Vec<AgentSpecies>)
        ensures
            r@ == seq![AgentSpecies::Red, AgentSpecies::Blue],
    {
        vec![AgentSpecies::Red, AgentSpecies::Blue]
    }

    /// The species that is not `self`.
    pub open spec fn spec_other(self) -> AgentSpecies {
        match self {
            AgentSpecies::Red => AgentSpecies::Blue,
            AgentSpecies::Blue => AgentSpecies::Red,
        }
    }

    /// The species that is not `self`.
    pub fn other(self) -> (r: AgentSpecies)
        ensures
            r == self.spec_other(),
    {
        match self {
            AgentSpecies::Red => AgentSpecies::Blue,
            AgentSpecies::Blue => AgentSpecies::Red,
        }
    }
}

/// Which species' weights steer the agents of a species.
#[derive(Clone, Copy, Debug, PartialEq, Eq, Structural)]
pub enum WeightPolicy {
    /// Agents are drawn by the weights of the other species (segregation).
    CrossSpecies,
    /// Agents are drawn by the weights of their own species.
    SameSpecies,
}

impl WeightPolicy {
    pub open spec fn spec_signal_species(self, s: AgentSpecies) -> AgentSpecies {
        match self {
            WeightPolicy::CrossSpecies => s.spec_other(),
            WeightPolicy::SameSpecies => s,
        }
    }

    /// The species whose neighbour weights decide where agents of species `s` go.
    pub fn signal_species(self, s: AgentSpecies) -> (r: AgentSpecies)
        ensures
            r == self.spec_signal_species(s),
    {
        match self {
            WeightPolicy::CrossSpecies => s.other(),
            WeightPolicy::SameSpecies => s,
        }
    }
}

/// An agent with a name, as placed by callers that track agents one by one.
#[derive(Clone, Debug, PartialEq, Eq, Hash)]
pub struct Agent {
    pub id: String,
    pub species: AgentSpecies,
}

impl Agent {
    pub fn new(id: String, species: AgentSpecies) -> (r: Agent)
        ensures
            r.id@ == id@,
            r.species == species,
    {
        Agent { id, species }
    }

    pub fn id(&self) -> (r: &String)
        ensures
            r@ == self.id@,
    {
        &self.id
    }
}

} // verus!
