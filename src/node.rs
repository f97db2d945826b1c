//! One cell of the grid: how many agents of each species it holds, and how
//! many of them it sends through each neighbour slot in the current tick.
use std::collections::HashMap;

use vstd::prelude::*;
use crate::agent::AgentSpecies;
use crate::neighbour_data::{opposite, Neighbours, SLOTS};
use crate::prng::{cell_stream, spec_stream};
use crate::species::Species;

verus! {

broadcast use vstd::std_specs::hash::group_hash_axioms;

/// A cell: its index, the indices of its neighbours, the agents it holds and
/// the agents it sends out this tick, per species and per slot.
#[derive(Debug, Clone, Copy)]
pub struct Node {
    pub index: u32,
    pub neighbours: Neighbours,
    pub agents: Species<u32>,
    pub agents_out: Species<Neighbours>,
}

/// The value that `sp` holds for species `s`.
pub open spec fn of_species<T>(sp: Species<T>, s: AgentSpecies) -> T {
    match s {
        AgentSpecies::Red => sp.red,
        AgentSpecies::Blue => sp.blue,
    }
}

/// How many entries of `s` equal `k`.
pub open spec fn occurrences(s: Seq<u32>, k: int) -> nat
    decreases s.len(),
{
    if s.len() == 0 {
        0
    } else {
        occurrences(s.drop_last(), k) + if s.last() == k {
            1nat
        } else {
            0nat
        }
    }
}

/// A slot record with nothing sent anywhere.
pub open spec fn no_moves() -> Neighbours {
    Neighbours { top: 0, bottom: 0, left: 0, right: 0, size: SLOTS }
}

/// Every entry of `s` names a slot.
pub open spec fn all_slots(s: Seq<u32>) -> bool {
    forall|i: int| 0 <= i < s.len() ==> #[trigger] s[i] < SLOTS
}

/// The counts per slot of the slots listed in `s`.
pub open spec fn tallies(out: Neighbours, s: Seq<u32>) -> bool {
    forall|k: int| 0 <= k < 4 ==> #[trigger] out.slot(k) == occurrences(s, k)
}

/// The slot record of the moves listed in `s`.
pub open spec fn tally(s: Seq<u32>) -> Neighbours {
    Neighbours {
        top: occurrences(s, 0) as u32,
        bottom: occurrences(s, 2) as u32,
        left: occurrences(s, 3) as u32,
        right: occurrences(s, 1) as u32,
        size: SLOTS,
    }
}

/// The agents of species `s` that arrive at the cell whose neighbours are
/// `nb` through its slot `k`: what that neighbour sent through the opposite
/// slot.
pub open spec fn incoming(nodes: Seq<Node>, nb: Neighbours, s: AgentSpecies, k: int) -> int {
    of_species(nodes[nb.slot(k) as int].agents_out, s).slot(opposite(k)) as int
}

/// All agents of species `s` that arrive at the cell whose neighbours are `nb`.
pub open spec fn inflow(nodes: Seq<Node>, nb: Neighbours, s: AgentSpecies) -> int {
    incoming(nodes, nb, s, 0) + incoming(nodes, nb, s, 1) + incoming(nodes, nb, s, 2) + incoming(
        nodes,
        nb,
        s,
        3,
    )
}

/// No entry is counted more often than there are entries.
pub proof fn lemma_occurrences_bound(s: Seq<u32>, k: int)
    ensures
        occurrences(s, k) <= s.len(),
    decreases s.len(),
{
    if s.len() > 0 {
        lemma_occurrences_bound(s.drop_last(), k);
    }
}

/// When every entry names a slot, the counts of the four slots add up to the
/// number of entries.
pub proof fn lemma_occurrences_total(s: Seq<u32>)
    requires
        all_slots(s),
    ensures
        occurrences(s, 0) + occurrences(s, 1) + occurrences(s, 2) + occurrences(s, 3) == s.len(),
    decreases s.len(),
{
    if s.len() > 0 {
        let p = s.drop_last();
        assert(all_slots(p)) by {
            assert forall|i: int| 0 <= i < p.len() implies #[trigger] p[i] < SLOTS by {
                assert(p[i] == s[i]);
            }
        }
        lemma_occurrences_total(p);
        assert(s[s.len() - 1] < SLOTS);
    }
}

/// Counts the slots listed in `slots`.
pub fn count_slots(slots: &Vec<u32>) -> (r: Neighbours)
    requires
        slots.len() <= u32::MAX,
        all_slots(slots@),
    ensures
        r == tally(slots@),
        tallies(r, slots@),
        r.total() == slots.len(),
{
    let mut out = Neighbours::new(0, 0, 0, 0);
    let mut i: usize = 0;
    while i < slots.len()
        invariant
            slots.len() <= u32::MAX,
            all_slots(slots@),
            i <= slots.len(),
            out.size == SLOTS,
            tallies(out, slots@.subrange(0, i as int)),
        decreases slots.len() - i,
    {
        let k = slots[i];
        proof {
            let prefix = slots@.subrange(0, i as int);
            lemma_occurrences_bound(prefix, k as int);
            assert(slots@[i as int] < SLOTS);
        }
        out.add_agent_to_slot(k);
        proof {
            let prefix = slots@.subrange(0, i as int);
            let next = slots@.subrange(0, i as int + 1);
            assert(next.drop_last() =~= prefix);
            assert forall|j: int| 0 <= j < 4 implies #[trigger] out.slot(j) == occurrences(
                next,
                j,
            ) by {}
        }
        i = i + 1;
    }
    proof {
        assert(slots@.subrange(0, slots.len() as int) =~= slots@);
        lemma_occurrences_total(slots@);
        assert(out.slot(0) == occurrences(slots@, 0) && out.slot(1) == occurrences(slots@, 1));
        assert(out.slot(2) == occurrences(slots@, 2) && out.slot(3) == occurrences(slots@, 3));
        lemma_occurrences_bound(slots@, 0);
        lemma_occurrences_bound(slots@, 1);
        lemma_occurrences_bound(slots@, 2);
        lemma_occurrences_bound(slots@, 3);
    }
    out
}

impl Node {
    /// A cell with no agents, whose neighbours are those listed for `index`.
    pub fn new(index: u32, edges: &HashMap<u32, Neighbours>) -> (r: Node)
        requires
            edges@.contains_key(index),
        ensures
            r.index == index,
            r.neighbours == edges@[index],
            r.agents.red == 0 && r.agents.blue == 0,
            r.agents_out.red == no_moves(),
            r.agents_out.blue == no_moves(),
    {
        Node {
            index,
            neighbours: *edges.get(&index).unwrap(),
            agents: Species::new(0, 0),
            agents_out: Species::new(Neighbours::new(0, 0, 0, 0), Neighbours::new(0, 0, 0, 0)),
        }
    }

    /// The generator state of this cell's stream at tick `tick`.
    pub fn get_prng(&self, seed: u64, tick: u32) -> (r: (u64, u64))
        ensures
            r == spec_stream(seed, self.index, tick),
            r.1 % 2 == 1,
    {
        cell_stream(seed, self.index, tick)
    }

    /// Puts `amount` more agents of `species` on this cell.
    pub fn add_agents(&mut self, amount: u32, species: AgentSpecies)
        requires
            of_species(old(self).agents, species) + amount <= u32::MAX,
        ensures
            of_species(final(self).agents, species) == of_species(old(self).agents, species)
                + amount,
            of_species(final(self).agents, species.spec_other()) == of_species(
                old(self).agents,
                species.spec_other(),
            ),
            final(self).index == old(self).index,
            final(self).neighbours == old(self).neighbours,
            final(self).agents_out == old(self).agents_out,
    {
        match species {
            AgentSpecies::Red => self.agents.add_red(amount),
            AgentSpecies::Blue => self.agents.add_blue(amount),
        }
    }

    /// The number of agents of `species` on this cell.
    pub fn get_agents_with_species(&self, species: AgentSpecies) -> (r: u32)
        ensures
            r == of_species(self.agents, species),
    {
        match species {
            AgentSpecies::Red => self.agents.red,
            AgentSpecies::Blue => self.agents.blue,
        }
    }

    /// Records where the agents of this cell go: agent `a` of each species
    /// leaves through the slot listed at position `a`.
    pub fn move_agents_out(&mut self, red_slots: &Vec<u32>, blue_slots: &Vec<u32>)
        requires
            red_slots.len() == old(self).agents.red,
            blue_slots.len() == old(self).agents.blue,
            all_slots(red_slots@),
            all_slots(blue_slots@),
        ensures
            final(self).agents_out.red == tally(red_slots@),
            final(self).agents_out.blue == tally(blue_slots@),
            final(self).agents_out.red.total() == old(self).agents.red,
            final(self).agents_out.blue.total() == old(self).agents.blue,
            final(self).index == old(self).index,
            final(self).neighbours == old(self).neighbours,
            final(self).agents == old(self).agents,
    {
        let red_out = count_slots(red_slots);
        let blue_out = count_slots(blue_slots);
        self.agents_out = Species::new(red_out, blue_out);
    }

    /// Replaces the agents of this cell by those that its neighbours in
    /// `nodes` send to it.
    pub fn move_agents_in(&mut self, nodes: &Vec<Node>)
        requires
            forall|k: int| 0 <= k < 4 ==> #[trigger] old(self).neighbours.slot(k) < nodes.len(),
            inflow(nodes@, old(self).neighbours, AgentSpecies::Red) <= u32::MAX,
            inflow(nodes@, old(self).neighbours, AgentSpecies::Blue) <= u32::MAX,
        ensures
            final(self).agents.red == inflow(nodes@, old(self).neighbours, AgentSpecies::Red),
            final(self).agents.blue == inflow(nodes@, old(self).neighbours, AgentSpecies::Blue),
            final(self).index == old(self).index,
            final(self).neighbours == old(self).neighbours,
            final(self).agents_out == old(self).agents_out,
    {
        let nb = self.neighbours;
        assert(nb.slot(0) < nodes.len() && nb.slot(1) < nodes.len());
        assert(nb.slot(2) < nodes.len() && nb.slot(3) < nodes.len());
        let top = nodes[nb.top as usize].agents_out;
        let right = nodes[nb.right as usize].agents_out;
        let bottom = nodes[nb.bottom as usize].agents_out;
        let left = nodes[nb.left as usize].agents_out;
        let red: u64 = top.red.bottom as u64 + right.red.left as u64 + bottom.red.top as u64
            + left.red.right as u64;
        let blue: u64 = top.blue.bottom as u64 + right.blue.left as u64 + bottom.blue.top as u64
            + left.blue.right as u64;
        self.agents = Species::new(red as u32, blue as u32);
    }
}

} // verus!
