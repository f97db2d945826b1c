//! The grid engine: the cells of a wrapping square grid, the tick counter,
//! and the tick that moves agents between neighbouring cells.
use std::collections::HashMap;

use vstd::prelude::*;
use crate::agent::AgentSpecies;
use crate::neighbour_data::{Neighbours, SLOTS};
use crate::node::{
    all_slots, inflow, lemma_occurrences_bound, lemma_occurrences_total, no_moves, of_species, tally,
    Node,
};
use crate::prng::{draw_in_range, draw_many, draws, lemma_draws_len, pcg_seeded, seeded, spec_stream};
use crate::species::Species;
use crate::sums::{
    lemma_sum_add, lemma_sum_bounds_term, lemma_sum_bump, lemma_sum_ext, lemma_sum_zero, sum,
};
use crate::topology::{
    is_topology, lemma_neighbour_in_grid, lemma_sum_through_slot, neighbour, topology_2d, valid_size,
};

verus! {

broadcast use vstd::std_specs::hash::group_hash_axioms;

/// The seed of a universe built with `Universe2D::new`.
pub const DEFAULT_SEED: u64 = 100;

/// Why a universe could not be built.
#[derive(Debug, Clone, Copy, PartialEq, Eq, Structural)]
pub enum UniverseError {
    /// The grid has side zero.
    ZeroSize,
    /// The grid has more cells than a `u32` can count.
    TooLarge,
}

/// The agents of species `s` over all of `nodes`.
pub open spec fn total(nodes: Seq<Node>, s: AgentSpecies) -> int {
    sum(nodes.len() as int, |i: int| of_species(nodes[i].agents, s) as int)
}

/// `nodes` are the cells of a grid of side `size`, in index order, each with
/// its own neighbour list.
pub open spec fn grid_shaped(size: int, nodes: Seq<Node>) -> bool {
    &&& nodes.len() == size * size
    &&& forall|i: int| 0 <= i < nodes.len() ==> (#[trigger] nodes[i]).index == i
    &&& forall|i: int| 0 <= i < nodes.len() ==> (#[trigger] nodes[i]).neighbours.size == SLOTS
    &&& forall|i: int, k: int|
        0 <= i < nodes.len() && 0 <= k < 4 ==> #[trigger] nodes[i].neighbours.slot(k) == neighbour(
            size,
            i,
            k,
        )
}

/// How many entries of `s` at a position of parity `parity` equal `i`: agent
/// `p` is red when `p` is even and blue when it is odd.
pub open spec fn placed(s: Seq<u32>, i: int, parity: int) -> nat
    decreases s.len(),
{
    if s.len() == 0 {
        0
    } else {
        placed(s.drop_last(), i, parity) + if s.last() == i && (s.len() - 1) % 2 == parity {
            1nat
        } else {
            0nat
        }
    }
}

/// The cells that agent `p` is placed on, for `2 * agents` agents on a grid of
/// `cells` cells, drawn from the generator seeded with `seed`.
pub open spec fn placements(seed: u64, agents: nat, cells: u32) -> Seq<u32> {
    draws(pcg_seeded(seed), 2 * agents, cells).0
}

/// The slot through which each agent of one cell leaves, per species: the
/// agent at position `a` of `red` leaves through slot `red[a]`.
#[derive(Debug, Clone)]
pub struct AgentMoves {
    pub red: Vec<u32>,
    pub blue: Vec<u32>,
}

impl AgentMoves {
    pub fn new(red: Vec<u32>, blue: Vec<u32>) -> (r: AgentMoves)
        ensures
            r.red@ == red@,
            r.blue@ == blue@,
    {
        AgentMoves { red, blue }
    }
}

/// Why a tick was refused.
#[derive(Debug, Clone, Copy, PartialEq, Eq, Structural)]
pub enum TickError {
    /// The moves do not list one slot below four for each agent of each cell.
    MovesMismatch,
}

/// `m` lists one slot for each agent of `node`, per species.
pub open spec fn moves_fit(node: Node, m: AgentMoves) -> bool {
    &&& m.red@.len() == node.agents.red
    &&& m.blue@.len() == node.agents.blue
    &&& all_slots(m.red@)
    &&& all_slots(m.blue@)
}

/// `moves` holds, for each cell of `nodes`, the moves of all its agents.
pub open spec fn valid_moves(nodes: Seq<Node>, moves: Seq<AgentMoves>) -> bool {
    &&& moves.len() == nodes.len()
    &&& forall|j: int| 0 <= j < nodes.len() ==> moves_fit(#[trigger] nodes[j], moves[j])
}

/// The cells once every cell has recorded where its agents go.
pub open spec fn outflow_phase(nodes: Seq<Node>, moves: Seq<AgentMoves>) -> Seq<Node> {
    Seq::new(
        nodes.len(),
        |j: int|
            Node {
                index: nodes[j].index,
                neighbours: nodes[j].neighbours,
                agents: nodes[j].agents,
                agents_out: Species { red: tally(moves[j].red@), blue: tally(moves[j].blue@) },
            },
    )
}

/// The cells once every cell holds exactly the agents its neighbours sent it.
pub open spec fn inflow_phase(nodes: Seq<Node>) -> Seq<Node> {
    Seq::new(
        nodes.len(),
        |i: int|
            Node {
                index: nodes[i].index,
                neighbours: nodes[i].neighbours,
                agents: Species {
                    red: inflow(nodes, nodes[i].neighbours, AgentSpecies::Red) as u32,
                    blue: inflow(nodes, nodes[i].neighbours, AgentSpecies::Blue) as u32,
                },
                agents_out: nodes[i].agents_out,
            },
    )
}

/// The cells after one tick with the given moves.
pub open spec fn spec_tick(nodes: Seq<Node>, moves: Seq<AgentMoves>) -> Seq<Node> {
    inflow_phase(outflow_phase(nodes, moves))
}

/// What each cell sends out of species `s`, summed over the grid, is what
/// arrives, summed over the grid.
pub proof fn lemma_inflow_sum(size: int, nodes: Seq<Node>, s: AgentSpecies)
    requires
        valid_size(size),
        grid_shaped(size, nodes),
    ensures
        sum(nodes.len() as int, |i: int| inflow(nodes, nodes[i].neighbours, s)) == sum(
            nodes.len() as int,
            |j: int| of_species(nodes[j].agents_out, s).total(),
        ),
{
    let n = nodes.len() as int;
    let g0 = |j: int| of_species(nodes[j].agents_out, s).slot(2) as int;
    let g1 = |j: int| of_species(nodes[j].agents_out, s).slot(3) as int;
    let g2 = |j: int| of_species(nodes[j].agents_out, s).slot(0) as int;
    let g3 = |j: int| of_species(nodes[j].agents_out, s).slot(1) as int;
    let h0 = |i: int| g0(neighbour(size, i, 0));
    let h1 = |i: int| g1(neighbour(size, i, 1));
    let h2 = |i: int| g2(neighbour(size, i, 2));
    let h3 = |i: int| g3(neighbour(size, i, 3));
    let a = |i: int| h0(i) + h1(i);
    let b = |i: int| h2(i) + h3(i);
    let ab = |i: int| a(i) + b(i);
    assert forall|i: int| 0 <= i < n implies #[trigger] inflow(nodes, nodes[i].neighbours, s) == ab(
        i,
    ) by {
        assert(nodes[i].neighbours.slot(0) == neighbour(size, i, 0));
        assert(nodes[i].neighbours.slot(1) == neighbour(size, i, 1));
        assert(nodes[i].neighbours.slot(2) == neighbour(size, i, 2));
        assert(nodes[i].neighbours.slot(3) == neighbour(size, i, 3));
    }
    lemma_sum_ext(n, |i: int| inflow(nodes, nodes[i].neighbours, s), ab);
    lemma_sum_add(n, a, b);
    lemma_sum_add(n, h0, h1);
    lemma_sum_add(n, h2, h3);
    lemma_sum_through_slot(size, g0, 0);
    lemma_sum_through_slot(size, g1, 1);
    lemma_sum_through_slot(size, g2, 2);
    lemma_sum_through_slot(size, g3, 3);
    let c = |j: int| g0(j) + g1(j);
    let d = |j: int| g2(j) + g3(j);
    lemma_sum_add(n, g0, g1);
    lemma_sum_add(n, g2, g3);
    lemma_sum_add(n, c, d);
    lemma_sum_ext(
        n,
        |j: int| c(j) + d(j),
        |j: int| of_species(nodes[j].agents_out, s).total(),
    );
}

/// Conservation: a tick neither creates nor destroys agents. Whatever valid
/// moves are chosen, each species counts as many agents over the grid after
/// the tick as before it.
pub proof fn lemma_tick_conserves(
    size: int,
    nodes: Seq<Node>,
    moves: Seq<AgentMoves>,
    s: AgentSpecies,
)
    requires
        valid_size(size),
        grid_shaped(size, nodes),
        valid_moves(nodes, moves),
        total(nodes, s) <= u32::MAX,
    ensures
        total(spec_tick(nodes, moves), s) == total(nodes, s),
        grid_shaped(size, spec_tick(nodes, moves)),
        forall|i: int|
            0 <= i < nodes.len() ==> inflow(
                outflow_phase(nodes, moves),
                nodes[i].neighbours,
                s,
            ) <= total(nodes, s),
{
    let out = outflow_phase(nodes, moves);
    let after = spec_tick(nodes, moves);
    let n = nodes.len() as int;
    assert(grid_shaped(size, out));
    lemma_inflow_sum(size, out, s);
    let sent = |j: int| of_species(out[j].agents_out, s).total();
    let here = |j: int| of_species(nodes[j].agents, s) as int;
    assert forall|j: int| 0 <= j < n implies #[trigger] sent(j) == here(j) by {
        assert(moves_fit(nodes[j], moves[j]));
        lemma_occurrences_total(moves[j].red@);
        lemma_occurrences_total(moves[j].blue@);
        lemma_occurrences_bound(moves[j].red@, 0);
        lemma_occurrences_bound(moves[j].red@, 1);
        lemma_occurrences_bound(moves[j].red@, 2);
        lemma_occurrences_bound(moves[j].red@, 3);
        lemma_occurrences_bound(moves[j].blue@, 0);
        lemma_occurrences_bound(moves[j].blue@, 1);
        lemma_occurrences_bound(moves[j].blue@, 2);
        lemma_occurrences_bound(moves[j].blue@, 3);
    }
    lemma_sum_ext(n, sent, here);
    let arriving = |i: int| inflow(out, out[i].neighbours, s);
    assert forall|i: int| 0 <= i < n implies #[trigger] arriving(i) >= 0 by {}
    assert forall|i: int| 0 <= i < n implies #[trigger] arriving(i) <= total(nodes, s) by {
        lemma_sum_bounds_term(n, arriving, i);
    }
    let kept = |i: int| of_species(after[i].agents, s) as int;
    assert forall|i: int| 0 <= i < n implies #[trigger] kept(i) == arriving(i) by {
        assert(arriving(i) <= total(nodes, s));
    }
    lemma_sum_ext(n, kept, arriving);
    assert forall|i: int| 0 <= i < n implies #[trigger] inflow(out, nodes[i].neighbours, s) <= total(
        nodes,
        s,
    ) by {
        assert(arriving(i) <= total(nodes, s));
    }
}

/// A square grid whose edges wrap around, with agents of two species.
pub struct Universe2D {
    size: u32,
    nodes: Vec<Node>,
    iteration: u32,
    seed: u64,
    population: u32,
}

impl Universe2D {
    pub closed spec fn spec_size(&self) -> int {
        self.size as int
    }

    pub closed spec fn spec_nodes(&self) -> Seq<Node> {
        self.nodes@
    }

    pub closed spec fn spec_iteration(&self) -> u32 {
        self.iteration
    }

    pub closed spec fn spec_seed(&self) -> u64 {
        self.seed
    }

    /// The number of agents of each species.
    pub closed spec fn spec_population(&self) -> u32 {
        self.population
    }

    /// The grid is well formed, and each species counts `spec_population`
    /// agents over all cells.
    pub open spec fn wf(&self) -> bool {
        &&& valid_size(self.spec_size())
        &&& grid_shaped(self.spec_size(), self.spec_nodes())
        &&& total(self.spec_nodes(), AgentSpecies::Red) == self.spec_population()
        &&& total(self.spec_nodes(), AgentSpecies::Blue) == self.spec_population()
    }

    /// A grid of side `size` with `agent_size` agents of each species, placed
    /// by the generator seeded with `DEFAULT_SEED`.
    pub fn new(size: u32, agent_size: u32) -> (r: Result<Universe2D, UniverseError>)
        ensures
            size == 0 ==> r == Err::<Universe2D, UniverseError>(UniverseError::ZeroSize),
            size > 0 && size * size > u32::MAX ==> r == Err::<Universe2D, UniverseError>(
                UniverseError::TooLarge,
            ),
            valid_size(size as int) ==> r is Ok && Self::seeded_as(
                r->Ok_0,
                size,
                agent_size,
                DEFAULT_SEED,
            ),
    {
        Self::with_seed(size, agent_size, DEFAULT_SEED)
    }

    /// What a universe built from these arguments holds: agent `p` (red when
    /// `p` is even, blue when odd) sits on cell `placements(seed, agent_size,
    /// size * size)[p]`, no move is recorded yet and no tick has run.
    pub open spec fn seeded_as(u: Universe2D, size: u32, agent_size: u32, seed: u64) -> bool {
        let s = placements(seed, agent_size as nat, (size * size) as u32);
        &&& u.wf()
        &&& u.spec_size() == size
        &&& u.spec_iteration() == 0
        &&& u.spec_seed() == seed
        &&& u.spec_population() == agent_size
        &&& forall|i: int|
            0 <= i < size * size ==> {
                &&& (#[trigger] u.spec_nodes()[i]).agents.red == placed(s, i, 0)
                &&& u.spec_nodes()[i].agents.blue == placed(s, i, 1)
                &&& u.spec_nodes()[i].agents_out.red == no_moves()
                &&& u.spec_nodes()[i].agents_out.blue == no_moves()
            }
    }

    /// A grid of side `size` with `agent_size` agents of each species, placed
    /// by the generator seeded with `seed`.
    pub fn with_seed(size: u32, agent_size: u32, seed: u64) -> (r: Result<Universe2D, UniverseError>)
        ensures
            size == 0 ==> r == Err::<Universe2D, UniverseError>(UniverseError::ZeroSize),
            size > 0 && size * size > u32::MAX ==> r == Err::<Universe2D, UniverseError>(
                UniverseError::TooLarge,
            ),
            valid_size(size as int) ==> r is Ok && Self::seeded_as(r->Ok_0, size, agent_size, seed),
    {
        if size == 0 {
            return Err(UniverseError::ZeroSize);
        }
        assert(size as u64 * size as u64 <= u64::MAX) by (nonlinear_arith)
            requires
                size <= u32::MAX,
        ;
        if size as u64 * size as u64 > u32::MAX as u64 {
            return Err(UniverseError::TooLarge);
        }
        let n: u32 = size * size;
        assert(0 < n) by (nonlinear_arith)
            requires
                0 < size,
                n == size * size,
        ;
        let edges = topology_2d(size);
        let mut lists: HashMap<u32, Neighbours> = HashMap::new();
        let mut i: u32 = 0;
        while i < n
            invariant
                n == size * size,
                edges@.len() == n,
                i <= n,
                forall|j: u32| j < i ==> #[trigger] lists@.contains_key(j) && lists@[j] == edges@[j as int],
            decreases n - i,
        {
            lists.insert(i, edges[i as usize]);
            i = i + 1;
        }
        let mut nodes: Vec<Node> = Vec::new();
        let mut i: u32 = 0;
        while i < n
            invariant
                n == size * size,
                edges@.len() == n,
                forall|j: u32| j < n ==> #[trigger] lists@.contains_key(j) && lists@[j] == edges@[j as int],
                i <= n,
                nodes.len() == i,
                forall|j: int|
                    0 <= j < i ==> {
                        &&& (#[trigger] nodes@[j]).index == j
                        &&& nodes@[j].neighbours == edges@[j]
                        &&& nodes@[j].agents.red == 0
                        &&& nodes@[j].agents.blue == 0
                        &&& nodes@[j].agents_out.red == no_moves()
                        &&& nodes@[j].agents_out.blue == no_moves()
                    },
            decreases n - i,
        {
            assert(lists@.contains_key(i) && lists@[i] == edges@[i as int]);
            nodes.push(Node::new(i, &lists));
            i = i + 1;
        }
        let ghost st0 = pcg_seeded(seed);
        let mut st = seeded(seed);
        let count: u64 = 2 * agent_size as u64;
        let mut id: u64 = 0;
        proof {
            lemma_sum_zero(n as int, |j: int| of_species(nodes@[j].agents, AgentSpecies::Red) as int);
            lemma_sum_zero(n as int, |j: int| of_species(nodes@[j].agents, AgentSpecies::Blue) as int);
            lemma_draws_len(st0, 0, n);
        }
        while id < count
            invariant
                n == size * size,
                0 < n,
                edges@.len() == n,
                is_topology(size as int, edges@),
                count == 2 * agent_size,
                id <= count,
                nodes.len() == n,
                st == draws(st0, id as nat, n).1,
                st.1 % 2 == 1,
                draws(st0, id as nat, n).0.len() == id,
                forall|j: int|
                    0 <= j < n ==> {
                        &&& (#[trigger] nodes@[j]).index == j
                        &&& nodes@[j].neighbours == edges@[j]
                        &&& nodes@[j].agents.red == placed(draws(st0, id as nat, n).0, j, 0)
                        &&& nodes@[j].agents.blue == placed(draws(st0, id as nat, n).0, j, 1)
                        &&& nodes@[j].agents_out.red == no_moves()
                        &&& nodes@[j].agents_out.blue == no_moves()
                    },
                total(nodes@, AgentSpecies::Red) == (id + 1) / 2,
                total(nodes@, AgentSpecies::Blue) == id / 2,
            decreases count - id,
        {
            let ghost before = nodes@;
            let ghost prefix = draws(st0, id as nat, n).0;
            let (v, next) = draw_in_range(st, 0, n);
            let species = if id % 2 == 0 {
                AgentSpecies::Red
            } else {
                AgentSpecies::Blue
            };
            let mut nd = nodes[v as usize];
            proof {
                let f = |j: int| of_species(before[j].agents, species) as int;
                assert forall|j: int| 0 <= j < n implies #[trigger] f(j) >= 0 by {}
                lemma_sum_bounds_term(n as int, f, v as int);
            }
            nd.add_agents(1, species);
            nodes.set(v as usize, nd);
            st = next;
            proof {
                let after = nodes@;
                let grown = draws(st0, (id + 1) as nat, n).0;
                assert(grown == prefix.push(v));
                assert(grown.drop_last() =~= prefix);
                lemma_draws_len(st0, (id + 1) as nat, n);
                let other = species.spec_other();
                let f = |j: int| of_species(before[j].agents, species) as int;
                let g = |j: int| of_species(after[j].agents, species) as int;
                let fo = |j: int| of_species(before[j].agents, other) as int;
                let go = |j: int| of_species(after[j].agents, other) as int;
                assert forall|j: int| 0 <= j < n && j != v implies #[trigger] g(j) == f(j) by {}
                lemma_sum_bump(n as int, f, g, v as int, 1);
                assert forall|j: int| 0 <= j < n implies #[trigger] fo(j) == go(j) by {}
                lemma_sum_ext(n as int, fo, go);
            }
            id = id + 1;
        }
        let ghost s = draws(st0, count as nat, n).0;
        assert(s == placements(seed, agent_size as nat, n));
        let u = Universe2D { size, nodes, iteration: 0, seed, population: agent_size };
        assert(grid_shaped(size as int, u.nodes@)) by {
            assert forall|j: int, k: int| 0 <= j < n && 0 <= k < 4 implies #[trigger] u.nodes@[j].neighbours.slot(k)
                == neighbour(size as int, j, k) by {
                assert(u.nodes@[j].neighbours == edges@[j]);
            }
        }
        Ok(u)
    }
}

impl Universe2D {
    /// Whether `moves` lists one slot below four for each agent of each cell.
    pub fn moves_match(&self, moves: &Vec<AgentMoves>) -> (r: bool)
        ensures
            r == valid_moves(self.spec_nodes(), moves@),
    {
        if moves.len() != self.nodes.len() {
            return false;
        }
        let mut j: usize = 0;
        while j < self.nodes.len()
            invariant
                moves.len() == self.nodes.len(),
                j <= self.nodes.len(),
                forall|k: int| 0 <= k < j ==> moves_fit(#[trigger] self.nodes@[k], moves@[k]),
            decreases self.nodes.len() - j,
        {
            let m = &moves[j];
            let nd = &self.nodes[j];
            if m.red.len() != nd.agents.red as usize || m.blue.len() != nd.agents.blue as usize {
                return false;
            }
            let mut a: usize = 0;
            while a < m.red.len()
                invariant
                    j < self.nodes.len(),
                    moves.len() == self.nodes.len(),
                    *m == moves@[j as int],
                    a <= m.red.len(),
                    forall|b: int| 0 <= b < a ==> #[trigger] m.red@[b] < SLOTS,
                decreases m.red.len() - a,
            {
                if m.red[a] >= SLOTS {
                    assert(!all_slots(m.red@));
                    assert(!moves_fit(self.nodes@[j as int], moves@[j as int]));
                    return false;
                }
                a = a + 1;
            }
            let mut a: usize = 0;
            while a < m.blue.len()
                invariant
                    j < self.nodes.len(),
                    moves.len() == self.nodes.len(),
                    *m == moves@[j as int],
                    a <= m.blue.len(),
                    forall|b: int| 0 <= b < a ==> #[trigger] m.blue@[b] < SLOTS,
                decreases m.blue.len() - a,
            {
                if m.blue[a] >= SLOTS {
                    assert(!all_slots(m.blue@));
                    assert(!moves_fit(self.nodes@[j as int], moves@[j as int]));
                    return false;
                }
                a = a + 1;
            }
            j = j + 1;
        }
        true
    }

    /// Advances the universe by one tick. Every cell first records where its
    /// agents go (`moves[j]` for cell `j`); then every cell takes in what its
    /// neighbours sent it, in place of what it held. Moves that do not fit
    /// the cells are refused, and the universe is then left as it was.
    pub fn tick(&mut self, moves: &Vec<AgentMoves>) -> (r: Result<(), TickError>)
        requires
            old(self).wf(),
        ensures
            final(self).wf(),
            r is Ok <==> valid_moves(old(self).spec_nodes(), moves@),
            r is Ok ==> final(self).spec_nodes() == spec_tick(old(self).spec_nodes(), moves@),
            r is Ok && old(self).spec_iteration() < u32::MAX ==> final(self).spec_iteration()
                == old(self).spec_iteration() + 1,
            r is Ok && old(self).spec_iteration() == u32::MAX ==> final(self).spec_iteration()
                == 0,
            r is Err ==> final(self).spec_nodes() == old(self).spec_nodes()
                && final(self).spec_iteration() == old(self).spec_iteration(),
            final(self).spec_size() == old(self).spec_size(),
            final(self).spec_seed() == old(self).spec_seed(),
            final(self).spec_population() == old(self).spec_population(),
    {
        if !self.moves_match(moves) {
            return Err(TickError::MovesMismatch);
        }
        let ghost nodes0 = self.nodes@;
        let n = self.nodes.len();
        let mut outs: Vec<Node> = Vec::new();
        let mut j: usize = 0;
        while j < n
            invariant
                n == self.nodes.len(),
                self.nodes@ == nodes0,
                valid_moves(nodes0, moves@),
                j <= n,
                outs.len() == j,
                forall|k: int| 0 <= k < j ==> #[trigger] outs@[k] == outflow_phase(nodes0, moves@)[k],
            decreases n - j,
        {
            let mut nd = self.nodes[j];
            assert(moves_fit(nodes0[j as int], moves@[j as int]));
            nd.move_agents_out(&moves[j].red, &moves[j].blue);
            outs.push(nd);
            j = j + 1;
        }
        assert(outs@ =~= outflow_phase(nodes0, moves@));
        proof {
            lemma_tick_conserves(self.size as int, nodes0, moves@, AgentSpecies::Red);
            lemma_tick_conserves(self.size as int, nodes0, moves@, AgentSpecies::Blue);
        }
        let mut next: Vec<Node> = Vec::new();
        let mut i: usize = 0;
        while i < n
            invariant
                n == outs.len(),
                n == nodes0.len(),
                grid_shaped(self.size as int, nodes0),
                valid_size(self.size as int),
                outs@ == outflow_phase(nodes0, moves@),
                total(nodes0, AgentSpecies::Red) == self.population,
                total(nodes0, AgentSpecies::Blue) == self.population,
                forall|k: int|
                    0 <= k < n ==> #[trigger] inflow(outs@, nodes0[k].neighbours, AgentSpecies::Red)
                        <= total(nodes0, AgentSpecies::Red),
                forall|k: int|
                    0 <= k < n ==> #[trigger] inflow(outs@, nodes0[k].neighbours, AgentSpecies::Blue)
                        <= total(nodes0, AgentSpecies::Blue),
                i <= n,
                next.len() == i,
                forall|k: int| 0 <= k < i ==> #[trigger] next@[k] == inflow_phase(outs@)[k],
            decreases n - i,
        {
            let mut nd = outs[i];
            proof {
                assert forall|k: int| 0 <= k < 4 implies #[trigger] nd.neighbours.slot(k) < outs.len() by {
                    lemma_neighbour_in_grid(self.size as int, i as int, k);
                }
                assert(inflow(outs@, nodes0[i as int].neighbours, AgentSpecies::Red) <= u32::MAX);
                assert(inflow(outs@, nodes0[i as int].neighbours, AgentSpecies::Blue) <= u32::MAX);
            }
            nd.move_agents_in(&outs);
            next.push(nd);
            i = i + 1;
        }
        assert(next@ =~= inflow_phase(outs@));
        self.nodes = next;
        self.iteration = if self.iteration < u32::MAX {
            self.iteration + 1
        } else {
            0
        };
        Ok(())
    }
}

/// The moves of the agents of `node` when every neighbour weighs the same:
/// each agent leaves through a slot drawn uniformly from the cell's own
/// stream, red agents first, then blue ones.
pub open spec fn uniform_moves_of(seed: u64, tick: u32, node: Node) -> (Seq<u32>, Seq<u32>) {
    let st = spec_stream(seed, node.index, tick);
    let red = draws(st, node.agents.red as nat, SLOTS);
    (red.0, draws(red.1, node.agents.blue as nat, SLOTS).0)
}

impl Universe2D {
    /// The side of the grid.
    pub fn size(&self) -> (r: u32)
        ensures
            r == self.spec_size(),
    {
        self.size
    }

    /// The number of ticks run so far.
    pub fn iteration(&self) -> (r: u32)
        ensures
            r == self.spec_iteration(),
    {
        self.iteration
    }

    /// The seed that all random streams of this universe derive from.
    pub fn seed(&self) -> (r: u64)
        ensures
            r == self.spec_seed(),
    {
        self.seed
    }

    /// The number of agents of each species.
    pub fn population(&self) -> (r: u32)
        ensures
            r == self.spec_population(),
    {
        self.population
    }

    /// The number of cells.
    pub fn node_count(&self) -> (r: usize)
        ensures
            r == self.spec_nodes().len(),
    {
        self.nodes.len()
    }

    /// Cell `index`.
    pub fn node(&self, index: usize) -> (r: Node)
        requires
            index < self.spec_nodes().len(),
        ensures
            r == self.spec_nodes()[index as int],
    {
        self.nodes[index]
    }

    /// The number of agents of `species` on each cell, in cell order.
    pub fn occupancy(&self, species: AgentSpecies) -> (r: Vec<u32>)
        ensures
            r.len() == self.spec_nodes().len(),
            forall|i: int|
                0 <= i < r.len() ==> #[trigger] r@[i] == of_species(
                    self.spec_nodes()[i].agents,
                    species,
                ),
    {
        let mut out: Vec<u32> = Vec::new();
        let mut i: usize = 0;
        while i < self.nodes.len()
            invariant
                i <= self.nodes.len(),
                out.len() == i,
                forall|k: int|
                    0 <= k < i ==> #[trigger] out@[k] == of_species(self.nodes@[k].agents, species),
            decreases self.nodes.len() - i,
        {
            out.push(self.nodes[i].get_agents_with_species(species));
            i = i + 1;
        }
        out
    }

    /// The number of agents of `species` over all cells.
    pub fn total_agents(&self, species: AgentSpecies) -> (r: u64)
        requires
            self.wf(),
        ensures
            r == total(self.spec_nodes(), species),
            r == self.spec_population(),
    {
        let mut acc: u64 = 0;
        let mut i: usize = 0;
        let ghost f = |k: int| of_species(self.nodes@[k].agents, species) as int;
        while i < self.nodes.len()
            invariant
                self.wf(),
                f == (|k: int| of_species(self.nodes@[k].agents, species) as int),
                i <= self.nodes.len(),
                acc == sum(i as int, f),
                acc <= u32::MAX * i,
            decreases self.nodes.len() - i,
        {
            proof {
                assert(acc + u32::MAX <= u32::MAX * (i + 1)) by (nonlinear_arith)
                    requires
                        acc <= u32::MAX * i,
                ;
                assert(u32::MAX * (i + 1) <= u64::MAX) by (nonlinear_arith)
                    requires
                        i < self.nodes.len(),
                        self.nodes.len() <= u32::MAX,
                ;
            }
            acc = acc + self.nodes[i].get_agents_with_species(species) as u64;
            i = i + 1;
        }
        acc
    }

    /// The moves of all agents when no neighbour weighs more than another:
    /// for each cell, uniform draws from that cell's stream at the current tick.
    pub fn uniform_moves(&self) -> (r: Vec<AgentMoves>)
        ensures
            valid_moves(self.spec_nodes(), r@),
            forall|j: int|
                0 <= j < r.len() ==> (#[trigger] r@[j]).red@ == uniform_moves_of(
                    self.spec_seed(),
                    self.spec_iteration(),
                    self.spec_nodes()[j],
                ).0 && r@[j].blue@ == uniform_moves_of(
                    self.spec_seed(),
                    self.spec_iteration(),
                    self.spec_nodes()[j],
                ).1,
    {
        let mut out: Vec<AgentMoves> = Vec::new();
        let mut j: usize = 0;
        while j < self.nodes.len()
            invariant
                j <= self.nodes.len(),
                out.len() == j,
                forall|k: int| 0 <= k < j ==> moves_fit(#[trigger] self.nodes@[k], out@[k]),
                forall|k: int|
                    0 <= k < j ==> (#[trigger] out@[k]).red@ == uniform_moves_of(
                        self.seed,
                        self.iteration,
                        self.nodes@[k],
                    ).0 && out@[k].blue@ == uniform_moves_of(
                        self.seed,
                        self.iteration,
                        self.nodes@[k],
                    ).1,
            decreases self.nodes.len() - j,
        {
            let nd = self.nodes[j];
            let st = nd.get_prng(self.seed, self.iteration);
            let (red, st2) = draw_many(st, nd.agents.red, SLOTS);
            let (blue, _) = draw_many(st2, nd.agents.blue, SLOTS);
            let m = AgentMoves::new(red, blue);
            out.push(m);
            assert(moves_fit(self.nodes@[j as int], out@[j as int]));
            j = j + 1;
        }
        out
    }
}

/// The cells after one tick for each list of moves in `plans`, in order.
pub open spec fn run(nodes: Seq<Node>, plans: Seq<Seq<AgentMoves>>) -> Seq<Node>
    decreases plans.len(),
{
    if plans.len() == 0 {
        nodes
    } else {
        spec_tick(run(nodes, plans.drop_last()), plans.last())
    }
}

/// Each list of moves in `plans` fits the cells it is applied to.
pub open spec fn runnable(nodes: Seq<Node>, plans: Seq<Seq<AgentMoves>>) -> bool
    decreases plans.len(),
{
    if plans.len() == 0 {
        true
    } else {
        runnable(nodes, plans.drop_last()) && valid_moves(run(nodes, plans.drop_last()), plans.last())
    }
}

/// Conservation over any number of ticks: after every run of ticks with
/// moves that fit, each species counts as many agents as at the start.
pub proof fn lemma_conservation_over_ticks(
    size: int,
    nodes: Seq<Node>,
    plans: Seq<Seq<AgentMoves>>,
    s: AgentSpecies,
)
    requires
        valid_size(size),
        grid_shaped(size, nodes),
        total(nodes, s) <= u32::MAX,
        runnable(nodes, plans),
    ensures
        total(run(nodes, plans), s) == total(nodes, s),
        grid_shaped(size, run(nodes, plans)),
    decreases plans.len(),
{
    if plans.len() > 0 {
        lemma_conservation_over_ticks(size, nodes, plans.drop_last(), s);
        lemma_tick_conserves(size, run(nodes, plans.drop_last()), plans.last(), s);
    }
}

/// Determinism of construction: two universes built from the same side,
/// number of agents and seed hold the same cells.
pub proof fn lemma_construction_deterministic(
    u1: Universe2D,
    u2: Universe2D,
    size: u32,
    agent_size: u32,
    seed: u64,
)
    requires
        Universe2D::seeded_as(u1, size, agent_size, seed),
        Universe2D::seeded_as(u2, size, agent_size, seed),
    ensures
        u1.spec_nodes() == u2.spec_nodes(),
        u1.spec_iteration() == u2.spec_iteration(),
        u1.spec_seed() == u2.spec_seed(),
{
    let a = u1.spec_nodes();
    let b = u2.spec_nodes();
    assert forall|i: int| 0 <= i < a.len() implies #[trigger] a[i] == b[i] by {
        let na = a[i].neighbours;
        let nb = b[i].neighbours;
        assert(na.slot(0) == nb.slot(0) && na.slot(1) == nb.slot(1));
        assert(na.slot(2) == nb.slot(2) && na.slot(3) == nb.slot(3));
        assert(na == nb);
    }
    assert(a =~= b);
}

/// Determinism of ticks: cells that are equal, with the same seed and tick
/// counter, draw the same uniform moves, cell by cell, whatever order the
/// cells are taken in, and so reach the same cells.
pub proof fn lemma_uniform_tick_deterministic(
    nodes: Seq<Node>,
    seed: u64,
    tick: u32,
    m1: Seq<AgentMoves>,
    m2: Seq<AgentMoves>,
)
    requires
        m1.len() == nodes.len(),
        m2.len() == nodes.len(),
        forall|j: int|
            0 <= j < nodes.len() ==> (#[trigger] m1[j]).red@ == uniform_moves_of(seed, tick, nodes[j]).0
                && m1[j].blue@ == uniform_moves_of(seed, tick, nodes[j]).1,
        forall|j: int|
            0 <= j < nodes.len() ==> (#[trigger] m2[j]).red@ == uniform_moves_of(seed, tick, nodes[j]).0
                && m2[j].blue@ == uniform_moves_of(seed, tick, nodes[j]).1,
    ensures
        spec_tick(nodes, m1) == spec_tick(nodes, m2),
{
    let o1 = outflow_phase(nodes, m1);
    let o2 = outflow_phase(nodes, m2);
    assert forall|j: int| 0 <= j < nodes.len() implies #[trigger] o1[j] == o2[j] by {
        assert(m1[j].red@ == m2[j].red@);
        assert(m1[j].blue@ == m2[j].blue@);
    }
    assert(o1 =~= o2);
}

/// Each list of moves in `plans` is the list of uniform moves of the cells it
/// is applied to, at the tick it is applied at, counting ticks from zero.
pub open spec fn uniform_plans(nodes: Seq<Node>, seed: u64, plans: Seq<Seq<AgentMoves>>) -> bool
    decreases plans.len(),
{
    if plans.len() == 0 {
        true
    } else {
        let before = run(nodes, plans.drop_last());
        let tick = (plans.len() - 1) as u32;
        &&& uniform_plans(nodes, seed, plans.drop_last())
        &&& plans.last().len() == before.len()
        &&& forall|j: int|
            0 <= j < before.len() ==> (#[trigger] plans.last()[j]).red@ == uniform_moves_of(
                seed,
                tick,
                before[j],
            ).0 && plans.last()[j].blue@ == uniform_moves_of(seed, tick, before[j]).1
    }
}

/// Two runs of uniform ticks of the same length from the same cells reach
/// the same cells.
pub proof fn lemma_uniform_runs_agree(
    nodes: Seq<Node>,
    seed: u64,
    p1: Seq<Seq<AgentMoves>>,
    p2: Seq<Seq<AgentMoves>>,
)
    requires
        uniform_plans(nodes, seed, p1),
        uniform_plans(nodes, seed, p2),
        p1.len() == p2.len(),
    ensures
        run(nodes, p1) == run(nodes, p2),
    decreases p1.len(),
{
    if p1.len() > 0 {
        lemma_uniform_runs_agree(nodes, seed, p1.drop_last(), p2.drop_last());
        let before = run(nodes, p1.drop_last());
        lemma_uniform_tick_deterministic(
            before,
            seed,
            (p1.len() - 1) as u32,
            p1.last(),
            p2.last(),
        );
    }
}

/// Determinism: two universes built from the same side, number of agents
/// and seed, each advanced by the same number of ticks of uniform moves,
/// hold the same cells, cell by cell.
pub proof fn lemma_universes_agree_after_ticks(
    u1: Universe2D,
    u2: Universe2D,
    size: u32,
    agent_size: u32,
    seed: u64,
    p1: Seq<Seq<AgentMoves>>,
    p2: Seq<Seq<AgentMoves>>,
)
    requires
        Universe2D::seeded_as(u1, size, agent_size, seed),
        Universe2D::seeded_as(u2, size, agent_size, seed),
        uniform_plans(u1.spec_nodes(), seed, p1),
        uniform_plans(u2.spec_nodes(), seed, p2),
        p1.len() == p2.len(),
    ensures
        run(u1.spec_nodes(), p1) == run(u2.spec_nodes(), p2),
{
    lemma_construction_deterministic(u1, u2, size, agent_size, seed);
    lemma_uniform_runs_agree(u1.spec_nodes(), seed, p1, p2);
}

} // verus!
