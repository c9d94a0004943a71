//! Agents: a ternary state vector with a health score and a status.
use vstd::prelude::*;
use crate::binary64::{clamp_unit, clamp_to_unit, ONE_BITS};
use crate::ternary::{count_prefix, ternary_int, Ternary};

verus! {

/// A unique agent identifier.
pub type AgentId = u64;

/// Operational status of an agent in the dockyard.
#[derive(Debug, Clone, Copy, PartialEq, Eq, Structural)]
pub enum AgentStatus {
    Active,
    InDryDock,
    UnderRepair,
    Refitting,
    Decommissioned,
}

/// An agent with a ternary state vector.
///
/// `health` is a binary64 number held as its bit pattern (see
/// `crate::binary64`); a fresh agent has health 1.0.
#[derive(Debug, Clone)]
pub struct Agent {
    pub id: AgentId,
    pub state: Vec<Ternary>,
    pub health: u64,
    pub status: AgentStatus,
    pub generation: u32,
}

/// Sum of the integer values of the first `n` elements of `s`.
pub open spec fn sum_prefix(s: Seq<Ternary>, n: int) -> int
    decreases n,
{
    if n <= 0 {
        0
    } else {
        sum_prefix(s, n - 1) + ternary_int(s[n - 1])
    }
}

/// Sum of the integer values of a ternary sequence.
pub open spec fn sum_values(s: Seq<Ternary>) -> int {
    sum_prefix(s, s.len() as int)
}

/// A prefix sum never exceeds the prefix length in absolute value.
pub proof fn lemma_sum_prefix_bounded(s: Seq<Ternary>, n: int)
    requires
        0 <= n,
    ensures
        -n <= sum_prefix(s, n) <= n,
    decreases n,
{
    if n > 0 {
        lemma_sum_prefix_bounded(s, n - 1);
    }
}

/// The sum is the number of positive values minus the number of negative ones.
pub proof fn lemma_sum_is_count_difference(s: Seq<Ternary>, n: int)
    requires
        0 <= n,
    ensures
        sum_prefix(s, n) == count_prefix(s, Ternary::Positive, n) - count_prefix(
            s,
            Ternary::Negative,
            n,
        ),
    decreases n,
{
    if n > 0 {
        lemma_sum_is_count_difference(s, n - 1);
    }
}

/// An agent as plain values.
pub struct AgentView {
    pub id: AgentId,
    pub state: Seq<Ternary>,
    pub health: u64,
    pub status: AgentStatus,
    pub generation: u32,
}

impl View for Agent {
    type V = AgentView;

    open spec fn view(&self) -> AgentView {
        AgentView {
            id: self.id,
            state: self.state@,
            health: self.health,
            status: self.status,
            generation: self.generation,
        }
    }
}

/// The agent `a` with its status replaced by `status`.
pub open spec fn with_status(a: AgentView, status: AgentStatus) -> AgentView {
    AgentView { status, ..a }
}

/// A fresh agent: active, generation 1, full health.
pub open spec fn fresh_agent(id: AgentId, state: Seq<Ternary>) -> AgentView {
    AgentView { id, state, health: ONE_BITS, status: AgentStatus::Active, generation: 1 }
}

impl Agent {
    /// A new active agent of generation 1 with full health.
    pub fn new(id: AgentId, state: Vec<Ternary>) -> (a: Self)
        ensures
            a@ == fresh_agent(id, state@),
    {
        Agent { id, state, health: ONE_BITS, status: AgentStatus::Active, generation: 1 }
    }

    /// The agent with its health clamped to [0, 1] (a NaN health stays NaN).
    pub fn with_health(self, health: u64) -> (a: Self)
        ensures
            a == (Agent { health: clamp_unit(health), ..self }),
    {
        let mut a = self;
        a.health = clamp_to_unit(health);
        a
    }

    /// The agent with its generation replaced.
    pub fn with_generation(self, gen: u32) -> (a: Self)
        ensures
            a == (Agent { generation: gen, ..self }),
    {
        let mut a = self;
        a.generation = gen;
        a
    }

    /// Whether the agent is operational (not in the dockyard).
    pub fn is_operational(&self) -> (r: bool)
        ensures
            r == (self.status == AgentStatus::Active),
    {
        self.status == AgentStatus::Active
    }

    /// Sum of the state values: 0 for a perfectly balanced agent.
    pub fn state_sum(&self) -> (r: i64)
        requires
            self.state@.len() <= i64::MAX,
        ensures
            r == sum_values(self.state@),
    {
        let mut sum: i64 = 0;
        let mut i: usize = 0;
        while i < self.state.len()
            invariant
                i <= self.state@.len() <= i64::MAX,
                sum == sum_prefix(self.state@, i as int),
            decreases self.state@.len() - i,
        {
            proof {
                lemma_sum_prefix_bounded(self.state@, i as int);
            }
            let v = self.state[i].value();
            sum = sum + v as i64;
            i = i + 1;
        }
        sum
    }
}

} // verus!
