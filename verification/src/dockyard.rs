//! The dockyard: active and docked rosters, the maintenance log, dry-dock
//! transitions and refits.
use std::collections::HashMap;
use std::collections::hash_map::Entry;
use vstd::prelude::*;
use vstd::string::StringExecFns;
use crate::agent::{fresh_agent, with_status, Agent, AgentId, AgentStatus, AgentView};
use crate::refit::RefitPlan;
use crate::ternary::Ternary;

verus! {

/// The dockyard as plain values.
pub struct DockyardView {
    /// Agents currently in the dockyard (offline).
    pub docked: Map<AgentId, AgentView>,
    /// Agents currently active (online).
    pub active: Map<AgentId, AgentView>,
    /// Maintenance log: agent id to its (timestamp, description) entries.
    pub log: Map<AgentId, Seq<(u64, Seq<char>)>>,
    /// Where `register` starts looking for an available identifier.
    pub next_id: AgentId,
}

/// The main dockyard managing agent maintenance operations.
#[derive(Debug, Clone)]
pub struct Dockyard {
    docked: HashMap<AgentId, Agent>,
    active: HashMap<AgentId, Agent>,
    log: HashMap<AgentId, Vec<(u64, String)>>,
    next_id: AgentId,
    /// The log of an agent without entries.
    no_entries: EmptyLog,
}

/// A log that holds no entries.
#[derive(Debug)]
struct EmptyLog {
    entries: Vec<(u64, String)>,
}

impl Clone for EmptyLog {
    fn clone(&self) -> (c: Self) {
        EmptyLog { entries: Vec::new() }
    }
}

impl EmptyLog {
    #[verifier::type_invariant]
    spec fn is_empty(&self) -> bool {
        self.entries@.len() == 0
    }
}

/// Takes agents offline for repairs and returns them to service.
pub struct DryDock;

/// Log entries as plain values.
pub open spec fn entries_view(e: Seq<(u64, String)>) -> Seq<(u64, Seq<char>)> {
    e.map_values(|p: (u64, String)| (p.0, p.1@))
}

/// A roster as plain values.
pub open spec fn roster_view(m: Map<AgentId, Agent>) -> Map<AgentId, AgentView> {
    m.map_values(|a: Agent| a@)
}

/// A log as plain values.
pub open spec fn log_view(m: Map<AgentId, Vec<(u64, String)>>) -> Map<
    AgentId,
    Seq<(u64, Seq<char>)>,
> {
    m.map_values(|v: Vec<(u64, String)>| entries_view(v@))
}

/// The entries logged for an agent (none if it has no log).
pub open spec fn log_of(log: Map<AgentId, Seq<(u64, Seq<char>)>>, id: AgentId) -> Seq<
    (u64, Seq<char>),
> {
    if log.contains_key(id) {
        log[id]
    } else {
        Seq::empty()
    }
}

/// The log with one more entry for `id`.
pub open spec fn logged(
    log: Map<AgentId, Seq<(u64, Seq<char>)>>,
    id: AgentId,
    timestamp: u64,
    desc: Seq<char>,
) -> Map<AgentId, Seq<(u64, Seq<char>)>> {
    log.insert(id, log_of(log, id).push((timestamp, desc)))
}

/// The dockyard after agent `id` moved from the active roster into dry dock
/// at `timestamp`.
pub open spec fn docked_state(d: DockyardView, id: AgentId, timestamp: u64) -> DockyardView {
    DockyardView {
        docked: d.docked.insert(id, with_status(d.active[id], AgentStatus::InDryDock)),
        active: d.active.remove(id),
        log: logged(d.log, id, timestamp, "Entered dry dock"@),
        next_id: d.next_id,
    }
}

/// The dockyard after agent `id` left dry dock for active service at
/// `timestamp`.
pub open spec fn released_state(d: DockyardView, id: AgentId, timestamp: u64) -> DockyardView {
    DockyardView {
        docked: d.docked.remove(id),
        active: d.active.insert(id, with_status(d.docked[id], AgentStatus::Active)),
        log: logged(d.log, id, timestamp, "Released from dry dock"@),
        next_id: d.next_id,
    }
}

/// The dockyard after a refit gave its docked agent `plan_agent` the state
/// `new_state` and the generation `generation`.
pub open spec fn refitted_state(d: DockyardView, plan_agent: AgentId, new_state: Seq<Ternary>, generation: u32) -> DockyardView {
    DockyardView {
        docked: d.docked.insert(
            plan_agent,
            AgentView {
                state: new_state,
                generation,
                status: AgentStatus::Refitting,
                ..d.docked[plan_agent]
            },
        ),
        ..d
    }
}

/// Whether the agent with this id is in either roster.
pub open spec fn id_in_use(d: DockyardView, id: AgentId) -> bool {
    d.active.contains_key(id) || d.docked.contains_key(id)
}

/// `id` is the next available identifier: the smallest one, from
/// `next_id` on, that no agent in either roster holds.
pub open spec fn first_free_id(d: DockyardView, id: AgentId) -> bool {
    &&& d.next_id <= id
    &&& !id_in_use(d, id)
    &&& forall|i: AgentId| d.next_id <= i < id ==> #[trigger] id_in_use(d, i)
}

/// The dockyard after registering a fresh agent with this state under `id`.
pub open spec fn registered_state(d: DockyardView, id: AgentId, state: Seq<Ternary>) -> DockyardView {
    DockyardView {
        active: d.active.insert(id, fresh_agent(id, state)),
        next_id: (id + 1) as u64,
        ..d
    }
}

impl View for Dockyard {
    type V = DockyardView;

    closed spec fn view(&self) -> DockyardView {
        DockyardView {
            docked: roster_view(self.docked@),
            active: roster_view(self.active@),
            log: log_view(self.log@),
            next_id: self.next_id,
        }
    }
}

proof fn lemma_roster_insert(m: Map<AgentId, Agent>, k: AgentId, a: Agent)
    ensures
        roster_view(m.insert(k, a)) == roster_view(m).insert(k, a@),
{
    assert(roster_view(m.insert(k, a)) =~= roster_view(m).insert(k, a@));
}

proof fn lemma_roster_remove(m: Map<AgentId, Agent>, k: AgentId)
    ensures
        roster_view(m.remove(k)) == roster_view(m).remove(k),
{
    assert(roster_view(m.remove(k)) =~= roster_view(m).remove(k));
}

impl Default for Dockyard {
    fn default() -> (d: Self)
        ensures
            d@.docked == Map::<AgentId, AgentView>::empty(),
            d@.active == Map::<AgentId, AgentView>::empty(),
            d@.log == Map::<AgentId, Seq<(u64, Seq<char>)>>::empty(),
            d@.next_id == 1,
    {
        Self::new()
    }
}

impl Dockyard {
    /// An empty dockyard whose first registered agent gets id 1.
    pub fn new() -> (d: Self)
        ensures
            d@.docked == Map::<AgentId, AgentView>::empty(),
            d@.active == Map::<AgentId, AgentView>::empty(),
            d@.log == Map::<AgentId, Seq<(u64, Seq<char>)>>::empty(),
            d@.next_id == 1,
    {
        let d = Dockyard {
            docked: HashMap::new(),
            active: HashMap::new(),
            log: HashMap::new(),
            next_id: 1,
            no_entries: EmptyLog { entries: Vec::new() },
        };
        proof {
            assert(roster_view(d.docked@) =~= Map::<AgentId, AgentView>::empty());
            assert(roster_view(d.active@) =~= Map::<AgentId, AgentView>::empty());
            assert(log_view(d.log@) =~= Map::<AgentId, Seq<(u64, Seq<char>)>>::empty());
        }
        d
    }

    /// Register a new agent into active service under the next available
    /// identifier: the smallest one, from `next_id` on, that no agent in
    /// either roster holds.
    pub fn register(&mut self, state: Vec<Ternary>) -> (id: AgentId)
        requires
            old(self)@.next_id + old(self)@.active.len() + old(self)@.docked.len() < u64::MAX,
        ensures
            first_free_id(old(self)@, id),
            id < u64::MAX,
            final(self)@ == registered_state(old(self)@, id, state@),
    {
        let ghost d = self@;
        proof {
            lemma_rosters_finite(self);
        }
        let ghost used = d.active.dom().union(d.docked.dom());
        let ghost mut taken: Set<AgentId> = Set::empty();
        let mut id = self.next_id;
        while self.active.contains_key(&id) || self.docked.contains_key(&id)
            invariant
                d == self@,
                d.active.dom().finite(),
                d.docked.dom().finite(),
                used == d.active.dom().union(d.docked.dom()),
                d.next_id + d.active.len() + d.docked.len() < u64::MAX,
                d.next_id <= id,
                taken.finite(),
                taken.len() == id - d.next_id,
                taken == Set::new(|i: AgentId| d.next_id <= i < id),
                taken.subset_of(used),
            decreases u64::MAX - id,
        {
            proof {
                assert(self.active@.contains_key(id) ==> d.active.contains_key(id));
                assert(self.docked@.contains_key(id) ==> d.docked.contains_key(id));
                assert(used.contains(id));
                let next_taken = taken.insert(id);
                assert(!taken.contains(id));
                assert(next_taken.subset_of(used));
                vstd::set_lib::lemma_len_union(d.active.dom(), d.docked.dom());
                vstd::set_lib::lemma_len_subset(next_taken, used);
                assert(next_taken =~= Set::new(|i: AgentId| d.next_id <= i < id + 1));
                taken = next_taken;
            }
            id = id + 1;
        }
        proof {
            assert(!d.active.contains_key(id) && !d.docked.contains_key(id));
            assert forall|i: AgentId| d.next_id <= i < id implies #[trigger] d.active.contains_key(i)
                || d.docked.contains_key(i) by {
                assert(taken.contains(i));
            }
            vstd::set_lib::lemma_len_union(d.active.dom(), d.docked.dom());
            vstd::set_lib::lemma_len_subset(taken, used);
        }
        self.next_id = id + 1;
        let agent = Agent::new(id, state);
        proof {
            lemma_roster_insert(self.active@, id, agent);
        }
        self.active.insert(id, agent);
        id
    }

    /// Register a pre-built agent into active service under its own id.
    pub fn register_agent(&mut self, agent: Agent) -> (id: AgentId)
        ensures
            id == agent.id,
            final(self)@ == (DockyardView {
                active: old(self)@.active.insert(agent.id, agent@),
                ..old(self)@
            }),
    {
        let id = agent.id;
        proof {
            lemma_roster_insert(self.active@, id, agent);
        }
        self.active.insert(id, agent);
        id
    }

    /// Get an agent by id, looking in dry dock first, then among the active.
    pub fn get_agent(&self, id: AgentId) -> (r: Option<&Agent>)
        ensures
            self@.docked.contains_key(id) ==> (r matches Some(a) && a@ == self@.docked[id]),
            !self@.docked.contains_key(id) && self@.active.contains_key(id) ==> (r matches Some(
                a,
            ) && a@ == self@.active[id]),
            !self@.docked.contains_key(id) && !self@.active.contains_key(id) ==> r is None,
    {
        match self.docked.get(&id) {
            Some(a) => Some(a),
            None => self.active.get(&id),
        }
    }

    /// Number of agents in the dockyard.
    pub fn docked_count(&self) -> (n: usize)
        ensures
            n == self@.docked.len(),
    {
        proof {
            assert(self@.docked.dom() =~= self.docked@.dom());
        }
        self.docked.len()
    }

    /// Number of active agents.
    pub fn active_count(&self) -> (n: usize)
        ensures
            n == self@.active.len(),
    {
        proof {
            assert(self@.active.dom() =~= self.active@.dom());
        }
        self.active.len()
    }

    /// Add a log entry for an agent.
    fn log_entry(&mut self, id: AgentId, timestamp: u64, desc: &str)
        ensures
            final(self)@ == (DockyardView { log: logged(old(self)@.log, id, timestamp, desc@), ..old(self)@ }),
    {
        let ghost old_log = self.log@;
        let mut entries = match self.log.remove(&id) {
            Some(v) => v,
            None => Vec::new(),
        };
        let ghost before = entries@;
        entries.push((timestamp, String::from_str(desc)));
        proof {
            assert(entries_view(entries@) =~= entries_view(before).push((timestamp, desc@)));
            if !old_log.contains_key(id) {
                assert(entries_view(before) =~= Seq::<(u64, Seq<char>)>::empty());
            }
        }
        self.log.insert(id, entries);
        proof {
            assert(log_view(self.log@) =~= logged(log_view(old_log), id, timestamp, desc@));
        }
    }
}

impl Dockyard {
    /// Get a mutable reference to an agent by id, looking in dry dock first,
    /// then among the active.
    pub fn get_agent_mut(&mut self, id: AgentId) -> (r: Option<&mut Agent>)
        ensures
            match r {
                Some(a) => {
                    if old(self)@.docked.contains_key(id) {
                        &&& (*a)@ == old(self)@.docked[id]
                        &&& final(self)@ == (DockyardView {
                            docked: old(self)@.docked.insert(id, (*final(a))@),
                            ..old(self)@
                        })
                    } else {
                        &&& old(self)@.active.contains_key(id)
                        &&& (*a)@ == old(self)@.active[id]
                        &&& final(self)@ == (DockyardView {
                            active: old(self)@.active.insert(id, (*final(a))@),
                            ..old(self)@
                        })
                    }
                },
                None => {
                    &&& !old(self)@.docked.contains_key(id)
                    &&& !old(self)@.active.contains_key(id)
                    &&& final(self)@ == old(self)@
                },
            },
    {
        let ghost old_docked = self.docked@;
        let ghost old_active = self.active@;
        if self.docked.contains_key(&id) {
            match self.docked.entry(id) {
                Entry::Occupied(o) => {
                    let a = o.into_mut();
                    proof {
                        lemma_roster_insert(old_docked, id, *final(a));
                    }
                    Some(a)
                },
                Entry::Vacant(_) => None,
            }
        } else {
            match self.active.entry(id) {
                Entry::Occupied(o) => {
                    let a = o.into_mut();
                    proof {
                        lemma_roster_insert(old_active, id, *final(a));
                    }
                    Some(a)
                },
                Entry::Vacant(_) => {
                    proof {
                        assert(roster_view(old_active).remove(id) =~= roster_view(old_active));
                        lemma_roster_remove(old_active, id);
                    }
                    None
                },
            }
        }
    }
}

/// `std::slice::from_ref`: the one-element slice holding `*x`.
#[verifier::external_body]
fn slice_of_one<T>(x: &T) -> (s: &[T])
    ensures
        s@ == seq![*x],
{
    std::slice::from_ref(x)
}

impl Dockyard {
    /// Get the maintenance log for an agent: a slice holding one vector, the
    /// agent's entries in the order they were logged (empty if none were).
    pub fn get_log(&self, id: AgentId) -> (r: &[Vec<(u64, String)>])
        ensures
            r@.len() == 1,
            entries_view(r@[0]@) == log_of(self@.log, id),
    {
        match self.log.get(&id) {
            Some(v) => slice_of_one(v),
            None => {
                proof {
                    use_type_invariant(&self.no_entries);
                    assert(entries_view(self.no_entries.entries@) =~= Seq::<
                        (u64, Seq<char>),
                    >::empty());
                }
                slice_of_one(&self.no_entries.entries)
            },
        }
    }
}

impl DryDock {
    /// Take an agent offline into dry dock.
    ///
    /// Fails, leaving the dockyard unchanged, when the agent is not in the
    /// active roster.
    pub fn dock(dockyard: &mut Dockyard, agent_id: AgentId, timestamp: u64) -> (r: Result<
        (),
        &'static str,
    >)
        ensures
            old(dockyard)@.active.contains_key(agent_id) ==> r is Ok && final(dockyard)@
                == docked_state(old(dockyard)@, agent_id, timestamp),
            !old(dockyard)@.active.contains_key(agent_id) ==> (r matches Err(e) && e@
                == "Agent not found in active roster"@) && final(dockyard)@ == old(dockyard)@,
    {
        let ghost old_active = dockyard.active@;
        let ghost old_docked = dockyard.docked@;
        let agent = match dockyard.active.remove(&agent_id) {
            Some(a) => a,
            None => {
                proof {
                    assert(old_active.remove(agent_id) =~= old_active);
                }
                return Err("Agent not found in active roster");
            },
        };
        let mut agent = agent;
        agent.status = AgentStatus::InDryDock;
        proof {
            lemma_roster_remove(old_active, agent_id);
            lemma_roster_insert(old_docked, agent_id, agent);
        }
        dockyard.docked.insert(agent_id, agent);
        dockyard.log_entry(agent_id, timestamp, "Entered dry dock");
        Ok(())
    }

    /// Release an agent from dry dock back to active service.
    ///
    /// Fails, leaving the dockyard unchanged, when the agent is not in dry
    /// dock.
    pub fn release(dockyard: &mut Dockyard, agent_id: AgentId, timestamp: u64) -> (r: Result<
        (),
        &'static str,
    >)
        ensures
            old(dockyard)@.docked.contains_key(agent_id) ==> r is Ok && final(dockyard)@
                == released_state(old(dockyard)@, agent_id, timestamp),
            !old(dockyard)@.docked.contains_key(agent_id) ==> (r matches Err(e) && e@
                == "Agent not found in dry dock"@) && final(dockyard)@ == old(dockyard)@,
    {
        let ghost old_active = dockyard.active@;
        let ghost old_docked = dockyard.docked@;
        let agent = match dockyard.docked.remove(&agent_id) {
            Some(a) => a,
            None => {
                proof {
                    assert(old_docked.remove(agent_id) =~= old_docked);
                }
                return Err("Agent not found in dry dock");
            },
        };
        let mut agent = agent;
        agent.status = AgentStatus::Active;
        proof {
            lemma_roster_remove(old_docked, agent_id);
            lemma_roster_insert(old_active, agent_id, agent);
        }
        dockyard.active.insert(agent_id, agent);
        dockyard.log_entry(agent_id, timestamp, "Released from dry dock");
        Ok(())
    }
}

impl crate::refit::RefitPlanner {
    /// Apply a refit plan to an agent in the dockyard: the docked agent takes
    /// the plan's state and generation and is marked as refitting.
    ///
    /// Fails, leaving the dockyard unchanged, when the plan's agent is not in
    /// dry dock.
    pub fn apply(dockyard: &mut Dockyard, plan: &RefitPlan) -> (r: Result<(), &'static str>)
        ensures
            old(dockyard)@.docked.contains_key(plan.agent_id) ==> r is Ok && final(dockyard)@
                == refitted_state(
                old(dockyard)@,
                plan.agent_id,
                plan.new_state@,
                plan.target_generation,
            ),
            !old(dockyard)@.docked.contains_key(plan.agent_id) ==> (r matches Err(e) && e@
                == "Agent must be in dry dock to refit"@) && final(dockyard)@ == old(dockyard)@,
    {
        let ghost old_docked = dockyard.docked@;
        match dockyard.docked.entry(plan.agent_id) {
            Entry::Occupied(o) => {
                let agent = o.into_mut();
                agent.state = plan.new_state.clone();
                agent.generation = plan.target_generation;
                agent.status = AgentStatus::Refitting;
                proof {
                    assert(agent.state@ =~= plan.new_state@);
                    lemma_roster_insert(old_docked, plan.agent_id, *agent);
                }
                Ok(())
            },
            Entry::Vacant(_) => {
                proof {
                    assert(old_docked.remove(plan.agent_id) =~= old_docked);
                    lemma_roster_remove(old_docked, plan.agent_id);
                }
                Err("Agent must be in dry dock to refit")
            },
        }
    }
}


/// The rosters of a dockyard are finite.
pub proof fn lemma_rosters_finite(d: &Dockyard)
    ensures
        d@.docked.dom().finite(),
        d@.active.dom().finite(),
{
    assert(d@.docked.dom() =~= d.docked@.dom());
    assert(d@.active.dom() =~= d.active@.dom());
}

/// Identifiers handed out by registration are unique and increasing: the
/// next registration gets a larger identifier that no agent held before
/// either registration, and the new agent stays the only one under its id.
pub proof fn law_register_ids_unique_and_increasing(
    d: DockyardView,
    first: AgentId,
    state: Seq<Ternary>,
    second: AgentId,
)
    requires
        first < u64::MAX,
        first_free_id(d, first),
        first_free_id(registered_state(d, first, state), second),
    ensures
        first < second,
        !id_in_use(d, first),
        !id_in_use(d, second),
        registered_state(d, first, state).active[first] == fresh_agent(first, state),
{
}

/// Releasing a docked agent puts it in the active roster with status
/// Active, whatever its status in dry dock (docked, under repair,
/// refitting, ...), with its id, state, health and generation kept, and
/// takes it out of dry dock.
pub proof fn law_release_returns_to_service(d: DockyardView, id: AgentId, timestamp: u64)
    requires
        d.docked.contains_key(id),
    ensures
        ({
            let after = released_state(d, id, timestamp);
            let a = after.active[id];
            let before = d.docked[id];
            &&& after.active.contains_key(id)
            &&& !after.docked.contains_key(id)
            &&& a.status == AgentStatus::Active
            &&& a.id == before.id
            &&& a.state == before.state
            &&& a.health == before.health
            &&& a.generation == before.generation
            &&& forall|other: AgentId|
                other != id ==> after.active.contains_key(other) == d.active.contains_key(other)
                    && after.docked.contains_key(other) == d.docked.contains_key(other)
        }),
{
}

/// Docking an active agent puts it in dry dock with status InDryDock,
/// whatever its status before, with its id, state, health and generation
/// kept, and takes it out of the active roster.
pub proof fn law_dock_takes_offline(d: DockyardView, id: AgentId, timestamp: u64)
    requires
        d.active.contains_key(id),
    ensures
        ({
            let after = docked_state(d, id, timestamp);
            let a = after.docked[id];
            let before = d.active[id];
            &&& after.docked.contains_key(id)
            &&& !after.active.contains_key(id)
            &&& a.status == AgentStatus::InDryDock
            &&& a.id == before.id
            &&& a.state == before.state
            &&& a.health == before.health
            &&& a.generation == before.generation
            &&& forall|other: AgentId|
                other != id ==> after.active.contains_key(other) == d.active.contains_key(other)
                    && after.docked.contains_key(other) == d.docked.contains_key(other)
        }),
{
}

/// Applying a refit to a docked agent gives it the plan's state and
/// generation and the status Refitting, keeps its id and health, leaves it
/// in dry dock and changes no roster membership.
pub proof fn law_refit_updates_docked_agent(
    d: DockyardView,
    id: AgentId,
    new_state: Seq<Ternary>,
    generation: u32,
)
    requires
        d.docked.contains_key(id),
    ensures
        ({
            let after = refitted_state(d, id, new_state, generation);
            let a = after.docked[id];
            &&& after.docked.contains_key(id)
            &&& a.state == new_state
            &&& a.generation == generation
            &&& a.status == AgentStatus::Refitting
            &&& a.id == d.docked[id].id
            &&& a.health == d.docked[id].health
            &&& after.docked.dom() == d.docked.dom()
            &&& after.active == d.active
            &&& after.log == d.log
        }),
{
    assert(refitted_state(d, id, new_state, generation).docked.dom() =~= d.docked.dom());
}

/// Docking an active agent and then releasing it returns the agent to the
/// active roster with status Active and leaves the dry dock as it was; the
/// agent's log gains the two entries, in order.
pub proof fn law_dock_release_round_trip(d: DockyardView, id: AgentId, t_dock: u64, t_release: u64)
    requires
        d.active.contains_key(id),
        !d.docked.contains_key(id),
    ensures
        ({
            let after = released_state(docked_state(d, id, t_dock), id, t_release);
            &&& after.active == d.active.insert(id, with_status(d.active[id], AgentStatus::Active))
            &&& after.docked == d.docked
            &&& log_of(after.log, id) == log_of(d.log, id).push(
                (t_dock, "Entered dry dock"@),
            ).push((t_release, "Released from dry dock"@))
            &&& forall|other: AgentId| other != id ==> log_of(after.log, other) == log_of(d.log, other)
            &&& after.next_id == d.next_id
        }),
        d.active[id].status == AgentStatus::Active ==> released_state(
            docked_state(d, id, t_dock),
            id,
            t_release,
        ).active == d.active,
{
    let after = released_state(docked_state(d, id, t_dock), id, t_release);
    assert(after.docked =~= d.docked);
    assert(after.active =~= d.active.insert(id, with_status(d.active[id], AgentStatus::Active)));
    if d.active[id].status == AgentStatus::Active {
        assert(with_status(d.active[id], AgentStatus::Active) == d.active[id]);
        assert(after.active =~= d.active);
    }
}

/// Docking moves exactly one agent from the active roster into dry dock:
/// the active count drops by one, the docked count grows by one, and the
/// total is unchanged, when the agent was not already docked.
pub proof fn law_dock_moves_one(d: &Dockyard, id: AgentId, timestamp: u64)
    requires
        d@.active.contains_key(id),
        !d@.docked.contains_key(id),
    ensures
        docked_state(d@, id, timestamp).active.len() == d@.active.len() - 1,
        docked_state(d@, id, timestamp).docked.len() == d@.docked.len() + 1,
{
    lemma_rosters_finite(d);
}

/// Releasing moves exactly one agent from dry dock to the active roster,
/// when the agent was not also in the active roster.
pub proof fn law_release_moves_one(d: &Dockyard, id: AgentId, timestamp: u64)
    requires
        d@.docked.contains_key(id),
        !d@.active.contains_key(id),
    ensures
        released_state(d@, id, timestamp).docked.len() == d@.docked.len() - 1,
        released_state(d@, id, timestamp).active.len() == d@.active.len() + 1,
{
    lemma_rosters_finite(d);
}

} // verus!
