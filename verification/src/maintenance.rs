//! Preventive maintenance schedules: per-agent intervals in ticks.
use std::collections::HashMap;
use vstd::prelude::*;
use crate::agent::AgentId;

verus! {

/// A maintenance schedule as plain values.
pub struct ScheduleView {
    /// Agent id to its interval in ticks between maintenance.
    pub intervals: Map<AgentId, u64>,
    /// Agent id to the tick of its last maintenance.
    pub last_maintenance: Map<AgentId, u64>,
    /// Interval for agents without an interval of their own.
    pub default_interval: u64,
}

impl ScheduleView {
    /// The interval that applies to an agent.
    pub open spec fn interval_of(self, id: AgentId) -> u64 {
        if self.intervals.contains_key(id) {
            self.intervals[id]
        } else {
            self.default_interval
        }
    }

    /// The tick of the agent's last maintenance (0 if none was recorded).
    pub open spec fn last_of(self, id: AgentId) -> u64 {
        if self.last_maintenance.contains_key(id) {
            self.last_maintenance[id]
        } else {
            0
        }
    }

    /// The tick at which the agent next falls due fits in a tick (a `u64`).
    pub open spec fn due_tick_fits(self, id: AgentId) -> bool {
        self.last_of(id) + self.interval_of(id) <= u64::MAX
    }

    /// The schedule after setting the agent's interval (0 counts as 1).
    pub open spec fn with_interval(self, id: AgentId, interval: u64) -> ScheduleView {
        ScheduleView {
            intervals: self.intervals.insert(
                id,
                if interval == 0 {
                    1
                } else {
                    interval
                },
            ),
            ..self
        }
    }

    /// The schedule after recording maintenance of the agent at `tick`.
    pub open spec fn with_maintenance(self, id: AgentId, tick: u64) -> ScheduleView {
        ScheduleView { last_maintenance: self.last_maintenance.insert(id, tick), ..self }
    }

    /// The schedule knows the agent: it has an interval of its own or a
    /// recorded maintenance.
    pub open spec fn is_known(self, id: AgentId) -> bool {
        self.intervals.contains_key(id) || self.last_maintenance.contains_key(id)
    }

    /// The agent is due at `tick`: an interval has passed since its last
    /// maintenance.
    pub open spec fn is_due_at(self, id: AgentId, tick: u64) -> bool {
        tick >= self.last_of(id) + self.interval_of(id)
    }
}

/// After maintenance at `tick`, an agent with an interval of its own falls
/// due exactly when that interval (at least 1) has passed: it is not due at
/// `tick` itself.
pub proof fn law_due_exactly_after_interval(
    v: ScheduleView,
    id: AgentId,
    interval: u64,
    tick: u64,
    now: u64,
)
    ensures
        ({
            let w = v.with_interval(id, interval).with_maintenance(id, tick);
            &&& w.is_due_at(id, now) <==> now >= tick + if interval == 0 {
                1
            } else {
                interval
            }
            &&& !w.is_due_at(id, tick)
        }),
{
}

/// Recording maintenance of one agent or setting its interval does not
/// change when any other agent is due.
pub proof fn law_schedule_updates_are_local(
    v: ScheduleView,
    id: AgentId,
    other: AgentId,
    value: u64,
    now: u64,
)
    requires
        other != id,
    ensures
        v.with_interval(id, value).is_due_at(other, now) == v.is_due_at(other, now),
        v.with_maintenance(id, value).is_due_at(other, now) == v.is_due_at(other, now),
{
}

/// Once due, an agent stays due as time passes.
pub proof fn law_due_is_monotone(v: ScheduleView, id: AgentId, t1: u64, t2: u64)
    requires
        t1 <= t2,
        v.is_due_at(id, t1),
    ensures
        v.is_due_at(id, t2),
{
}

/// `res` lists, each once, exactly the agents the schedule knows that are
/// due at `tick`.
pub open spec fn lists_due_agents(v: ScheduleView, tick: u64, res: Seq<AgentId>) -> bool {
    &&& res.no_duplicates()
    &&& forall|id: AgentId| #[trigger] res.contains(id) <==> v.is_known(id) && v.is_due_at(id, tick)
}

/// An agent without recorded maintenance counts as maintained at tick 0: it
/// is due exactly when its interval (its own, else the default) has passed
/// since tick 0. An agent with recorded maintenance is due exactly when its
/// interval has passed since that tick.
pub proof fn law_is_due_counts_from_last_maintenance(v: ScheduleView, id: AgentId, tick: u64)
    ensures
        !v.last_maintenance.contains_key(id) ==> (v.is_due_at(id, tick) <==> tick >= if v.intervals.contains_key(id) {
            v.intervals[id]
        } else {
            v.default_interval
        }),
        v.last_maintenance.contains_key(id) ==> (v.is_due_at(id, tick) <==> tick
            >= v.last_maintenance[id] + if v.intervals.contains_key(id) {
            v.intervals[id]
        } else {
            v.default_interval
        }),
        !v.last_maintenance.contains_key(id) ==> (v.is_due_at(id, tick) <==> v.with_maintenance(
            id,
            0,
        ).is_due_at(id, tick)),
{
}

/// On a schedule with no intervals and no maintenance, an agent is due
/// exactly when the default interval has passed since tick 0.
pub proof fn law_fresh_schedule_due_after_default(default_interval: u64, id: AgentId, tick: u64)
    ensures
        (ScheduleView {
            intervals: Map::empty(),
            last_maintenance: Map::empty(),
            default_interval,
        }).is_due_at(id, tick) <==> tick >= default_interval,
{
}

/// A listing of due agents contains an agent exactly when the agent has an
/// interval of its own or a recorded maintenance, and is due; so every
/// agent with an interval of its own that is due is listed, whether or not
/// its maintenance was ever recorded.
pub proof fn law_due_listing_is_complete(v: ScheduleView, tick: u64, res: Seq<AgentId>)
    requires
        lists_due_agents(v, tick, res),
    ensures
        forall|id: AgentId|
            #[trigger] res.contains(id) <==> (v.intervals.contains_key(id)
                || v.last_maintenance.contains_key(id)) && v.is_due_at(id, tick),
        forall|id: AgentId|
            v.intervals.contains_key(id) && v.is_due_at(id, tick) ==> #[trigger] res.contains(id),
{
}

/// A preventive maintenance schedule for agents.
#[derive(Debug, Clone)]
pub struct MaintenanceSchedule {
    intervals: HashMap<AgentId, u64>,
    last_maintenance: HashMap<AgentId, u64>,
    default_interval: u64,
}

impl View for MaintenanceSchedule {
    type V = ScheduleView;

    closed spec fn view(&self) -> ScheduleView {
        ScheduleView {
            intervals: self.intervals@,
            last_maintenance: self.last_maintenance@,
            default_interval: self.default_interval,
        }
    }
}

impl MaintenanceSchedule {
    /// An empty schedule with the given default interval.
    pub fn new(default_interval: u64) -> (s: Self)
        ensures
            s@.intervals == Map::<AgentId, u64>::empty(),
            s@.last_maintenance == Map::<AgentId, u64>::empty(),
            s@.default_interval == default_interval,
    {
        MaintenanceSchedule {
            intervals: HashMap::new(),
            last_maintenance: HashMap::new(),
            default_interval,
        }
    }

    /// Set a specific maintenance interval for an agent; an interval of 0 is
    /// raised to 1.
    pub fn set_interval(&mut self, agent_id: AgentId, interval: u64)
        ensures
            final(self)@ == old(self)@.with_interval(agent_id, interval),
    {
        let i = if interval > 1 {
            interval
        } else {
            1
        };
        self.intervals.insert(agent_id, i);
    }

    /// Record that maintenance was performed on an agent.
    pub fn record_maintenance(&mut self, agent_id: AgentId, tick: u64)
        ensures
            final(self)@ == old(self)@.with_maintenance(agent_id, tick),
    {
        self.last_maintenance.insert(agent_id, tick);
    }

    /// Check if an agent is due for maintenance.
    pub fn is_due(&self, agent_id: AgentId, current_tick: u64) -> (r: bool)
        requires
            self@.due_tick_fits(agent_id),
        ensures
            r == self@.is_due_at(agent_id, current_tick),
    {
        let interval = match self.intervals.get(&agent_id) {
            Some(i) => *i,
            None => self.default_interval,
        };
        let last = match self.last_maintenance.get(&agent_id) {
            Some(l) => *l,
            None => 0,
        };
        current_tick >= last + interval
    }

    /// All agents due for maintenance at the given tick, each once, in no
    /// particular order: the agents the schedule knows (by an interval of
    /// their own or by a recorded maintenance) that are due.
    pub fn due_agents(&self, current_tick: u64) -> (due: Vec<AgentId>)
        requires
            forall|id: AgentId| #[trigger]
                self@.is_known(id) ==> self@.due_tick_fits(id),
        ensures
            lists_due_agents(self@, current_tick, due@),
            due@.no_duplicates(),
            forall|id: AgentId|
                #[trigger] due@.contains(id) <==> self@.is_known(id) && self@.is_due_at(
                    id,
                    current_tick,
                ),
    {
        assert forall|id: AgentId| #[trigger]
            self@.intervals.contains_key(id) implies self@.due_tick_fits(id) by {
            assert(self@.is_known(id));
        }
        let mut due: Vec<AgentId> = Vec::new();
        for agent_id in iter: self.intervals.keys()
            invariant
                forall|id: AgentId| #[trigger]
                    self@.intervals.contains_key(id) ==> self@.due_tick_fits(id),
                iter.seq().no_duplicates(),
                iter.seq().unref().to_set() == self@.intervals.dom(),
                due@.no_duplicates(),
                forall|id: AgentId|
                    #[trigger] due@.contains(id) <==> (exists|j: int|
                        0 <= j < iter.index() && *iter.seq()[j] == id) && self@.is_due_at(
                        id,
                        current_tick,
                    ),
                iter.index() == iter.seq().len() ==> forall|id: AgentId|
                    #[trigger] due@.contains(id) <==> self@.intervals.contains_key(id)
                        && self@.is_due_at(id, current_tick),
        {
            let ghost idx = iter.index();
            let ghost before = due@;
            assert(*iter.seq()[idx] == *agent_id);
            if self.is_due(*agent_id, current_tick) {
                proof {
                    if before.contains(*agent_id) {
                        let j = choose|j: int| 0 <= j < idx && *iter.seq()[j] == *agent_id;
                        assert(iter.seq()[j] == iter.seq()[idx]);
                    }
                }
                due.push(*agent_id);
                proof {
                    assert forall|id: AgentId|
                        #[trigger] due@.contains(id) <==> (exists|j: int|
                            0 <= j < idx + 1 && *iter.seq()[j] == id) && self@.is_due_at(
                            id,
                            current_tick,
                        ) by {
                        if id == *agent_id {
                            assert(due@[due@.len() - 1] == id);
                            assert(*iter.seq()[idx] == id);
                        } else {
                            if due@.contains(id) {
                                let k = choose|k: int| 0 <= k < due@.len() && due@[k] == id;
                                assert(before[k] == id);
                                assert(before.contains(id));
                            }
                            if exists|j: int| 0 <= j < idx + 1 && *iter.seq()[j] == id {
                                let j = choose|j: int| 0 <= j < idx + 1 && *iter.seq()[j] == id;
                                assert(j < idx);
                                if self@.is_due_at(id, current_tick) {
                                    assert(before.contains(id));
                                    let k = choose|k: int| 0 <= k < before.len() && before[k] == id;
                                    assert(due@[k] == id);
                                }
                            }
                        }
                    }
                }
            }
            assert forall|id: AgentId|
                idx + 1 == iter.seq().len() && #[trigger] self@.intervals.contains_key(id) implies exists|j: int|
                0 <= j < idx + 1 && *iter.seq()[j] == id by {
                assert(iter.seq().unref().to_set().contains(id));
            }
            assert forall|j: int| 0 <= j < idx + 1 implies self@.intervals.contains_key(
                *#[trigger] iter.seq()[j],
            ) by {
                assert(iter.seq().unref()[j] == *iter.seq()[j]);
                assert(iter.seq().unref().to_set().contains(*iter.seq()[j]));
            }
        }
        for agent_id in iter: self.last_maintenance.keys()
            invariant
                forall|id: AgentId| #[trigger]
                    self@.is_known(id) ==> self@.due_tick_fits(id),
                iter.seq().no_duplicates(),
                iter.seq().unref().to_set() == self@.last_maintenance.dom(),
                due@.no_duplicates(),
                forall|id: AgentId|
                    #[trigger] due@.contains(id) <==> (self@.intervals.contains_key(id) || (exists|
                        j: int,
                    | 0 <= j < iter.index() && *iter.seq()[j] == id)) && self@.is_due_at(
                        id,
                        current_tick,
                    ),
                iter.index() == iter.seq().len() ==> forall|id: AgentId|
                    #[trigger] due@.contains(id) <==> self@.is_known(id) && self@.is_due_at(
                        id,
                        current_tick,
                    ),
        {
            let ghost idx = iter.index();
            let ghost before = due@;
            assert(*iter.seq()[idx] == *agent_id);
            assert(iter.seq().unref()[idx] == *agent_id);
            assert(iter.seq().unref().to_set().contains(*agent_id));
            assert(self@.is_known(*agent_id));
            if !self.intervals.contains_key(agent_id) && self.is_due(*agent_id, current_tick) {
                proof {
                    if before.contains(*agent_id) {
                        let j = choose|j: int| 0 <= j < idx && *iter.seq()[j] == *agent_id;
                        assert(iter.seq()[j] == iter.seq()[idx]);
                    }
                }
                due.push(*agent_id);
                proof {
                    assert forall|id: AgentId|
                        #[trigger] due@.contains(id) <==> (self@.intervals.contains_key(id) || (
                        exists|j: int| 0 <= j < idx + 1 && *iter.seq()[j] == id))
                            && self@.is_due_at(id, current_tick) by {
                        if id == *agent_id {
                            assert(due@[due@.len() - 1] == id);
                            assert(*iter.seq()[idx] == id);
                        } else {
                            if due@.contains(id) {
                                let k = choose|k: int| 0 <= k < due@.len() && due@[k] == id;
                                assert(before[k] == id);
                                assert(before.contains(id));
                            }
                            if (self@.intervals.contains_key(id) || exists|j: int|
                                0 <= j < idx + 1 && *iter.seq()[j] == id) && self@.is_due_at(
                                id,
                                current_tick,
                            ) {
                                if !self@.intervals.contains_key(id) {
                                    let j = choose|j: int|
                                        0 <= j < idx + 1 && *iter.seq()[j] == id;
                                    assert(j < idx);
                                }
                                assert(before.contains(id));
                                let k = choose|k: int| 0 <= k < before.len() && before[k] == id;
                                assert(due@[k] == id);
                            }
                        }
                    }
                }
            } else {
                proof {
                    assert forall|id: AgentId|
                        #[trigger] due@.contains(id) <==> (self@.intervals.contains_key(id) || (
                        exists|j: int| 0 <= j < idx + 1 && *iter.seq()[j] == id))
                            && self@.is_due_at(id, current_tick) by {
                        if id != *agent_id && exists|j: int|
                            0 <= j < idx + 1 && *iter.seq()[j] == id {
                            let j = choose|j: int| 0 <= j < idx + 1 && *iter.seq()[j] == id;
                            assert(j < idx);
                        }
                    }
                }
            }
            assert forall|id: AgentId|
                idx + 1 == iter.seq().len() && #[trigger] self@.last_maintenance.contains_key(id) implies exists|j: int|
                0 <= j < idx + 1 && *iter.seq()[j] == id by {
                assert(iter.seq().unref().to_set().contains(id));
            }
            assert forall|j: int| 0 <= j < idx + 1 implies self@.last_maintenance.contains_key(
                *#[trigger] iter.seq()[j],
            ) by {
                assert(iter.seq().unref()[j] == *iter.seq()[j]);
                assert(iter.seq().unref().to_set().contains(*iter.seq()[j]));
            }
        }
        due
    }

    /// Get the default maintenance interval.
    pub fn default_interval(&self) -> (d: u64)
        ensures
            d == self@.default_interval,
    {
        self.default_interval
    }
}

} // verus!
