use ternary_dockyard::agent::{Agent, AgentStatus};
use ternary_dockyard::binary64::{clamp_to_unit, less_than};
use ternary_dockyard::dockyard::{Dockyard, DryDock};
use ternary_dockyard::maintenance::MaintenanceSchedule;
use ternary_dockyard::refit::RefitPlanner;
use ternary_dockyard::repair::{Priority, RepairBillDiagnostic, Severity};
use ternary_dockyard::salvage::{SalvageYard, SalvagedPart};
use ternary_dockyard::ternary::Ternary;

use Ternary::{Negative as N, Positive as P, Zero as Z};

fn bits(x: f64) -> u64 {
    x.to_bits()
}

#[test]
fn value_round_trip() {
    for t in [N, Z, P] {
        assert_eq!(Ternary::from_value(t.value()), Some(t));
    }
    assert_eq!(Ternary::from_value(-2), None);
    assert_eq!(Ternary::from_value(i8::MAX), None);
}

#[test]
fn binary64_less_than_matches_f64() {
    let values = [
        0.0,
        -0.0,
        0.2,
        0.5,
        0.8,
        1.0,
        -1.0,
        1.5,
        f64::INFINITY,
        f64::NEG_INFINITY,
        f64::NAN,
        f64::MIN_POSITIVE,
        -f64::MIN_POSITIVE,
    ];
    for a in values {
        for b in values {
            assert_eq!(less_than(bits(a), bits(b)), a < b, "{} < {}", a, b);
        }
        let c = f64::from_bits(clamp_to_unit(bits(a)));
        let expected = a.clamp(0.0, 1.0);
        assert!(c.to_bits() == expected.to_bits() || (c.is_nan() && expected.is_nan()));
    }
}

#[test]
fn health_clamp_keeps_values_inside() {
    let a = Agent::new(1, vec![]).with_health(bits(0.3));
    assert_eq!(f64::from_bits(a.health), 0.3);
    let a = Agent::new(1, vec![]).with_health(bits(f64::NAN));
    assert!(f64::from_bits(a.health).is_nan());
    let a = Agent::new(1, vec![]).with_generation(7);
    assert_eq!(a.generation, 7);
}

#[test]
fn state_sum_counts_balance() {
    assert_eq!(Agent::new(1, vec![P, N]).state_sum(), 0);
    assert_eq!(Agent::new(1, vec![P, P, Z]).state_sum(), 2);
    assert_eq!(Agent::new(1, vec![N, N, N, P]).state_sum(), -2);
    assert_eq!(Agent::new(1, vec![]).state_sum(), 0);
}

#[test]
fn diagnose_health_bands() {
    let cases = [
        (0.1, Some(Severity::Critical), Priority::Emergency, 10u64),
        (0.2, Some(Severity::High), Priority::Scheduled, 5),
        (0.49, Some(Severity::High), Priority::Scheduled, 5),
        (0.5, Some(Severity::Medium), Priority::Routine, 3),
        (0.79, Some(Severity::Medium), Priority::Routine, 3),
        (0.8, None, Priority::Routine, 0),
    ];
    for (h, sev, prio, effort) in cases {
        let agent = Agent::new(1, vec![P, N, Z]).with_health(bits(h));
        let bill = RepairBillDiagnostic::diagnose(&agent);
        assert_eq!(bill.issues.first().map(|i| i.severity), sev, "health {}", h);
        assert_eq!(bill.priority, prio);
        assert_eq!(bill.estimated_effort, effort);
        assert_eq!(bill.agent_id, 1);
    }
}

#[test]
fn diagnose_stagnation_text_and_indices() {
    let agent = Agent::new(4, vec![P; 5]);
    let bill = RepairBillDiagnostic::diagnose(&agent);
    assert_eq!(bill.issues.len(), 2);
    assert_eq!(bill.issues[0].description, "State stagnation: all 5 values identical");
    assert_eq!(bill.issues[0].severity, Severity::High);
    assert_eq!(bill.issues[0].affected_indices, vec![0, 1, 2, 3, 4]);
    assert_eq!(bill.issues[1].description, "State imbalance: 5 more positive than negative values");
    assert_eq!(bill.issues[1].severity, Severity::Medium);
    assert_eq!(bill.priority, Priority::Scheduled);
    assert_eq!(bill.estimated_effort, 8);
}

#[test]
fn diagnose_two_high_issues_are_urgent() {
    let agent = Agent::new(1, vec![N; 12]).with_health(bits(0.3));
    let bill = RepairBillDiagnostic::diagnose(&agent);
    assert_eq!(bill.issues.len(), 3);
    assert_eq!(bill.issues[1].description, "State stagnation: all 12 values identical");
    assert_eq!(bill.issues[2].description, "State imbalance: 12 more negative than positive values");
    assert_eq!(bill.priority, Priority::Urgent);
    assert_eq!(bill.estimated_effort, 13);
}

#[test]
fn diagnose_imbalance() {
    // Two values are too few for stagnation, but fully imbalanced.
    let bill = RepairBillDiagnostic::diagnose(&Agent::new(1, vec![P, P]));
    assert_eq!(bill.issues.len(), 1);
    assert_eq!(bill.issues[0].description, "State imbalance: 2 more positive than negative values");
    assert_eq!(bill.issues[0].severity, Severity::Medium);
    assert_eq!(bill.issues[0].affected_indices, vec![0, 1]);
    assert_eq!(bill.priority, Priority::Routine);
    assert_eq!(bill.estimated_effort, 3);
    let bill = RepairBillDiagnostic::diagnose(&Agent::new(1, vec![N, Z, N]));
    assert_eq!(bill.issues.len(), 1);
    assert_eq!(bill.issues[0].description, "State imbalance: 2 more negative than positive values");
    assert_eq!(bill.issues[0].affected_indices, vec![0, 2]);
    // A sum of exactly half the length is not an imbalance.
    let bill = RepairBillDiagnostic::diagnose(&Agent::new(1, vec![P, P, N, Z]));
    assert!(bill.issues.is_empty());
    let bill = RepairBillDiagnostic::diagnose(&Agent::new(1, vec![N, P]));
    assert!(bill.issues.is_empty());
    let bill = RepairBillDiagnostic::diagnose(&Agent::new(1, vec![]));
    assert!(bill.issues.is_empty());
}

#[test]
fn diagnose_oscillation_details() {
    let agent = Agent::new(1, vec![P, N, P]);
    let bill = RepairBillDiagnostic::diagnose(&agent);
    assert_eq!(bill.issues.len(), 1);
    assert_eq!(bill.issues[0].description, "State oscillation detected");
    assert_eq!(bill.issues[0].severity, Severity::Medium);
    assert_eq!(bill.issues[0].affected_indices, vec![0, 1, 2]);
    assert_eq!(bill.estimated_effort, 3);
    assert_eq!(bill.priority, Priority::Routine);
}

#[test]
fn diagnose_passivity_text() {
    let bill = RepairBillDiagnostic::diagnose(&Agent::new(1, vec![Z; 10]));
    // All zero: stagnation and passivity.
    assert_eq!(bill.issues.len(), 2);
    assert_eq!(bill.issues[1].description, "Excessive passivity: 100% zero states");
    assert_eq!(bill.issues[1].severity, Severity::Low);
    assert_eq!(bill.estimated_effort, 6);

    let mut state = vec![Z; 9];
    state.insert(4, P);
    let bill = RepairBillDiagnostic::diagnose(&Agent::new(1, state));
    assert_eq!(bill.issues.len(), 1);
    assert_eq!(bill.issues[0].description, "Excessive passivity: 90% zero states");
    assert_eq!(bill.issues[0].affected_indices, vec![0, 1, 2, 3, 5, 6, 7, 8, 9]);

    // 33 zeros out of 40 is 82.5%: ties round to even.
    let mut state = vec![Z; 33];
    state.extend(vec![P; 7]);
    let bill = RepairBillDiagnostic::diagnose(&Agent::new(1, state));
    assert_eq!(bill.issues[0].description, "Excessive passivity: 82% zero states");

    // 11 of 12 is 91.67%.
    let mut state = vec![Z; 11];
    state.push(N);
    let bill = RepairBillDiagnostic::diagnose(&Agent::new(1, state));
    assert_eq!(bill.issues[0].description, "Excessive passivity: 92% zero states");

    // Exactly four fifths is not excessive.
    let bill = RepairBillDiagnostic::diagnose(&Agent::new(1, vec![Z, Z, Z, Z, P]));
    assert!(bill.issues.is_empty());
}

#[test]
fn plan_balance_exact_positive() {
    let agent = Agent::new(9, vec![P; 6]);
    let plan = RefitPlanner::plan_balance(&agent);
    assert_eq!(plan.agent_id, 9);
    assert_eq!(plan.new_state, vec![Z, P, Z, P, Z, P]);
    let idx: Vec<usize> = plan.modifications.iter().map(|m| m.index).collect();
    assert_eq!(idx, vec![0, 2, 4]);
    for m in &plan.modifications {
        assert_eq!(m.from, P);
        assert_eq!(m.to, Z);
        assert_eq!(m.reason, "Rebalance excess positive");
    }
}

#[test]
fn plan_balance_stops_at_excess() {
    // 5 negatives, 1 positive, 1 zero: excess 3.
    let agent = Agent::new(1, vec![N, N, N, P, N, Z, N]);
    let plan = RefitPlanner::plan_balance(&agent);
    assert_eq!(plan.new_state, vec![Z, N, Z, P, Z, Z, N]);
    let idx: Vec<usize> = plan.modifications.iter().map(|m| m.index).collect();
    assert_eq!(idx, vec![0, 2, 4]);
    assert_eq!(plan.modifications[0].reason, "Rebalance excess negative");
    assert_eq!(plan.target_generation, 2);
}

#[test]
fn plan_balance_balanced_agent_unchanged() {
    let agent = Agent::new(1, vec![P, N, Z, P]);
    let plan = RefitPlanner::plan_balance(&agent);
    assert_eq!(plan.new_state, agent.state);
    assert!(plan.modifications.is_empty());
}

#[test]
fn plan_balance_never_worsens_balance() {
    let states = [
        vec![P; 7],
        vec![N, P, N, N, N],
        vec![P, P, P, Z, P, P],
        vec![Z, P, Z],
        vec![P, P, P, P, N],
    ];
    for s in states {
        let agent = Agent::new(1, s.clone());
        let plan = RefitPlanner::plan_balance(&agent);
        let after = Agent::new(1, plan.new_state.clone());
        assert!(after.state_sum().abs() <= agent.state_sum().abs());
        if !plan.modifications.is_empty() {
            assert!(after.state_sum().abs() < agent.state_sum().abs());
        }
        for (i, (a, b)) in s.iter().zip(plan.new_state.iter()).enumerate() {
            if a != b {
                assert_eq!(*b, Z);
                assert!(plan.modifications.iter().any(|m| m.index == i && m.from == *a));
            }
        }
    }
}

#[test]
fn apply_refit_updates_docked_agent() {
    let mut dock = Dockyard::new();
    let id = dock.register(vec![P; 4]);
    DryDock::dock(&mut dock, id, 1).unwrap();
    let plan = RefitPlanner::plan_balance(dock.get_agent(id).unwrap());
    RefitPlanner::apply(&mut dock, &plan).unwrap();
    let agent = dock.get_agent(id).unwrap();
    assert_eq!(agent.state, vec![Z, P, Z, P]);
    assert_eq!(agent.generation, 2);
    assert_eq!(agent.status, AgentStatus::Refitting);
}

#[test]
fn apply_refit_error_message() {
    let mut dock = Dockyard::new();
    let id = dock.register(vec![P; 4]);
    let plan = RefitPlanner::plan_balance(dock.get_agent(id).unwrap());
    assert_eq!(RefitPlanner::apply(&mut dock, &plan), Err("Agent must be in dry dock to refit"));
    assert_eq!(dock.get_agent(id).unwrap().status, AgentStatus::Active);
}

#[test]
fn dock_release_round_trip_and_log() {
    let mut dock = Dockyard::default();
    let a = dock.register(vec![P, N]);
    let b = dock.register(vec![Z]);
    assert_eq!((a, b), (1, 2));
    DryDock::dock(&mut dock, a, 10).unwrap();
    assert_eq!(dock.get_agent(a).unwrap().status, AgentStatus::InDryDock);
    assert!(!dock.get_agent(a).unwrap().is_operational());
    DryDock::release(&mut dock, a, 20).unwrap();
    let agent = dock.get_agent(a).unwrap();
    assert_eq!(agent.status, AgentStatus::Active);
    assert_eq!(agent.state, vec![P, N]);
    assert_eq!((dock.active_count(), dock.docked_count()), (2, 0));
    let log = dock.get_log(a);
    assert_eq!(log.len(), 1);
    assert_eq!(
        log[0],
        vec![(10, "Entered dry dock".to_string()), (20, "Released from dry dock".to_string())]
    );
    let log_b = dock.get_log(b);
    assert_eq!(log_b.len(), 1);
    assert!(log_b[0].is_empty());
}

#[test]
fn refused_requests_change_nothing() {
    let mut dock = Dockyard::new();
    let id = dock.register(vec![P]);
    assert_eq!(DryDock::release(&mut dock, id, 5), Err("Agent not found in dry dock"));
    assert_eq!(DryDock::dock(&mut dock, 42, 5), Err("Agent not found in active roster"));
    assert_eq!((dock.active_count(), dock.docked_count()), (1, 0));
    assert!(dock.get_log(id)[0].is_empty());
    assert!(dock.get_agent(42).is_none());
}

#[test]
fn register_agent_and_get_agent_mut() {
    let mut dock = Dockyard::new();
    let id = dock.register_agent(Agent::new(7, vec![Z]).with_generation(3));
    assert_eq!(id, 7);
    assert_eq!(dock.get_agent(7).unwrap().generation, 3);
    dock.get_agent_mut(7).unwrap().generation = 4;
    assert_eq!(dock.get_agent(7).unwrap().generation, 4);
    assert!(dock.get_agent_mut(8).is_none());
}

#[test]
fn register_skips_ids_in_use() {
    let mut dock = Dockyard::new();
    dock.register_agent(Agent::new(1, vec![P]));
    dock.register_agent(Agent::new(3, vec![N]));
    DryDock::dock(&mut dock, 3, 0).unwrap();
    let a = dock.register(vec![Z]);
    assert_eq!(a, 2);
    let b = dock.register(vec![Z]);
    assert_eq!(b, 4);
    assert_eq!(dock.get_agent(1).unwrap().state, vec![P]);
    assert_eq!(dock.get_agent(3).unwrap().state, vec![N]);
    assert_eq!(dock.active_count(), 3);
    assert_eq!(dock.docked_count(), 1);
}

#[test]
fn maintenance_zero_interval_counts_as_one() {
    let mut sched = MaintenanceSchedule::new(0);
    assert_eq!(sched.default_interval(), 0);
    assert!(sched.is_due(5, 0));
    sched.set_interval(5, 0);
    sched.record_maintenance(5, 30);
    assert!(!sched.is_due(5, 30));
    assert!(sched.is_due(5, 31));
    assert!(sched.is_due(5, 1000));
}

#[test]
fn maintenance_due_agents_set() {
    let mut sched = MaintenanceSchedule::new(1);
    for id in 1..=6u64 {
        sched.set_interval(id, id * 10);
        sched.record_maintenance(id, 0);
    }
    let mut due = sched.due_agents(30);
    due.sort();
    assert_eq!(due, vec![1, 2, 3]);
    // Agents known only by a recorded maintenance follow the default interval.
    sched.record_maintenance(99, 0);
    sched.record_maintenance(100, 999);
    let mut due = sched.due_agents(1000);
    due.sort();
    assert_eq!(due, vec![1, 2, 3, 4, 5, 6, 99, 100]);
    let mut due = sched.due_agents(999);
    due.sort();
    assert_eq!(due, vec![1, 2, 3, 4, 5, 6, 99]);
}

fn part(index: usize, value: Ternary, quality: f64) -> SalvagedPart {
    SalvagedPart { source_id: 1, index, value, quality: bits(quality) }
}

#[test]
fn salvage_builds_parts_in_order() {
    let mut yard = SalvageYard::default();
    let agent = Agent::new(3, vec![N, Z, P]);
    let q = vec![bits(0.9), bits(0.8), bits(0.7)];
    let parts = yard.salvage(&agent, &q);
    for (i, p) in parts.iter().enumerate() {
        assert_eq!(p.source_id, 3);
        assert_eq!(p.index, i);
        assert_eq!(p.value, agent.state[i]);
        assert_eq!(p.quality, q[i]);
    }
    yard.salvage(&agent, &q);
    assert_eq!(yard.total_parts(), 6);
    assert_eq!(yard.total_recovered(), 6);
    yard.take_best(Z);
    assert_eq!(yard.total_parts(), 5);
    assert_eq!(yard.total_recovered(), 6);
}

fn yard_with(parts: &[SalvagedPart]) -> SalvageYard {
    let mut yard = SalvageYard::new();
    for p in parts {
        let agent = Agent::new(p.source_id, vec![p.value]);
        yard.salvage(&agent, &[p.quality]);
    }
    yard
}

#[test]
fn find_parts_sorted_and_stable() {
    let yard = yard_with(&[
        part(0, P, 0.5),
        part(1, N, 0.9),
        part(2, P, 0.7),
        part(3, P, 0.5),
        part(4, P, 0.9),
    ]);
    let found = yard.find_parts(P);
    let q: Vec<f64> = found.iter().map(|p| f64::from_bits(p.quality)).collect();
    assert_eq!(q, vec![0.9, 0.7, 0.5, 0.5]);
    assert!(found.iter().all(|p| p.value == P));
    assert_eq!(yard.find_parts(Z).len(), 0);
}

#[test]
fn take_best_highest_then_last() {
    let mut yard = SalvageYard::new();
    let agent = Agent::new(1, vec![P, P, N, P]);
    yard.salvage(&agent, &[bits(0.4), bits(0.9), bits(1.0), bits(0.9)]);
    let best = yard.take_best(P).unwrap();
    assert_eq!(best.index, 3);
    assert_eq!(f64::from_bits(best.quality), 0.9);
    let best = yard.take_best(P).unwrap();
    assert_eq!(best.index, 1);
    let best = yard.take_best(P).unwrap();
    assert_eq!(best.index, 0);
    assert!(yard.take_best(P).is_none());
    assert_eq!(yard.total_parts(), 1);
}
