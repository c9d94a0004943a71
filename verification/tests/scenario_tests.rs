use ternary_dockyard::{
    Agent, AgentId, AgentStatus, Dockyard, DryDock, MaintenanceSchedule, Priority, RefitPlanner,
    RepairBillDiagnostic, SalvageYard, Severity, Ternary,
};

fn make_agent(id: AgentId, state: Vec<Ternary>) -> Agent {
    Agent::new(id, state)
}

fn t() -> Vec<Ternary> {
    vec![Ternary::Positive, Ternary::Negative, Ternary::Zero]
}

/// Quality of each salvaged component: health scaled down by up to 30%
/// along the state vector.
fn qualities(agent: &Agent) -> Vec<u64> {
    let health = f64::from_bits(agent.health);
    let len = agent.state.len().max(1) as f64;
    (0..agent.state.len())
        .map(|i| (health * (1.0 - (i as f64 / len) * 0.3)).to_bits())
        .collect()
}

#[test]
fn test_ternary_values() {
    assert_eq!(Ternary::Negative.value(), -1);
    assert_eq!(Ternary::Zero.value(), 0);
    assert_eq!(Ternary::Positive.value(), 1);
}

#[test]
fn test_ternary_from_value() {
    assert_eq!(Ternary::from_value(-1), Some(Ternary::Negative));
    assert_eq!(Ternary::from_value(0), Some(Ternary::Zero));
    assert_eq!(Ternary::from_value(1), Some(Ternary::Positive));
    assert_eq!(Ternary::from_value(2), None);
}

#[test]
fn test_agent_creation() {
    let agent = Agent::new(1, t());
    assert_eq!(agent.id, 1);
    assert_eq!(agent.state.len(), 3);
    assert_eq!(f64::from_bits(agent.health), 1.0);
    assert!(agent.is_operational());
}

#[test]
fn test_agent_health_clamp() {
    let agent = Agent::new(1, t()).with_health(1.5f64.to_bits());
    assert!((f64::from_bits(agent.health) - 1.0).abs() < f64::EPSILON);
    let agent = Agent::new(2, t()).with_health((-0.5f64).to_bits());
    assert!((f64::from_bits(agent.health) - 0.0).abs() < f64::EPSILON);
}

#[test]
fn test_dockyard_register() {
    let mut dock = Dockyard::new();
    let id = dock.register(t());
    assert_eq!(id, 1);
    assert_eq!(dock.active_count(), 1);
    assert_eq!(dock.docked_count(), 0);
}

#[test]
fn test_dockyard_register_multiple() {
    let mut dock = Dockyard::new();
    dock.register(t());
    dock.register(t());
    assert_eq!(dock.active_count(), 2);
}

#[test]
fn test_drydock_dock_and_release() {
    let mut dock = Dockyard::new();
    let id = dock.register(t());
    assert!(DryDock::dock(&mut dock, id, 10).is_ok());
    assert_eq!(dock.docked_count(), 1);
    assert_eq!(dock.active_count(), 0);
    assert!(DryDock::release(&mut dock, id, 20).is_ok());
    assert_eq!(dock.active_count(), 1);
    assert_eq!(dock.docked_count(), 0);
}

#[test]
fn test_drydock_dock_nonexistent() {
    let mut dock = Dockyard::new();
    assert!(DryDock::dock(&mut dock, 999, 10).is_err());
}

#[test]
fn test_drydock_release_not_docked() {
    let mut dock = Dockyard::new();
    let id = dock.register(t());
    assert!(DryDock::release(&mut dock, id, 10).is_err());
}

#[test]
fn test_diagnose_healthy_agent() {
    let agent = Agent::new(1, t());
    let bill = RepairBillDiagnostic::diagnose(&agent);
    assert!(bill.issues.is_empty());
    assert_eq!(bill.priority, Priority::Routine);
}

#[test]
fn test_diagnose_low_health() {
    let agent = Agent::new(1, t()).with_health(0.1f64.to_bits());
    let bill = RepairBillDiagnostic::diagnose(&agent);
    assert!(!bill.issues.is_empty());
    assert_eq!(bill.priority, Priority::Emergency);
    assert!(bill.issues.iter().any(|i| i.severity == Severity::Critical));
}

#[test]
fn test_diagnose_stagnation() {
    let agent = Agent::new(1, vec![Ternary::Positive; 5]);
    let bill = RepairBillDiagnostic::diagnose(&agent);
    assert!(bill.issues.iter().any(|i| i.description.contains("stagnation")));
}

#[test]
fn test_diagnose_oscillation() {
    let agent = Agent::new(
        1,
        vec![Ternary::Negative, Ternary::Positive, Ternary::Negative, Ternary::Positive],
    );
    let bill = RepairBillDiagnostic::diagnose(&agent);
    assert!(bill.issues.iter().any(|i| i.description.contains("oscillation")));
}

#[test]
fn test_diagnose_passivity() {
    let agent = Agent::new(1, vec![Ternary::Zero; 10]);
    let bill = RepairBillDiagnostic::diagnose(&agent);
    assert!(bill.issues.iter().any(|i| i.description.contains("passivity")));
}

#[test]
fn test_refit_plan_balance() {
    let agent = Agent::new(1, vec![Ternary::Positive; 6]);
    let plan = RefitPlanner::plan_balance(&agent);
    assert!(!plan.modifications.is_empty());
    assert_eq!(plan.target_generation, 2);
}

#[test]
fn test_refit_apply() {
    let mut dock = Dockyard::new();
    let agent = Agent::new(1, vec![Ternary::Positive; 6]);
    dock.register_agent(agent);
    DryDock::dock(&mut dock, 1, 10).unwrap();
    let plan = RefitPlanner::plan_balance(dock.get_agent(1).unwrap());
    assert!(RefitPlanner::apply(&mut dock, &plan).is_ok());
    let agent = dock.get_agent(1).unwrap();
    assert_eq!(agent.status, AgentStatus::Refitting);
}

#[test]
fn test_refit_apply_not_docked() {
    let mut dock = Dockyard::new();
    dock.register(vec![Ternary::Positive; 4]);
    let agent = dock.get_agent(1).unwrap().clone();
    let plan = RefitPlanner::plan_balance(&agent);
    assert!(RefitPlanner::apply(&mut dock, &plan).is_err());
}

#[test]
fn test_maintenance_schedule() {
    let mut sched = MaintenanceSchedule::new(100);
    sched.set_interval(1, 50);
    sched.record_maintenance(1, 0);
    assert!(!sched.is_due(1, 49));
    assert!(sched.is_due(1, 50));
}

#[test]
fn test_maintenance_schedule_default_interval() {
    let sched = MaintenanceSchedule::new(100);
    assert!(sched.is_due(99, 100));
}

#[test]
fn test_salvage_yard() {
    let mut yard = SalvageYard::new();
    let agent = make_agent(1, t());
    let parts = yard.salvage(&agent, &qualities(&agent));
    assert_eq!(parts.len(), 3);
    assert_eq!(yard.total_parts(), 3);
    assert_eq!(yard.total_recovered(), 3);
}

#[test]
fn test_salvage_find_parts() {
    let mut yard = SalvageYard::new();
    let agent = Agent::new(1, vec![Ternary::Positive, Ternary::Positive, Ternary::Negative]);
    yard.salvage(&agent, &qualities(&agent));
    let pos_parts = yard.find_parts(Ternary::Positive);
    assert_eq!(pos_parts.len(), 2);
}

#[test]
fn test_salvage_take_best() {
    let mut yard = SalvageYard::new();
    let agent = Agent::new(1, t());
    yard.salvage(&agent, &qualities(&agent));
    let best = yard.take_best(Ternary::Positive);
    assert!(best.is_some());
    assert_eq!(yard.total_parts(), 2);
}

#[test]
fn test_salvage_take_best_empty() {
    let mut yard = SalvageYard::new();
    assert!(yard.take_best(Ternary::Positive).is_none());
}

#[test]
fn test_maintenance_due_agents() {
    let mut sched = MaintenanceSchedule::new(10);
    sched.set_interval(1, 5);
    sched.set_interval(2, 20);
    sched.record_maintenance(1, 0);
    sched.record_maintenance(2, 0);
    let due = sched.due_agents(5);
    assert_eq!(due, vec![1]);
}
