//! Maintenance and repair of ternary agents.
//!
//! A dockyard takes ternary agents offline, diagnoses their state vectors,
//! plans rebalancing refits, schedules preventive maintenance and salvages
//! components from decommissioned agents.

pub mod agent;
pub mod binary64;
pub mod decimal;
pub mod dockyard;
pub mod maintenance;
pub mod refit;
pub mod repair;
pub mod salvage;
pub mod ternary;

pub use agent::{Agent, AgentId, AgentStatus};
pub use dockyard::{Dockyard, DryDock};
pub use maintenance::MaintenanceSchedule;
pub use refit::{Modification, RefitPlan, RefitPlanner};
pub use repair::{Issue, Priority, RepairBill, RepairBillDiagnostic, Severity};
pub use salvage::{SalvageYard, SalvagedPart};
pub use ternary::Ternary;
