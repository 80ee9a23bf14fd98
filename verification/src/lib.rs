//! Short-circuit study case model, its validation and normalisation rules, the
//! connectivity of the sequence networks, and the domain view of a case.

use vstd::prelude::*;

pub mod cli;
pub mod domain;
pub mod error;
pub mod model;
pub mod quantity;
pub mod report;
pub mod sample;
pub mod text;
pub mod topology;

pub use domain::{
    bus_display, bus_schedule_row, domain_summary, model_warnings, source_schedule_row,
    voltage_specs, BusDisplay, DomainSummary, ScheduleRow, VoltageSpec,
};
pub use error::FaultCalcError;
pub use model::{
    default_branch_kind, default_enabled, default_source_kind, Branch, Bus, CalculationOptions,
    ConductorSet, Impedance, MagnitudeChecks, Network, ProjectInfo, Source, TransformerNameplate,
    UtilityEquivalent,
};
pub use quantity::Quantity;
pub use sample::sample_network;
pub use topology::{connected_component, SeqBranch, SeqTopology, Sequence};

verus! {

/// Version of the calculation engine.
pub const VERSION: &'static str = "0.3.0-rust-wasm";

} // verus!
