//! A small pipeline-execution engine: named processing units ("blocks")
//! are wired together by directed edges between their ports; the engine
//! computes a topological execution order, runs each block with the
//! artifacts produced by its predecessors, and aggregates results or
//! failures according to a configurable failure policy.

pub mod adapters;
pub mod blocks;
pub mod engine;
pub mod model;
pub mod sched;
pub mod table;
pub mod ui;

pub use engine::{Edge, Engine, ExecutionError, ExecutionOptions, GraphSpec, RunOutputs};
pub use model::{Artifact, ArtifactMap, ArtifactView, Block, BlockError, BlockErrorView, BlockId, BlockSpec, Port, PortId, PortKind, StepResult};
pub use table::Table;
