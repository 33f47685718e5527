//! Atlas: a store of small knowledge atoms for coding agents, organised by
//! organisation and project, with mutual links between atoms.
pub mod text;
pub mod error;
pub mod context;
pub mod reference;
pub mod models;
pub mod link;
pub mod telemetry;
pub mod cli;
pub mod client_context;
pub mod write;
pub mod atoms;
