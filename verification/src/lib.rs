//! Verified core of a container-aware backup agent.
//!
//! The library covers the logic of the agent: configuration parsing,
//! permission resolution, compression level handling, tar archive
//! composition, archive naming, identification of the agent's own
//! container and of the containers that must be stopped around an
//! archive run, and the orchestration state machine for one backup
//! cycle. All I/O (environment, filesystem, container runtime) is left
//! to the surrounding application, which feeds this library plain
//! values and carries out the actions it decides.

pub mod archive;
pub mod compress;
pub mod configuration;
pub mod containers;
pub mod error;
pub mod orchestrator;
pub mod tar;
pub mod text;
