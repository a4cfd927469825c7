//! Verified core of a hotkey control panel for a locally installed
//! streaming-avatar application.
//!
//! The library covers the resolution-and-dispatch pipeline: discovery of the
//! package manager's storage root, parsing of its library descriptor and
//! per-application install manifests, construction of a hotkey catalog from
//! per-asset configuration files, session-token bookkeeping, indexing of live
//! scene instances, and planning of concurrent trigger dispatch. All
//! filesystem and network traffic stays in the surrounding application; the
//! functions here work on plain values and carry contracts.

pub mod errors;
pub mod text;
pub mod vdf;
pub mod steam;
pub mod json;
pub mod catalog;
pub mod instances;
pub mod dispatch;
pub mod session;
