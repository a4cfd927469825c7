use vstd::prelude::*;

verus! {

/// Failure taxonomy of the resolution-and-dispatch pipeline.
///
/// `NotFound` covers a missing storage root, library entry, manifest, asset
/// configuration file, or a hotkey requested by name. `ParseError` covers
/// malformed descriptor, manifest or asset configuration content, including a
/// non-numeric application id. `IoError` is a filesystem access failure other
/// than non-existence. `ProtocolError` is a rejection or drop reported by the
/// remote control service.
#[derive(Clone, Copy, Debug, PartialEq, Eq, Structural)]
pub enum AppError {
    NotFound,
    ParseError,
    IoError,
    ProtocolError,
}

} // verus!
