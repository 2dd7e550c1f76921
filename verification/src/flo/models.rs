//! Minimal structures mirroring the FLO API objects that the watcher reads.

use vstd::prelude::*;

verus! {

/// Park is a group of EV charging stations.
#[derive(Clone, Debug)]
pub struct Park {
    pub id: String,
    pub stations: Vec<Station>,
}

/// Station is an EV charging station indicating its availability status.
#[derive(Clone, Debug)]
pub struct Station {
    pub id: String,
    pub status: Status,
}

/// Status indicates current availability of an EV charging station.
#[derive(Clone, Copy, Debug, PartialEq, Eq, Structural)]
pub enum Status {
    InUse,
    Available,
    Other,
}

impl Default for Status {
    /// A status that the API reported in a form the bot does not know.
    fn default() -> (s: Status)
        ensures
            s == Status::Other,
    {
        Status::Other
    }
}

} // verus!
