//! Arguments of the audit commands: the event listing (`sp events`) and
//! the health check (`sp doctor`).

use vstd::prelude::*;

verus! {

/// List events, optionally of one entity type and/or entity id, at most
/// `limit` (20 by default).
#[derive(Debug, Clone)]
pub struct EventsArgs {
    pub entity_type: Option<String>,
    pub entity: Option<String>,
    pub limit: usize,
}

/// Run the health check, with integrity checks when asked.
#[derive(Debug, Clone, Copy, PartialEq, Eq, Structural)]
pub struct DoctorArgs {
    pub integrity: bool,
}

impl EventsArgs {
    /// All events, the default number of them.
    pub fn all() -> (r: EventsArgs)
        ensures
            r.entity_type is None,
            r.entity is None,
            r.limit == 20,
    {
        EventsArgs { entity_type: None, entity: None, limit: 20 }
    }
}

} // verus!
