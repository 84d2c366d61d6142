//! The event log behind undo and redo.
//!
//! Every mutation is recorded as an event with its before/after state. A
//! pointer marks the position in the log: undo reverses the event at the
//! pointer and moves it back, redo re-applies the event after it and moves
//! it forward, and a new event recorded after an undo discards the events
//! beyond the pointer (the redo stack).

use vstd::prelude::*;
use crate::text::{str_eq, ends_with_str, spec_ends_with, str_to_lowercase, spec_to_lowercase, all_ascii, ascii_lower};

verus! {

// ---------------------------------------------------------------------------
// EventSource
// ---------------------------------------------------------------------------

/// Source of an event (who or what triggered the mutation).
#[derive(Debug, Clone, Copy, PartialEq, Eq, Structural)]
pub enum EventSource {
    User,
    Agent,
    Import,
    Migration,
}

/// The lowercase name of a source.
pub open spec fn source_name(s: EventSource) -> Seq<char> {
    match s {
        EventSource::User => "user"@,
        EventSource::Agent => "agent"@,
        EventSource::Import => "import"@,
        EventSource::Migration => "migration"@,
    }
}

/// The source a lowercase name denotes, if any.
pub open spec fn source_from_name(n: Seq<char>) -> Option<EventSource> {
    if n == "user"@ {
        Some(EventSource::User)
    } else if n == "agent"@ {
        Some(EventSource::Agent)
    } else if n == "import"@ {
        Some(EventSource::Import)
    } else if n == "migration"@ {
        Some(EventSource::Migration)
    } else {
        None
    }
}

impl EventSource {
    /// The source's lowercase name, as it is stored in the log.
    pub fn to_string(&self) -> (r: String)
        ensures
            r@ == source_name(*self),
    {
        match self {
            EventSource::User => String::from_str("user"),
            EventSource::Agent => String::from_str("agent"),
            EventSource::Import => String::from_str("import"),
            EventSource::Migration => String::from_str("migration"),
        }
    }

    /// Parse a source name, ignoring case.
    pub fn parse(s: &str) -> (r: Result<EventSource, EventError>)
        ensures
            match source_from_name(spec_to_lowercase(s@)) {
                Some(src) => r == Ok::<EventSource, EventError>(src),
                None => r matches Err(EventError::UnknownSource(t)) && t@ == s@,
            },
            all_ascii(s@) ==> match source_from_name(s@.map_values(|c: char| ascii_lower(c))) {
                Some(src) => r == Ok::<EventSource, EventError>(src),
                None => r matches Err(EventError::UnknownSource(t)) && t@ == s@,
            },
    {
        let lower = str_to_lowercase(s);
        let l = lower.as_str();
        if str_eq(l, "user") {
            Ok(EventSource::User)
        } else if str_eq(l, "agent") {
            Ok(EventSource::Agent)
        } else if str_eq(l, "import") {
            Ok(EventSource::Import)
        } else if str_eq(l, "migration") {
            Ok(EventSource::Migration)
        } else {
            Err(EventError::UnknownSource(String::from_str(s)))
        }
    }
}

/// A source's name reads back as that source: the name is ASCII, and
/// lower-casing it changes nothing, so `parse` of `to_string` gives the
/// source back.
pub proof fn lemma_source_name_round_trip(s: EventSource)
    ensures
        all_ascii(source_name(s)),
        source_from_name(source_name(s).map_values(|c: char| ascii_lower(c))) == Some(s),
{
    reveal_strlit("user");
    reveal_strlit("agent");
    reveal_strlit("import");
    reveal_strlit("migration");
    let n = source_name(s);
    assert(n.map_values(|c: char| ascii_lower(c)) =~= n);
}

impl std::str::FromStr for EventSource {
    type Err = EventError;

    fn from_str(s: &str) -> (r: Result<EventSource, EventError>)
        ensures
            match source_from_name(spec_to_lowercase(s@)) {
                Some(src) => r == Ok::<EventSource, EventError>(src),
                None => r matches Err(EventError::UnknownSource(t)) && t@ == s@,
            },
            all_ascii(s@) ==> match source_from_name(s@.map_values(|c: char| ascii_lower(c))) {
                Some(src) => r == Ok::<EventSource, EventError>(src),
                None => r matches Err(EventError::UnknownSource(t)) && t@ == s@,
            },
    {
        EventSource::parse(s)
    }
}

// ---------------------------------------------------------------------------
// Errors
// ---------------------------------------------------------------------------

/// The kind of change an event records, read from its type's suffix.
#[derive(Debug, Clone, Copy, PartialEq, Eq, Structural)]
pub enum ChangeKind {
    Created,
    Deleted,
    Updated,
}

/// Errors of the event log.
#[derive(Debug, Clone, PartialEq, Eq)]
pub enum EventError {
    /// The pointer is at the start of the log.
    NothingToUndo,
    /// No event follows the pointer.
    NothingToRedo,
    /// The event type ends in none of `.created`, `.deleted`, `.updated`.
    UnknownEventTypeSuffix(String),
    /// Undoing this kind of change needs a before-state the event lacks.
    MissingBeforeState(ChangeKind),
    /// Redoing this kind of change needs an after-state the event lacks.
    MissingAfterState(ChangeKind),
    /// The entity type names no table.
    UnknownEntityType(String),
    /// The name names no event source.
    UnknownSource(String),
}

// ---------------------------------------------------------------------------
// Entity tables
// ---------------------------------------------------------------------------

/// The table that stores each entity type.
pub open spec fn table_for(entity_type: Seq<char>) -> Option<Seq<char>> {
    if entity_type == "topology"@ {
        Some("topologies"@)
    } else if entity_type == "node"@ {
        Some("nodes"@)
    } else if entity_type == "volume"@ {
        Some("volumes"@)
    } else if entity_type == "dataset"@ {
        Some("datasets"@)
    } else if entity_type == "placement"@ {
        Some("placements"@)
    } else if entity_type == "link"@ {
        Some("links"@)
    } else if entity_type == "sync_regime"@ {
        Some("sync_regimes"@)
    } else if entity_type == "decision"@ {
        Some("decisions"@)
    } else if entity_type == "decision_constraint"@ {
        Some("decision_constraints"@)
    } else if entity_type == "decision_topology"@ {
        Some("decision_topologies"@)
    } else if entity_type == "catalog_item"@ {
        Some("catalog_items"@)
    } else if entity_type == "price"@ {
        Some("prices"@)
    } else {
        None
    }
}

/// The plural of an entity type's name: a final `y` becomes `ies`, any
/// other name gains an `s`.
pub open spec fn plural(t: Seq<char>) -> Seq<char> {
    if t.len() > 0 && t.last() == 'y' {
        t.drop_last() + seq!['i', 'e', 's']
    } else {
        t + seq!['s']
    }
}

/// Each entity type is stored in the table named by its plural.
pub proof fn lemma_table_is_plural(entity_type: Seq<char>)
    ensures
        table_for(entity_type) matches Some(t) ==> t == plural(entity_type),
{
    reveal_strlit("topology");
    reveal_strlit("topologies");
    reveal_strlit("node");
    reveal_strlit("nodes");
    reveal_strlit("volume");
    reveal_strlit("volumes");
    reveal_strlit("dataset");
    reveal_strlit("datasets");
    reveal_strlit("placement");
    reveal_strlit("placements");
    reveal_strlit("link");
    reveal_strlit("links");
    reveal_strlit("sync_regime");
    reveal_strlit("sync_regimes");
    reveal_strlit("decision");
    reveal_strlit("decisions");
    reveal_strlit("decision_constraint");
    reveal_strlit("decision_constraints");
    reveal_strlit("decision_topology");
    reveal_strlit("decision_topologies");
    reveal_strlit("catalog_item");
    reveal_strlit("catalog_items");
    reveal_strlit("price");
    reveal_strlit("prices");
    assert("topologies"@ =~= "topology"@.drop_last() + seq!['i', 'e', 's']);
    assert("nodes"@ =~= "node"@ + seq!['s']);
    assert("volumes"@ =~= "volume"@ + seq!['s']);
    assert("datasets"@ =~= "dataset"@ + seq!['s']);
    assert("placements"@ =~= "placement"@ + seq!['s']);
    assert("links"@ =~= "link"@ + seq!['s']);
    assert("sync_regimes"@ =~= "sync_regime"@ + seq!['s']);
    assert("decisions"@ =~= "decision"@ + seq!['s']);
    assert("decision_constraints"@ =~= "decision_constraint"@ + seq!['s']);
    assert("decision_topologies"@ =~= "decision_topology"@.drop_last() + seq!['i', 'e', 's']);
    assert("catalog_items"@ =~= "catalog_item"@ + seq!['s']);
    assert("prices"@ =~= "price"@ + seq!['s']);
}

/// Map entity type name to database table name.
pub fn entity_table_name(entity_type: &str) -> (r: Result<&'static str, EventError>)
    ensures
        match table_for(entity_type@) {
            Some(t) => r matches Ok(name) && name@ == t,
            None => r matches Err(EventError::UnknownEntityType(s)) && s@ == entity_type@,
        },
{
    if str_eq(entity_type, "topology") {
        Ok("topologies")
    } else if str_eq(entity_type, "node") {
        Ok("nodes")
    } else if str_eq(entity_type, "volume") {
        Ok("volumes")
    } else if str_eq(entity_type, "dataset") {
        Ok("datasets")
    } else if str_eq(entity_type, "placement") {
        Ok("placements")
    } else if str_eq(entity_type, "link") {
        Ok("links")
    } else if str_eq(entity_type, "sync_regime") {
        Ok("sync_regimes")
    } else if str_eq(entity_type, "decision") {
        Ok("decisions")
    } else if str_eq(entity_type, "decision_constraint") {
        Ok("decision_constraints")
    } else if str_eq(entity_type, "decision_topology") {
        Ok("decision_topologies")
    } else if str_eq(entity_type, "catalog_item") {
        Ok("catalog_items")
    } else if str_eq(entity_type, "price") {
        Ok("prices")
    } else {
        Err(EventError::UnknownEntityType(String::from_str(entity_type)))
    }
}

} // verus!

verus! {

// ---------------------------------------------------------------------------
// Events and the actions that reverse or re-apply them
// ---------------------------------------------------------------------------

/// One entry of the event log.
#[derive(Debug, Clone)]
pub struct EventRecord {
    /// Position in the log, counted from 1.
    pub sequence: i64,
    /// `<entity>.<created|deleted|updated>`.
    pub event_type: String,
    pub entity_type: String,
    pub entity_id: String,
    pub summary: String,
    /// JSON state of the entity before the change, if any.
    pub before_state: Option<String>,
    /// JSON state of the entity after the change, if any.
    pub after_state: Option<String>,
    /// Name of the event source.
    pub source: String,
    pub actor: String,
}

/// The change recorded by an event type, read from its suffix.
pub open spec fn change_kind(event_type: Seq<char>) -> Option<ChangeKind> {
    if spec_ends_with(event_type, ".created"@) {
        Some(ChangeKind::Created)
    } else if spec_ends_with(event_type, ".deleted"@) {
        Some(ChangeKind::Deleted)
    } else if spec_ends_with(event_type, ".updated"@) {
        Some(ChangeKind::Updated)
    } else {
        None
    }
}

/// What must be done to the stored entities to undo or redo one event.
#[derive(Debug, Clone, PartialEq, Eq)]
pub enum EntityAction {
    /// Delete the entity with this id from the entity type's table.
    Delete { entity_type: String, entity_id: String },
    /// Insert the entity described by this JSON state.
    Insert { entity_type: String, state: String },
    /// Overwrite the stored entity in place with this JSON state
    /// (keeps the rows that refer to it).
    Update { entity_type: String, state: String },
    /// Move the pointer only; the entities are not touched.
    Skip,
}

/// The action that undoes an event.
pub open spec fn undo_action(e: EventRecord) -> Result<EntityAction, EventError> {
    match change_kind(e.event_type@) {
        Some(ChangeKind::Created) => Ok(
            EntityAction::Delete { entity_type: e.entity_type, entity_id: e.entity_id },
        ),
        Some(ChangeKind::Deleted) => match e.before_state {
            Some(b) => Ok(EntityAction::Insert { entity_type: e.entity_type, state: b }),
            None => Err(EventError::MissingBeforeState(ChangeKind::Deleted)),
        },
        Some(ChangeKind::Updated) => match e.before_state {
            Some(b) => Ok(EntityAction::Update { entity_type: e.entity_type, state: b }),
            None => Err(EventError::MissingBeforeState(ChangeKind::Updated)),
        },
        None => Err(EventError::UnknownEventTypeSuffix(e.event_type)),
    }
}

/// The action that re-applies an event.
pub open spec fn redo_action(e: EventRecord) -> Result<EntityAction, EventError> {
    match change_kind(e.event_type@) {
        Some(ChangeKind::Created) => match e.after_state {
            Some(a) => Ok(EntityAction::Insert { entity_type: e.entity_type, state: a }),
            None => Err(EventError::MissingAfterState(ChangeKind::Created)),
        },
        Some(ChangeKind::Deleted) => Ok(
            EntityAction::Delete { entity_type: e.entity_type, entity_id: e.entity_id },
        ),
        Some(ChangeKind::Updated) => match e.after_state {
            Some(a) => Ok(EntityAction::Update { entity_type: e.entity_type, state: a }),
            None => Err(EventError::MissingAfterState(ChangeKind::Updated)),
        },
        None => Err(EventError::UnknownEventTypeSuffix(e.event_type)),
    }
}

/// Undo and redo of one event mirror each other: what undo deletes (the
/// event's own entity) redo inserts again from the after state; what redo
/// deletes undo inserts again from the before state; an update is undone
/// with the before state and redone with the after state. A `.created`
/// event is undone by deleting its entity, a `.deleted` one redone by
/// deleting it, and an `.updated` one is never undone or redone by an
/// insert or a delete.
pub proof fn lemma_undo_redo_mirror(e: EventRecord)
    ensures
        undo_action(e) matches Ok(EntityAction::Delete { entity_type, entity_id }) ==> entity_type == e.entity_type
            && entity_id == e.entity_id && (e.after_state is Some ==> redo_action(e) == Ok::<EntityAction, EventError>(
            EntityAction::Insert { entity_type: e.entity_type, state: e.after_state->0 },
        )),
        redo_action(e) matches Ok(EntityAction::Delete { entity_type, entity_id }) ==> entity_type == e.entity_type
            && entity_id == e.entity_id && (e.before_state is Some ==> undo_action(e) == Ok::<EntityAction, EventError>(
            EntityAction::Insert { entity_type: e.entity_type, state: e.before_state->0 },
        )),
        undo_action(e) matches Ok(EntityAction::Update { entity_type, state }) ==> entity_type == e.entity_type
            && Some(state) == e.before_state && (e.after_state is Some ==> redo_action(e) == Ok::<EntityAction, EventError>(
            EntityAction::Update { entity_type: e.entity_type, state: e.after_state->0 },
        )),
        spec_ends_with(e.event_type@, seq!['.', 'c', 'r', 'e', 'a', 't', 'e', 'd']) ==> undo_action(e) matches Ok(
            EntityAction::Delete { .. },
        ),
        spec_ends_with(e.event_type@, seq!['.', 'd', 'e', 'l', 'e', 't', 'e', 'd']) ==> redo_action(e) matches Ok(
            EntityAction::Delete { .. },
        ),
        spec_ends_with(e.event_type@, seq!['.', 'u', 'p', 'd', 'a', 't', 'e', 'd']) ==> !(undo_action(e) matches Ok(
            EntityAction::Delete { .. },
        )) && !(undo_action(e) matches Ok(EntityAction::Insert { .. })) && !(redo_action(e) matches Ok(
            EntityAction::Delete { .. },
        )) && !(redo_action(e) matches Ok(EntityAction::Insert { .. })),
{
    reveal_strlit(".created");
    reveal_strlit(".deleted");
    reveal_strlit(".updated");
    assert(".created"@ =~= seq!['.', 'c', 'r', 'e', 'a', 't', 'e', 'd']);
    assert(".deleted"@ =~= seq!['.', 'd', 'e', 'l', 'e', 't', 'e', 'd']);
    assert(".updated"@ =~= seq!['.', 'u', 'p', 'd', 'a', 't', 'e', 'd']);
}

fn event_change_kind(e: &EventRecord) -> (r: Option<ChangeKind>)
    ensures
        r == change_kind(e.event_type@),
{
    let t = e.event_type.as_str();
    if ends_with_str(t, ".created") {
        Some(ChangeKind::Created)
    } else if ends_with_str(t, ".deleted") {
        Some(ChangeKind::Deleted)
    } else if ends_with_str(t, ".updated") {
        Some(ChangeKind::Updated)
    } else {
        None
    }
}

/// A field-by-field copy of an event.
pub fn copy_record(e: &EventRecord) -> (r: EventRecord)
    ensures
        r == *e,
{
    EventRecord {
        sequence: e.sequence,
        event_type: e.event_type.clone(),
        entity_type: e.entity_type.clone(),
        entity_id: e.entity_id.clone(),
        summary: e.summary.clone(),
        before_state: clone_opt(&e.before_state),
        after_state: clone_opt(&e.after_state),
        source: e.source.clone(),
        actor: e.actor.clone(),
    }
}

fn clone_opt(s: &Option<String>) -> (r: Option<String>)
    ensures
        r == *s,
{
    match s {
        Some(x) => Some(x.clone()),
        None => None,
    }
}

/// The action that undoes `e`.
pub fn undo_action_for(e: &EventRecord) -> (r: Result<EntityAction, EventError>)
    ensures
        r == undo_action(*e),
{
    match event_change_kind(e) {
        Some(ChangeKind::Created) => Ok(
            EntityAction::Delete { entity_type: e.entity_type.clone(), entity_id: e.entity_id.clone() },
        ),
        Some(ChangeKind::Deleted) => match clone_opt(&e.before_state) {
            Some(b) => Ok(EntityAction::Insert { entity_type: e.entity_type.clone(), state: b }),
            None => Err(EventError::MissingBeforeState(ChangeKind::Deleted)),
        },
        Some(ChangeKind::Updated) => match clone_opt(&e.before_state) {
            Some(b) => Ok(EntityAction::Update { entity_type: e.entity_type.clone(), state: b }),
            None => Err(EventError::MissingBeforeState(ChangeKind::Updated)),
        },
        None => Err(EventError::UnknownEventTypeSuffix(e.event_type.clone())),
    }
}

/// The action that re-applies `e`.
pub fn redo_action_for(e: &EventRecord) -> (r: Result<EntityAction, EventError>)
    ensures
        r == redo_action(*e),
{
    match event_change_kind(e) {
        Some(ChangeKind::Created) => match clone_opt(&e.after_state) {
            Some(a) => Ok(EntityAction::Insert { entity_type: e.entity_type.clone(), state: a }),
            None => Err(EventError::MissingAfterState(ChangeKind::Created)),
        },
        Some(ChangeKind::Deleted) => Ok(
            EntityAction::Delete { entity_type: e.entity_type.clone(), entity_id: e.entity_id.clone() },
        ),
        Some(ChangeKind::Updated) => match clone_opt(&e.after_state) {
            Some(a) => Ok(EntityAction::Update { entity_type: e.entity_type.clone(), state: a }),
            None => Err(EventError::MissingAfterState(ChangeKind::Updated)),
        },
        None => Err(EventError::UnknownEventTypeSuffix(e.event_type.clone())),
    }
}

// ---------------------------------------------------------------------------
// The log
// ---------------------------------------------------------------------------

/// Mathematical view of the log: its events and the undo pointer.
#[verifier::ext_equal]
pub struct LogView {
    pub events: Seq<EventRecord>,
    pub pointer: int,
}

/// The events numbered 1, 2, ... in order, and the pointer within them.
pub open spec fn log_wf(v: LogView) -> bool {
    &&& 0 <= v.pointer <= v.events.len()
    &&& v.events.len() < i64::MAX
    &&& forall|k: int| 0 <= k < v.events.len() ==> #[trigger] v.events[k].sequence == k + 1
}

/// The log after recording `e` (whose sequence must be `pointer + 1`):
/// the events beyond the pointer are discarded and `e` is appended.
pub open spec fn spec_record(v: LogView, e: EventRecord) -> LogView {
    LogView { events: v.events.subrange(0, v.pointer).push(e), pointer: v.pointer + 1 }
}

/// Undo: the new view, the summary of the undone event, and the action.
pub open spec fn spec_undo(v: LogView, skip: bool) -> Result<(LogView, String, EntityAction), EventError> {
    if v.pointer < 1 {
        Err(EventError::NothingToUndo)
    } else {
        let e = v.events[v.pointer - 1];
        let nv = LogView { events: v.events, pointer: v.pointer - 1 };
        if skip {
            Ok((nv, e.summary, EntityAction::Skip))
        } else {
            match undo_action(e) {
                Ok(a) => Ok((nv, e.summary, a)),
                Err(err) => Err(err),
            }
        }
    }
}

/// Redo: the new view, the summary of the redone event, and the action.
pub open spec fn spec_redo(v: LogView, skip: bool) -> Result<(LogView, String, EntityAction), EventError> {
    if v.pointer >= v.events.len() {
        Err(EventError::NothingToRedo)
    } else {
        let e = v.events[v.pointer];
        let nv = LogView { events: v.events, pointer: v.pointer + 1 };
        if skip {
            Ok((nv, e.summary, EntityAction::Skip))
        } else {
            match redo_action(e) {
                Ok(a) => Ok((nv, e.summary, a)),
                Err(err) => Err(err),
            }
        }
    }
}

/// What an undo or redo did: the summary of the event and the action on
/// the stored entities that the caller must carry out.
#[derive(Debug, Clone, PartialEq, Eq)]
pub struct StepOutcome {
    pub summary: String,
    pub action: EntityAction,
}

/// The event log: the recorded events and the undo pointer.
pub struct EventLog {
    pub events: Vec<EventRecord>,
    pub pointer: i64,
}

impl View for EventLog {
    type V = LogView;

    open spec fn view(&self) -> LogView {
        LogView { events: self.events@, pointer: self.pointer as int }
    }
}

impl EventLog {
    /// An empty log with the pointer at 0.
    pub fn new() -> (r: EventLog)
        ensures
            log_wf(r@),
            r@.events.len() == 0,
            r@.pointer == 0,
    {
        EventLog { events: Vec::new(), pointer: 0 }
    }

    /// A log from stored events and pointer, if they are well formed
    /// (events numbered 1, 2, ... in order, pointer within them).
    pub fn from_parts(events: Vec<EventRecord>, pointer: i64) -> (r: Option<EventLog>)
        ensures
            r is Some <==> log_wf(LogView { events: events@, pointer: pointer as int }),
            r matches Some(l) ==> l.events@ == events@ && l.pointer == pointer,
    {
        if pointer < 0 || events.len() as u64 >= i64::MAX as u64 {
            return None;
        }
        if pointer as u64 > events.len() as u64 {
            return None;
        }
        let mut k: usize = 0;
        while k < events.len()
            invariant
                k <= events.len(),
                events.len() < i64::MAX,
                forall|j: int| 0 <= j < k ==> #[trigger] events@[j].sequence == j + 1,
            decreases events.len() - k,
        {
            if events[k].sequence != (k as i64) + 1 {
                return None;
            }
            k = k + 1;
        }
        Some(EventLog { events, pointer })
    }

    /// Record a new event after the pointer: the events beyond the pointer
    /// are discarded, the event gets sequence `pointer + 1`, and the pointer
    /// moves onto it. Returns the recorded event.
    pub fn record(
        &mut self,
        event_type: &str,
        entity_type: &str,
        entity_id: &str,
        summary: &str,
        before_state: Option<&str>,
        after_state: Option<&str>,
        source: &EventSource,
        actor: &str,
    ) -> (e: EventRecord)
        requires
            log_wf(old(self)@),
            old(self)@.pointer + 1 < i64::MAX,
        ensures
            log_wf(final(self)@),
            e.sequence == old(self)@.pointer + 1,
            e.event_type@ == event_type@,
            e.entity_type@ == entity_type@,
            e.entity_id@ == entity_id@,
            e.summary@ == summary@,
            e.before_state matches Some(b) ==> before_state matches Some(x) && b@ == x@,
            before_state is Some ==> e.before_state is Some,
            e.after_state matches Some(a) ==> after_state matches Some(x) && a@ == x@,
            after_state is Some ==> e.after_state is Some,
            e.source@ == source_name(*source),
            e.actor@ == actor@,
            final(self)@ == spec_record(old(self)@, e),
    {
        let p = self.pointer;
        self.events.truncate(p as usize);
        let e = EventRecord {
            sequence: p + 1,
            event_type: String::from_str(event_type),
            entity_type: String::from_str(entity_type),
            entity_id: String::from_str(entity_id),
            summary: String::from_str(summary),
            before_state: match before_state {
                Some(b) => Some(String::from_str(b)),
                None => None,
            },
            after_state: match after_state {
                Some(a) => Some(String::from_str(a)),
                None => None,
            },
            source: source.to_string(),
            actor: String::from_str(actor),
        };
        let ret = copy_record(&e);
        self.events.push(e);
        self.pointer = p + 1;
        proof {
            assert(self@.events =~= old(self)@.events.subrange(0, p as int).push(ret));
        }
        ret
    }

    /// Undo the event at the pointer: returns its summary and the action
    /// that reverses it (or `Skip` when `skip` is set), and moves the
    /// pointer back by one. On error the log is unchanged.
    pub fn undo(&mut self, skip: bool) -> (r: Result<StepOutcome, EventError>)
        requires
            log_wf(old(self)@),
        ensures
            log_wf(final(self)@),
            match spec_undo(old(self)@, skip) {
                Ok((v, s, a)) => r == Ok::<StepOutcome, EventError>(StepOutcome { summary: s, action: a })
                    && final(self)@ == v,
                Err(err) => r == Err::<StepOutcome, EventError>(err) && final(self)@ == old(self)@,
            },
    {
        if self.pointer < 1 {
            return Err(EventError::NothingToUndo);
        }
        let n = self.events.len();
        assert(self.pointer <= n);
        let idx = (self.pointer - 1) as usize;
        assert(idx as int == old(self)@.pointer - 1);
        let action = if skip {
            EntityAction::Skip
        } else {
            match undo_action_for(&self.events[idx]) {
                Ok(a) => a,
                Err(err) => {
                    return Err(err);
                },
            }
        };
        let summary = self.events[idx].summary.clone();
        self.pointer = self.pointer - 1;
        Ok(StepOutcome { summary, action })
    }

    /// Redo the event after the pointer: returns its summary and the action
    /// that re-applies it (or `Skip` when `skip` is set), and moves the
    /// pointer forward by one. On error the log is unchanged.
    pub fn redo(&mut self, skip: bool) -> (r: Result<StepOutcome, EventError>)
        requires
            log_wf(old(self)@),
        ensures
            log_wf(final(self)@),
            match spec_redo(old(self)@, skip) {
                Ok((v, s, a)) => r == Ok::<StepOutcome, EventError>(StepOutcome { summary: s, action: a })
                    && final(self)@ == v,
                Err(err) => r == Err::<StepOutcome, EventError>(err) && final(self)@ == old(self)@,
            },
    {
        if self.pointer as u64 >= self.events.len() as u64 {
            return Err(EventError::NothingToRedo);
        }
        let idx = self.pointer as usize;
        assert(idx as int == old(self)@.pointer);
        let action = if skip {
            EntityAction::Skip
        } else {
            match redo_action_for(&self.events[idx]) {
                Ok(a) => a,
                Err(err) => {
                    return Err(err);
                },
            }
        };
        let summary = self.events[idx].summary.clone();
        self.pointer = self.pointer + 1;
        Ok(StepOutcome { summary, action })
    }
}

} // verus!

verus! {

// ---------------------------------------------------------------------------
// Laws of the log
// ---------------------------------------------------------------------------

/// The empty log with the pointer at its start.
pub open spec fn empty_log() -> LogView {
    LogView { events: Seq::empty(), pointer: 0 }
}

/// On a fresh log there is nothing to undo and nothing to redo.
pub proof fn lemma_fresh_log_has_nothing_to_undo_or_redo(skip: bool)
    ensures
        log_wf(empty_log()),
        spec_undo(empty_log(), skip) == Err::<(LogView, String, EntityAction), EventError>(EventError::NothingToUndo),
        spec_redo(empty_log(), skip) == Err::<(LogView, String, EntityAction), EventError>(EventError::NothingToRedo),
{
}

/// Recording, undoing and redoing keep the log well formed: events
/// numbered 1, 2, ... in order, and the pointer within them.
pub proof fn lemma_operations_keep_log_well_formed(v: LogView, e: EventRecord, skip: bool)
    requires
        log_wf(v),
    ensures
        (e.sequence == v.pointer + 1 && v.pointer + 1 < i64::MAX) ==> log_wf(spec_record(v, e)),
        spec_undo(v, skip) matches Ok((v1, _s, _a)) ==> log_wf(v1),
        spec_redo(v, skip) matches Ok((v1, _s, _a)) ==> log_wf(v1),
{
    if e.sequence == v.pointer + 1 && v.pointer + 1 < i64::MAX {
        let r = spec_record(v, e);
        assert forall|k: int| 0 <= k < r.events.len() implies #[trigger] r.events[k].sequence == k + 1 by {
            if k < v.pointer {
                assert(r.events[k] == v.events[k]);
            }
        }
    }
}

/// Undoing an event and then redoing it gives back the log as it was; the
/// redo reports the same summary and re-applies that same event. Stated
/// for events that carry the state their redo needs.
pub proof fn lemma_undo_then_redo(v: LogView, skip: bool)
    requires
        log_wf(v),
        spec_undo(v, skip) is Ok,
        !skip ==> redo_action(v.events[v.pointer - 1]) is Ok,
    ensures
        spec_undo(v, skip) matches Ok((v1, s1, _a1)) && spec_redo(v1, skip) matches Ok((v2, s2, a2))
            && v2 == v && s2 == s1 && s1 == v.events[v.pointer - 1].summary
            && (skip ==> a2 == EntityAction::Skip)
            && (!skip ==> redo_action(v.events[v.pointer - 1]) == Ok::<EntityAction, EventError>(a2)),
{
    let (v1, s1, a1) = spec_undo(v, skip)->Ok_0;
    assert(v1.pointer == v.pointer - 1);
    assert(v1.events == v.events);
    let (v2, s2, a2) = spec_redo(v1, skip)->Ok_0;
    assert(v2 =~= v);
}

/// Redoing an event and then undoing it gives back the log as it was; the
/// undo reports the same summary and reverses that same event. Stated for
/// events that carry the state their undo needs.
pub proof fn lemma_redo_then_undo(v: LogView, skip: bool)
    requires
        log_wf(v),
        spec_redo(v, skip) is Ok,
        !skip ==> undo_action(v.events[v.pointer]) is Ok,
    ensures
        spec_redo(v, skip) matches Ok((v1, s1, _a1)) && spec_undo(v1, skip) matches Ok((v2, s2, a2))
            && v2 == v && s2 == s1 && s1 == v.events[v.pointer].summary
            && (skip ==> a2 == EntityAction::Skip)
            && (!skip ==> undo_action(v.events[v.pointer]) == Ok::<EntityAction, EventError>(a2)),
{
    let (v1, s1, a1) = spec_redo(v, skip)->Ok_0;
    let (v2, s2, a2) = spec_undo(v1, skip)->Ok_0;
    assert(v2 =~= v);
}

/// A new event recorded after an undo clears the redo stack: right after
/// recording there is nothing to redo, and undo reverses the new event and
/// brings the pointer back to where it was before the recording.
pub proof fn lemma_record_clears_redo_stack(v: LogView, e: EventRecord, skip: bool)
    requires
        log_wf(v),
        e.sequence == v.pointer + 1,
        v.pointer + 1 < i64::MAX,
    ensures
        spec_redo(spec_record(v, e), skip) == Err::<(LogView, String, EntityAction), EventError>(EventError::NothingToRedo),
        spec_record(v, e).events.len() == v.pointer + 1,
        spec_record(v, e).events.subrange(0, v.pointer) == v.events.subrange(0, v.pointer),
        (skip || undo_action(e) is Ok) ==> (spec_undo(spec_record(v, e), skip) matches Ok((v1, s1, a1))
            && v1.pointer == v.pointer && s1 == e.summary
            && (skip ==> a1 == EntityAction::Skip)
            && (!skip ==> undo_action(e) == Ok::<EntityAction, EventError>(a1))),
{
    let r = spec_record(v, e);
    assert(r.events.subrange(0, v.pointer) =~= v.events.subrange(0, v.pointer));
    assert(r.events[v.pointer] == e);
}

/// Undo `n` times in a row.
pub open spec fn undo_times(v: LogView, n: nat, skip: bool) -> Result<LogView, EventError>
    decreases n,
{
    if n == 0 {
        Ok(v)
    } else {
        match spec_undo(v, skip) {
            Ok((v1, _s, _a)) => undo_times(v1, (n - 1) as nat, skip),
            Err(err) => Err(err),
        }
    }
}

/// Redo `n` times in a row.
pub open spec fn redo_times(v: LogView, n: nat, skip: bool) -> Result<LogView, EventError>
    decreases n,
{
    if n == 0 {
        Ok(v)
    } else {
        match spec_redo(v, skip) {
            Ok((v1, _s, _a)) => redo_times(v1, (n - 1) as nat, skip),
            Err(err) => Err(err),
        }
    }
}

/// Undoing `n` times succeeds exactly when the last `n` events up to the
/// pointer can each be reversed; it moves the pointer back by `n`.
proof fn lemma_undo_times_shape(v: LogView, n: nat, skip: bool)
    requires
        log_wf(v),
        n <= v.pointer,
        forall|k: int| v.pointer - n <= k < v.pointer ==> (skip || #[trigger] undo_action(v.events[k]) is Ok),
    ensures
        undo_times(v, n, skip) == Ok::<LogView, EventError>(LogView { events: v.events, pointer: v.pointer - n }),
    decreases n,
{
    if n > 0 {
        let (v1, _s, _a) = spec_undo(v, skip)->Ok_0;
        assert(skip || undo_action(v.events[v.pointer - 1]) is Ok);
        lemma_undo_times_shape(v1, (n - 1) as nat, skip);
    }
}

/// Redoing `n` times succeeds exactly when the `n` events after the
/// pointer can each be re-applied; it moves the pointer forward by `n`.
proof fn lemma_redo_times_shape(v: LogView, n: nat, skip: bool)
    requires
        log_wf(v),
        v.pointer + n <= v.events.len(),
        forall|k: int| v.pointer <= k < v.pointer + n ==> (skip || #[trigger] redo_action(v.events[k]) is Ok),
    ensures
        redo_times(v, n, skip) == Ok::<LogView, EventError>(LogView { events: v.events, pointer: v.pointer + n }),
    decreases n,
{
    if n > 0 {
        let (v1, _s, _a) = spec_redo(v, skip)->Ok_0;
        assert(skip || redo_action(v.events[v.pointer as int]) is Ok);
        lemma_redo_times_shape(v1, (n - 1) as nat, skip);
    }
}

/// Multi-level undo: undoing the last `n` events and then redoing `n`
/// times gives back the log as it was. Stated for events that carry the
/// states their undo and redo need.
pub proof fn lemma_undo_n_then_redo_n(v: LogView, n: nat, skip: bool)
    requires
        log_wf(v),
        n <= v.pointer,
        forall|k: int|
            v.pointer - n <= k < v.pointer ==> (skip || (#[trigger] undo_action(v.events[k]) is Ok
                && redo_action(v.events[k]) is Ok)),
    ensures
        undo_times(v, n, skip) matches Ok(v1) && redo_times(v1, n, skip) == Ok::<LogView, EventError>(v),
{
    assert forall|k: int| v.pointer - n <= k < v.pointer implies (skip || #[trigger] undo_action(
        v.events[k],
    ) is Ok) by {}
    lemma_undo_times_shape(v, n, skip);
    let v1 = LogView { events: v.events, pointer: v.pointer - n };
    assert forall|k: int| v1.pointer <= k < v1.pointer + n implies (skip || #[trigger] redo_action(
        v1.events[k],
    ) is Ok) by {
        assert(skip || (undo_action(v.events[k]) is Ok && redo_action(v.events[k]) is Ok));
    }
    lemma_redo_times_shape(v1, n, skip);
    assert(LogView { events: v1.events, pointer: v1.pointer + n } =~= v);
}

} // verus!
