//! The decision lifecycle.
//!
//! A decision starts as a draft, is opened for comparison, and is closed
//! either by choosing one of the topologies under consideration or by
//! abandoning it; a closed decision can be reopened. Closing stamps the
//! decision with a close time, reopening clears the choice, its rationale
//! and the close time.

use vstd::prelude::*;
use crate::text::str_eq;
use crate::remap::{new_uuid, is_uuid_v4_text, texts};

verus! {

// ---------------------------------------------------------------------------
// Status
// ---------------------------------------------------------------------------

/// Lifecycle status of a decision, as stored in its `status` column. A
/// stored value outside the four known ones is kept as it is.
#[derive(Debug, Clone)]
pub enum DecisionStatus {
    Draft,
    Open,
    Decided,
    Abandoned,
    Other(String),
}

/// The stored text of a status.
pub open spec fn status_text(s: DecisionStatus) -> Seq<char> {
    match s {
        DecisionStatus::Draft => "draft"@,
        DecisionStatus::Open => "open"@,
        DecisionStatus::Decided => "decided"@,
        DecisionStatus::Abandoned => "abandoned"@,
        DecisionStatus::Other(t) => t@,
    }
}

/// Whether a status closes a decision.
pub open spec fn is_closed_status(s: DecisionStatus) -> bool {
    s is Decided || s is Abandoned
}

impl DecisionStatus {
    /// The stored text of this status.
    pub fn name(&self) -> (r: String)
        ensures
            r@ == status_text(*self),
    {
        match self {
            DecisionStatus::Draft => String::from_str("draft"),
            DecisionStatus::Open => String::from_str("open"),
            DecisionStatus::Decided => String::from_str("decided"),
            DecisionStatus::Abandoned => String::from_str("abandoned"),
            DecisionStatus::Other(t) => t.clone(),
        }
    }

    /// The status a stored text denotes; unknown texts are kept as `Other`.
    pub fn from_name(t: &str) -> (r: DecisionStatus)
        ensures
            status_text(r) == t@,
            t@ == "draft"@ <==> r is Draft,
            t@ == "open"@ <==> r is Open,
            t@ == "decided"@ <==> r is Decided,
            t@ == "abandoned"@ <==> r is Abandoned,
    {
        proof {
            reveal_strlit("draft");
            reveal_strlit("open");
            reveal_strlit("decided");
            reveal_strlit("abandoned");
        }
        if str_eq(t, "draft") {
            DecisionStatus::Draft
        } else if str_eq(t, "open") {
            DecisionStatus::Open
        } else if str_eq(t, "decided") {
            DecisionStatus::Decided
        } else if str_eq(t, "abandoned") {
            DecisionStatus::Abandoned
        } else {
            DecisionStatus::Other(t.to_string())
        }
    }

    /// A copy of this status.
    pub fn copy(&self) -> (r: DecisionStatus)
        ensures
            r == *self,
    {
        match self {
            DecisionStatus::Draft => DecisionStatus::Draft,
            DecisionStatus::Open => DecisionStatus::Open,
            DecisionStatus::Decided => DecisionStatus::Decided,
            DecisionStatus::Abandoned => DecisionStatus::Abandoned,
            DecisionStatus::Other(t) => DecisionStatus::Other(t.clone()),
        }
    }

    fn is_draft(&self) -> (r: bool)
        ensures
            r == (*self is Draft),
    {
        match self {
            DecisionStatus::Draft => true,
            _ => false,
        }
    }
}

// ---------------------------------------------------------------------------
// Errors
// ---------------------------------------------------------------------------

/// Why a decision command was refused.
#[derive(Debug, Clone)]
pub enum DecisionError {
    /// `update` was given nothing to change.
    NothingToUpdate,
    /// Another decision already has this title.
    TitleExists(String),
    /// `update --open` on a decision that is not a draft.
    CannotOpen { title: String, status: String },
    /// A constraint type outside budget, noise, power, rack_units.
    InvalidConstraintType(String),
    /// A status filter outside draft, open, decided, abandoned.
    InvalidStatus(String),
    /// The topology (by id) is already under consideration.
    AlreadyConsidered { topology_id: String, title: String },
    /// The topology (by id) is not under consideration.
    NotUnderConsideration { topology_id: String, title: String },
    /// `choose` on a decision that is not open.
    CannotChoose { status: String },
    /// `choose` of a topology (by id) that is not under consideration.
    NotConsidered { topology_id: String },
    /// `abandon` on a decided decision: it must be reopened first.
    AlreadyDecided { title: String },
    /// `abandon` on an abandoned decision.
    AlreadyAbandoned { title: String },
    /// `abandon` on a decision with an unknown status.
    CannotAbandon { status: String },
    /// `reopen` on a draft or open decision.
    AlreadyActive { title: String, status: String },
    /// `reopen` on a decision with an unknown status.
    CannotReopen { status: String },
}

// ---------------------------------------------------------------------------
// The decision record
// ---------------------------------------------------------------------------

/// A decision row. Times are RFC 3339 texts.
#[derive(Debug, Clone)]
pub struct Decision {
    pub id: String,
    pub title: String,
    pub description: String,
    pub status: DecisionStatus,
    pub parent_id: Option<String>,
    pub chosen_topology_id: Option<String>,
    pub rationale: Option<String>,
    pub snapshot: Option<String>,
    pub created_at: String,
    pub updated_at: String,
    pub closed_at: Option<String>,
}

impl Decision {
    /// The lifecycle invariant: a decision is closed exactly when it is
    /// decided or abandoned, and a decided decision names its choice.
    pub open spec fn well_formed(&self) -> bool {
        &&& (self.closed_at is Some <==> is_closed_status(self.status))
        &&& (self.status is Decided ==> self.chosen_topology_id is Some)
    }
}

/// Calls `chrono::Utc::now()` and formats it with `to_rfc3339()`. The
/// value depends on the clock; nothing is stated of it.
#[verifier::external_body]
fn utc_now_text() -> (r: String) {
    chrono::Utc::now().to_rfc3339()
}

fn copy_opt(o: &Option<String>) -> (r: Option<String>)
    ensures
        r == *o,
{
    match o {
        Some(s) => Some(s.clone()),
        None => None,
    }
}

/// Whether `title` renames the decision.
pub open spec fn renames(d: Decision, title: Option<&str>) -> bool {
    title is Some && title->0@ != d.title@
}

/// `d` is `old` after `update`: the new title and description where
/// given, `open` status when asked for, everything else unchanged (the
/// store stamps the update time itself).
pub open spec fn is_update_of(d: Decision, old: Decision, title: Option<&str>, description: Option<&str>, open: bool) -> bool {
    &&& d.title@ == (match title {
        Some(t) => t@,
        None => old.title@,
    })
    &&& d.description@ == (match description {
        Some(x) => x@,
        None => old.description@,
    })
    &&& d.status == (if open {
        DecisionStatus::Open
    } else {
        old.status
    })
    &&& d.id == old.id
    &&& d.parent_id == old.parent_id
    &&& d.chosen_topology_id == old.chosen_topology_id
    &&& d.rationale == old.rationale
    &&& d.snapshot == old.snapshot
    &&& d.created_at == old.created_at
    &&& d.updated_at == old.updated_at
    &&& d.closed_at == old.closed_at
}

/// The decision after choosing `topology_id` at time `now`.
pub open spec fn chosen(d: Decision, topology_id: String, rationale: String, snapshot: String, now: String) -> Decision {
    Decision {
        status: DecisionStatus::Decided,
        chosen_topology_id: Some(topology_id),
        rationale: Some(rationale),
        snapshot: Some(snapshot),
        closed_at: Some(now),
        updated_at: now,
        ..d
    }
}

/// The decision after abandoning it at time `now`.
pub open spec fn abandoned(d: Decision, reason: Option<String>, snapshot: String, now: String) -> Decision {
    Decision {
        status: DecisionStatus::Abandoned,
        rationale: reason,
        snapshot: Some(snapshot),
        closed_at: Some(now),
        updated_at: now,
        ..d
    }
}

/// The decision after reopening it at time `now`: open again, with no
/// choice, rationale or close time; the snapshot stays.
pub open spec fn reopened(d: Decision, now: String) -> Decision {
    Decision {
        status: DecisionStatus::Open,
        chosen_topology_id: None,
        rationale: None,
        closed_at: None,
        updated_at: now,
        ..d
    }
}

impl Decision {
    /// A new draft decision with a fresh id, created and updated now.
    pub fn new(title: &str) -> (r: Decision)
        ensures
            r.title@ == title@,
            r.description@ == Seq::<char>::empty(),
            r.status is Draft,
            r.parent_id is None,
            r.chosen_topology_id is None,
            r.rationale is None,
            r.snapshot is None,
            r.closed_at is None,
            r.created_at == r.updated_at,
            is_uuid_v4_text(r.id@),
            r.well_formed(),
    {
        let now = utc_now_text();
        Decision {
            id: new_uuid(),
            title: title.to_string(),
            description: String::new(),
            status: DecisionStatus::Draft,
            parent_id: None,
            chosen_topology_id: None,
            rationale: None,
            snapshot: None,
            created_at: now.clone(),
            updated_at: now,
            closed_at: None,
        }
    }

    /// `update` refuses a request that changes nothing, before anything
    /// is looked up.
    pub fn check_update_request(title: Option<&str>, description: Option<&str>, open: bool) -> (r: Result<(), DecisionError>)
        ensures
            r is Err <==> (title is None && description is None && !open),
            r matches Err(e) ==> e is NothingToUpdate,
    {
        if title.is_none() && description.is_none() && !open {
            Err(DecisionError::NothingToUpdate)
        } else {
            Ok(())
        }
    }

    /// Apply `update`. `title_taken` says whether another decision already
    /// has the new title. A rename to a taken title is refused first, then
    /// `open` on a decision that is not a draft.
    pub fn apply_update(&self, title: Option<&str>, description: Option<&str>, open: bool, title_taken: bool) -> (r: Result<Decision, DecisionError>)
        ensures
            r is Err <==> ((renames(*self, title) && title_taken) || (open && !(self.status is Draft))),
            r matches Err(e) ==> if renames(*self, title) && title_taken {
                e matches DecisionError::TitleExists(t) && t@ == title->0@
            } else {
                e matches DecisionError::CannotOpen { title: t, status: s } && t@ == self.title@ && s@
                    == status_text(self.status)
            },
            r matches Ok(d) ==> is_update_of(d, *self, title, description, open),
            r matches Ok(d) ==> (self.well_formed() ==> d.well_formed()),
    {
        if let Some(t) = title {
            if !str_eq(t, self.title.as_str()) && title_taken {
                return Err(DecisionError::TitleExists(t.to_string()));
            }
        }
        if open && !self.status.is_draft() {
            return Err(DecisionError::CannotOpen { title: self.title.clone(), status: self.status.name() });
        }
        let new_title = match title {
            Some(t) => t.to_string(),
            None => self.title.clone(),
        };
        let new_description = match description {
            Some(x) => x.to_string(),
            None => self.description.clone(),
        };
        let status = if open {
            DecisionStatus::Open
        } else {
            self.status.copy()
        };
        Ok(
            Decision {
                id: self.id.clone(),
                title: new_title,
                description: new_description,
                status,
                parent_id: copy_opt(&self.parent_id),
                chosen_topology_id: copy_opt(&self.chosen_topology_id),
                rationale: copy_opt(&self.rationale),
                snapshot: copy_opt(&self.snapshot),
                created_at: self.created_at.clone(),
                updated_at: self.updated_at.clone(),
                closed_at: copy_opt(&self.closed_at),
            },
        )
    }
}


impl Decision {
    /// A copy of this decision.
    pub fn duplicate(&self) -> (r: Decision)
        ensures
            r == *self,
    {
        Decision {
            id: self.id.clone(),
            title: self.title.clone(),
            description: self.description.clone(),
            status: self.status.copy(),
            parent_id: copy_opt(&self.parent_id),
            chosen_topology_id: copy_opt(&self.chosen_topology_id),
            rationale: copy_opt(&self.rationale),
            snapshot: copy_opt(&self.snapshot),
            created_at: self.created_at.clone(),
            updated_at: self.updated_at.clone(),
            closed_at: copy_opt(&self.closed_at),
        }
    }

    /// Choose `topology_id` at time `now`. Only an open decision can be
    /// decided, and only for a topology in `considered` (the ids of the
    /// topologies under consideration).
    pub fn choose_topology_at(
        &self,
        considered: &Vec<String>,
        topology_id: String,
        rationale: String,
        snapshot: String,
        now: String,
    ) -> (r: Result<Decision, DecisionError>)
        ensures
            r is Ok <==> (self.status is Open && texts(considered@).contains(topology_id@)),
            !(self.status is Open) ==> (r matches Err(DecisionError::CannotChoose { status }) && status@
                == status_text(self.status)),
            self.status is Open && !texts(considered@).contains(topology_id@) ==> (r matches Err(
                DecisionError::NotConsidered { topology_id: t },
            ) && t == topology_id),
            r matches Ok(d) ==> d == chosen(*self, topology_id, rationale, snapshot, now) && d.well_formed(),
    {
        match self.status {
            DecisionStatus::Open => {},
            _ => {
                return Err(DecisionError::CannotChoose { status: self.status.name() });
            },
        }
        if position_of(considered, topology_id.as_str()).is_none() {
            return Err(DecisionError::NotConsidered { topology_id });
        }
        let mut d = self.duplicate();
        d.status = DecisionStatus::Decided;
        d.chosen_topology_id = Some(topology_id);
        d.rationale = Some(rationale);
        d.snapshot = Some(snapshot);
        d.closed_at = Some(now.clone());
        d.updated_at = now;
        Ok(d)
    }

    /// Choose `topology_id` now; see `choose_topology_at`.
    pub fn choose_topology(&self, considered: &Vec<String>, topology_id: String, rationale: String, snapshot: String) -> (r: Result<Decision, DecisionError>)
        ensures
            r is Ok <==> (self.status is Open && texts(considered@).contains(topology_id@)),
            !(self.status is Open) ==> (r matches Err(DecisionError::CannotChoose { status }) && status@
                == status_text(self.status)),
            self.status is Open && !texts(considered@).contains(topology_id@) ==> (r matches Err(
                DecisionError::NotConsidered { topology_id: t },
            ) && t == topology_id),
            r matches Ok(d) ==> d == chosen(*self, topology_id, rationale, snapshot, d.updated_at) && d.well_formed(),
    {
        let now = utc_now_text();
        self.choose_topology_at(considered, topology_id, rationale, snapshot, now)
    }

    /// Abandon the decision at time `now`, recording `reason` as its
    /// rationale. Only a draft or open decision can be abandoned; a
    /// decided one must be reopened first.
    pub fn abandon_at(&self, reason: Option<String>, snapshot: String, now: String) -> (r: Result<Decision, DecisionError>)
        ensures
            r is Ok <==> (self.status is Draft || self.status is Open),
            self.status is Decided ==> (r matches Err(DecisionError::AlreadyDecided { title }) && title
                == self.title),
            self.status is Abandoned ==> (r matches Err(DecisionError::AlreadyAbandoned { title }) && title
                == self.title),
            self.status is Other ==> (r matches Err(DecisionError::CannotAbandon { status }) && status@
                == status_text(self.status)),
            r matches Ok(d) ==> d == abandoned(*self, reason, snapshot, now) && d.well_formed(),
    {
        match &self.status {
            DecisionStatus::Draft | DecisionStatus::Open => {},
            DecisionStatus::Decided => {
                return Err(DecisionError::AlreadyDecided { title: self.title.clone() });
            },
            DecisionStatus::Abandoned => {
                return Err(DecisionError::AlreadyAbandoned { title: self.title.clone() });
            },
            DecisionStatus::Other(t) => {
                return Err(DecisionError::CannotAbandon { status: t.clone() });
            },
        }
        let mut d = self.duplicate();
        d.status = DecisionStatus::Abandoned;
        d.rationale = reason;
        d.snapshot = Some(snapshot);
        d.closed_at = Some(now.clone());
        d.updated_at = now;
        Ok(d)
    }

    /// Abandon the decision now; see `abandon_at`.
    pub fn abandon(&self, reason: Option<String>, snapshot: String) -> (r: Result<Decision, DecisionError>)
        ensures
            r is Ok <==> (self.status is Draft || self.status is Open),
            self.status is Decided ==> (r matches Err(DecisionError::AlreadyDecided { title }) && title
                == self.title),
            self.status is Abandoned ==> (r matches Err(DecisionError::AlreadyAbandoned { title }) && title
                == self.title),
            self.status is Other ==> (r matches Err(DecisionError::CannotAbandon { status }) && status@
                == status_text(self.status)),
            r matches Ok(d) ==> d == abandoned(*self, reason, snapshot, d.updated_at) && d.well_formed(),
    {
        let now = utc_now_text();
        self.abandon_at(reason, snapshot, now)
    }

    /// Reopen a decided or abandoned decision at time `now`.
    pub fn reopen_at(&self, now: String) -> (r: Result<Decision, DecisionError>)
        ensures
            r is Ok <==> is_closed_status(self.status),
            (self.status is Draft || self.status is Open) ==> (r matches Err(
                DecisionError::AlreadyActive { title, status },
            ) && title == self.title && status@ == status_text(self.status)),
            self.status is Other ==> (r matches Err(DecisionError::CannotReopen { status }) && status@
                == status_text(self.status)),
            r matches Ok(d) ==> d == reopened(*self, now) && d.well_formed(),
    {
        match &self.status {
            DecisionStatus::Decided | DecisionStatus::Abandoned => {},
            DecisionStatus::Draft | DecisionStatus::Open => {
                return Err(DecisionError::AlreadyActive { title: self.title.clone(), status: self.status.name() });
            },
            DecisionStatus::Other(t) => {
                return Err(DecisionError::CannotReopen { status: t.clone() });
            },
        }
        let mut d = self.duplicate();
        d.status = DecisionStatus::Open;
        d.chosen_topology_id = None;
        d.rationale = None;
        d.closed_at = None;
        d.updated_at = now;
        Ok(d)
    }

    /// Reopen the decision now; see `reopen_at`.
    pub fn reopen(&self) -> (r: Result<Decision, DecisionError>)
        ensures
            r is Ok <==> is_closed_status(self.status),
            (self.status is Draft || self.status is Open) ==> (r matches Err(
                DecisionError::AlreadyActive { title, status },
            ) && title == self.title && status@ == status_text(self.status)),
            self.status is Other ==> (r matches Err(DecisionError::CannotReopen { status }) && status@
                == status_text(self.status)),
            r matches Ok(d) ==> d == reopened(*self, d.updated_at) && d.well_formed(),
    {
        let now = utc_now_text();
        self.reopen_at(now)
    }
}

// ---------------------------------------------------------------------------
// Topologies under consideration
// ---------------------------------------------------------------------------

/// Index of the first entry of `v` equal to `key`.
pub fn position_of(v: &Vec<String>, key: &str) -> (r: Option<usize>)
    ensures
        r is None <==> !texts(v@).contains(key@),
        r matches Some(i) ==> i < v@.len() && v@[i as int]@ == key@ && forall|j: int|
            0 <= j < i ==> v@[j]@ != key@,
{
    let mut i: usize = 0;
    while i < v.len()
        invariant
            i <= v@.len(),
            forall|j: int| 0 <= j < i ==> v@[j]@ != key@,
        decreases v.len() - i,
    {
        if str_eq(v[i].as_str(), key) {
            assert(texts(v@)[i as int] == key@);
            return Some(i);
        }
        i = i + 1;
    }
    assert forall|j: int| 0 <= j < texts(v@).len() implies texts(v@)[j] != key@ by {
        assert(v@[j]@ != key@);
    }
    None
}

/// Add a topology (by id) to the set under consideration for the decision
/// titled `title`; refused when it is already there.
pub fn consider(considered: &mut Vec<String>, topology_id: String, title: &str) -> (r: Result<(), DecisionError>)
    ensures
        r is Ok <==> !texts(old(considered)@).contains(topology_id@),
        r is Ok ==> final(considered)@ == old(considered)@.push(topology_id),
        r is Err ==> final(considered)@ == old(considered)@,
        r matches Err(e) ==> (e matches DecisionError::AlreadyConsidered { topology_id: t, title: d } && t
            == topology_id && d@ == title@),
{
    if position_of(considered, topology_id.as_str()).is_some() {
        return Err(DecisionError::AlreadyConsidered { topology_id, title: title.to_string() });
    }
    considered.push(topology_id);
    Ok(())
}

/// Remove a topology (by id) from the set under consideration for the
/// decision titled `title`; refused when it is not there.
pub fn unconsider(considered: &mut Vec<String>, topology_id: &str, title: &str) -> (r: Result<(), DecisionError>)
    ensures
        r is Ok <==> texts(old(considered)@).contains(topology_id@),
        r is Ok ==> exists|i: int|
            0 <= i < old(considered)@.len() && old(considered)@[i]@ == topology_id@ && (forall|j: int|
                0 <= j < i ==> old(considered)@[j]@ != topology_id@) && final(considered)@ == old(
                considered,
            )@.remove(i),
        r is Err ==> final(considered)@ == old(considered)@,
        r matches Err(e) ==> (e matches DecisionError::NotUnderConsideration { topology_id: t, title: d } && t@
            == topology_id@ && d@ == title@),
{
    match position_of(considered, topology_id) {
        Some(i) => {
            considered.remove(i);
            Ok(())
        },
        None => Err(
            DecisionError::NotUnderConsideration { topology_id: topology_id.to_string(), title: title.to_string() },
        ),
    }
}

// ---------------------------------------------------------------------------
// Constraint types and status filters
// ---------------------------------------------------------------------------

/// The constraint types a decision can carry.
pub open spec fn is_constraint_type(t: Seq<char>) -> bool {
    t == "budget"@ || t == "noise"@ || t == "power"@ || t == "rack_units"@
}

/// Refuse a constraint type outside budget, noise, power, rack_units.
pub fn validate_constraint_type(t: &str) -> (r: Result<(), DecisionError>)
    ensures
        r is Ok <==> is_constraint_type(t@),
        r matches Err(e) ==> e matches DecisionError::InvalidConstraintType(x) && x@ == t@,
{
    if str_eq(t, "budget") || str_eq(t, "noise") || str_eq(t, "power") || str_eq(t, "rack_units") {
        Ok(())
    } else {
        Err(DecisionError::InvalidConstraintType(t.to_string()))
    }
}

/// The unit shown after a constraint's value.
pub open spec fn unit_of(t: Seq<char>) -> Seq<char> {
    if t == "noise"@ {
        " dB"@
    } else if t == "power"@ {
        " W"@
    } else if t == "rack_units"@ {
        " U"@
    } else {
        ""@
    }
}

/// The unit shown after a constraint's value: none for a budget (or an
/// unknown type), " dB" for noise, " W" for power, " U" for rack units.
pub fn constraint_unit(constraint_type: &str) -> (r: &'static str)
    ensures
        r@ == unit_of(constraint_type@),
{
    if str_eq(constraint_type, "noise") {
        " dB"
    } else if str_eq(constraint_type, "power") {
        " W"
    } else if str_eq(constraint_type, "rack_units") {
        " U"
    } else {
        ""
    }
}

/// Parse the status filter of `decision list`.
pub fn parse_status_filter(s: &str) -> (r: Result<DecisionStatus, DecisionError>)
    ensures
        r is Ok <==> (s@ == "draft"@ || s@ == "open"@ || s@ == "decided"@ || s@ == "abandoned"@),
        r matches Ok(st) ==> status_text(st) == s@ && !(st is Other),
        r matches Err(e) ==> e matches DecisionError::InvalidStatus(x) && x@ == s@,
{
    let st = DecisionStatus::from_name(s);
    match st {
        DecisionStatus::Other(_) => Err(DecisionError::InvalidStatus(s.to_string())),
        _ => Ok(st),
    }
}

// ---------------------------------------------------------------------------
// Laws
// ---------------------------------------------------------------------------

/// Reopening a decision that was just decided makes it open again with no
/// choice, rationale or close time; its id, title, description, parent and
/// creation time are those it had before the choice.
pub proof fn lemma_reopen_after_choose(d: Decision, topology_id: String, rationale: String, snapshot: String, t1: String, t2: String)
    ensures
        ({
            let r = reopened(chosen(d, topology_id, rationale, snapshot, t1), t2);
            &&& r.status is Open
            &&& r.chosen_topology_id is None
            &&& r.rationale is None
            &&& r.closed_at is None
            &&& r.id == d.id
            &&& r.title == d.title
            &&& r.description == d.description
            &&& r.parent_id == d.parent_id
            &&& r.created_at == d.created_at
            &&& r.well_formed()
        }),
{
}

/// Reopening a decision that was just abandoned makes it open again with
/// no rationale or close time, and everything but the snapshot and update
/// time as before the abandon, choice included.
pub proof fn lemma_reopen_after_abandon(d: Decision, reason: Option<String>, snapshot: String, t1: String, t2: String)
    requires
        d.status is Draft || d.status is Open,
        d.well_formed(),
    ensures
        ({
            let r = reopened(abandoned(d, reason, snapshot, t1), t2);
            &&& r.status is Open
            &&& r.chosen_topology_id is None
            &&& r.rationale is None
            &&& r.closed_at is None
            &&& r.id == d.id
            &&& r.title == d.title
            &&& r.description == d.description
            &&& r.parent_id == d.parent_id
            &&& r.well_formed()
        }),
{
}

/// Considering a topology that was not under consideration and then
/// removing it again leaves the set as it was.
pub proof fn lemma_consider_then_unconsider(considered: Seq<String>, topology_id: String, i: int)
    requires
        !texts(considered).contains(topology_id@),
        0 <= i < considered.push(topology_id).len(),
        considered.push(topology_id)[i]@ == topology_id@,
    ensures
        considered.push(topology_id).remove(i) == considered,
{
    if i < considered.len() {
        assert(texts(considered)[i] == topology_id@);
    }
    assert(considered.push(topology_id).remove(i) =~= considered);
}

} // verus!
