//! Arguments of the decision-session commands (`sp decide`): a session
//! compares options, each mapped to a configuration, then chooses and
//! deploys one or is abandoned.

use vstd::prelude::*;

verus! {

/// Start a decision session.
#[derive(Debug, Clone)]
pub struct CreateArgs {
    pub purpose: String,
}

/// Add an option to the open session.
#[derive(Debug, Clone)]
pub struct AddOptionArgs {
    pub name: String,
    pub config: String,
}

/// Compare the options side by side.
#[derive(Debug, Clone)]
pub struct CompareArgs {}

/// Choose an option, with a rationale.
#[derive(Debug, Clone)]
pub struct ChooseArgs {
    pub option: String,
    pub rationale: String,
}

/// Deploy the chosen configuration.
#[derive(Debug, Clone)]
pub struct DeployArgs {}

/// Past decisions, at most `limit` (10 by default).
#[derive(Debug, Clone)]
pub struct HistoryArgs {
    pub limit: usize,
}

/// One decision in detail.
#[derive(Debug, Clone)]
pub struct ShowArgs {
    pub id: String,
}

/// Abandon the open session.
#[derive(Debug, Clone)]
pub struct AbandonArgs {
    pub reason: Option<String>,
}

/// The decision-session commands.
#[derive(Debug, Clone)]
pub enum DecideCommands {
    Create(CreateArgs),
    AddOption(AddOptionArgs),
    Compare(CompareArgs),
    Choose(ChooseArgs),
    Deploy(DeployArgs),
    History(HistoryArgs),
    Show(ShowArgs),
    Abandon(AbandonArgs),
}

impl HistoryArgs {
    /// The default history length.
    pub fn default_limit() -> (r: HistoryArgs)
        ensures
            r.limit == 10,
    {
        HistoryArgs { limit: 10 }
    }
}

} // verus!
