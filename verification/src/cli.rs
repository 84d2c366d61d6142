//! The command line of `sp`, as plain data.
//!
//! Each command and its arguments; the program's front end fills these in
//! from the command line. Decimal arguments (watts, dollars, decibels,
//! milliseconds) are kept as the text given, to be read as numbers where
//! they are used.

use vstd::prelude::*;

pub mod decide;
pub mod audit;

verus! {

/// Output format for commands that support it.
#[derive(Debug, Clone, Copy, PartialEq, Eq, Structural)]
pub enum OutputFormat {
    Text,
    Json,
}

impl OutputFormat {
    /// The default format: text.
    pub fn default_format() -> (r: OutputFormat)
        ensures
            r == OutputFormat::Text,
    {
        OutputFormat::Text
    }
}

/// Topology subcommands.
#[derive(Debug, Clone)]
pub enum TopologyCommands {
    Create { name: String, description: String },
    List,
    Show { name: String, tree: bool },
    Update { name: String, description: Option<String>, rename: Option<String> },
    SetActive { name: String },
    Tag { name: String, tag: String },
    Untag { name: String },
    Fork { source: String, name: Option<String> },
    Diff {
        target: String,
        base: Option<String>,
        nodes: bool,
        volumes: bool,
        datasets: bool,
        placements: bool,
        links: bool,
        syncs: bool,
    },
    Tree,
    Log { name: String },
    Delete { name: String },
}

/// Node subcommands.
#[derive(Debug, Clone)]
pub enum NodeCommands {
    Add {
        name: String,
        role: String,
        location: Option<String>,
        bays: Option<i32>,
        interface_types: Option<String>,
        power_draw: Option<String>,
        cost: Option<String>,
        noise: Option<String>,
        rack_units: Option<String>,
        item_id: Option<String>,
        topology: Option<String>,
    },
    List { topology: Option<String> },
    Show { name: String, topology: Option<String> },
    Remove { name: String, topology: Option<String> },
    Update {
        name: String,
        rename: Option<String>,
        role: Option<String>,
        location: Option<String>,
        bays: Option<i32>,
        interface_types: Option<String>,
        power_draw: Option<String>,
        cost: Option<String>,
        noise: Option<String>,
        rack_units: Option<String>,
        item_id: Option<String>,
        topology: Option<String>,
    },
}

/// Volume subcommands.
#[derive(Debug, Clone)]
pub enum VolumeCommands {
    Add {
        name: String,
        node: String,
        capacity: String,
        usable: Option<String>,
        filesystem: Option<String>,
        raid: Option<String>,
        pool_type: Option<String>,
        topology: Option<String>,
    },
    List { node: Option<String>, topology: Option<String> },
    Show { name: String, node: Option<String>, topology: Option<String> },
    Remove { name: String, node: Option<String>, topology: Option<String> },
    Update {
        name: String,
        node: Option<String>,
        rename: Option<String>,
        capacity: Option<String>,
        usable: Option<String>,
        filesystem: Option<String>,
        raid: Option<String>,
        pool_type: Option<String>,
        topology: Option<String>,
    },
}

/// Dataset subcommands.
#[derive(Debug, Clone)]
pub enum DatasetCommands {
    Add {
        name: String,
        size: String,
        criticality: String,
        min_copies: i32,
        min_locations: i32,
        max_rpo: Option<i32>,
        growth_rate: Option<String>,
        topology: Option<String>,
    },
    List { topology: Option<String> },
    Show { name: String, topology: Option<String> },
    Remove { name: String, topology: Option<String> },
    Update {
        name: String,
        rename: Option<String>,
        size: Option<String>,
        criticality: Option<String>,
        min_copies: Option<i32>,
        min_locations: Option<i32>,
        max_rpo: Option<i32>,
        growth_rate: Option<String>,
        topology: Option<String>,
    },
}

/// Placement subcommands.
#[derive(Debug, Clone)]
pub enum PlacementCommands {
    Add {
        dataset: String,
        volume: String,
        node: Option<String>,
        role: String,
        priority: i32,
        topology: Option<String>,
    },
    List { topology: Option<String> },
    Remove { dataset: String, volume: String, node: Option<String>, topology: Option<String> },
}

/// Link subcommands.
#[derive(Debug, Clone)]
pub enum LinkCommands {
    Add {
        from: String,
        to: String,
        connection_type: String,
        bandwidth: Option<String>,
        latency: Option<String>,
        metered: bool,
        cost_per_gb: Option<i32>,
        topology: Option<String>,
    },
    List { topology: Option<String> },
    Show { name: String, topology: Option<String> },
    Remove { name: String, topology: Option<String> },
}

/// Sync regime subcommands.
#[derive(Debug, Clone)]
pub enum SyncCommands {
    Add {
        name: String,
        dataset: String,
        from: String,
        to: String,
        sync_type: String,
        schedule: Option<String>,
        topology: Option<String>,
    },
    List { topology: Option<String> },
    Show { name: String, topology: Option<String> },
    Remove { name: String, topology: Option<String> },
}

/// Price observation subcommands of the catalog.
#[derive(Debug, Clone)]
pub enum PriceCommands {
    Add { item: String, amount: String, source: String, condition: String, price_type: String, currency: String },
    List { item: String },
}

/// Catalog subcommands.
#[derive(Debug, Clone)]
pub enum CatalogCommands {
    Add { name: String, category: String, specs: String, url: Option<String>, notes: Option<String> },
    Show { item: String },
    List { category: Option<String> },
    Search { query: String },
    Price(PriceCommands),
}

/// Decision subcommands.
#[derive(Debug, Clone)]
pub enum DecisionCommands {
    Create { title: String, description: String, parent: Option<String> },
    Show { decision: String },
    List { status: Option<String> },
    Update { decision: String, title: Option<String>, description: Option<String>, open: bool },
    Constrain { decision: String, constraint_type: String, max: String },
    Unconstrain { decision: String, constraint_type: String },
    Consider { decision: String, topology: String },
    Unconsider { decision: String, topology: String },
    Choose { decision: String, topology: String, rationale: String },
    Abandon { decision: String, reason: Option<String> },
    Reopen { decision: String },
}

/// Analysis subcommands.
#[derive(Debug, Clone)]
pub enum AnalyzeCommands {
    Redundancy { topology: Option<String>, verbose: bool },
    Capacity { topology: Option<String>, verbose: bool, warn_months: i32 },
    Rpo { topology: Option<String>, verbose: bool },
    Failure { nodes: Vec<String>, topology: Option<String>, verbose: bool },
    Constraints { decision: String, topology: Option<String> },
    Compare { a: String, b: String, diff: bool, decision: Option<String>, warn_months: i32 },
}

/// The commands of `sp`.
#[derive(Debug, Clone)]
pub enum Commands {
    Init,
    Topology(TopologyCommands),
    Node(NodeCommands),
    Volume(VolumeCommands),
    Dataset(DatasetCommands),
    Placement(PlacementCommands),
    Link(LinkCommands),
    Sync(SyncCommands),
    Catalog(CatalogCommands),
    Decision(DecisionCommands),
    Analyze(AnalyzeCommands),
    Diagram { topology: Option<String>, tree: bool, network: bool },
    Export { topology: String, template: bool, only: Option<String>, output: Option<String> },
    Import { file: String, name: Option<String> },
    Status,
    Prime,
    Current { topology: Option<String> },
    Undo { skip: bool },
    Redo { skip: bool },
}

/// A parsed command line: the database directory, the output format and
/// the command.
#[derive(Debug, Clone)]
pub struct Cli {
    pub dir: Option<String>,
    pub format: OutputFormat,
    pub command: Commands,
}

/// The database directory: the one given, else `.sp`.
pub open spec fn db_dir_of(dir: Option<String>) -> Seq<char> {
    match dir {
        Some(d) => d@,
        None => ".sp"@,
    }
}

/// A directory text after which `Path::join` puts a separator on every
/// platform: it is not empty and ends in neither separator (`/`, `\`) nor
/// a drive colon.
pub open spec fn needs_separator(dir: Seq<char>) -> bool {
    dir.len() > 0 && dir.last() != '/' && dir.last() != '\\' && dir.last() != ':'
}

/// `dir` and `file` with one path separator between them: `/`, or `\`
/// where that is the platform's separator.
pub open spec fn separated(dir: Seq<char>, file: Seq<char>, r: Seq<char>) -> bool {
    r == dir + seq!['/'] + file || r == dir + seq!['\\'] + file
}

/// A directory with a Windows verbatim prefix (`\\?\`), after which
/// `PathBuf::push` normalizes the whole path.
pub open spec fn is_verbatim(dir: Seq<char>) -> bool {
    dir.len() >= 4 && dir[0] == '\\' && dir[1] == '\\' && dir[2] == '?' && dir[3] == '\\'
}

/// Calls `std::path::Path::join`, adjoining the relative file name `file`
/// (one component, neither `.` nor `..`) to the directory `dir`, and turns the path back into text. What the
/// documentation of `PathBuf::push` gives on every platform, for a
/// directory without a verbatim prefix (which is normalized on Windows):
/// the result starts with `dir` and ends with `file`, with at most one
/// separator between them; it is `dir` and `file` when `dir` ends in `/`,
/// and `dir`, the platform's separator (`/` on Unix, `\` on Windows) and
/// `file` when `dir` ends in no separator or drive colon. It is `file`
/// when `dir` is empty. Which of the two separators is the platform's, and
/// the result for a verbatim directory, are not stated.
#[verifier::external_body]
fn join_path(dir: &str, file: &str) -> (r: String)
    requires
        file@.len() > 0,
        exists|i: int| 0 <= i < file@.len() && file@[i] != '.',
        forall|i: int| 0 <= i < file@.len() ==> file@[i] != '/' && file@[i] != '\\' && file@[i] != ':',
    ensures
        dir@.len() == 0 ==> r@ == file@,
        !is_verbatim(dir@) ==> (r@.len() == dir@.len() + file@.len() || r@.len() == dir@.len() + file@.len() + 1),
        !is_verbatim(dir@) ==> r@.subrange(0, dir@.len() as int) == dir@,
        !is_verbatim(dir@) ==> r@.subrange(r@.len() - file@.len(), r@.len() as int) == file@,
        !is_verbatim(dir@) && dir@.len() > 0 && dir@.last() == '/' ==> r@ == dir@ + file@,
        !is_verbatim(dir@) && needs_separator(dir@) ==> separated(dir@, file@, r@),
{
    std::path::Path::new(dir).join(file).to_string_lossy().into_owned()
}

impl Cli {
    /// The database directory: `--dir` when given, else `.sp`.
    pub fn db_dir(&self) -> (r: String)
        ensures
            r@ == db_dir_of(self.dir),
    {
        match &self.dir {
            Some(d) => d.clone(),
            None => String::from_str(".sp"),
        }
    }

    /// The database file: `decisions.db` in the database directory.
    pub fn db_path(&self) -> (r: String)
        ensures
            db_dir_of(self.dir).len() == 0 ==> r@ == "decisions.db"@,
            !is_verbatim(db_dir_of(self.dir)) ==> r@.subrange(0, db_dir_of(self.dir).len() as int) == db_dir_of(
                self.dir,
            ),
            !is_verbatim(db_dir_of(self.dir)) ==> r@.subrange(r@.len() - "decisions.db"@.len(), r@.len() as int)
                == "decisions.db"@,
            !is_verbatim(db_dir_of(self.dir)) ==> (r@.len() == db_dir_of(self.dir).len() + "decisions.db"@.len()
                || r@.len() == db_dir_of(self.dir).len() + "decisions.db"@.len() + 1),
            !is_verbatim(db_dir_of(self.dir)) && db_dir_of(self.dir).len() > 0 && db_dir_of(self.dir).last() == '/'
                ==> r@ == db_dir_of(self.dir) + "decisions.db"@,
            !is_verbatim(db_dir_of(self.dir)) && needs_separator(db_dir_of(self.dir)) ==> separated(
                db_dir_of(self.dir),
                "decisions.db"@,
                r@,
            ),
            self.dir is None ==> separated(".sp"@, "decisions.db"@, r@),
    {
        let dir = self.db_dir();
        proof {
            reveal_strlit("decisions.db");
            reveal_strlit(".sp");
            assert("decisions.db"@[0] != '.');
        }
        join_path(dir.as_str(), "decisions.db")
    }
}

} // verus!
