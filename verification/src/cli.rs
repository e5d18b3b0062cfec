//! The command line as values, and which resources a run syncs.
use vstd::prelude::*;

verus! {

/// The parsed command line: an optional API token and the command to run.
pub struct Cli {
    pub token: Option<String>,
    pub command: Commands,
}

/// The commands of the tool.
pub enum Commands {
    /// Sync resources from a source repo to a target repo.
    Sync { source: String, target: String, dry_run: bool, resources: Vec<Resource> },
}

/// A kind of resource that can be synced.
#[derive(Debug, Clone, Copy, PartialEq, Eq, Structural)]
pub enum Resource {
    /// All supported resources.
    All,
    /// Repository labels.
    Labels,
    /// Repository milestones.
    Milestones,
}

/// Whether `resources` names `r`.
fn names(resources: &Vec<Resource>, r: Resource) -> (b: bool)
    ensures
        b == resources@.contains(r),
{
    let mut i: usize = 0;
    while i < resources.len()
        invariant
            i <= resources.len(),
            forall|j: int| 0 <= j < i ==> resources@[j] != r,
        decreases resources.len() - i,
    {
        if resources[i] == r {
            return true;
        }
        i = i + 1;
    }
    false
}

/// Whether a run asked for `resources` syncs labels: when it names labels or all.
pub fn syncs_labels(resources: &Vec<Resource>) -> (b: bool)
    ensures
        b == (resources@.contains(Resource::All) || resources@.contains(Resource::Labels)),
{
    names(resources, Resource::All) || names(resources, Resource::Labels)
}

/// Whether a run asked for `resources` syncs milestones: when it names
/// milestones or all.
pub fn syncs_milestones(resources: &Vec<Resource>) -> (b: bool)
    ensures
        b == (resources@.contains(Resource::All) || resources@.contains(Resource::Milestones)),
{
    names(resources, Resource::All) || names(resources, Resource::Milestones)
}

} // verus!
