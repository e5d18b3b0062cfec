//! Planning and bookkeeping for copying GitHub repository labels and
//! milestones from a source repository to a target repository.
pub mod cli;
pub mod text;
pub mod sync;
pub mod github;
