//! Tracking of Jujutsu working directories inside a project tree.

pub mod base_text;
pub mod cache;
pub mod commit;
pub mod events;
pub mod history;
mod order;
pub mod panel;
pub mod path;
pub mod reconcile;
pub mod store;
pub mod store_model;
pub mod timestamp;
pub mod tracker;
pub mod vcs;

pub use commit::short_change_hash;
pub use commit::short_commit_hash;
pub use commit::ChangeId;
pub use commit::CommitId;
pub use commit::CommitSummary;
pub use commit::JjCommitSummary;
pub use store::JjRepositorySummary;
pub use store::JjStore;
pub use tracker::JjRepositoryEntry;
pub use tracker::JjTracker;
pub use tracker::UpdatedJjRepositoriesSet;
pub use tracker::UpdatedJjRepository;
pub use vcs::ProjectVcsBackend;
