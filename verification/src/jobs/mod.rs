//! The decisions of the background jobs: publishing, grouping and withdrawing.
pub mod publisher;
pub mod subscriptions_grouper;
pub mod withdraw;
