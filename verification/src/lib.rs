//! Filesystem support utilities: a model of paths as component sequences,
//! a pruning collector of files, and the decision logic of a lax,
//! heartbeat-monitored file lock.

pub mod canonical;
pub mod collect;
pub mod lock;
pub mod path;
pub mod replicate;
pub mod resolve;
pub mod specifier;
pub mod text;
pub mod write;
