//! A verified model of the Science Vault chain logic: a vault of element
//! hashes owned by accounts, and a reputation system that rewards, punishes
//! and periodically re-evaluates contributors.

pub mod dispatch;
pub mod perbill;
pub mod reward;
pub mod vault;
pub mod weight;
pub mod handlers;
pub mod weights;
