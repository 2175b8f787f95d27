//! What has to be read before a change set can be applied.
pub mod collect;
pub mod kind;
pub mod laws;
pub mod load;
pub mod local;
pub mod plan;
pub mod plan_laws;
pub mod tables;
