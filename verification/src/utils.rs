//! What the services of the node share.

pub mod task;
