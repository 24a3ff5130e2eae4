//! What the commands decide: what `status` shows, what `up` does next, and what
//! `baseline` and `create` write.

pub mod baseline;
pub mod create;
pub mod status;
pub mod up;
