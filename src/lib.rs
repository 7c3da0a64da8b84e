//! Generates a batch of driver scripts from one dataset and one template body: the
//! dataset's lines, comments left out, are cut into contiguous groups, and each group
//! becomes one script made of a fixed header, the group's lines and the template body.
pub mod batch;
pub mod config;
pub mod dataset;
pub mod partition;
pub mod script;
pub mod text;
