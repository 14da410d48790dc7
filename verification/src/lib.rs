//! Planning and bookkeeping for trimming an Unreal Engine source tree.
pub mod text;
pub mod tree;
pub mod stats;
pub mod size;
pub mod platforms;
pub mod args;
pub mod plan;
