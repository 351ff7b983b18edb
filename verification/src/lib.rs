//! A single-processor process and resource manager: a fixed table of
//! processes organised as a tree, four classes of reusable resources with
//! FIFO waitlists, and a three-level priority ready structure.
//!
//! Every operation is one atomic transition of the [`scheduler::Scheduler`];
//! [`process`] runs batches of typed instructions against it.

pub mod process;
pub mod scheduler;
