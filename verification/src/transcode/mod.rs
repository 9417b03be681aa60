//! Voice between the two sides of a bridged call: companding, and the pacing of frames
//! and packets.
pub mod g711;
pub mod task;
