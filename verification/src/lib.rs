//! Scheduling and bookkeeping for a fixed-step pairwise gravity simulation.
//!
//! The numerical work of such a simulation (vector arithmetic on positions,
//! velocities and forces) is done by the caller.  This crate decides *what*
//! is done and *in which order*: which pairs of bodies exchange a force,
//! when a body's acceleration may be settled, when bodies are moved, how many
//! steps lie between two recorded frames, and how recorded frames are laid
//! out per body.  Every such decision is a small state machine or function
//! whose behaviour is stated over sequences and proved.

pub mod cursor;
pub mod force_pass;
pub mod pairs;
pub mod playback;
pub mod recording;
pub mod run;
pub mod step;
