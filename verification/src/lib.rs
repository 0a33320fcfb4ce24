//! A verified scene model for hierarchical system-language diagrams.
//!
//! A diagram is a *System of Interest* drawn as a disk whose boundary hosts
//! typed *Interfaces*; *Flows* of matter, energy or message connect those
//! interfaces to external *Sources* and *Sinks*, and a system can be
//! decomposed into nested *Subsystems*. This crate holds the typed scene
//! graph with its invariants, the constructors that edit it, the engine
//! that restores derived state after edits, the layout and zoom rules, the
//! stable document format with its two-way mapping to the scene, and the
//! file-import state machine.

use vstd::prelude::*;

pub mod catalog;
pub mod delete;
pub mod document;
pub mod elements;
pub mod engine;
pub mod geom;
pub mod import;
pub mod laws;
pub mod layout;
pub mod scene;

verus! {

} // verus!
