//! Editing core of a 2D point-and-line plan editor.
//!
//! The library has five layers, leaves first:
//!
//! * [`geometry`] — integer 2D positions and midpoints;
//! * [`graph`] — the store of points and lines with its adjacency invariants;
//! * [`command`] — atomic graph commands, each of which computes its own
//!   inverse from the state observed while it is applied;
//! * [`plan`] — the plan-mode state machine (what is selected or tracked);
//! * [`editor`] — the editor context: graph, mode, and the undo/redo engine
//!   that groups commands into transactions;
//! * [`binding`] — the binding resolver that maps mode, hover target and
//!   edge-triggered input to at most one command per tick.

pub mod binding;
pub mod command;
pub mod editor;
pub mod geometry;
pub mod graph;
pub mod plan;
