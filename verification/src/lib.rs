//! Core of an interactive node-graph editor: a directed graph of typed logic
//! nodes (toggle inputs, binary operator blocks, pass-through sinks) kept in
//! sync with persistent on-screen visuals, a logarithmic pan/zoom viewport,
//! pointer interaction, and per-frame edge routing.
//!
//! The render backend and windowing host are external collaborators: this
//! crate consumes plain input events and produces plain render commands, and
//! all geometry is carried as exact rational numbers so that every coordinate
//! computation is exact.

pub mod editor;
pub mod frac;
pub mod geom;
pub mod graph;
pub mod interact;
pub mod nodes;
pub mod sync;
pub mod registry;
pub mod render;
pub mod router;
pub mod viewport;
