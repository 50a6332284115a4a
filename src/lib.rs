//! A process monitor's core: a forest of processes built from a snapshot, a filtered
//! and sorted flat view of it with a cache, the selection and viewport over that view,
//! and the decisions taken on each key press and mouse event.

pub mod dispatch;
pub mod expand;
pub mod filter;
pub mod handlers;
pub mod input;
pub mod keys;
pub mod model;
pub mod mouse;
pub mod refresh;
pub mod selection;
pub mod sorting;
pub mod stats;
pub mod state;
pub mod text;
pub mod tree;
pub mod view;
