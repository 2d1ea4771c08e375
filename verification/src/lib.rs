//! Lazily resolved Merkle-DAG cells.
//!
//! A cell of the DAG may be known only in part while its tree is assembled:
//! some children are finalized, some exist as data with unresolved children,
//! and some are promised by another thread. This crate turns such a tree into
//! one finalized cell, and provides the promise that threads coordinate on.

pub mod cell;
pub mod children;
pub mod error;
pub mod ext_cell;
pub mod promise;
pub mod resolve_laws;

pub use crate::cell::{Cell, CellContext, CellDataBuilder, CellRefsBuilder, MAX_REF_COUNT};
pub use crate::children::ChildrenBuilder;
pub use crate::error::Error;
pub use crate::ext_cell::{CellPromise, ExtCell, ExtCellParts};
pub use crate::promise::Promise;
