//! Stand-in window handles for examples and documentation.
//!
//! The handle traits of `raw-window-handle` are implemented by the application, on copies of these
//! types.

use vstd::prelude::*;

verus! {

/// A window that provides raw window and display handles.
#[derive(Clone, Copy, Debug, Default)]
pub struct Window;

/// A window that provides a raw window handle.
#[derive(Clone, Copy, Debug, Default)]
pub struct RWH;

} // verus!
