//! A minimal computational kernel for rendering an escape-time fractal to a
//! text terminal.
//!
//! The crate provides two independent value types: [`complex::Complex`], a
//! generic two-component numeric pair supporting the elementwise arithmetic
//! needed for escape-time iteration, and [`view::View`], a fixed-size
//! two-dimensional boolean raster with bounds-checked access, iteration and
//! textual rendering. A driving program composes them; neither component
//! performs any I/O.

pub mod complex;
pub mod view;
