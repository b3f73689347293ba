//! Core numeric routines for estimating a linear price trend over time.
//!
//! The crate has two independent parts:
//!
//! * [`calendar`] converts an 8-digit `YYYYMMDD` calendar date into a signed
//!   count of seconds since 1970-01-01T00:00:00Z, with full validation of the
//!   date string, and proves the conversion correct against a recursive
//!   day-count model (including strict monotonicity in calendar order).
//! * [`regression`] holds the input checks that an ordinary-least-squares fit
//!   performs before any arithmetic: a fit needs at least two observations,
//!   and the independent variable must not be constant.

pub mod calendar;
pub mod regression;
