//! Recognition of inline merge-conflict markers.
//!
//! A version-control tool that cannot merge two sides of a file writes both
//! into the file, between marker lines. This library finds those regions in
//! a document and turns them into records with positions, for an editor to
//! work with. It reads; it never rewrites or resolves anything.
//!
//! * [`pattern`] tells what a line is: one of five kinds of marker, or plain.
//! * [`lines`] cuts a document into lines, and [`document`] gives each line
//!   its kind.
//! * [`layout`] says, over the classified lines, where blocks and conflicts
//!   lie and what they hold.
//! * [`cursor`] reads blocks and conflicts line by line, and [`conflict`]
//!   scans a whole document.
//! * [`laws`] holds what is true of every scan.
//! * [`types`] and [`utf16`] hold the records and the unit of their columns.

pub mod conflict;
pub mod cursor;
pub mod document;
pub mod laws;
pub mod layout;
pub mod lines;
pub mod pattern;
pub mod types;
pub mod utf16;
