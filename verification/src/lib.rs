//! Verified core of a desktop trash-can browser.
//!
//! The browser itself is a thin shell around external programs: a listing
//! tool that enumerates trashed files, a menu picker, a confirmation
//! dialog, and a restore tool.  Everything the shell has to get right —
//! parsing the listing tool's fixed-width output, ordering entries by
//! deletion time, rendering the menu lines, recovering the selected path,
//! and deciding whether a restore may be launched — lives here, with
//! contracts that pin the behaviour down.

pub mod datetime;
pub mod display;
pub mod errors;
pub mod index;
pub mod listing;
pub mod selection;
