//! Timezone specifiers and the local time of a UTC instant, with a few
//! helpers for texts and tables.
//!
//! A specifier is either the name of a zone of the IANA database or a fixed
//! offset written with a three-letter prefix: `utc` or `gmt` before a number
//! of hours, `fof` before a number of minutes. `sme_time` validates
//! specifiers and converts instants; `specifier`, `number` and `label` hold
//! the parsing and the formatting behind it.
//!
//! Every function is verified. The zone database, the calendar, Unicode
//! tables, shell splitting and table drawing are outside crates: each call
//! into them is a small function whose contract is believed, not proved, and
//! which is marked as trusted in its documentation.

pub mod clock;
pub mod label;
pub mod number;
pub mod sme_table;
pub mod sme_time;
pub mod sme_utils;
pub mod specifier;
pub mod zone;
