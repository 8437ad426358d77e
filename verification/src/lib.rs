//! A verified planner for renaming image files after their creation date.
//!
//! The library holds the whole decision logic of the tool: which directory
//! entries qualify, what canonical name each one gets, how name collisions
//! are resolved, and what is reported. The thin binary around it only reads
//! the directory, performs the actual rename calls and prints the messages
//! that the library builds.
//!
//! A canonical name uses date-only granularity: `YYYY-MM-DD.ext`, with a
//! `_k` disambiguator inserted when that name is taken by another file.
//! The disambiguator counts from 1 and starts afresh for every file. The
//! collision probe passes over the file's own current name, and a file
//! that already bears the name the run resolves for it is left unrenamed
//! and uncounted: running the tool twice in succession renames nothing
//! the second time. A file whose name yields no extension at all is a
//! fatal error, not a skip.

pub mod dates;
pub mod digits;
pub mod naming;
pub mod errors;
pub mod params;
pub mod planner;
