//! A small engine for drawing named items ("marks") from a catalog.
//!
//! A library of marks, each carrying a power tier, a category and a set of
//! tags, is loaded once; the user then authors a draft: an ordered list of
//! draw specifications, each optionally constraining power, category and
//! required tags. Executing the draft resolves every specification in order
//! to a uniformly random qualifying mark, with a fixed placeholder when no
//! mark qualifies. The draft itself is edited through a flat line cursor
//! that addresses each specification's header and fields, with cyclic value
//! rotation, and past executions are kept in an append-only history.

pub mod draw;
pub mod editor;
pub mod library;
pub mod load;
pub mod mark;
pub mod power;
pub mod prompt;
pub mod results;
pub mod rng;
pub mod rotate;
pub mod sampling;
