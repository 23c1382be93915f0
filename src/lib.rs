//! Normalisation of free-text sample metadata: tag classification and the
//! date, depth and coordinate grammars, with the record builder around them.

pub mod text;
pub mod calendar;
pub mod dates;
pub mod depth;
pub mod coords;
pub mod tags;
pub mod record;
