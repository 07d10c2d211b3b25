//! A literary clock library: quotes are tagged with the clock time their text
//! mentions; an index built once from the sorted quote list maps every minute
//! of a 12-hour clock face to the quotes for that minute, forward-filling
//! minutes that no quote mentions; a lookup normalizes an arbitrary
//! hour/minute pair and picks one quote from the matching bucket.

pub mod index;
pub mod lookup;
pub mod model;
pub mod render;
pub mod text;
