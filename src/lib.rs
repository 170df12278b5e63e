//! Backend of a desktop status bar: metric readings are rendered as text,
//! compared against what was last sent, and only the changes are dispatched
//! to the rendering surface as a single `tick` event.
use vstd::prelude::*;

pub mod assets;
pub mod dispatch;
pub mod field;
pub mod probes;
pub mod sample;
pub mod store;
pub mod text;

verus! {

} // verus!
