//! Mirrors a documentation tree into a site tree: `.md` files become
//! minimal HTML pages with their links retargeted, other files are copied.
use vstd::prelude::*;

pub mod links;
pub mod naming;
pub mod page;
mod text;
pub mod walker;
pub mod watch;

verus! {

} // verus!
