//! Decision core of a package-installation front-end: given the requested
//! packages and what is already installed, work out for each request whether
//! to install it fresh, force a reinstall, or ask the user first.

use vstd::prelude::*;

pub mod install;
pub mod project;

verus! {

} // verus!
