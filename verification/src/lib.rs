//! Runs untrusted programs in sandboxes: microVMs with their own kernel, a disk overlay,
//! filtered console, user-mode networking and shared directories.
use vstd::prelude::*;

pub mod config;
pub mod paths;
pub mod sandbox;
pub mod text;

verus! {

} // verus!
