//! Launch planning for the Vyper language servers used by the Zed editor:
//! backend selection, workspace virtual-environment discovery and the
//! environment shaping applied before a server is started.

mod text;
pub mod backend;
pub mod path;
pub mod venv;
pub mod env;
pub mod host;
pub mod launch;

pub use backend::Backend;

use vstd::prelude::*;

verus! {

/// The extension itself; every operation of the library is an associated
/// function of this type.
pub struct VyperExtension;

} // verus!
