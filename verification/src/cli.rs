//! The administrative command set of the oracle service.  Argument
//! parsing and configuration loading sit outside the library; the library
//! only fixes which commands exist.

use vstd::prelude::*;

verus! {

/// What the operator can ask for: add an entity under the tree, run the
/// service, or derive material for one event.
#[derive(Debug)]
pub enum Command {
    Add { entity: String },
    Run,
    Derive { event: String },
}

} // verus!
