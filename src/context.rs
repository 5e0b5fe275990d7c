//! Values handed to templates.

use vstd::prelude::*;

verus! {

/// Context argument for the template that renders a `Cargo.toml` for a
/// workspace which is built via nix. `I` is the generate info of this
/// invocation.
#[derive(Debug)]
pub struct CargoTomlForWorkspace<I> {
    /// The generate info for this invocation.
    pub info: I,
    /// The symlink to the workspace member dir derivation output.
    pub workspace_member_dir: String,
    /// The names of the members of this workspace - which are
    /// equal to the names of the subdirectory symlinks.
    pub members: Vec<String>,
}

} // verus!
