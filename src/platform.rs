//! The cfg tree of cargo_platform, carried through opaquely.

use vstd::prelude::*;

verus! {

#[verifier::external_type_specification]
#[verifier::external_body]
pub struct ExPlatformCfgExpr(cargo_platform::CfgExpr);

} // verus!
