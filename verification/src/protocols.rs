pub mod bitcom;
pub mod bob;
pub mod ord;

use vstd::prelude::*;

use crate::components::Include;
use crate::components::SplitConfigV;
use crate::components::TokenV;
use crate::components::OP_RETURN;

verus! {

/// The shared two-rule preset of the thin protocol front ends: split on
/// the literal pipe text and on the data-carrier opcode, both merged
/// left.
pub open spec fn pipe_opreturn_rules() -> Seq<SplitConfigV> {
    seq![
        SplitConfigV {
            policy: Include::Left,
            token: TokenV { op: None, ops: None, b: None, s: Some("|"@) },
        },
        SplitConfigV {
            policy: Include::Left,
            token: TokenV { op: Some(OP_RETURN), ops: None, b: None, s: None },
        },
    ]
}

} // verus!
