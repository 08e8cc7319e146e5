use vstd::prelude::*;

use crate::components::Include;
use crate::components::ParseConfig;
use crate::components::SplitConfig;
use crate::components::Token;
use crate::components::BpuError;
use crate::components::OP_RETURN;
use crate::components::rules_v;
use crate::components::lemma_rules_v;
use crate::bpu::spec_collect;
use crate::bsv_api::decode_of;
use crate::protocols::pipe_opreturn_rules;

verus! {

/// The bitcom-style front end: the shared preset over the projector.
pub struct Bitcom;

impl Bitcom {
    /// Decodes a raw transaction and projects it under the shared
    /// pipe / data-carrier preset: every hex the decoder accepts (with
    /// outputs countable in 32 bits) yields exactly that projection.
    pub fn from_raw_tx(hex: &str) -> (r: Result<crate::components::BPU, BpuError>)
        ensures
            match decode_of(hex@) {
                Some(d) => if d.outputs.len() <= 0xFFFF_FFFF {
                    r matches Ok(b) && b@ == spec_collect(d, pipe_opreturn_rules())
                } else {
                    r matches Err(_)
                },
                None => r matches Err(_),
            },
    {
        let mut split: Vec<SplitConfig> = Vec::new();
        split.push(
            SplitConfig {
                policy: Include::Left,
                token: Token { op: None, ops: None, b: None, s: Some(String::from_str("|")) },
            },
        );
        split.push(
            SplitConfig {
                policy: Include::Left,
                token: Token { op: Some(OP_RETURN), ops: None, b: None, s: None },
            },
        );
        let config = ParseConfig { split };
        proof {
            lemma_rules_v(config.split@);
            assert(rules_v(config.split@) =~= pipe_opreturn_rules());
        }
        crate::components::BPU::from_raw_tx(hex, config)
    }
}

} // verus!
