use vstd::prelude::*;

use crate::components::Include;
use crate::components::ParseConfig;
use crate::components::SplitConfig;
use crate::components::Token;
use crate::components::BpuError;
use crate::components::OP_RETURN;
use crate::components::rules_v;
use crate::components::lemma_rules_v;
use crate::bpu::spec_collect;
use crate::bsv_api::decode_of;
use crate::protocols::pipe_opreturn_rules;
use crate::components::ScriptToken;
use crate::components::ScriptTokenV;
use crate::components::token_view;
use crate::components::tokens_v;
use crate::components::lemma_tokens_v;
use crate::components::TxData;
use crate::components::TxOutputDataV;
use crate::components::lemma_tx_outputs_v;
use crate::components::OrdData;
use crate::components::OrdDataV;
use crate::components::ords_v;
use crate::components::lemma_ords_v;
use crate::components::BMapManager;
use crate::components::clone_token;
use crate::components::OP_0;
use crate::components::OP_1;
use crate::bsv_api::utf8_lossy_of;
use crate::bsv_api::lossy_string;

verus! {

/// The ordinals front end: the shared preset over the projector, plus the envelope detector.
pub struct Ord;

/// A bundle of working values for envelope handling: the projected
/// transaction, a cell group, an optional tape, and the decoded outside
/// transaction it came from.
pub struct HandlerProps {
    pub data_obj: crate::components::BPU,
    pub cell: Vec<crate::components::Cell>,
    pub tape: Option<crate::components::Tape>,
    pub tx: Option<bsv::Transaction>,
}

impl Ord {
    /// Decodes a raw transaction and projects it under the shared
    /// pipe / data-carrier preset: every hex the decoder accepts (with
    /// outputs countable in 32 bits) yields exactly that projection.
    pub fn from_raw_tx(hex: &str) -> (r: Result<crate::components::BPU, BpuError>)
        ensures
            match decode_of(hex@) {
                Some(d) => if d.outputs.len() <= 0xFFFF_FFFF {
                    r matches Ok(b) && b@ == spec_collect(d, pipe_opreturn_rules())
                } else {
                    r matches Err(_)
                },
                None => r matches Err(_),
            },
    {
        let mut split: Vec<SplitConfig> = Vec::new();
        split.push(
            SplitConfig {
                policy: Include::Left,
                token: Token { op: None, ops: None, b: None, s: Some(String::from_str("|")) },
            },
        );
        split.push(
            SplitConfig {
                policy: Include::Left,
                token: Token { op: Some(OP_RETURN), ops: None, b: None, s: None },
            },
        );
        let config = ParseConfig { split };
        proof {
            lemma_rules_v(config.split@);
            assert(rules_v(config.split@) =~= pipe_opreturn_rules());
        }
        crate::components::BPU::from_raw_tx(hex, config)
    }
}


/// The three protocol tag bytes that open an envelope payload.
pub open spec fn ord_tag() -> Seq<u8> {
    seq![111u8, 114u8, 100u8]
}

/// The bytes of a push token; empty for any other token.
pub open spec fn push_bytes(t: ScriptTokenV) -> Seq<u8> {
    match t {
        ScriptTokenV::Push(b) => b,
        _ => Seq::empty(),
    }
}

/// The position of the first top-level conditional of a script, if any.
pub open spec fn first_conditional(s: Seq<ScriptTokenV>) -> Option<int>
    decreases s,
{
    if s.len() == 0 {
        None
    } else if s[0] is Conditional {
        Some(0int)
    } else {
        match first_conditional(s.drop_first()) {
            Some(i) => Some(i + 1),
            None => None,
        }
    }
}

/// What `first_conditional` finds: the first conditional, with nothing
/// conditional before it.
pub proof fn lemma_first_conditional(s: Seq<ScriptTokenV>)
    ensures
        match first_conditional(s) {
            Some(i) => 0 <= i < s.len() && s[i] is Conditional && forall|k: int|
                0 <= k < i ==> !(s[k] is Conditional),
            None => forall|k: int| 0 <= k < s.len() ==> !(s[k] is Conditional),
        },
    decreases s,
{
    if s.len() > 0 && !(s[0] is Conditional) {
        lemma_first_conditional(s.drop_first());
        match first_conditional(s.drop_first()) {
            Some(i) => {
                assert(s.drop_first()[i] == s[i + 1]);
                assert forall|k: int| 0 <= k < i + 1 implies !(s[k] is Conditional) by {
                    if k > 0 {
                        assert(s.drop_first()[k - 1] == s[k]);
                        assert(!(s.drop_first()[k - 1] is Conditional));
                    }
                }
            },
            None => {
                assert forall|k: int| 0 <= k < s.len() implies !(s[k] is Conditional) by {
                    if k > 0 {
                        assert(s.drop_first()[k - 1] == s[k]);
                        assert(!(s.drop_first()[k - 1] is Conditional));
                    }
                }
            },
        }
    }
}

/// A script shows the envelope shape: its first top-level conditional is
/// preceded by the false marker, and its then-branch opens with a push
/// of exactly the protocol tag.
pub open spec fn spec_script_checker(s: Seq<ScriptTokenV>) -> bool {
    match first_conditional(s) {
        Some(i) => i > 0 && s[i - 1] == ScriptTokenV::OpCode(OP_0) && (match s[i] {
            ScriptTokenV::Conditional { then_branch, .. } => then_branch.len() > 0
                && then_branch[0] == ScriptTokenV::Push(ord_tag()),
            _ => false,
        }),
        None => false,
    }
}

/// An output qualifies when its script shows the envelope shape and has
/// a designated seventh element to restrict further processing to.
pub open spec fn spec_output_qualifies(out: TxOutputDataV) -> bool {
    spec_script_checker(out.script) && out.script.len() > 6
}

/// The position of the first qualifying output, if any.
pub open spec fn spec_find_ord(outs: Seq<TxOutputDataV>) -> Option<int>
    decreases outs,
{
    if outs.len() == 0 {
        None
    } else if spec_output_qualifies(outs[0]) {
        Some(0int)
    } else {
        match spec_find_ord(outs.drop_first()) {
            Some(i) => Some(i + 1),
            None => None,
        }
    }
}

/// What `spec_find_ord` finds: the first qualifying output, with none
/// qualifying before it.
pub proof fn lemma_spec_find_ord(outs: Seq<TxOutputDataV>)
    ensures
        match spec_find_ord(outs) {
            Some(i) => 0 <= i < outs.len() && spec_output_qualifies(outs[i]) && forall|k: int|
                0 <= k < i ==> !spec_output_qualifies(outs[k]),
            None => forall|k: int| 0 <= k < outs.len() ==> !spec_output_qualifies(outs[k]),
        },
    decreases outs,
{
    if outs.len() > 0 && !spec_output_qualifies(outs[0]) {
        lemma_spec_find_ord(outs.drop_first());
        match spec_find_ord(outs.drop_first()) {
            Some(i) => {
                assert(outs.drop_first()[i] == outs[i + 1]);
                assert forall|k: int| 0 <= k < i + 1 implies !spec_output_qualifies(outs[k]) by {
                    if k > 0 {
                        assert(outs.drop_first()[k - 1] == outs[k]);
                        assert(!spec_output_qualifies(outs.drop_first()[k - 1]));
                    }
                }
            },
            None => {
                assert forall|k: int| 0 <= k < outs.len() implies !spec_output_qualifies(outs[k]) by {
                    if k > 0 {
                        assert(outs.drop_first()[k - 1] == outs[k]);
                        assert(!spec_output_qualifies(outs.drop_first()[k - 1]));
                    }
                }
            },
        }
    }
}

/// A transaction none of whose outputs qualifies has no envelope.
pub proof fn lemma_no_envelope_not_found(outs: Seq<TxOutputDataV>)
    requires
        forall|k: int| 0 <= k < outs.len() ==> !spec_output_qualifies(outs[k]),
    ensures
        spec_find_ord(outs) is None,
{
    lemma_spec_find_ord(outs);
}

/// The pairwise scan over a branch: a content-type marker followed
/// immediately by a push captures its text, a data marker followed
/// immediately by a push captures its bytes, and the scan stops as soon
/// as both have been found or the branch ends.
pub open spec fn spec_scan_envelope(
    branch: Seq<ScriptTokenV>,
    j: int,
    ct: Option<Seq<char>>,
    data: Option<Seq<u8>>,
) -> (Option<Seq<char>>, Option<Seq<u8>>)
    decreases branch.len() - j,
{
    if j < 0 || j >= branch.len() || (ct is Some && data is Some) {
        (ct, data)
    } else {
        let bit = branch[j];
        if bit == ScriptTokenV::OpCode(OP_1) && j + 1 < branch.len() && branch[j + 1] is Push {
            let ct2 = Some(utf8_lossy_of(push_bytes(branch[j + 1])));
            if data is Some {
                (ct2, data)
            } else {
                spec_scan_envelope(branch, j + 1, ct2, data)
            }
        } else if bit == ScriptTokenV::OpCode(OP_0) && j + 1 < branch.len() && branch[j + 1] is Push {
            let d2 = Some(push_bytes(branch[j + 1]));
            if ct is Some {
                (ct, d2)
            } else {
                spec_scan_envelope(branch, j + 1, ct, d2)
            }
        } else {
            spec_scan_envelope(branch, j + 1, ct, data)
        }
    }
}

/// The record that one transaction contributes: the scan of the
/// designated element of the first qualifying output, when it is a
/// conditional and both parts of the envelope are present.
pub open spec fn spec_handler_effect(outs: Seq<TxOutputDataV>) -> Option<OrdDataV> {
    match spec_find_ord(outs) {
        None => None,
        Some(e) => match outs[e].script[6] {
            ScriptTokenV::Conditional { then_branch, .. } => {
                let r = spec_scan_envelope(then_branch, 0, None, None);
                match r {
                    (Some(ct), Some(d)) => Some(OrdDataV { data: d, content_type: ct }),
                    _ => None,
                }
            },
            _ => None,
        },
    }
}

/// `ords_v` of a pushed element.
pub proof fn lemma_ords_v_push(a: Seq<OrdData>, x: OrdData)
    ensures
        ords_v(a.push(x)) == ords_v(a).push(x@),
{
    lemma_ords_v(a.push(x));
    lemma_ords_v(a);
    assert(ords_v(a.push(x)) =~= ords_v(a).push(x@));
}


impl Ord {
    /// Decides whether one script shows the envelope shape.
    pub fn script_checker(script: &Vec<ScriptToken>) -> (r: bool)
        ensures
            r == spec_script_checker(tokens_v(script@)),
    {
        let ghost sv = tokens_v(script@);
        proof {
            lemma_tokens_v(script@);
            lemma_first_conditional(sv);
        }
        let n = script.len();
        let mut idx: usize = 0;
        let mut found = false;
        while !found && idx < n
            invariant
                n == script@.len(),
                idx <= n,
                sv == tokens_v(script@),
                sv.len() == n,
                forall|k: int| 0 <= k < sv.len() ==> sv[k] == token_view(script@[k]),
                forall|k: int| 0 <= k < idx ==> !(sv[k] is Conditional),
                found ==> idx < n && sv[idx as int] is Conditional,
            decreases n - idx + (if found { 0int } else { 1int }),
        {
            match &script[idx] {
                ScriptToken::Conditional { .. } => {
                    found = true;
                },
                _ => {
                    idx += 1;
                },
            }
        }
        if !found {
            proof {
                assert(first_conditional(sv) is None);
            }
            return false;
        }
        proof {
            assert(first_conditional(sv) == Some(idx as int));
        }
        if idx == 0 {
            return false;
        }
        let prev_ok = match &script[idx - 1] {
            ScriptToken::OpCode(c) => *c == OP_0,
            _ => false,
        };
        if !prev_ok {
            proof {
                assert(!(sv[idx as int - 1] == ScriptTokenV::OpCode(OP_0)));
            }
            return false;
        }
        let tag_ok = match &script[idx] {
            ScriptToken::Conditional { then_branch, .. } => {
                if then_branch.len() == 0 {
                    false
                } else {
                    proof {
                        lemma_tokens_v(then_branch@);
                    }
                    match &then_branch[0] {
                        ScriptToken::Push(b) => {
                            let ok = b.len() == 3 && b[0] == 111 && b[1] == 114 && b[2] == 100;
                            proof {
                                if ok {
                                    assert(b@ =~= ord_tag());
                                } else {
                                    assert(b@ != ord_tag());
                                }
                            }
                            ok
                        },
                        _ => false,
                    }
                }
            },
            _ => false,
        };
        tag_ok
    }

    /// Finds the first output whose script shows the envelope shape and
    /// returns its position together with the sub-script made of the
    /// designated element of that script; the classified not-found error
    /// otherwise.
    pub fn get_ord_script(tx: &TxData) -> (r: Result<(usize, Vec<ScriptToken>), BpuError>)
        ensures
            spec_find_ord(tx@.outputs) matches Some(e) ==> (r matches Ok(p) && p.0 == e
                && tokens_v(p.1@) == seq![tx@.outputs[e].script[6]]),
            spec_find_ord(tx@.outputs) is None ==> (r matches Err(e2) && e2 matches
                BpuError::CustomError(m) && m@ == "Invalid Ord tx. Script not found."@),
    {
        proof {
            lemma_tx_outputs_v(tx.outputs@);
            lemma_spec_find_ord(tx@.outputs);
        }
        let n = tx.outputs.len();
        let mut e: usize = 0;
        while e < n
            invariant
                n == tx.outputs@.len(),
                e <= n,
                tx@.outputs.len() == n,
                forall|k: int| 0 <= k < n ==> tx@.outputs[k] == tx.outputs@[k]@,
                forall|k: int| 0 <= k < e ==> !spec_output_qualifies(tx@.outputs[k]),
            decreases n - e,
        {
            let script = &tx.outputs[e].script;
            proof {
                lemma_tokens_v(script@);
            }
            if Self::script_checker(script) && script.len() > 6 {
                let element = clone_token(&script[6]);
                let mut sub: Vec<ScriptToken> = Vec::new();
                sub.push(element);
                proof {
                    lemma_tokens_v(sub@);
                    assert(spec_output_qualifies(tx@.outputs[e as int]));
                    lemma_spec_find_ord(tx@.outputs);
                    assert(spec_find_ord(tx@.outputs) == Some(e as int));
                    assert(tokens_v(sub@) =~= seq![tx@.outputs[e as int].script[6]]);
                }
                return Ok((e, sub));
            }
            proof {
                assert(!spec_output_qualifies(tx@.outputs[e as int]));
            }
            e += 1;
        }
        proof {
            lemma_spec_find_ord(tx@.outputs);
            assert(spec_find_ord(tx@.outputs) is None);
        }
        Err(BpuError::CustomError(String::from_str("Invalid Ord tx. Script not found.")))
    }

    /// Scans the transaction's first qualifying output and, when both
    /// the content type and the payload of the envelope are present,
    /// appends the extracted record to the shared collection.
    pub fn handler(tx: &TxData, bmap: &mut BMapManager) -> (r: Result<(), BpuError>)
        ensures
            spec_find_ord(tx@.outputs) is None ==> (r matches Err(e2) && e2 matches
                BpuError::CustomError(m) && m@ == "Invalid Ord tx. Script not found."@
                && *final(bmap) == *old(bmap)),
            spec_find_ord(tx@.outputs) is Some ==> (r matches Ok(u)
                && final(bmap).timestamp == old(bmap).timestamp
                && ords_v(final(bmap).ord@) == ords_v(old(bmap).ord@) + (match spec_handler_effect(
                tx@.outputs,
            ) {
                Some(o) => seq![o],
                None => Seq::<OrdDataV>::empty(),
            })),
    {
        let pair = match Self::get_ord_script(tx) {
            Ok(p) => p,
            Err(e2) => {
                proof {
                    assert(ords_v(bmap.ord@) =~= ords_v(bmap.ord@) + Seq::<OrdDataV>::empty());
                }
                return Err(e2);
            },
        };
        let ret = pair.1;
        proof {
            lemma_tokens_v(ret@);
        }
        let ghost eff = spec_handler_effect(tx@.outputs);
        proof {
            assert(spec_find_ord(tx@.outputs) is Some);
        }
        match &ret[0] {
            ScriptToken::Conditional { condition, then_branch, else_branch } => {
                let ghost tb = tokens_v(then_branch@);
                proof {
                    lemma_tokens_v(then_branch@);
                    match spec_find_ord(tx@.outputs) {
                        Some(e0) => {
                            assert(tokens_v(ret@)[0] == tx@.outputs[e0].script[6]);
                            assert(tokens_v(ret@)[0] == token_view(ret@[0]));
                            assert(token_view(ret@[0]) matches ScriptTokenV::Conditional {
                                then_branch: tb2, .. } && tb2 == tb);
                            assert(eff == (match spec_scan_envelope(tb, 0, None, None) {
                                (Some(ct), Some(d)) => Some(OrdDataV { data: d, content_type: ct }),
                                _ => None,
                            }));
                        },
                        None => {
                            assert(false);
                        },
                    }
                }
                let mut content_type: Option<String> = None;
                let mut data: Option<Vec<u8>> = None;
                let n = then_branch.len();
                let mut j: usize = 0;
                while j < n && !(content_type.is_some() && data.is_some())
                    invariant
                        n == then_branch@.len(),
                        j <= n,
                        tb == tokens_v(then_branch@),
                        tb.len() == n,
                        forall|k: int| 0 <= k < n ==> tb[k] == token_view(then_branch@[k]),
                        spec_scan_envelope(tb, 0, None, None) == spec_scan_envelope(
                            tb,
                            j as int,
                            crate::components::opt_str_v(content_type),
                            match data {
                                Some(d) => Some(d@),
                                None => None,
                            },
                        ),
                    decreases n - j,
                {
                    match &then_branch[j] {
                        ScriptToken::OpCode(cbyte) => {
                            if *cbyte == OP_1 && j + 1 < n {
                                match &then_branch[j + 1] {
                                    ScriptToken::Push(b) => {
                                        content_type = Some(lossy_string(b));
                                    },
                                    _ => {},
                                }
                            } else if *cbyte == OP_0 && j + 1 < n {
                                match &then_branch[j + 1] {
                                    ScriptToken::Push(b) => {
                                        data = Some(b.clone());
                                    },
                                    _ => {},
                                }
                            }
                        },
                        _ => {},
                    }
                    j += 1;
                }
                let ghost dv: Option<Seq<u8>> = match &data {
                    Some(d) => Some(d@),
                    None => None,
                };
                let ghost ctv = crate::components::opt_str_v(content_type);
                proof {
                    assert(spec_scan_envelope(tb, j as int, ctv, dv) == (ctv, dv));
                    assert(spec_scan_envelope(tb, 0, None, None) == (ctv, dv));
                }
                match (data, content_type) {
                    (Some(d), Some(ct)) => {
                        let record = OrdData { data: d, content_type: ct };
                        proof {
                            assert(eff == Some(record@));
                            lemma_ords_v_push(bmap.ord@, record);
                            assert(ords_v(bmap.ord@).push(record@) =~= ords_v(bmap.ord@)
                                + seq![record@]);
                        }
                        bmap.ord.push(record);
                    },
                    _ => {
                        proof {
                            assert(eff is None);
                            assert(ords_v(bmap.ord@) =~= ords_v(bmap.ord@)
                                + Seq::<OrdDataV>::empty());
                        }
                    },
                }
                Ok(())
            },
            _ => {
                proof {
                    assert(eff is None);
                    assert(ords_v(bmap.ord@) =~= ords_v(bmap.ord@) + Seq::<OrdDataV>::empty());
                }
                Ok(())
            },
        }
    }
}

} // verus!
