use vstd::prelude::*;

use crate::components::ScriptToken;
use crate::components::ScriptTokenV;
use crate::components::token_view;
use crate::components::tokens_v;
use crate::components::lemma_tokens_v;
use crate::components::OP_ELSE;
use crate::components::OP_ENDIF;
use crate::components::Include;
use crate::components::TokenV;
use crate::components::SplitConfig;
use crate::components::SplitConfigV;
use crate::components::rules_v;
use crate::components::lemma_rules_v;
use crate::components::Cell;
use crate::components::CellV;
use crate::components::cells_v;
use crate::components::lemma_cells_v;
use crate::components::Tape;
use crate::components::TapeV;
use crate::components::tapes_v;
use crate::components::lemma_tapes_v;
use crate::components::IO;
use crate::components::IndexCounter;
use crate::components::SendRecv;
use crate::components::SendRecvV;
use crate::components::IOV;
use crate::components::ios_v;
use crate::components::lemma_ios_v;
use crate::components::Tx;
use crate::components::TxV;
use crate::components::BPUV;
use crate::components::ParseConfig;
use crate::components::TxData;
use crate::components::TxDataV;
use crate::components::TxInputDataV;
use crate::components::TxOutputDataV;
use crate::components::lemma_tx_inputs_v;
use crate::components::lemma_tx_outputs_v;
use crate::components::BpuError;
use crate::bsv_api::address_of_pubkey;
use crate::bsv_api::address_of_pubkey_hash;
use crate::bsv_api::derive_address_from_pubkey;
use crate::bsv_api::derive_address_from_hash;
use crate::bsv_api::decode_hex;
use crate::bsv_api::decode_of;
use crate::bsv_api::opcode_name_of;
use crate::bsv_api::utf8_lossy_of;
use crate::bsv_api::opcode_name;
use crate::bsv_api::lossy_string;

verus! {

/// The canonical linearization of one token: non-conditional tokens pass
/// through; a conditional becomes its condition opcode, the flattened
/// then-branch, the `OP_ELSE` marker and flattened else-branch when
/// present, and the closing `OP_ENDIF` marker.
pub open spec fn spec_flatten_one(t: ScriptTokenV) -> Seq<ScriptTokenV>
    decreases t,
{
    match t {
        ScriptTokenV::OpCode(_) => seq![t],
        ScriptTokenV::Push(_) => seq![t],
        ScriptTokenV::Conditional { condition, then_branch, else_branch } => {
            let head = seq![ScriptTokenV::OpCode(condition)] + spec_flatten(then_branch);
            let body = match else_branch {
                Some(eb) => head + seq![ScriptTokenV::OpCode(OP_ELSE)] + spec_flatten(eb),
                None => head,
            };
            body + seq![ScriptTokenV::OpCode(OP_ENDIF)]
        },
    }
}

/// The canonical linearization of a token sequence.
pub open spec fn spec_flatten(ts: Seq<ScriptTokenV>) -> Seq<ScriptTokenV>
    decreases ts,
{
    if ts.len() == 0 {
        Seq::empty()
    } else {
        spec_flatten_one(ts[0]) + spec_flatten(ts.drop_first())
    }
}

/// A token that carries no conditional structure.
pub open spec fn is_flat_token(t: ScriptTokenV) -> bool {
    !(t is Conditional)
}

/// A sequence of tokens with no conditional anywhere at top level.
pub open spec fn all_flat(ts: Seq<ScriptTokenV>) -> bool {
    forall|i: int| 0 <= i < ts.len() ==> is_flat_token(ts[i])
}

/// Flattening distributes over concatenation.
pub proof fn lemma_spec_flatten_concat(a: Seq<ScriptTokenV>, b: Seq<ScriptTokenV>)
    ensures
        spec_flatten(a + b) == spec_flatten(a) + spec_flatten(b),
    decreases a.len(),
{
    if a.len() == 0 {
        assert(a + b =~= b);
        assert(spec_flatten(a) + spec_flatten(b) =~= spec_flatten(b));
    } else {
        assert((a + b).drop_first() =~= a.drop_first() + b);
        lemma_spec_flatten_concat(a.drop_first(), b);
        assert(spec_flatten_one((a + b)[0]) + (spec_flatten(a.drop_first()) + spec_flatten(b))
            =~= (spec_flatten_one(a[0]) + spec_flatten(a.drop_first())) + spec_flatten(b));
    }
}

/// The linearization of one token holds no conditional.
pub proof fn lemma_spec_flatten_one_flat(t: ScriptTokenV)
    ensures
        all_flat(spec_flatten_one(t)),
    decreases t,
{
    match t {
        ScriptTokenV::OpCode(_) => {},
        ScriptTokenV::Push(_) => {},
        ScriptTokenV::Conditional { condition, then_branch, else_branch } => {
            lemma_spec_flatten_flat(then_branch);
            match else_branch {
                Some(eb) => {
                    lemma_spec_flatten_flat(eb);
                },
                None => {},
            }
        },
    }
}

/// The linearization of a sequence holds no conditional.
pub proof fn lemma_spec_flatten_flat(ts: Seq<ScriptTokenV>)
    ensures
        all_flat(spec_flatten(ts)),
    decreases ts,
{
    if ts.len() > 0 {
        lemma_spec_flatten_one_flat(ts[0]);
        lemma_spec_flatten_flat(ts.drop_first());
    }
}

/// On a token sequence without conditionals, flattening is the identity.
pub proof fn lemma_flatten_identity(ts: Seq<ScriptTokenV>)
    requires
        all_flat(ts),
    ensures
        spec_flatten(ts) == ts,
    decreases ts.len(),
{
    if ts.len() == 0 {
        assert(spec_flatten(ts) =~= ts);
    } else {
        assert(is_flat_token(ts[0]));
        lemma_flatten_identity(ts.drop_first());
        assert(spec_flatten_one(ts[0]) + ts.drop_first() =~= ts);
    }
}

/// `tokens_v` of a pushed element.
pub proof fn lemma_tokens_v_push(a: Seq<ScriptToken>, x: ScriptToken)
    ensures
        tokens_v(a.push(x)) == tokens_v(a).push(token_view(x)),
{
    lemma_tokens_v(a.push(x));
    lemma_tokens_v(a);
    assert(tokens_v(a.push(x)) =~= tokens_v(a).push(token_view(x)));
}

/// `tokens_v` distributes over concatenation.
pub proof fn lemma_tokens_v_concat(a: Seq<ScriptToken>, b: Seq<ScriptToken>)
    ensures
        tokens_v(a + b) == tokens_v(a) + tokens_v(b),
{
    lemma_tokens_v(a + b);
    lemma_tokens_v(a);
    lemma_tokens_v(b);
    assert(tokens_v(a + b) =~= tokens_v(a) + tokens_v(b));
}


/// Flattening a singleton sequence linearizes its one token.
pub proof fn lemma_spec_flatten_singleton(t: ScriptTokenV)
    ensures
        spec_flatten(seq![t]) == spec_flatten_one(t),
{
    reveal_with_fuel(spec_flatten, 2);
    assert(seq![t].drop_first() =~= Seq::<ScriptTokenV>::empty());
    assert(spec_flatten(seq![t]) =~= spec_flatten_one(t));
}

/// Rewrites a token tree into one linear sequence containing only opcode
/// and push tokens, making all conditional structure explicit through
/// synthetic marker opcodes.
pub fn flatten_script_bits(script_bits: &Vec<ScriptToken>) -> (r: Vec<ScriptToken>)
    ensures
        tokens_v(r@) == spec_flatten(tokens_v(script_bits@)),
    decreases *script_bits,
{
    let mut flat_map: Vec<ScriptToken> = Vec::new();
    let n = script_bits.len();
    let mut idx: usize = 0;
    proof {
        assert(script_bits@.take(0) =~= Seq::<ScriptToken>::empty());
        assert(tokens_v(flat_map@) =~= spec_flatten(tokens_v(script_bits@.take(0))));
    }
    while idx < n
        invariant
            n == script_bits@.len(),
            idx <= n,
            tokens_v(flat_map@) == spec_flatten(tokens_v(script_bits@.take(idx as int))),
        decreases n - idx,
    {
        proof {
            assert(script_bits@.take(idx as int).push(script_bits@[idx as int])
                =~= script_bits@.take(idx + 1));
            lemma_tokens_v_push(script_bits@.take(idx as int), script_bits@[idx as int]);
            lemma_spec_flatten_concat(
                tokens_v(script_bits@.take(idx as int)),
                seq![token_view(script_bits@[idx as int])],
            );
            assert(tokens_v(script_bits@.take(idx as int)).push(token_view(script_bits@[idx as int]))
                =~= tokens_v(script_bits@.take(idx as int)) + seq![token_view(script_bits@[idx as int])]);
            lemma_spec_flatten_singleton(token_view(script_bits@[idx as int]));
        }
        match &script_bits[idx] {
            ScriptToken::OpCode(c) => {
                let ghost pre = flat_map@;
                flat_map.push(ScriptToken::OpCode(*c));
                proof {
                    lemma_tokens_v_push(pre, ScriptToken::OpCode(*c));
                    assert(tokens_v(flat_map@) =~= spec_flatten(tokens_v(script_bits@.take(idx + 1))));
                }
            },
            ScriptToken::Push(b) => {
                let copied = b.clone();
                let ghost pre = flat_map@;
                let ghost item = ScriptToken::Push(copied);
                flat_map.push(ScriptToken::Push(copied));
                proof {
                    lemma_tokens_v_push(pre, item);
                    assert(token_view(item) == token_view(script_bits@[idx as int]));
                    assert(tokens_v(flat_map@) =~= spec_flatten(tokens_v(script_bits@.take(idx + 1))));
                }
            },
            ScriptToken::Conditional { condition, then_branch, else_branch } => {
                let ghost pre = flat_map@;
                let ghost tv = token_view(script_bits@[idx as int]);
                flat_map.push(ScriptToken::OpCode(*condition));
                proof {
                    lemma_tokens_v_push(pre, ScriptToken::OpCode(*condition));
                }
                let mut passed = flatten_script_bits(then_branch);
                proof {
                    lemma_tokens_v_concat(flat_map@, passed@);
                }
                flat_map.append(&mut passed);
                proof {
                    assert(tokens_v(flat_map@) == tokens_v(pre).push(ScriptTokenV::OpCode(*condition))
                        + spec_flatten(tokens_v(then_branch@)));
                }
                match else_branch {
                    Some(fail_bits) => {
                        let ghost mid = flat_map@;
                        flat_map.push(ScriptToken::OpCode(OP_ELSE));
                        proof {
                            lemma_tokens_v_push(mid, ScriptToken::OpCode(OP_ELSE));
                        }
                        let mut failed = flatten_script_bits(fail_bits);
                        proof {
                            lemma_tokens_v_concat(flat_map@, failed@);
                        }
                        flat_map.append(&mut failed);
                    },
                    None => {},
                }
                let ghost before_end = flat_map@;
                flat_map.push(ScriptToken::OpCode(OP_ENDIF));
                proof {
                    lemma_tokens_v_push(before_end, ScriptToken::OpCode(OP_ENDIF));
                    assert(tv is Conditional);
                    assert(tokens_v(flat_map@) =~= spec_flatten(tokens_v(script_bits@.take(idx + 1))));
                }
            },
        }
        idx += 1;
    }
    proof {
        assert(script_bits@.take(n as int) =~= script_bits@);
    }
    flat_map
}


/// The cell built from one flat token at the given stream and group
/// positions.  An opcode token carries its byte and name; a push token
/// carries its bytes and their lossy text.
pub open spec fn cell_of_token(t: ScriptTokenV, chunk: int, idx: int) -> CellV {
    match t {
        ScriptTokenV::OpCode(c) => CellV {
            op: Some(c),
            ops: opcode_name_of(c),
            b: None,
            s: None,
            ii: chunk,
            i: idx,
            h: None,
            f: None,
            ls: None,
            lh: None,
            lf: None,
            lb: None,
        },
        ScriptTokenV::Push(bytes) => CellV {
            op: None,
            ops: None,
            b: Some(bytes),
            s: Some(utf8_lossy_of(bytes)),
            ii: chunk,
            i: idx,
            h: None,
            f: None,
            ls: None,
            lh: None,
            lf: None,
            lb: None,
        },
        ScriptTokenV::Conditional { .. } => CellV {
            op: None,
            ops: None,
            b: None,
            s: None,
            ii: chunk,
            i: idx,
            h: None,
            f: None,
            ls: None,
            lh: None,
            lf: None,
            lb: None,
        },
    }
}

/// A rule matches a token if the token equals the rule on any set field:
/// the opcode byte or name for an opcode token, the literal bytes or
/// text for a push token.
pub open spec fn rule_matches(m: TokenV, t: ScriptTokenV) -> bool {
    match t {
        ScriptTokenV::OpCode(c) => m.op == Some(c) || (m.ops is Some && m.ops == opcode_name_of(c)),
        ScriptTokenV::Push(bytes) => m.b == Some(bytes) || m.s == Some(utf8_lossy_of(bytes)),
        ScriptTokenV::Conditional { .. } => false,
    }
}

/// The policy of the last rule in the list that matches the token, if
/// any rule does.
pub open spec fn splitter_of(rules: Seq<SplitConfigV>, t: ScriptTokenV) -> Option<Include>
    decreases rules,
{
    if rules.len() == 0 {
        None
    } else if rule_matches(rules.last().token, t) {
        Some(rules.last().policy)
    } else {
        splitter_of(rules.drop_last(), t)
    }
}

/// The engine state carried across one split pass: the tapes flushed so
/// far, the accumulating cell group, and the two running counters.
#[verifier::ext_equal]
pub struct SplitStateV {
    pub tapes: Seq<TapeV>,
    pub group: Seq<CellV>,
    pub cell_index: int,
    pub tape_index: int,
}

/// The state before any token was consumed.
pub open spec fn init_split_state() -> SplitStateV {
    SplitStateV { tapes: Seq::empty(), group: Seq::empty(), cell_index: 0, tape_index: 0 }
}

/// One engine step: a non-splitter extends the group; a splitter flushes
/// according to its policy.  Under `Center` the running tape index
/// advances only once although two tapes are emitted, and under `Right`
/// the delimiter cell keeps the stale pre-flush group index.
pub open spec fn split_step(st: SplitStateV, t: ScriptTokenV, chunk: int, rules: Seq<SplitConfigV>) -> SplitStateV {
    match splitter_of(rules, t) {
        None => SplitStateV {
            tapes: st.tapes,
            group: st.group.push(cell_of_token(t, chunk, st.cell_index)),
            cell_index: st.cell_index + 1,
            tape_index: st.tape_index,
        },
        Some(Include::Left) => SplitStateV {
            tapes: st.tapes.push(
                TapeV { cell: st.group.push(cell_of_token(t, chunk, st.cell_index)), i: st.tape_index },
            ),
            group: Seq::empty(),
            cell_index: 0,
            tape_index: st.tape_index + 1,
        },
        Some(Include::Right) => SplitStateV {
            tapes: st.tapes.push(TapeV { cell: st.group, i: st.tape_index }),
            group: seq![cell_of_token(t, chunk, st.cell_index)],
            cell_index: 1,
            tape_index: st.tape_index + 1,
        },
        Some(Include::Center) => SplitStateV {
            tapes: st.tapes.push(TapeV { cell: st.group, i: st.tape_index }).push(
                TapeV { cell: seq![cell_of_token(t, chunk, 0)], i: st.tape_index + 1 },
            ),
            group: Seq::empty(),
            cell_index: 0,
            tape_index: st.tape_index + 1,
        },
    }
}

/// The engine run over a token sequence, starting at the given state and
/// stream position.
pub open spec fn split_run(ts: Seq<ScriptTokenV>, rules: Seq<SplitConfigV>, st: SplitStateV, chunk0: int) -> SplitStateV
    decreases ts,
{
    if ts.len() == 0 {
        st
    } else {
        split_run(ts.drop_first(), rules, split_step(st, ts[0], chunk0, rules), chunk0 + 1)
    }
}

/// After all tokens: a non-empty trailing group is flushed as one final
/// tape.
pub open spec fn split_finish(st: SplitStateV) -> Seq<TapeV> {
    if st.group.len() > 0 {
        st.tapes.push(TapeV { cell: st.group, i: st.tape_index })
    } else {
        st.tapes
    }
}

/// The tapes of one flattened script under the given rules.
pub open spec fn split_tapes(ts: Seq<ScriptTokenV>, rules: Seq<SplitConfigV>) -> Seq<TapeV> {
    split_finish(split_run(ts, rules, init_split_state(), 0))
}

/// `cells_v` of a pushed element.
pub proof fn lemma_cells_v_push(a: Seq<Cell>, x: Cell)
    ensures
        cells_v(a.push(x)) == cells_v(a).push(x@),
{
    lemma_cells_v(a.push(x));
    lemma_cells_v(a);
    assert(cells_v(a.push(x)) =~= cells_v(a).push(x@));
}

/// `tapes_v` of a pushed element.
pub proof fn lemma_tapes_v_push(a: Seq<Tape>, x: Tape)
    ensures
        tapes_v(a.push(x)) == tapes_v(a).push(x@),
{
    lemma_tapes_v(a.push(x));
    lemma_tapes_v(a);
    assert(tapes_v(a.push(x)) =~= tapes_v(a).push(x@));
}

/// Peeling the last rule off the matching walk.
pub proof fn lemma_splitter_unfold(rs: Seq<SplitConfig>, j: int, t: ScriptTokenV)
    requires
        0 <= j < rs.len(),
    ensures
        splitter_of(rules_v(rs.take(j + 1)), t) == if rule_matches(rs[j]@.token, t) {
            Some(rs[j]@.policy)
        } else {
            splitter_of(rules_v(rs.take(j)), t)
        },
{
    lemma_rules_v(rs.take(j + 1));
    lemma_rules_v(rs.take(j));
    assert(rules_v(rs.take(j + 1)).len() == j + 1);
    assert(rules_v(rs.take(j + 1)).drop_last() =~= rules_v(rs.take(j)));
    assert(rules_v(rs.take(j + 1)).last() == rs[j]@);
}

/// Byte-sequence equality, decided element by element.
fn bytes_eq(a: &Vec<u8>, b: &Vec<u8>) -> (r: bool)
    ensures
        r == (a@ == b@),
{
    if a.len() != b.len() {
        proof {
            assert(a@ != b@);
        }
        return false;
    }
    let n = a.len();
    let mut k: usize = 0;
    while k < n
        invariant
            n == a.len() == b.len(),
            k <= n,
            forall|m: int| 0 <= m < k ==> a@[m] == b@[m],
        decreases n - k,
    {
        if a[k] != b[k] {
            return false;
        }
        k += 1;
    }
    proof {
        assert(a@ =~= b@);
    }
    true
}

/// The policy of the last matching rule, as the engine decides it.
fn find_splitter(settings: &Vec<SplitConfig>, chunk: &ScriptToken) -> (r: Option<Include>)
    ensures
        r == splitter_of(rules_v(settings@), chunk@),
{
    let mut splitter: Option<Include> = None;
    let n = settings.len();
    let mut j: usize = 0;
    proof {
        assert(settings@.take(0) =~= Seq::<SplitConfig>::empty());
        assert(rules_v(settings@.take(0)) =~= Seq::<SplitConfigV>::empty());
    }
    while j < n
        invariant
            n == settings@.len(),
            j <= n,
            splitter == splitter_of(rules_v(settings@.take(j as int)), chunk@),
        decreases n - j,
    {
        let setting = &settings[j];
        let matched: bool;
        match chunk {
            ScriptToken::OpCode(code) => {
                let by_op = match setting.token.op {
                    Some(v) => v == *code,
                    None => false,
                };
                let name = opcode_name(*code);
                let by_name = match (&setting.token.ops, &name) {
                    (Some(a), Some(bn)) => *a == *bn,
                    _ => false,
                };
                matched = by_op || by_name;
            },
            ScriptToken::Push(bytes) => {
                let by_bytes = match &setting.token.b {
                    Some(v) => bytes_eq(v, bytes),
                    None => false,
                };
                let text = lossy_string(bytes);
                let by_text = match &setting.token.s {
                    Some(v) => *v == text,
                    None => false,
                };
                matched = by_bytes || by_text;
            },
            ScriptToken::Conditional { .. } => {
                matched = false;
            },
        }
        proof {
            assert(matched == rule_matches(settings@[j as int]@.token, chunk@));
            lemma_splitter_unfold(settings@, j as int, chunk@);
        }
        if matched {
            splitter = Some(setting.policy);
        }
        j += 1;
    }
    proof {
        assert(settings@.take(n as int) =~= settings@);
    }
    splitter
}


/// The split state modelled by the live engine values.
pub open spec fn state_of(xput: IO, cell: Seq<Cell>, counter: IndexCounter) -> SplitStateV {
    SplitStateV {
        tapes: tapes_v(xput.tape@),
        group: cells_v(cell),
        cell_index: counter.cell_index as int,
        tape_index: counter.tape_index as int,
    }
}

impl crate::components::BPU {
    /// Consumes one token of the flattened stream: a non-splitter cell
    /// joins the accumulating group; a splitter flushes according to its
    /// matched policy.
    pub fn extract_cells(
        xput: &mut IO,
        cell: &mut Vec<Cell>,
        counter: &mut IndexCounter,
        chunk: &ScriptToken,
        settings: &Vec<SplitConfig>,
    )
        requires
            is_flat_token(chunk@),
            old(counter).cell_index < usize::MAX,
            old(counter).tape_index < usize::MAX,
        ensures
            state_of(*final(xput), final(cell)@, *final(counter)) == split_step(
                state_of(*old(xput), old(cell)@, *old(counter)),
                chunk@,
                old(counter).chunk_index as int,
                rules_v(settings@),
            ),
            final(counter).chunk_index == old(counter).chunk_index,
            final(counter).outer_index == old(counter).outer_index,
            final(xput).i == old(xput).i,
            final(xput).e == old(xput).e,
            final(xput).seq == old(xput).seq,
    {
        let ghost st0 = state_of(*xput, cell@, *counter);
        let ghost chunk_pos = counter.chunk_index as int;
        let splitter = find_splitter(settings, chunk);

        let op_field: Option<u8>;
        let ops_field: Option<String>;
        let b_field: Option<Vec<u8>>;
        let s_field: Option<String>;
        match chunk {
            ScriptToken::OpCode(code) => {
                op_field = Some(*code);
                ops_field = opcode_name(*code);
                b_field = None;
                s_field = None;
            },
            ScriptToken::Push(bytes) => {
                op_field = None;
                ops_field = None;
                s_field = Some(lossy_string(bytes));
                b_field = Some(bytes.clone());
            },
            ScriptToken::Conditional { .. } => {
                proof {
                    assert(false);
                }
                op_field = None;
                ops_field = None;
                b_field = None;
                s_field = None;
            },
        }

        match splitter {
            None => {
                let item = Cell {
                    op: op_field,
                    ops: ops_field,
                    b: b_field,
                    s: s_field,
                    ii: counter.chunk_index,
                    i: counter.cell_index,
                    h: None,
                    f: None,
                    ls: None,
                    lh: None,
                    lf: None,
                    lb: None,
                };
                proof {
                    assert(item@ =~= cell_of_token(chunk@, chunk_pos, st0.cell_index));
                    lemma_cells_v_push(cell@, item);
                }
                cell.push(item);
                counter.cell_index = counter.cell_index + 1;
                proof {
                    assert(state_of(*xput, cell@, *counter) =~= split_step(st0, chunk@, chunk_pos, rules_v(settings@)));
                }
            },
            Some(Include::Left) => {
                let item = Cell {
                    op: op_field,
                    ops: ops_field,
                    b: b_field,
                    s: s_field,
                    ii: counter.chunk_index,
                    i: counter.cell_index,
                    h: None,
                    f: None,
                    ls: None,
                    lh: None,
                    lf: None,
                    lb: None,
                };
                proof {
                    assert(item@ =~= cell_of_token(chunk@, chunk_pos, st0.cell_index));
                    lemma_cells_v_push(cell@, item);
                }
                cell.push(item);
                let mut flushed: Vec<Cell> = Vec::new();
                core::mem::swap(cell, &mut flushed);
                let tape = Tape { cell: flushed, i: counter.tape_index };
                proof {
                    lemma_tapes_v_push(xput.tape@, tape);
                }
                xput.tape.push(tape);
                counter.tape_index = counter.tape_index + 1;
                counter.cell_index = 0;
                proof {
                    assert(cells_v(cell@) =~= Seq::<CellV>::empty());
                    assert(state_of(*xput, cell@, *counter) =~= split_step(st0, chunk@, chunk_pos, rules_v(settings@)));
                }
            },
            Some(Include::Right) => {
                let item = Cell {
                    op: op_field,
                    ops: ops_field,
                    b: b_field,
                    s: s_field,
                    ii: counter.chunk_index,
                    i: counter.cell_index,
                    h: None,
                    f: None,
                    ls: None,
                    lh: None,
                    lf: None,
                    lb: None,
                };
                proof {
                    assert(item@ =~= cell_of_token(chunk@, chunk_pos, st0.cell_index));
                }
                let mut flushed: Vec<Cell> = Vec::new();
                core::mem::swap(cell, &mut flushed);
                let tape = Tape { cell: flushed, i: counter.tape_index };
                proof {
                    lemma_tapes_v_push(xput.tape@, tape);
                }
                xput.tape.push(tape);
                counter.tape_index = counter.tape_index + 1;
                proof {
                    lemma_cells_v_push(cell@, item);
                }
                cell.push(item);
                counter.cell_index = 1;
                proof {
                    assert(cells_v(cell@) =~= seq![cell_of_token(chunk@, chunk_pos, st0.cell_index)]);
                    assert(state_of(*xput, cell@, *counter) =~= split_step(st0, chunk@, chunk_pos, rules_v(settings@)));
                }
            },
            Some(Include::Center) => {
                let item = Cell {
                    op: op_field,
                    ops: ops_field,
                    b: b_field,
                    s: s_field,
                    ii: counter.chunk_index,
                    i: 0,
                    h: None,
                    f: None,
                    ls: None,
                    lh: None,
                    lf: None,
                    lb: None,
                };
                proof {
                    assert(item@ =~= cell_of_token(chunk@, chunk_pos, 0));
                }
                let mut flushed: Vec<Cell> = Vec::new();
                core::mem::swap(cell, &mut flushed);
                let tape = Tape { cell: flushed, i: counter.tape_index };
                proof {
                    lemma_tapes_v_push(xput.tape@, tape);
                }
                xput.tape.push(tape);
                counter.tape_index = counter.tape_index + 1;
                let mut single: Vec<Cell> = Vec::new();
                single.push(item);
                let tape2 = Tape { cell: single, i: counter.tape_index };
                proof {
                    lemma_tapes_v_push(xput.tape@, tape2);
                    lemma_cells_v(tape2.cell@);
                    assert(cells_v(tape2.cell@) =~= seq![cell_of_token(chunk@, chunk_pos, 0)]);
                }
                xput.tape.push(tape2);
                counter.cell_index = 0;
                proof {
                    assert(cells_v(cell@) =~= Seq::<CellV>::empty());
                    assert(state_of(*xput, cell@, *counter) =~= split_step(st0, chunk@, chunk_pos, rules_v(settings@)));
                }
            },
        }
    }
}


/// The sentinel meaning "no address resolved".
pub open spec fn no_address() -> Seq<char> {
    "false"@
}

/// The address recovered from an unlocking script: its second element,
/// when it is a push of a 33-byte compressed public key or of a 20-byte
/// public key hash, derives an address; anything else, or any derivation
/// failure, yields the sentinel.
pub open spec fn spec_input_address(script: Seq<ScriptTokenV>) -> Seq<char> {
    if script.len() > 1 {
        match script[1] {
            ScriptTokenV::Push(bytes) => if bytes.len() == 33 && (bytes[0] == 2 || bytes[0] == 3) {
                match address_of_pubkey(bytes) {
                    Some(a) => a,
                    None => no_address(),
                }
            } else if bytes.len() == 20 {
                match address_of_pubkey_hash(bytes) {
                    Some(a) => a,
                    None => no_address(),
                }
            } else {
                no_address()
            },
            _ => no_address(),
        }
    } else {
        no_address()
    }
}

/// The address recovered from a locking script: its third element, when
/// it is a push, is taken as a public key hash; a failed derivation or
/// any other shape yields the sentinel.
pub open spec fn spec_output_address(script: Seq<ScriptTokenV>) -> Seq<char> {
    if script.len() > 2 {
        match script[2] {
            ScriptTokenV::Push(bytes) => match address_of_pubkey_hash(bytes) {
                Some(a) => a,
                None => no_address(),
            },
            _ => no_address(),
        }
    } else {
        no_address()
    }
}

/// The projection of one input: its position, the tapes of its flattened
/// script, and the sender record.
pub open spec fn spec_input_io(inp: TxInputDataV, k: int, rules: Seq<SplitConfigV>) -> IOV {
    IOV {
        i: k,
        tape: split_tapes(spec_flatten(inp.script), rules),
        e: Some(
            SendRecvV {
                h: Some(inp.prev_tx_id),
                i: inp.prev_vout,
                v: None,
                a: Some(spec_input_address(inp.script)),
            },
        ),
        seq: Some(inp.sequence),
    }
}

/// The projection of one output: its position, the tapes of its
/// flattened script, and the receiver record.
pub open spec fn spec_output_io(out: TxOutputDataV, k: int, rules: Seq<SplitConfigV>) -> IOV {
    IOV {
        i: k,
        tape: split_tapes(spec_flatten(out.script), rules),
        e: Some(
            SendRecvV {
                h: None,
                i: k as u32,
                v: Some(out.satoshis),
                a: Some(spec_output_address(out.script)),
            },
        ),
        seq: None,
    }
}

/// The full projection of a decoded transaction under the given rules.
pub open spec fn spec_collect(tx: TxDataV, rules: Seq<SplitConfigV>) -> BPUV {
    BPUV {
        outputs: Seq::new(tx.outputs.len(), |k: int| spec_output_io(tx.outputs[k], k, rules)),
        inputs: Seq::new(tx.inputs.len(), |k: int| spec_input_io(tx.inputs[k], k, rules)),
        tx: TxV { h: tx.txid, r: None },
        lock: Some(tx.locktime),
    }
}

/// Unfolding the engine run at its last token.
pub proof fn lemma_split_run_snoc(ts: Seq<ScriptTokenV>, rules: Seq<SplitConfigV>, st: SplitStateV, c0: int, t: ScriptTokenV)
    ensures
        split_run(ts.push(t), rules, st, c0) == split_step(split_run(ts, rules, st, c0), t, c0 + ts.len(), rules),
    decreases ts.len(),
{
    if ts.len() == 0 {
        reveal_with_fuel(split_run, 2);
        assert(ts.push(t)[0] == t);
        assert(ts.push(t).drop_first() =~= Seq::<ScriptTokenV>::empty());
    } else {
        assert(ts.push(t)[0] == ts[0]);
        assert(ts.push(t).drop_first() =~= ts.drop_first().push(t));
        lemma_split_run_snoc(ts.drop_first(), rules, split_step(st, ts[0], c0, rules), c0 + 1, t);
    }
}



/// `ios_v` of a pushed element.
pub proof fn lemma_ios_v_push(a: Seq<IO>, x: IO)
    ensures
        ios_v(a.push(x)) == ios_v(a).push(x@),
{
    lemma_ios_v(a.push(x));
    lemma_ios_v(a);
    assert(ios_v(a.push(x)) =~= ios_v(a).push(x@));
}

/// Flattens one script and groups the resulting stream into tapes under
/// the given rules: the whole split/tape engine for one input or output.
pub fn split_script_tapes(script: &Vec<ScriptToken>, settings: &Vec<SplitConfig>) -> (r: Vec<Tape>)
    ensures
        tapes_v(r@) == split_tapes(spec_flatten(tokens_v(script@)), rules_v(settings@)),
{
    let bits = flatten_script_bits(script);
    let mut limb = IO::new(0);
    let mut counter = IndexCounter::new(0);
    let mut group: Vec<Cell> = Vec::new();
    let n = bits.len();
    let mut k: usize = 0;
    proof {
        lemma_spec_flatten_flat(tokens_v(script@));
        lemma_tokens_v(bits@);
        assert(tokens_v(bits@).take(0) =~= Seq::<ScriptTokenV>::empty());
        assert(cells_v(group@) =~= Seq::<CellV>::empty());
        assert(tapes_v(limb.tape@) =~= Seq::<TapeV>::empty());
        assert(state_of(limb, group@, counter)
            =~= split_run(tokens_v(bits@).take(0), rules_v(settings@), init_split_state(), 0));
    }
    while k < n
        invariant
            n == bits@.len(),
            k <= n,
            tokens_v(bits@) == spec_flatten(tokens_v(script@)),
            all_flat(tokens_v(bits@)),
            state_of(limb, group@, counter) == split_run(
                tokens_v(bits@).take(k as int),
                rules_v(settings@),
                init_split_state(),
                0,
            ),
            counter.cell_index <= k,
            counter.tape_index <= k,
        decreases n - k,
    {
        counter.chunk_index = k;
        proof {
            lemma_tokens_v(bits@);
            assert(tokens_v(bits@)[k as int] == token_view(bits@[k as int]));
            assert(is_flat_token(bits@[k as int]@));
            assert(tokens_v(bits@).take(k as int).push(tokens_v(bits@)[k as int])
                =~= tokens_v(bits@).take(k + 1));
            lemma_split_run_snoc(
                tokens_v(bits@).take(k as int),
                rules_v(settings@),
                init_split_state(),
                0,
                tokens_v(bits@)[k as int],
            );
        }
        crate::components::BPU::extract_cells(&mut limb, &mut group, &mut counter, &bits[k], settings);
        proof {
            assert(state_of(limb, group@, counter)
                == split_run(tokens_v(bits@).take(k + 1), rules_v(settings@), init_split_state(), 0));
        }
        k += 1;
    }
    proof {
        assert(tokens_v(bits@).take(n as int) =~= tokens_v(bits@));
        lemma_cells_v(group@);
    }
    if group.len() > 0 {
        let tape = Tape { cell: group, i: counter.tape_index };
        proof {
            lemma_tapes_v_push(limb.tape@, tape);
        }
        limb.tape.push(tape);
    }
    let result = limb.tape;
    proof {
        assert(tapes_v(result@) =~= split_tapes(spec_flatten(tokens_v(script@)), rules_v(settings@)));
    }
    result
}


/// The tapes of one script with the hook applied to every cell, each
/// cell handed the originating token of its stream position.
pub open spec fn transform_tapes_v<T: CellTransform>(tr: T, tapes: Seq<TapeV>, ts: Seq<ScriptTokenV>) -> Seq<TapeV> {
    Seq::new(
        tapes.len(),
        |j: int|
            TapeV {
                cell: Seq::new(tapes[j].cell.len(), |m: int| transformed_cell(tr, tapes[j].cell[m], ts)),
                i: tapes[j].i,
            },
    )
}

/// The projection of one input under the hook.
pub open spec fn spec_input_io_with<T: CellTransform>(tr: T, inp: TxInputDataV, k: int, rules: Seq<SplitConfigV>) -> IOV {
    let plain = spec_input_io(inp, k, rules);
    IOV {
        i: plain.i,
        tape: transform_tapes_v(tr, plain.tape, spec_flatten(inp.script)),
        e: plain.e,
        seq: plain.seq,
    }
}

/// The projection of one output under the hook.
pub open spec fn spec_output_io_with<T: CellTransform>(tr: T, out: TxOutputDataV, k: int, rules: Seq<SplitConfigV>) -> IOV {
    let plain = spec_output_io(out, k, rules);
    IOV {
        i: plain.i,
        tape: transform_tapes_v(tr, plain.tape, spec_flatten(out.script)),
        e: plain.e,
        seq: plain.seq,
    }
}

/// The full projection of a decoded transaction under the hook.
pub open spec fn spec_collect_with<T: CellTransform>(tr: T, tx: TxDataV, rules: Seq<SplitConfigV>) -> BPUV {
    BPUV {
        outputs: Seq::new(tx.outputs.len(), |k: int| spec_output_io_with(tr, tx.outputs[k], k, rules)),
        inputs: Seq::new(tx.inputs.len(), |k: int| spec_input_io_with(tr, tx.inputs[k], k, rules)),
        tx: TxV { h: tx.txid, r: None },
        lock: Some(tx.locktime),
    }
}

/// Under the absent hook the tapes pass through unchanged.
pub proof fn lemma_no_transform_tapes(tapes: Seq<TapeV>, ts: Seq<ScriptTokenV>)
    ensures
        transform_tapes_v(NoTransform, tapes, ts) == tapes,
{
    assert forall|j: int| 0 <= j < tapes.len() implies #[trigger] transform_tapes_v(
        NoTransform,
        tapes,
        ts,
    )[j] == tapes[j] by {
        assert(transform_tapes_v(NoTransform, tapes, ts)[j].cell =~= tapes[j].cell);
        assert(transform_tapes_v(NoTransform, tapes, ts)[j] =~= tapes[j]);
    }
    assert(transform_tapes_v(NoTransform, tapes, ts) =~= tapes);
}

/// Under the absent hook the projection is the plain projection.
pub proof fn lemma_no_transform_collect(tx: TxDataV, rules: Seq<SplitConfigV>)
    ensures
        spec_collect_with(NoTransform, tx, rules) == spec_collect(tx, rules),
{
    let a = spec_collect_with(NoTransform, tx, rules);
    let b = spec_collect(tx, rules);
    assert forall|k: int| 0 <= k < tx.inputs.len() implies a.inputs[k] == b.inputs[k] by {
        lemma_no_transform_tapes(
            split_tapes(spec_flatten(tx.inputs[k].script), rules),
            spec_flatten(tx.inputs[k].script),
        );
        assert(a.inputs[k] =~= b.inputs[k]);
    }
    assert forall|k: int| 0 <= k < tx.outputs.len() implies a.outputs[k] == b.outputs[k] by {
        lemma_no_transform_tapes(
            split_tapes(spec_flatten(tx.outputs[k].script), rules),
            spec_flatten(tx.outputs[k].script),
        );
        assert(a.outputs[k] =~= b.outputs[k]);
    }
    assert(a.inputs =~= b.inputs);
    assert(a.outputs =~= b.outputs);
    assert(a =~= b);
}

impl crate::components::BPU {
    /// Projects a decoded transaction: every input and output is
    /// flattened and split into tapes in original order, with sender and
    /// receiver metadata attached.
    pub fn collect(tx: &TxData, parse_config: ParseConfig) -> (r: Result<crate::components::BPU, BpuError>)
        requires
            tx.outputs@.len() <= 0xFFFF_FFFFu32,
        ensures
            r matches Ok(b) && b@ == spec_collect(tx@, rules_v(parse_config.split@)),
    {
        let ghost rules = rules_v(parse_config.split@);
        let r = Self::collect_with(tx, parse_config, &NoTransform);
        proof {
            lemma_no_transform_collect(tx@, rules);
        }
        r
    }

    /// Projects a decoded transaction with the per-cell transform hook
    /// applied to every constructed cell before it is stored; grouping,
    /// counters and indices are those of the plain projection.
    pub fn collect_with<T: CellTransform>(tx: &TxData, parse_config: ParseConfig, tr: &T) -> (r: Result<crate::components::BPU, BpuError>)
        requires
            tx.outputs@.len() <= 0xFFFF_FFFFu32,
        ensures
            r matches Ok(b) && b@ == spec_collect_with(*tr, tx@, rules_v(parse_config.split@)),
    {
        let settings = &parse_config.split;
        let ghost rules = rules_v(parse_config.split@);

        let mut inputs_acc: Vec<IO> = Vec::new();
        let n_in = tx.inputs.len();
        let mut i: usize = 0;
        proof {
            lemma_tx_inputs_v(tx.inputs@);
            lemma_ios_v(inputs_acc@);
            assert(ios_v(inputs_acc@) =~= Seq::<IOV>::empty());
        }
        while i < n_in
            invariant
                n_in == tx.inputs@.len(),
                i <= n_in,
                rules == rules_v(parse_config.split@),
                settings == &parse_config.split,
                tx.outputs@.len() <= 0xFFFF_FFFFu32,
                ios_v(inputs_acc@).len() == i as int,
                forall|k: int| 0 <= k < i ==> ios_v(inputs_acc@)[k] == spec_input_io_with(*tr, tx@.inputs[k], k, rules),
            decreases n_in - i,
        {
            let input = &tx.inputs[i];
            let mut address: Option<String> = None;
            if input.script.len() > 1 {
                match &input.script[1] {
                    ScriptToken::Push(buf) => {
                        if buf.len() == 33 && (buf[0] == 2 || buf[0] == 3) {
                            address = derive_address_from_pubkey(buf);
                        } else if buf.len() == 20 {
                            address = derive_address_from_hash(buf);
                        }
                    },
                    _ => {},
                }
            }
            let addr = match address {
                Some(a) => a,
                None => String::from_str("false"),
            };
            proof {
                lemma_tokens_v(input.script@);
                assert(addr@ == spec_input_address(tokens_v(input.script@)));
            }
            let tapes = split_script_tapes_with(&input.script, settings, tr);
            proof {
                let flat = spec_flatten(tokens_v(input.script@));
                let plain_tapes = split_tapes(flat, rules);
                let target = transform_tapes_v(*tr, plain_tapes, flat);
                assert forall|jj: int| 0 <= jj < plain_tapes.len() implies tapes_v(tapes@)[jj]
                    == target[jj] by {
                    assert((tapes_v(tapes@)[jj]).i == plain_tapes[jj].i);
                    assert(tapes_v(tapes@)[jj].cell =~= target[jj].cell);
                    assert(tapes_v(tapes@)[jj] =~= target[jj]);
                }
                assert(tapes_v(tapes@) =~= target);
            }
            let mut limb = IO::new(i);
            limb.tape = tapes;
            limb.e = Some(
                SendRecv { h: Some(input.prev_tx_id.clone()), i: input.prev_vout, v: None, a: Some(addr) },
            );
            limb.seq = Some(input.sequence);
            proof {
                lemma_tx_inputs_v(tx.inputs@);
                assert(tx@.inputs[i as int] == input@);
                assert(limb@ =~= spec_input_io_with(*tr, tx@.inputs[i as int], i as int, rules));
                lemma_ios_v_push(inputs_acc@, limb);
            }
            inputs_acc.push(limb);
            i += 1;
        }

        let mut outputs_acc: Vec<IO> = Vec::new();
        let n_out = tx.outputs.len();
        let mut j: usize = 0;
        proof {
            lemma_tx_outputs_v(tx.outputs@);
            lemma_ios_v(outputs_acc@);
            assert(ios_v(outputs_acc@) =~= Seq::<IOV>::empty());
        }
        while j < n_out
            invariant
                n_out == tx.outputs@.len(),
                j <= n_out,
                rules == rules_v(parse_config.split@),
                settings == &parse_config.split,
                n_out <= 0xFFFF_FFFFu32,
                ios_v(outputs_acc@).len() == j as int,
                forall|k: int| 0 <= k < j ==> ios_v(outputs_acc@)[k] == spec_output_io_with(*tr, tx@.outputs[k], k, rules),
            decreases n_out - j,
        {
            let output = &tx.outputs[j];
            let mut address: Option<String> = None;
            if output.script.len() > 2 {
                match &output.script[2] {
                    ScriptToken::Push(buf) => {
                        address = derive_address_from_hash(buf);
                    },
                    _ => {},
                }
            }
            let addr = match address {
                Some(a) => a,
                None => String::from_str("false"),
            };
            proof {
                lemma_tokens_v(output.script@);
                assert(addr@ == spec_output_address(tokens_v(output.script@)));
            }
            let tapes = split_script_tapes_with(&output.script, settings, tr);
            proof {
                let flat = spec_flatten(tokens_v(output.script@));
                let plain_tapes = split_tapes(flat, rules);
                let target = transform_tapes_v(*tr, plain_tapes, flat);
                assert forall|jj: int| 0 <= jj < plain_tapes.len() implies tapes_v(tapes@)[jj]
                    == target[jj] by {
                    assert((tapes_v(tapes@)[jj]).i == plain_tapes[jj].i);
                    assert(tapes_v(tapes@)[jj].cell =~= target[jj].cell);
                    assert(tapes_v(tapes@)[jj] =~= target[jj]);
                }
                assert(tapes_v(tapes@) =~= target);
            }
            let mut limb = IO::new(j);
            limb.tape = tapes;
            limb.e = Some(
                SendRecv { h: None, i: j as u32, v: Some(output.satoshis), a: Some(addr) },
            );
            proof {
                lemma_tx_outputs_v(tx.outputs@);
                assert(tx@.outputs[j as int] == output@);
                assert(limb@ =~= spec_output_io_with(*tr, tx@.outputs[j as int], j as int, rules));
                lemma_ios_v_push(outputs_acc@, limb);
            }
            outputs_acc.push(limb);
            j += 1;
        }

        let txid = match &tx.txid {
            Some(s) => Some(s.clone()),
            None => None,
        };
        let results = crate::components::BPU {
            outputs: outputs_acc,
            inputs: inputs_acc,
            tx: Tx { h: txid, r: None },
            lock: Some(tx.locktime),
        };
        proof {
            assert(results@.inputs =~= spec_collect_with(*tr, tx@, rules).inputs);
            assert(results@.outputs =~= spec_collect_with(*tr, tx@, rules).outputs);
            assert(results@ =~= spec_collect_with(*tr, tx@, rules));
        }
        Ok(results)
    }
}


/// Decodes a raw transaction from hex into the library's plain decoded
/// value: the input boundary of the projector.  Exactly the hexes the
/// decoder accepts yield `Ok`, and the decode error is propagated.
pub fn decode_raw_tx(raw_tx: &str) -> (r: Result<TxData, BpuError>)
    ensures
        match decode_of(raw_tx@) {
            Some(d) => r matches Ok(t) && t@ == d,
            None => r matches Err(e) && e matches BpuError::BsvError(_),
        },
{
    match decode_hex(raw_tx) {
        Ok(t) => Ok(t),
        Err(e) => Err(BpuError::BsvError(e)),
    }
}

impl crate::components::BPU {
    /// Decodes a raw transaction from hex and projects it: on every hex
    /// the decoder accepts (with outputs countable in 32 bits) the result
    /// is exactly the projection of the decoded transaction; any other
    /// hex is an error.
    pub fn from_raw_tx(raw_tx: &str, parse_config: ParseConfig) -> (r: Result<crate::components::BPU, BpuError>)
        ensures
            match decode_of(raw_tx@) {
                Some(d) => if d.outputs.len() <= 0xFFFF_FFFF {
                    r matches Ok(b) && b@ == spec_collect(d, rules_v(parse_config.split@))
                } else {
                    r matches Err(_)
                },
                None => r matches Err(_),
            },
    {
        let data = match decode_raw_tx(raw_tx) {
            Ok(d) => d,
            Err(e) => {
                return Err(e);
            },
        };
        proof {
            lemma_tx_outputs_v(data.outputs@);
        }
        if data.outputs.len() > u32::MAX as usize {
            return Err(BpuError::CustomError(String::from_str("too many outputs")));
        }
        match Self::collect(&data, parse_config) {
            Ok(b) => {
                proof {
                    let ghost d0 = data@;
                    assert(b@ == spec_collect(d0, rules_v(parse_config.split@)));
                }
                Ok(b)
            },
            Err(e) => Err(e),
        }
    }

    /// Decodes a raw transaction from hex and projects it with the
    /// per-cell transform hook applied, under the same contract as the
    /// plain entry point.
    pub fn from_raw_tx_with<T: CellTransform>(raw_tx: &str, parse_config: ParseConfig, tr: &T) -> (r: Result<crate::components::BPU, BpuError>)
        ensures
            match decode_of(raw_tx@) {
                Some(d) => if d.outputs.len() <= 0xFFFF_FFFF {
                    r matches Ok(b) && b@ == spec_collect_with(*tr, d, rules_v(parse_config.split@))
                } else {
                    r matches Err(_)
                },
                None => r matches Err(_),
            },
    {
        let data = match decode_raw_tx(raw_tx) {
            Ok(d) => d,
            Err(e) => {
                return Err(e);
            },
        };
        proof {
            lemma_tx_outputs_v(data.outputs@);
        }
        if data.outputs.len() > u32::MAX as usize {
            return Err(BpuError::CustomError(String::from_str("too many outputs")));
        }
        match Self::collect_with(&data, parse_config, tr) {
            Ok(b) => {
                proof {
                    let ghost d0 = data@;
                    assert(b@ == spec_collect_with(*tr, d0, rules_v(parse_config.split@)));
                }
                Ok(b)
            },
            Err(e) => Err(e),
        }
    }
}


/// An optional per-cell transform hook: a pure function from a cell and
/// its originating token to a cell.  It never alters control flow or
/// counters, only cell content, so applying it to every stored cell
/// equals applying it at cell-construction time.
pub trait CellTransform {
    /// What the hook computes, as a function of the cell and its token.
    spec fn spec_apply(&self, c: CellV, t: ScriptTokenV) -> CellV;

    /// Applies the hook to one cell.
    fn apply(&self, c: Cell, token: &ScriptToken) -> (r: Cell)
        ensures
            r@ == self.spec_apply(c@, token@),
    ;
}

/// The absent hook: every cell passes through unchanged.
pub struct NoTransform;

impl CellTransform for NoTransform {
    open spec fn spec_apply(&self, c: CellV, t: ScriptTokenV) -> CellV {
        c
    }

    fn apply(&self, c: Cell, token: &ScriptToken) -> (r: Cell) {
        c
    }
}

/// What one transformed cell is: the hook applied with the originating
/// token of the cell's stream position; a cell pointing outside the
/// stream passes through unchanged.
pub open spec fn transformed_cell<T: CellTransform>(tr: T, c: CellV, ts: Seq<ScriptTokenV>) -> CellV {
    if 0 <= c.ii < ts.len() {
        tr.spec_apply(c, ts[c.ii])
    } else {
        c
    }
}

/// Applies a transform hook to every cell of a group, handing each cell
/// its originating token from the flattened stream.
fn transform_cells<T: CellTransform>(cells: Vec<Cell>, bits: &Vec<ScriptToken>, tr: &T) -> (r: Vec<Cell>)
    ensures
        cells_v(r@).len() == cells_v(cells@).len(),
        forall|m: int| 0 <= m < cells_v(cells@).len() ==> #[trigger] cells_v(r@)[m]
            == transformed_cell(*tr, cells_v(cells@)[m], tokens_v(bits@)),
{
    let ghost cv0 = cells_v(cells@);
    let mut rest = cells;
    let mut rev: Vec<Cell> = Vec::new();
    proof {
        lemma_cells_v(rest@);
    }
    while rest.len() > 0
        invariant
            rest@.len() + rev@.len() == cv0.len(),
            forall|m: int| 0 <= m < rest@.len() ==> #[trigger] rest@[m]@ == cv0[m],
            forall|m: int| 0 <= m < rev@.len() ==> #[trigger] rev@[m]@ == transformed_cell(
                *tr,
                cv0[cv0.len() - 1 - m],
                tokens_v(bits@),
            ),
        decreases rest@.len(),
    {
        let cell = match rest.pop() {
            Some(x) => x,
            None => {
                proof {
                    assert(false);
                }
                return rev;
            },
        };
        let ghost cvi = cv0[rest@.len() as int];
        proof {
            lemma_tokens_v(bits@);
            assert(cell@ == cvi);
        }
        let idx = cell.ii;
        let picked = if idx < bits.len() {
            tr.apply(cell, &bits[idx])
        } else {
            cell
        };
        proof {
            assert(picked@ == transformed_cell(*tr, cvi, tokens_v(bits@)));
        }
        rev.push(picked);
    }
    let mut out: Vec<Cell> = Vec::new();
    let ghost half = rev@.len() as int;
    while rev.len() > 0
        invariant
            rev@.len() + out@.len() == cv0.len(),
            forall|m: int| 0 <= m < rev@.len() ==> #[trigger] rev@[m]@ == transformed_cell(
                *tr,
                cv0[cv0.len() - 1 - m],
                tokens_v(bits@),
            ),
            forall|m: int| 0 <= m < out@.len() ==> #[trigger] out@[m]@ == transformed_cell(
                *tr,
                cv0[m],
                tokens_v(bits@),
            ),
        decreases rev@.len(),
    {
        let cell = match rev.pop() {
            Some(x) => x,
            None => {
                proof {
                    assert(false);
                }
                return out;
            },
        };
        proof {
            assert(cell@ == transformed_cell(*tr, cv0[out@.len() as int], tokens_v(bits@)));
        }
        out.push(cell);
    }
    proof {
        lemma_cells_v(out@);
        lemma_cells_v(Seq::<Cell>::empty());
    }
    proof {
        assert forall|m: int| 0 <= m < cv0.len() implies #[trigger] cells_v(out@)[m]
            == transformed_cell(*tr, cv0[m], tokens_v(bits@)) by {
            assert(cells_v(out@)[m] == out@[m]@);
        }
    }
    out
}

/// Flattens one script, groups it into tapes, and applies the transform
/// hook to every constructed cell before it is stored; the grouping, the
/// counters and every index are those of the plain engine.
pub fn split_script_tapes_with<T: CellTransform>(script: &Vec<ScriptToken>, settings: &Vec<SplitConfig>, tr: &T) -> (r: Vec<Tape>)
    ensures
        ({
            let plain = split_tapes(spec_flatten(tokens_v(script@)), rules_v(settings@));
            let flat = spec_flatten(tokens_v(script@));
            tapes_v(r@).len() == plain.len() && forall|j: int| 0 <= j < plain.len()
                ==> (#[trigger] tapes_v(r@)[j]).i == plain[j].i && tapes_v(r@)[j].cell.len()
                == plain[j].cell.len() && forall|m: int| 0 <= m < plain[j].cell.len()
                ==> tapes_v(r@)[j].cell[m] == transformed_cell(*tr, plain[j].cell[m], flat)
        }),
{
    let bits = flatten_script_bits(script);
    let tapes = split_script_tapes(script, settings);
    let ghost plain = split_tapes(spec_flatten(tokens_v(script@)), rules_v(settings@));
    let mut rest = tapes;
    let mut rev: Vec<Tape> = Vec::new();
    proof {
        lemma_tapes_v(rest@);
    }
    while rest.len() > 0
        invariant
            tokens_v(bits@) == spec_flatten(tokens_v(script@)),
            plain == split_tapes(spec_flatten(tokens_v(script@)), rules_v(settings@)),
            rest@.len() + rev@.len() == plain.len(),
            forall|m: int| 0 <= m < rest@.len() ==> #[trigger] rest@[m]@ == plain[m],
            forall|m: int| 0 <= m < rev@.len() ==> (#[trigger] rev@[m]@).i == plain[plain.len() - 1
                - m].i && rev@[m]@.cell.len() == plain[plain.len() - 1 - m].cell.len()
                && forall|n: int| 0 <= n < rev@[m]@.cell.len() ==> rev@[m]@.cell[n]
                == transformed_cell(
                *tr,
                plain[plain.len() - 1 - m].cell[n],
                spec_flatten(tokens_v(script@)),
            ),
        decreases rest@.len(),
    {
        let tape = match rest.pop() {
            Some(x) => x,
            None => {
                proof {
                    assert(false);
                }
                return rev;
            },
        };
        let ghost pv = plain[rest@.len() as int];
        proof {
            assert(tape@ == pv);
        }
        let tape_pos = tape.i;
        let ghost oldcells = tape.cell@;
        let mapped = transform_cells(tape.cell, &bits, tr);
        let built = Tape { cell: mapped, i: tape_pos };
        proof {
            assert(built@.i == pv.i);
            assert(pv.cell == cells_v(oldcells));
            assert(tokens_v(bits@) == spec_flatten(tokens_v(script@)));
            assert(built@.cell.len() == pv.cell.len());
            assert forall|n: int| 0 <= n < built@.cell.len() implies #[trigger] built@.cell[n]
                == transformed_cell(*tr, pv.cell[n], spec_flatten(tokens_v(script@))) by {
                assert(built@.cell[n] == cells_v(mapped@)[n]);
                assert(cells_v(mapped@)[n] == transformed_cell(*tr, cells_v(oldcells)[n], tokens_v(bits@)));
            }
        }
        rev.push(built);
    }
    let mut out: Vec<Tape> = Vec::new();
    while rev.len() > 0
        invariant
            rev@.len() + out@.len() == plain.len(),
            forall|m: int| 0 <= m < rev@.len() ==> (#[trigger] rev@[m]@).i == plain[plain.len() - 1
                - m].i && rev@[m]@.cell.len() == plain[plain.len() - 1 - m].cell.len()
                && forall|n: int| 0 <= n < rev@[m]@.cell.len() ==> rev@[m]@.cell[n]
                == transformed_cell(
                *tr,
                plain[plain.len() - 1 - m].cell[n],
                spec_flatten(tokens_v(script@)),
            ),
            forall|m: int| 0 <= m < out@.len() ==> (#[trigger] out@[m]@).i == plain[m].i
                && out@[m]@.cell.len() == plain[m].cell.len() && forall|n: int| 0 <= n
                < out@[m]@.cell.len() ==> out@[m]@.cell[n] == transformed_cell(
                *tr,
                plain[m].cell[n],
                spec_flatten(tokens_v(script@)),
            ),
        decreases rev@.len(),
    {
        let tape = match rev.pop() {
            Some(x) => x,
            None => {
                proof {
                    assert(false);
                }
                return out;
            },
        };
        out.push(tape);
    }
    proof {
        lemma_tapes_v(out@);
        assert forall|j: int| 0 <= j < plain.len() implies (#[trigger] tapes_v(out@)[j]).i
            == plain[j].i && tapes_v(out@)[j].cell.len() == plain[j].cell.len() && forall|m: int|
            0 <= m < plain[j].cell.len() ==> tapes_v(out@)[j].cell[m] == transformed_cell(
            *tr,
            plain[j].cell[m],
            spec_flatten(tokens_v(script@)),
        ) by {
            assert(tapes_v(out@)[j] == out@[j]@);
        }
    }
    out
}

} // verus!
