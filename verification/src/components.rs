use vstd::prelude::*;

verus! {

/// Opcode byte that pushes an empty value (the "false" marker).
pub const OP_0: u8 = 0;

/// Opcode byte that pushes 1 (the content-type marker of the envelope).
pub const OP_1: u8 = 81;

/// Opcode byte that opens a conditional branch.
pub const OP_IF: u8 = 99;

/// Opcode byte that opens a negated conditional branch.
pub const OP_NOTIF: u8 = 100;

/// Opcode byte that marks an unspendable data-carrier output.
pub const OP_RETURN: u8 = 106;

/// Synthetic marker for the alternative branch of a conditional.
pub const OP_ELSE: u8 = 103;

/// Synthetic marker closing a conditional.
pub const OP_ENDIF: u8 = 104;

/// One unit of a script: an opcode, a data push, or a nested conditional.
#[derive(Debug)]
pub enum ScriptToken {
    OpCode(u8),
    Push(Vec<u8>),
    Conditional { condition: u8, then_branch: Vec<ScriptToken>, else_branch: Option<Vec<ScriptToken>> },
}

/// Mathematical model of a `ScriptToken`.
#[verifier::ext_equal]
pub enum ScriptTokenV {
    OpCode(u8),
    Push(Seq<u8>),
    Conditional { condition: u8, then_branch: Seq<ScriptTokenV>, else_branch: Option<Seq<ScriptTokenV>> },
}

pub open spec fn token_view(t: ScriptToken) -> ScriptTokenV
    decreases t,
{
    match t {
        ScriptToken::OpCode(c) => ScriptTokenV::OpCode(c),
        ScriptToken::Push(b) => ScriptTokenV::Push(b@),
        ScriptToken::Conditional { condition, then_branch, else_branch } => ScriptTokenV::Conditional {
            condition: condition,
            then_branch: tokens_v(then_branch@),
            else_branch: match else_branch {
                Some(eb) => Some(tokens_v(eb@)),
                None => None,
            },
        },
    }
}

impl View for ScriptToken {
    type V = ScriptTokenV;

    open spec fn view(&self) -> ScriptTokenV {
        token_view(*self)
    }
}

/// The model of a sequence of tokens.
pub open spec fn tokens_v(ts: Seq<ScriptToken>) -> Seq<ScriptTokenV>
    decreases ts,
{
    if ts.len() == 0 {
        Seq::empty()
    } else {
        seq![token_view(ts[0])] + tokens_v(ts.drop_first())
    }
}

/// `tokens_v` maps `token_view` over a sequence, element by element.
pub proof fn lemma_tokens_v(ts: Seq<ScriptToken>)
    ensures
        tokens_v(ts).len() == ts.len(),
        forall|i: int| 0 <= i < ts.len() ==> tokens_v(ts)[i] == token_view(ts[i]),
    decreases ts.len(),
{
    if ts.len() > 0 {
        lemma_tokens_v(ts.drop_first());
    }
}


/// How a matched delimiter attaches to the segment boundary it creates:
/// `Left` merges it into the tape it terminates, `Right` puts it first in
/// the tape it opens, `Center` gives it a singleton tape of its own.
#[derive(Debug, Clone, Copy, PartialEq, Eq, Structural)]
pub enum Include {
    Left,
    Right,
    Center,
}

/// A delimiter matcher: a token equals the rule if it agrees with any
/// field that is set.
#[derive(Debug)]
pub struct Token {
    pub op: Option<u8>,
    pub ops: Option<String>,
    pub b: Option<Vec<u8>>,
    pub s: Option<String>,
}

/// Model of a `Token` matcher.
#[verifier::ext_equal]
pub struct TokenV {
    pub op: Option<u8>,
    pub ops: Option<Seq<char>>,
    pub b: Option<Seq<u8>>,
    pub s: Option<Seq<char>>,
}

impl View for Token {
    type V = TokenV;

    open spec fn view(&self) -> TokenV {
        TokenV {
            op: self.op,
            ops: match self.ops {
                Some(x) => Some(x@),
                None => None,
            },
            b: match self.b {
                Some(x) => Some(x@),
                None => None,
            },
            s: match self.s {
                Some(x) => Some(x@),
                None => None,
            },
        }
    }
}

/// One delimiter rule: a matcher paired with its insertion policy.
#[derive(Debug)]
pub struct SplitConfig {
    pub policy: Include,
    pub token: Token,
}

/// Model of a `SplitConfig`.
#[verifier::ext_equal]
pub struct SplitConfigV {
    pub policy: Include,
    pub token: TokenV,
}

impl View for SplitConfig {
    type V = SplitConfigV;

    open spec fn view(&self) -> SplitConfigV {
        SplitConfigV { policy: self.policy, token: self.token@ }
    }
}

/// The model of a list of delimiter rules.
pub open spec fn rules_v(rs: Seq<SplitConfig>) -> Seq<SplitConfigV>
    decreases rs,
{
    if rs.len() == 0 {
        Seq::empty()
    } else {
        seq![rs[0]@] + rules_v(rs.drop_first())
    }
}

/// `rules_v` maps the view over a sequence, element by element.
pub proof fn lemma_rules_v(rs: Seq<SplitConfig>)
    ensures
        rules_v(rs).len() == rs.len(),
        forall|i: int| 0 <= i < rs.len() ==> rules_v(rs)[i] == rs[i]@,
    decreases rs.len(),
{
    if rs.len() > 0 {
        lemma_rules_v(rs.drop_first());
    }
}

/// The full parser configuration: the ordered delimiter rules.
#[derive(Debug)]
pub struct ParseConfig {
    pub split: Vec<SplitConfig>,
}

/// One atomic output unit of the tape structure.
#[derive(Debug)]
pub struct Cell {
    pub op: Option<u8>,
    pub ops: Option<String>,
    pub b: Option<Vec<u8>>,
    pub s: Option<String>,
    pub ii: usize,
    pub i: usize,
    pub h: Option<String>,
    pub f: Option<String>,
    pub ls: Option<String>,
    pub lh: Option<String>,
    pub lf: Option<String>,
    pub lb: Option<String>,
}

/// Model of a `Cell`.  The six reserved enrichment fields are carried as
/// absent by this engine.
#[verifier::ext_equal]
pub struct CellV {
    pub op: Option<u8>,
    pub ops: Option<Seq<char>>,
    pub b: Option<Seq<u8>>,
    pub s: Option<Seq<char>>,
    pub ii: int,
    pub i: int,
    pub h: Option<Seq<char>>,
    pub f: Option<Seq<char>>,
    pub ls: Option<Seq<char>>,
    pub lh: Option<Seq<char>>,
    pub lf: Option<Seq<char>>,
    pub lb: Option<Seq<char>>,
}

pub open spec fn opt_str_v(x: Option<String>) -> Option<Seq<char>> {
    match x {
        Some(s) => Some(s@),
        None => None,
    }
}

impl View for Cell {
    type V = CellV;

    open spec fn view(&self) -> CellV {
        CellV {
            op: self.op,
            ops: opt_str_v(self.ops),
            b: match self.b {
                Some(x) => Some(x@),
                None => None,
            },
            s: opt_str_v(self.s),
            ii: self.ii as int,
            i: self.i as int,
            h: opt_str_v(self.h),
            f: opt_str_v(self.f),
            ls: opt_str_v(self.ls),
            lh: opt_str_v(self.lh),
            lf: opt_str_v(self.lf),
            lb: opt_str_v(self.lb),
        }
    }
}

/// The model of a group of cells.
pub open spec fn cells_v(cs: Seq<Cell>) -> Seq<CellV>
    decreases cs,
{
    if cs.len() == 0 {
        Seq::empty()
    } else {
        seq![cs[0]@] + cells_v(cs.drop_first())
    }
}

/// `cells_v` maps the view over a sequence, element by element.
pub proof fn lemma_cells_v(cs: Seq<Cell>)
    ensures
        cells_v(cs).len() == cs.len(),
        forall|i: int| 0 <= i < cs.len() ==> cells_v(cs)[i] == cs[i]@,
    decreases cs.len(),
{
    if cs.len() > 0 {
        lemma_cells_v(cs.drop_first());
    }
}

/// One delimiter-bounded segment of a script.
#[derive(Debug)]
pub struct Tape {
    pub cell: Vec<Cell>,
    pub i: usize,
}

/// Model of a `Tape`.
#[verifier::ext_equal]
pub struct TapeV {
    pub cell: Seq<CellV>,
    pub i: int,
}

impl View for Tape {
    type V = TapeV;

    open spec fn view(&self) -> TapeV {
        TapeV { cell: cells_v(self.cell@), i: self.i as int }
    }
}

/// The model of a list of tapes.
pub open spec fn tapes_v(ts: Seq<Tape>) -> Seq<TapeV>
    decreases ts,
{
    if ts.len() == 0 {
        Seq::empty()
    } else {
        seq![ts[0]@] + tapes_v(ts.drop_first())
    }
}

/// `tapes_v` maps the view over a sequence, element by element.
pub proof fn lemma_tapes_v(ts: Seq<Tape>)
    ensures
        tapes_v(ts).len() == ts.len(),
        forall|i: int| 0 <= i < ts.len() ==> tapes_v(ts)[i] == ts[i]@,
    decreases ts.len(),
{
    if ts.len() > 0 {
        lemma_tapes_v(ts.drop_first());
    }
}

/// Sender or receiver metadata of one input or output.
#[derive(Debug)]
pub struct SendRecv {
    pub h: Option<String>,
    pub i: u32,
    pub v: Option<u64>,
    pub a: Option<String>,
}

/// Model of a `SendRecv`.
#[verifier::ext_equal]
pub struct SendRecvV {
    pub h: Option<Seq<char>>,
    pub i: u32,
    pub v: Option<u64>,
    pub a: Option<Seq<char>>,
}

impl View for SendRecv {
    type V = SendRecvV;

    open spec fn view(&self) -> SendRecvV {
        SendRecvV { h: opt_str_v(self.h), i: self.i, v: self.v, a: opt_str_v(self.a) }
    }
}

/// One transaction input or output with its tapes.
#[derive(Debug)]
pub struct IO {
    pub i: usize,
    pub tape: Vec<Tape>,
    pub e: Option<SendRecv>,
    pub seq: Option<u32>,
}

/// Model of an `IO`.
#[verifier::ext_equal]
pub struct IOV {
    pub i: int,
    pub tape: Seq<TapeV>,
    pub e: Option<SendRecvV>,
    pub seq: Option<u32>,
}

impl View for IO {
    type V = IOV;

    open spec fn view(&self) -> IOV {
        IOV {
            i: self.i as int,
            tape: tapes_v(self.tape@),
            e: match self.e {
                Some(x) => Some(x@),
                None => None,
            },
            seq: self.seq,
        }
    }
}

impl IO {
    /// A fresh input/output record at the given transaction position.
    pub fn new(tx_index: usize) -> (r: Self)
        ensures
            r@ == (IOV { i: tx_index as int, tape: Seq::<TapeV>::empty(), e: None, seq: None }),
    {
        let r = Self { i: tx_index, tape: Vec::new(), e: None, seq: None };
        proof {
            assert(r@.tape =~= Seq::<TapeV>::empty());
            assert(r@ =~= IOV { i: tx_index as int, tape: Seq::<TapeV>::empty(), e: None, seq: None });
        }
        r
    }
}

/// The running position counters of one split pass.
#[derive(Debug)]
pub struct IndexCounter {
    pub outer_index: usize,
    pub tape_index: usize,
    pub cell_index: usize,
    pub chunk_index: usize,
}

impl IndexCounter {
    /// Fresh counters for the input/output at the given position.
    pub fn new(tx_index: usize) -> (r: Self)
        ensures
            r.outer_index == tx_index,
            r.tape_index == 0,
            r.cell_index == 0,
            r.chunk_index == 0,
    {
        Self { outer_index: tx_index, tape_index: 0, cell_index: 0, chunk_index: 0 }
    }
}


/// Transaction identity: id hex and optional raw hex.
#[derive(Debug)]
pub struct Tx {
    pub h: Option<String>,
    pub r: Option<String>,
}

/// Model of a `Tx`.
#[verifier::ext_equal]
pub struct TxV {
    pub h: Option<Seq<char>>,
    pub r: Option<Seq<char>>,
}

impl View for Tx {
    type V = TxV;

    open spec fn view(&self) -> TxV {
        TxV { h: opt_str_v(self.h), r: opt_str_v(self.r) }
    }
}

/// The full per-transaction result: inputs, outputs, id and locktime.
#[derive(Debug)]
pub struct BPU {
    pub outputs: Vec<IO>,
    pub inputs: Vec<IO>,
    pub tx: Tx,
    pub lock: Option<u32>,
}

/// The model of a list of inputs or outputs.
pub open spec fn ios_v(xs: Seq<IO>) -> Seq<IOV>
    decreases xs,
{
    if xs.len() == 0 {
        Seq::empty()
    } else {
        seq![xs[0]@] + ios_v(xs.drop_first())
    }
}

/// `ios_v` maps the view over a sequence, element by element.
pub proof fn lemma_ios_v(xs: Seq<IO>)
    ensures
        ios_v(xs).len() == xs.len(),
        forall|i: int| 0 <= i < xs.len() ==> ios_v(xs)[i] == xs[i]@,
    decreases xs.len(),
{
    if xs.len() > 0 {
        lemma_ios_v(xs.drop_first());
    }
}

/// Model of a `BPU`.
#[verifier::ext_equal]
pub struct BPUV {
    pub outputs: Seq<IOV>,
    pub inputs: Seq<IOV>,
    pub tx: TxV,
    pub lock: Option<u32>,
}

impl View for BPU {
    type V = BPUV;

    open spec fn view(&self) -> BPUV {
        BPUV {
            outputs: ios_v(self.outputs@),
            inputs: ios_v(self.inputs@),
            tx: self.tx@,
            lock: self.lock,
        }
    }
}

/// One decoded transaction input: its chosen script as tokens, the
/// previous output reference, and the sequence number.
#[derive(Debug)]
pub struct TxInputData {
    pub script: Vec<ScriptToken>,
    pub prev_tx_id: String,
    pub prev_vout: u32,
    pub sequence: u32,
}

/// Model of a `TxInputData`.
#[verifier::ext_equal]
pub struct TxInputDataV {
    pub script: Seq<ScriptTokenV>,
    pub prev_tx_id: Seq<char>,
    pub prev_vout: u32,
    pub sequence: u32,
}

impl View for TxInputData {
    type V = TxInputDataV;

    open spec fn view(&self) -> TxInputDataV {
        TxInputDataV {
            script: tokens_v(self.script@),
            prev_tx_id: self.prev_tx_id@,
            prev_vout: self.prev_vout,
            sequence: self.sequence,
        }
    }
}

/// One decoded transaction output: its locking script as tokens and its
/// value in the smallest currency unit.
#[derive(Debug)]
pub struct TxOutputData {
    pub script: Vec<ScriptToken>,
    pub satoshis: u64,
}

/// Model of a `TxOutputData`.
#[verifier::ext_equal]
pub struct TxOutputDataV {
    pub script: Seq<ScriptTokenV>,
    pub satoshis: u64,
}

impl View for TxOutputData {
    type V = TxOutputDataV;

    open spec fn view(&self) -> TxOutputDataV {
        TxOutputDataV { script: tokens_v(self.script@), satoshis: self.satoshis }
    }
}

/// A decoded transaction, as handed over by the wire-format decoder.
#[derive(Debug)]
pub struct TxData {
    pub txid: Option<String>,
    pub locktime: u32,
    pub inputs: Vec<TxInputData>,
    pub outputs: Vec<TxOutputData>,
}

/// Model of a `TxData`.
#[verifier::ext_equal]
pub struct TxDataV {
    pub txid: Option<Seq<char>>,
    pub locktime: u32,
    pub inputs: Seq<TxInputDataV>,
    pub outputs: Seq<TxOutputDataV>,
}

/// The model of a list of decoded inputs.
pub open spec fn tx_inputs_v(xs: Seq<TxInputData>) -> Seq<TxInputDataV>
    decreases xs,
{
    if xs.len() == 0 {
        Seq::empty()
    } else {
        seq![xs[0]@] + tx_inputs_v(xs.drop_first())
    }
}

/// `tx_inputs_v` maps the view over a sequence, element by element.
pub proof fn lemma_tx_inputs_v(xs: Seq<TxInputData>)
    ensures
        tx_inputs_v(xs).len() == xs.len(),
        forall|i: int| 0 <= i < xs.len() ==> tx_inputs_v(xs)[i] == xs[i]@,
    decreases xs.len(),
{
    if xs.len() > 0 {
        lemma_tx_inputs_v(xs.drop_first());
    }
}

/// The model of a list of decoded outputs.
pub open spec fn tx_outputs_v(xs: Seq<TxOutputData>) -> Seq<TxOutputDataV>
    decreases xs,
{
    if xs.len() == 0 {
        Seq::empty()
    } else {
        seq![xs[0]@] + tx_outputs_v(xs.drop_first())
    }
}

/// `tx_outputs_v` maps the view over a sequence, element by element.
pub proof fn lemma_tx_outputs_v(xs: Seq<TxOutputData>)
    ensures
        tx_outputs_v(xs).len() == xs.len(),
        forall|i: int| 0 <= i < xs.len() ==> tx_outputs_v(xs)[i] == xs[i]@,
    decreases xs.len(),
{
    if xs.len() > 0 {
        lemma_tx_outputs_v(xs.drop_first());
    }
}

impl View for TxData {
    type V = TxDataV;

    open spec fn view(&self) -> TxDataV {
        TxDataV {
            txid: opt_str_v(self.txid),
            locktime: self.locktime,
            inputs: tx_inputs_v(self.inputs@),
            outputs: tx_outputs_v(self.outputs@),
        }
    }
}

/// One extracted envelope record: raw payload bytes and the content type.
#[derive(Debug)]
pub struct OrdData {
    pub data: Vec<u8>,
    pub content_type: String,
}

/// Model of an `OrdData`.
#[verifier::ext_equal]
pub struct OrdDataV {
    pub data: Seq<u8>,
    pub content_type: Seq<char>,
}

impl View for OrdData {
    type V = OrdDataV;

    open spec fn view(&self) -> OrdDataV {
        OrdDataV { data: self.data@, content_type: self.content_type@ }
    }
}

/// The model of a list of envelope records.
pub open spec fn ords_v(xs: Seq<OrdData>) -> Seq<OrdDataV>
    decreases xs,
{
    if xs.len() == 0 {
        Seq::empty()
    } else {
        seq![xs[0]@] + ords_v(xs.drop_first())
    }
}

/// `ords_v` maps the view over a sequence, element by element.
pub proof fn lemma_ords_v(xs: Seq<OrdData>)
    ensures
        ords_v(xs).len() == xs.len(),
        forall|i: int| 0 <= i < xs.len() ==> ords_v(xs)[i] == xs[i]@,
    decreases xs.len(),
{
    if xs.len() > 0 {
        lemma_ords_v(xs.drop_first());
    }
}

/// The shared collection that envelope records accumulate into.
#[derive(Debug)]
pub struct BMapManager {
    pub timestamp: u64,
    pub ord: Vec<OrdData>,
}

/// Block information: index, time and hash.
#[derive(Debug)]
pub struct Block {
    i: u32,
    t: u32,
    h: Option<String>,
}

/// A per-transaction result extended with block info and derived fields.
#[derive(Debug)]
pub struct BobTx {
    pub blk: Option<Block>,
    pub mem: u64,
    pub fields: std::collections::HashMap<String, String>,
    pub outputs: Vec<IO>,
    pub inputs: Vec<IO>,
    pub tx: Tx,
    pub lock: Option<u32>,
}


/// Classified library errors: a failure of the transaction decoder, or a
/// classified condition of this library's own.
#[derive(Debug)]
pub enum BpuError {
    BsvError(bsv::BSVErrors),
    CustomError(String),
}


/// A deep copy of one token, equal to the original in the model.
pub fn clone_token(t: &ScriptToken) -> (r: ScriptToken)
    ensures
        token_view(r) == token_view(*t),
    decreases *t,
{
    match t {
        ScriptToken::OpCode(c) => ScriptToken::OpCode(*c),
        ScriptToken::Push(b) => ScriptToken::Push(b.clone()),
        ScriptToken::Conditional { condition, then_branch, else_branch } => {
            let tb = clone_tokens(then_branch);
            let eb = match else_branch {
                Some(e) => Some(clone_tokens(e)),
                None => None,
            };
            ScriptToken::Conditional { condition: *condition, then_branch: tb, else_branch: eb }
        },
    }
}

/// A deep copy of a token list, equal to the original in the model.
pub fn clone_tokens(ts: &Vec<ScriptToken>) -> (r: Vec<ScriptToken>)
    ensures
        tokens_v(r@) == tokens_v(ts@),
    decreases *ts,
{
    let mut out: Vec<ScriptToken> = Vec::new();
    let n = ts.len();
    let mut k: usize = 0;
    while k < n
        invariant
            n == ts@.len(),
            k <= n,
            out@.len() == k,
            forall|m: int| 0 <= m < k ==> token_view(out@[m]) == token_view(ts@[m]),
        decreases n - k,
    {
        out.push(clone_token(&ts[k]));
        k += 1;
    }
    proof {
        lemma_tokens_v(out@);
        lemma_tokens_v(ts@);
        assert(tokens_v(out@) =~= tokens_v(ts@));
    }
    out
}

} // verus!
