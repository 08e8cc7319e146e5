use vstd::prelude::*;

use crate::components::ScriptToken;
use crate::components::TxData;
use crate::components::TxDataV;
use crate::components::TxInputData;
use crate::components::TxOutputData;
use num_traits::FromPrimitive;

verus! {

// Declared outside types, so that values of them can run through
// signatures and fields.  Verus sees nothing inside such a value.
#[verifier::external_type_specification]
#[verifier::external_body]
pub struct ExBsvErrors(bsv::BSVErrors);

#[verifier::external_type_specification]
#[verifier::external_body]
pub struct ExTransaction(bsv::Transaction);

#[verifier::external_type_specification]
#[verifier::external_body]
pub struct ExTxIn(bsv::TxIn);

#[verifier::external_type_specification]
#[verifier::external_body]
pub struct ExTxOut(bsv::TxOut);

#[verifier::external_type_specification]
#[verifier::external_body]
pub struct ExScriptBit(bsv::ScriptBit);

/// The opcode name that belongs to a byte, if the byte names an opcode:
/// a pure function of the byte.
pub uninterp spec fn opcode_name_of(code: u8) -> Option<Seq<char>>;

/// The lossy UTF-8 reading of a byte sequence: a pure function of the
/// bytes.
pub uninterp spec fn utf8_lossy_of(b: Seq<u8>) -> Seq<char>;

/// The pay-to-public-key-hash address derived from a compressed public
/// key, if the bytes are valid key material: a pure function of the bytes.
pub uninterp spec fn address_of_pubkey(b: Seq<u8>) -> Option<Seq<char>>;

/// The pay-to-public-key-hash address derived from a public key hash, if
/// the bytes have the right length: a pure function of the bytes.
pub uninterp spec fn address_of_pubkey_hash(b: Seq<u8>) -> Option<Seq<char>>;

/// Relies on bsv::OpCodes (FromPrimitive and Display): the opcode name
/// depends on the byte alone; an unnamed byte has no name.
#[verifier::external_body]
pub(crate) fn opcode_name(code: u8) -> (r: Option<String>)
    ensures
        opcode_name_of(code) == match r {
            Some(s) => Some::<Seq<char>>(s@),
            None => None::<Seq<char>>,
        },
{
    match bsv::OpCodes::from_u8(code) {
        Some(op) => Some(op.to_string()),
        None => None,
    }
}

/// Relies on String::from_utf8_lossy of std: the text depends on the
/// bytes alone.
#[verifier::external_body]
pub(crate) fn lossy_string(b: &Vec<u8>) -> (r: String)
    ensures
        r@ == utf8_lossy_of(b@),
{
    String::from_utf8_lossy(b).to_string()
}

/// Relies on bsv::PublicKey::from_bytes, PublicKey::to_p2pkh_address and
/// P2PKHAddress::to_string: each is deterministic in its argument, so the
/// derived address depends on the key bytes alone; any failure along the
/// chain yields no address.
#[verifier::external_body]
pub(crate) fn derive_address_from_pubkey(b: &Vec<u8>) -> (r: Option<String>)
    ensures
        address_of_pubkey(b@) == match r {
            Some(s) => Some::<Seq<char>>(s@),
            None => None::<Seq<char>>,
        },
{
    match bsv::PublicKey::from_bytes(b) {
        Ok(key) => match key.to_p2pkh_address() {
            Ok(addr) => addr.to_string().ok(),
            Err(_) => None,
        },
        Err(_) => None,
    }
}

/// Relies on bsv::P2PKHAddress::from_pubkey_hash and to_string: both are
/// deterministic in their argument, so the address depends on the hash
/// bytes alone; a hash of the wrong length yields no address.
#[verifier::external_body]
pub(crate) fn derive_address_from_hash(b: &Vec<u8>) -> (r: Option<String>)
    ensures
        address_of_pubkey_hash(b@) == match r {
            Some(s) => Some::<Seq<char>>(s@),
            None => None::<Seq<char>>,
        },
{
    match bsv::P2PKHAddress::from_pubkey_hash(b) {
        Ok(addr) => addr.to_string().ok(),
        Err(_) => None,
    }
}

/// The decoded form of a raw transaction hex: the inputs with their
/// chosen scripts as tokens, the outputs with their scripts and values,
/// the id and the locktime; nothing when the hex does not parse.  A pure
/// function of the hex alone.
pub uninterp spec fn decode_of(hex: Seq<char>) -> Option<TxDataV>;

/// Relies on bsv::Transaction::from_hex and, through the two helpers
/// below, on the per-field getters of Transaction, TxIn and TxOut: every
/// step is deterministic in the hex, so the whole decoded value depends
/// on the hex alone; a parse failure is returned as the decode error.
#[verifier::external_body]
pub(crate) fn decode_hex(raw: &str) -> (r: Result<TxData, bsv::BSVErrors>)
    ensures
        decode_of(raw@) == match r {
            Ok(t) => Some(t@),
            Err(_) => None::<TxDataV>,
        },
{
    let t = bsv::Transaction::from_hex(raw)?;
    let inputs = (0..t.get_ninputs()).filter_map(|i| t.get_input(i)).map(|x| input_data_of(&x)).collect();
    let outputs = (0..t.get_noutputs()).filter_map(|i| t.get_output(i)).map(|x| output_data_of(&x)).collect();
    Ok(TxData { txid: t.get_id_hex().ok(), locktime: t.get_n_locktime(), inputs, outputs })
}

/// One input of the decode composite.  Relies on bsv::TxIn's getters:
/// the finalised script when it resolves, else the raw unlocking script,
/// with the previous-output reference and the sequence number moved over.
#[verifier::external_body]
pub(crate) fn input_data_of(txin: &bsv::TxIn) -> TxInputData {
    let script = match txin.get_finalised_script() {
        Ok(s) => s,
        Err(_) => txin.get_unlocking_script(),
    };
    TxInputData {
        script: script.to_script_bits().iter().map(token_of_bit).collect(),
        prev_tx_id: txin.get_prev_tx_id_hex(None),
        prev_vout: txin.get_vout(),
        sequence: txin.get_sequence(),
    }
}

/// One output of the decode composite.  Relies on bsv::TxOut's getters:
/// the locking script's tokens and the value, moved over.
#[verifier::external_body]
pub(crate) fn output_data_of(txout: &bsv::TxOut) -> TxOutputData {
    TxOutputData {
        script: txout.get_script_pub_key().to_script_bits().iter().map(token_of_bit).collect(),
        satoshis: txout.get_satoshis(),
    }
}

/// Relies on the variants of bsv::ScriptBit: opcodes, pushes (plain,
/// prefixed and coinbase) and conditionals are mapped one for one onto
/// `ScriptToken`, moving the fields only.
#[verifier::external_body]
pub(crate) fn token_of_bit(bit: &bsv::ScriptBit) -> ScriptToken {
    match bit {
        bsv::ScriptBit::OpCode(c) => ScriptToken::OpCode(*c as u8),
        bsv::ScriptBit::Push(b) => ScriptToken::Push(b.clone()),
        bsv::ScriptBit::PushData(_, b) => ScriptToken::Push(b.clone()),
        bsv::ScriptBit::Coinbase(b) => ScriptToken::Push(b.clone()),
        bsv::ScriptBit::If { code, pass, fail } => ScriptToken::Conditional {
            condition: *code as u8,
            then_branch: pass.iter().map(token_of_bit).collect(),
            else_branch: fail.as_ref().map(|f| f.iter().map(token_of_bit).collect()),
        },
    }
}

} // verus!
