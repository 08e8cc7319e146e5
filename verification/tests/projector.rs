use bpu::{
    Include, ParseConfig, ScriptToken, SplitConfig, Token, TxData, TxInputData, TxOutputData, BPU,
};

fn pipe_config() -> ParseConfig {
    ParseConfig {
        split: vec![
            SplitConfig {
                policy: Include::Left,
                token: Token { op: None, ops: None, b: None, s: Some("|".to_string()) },
            },
            SplitConfig {
                policy: Include::Left,
                token: Token { op: Some(106), ops: None, b: None, s: None },
            },
        ],
    }
}

fn input_with_script(script: Vec<ScriptToken>) -> TxData {
    TxData {
        txid: Some("ab".to_string()),
        locktime: 7,
        inputs: vec![TxInputData {
            script,
            prev_tx_id: "00".repeat(32),
            prev_vout: 3,
            sequence: 0xffffffff,
        }],
        outputs: vec![],
    }
}

#[test]
fn collect_projects_inputs_and_outputs_in_order() {
    let tx = TxData {
        txid: Some("cafe".to_string()),
        locktime: 99,
        inputs: vec![
            TxInputData {
                script: vec![ScriptToken::Push(vec![1, 2])],
                prev_tx_id: "aa".to_string(),
                prev_vout: 0,
                sequence: 5,
            },
            TxInputData {
                script: vec![ScriptToken::Push(vec![3])],
                prev_tx_id: "bb".to_string(),
                prev_vout: 1,
                sequence: 6,
            },
        ],
        outputs: vec![TxOutputData { script: vec![ScriptToken::OpCode(81)], satoshis: 1234 }],
    };
    let result = BPU::collect(&tx, pipe_config()).unwrap();
    assert_eq!(result.tx.h.as_deref(), Some("cafe"));
    assert_eq!(result.tx.r, None);
    assert_eq!(result.lock, Some(99));
    assert_eq!(result.inputs.len(), 2);
    assert_eq!(result.outputs.len(), 1);
    assert_eq!(result.inputs[0].i, 0);
    assert_eq!(result.inputs[1].i, 1);
    let e0 = result.inputs[0].e.as_ref().unwrap();
    assert_eq!(e0.h.as_deref(), Some("aa"));
    assert_eq!(e0.i, 0);
    assert_eq!(e0.v, None);
    assert_eq!(result.inputs[0].seq, Some(5));
    assert_eq!(result.inputs[1].seq, Some(6));
    let r0 = result.outputs[0].e.as_ref().unwrap();
    assert_eq!(r0.h, None);
    assert_eq!(r0.i, 0);
    assert_eq!(r0.v, Some(1234));
    assert_eq!(result.outputs[0].seq, None);
    assert_eq!(result.outputs[0].tape.len(), 1);
    assert_eq!(result.outputs[0].tape[0].cell[0].op, Some(81));
}

#[test]
fn wrong_push_length_yields_sentinel_not_error() {
    // the second element is a push of neither 33 nor 20 bytes
    let tx = input_with_script(vec![
        ScriptToken::Push(vec![1]),
        ScriptToken::Push(vec![9, 9, 9, 9, 9]),
    ]);
    let result = BPU::collect(&tx, pipe_config()).unwrap();
    let e = result.inputs[0].e.as_ref().unwrap();
    assert_eq!(e.a.as_deref(), Some("false"));
}

#[test]
fn wrong_pubkey_prefix_yields_sentinel() {
    // 33 bytes, but not opening with 2 or 3
    let tx = input_with_script(vec![ScriptToken::Push(vec![1]), ScriptToken::Push(vec![9; 33])]);
    let result = BPU::collect(&tx, pipe_config()).unwrap();
    let e = result.inputs[0].e.as_ref().unwrap();
    assert_eq!(e.a.as_deref(), Some("false"));
}

#[test]
fn short_script_yields_sentinel() {
    let tx = input_with_script(vec![ScriptToken::Push(vec![1])]);
    let result = BPU::collect(&tx, pipe_config()).unwrap();
    let e = result.inputs[0].e.as_ref().unwrap();
    assert_eq!(e.a.as_deref(), Some("false"));
}

#[test]
fn pubkey_hash_derives_the_bsv_address() {
    let hash = [7u8; 20];
    let expected = bsv::P2PKHAddress::from_pubkey_hash(&hash)
        .unwrap()
        .to_string()
        .unwrap();
    let tx = input_with_script(vec![ScriptToken::Push(vec![1]), ScriptToken::Push(hash.to_vec())]);
    let result = BPU::collect(&tx, pipe_config()).unwrap();
    let e = result.inputs[0].e.as_ref().unwrap();
    assert_eq!(e.a.as_deref(), Some(expected.as_str()));
    assert_ne!(e.a.as_deref(), Some("false"));
}

#[test]
fn compressed_pubkey_derives_the_bsv_address() {
    let mut key = vec![2u8];
    key.extend_from_slice(
        &[
            0x79, 0xBE, 0x66, 0x7E, 0xF9, 0xDC, 0xBB, 0xAC, 0x55, 0xA0, 0x62, 0x95, 0xCE, 0x87,
            0x0B, 0x07, 0x02, 0x9B, 0xFC, 0xDB, 0x2D, 0xCE, 0x28, 0xD9, 0x59, 0xF2, 0x81, 0x5B,
            0x16, 0xF8, 0x17, 0x98,
        ],
    );
    let expected = bsv::PublicKey::from_bytes(&key)
        .unwrap()
        .to_p2pkh_address()
        .unwrap()
        .to_string()
        .unwrap();
    let tx = input_with_script(vec![ScriptToken::Push(vec![1]), ScriptToken::Push(key)]);
    let result = BPU::collect(&tx, pipe_config()).unwrap();
    let e = result.inputs[0].e.as_ref().unwrap();
    assert_eq!(e.a.as_deref(), Some(expected.as_str()));
}

#[test]
fn output_address_from_third_element() {
    let hash = [9u8; 20];
    let expected = bsv::P2PKHAddress::from_pubkey_hash(&hash)
        .unwrap()
        .to_string()
        .unwrap();
    let tx = TxData {
        txid: None,
        locktime: 0,
        inputs: vec![],
        outputs: vec![TxOutputData {
            script: vec![
                ScriptToken::OpCode(118),
                ScriptToken::OpCode(169),
                ScriptToken::Push(hash.to_vec()),
                ScriptToken::OpCode(136),
                ScriptToken::OpCode(172),
            ],
            satoshis: 50,
        }],
    };
    let result = BPU::collect(&tx, pipe_config()).unwrap();
    let e = result.outputs[0].e.as_ref().unwrap();
    assert_eq!(e.a.as_deref(), Some(expected.as_str()));
}

#[test]
fn from_raw_tx_round_trips_through_the_decoder() {
    let hash = [7u8; 20];
    let mut script = bsv::Script::default();
    script.push(bsv::ScriptBit::OpCode(bsv::OpCodes::OP_0));
    script.push(bsv::ScriptBit::Push(hash.to_vec()));
    let txin = bsv::TxIn::new(&[0u8; 32], 1, &script, Some(42));
    let mut out_script = bsv::Script::default();
    out_script.push(bsv::ScriptBit::Push(b"hello".to_vec()));
    let txout = bsv::TxOut::new(777, &out_script);
    let mut tx = bsv::Transaction::new(1, 555);
    tx.add_input(&txin);
    tx.add_output(&txout);
    let hex = tx.to_hex().unwrap();

    let result = BPU::from_raw_tx(&hex, pipe_config()).unwrap();
    assert_eq!(result.lock, Some(555));
    assert_eq!(result.inputs.len(), 1);
    assert_eq!(result.outputs.len(), 1);
    assert_eq!(result.inputs[0].seq, Some(42));
    let e = result.inputs[0].e.as_ref().unwrap();
    assert_eq!(e.i, 1);
    let expected = bsv::P2PKHAddress::from_pubkey_hash(&hash)
        .unwrap()
        .to_string()
        .unwrap();
    assert_eq!(e.a.as_deref(), Some(expected.as_str()));
    let r0 = result.outputs[0].e.as_ref().unwrap();
    assert_eq!(r0.v, Some(777));
    assert_eq!(result.outputs[0].tape[0].cell[0].s.as_deref(), Some("hello"));
}

#[test]
fn malformed_hex_is_a_decoder_error() {
    let err = BPU::from_raw_tx("zz-not-hex", pipe_config()).unwrap_err();
    match err {
        bpu::BpuError::BsvError(_) => {}
        _ => panic!("expected the decoder error"),
    }
}

#[test]
fn protocol_presets_parse_a_raw_tx() {
    let mut out_script = bsv::Script::default();
    out_script.push(bsv::ScriptBit::OpCode(bsv::OpCodes::OP_RETURN));
    out_script.push(bsv::ScriptBit::Push(b"x".to_vec()));
    let txout = bsv::TxOut::new(0, &out_script);
    let mut tx = bsv::Transaction::new(1, 0);
    tx.add_output(&txout);
    let hex = tx.to_hex().unwrap();

    let b = bpu::BOB::from_raw_tx(&hex).unwrap();
    assert_eq!(b.outputs[0].tape.len(), 2);
    assert_eq!(b.outputs[0].tape[0].cell[0].ops.as_deref(), Some("OP_RETURN"));
    let c = bpu::Bitcom::from_raw_tx(&hex).unwrap();
    assert_eq!(c.outputs[0].tape.len(), 2);
    let d = bpu::protocols::ord::Ord::from_raw_tx(&hex).unwrap();
    assert_eq!(d.outputs[0].tape.len(), 2);
}

#[test]
fn collect_with_absent_hook_equals_plain_collect() {
    let hash = [7u8; 20];
    let tx = input_with_script(vec![ScriptToken::Push(vec![1]), ScriptToken::Push(hash.to_vec())]);
    let plain = BPU::collect(&tx, pipe_config()).unwrap();
    let tx2 = input_with_script(vec![ScriptToken::Push(vec![1]), ScriptToken::Push(hash.to_vec())]);
    let hooked = BPU::collect_with(&tx2, pipe_config(), &bpu::NoTransform).unwrap();
    assert_eq!(plain.inputs.len(), hooked.inputs.len());
    assert_eq!(plain.lock, hooked.lock);
    for (a, b) in plain.inputs.iter().zip(hooked.inputs.iter()) {
        assert_eq!(a.i, b.i);
        assert_eq!(a.tape.len(), b.tape.len());
        for (ta, tb) in a.tape.iter().zip(b.tape.iter()) {
            assert_eq!(ta.i, tb.i);
            assert_eq!(ta.cell.len(), tb.cell.len());
            for (x, y) in ta.cell.iter().zip(tb.cell.iter()) {
                assert_eq!(x.b, y.b);
                assert_eq!(x.s, y.s);
                assert_eq!(x.ii, y.ii);
                assert_eq!(x.i, y.i);
            }
        }
        let ea = a.e.as_ref().unwrap();
        let eb = b.e.as_ref().unwrap();
        assert_eq!(ea.a, eb.a);
        assert_eq!(ea.h, eb.h);
    }
}

#[test]
fn from_raw_tx_with_absent_hook_parses_too() {
    let mut out_script = bsv::Script::default();
    out_script.push(bsv::ScriptBit::OpCode(bsv::OpCodes::OP_RETURN));
    out_script.push(bsv::ScriptBit::Push(b"x".to_vec()));
    let txout = bsv::TxOut::new(0, &out_script);
    let mut tx = bsv::Transaction::new(1, 9);
    tx.add_output(&txout);
    let hex = tx.to_hex().unwrap();
    let hooked = BPU::from_raw_tx_with(&hex, pipe_config(), &bpu::NoTransform).unwrap();
    assert_eq!(hooked.lock, Some(9));
    assert_eq!(hooked.outputs[0].tape.len(), 2);
    assert_eq!(hooked.outputs[0].tape[0].cell[0].ops.as_deref(), Some("OP_RETURN"));
}
