use bpu::{BMapManager, BpuError, ScriptToken, TxData, TxOutputData};

fn envelope_script() -> Vec<ScriptToken> {
    vec![
        ScriptToken::OpCode(118),
        ScriptToken::OpCode(169),
        ScriptToken::Push(vec![7; 20]),
        ScriptToken::OpCode(136),
        ScriptToken::OpCode(172),
        ScriptToken::OpCode(0),
        ScriptToken::Conditional {
            condition: 99,
            then_branch: vec![
                ScriptToken::Push(b"ord".to_vec()),
                ScriptToken::OpCode(81),
                ScriptToken::Push(b"text/plain".to_vec()),
                ScriptToken::OpCode(0),
                ScriptToken::Push(b"hello".to_vec()),
            ],
            else_branch: None,
        },
    ]
}

fn tx_with_outputs(scripts: Vec<Vec<ScriptToken>>) -> TxData {
    TxData {
        txid: None,
        locktime: 0,
        inputs: vec![],
        outputs: scripts
            .into_iter()
            .map(|script| TxOutputData { script, satoshis: 1 })
            .collect(),
    }
}

fn fresh_manager() -> BMapManager {
    BMapManager { timestamp: 0, ord: vec![] }
}

#[test]
fn envelope_extraction_yields_content_type_and_payload() {
    let tx = tx_with_outputs(vec![envelope_script()]);
    let mut bmap = fresh_manager();
    bpu::protocols::ord::Ord::handler(&tx, &mut bmap).unwrap();
    assert_eq!(bmap.ord.len(), 1);
    assert_eq!(bmap.ord[0].content_type, "text/plain");
    assert_eq!(bmap.ord[0].data, b"hello".to_vec());
}

#[test]
fn envelope_not_found_is_a_classified_error() {
    let tx = tx_with_outputs(vec![
        vec![ScriptToken::OpCode(106), ScriptToken::Push(b"plain".to_vec())],
        vec![ScriptToken::Push(b"data".to_vec())],
    ]);
    let mut bmap = fresh_manager();
    let err = bpu::protocols::ord::Ord::handler(&tx, &mut bmap).unwrap_err();
    match err {
        BpuError::CustomError(m) => assert_eq!(m, "Invalid Ord tx. Script not found."),
        _ => panic!("expected the classified not-found error"),
    }
    assert_eq!(bmap.ord.len(), 0);
}

#[test]
fn envelope_without_false_marker_is_not_found() {
    let mut script = envelope_script();
    // replace the false marker before the conditional with another opcode
    script[5] = ScriptToken::OpCode(81);
    let tx = tx_with_outputs(vec![script]);
    let mut bmap = fresh_manager();
    assert!(bpu::protocols::ord::Ord::handler(&tx, &mut bmap).is_err());
}

#[test]
fn envelope_with_wrong_tag_is_not_found() {
    let mut script = envelope_script();
    if let ScriptToken::Conditional { then_branch, .. } = &mut script[6] {
        then_branch[0] = ScriptToken::Push(b"orq".to_vec());
    }
    let tx = tx_with_outputs(vec![script]);
    let mut bmap = fresh_manager();
    assert!(bpu::protocols::ord::Ord::handler(&tx, &mut bmap).is_err());
}

#[test]
fn partial_envelope_is_skipped_silently() {
    let mut script = envelope_script();
    if let ScriptToken::Conditional { then_branch, .. } = &mut script[6] {
        // drop the data marker and its payload: only the content type is left
        then_branch.truncate(3);
    }
    let tx = tx_with_outputs(vec![script]);
    let mut bmap = fresh_manager();
    // the output still qualifies, so the handler succeeds, but no record lands
    bpu::protocols::ord::Ord::handler(&tx, &mut bmap).unwrap();
    assert_eq!(bmap.ord.len(), 0);
}

#[test]
fn first_qualifying_output_wins() {
    let plain = vec![ScriptToken::Push(b"x".to_vec())];
    let tx = tx_with_outputs(vec![plain, envelope_script()]);
    let mut bmap = fresh_manager();
    bpu::protocols::ord::Ord::handler(&tx, &mut bmap).unwrap();
    assert_eq!(bmap.ord.len(), 1);
    assert_eq!(bmap.ord[0].content_type, "text/plain");
}

#[test]
fn script_checker_accepts_the_envelope_shape() {
    assert!(bpu::protocols::ord::Ord::script_checker(&envelope_script()));
}

#[test]
fn script_checker_rejects_leading_conditional() {
    let script = vec![ScriptToken::Conditional {
        condition: 99,
        then_branch: vec![ScriptToken::Push(b"ord".to_vec())],
        else_branch: None,
    }];
    assert!(!bpu::protocols::ord::Ord::script_checker(&script));
}

#[test]
fn get_ord_script_returns_the_designated_element() {
    let tx = tx_with_outputs(vec![envelope_script()]);
    let (pos, sub) = bpu::protocols::ord::Ord::get_ord_script(&tx).unwrap();
    assert_eq!(pos, 0);
    assert_eq!(sub.len(), 1);
    match &sub[0] {
        ScriptToken::Conditional { condition, then_branch, .. } => {
            assert_eq!(*condition, 99);
            assert_eq!(then_branch.len(), 5);
        }
        _ => panic!("expected the conditional element"),
    }
}

#[test]
fn handler_finds_the_envelope_in_a_decoded_raw_tx() {
    let mut script = bsv::Script::default();
    script.push(bsv::ScriptBit::OpCode(bsv::OpCodes::OP_DUP));
    script.push(bsv::ScriptBit::OpCode(bsv::OpCodes::OP_HASH160));
    script.push(bsv::ScriptBit::Push(vec![7; 20]));
    script.push(bsv::ScriptBit::OpCode(bsv::OpCodes::OP_EQUALVERIFY));
    script.push(bsv::ScriptBit::OpCode(bsv::OpCodes::OP_CHECKSIG));
    script.push(bsv::ScriptBit::OpCode(bsv::OpCodes::OP_0));
    script.push(bsv::ScriptBit::If {
        code: bsv::OpCodes::OP_IF,
        pass: vec![
            bsv::ScriptBit::Push(b"ord".to_vec()),
            bsv::ScriptBit::OpCode(bsv::OpCodes::OP_1),
            bsv::ScriptBit::Push(b"text/plain".to_vec()),
            bsv::ScriptBit::OpCode(bsv::OpCodes::OP_0),
            bsv::ScriptBit::Push(b"hello".to_vec()),
        ],
        fail: None,
    });
    let txout = bsv::TxOut::new(1, &script);
    let mut tx = bsv::Transaction::new(1, 0);
    tx.add_output(&txout);
    let hex = tx.to_hex().unwrap();

    let decoded = bpu::decode_raw_tx(&hex).unwrap();
    let mut bmap = fresh_manager();
    bpu::protocols::ord::Ord::handler(&decoded, &mut bmap).unwrap();
    assert_eq!(bmap.ord.len(), 1);
    assert_eq!(bmap.ord[0].content_type, "text/plain");
    assert_eq!(bmap.ord[0].data, b"hello".to_vec());
}
