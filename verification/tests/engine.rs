use bpu::{flatten_script_bits, split_script_tapes, Include, ScriptToken, SplitConfig, Token};

fn pipe_left_return_left() -> Vec<SplitConfig> {
    vec![
        SplitConfig {
            policy: Include::Left,
            token: Token { op: None, ops: None, b: None, s: Some("|".to_string()) },
        },
        SplitConfig {
            policy: Include::Left,
            token: Token { op: Some(106), ops: None, b: None, s: None },
        },
    ]
}

fn push(text: &str) -> ScriptToken {
    ScriptToken::Push(text.as_bytes().to_vec())
}

#[test]
fn flatten_without_conditionals_is_identity() {
    let tokens = vec![push("a"), ScriptToken::OpCode(106), push("b")];
    let flat = flatten_script_bits(&tokens);
    assert_eq!(flat.len(), 3);
    match &flat[0] {
        ScriptToken::Push(b) => assert_eq!(b, b"a"),
        _ => panic!("expected a push"),
    }
    match &flat[1] {
        ScriptToken::OpCode(c) => assert_eq!(*c, 106),
        _ => panic!("expected an opcode"),
    }
    match &flat[2] {
        ScriptToken::Push(b) => assert_eq!(b, b"b"),
        _ => panic!("expected a push"),
    }
}

#[test]
fn flatten_inserts_markers_for_conditional() {
    let tokens = vec![
        push("a"),
        ScriptToken::Conditional {
            condition: 99,
            then_branch: vec![push("x")],
            else_branch: Some(vec![push("y")]),
        },
    ];
    let flat = flatten_script_bits(&tokens);
    let expected: Vec<(Option<u8>, Option<&[u8]>)> = vec![
        (None, Some(b"a")),
        (Some(99), None),
        (None, Some(b"x")),
        (Some(103), None),
        (None, Some(b"y")),
        (Some(104), None),
    ];
    assert_eq!(flat.len(), expected.len());
    for (tok, (op, data)) in flat.iter().zip(expected.iter()) {
        match tok {
            ScriptToken::OpCode(c) => assert_eq!(Some(*c), *op),
            ScriptToken::Push(b) => assert_eq!(Some(b.as_slice()), *data),
            _ => panic!("conditional left in flattened stream"),
        }
    }
}

#[test]
fn flatten_nested_conditional_without_else() {
    let tokens = vec![ScriptToken::Conditional {
        condition: 100,
        then_branch: vec![ScriptToken::Conditional {
            condition: 99,
            then_branch: vec![push("z")],
            else_branch: None,
        }],
        else_branch: None,
    }];
    let flat = flatten_script_bits(&tokens);
    let ops: Vec<Option<u8>> = flat
        .iter()
        .map(|t| match t {
            ScriptToken::OpCode(c) => Some(*c),
            _ => None,
        })
        .collect();
    assert_eq!(ops, vec![Some(100), Some(99), None, Some(104), Some(104)]);
}

#[test]
fn left_left_walk_yields_three_tapes() {
    let tokens = vec![
        push("a"),
        ScriptToken::OpCode(106),
        push("b"),
        push("|"),
        push("c"),
    ];
    let tapes = split_script_tapes(&tokens, &pipe_left_return_left());
    assert_eq!(tapes.len(), 3);

    assert_eq!(tapes[0].i, 0);
    assert_eq!(tapes[0].cell.len(), 2);
    assert_eq!(tapes[0].cell[0].s.as_deref(), Some("a"));
    assert_eq!(tapes[0].cell[0].b.as_deref(), Some(b"a".as_slice()));
    assert_eq!(tapes[0].cell[0].ii, 0);
    assert_eq!(tapes[0].cell[0].i, 0);
    assert_eq!(tapes[0].cell[1].op, Some(106));
    assert_eq!(tapes[0].cell[1].ops.as_deref(), Some("OP_RETURN"));
    assert_eq!(tapes[0].cell[1].ii, 1);
    assert_eq!(tapes[0].cell[1].i, 1);

    assert_eq!(tapes[1].i, 1);
    assert_eq!(tapes[1].cell.len(), 2);
    assert_eq!(tapes[1].cell[0].s.as_deref(), Some("b"));
    assert_eq!(tapes[1].cell[0].ii, 2);
    assert_eq!(tapes[1].cell[0].i, 0);
    assert_eq!(tapes[1].cell[1].s.as_deref(), Some("|"));
    assert_eq!(tapes[1].cell[1].ii, 3);
    assert_eq!(tapes[1].cell[1].i, 1);

    assert_eq!(tapes[2].i, 2);
    assert_eq!(tapes[2].cell.len(), 1);
    assert_eq!(tapes[2].cell[0].s.as_deref(), Some("c"));
    assert_eq!(tapes[2].cell[0].ii, 4);
    assert_eq!(tapes[2].cell[0].i, 0);
}

#[test]
fn right_policy_keeps_stale_cell_index() {
    let rules = vec![SplitConfig {
        policy: Include::Right,
        token: Token { op: Some(106), ops: None, b: None, s: None },
    }];
    let tokens = vec![push("a"), ScriptToken::OpCode(106), push("b")];
    let tapes = split_script_tapes(&tokens, &rules);
    assert_eq!(tapes.len(), 2);
    assert_eq!(tapes[0].i, 0);
    assert_eq!(tapes[0].cell.len(), 1);
    assert_eq!(tapes[0].cell[0].s.as_deref(), Some("a"));
    assert_eq!(tapes[1].i, 1);
    assert_eq!(tapes[1].cell.len(), 2);
    assert_eq!(tapes[1].cell[0].op, Some(106));
    // the delimiter keeps the stale pre-flush group index
    assert_eq!(tapes[1].cell[0].i, 1);
    assert_eq!(tapes[1].cell[1].s.as_deref(), Some("b"));
    assert_eq!(tapes[1].cell[1].i, 1);
}

#[test]
fn center_policy_isolates_delimiter_and_reuses_tape_index() {
    let rules = vec![SplitConfig {
        policy: Include::Center,
        token: Token { op: Some(106), ops: None, b: None, s: None },
    }];
    let tokens = vec![push("a"), ScriptToken::OpCode(106), push("b")];
    let tapes = split_script_tapes(&tokens, &rules);
    assert_eq!(tapes.len(), 3);
    assert_eq!(tapes[0].i, 0);
    assert_eq!(tapes[0].cell.len(), 1);
    assert_eq!(tapes[1].i, 1);
    assert_eq!(tapes[1].cell.len(), 1);
    assert_eq!(tapes[1].cell[0].op, Some(106));
    assert_eq!(tapes[1].cell[0].i, 0);
    // the running tape index advanced only once: the next tape reuses it
    assert_eq!(tapes[2].i, 1);
    assert_eq!(tapes[2].cell.len(), 1);
    assert_eq!(tapes[2].cell[0].s.as_deref(), Some("b"));
}

#[test]
fn matching_by_opcode_name_splits_too() {
    let rules = vec![SplitConfig {
        policy: Include::Left,
        token: Token { op: None, ops: Some("OP_RETURN".to_string()), b: None, s: None },
    }];
    let tokens = vec![push("a"), ScriptToken::OpCode(106), push("b")];
    let tapes = split_script_tapes(&tokens, &rules);
    assert_eq!(tapes.len(), 2);
    assert_eq!(tapes[0].cell.len(), 2);
    assert_eq!(tapes[1].cell.len(), 1);
}

#[test]
fn last_matching_rule_wins() {
    let rules = vec![
        SplitConfig {
            policy: Include::Left,
            token: Token { op: Some(106), ops: None, b: None, s: None },
        },
        SplitConfig {
            policy: Include::Center,
            token: Token { op: Some(106), ops: None, b: None, s: None },
        },
    ];
    let tokens = vec![push("a"), ScriptToken::OpCode(106)];
    let tapes = split_script_tapes(&tokens, &rules);
    // Center won: the delimiter sits alone in its own tape
    assert_eq!(tapes.len(), 2);
    assert_eq!(tapes[1].cell.len(), 1);
    assert_eq!(tapes[1].cell[0].op, Some(106));
}

#[test]
fn unnamed_opcode_has_no_name_cell() {
    let tokens = vec![ScriptToken::OpCode(2)];
    let tapes = split_script_tapes(&tokens, &Vec::new());
    assert_eq!(tapes.len(), 1);
    assert_eq!(tapes[0].cell[0].op, Some(2));
    assert_eq!(tapes[0].cell[0].ops, None);
}

#[test]
fn invalid_utf8_push_gets_lossy_text() {
    let tokens = vec![ScriptToken::Push(vec![0xff, 0x61])];
    let tapes = split_script_tapes(&tokens, &Vec::new());
    assert_eq!(tapes.len(), 1);
    assert_eq!(tapes[0].cell[0].b.as_deref(), Some([0xff, 0x61].as_slice()));
    assert_eq!(tapes[0].cell[0].s.as_deref(), Some("\u{FFFD}a"));
}

#[test]
fn absent_transform_hook_changes_nothing() {
    let tokens = vec![
        push("a"),
        ScriptToken::OpCode(106),
        push("b"),
        push("|"),
        push("c"),
    ];
    let rules = pipe_left_return_left();
    let plain = split_script_tapes(&tokens, &rules);
    let hooked = bpu::split_script_tapes_with(&tokens, &rules, &bpu::NoTransform);
    assert_eq!(plain.len(), hooked.len());
    for (a, b) in plain.iter().zip(hooked.iter()) {
        assert_eq!(a.i, b.i);
        assert_eq!(a.cell.len(), b.cell.len());
        for (x, y) in a.cell.iter().zip(b.cell.iter()) {
            assert_eq!(x.op, y.op);
            assert_eq!(x.ops, y.ops);
            assert_eq!(x.b, y.b);
            assert_eq!(x.s, y.s);
            assert_eq!(x.ii, y.ii);
            assert_eq!(x.i, y.i);
        }
    }
}
