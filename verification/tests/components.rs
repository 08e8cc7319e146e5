use bpu::{clone_tokens, Include, IndexCounter, ScriptToken, SplitConfig, Token, BPU, IO};

#[test]
fn io_new_sets_position_and_empty_tapes() {
    let io = IO::new(4);
    assert_eq!(io.i, 4);
    assert!(io.tape.is_empty());
    assert!(io.e.is_none());
    assert!(io.seq.is_none());
}

#[test]
fn index_counter_new_zeroes_all_but_outer() {
    let c = IndexCounter::new(9);
    assert_eq!(c.outer_index, 9);
    assert_eq!(c.tape_index, 0);
    assert_eq!(c.cell_index, 0);
    assert_eq!(c.chunk_index, 0);
}

#[test]
fn clone_tokens_copies_a_conditional_tree() {
    let tokens = vec![ScriptToken::Conditional {
        condition: 99,
        then_branch: vec![ScriptToken::Push(vec![1, 2, 3])],
        else_branch: Some(vec![ScriptToken::OpCode(81)]),
    }];
    let copied = clone_tokens(&tokens);
    assert_eq!(copied.len(), 1);
    match &copied[0] {
        ScriptToken::Conditional { condition, then_branch, else_branch } => {
            assert_eq!(*condition, 99);
            match &then_branch[0] {
                ScriptToken::Push(b) => assert_eq!(b, &vec![1, 2, 3]),
                _ => panic!("expected a push"),
            }
            assert!(else_branch.is_some());
        }
        _ => panic!("expected a conditional"),
    }
}

#[test]
fn extract_cells_drives_one_left_split() {
    let rules = vec![SplitConfig {
        policy: Include::Left,
        token: Token { op: Some(106), ops: None, b: None, s: None },
    }];
    let mut limb = IO::new(0);
    let mut counter = IndexCounter::new(0);
    let mut group = Vec::new();
    let tokens = vec![ScriptToken::Push(vec![97]), ScriptToken::OpCode(106)];
    for (k, chunk) in tokens.iter().enumerate() {
        counter.chunk_index = k;
        BPU::extract_cells(&mut limb, &mut group, &mut counter, chunk, &rules);
    }
    assert!(group.is_empty());
    assert_eq!(counter.tape_index, 1);
    assert_eq!(limb.tape.len(), 1);
    assert_eq!(limb.tape[0].cell.len(), 2);
    assert_eq!(limb.tape[0].cell[1].op, Some(106));
}
