use vstd::prelude::*;

use crate::components::ScriptTokenV;
use crate::components::SplitConfigV;
use crate::components::Include;
use crate::components::CellV;
use crate::components::TapeV;
use crate::bpu::cell_of_token;
use crate::bpu::splitter_of;
use crate::bpu::SplitStateV;
use crate::bpu::init_split_state;
use crate::bpu::split_step;
use crate::bpu::split_run;
use crate::bpu::split_finish;
use crate::bpu::split_tapes;
use crate::bpu::lemma_split_run_snoc;
use crate::bpu::spec_flatten;
use crate::bpu::spec_flatten_one;
use crate::bpu::spec_input_address;
use crate::bpu::no_address;
use crate::components::OP_IF;
use crate::components::OP_NOTIF;
use crate::components::OP_ELSE;
use crate::components::OP_ENDIF;

verus! {

/// The cells of a tape list, in tape order then intra-tape order.
pub open spec fn tapes_cells(tapes: Seq<TapeV>) -> Seq<CellV>
    decreases tapes,
{
    if tapes.len() == 0 {
        Seq::empty()
    } else {
        tapes[0].cell + tapes_cells(tapes.drop_first())
    }
}

/// A cell that records the given token at the given stream position,
/// whatever its intra-tape index.
pub open spec fn cell_matches(c: CellV, t: ScriptTokenV, chunk: int) -> bool {
    c == cell_of_token(t, chunk, c.i)
}

/// `tapes_cells` of a pushed tape.
pub proof fn lemma_tapes_cells_push(ts: Seq<TapeV>, tp: TapeV)
    ensures
        tapes_cells(ts.push(tp)) == tapes_cells(ts) + tp.cell,
    decreases ts.len(),
{
    if ts.len() == 0 {
        reveal_with_fuel(tapes_cells, 2);
        assert(ts.push(tp)[0] == tp);
        assert(ts.push(tp).drop_first() =~= Seq::<TapeV>::empty());
        assert(tapes_cells(ts.push(tp)) =~= tapes_cells(ts) + tp.cell);
    } else {
        assert(ts.push(tp)[0] == ts[0]);
        assert(ts.push(tp).drop_first() =~= ts.drop_first().push(tp));
        lemma_tapes_cells_push(ts.drop_first(), tp);
        assert(ts[0].cell + (tapes_cells(ts.drop_first()) + tp.cell)
            =~= (ts[0].cell + tapes_cells(ts.drop_first())) + tp.cell);
    }
}

/// The concatenated cells of a state: flushed tapes first, then the
/// accumulating group.
pub open spec fn state_cells(st: SplitStateV) -> Seq<CellV> {
    tapes_cells(st.tapes) + st.group
}

/// One step appends exactly one cell, recording the consumed token at
/// its stream position, to the concatenation.
pub proof fn lemma_step_cells(st: SplitStateV, t: ScriptTokenV, chunk: int, rules: Seq<SplitConfigV>)
    ensures
        state_cells(split_step(st, t, chunk, rules)).len() == state_cells(st).len() + 1,
        state_cells(split_step(st, t, chunk, rules)) == state_cells(st).push(
            state_cells(split_step(st, t, chunk, rules)).last(),
        ),
        cell_matches(state_cells(split_step(st, t, chunk, rules)).last(), t, chunk),
{
    let st1 = split_step(st, t, chunk, rules);
    match splitter_of(rules, t) {
        None => {
            assert(state_cells(st1) =~= state_cells(st).push(cell_of_token(t, chunk, st.cell_index)));
        },
        Some(Include::Left) => {
            lemma_tapes_cells_push(
                st.tapes,
                TapeV { cell: st.group.push(cell_of_token(t, chunk, st.cell_index)), i: st.tape_index },
            );
            assert(state_cells(st1) =~= state_cells(st).push(cell_of_token(t, chunk, st.cell_index)));
        },
        Some(Include::Right) => {
            lemma_tapes_cells_push(st.tapes, TapeV { cell: st.group, i: st.tape_index });
            assert(state_cells(st1) =~= state_cells(st).push(cell_of_token(t, chunk, st.cell_index)));
        },
        Some(Include::Center) => {
            lemma_tapes_cells_push(st.tapes, TapeV { cell: st.group, i: st.tape_index });
            lemma_tapes_cells_push(
                st.tapes.push(TapeV { cell: st.group, i: st.tape_index }),
                TapeV { cell: seq![cell_of_token(t, chunk, 0)], i: st.tape_index + 1 },
            );
            assert(state_cells(st1) =~= state_cells(st).push(cell_of_token(t, chunk, 0)));
        },
    }
}

/// Over a whole run the concatenation grows by one matching cell per
/// token, and what was there before stays as an unchanged prefix.
pub proof fn lemma_run_cells(ts: Seq<ScriptTokenV>, rules: Seq<SplitConfigV>, st: SplitStateV, c0: int)
    ensures
        state_cells(split_run(ts, rules, st, c0)).len() == state_cells(st).len() + ts.len(),
        state_cells(split_run(ts, rules, st, c0)).take(state_cells(st).len() as int) == state_cells(st),
        forall|k: int| 0 <= k < ts.len() ==> cell_matches(
            #[trigger] state_cells(split_run(ts, rules, st, c0))[state_cells(st).len() + k],
            ts[k],
            c0 + k,
        ),
    decreases ts.len(),
{
    if ts.len() == 0 {
        assert(state_cells(st).take(state_cells(st).len() as int) =~= state_cells(st));
    } else {
        let st1 = split_step(st, ts[0], c0, rules);
        lemma_step_cells(st, ts[0], c0, rules);
        lemma_run_cells(ts.drop_first(), rules, st1, c0 + 1);
        let full = state_cells(split_run(ts, rules, st, c0));
        assert(split_run(ts, rules, st, c0) == split_run(ts.drop_first(), rules, st1, c0 + 1));
        assert(full.take(state_cells(st1).len() as int) == state_cells(st1));
        assert(state_cells(st).len() + 1 == state_cells(st1).len());
        assert forall|m: int| 0 <= m < state_cells(st).len() implies full[m] == state_cells(st)[m] by {
            assert(full.take(state_cells(st1).len() as int)[m] == full[m]);
            assert(state_cells(st1)[m] == state_cells(st).push(state_cells(st1).last())[m]);
        }
        assert(full.take(state_cells(st).len() as int) =~= state_cells(st));
        assert forall|k: int| 0 <= k < ts.len() implies cell_matches(
            full[state_cells(st).len() + k],
            ts[k],
            c0 + k,
        ) by {
            if k == 0 {
                assert(full.take(state_cells(st1).len() as int)[state_cells(st).len() as int]
                    == full[state_cells(st).len() as int]);
                assert(state_cells(st1)[state_cells(st).len() as int] == state_cells(st1).last());
            } else {
                assert(ts.drop_first()[k - 1] == ts[k]);
                assert(cell_matches(
                    full[state_cells(st1).len() + (k - 1)],
                    ts.drop_first()[k - 1],
                    c0 + 1 + (k - 1),
                ));
            }
        }
    }
}

/// Flushing the trailing group does not change the concatenation.
pub proof fn lemma_finish_cells(st: SplitStateV)
    ensures
        tapes_cells(split_finish(st)) == state_cells(st),
{
    if st.group.len() > 0 {
        lemma_tapes_cells_push(st.tapes, TapeV { cell: st.group, i: st.tape_index });
    } else {
        assert(tapes_cells(st.tapes) + st.group =~= tapes_cells(st.tapes));
    }
}

/// The concatenation of all cells across all emitted tapes, in tape
/// order then intra-tape order, reproduces the flattened token stream
/// exactly once each: cell `k` records token `k` at stream position `k`.
pub proof fn lemma_split_preserves_tokens(ts: Seq<ScriptTokenV>, rules: Seq<SplitConfigV>)
    ensures
        tapes_cells(split_tapes(ts, rules)).len() == ts.len(),
        forall|k: int| 0 <= k < ts.len() ==> cell_matches(
            #[trigger] tapes_cells(split_tapes(ts, rules))[k],
            ts[k],
            k,
        ),
{
    lemma_run_cells(ts, rules, init_split_state(), 0);
    lemma_finish_cells(split_run(ts, rules, init_split_state(), 0));
    assert(state_cells(init_split_state()) =~= Seq::<CellV>::empty());
    let run = split_run(ts, rules, init_split_state(), 0);
    assert forall|k: int| 0 <= k < ts.len() implies cell_matches(
        #[trigger] tapes_cells(split_tapes(ts, rules))[k],
        ts[k],
        k,
    ) by {
        assert(cell_matches(state_cells(run)[state_cells(init_split_state()).len() + k], ts[k], 0 + k));
        assert(tapes_cells(split_tapes(ts, rules))[k] == state_cells(run)[k]);
    }
}


/// A run only appends tapes: what was flushed stays, at its index.
pub proof fn lemma_run_tapes_prefix(ts: Seq<ScriptTokenV>, rules: Seq<SplitConfigV>, st: SplitStateV, c0: int)
    ensures
        st.tapes.len() <= split_run(ts, rules, st, c0).tapes.len(),
        forall|j: int| 0 <= j < st.tapes.len() ==> #[trigger] split_run(ts, rules, st, c0).tapes[j]
            == st.tapes[j],
    decreases ts.len(),
{
    if ts.len() > 0 {
        let st1 = split_step(st, ts[0], c0, rules);
        lemma_run_tapes_prefix(ts.drop_first(), rules, st1, c0 + 1);
    }
}

/// A run decomposes at any cut of its token stream.
pub proof fn lemma_run_concat(a: Seq<ScriptTokenV>, b: Seq<ScriptTokenV>, rules: Seq<SplitConfigV>, st: SplitStateV, c0: int)
    ensures
        split_run(a + b, rules, st, c0) == split_run(b, rules, split_run(a, rules, st, c0), c0 + a.len()),
    decreases a.len(),
{
    if a.len() == 0 {
        assert(a + b =~= b);
    } else {
        assert((a + b)[0] == a[0]);
        assert((a + b).drop_first() =~= a.drop_first() + b);
        lemma_run_concat(a.drop_first(), b, rules, split_step(st, a[0], c0, rules), c0 + 1);
    }
}

/// The first cell of a non-empty accumulating group ends up as the first
/// cell of some emitted tape.
pub proof fn lemma_group_first_survives(ts: Seq<ScriptTokenV>, rules: Seq<SplitConfigV>, st: SplitStateV, c0: int)
    requires
        st.group.len() > 0,
    ensures
        ({
            let tapes = split_finish(split_run(ts, rules, st, c0));
            exists|j: int| 0 <= j < tapes.len() && #[trigger] tapes[j].cell.len() > 0
                && tapes[j].cell[0] == st.group[0]
        }),
    decreases ts.len(),
{
    if ts.len() == 0 {
        let tapes = split_finish(split_run(ts, rules, st, c0));
        assert(split_run(ts, rules, st, c0) == st);
        let jw: int = tapes.len() - 1;
        assert(tapes[jw].cell.len() > 0 && tapes[jw].cell[0] == st.group[0]);
    } else {
        let st1 = split_step(st, ts[0], c0, rules);
        let tapes = split_finish(split_run(ts, rules, st, c0));
        assert(split_run(ts, rules, st, c0) == split_run(ts.drop_first(), rules, st1, c0 + 1));
        match splitter_of(rules, ts[0]) {
            None => {
                assert(st1.group[0] == st.group[0]);
                lemma_group_first_survives(ts.drop_first(), rules, st1, c0 + 1);
            },
            Some(Include::Left) => {
                let jj = st.tapes.len() as int;
                assert(st1.tapes[jj].cell[0] == st.group[0]);
                lemma_run_tapes_prefix(ts.drop_first(), rules, st1, c0 + 1);
                assert(tapes[jj].cell.len() > 0 && tapes[jj].cell[0] == st.group[0]);
            },
            Some(Include::Right) => {
                let jj = st.tapes.len() as int;
                assert(st1.tapes[jj].cell[0] == st.group[0]);
                lemma_run_tapes_prefix(ts.drop_first(), rules, st1, c0 + 1);
                assert(tapes[jj].cell.len() > 0 && tapes[jj].cell[0] == st.group[0]);
            },
            Some(Include::Center) => {
                let jj = st.tapes.len() as int;
                assert(st1.tapes[jj].cell[0] == st.group[0]);
                lemma_run_tapes_prefix(ts.drop_first(), rules, st1, c0 + 1);
                assert(tapes[jj].cell.len() > 0 && tapes[jj].cell[0] == st.group[0]);
            },
        }
    }
}

/// Left policy: the delimiter's cell is the last cell of the tape it
/// terminates.
pub proof fn lemma_left_policy(ts: Seq<ScriptTokenV>, rules: Seq<SplitConfigV>, k: int)
    requires
        0 <= k < ts.len(),
        splitter_of(rules, ts[k]) == Some(Include::Left),
    ensures
        ({
            let tapes = split_tapes(ts, rules);
            exists|j: int| 0 <= j < tapes.len() && #[trigger] tapes[j].cell.len() > 0
                && cell_matches(tapes[j].cell.last(), ts[k], k)
        }),
{
    let stk = split_run(ts.take(k), rules, init_split_state(), 0);
    assert(ts.take(k + 1) =~= ts.take(k).push(ts[k]));
    lemma_split_run_snoc(ts.take(k), rules, init_split_state(), 0, ts[k]);
    let st1 = split_step(stk, ts[k], k, rules);
    assert(split_run(ts.take(k + 1), rules, init_split_state(), 0) == st1);
    assert(ts =~= ts.take(k + 1) + ts.skip(k + 1));
    lemma_run_concat(ts.take(k + 1), ts.skip(k + 1), rules, init_split_state(), 0);
    lemma_run_tapes_prefix(ts.skip(k + 1), rules, st1, k + 1);
    let tapes = split_tapes(ts, rules);
    let jj = st1.tapes.len() - 1;
    let dcell = cell_of_token(ts[k], k, stk.cell_index);
    assert(st1.tapes[jj].cell.last() == dcell);
    assert(tapes[jj] == st1.tapes[jj]);
    assert(tapes[jj].cell.len() > 0 && cell_matches(tapes[jj].cell.last(), ts[k], k));
}

/// Center policy: the delimiter gets a singleton tape of its own, and a
/// tape flushed at the same moment stands directly before it.
pub proof fn lemma_center_policy(ts: Seq<ScriptTokenV>, rules: Seq<SplitConfigV>, k: int)
    requires
        0 <= k < ts.len(),
        splitter_of(rules, ts[k]) == Some(Include::Center),
    ensures
        ({
            let tapes = split_tapes(ts, rules);
            exists|j: int| 1 <= j < tapes.len() && #[trigger] tapes[j].cell.len() == 1
                && cell_matches(tapes[j].cell[0], ts[k], k) && tapes[j - 1].i + 1 == tapes[j].i
        }),
{
    let stk = split_run(ts.take(k), rules, init_split_state(), 0);
    assert(ts.take(k + 1) =~= ts.take(k).push(ts[k]));
    lemma_split_run_snoc(ts.take(k), rules, init_split_state(), 0, ts[k]);
    let st1 = split_step(stk, ts[k], k, rules);
    assert(ts =~= ts.take(k + 1) + ts.skip(k + 1));
    lemma_run_concat(ts.take(k + 1), ts.skip(k + 1), rules, init_split_state(), 0);
    lemma_run_tapes_prefix(ts.skip(k + 1), rules, st1, k + 1);
    let tapes = split_tapes(ts, rules);
    let jj = st1.tapes.len() - 1;
    let dcell = cell_of_token(ts[k], k, 0);
    assert(st1.tapes[jj].cell =~= seq![dcell]);
    assert(tapes[jj] == st1.tapes[jj]);
    assert(tapes[jj - 1] == st1.tapes[jj - 1]);
    assert(jj >= 1);
    assert(tapes[jj].cell.len() == 1 && cell_matches(tapes[jj].cell[0], ts[k], k)
        && tapes[jj - 1].i + 1 == tapes[jj].i);
}

/// No cell recorded at stream position `k` stands anywhere but first in
/// its tape or group.
pub open spec fn no_merged_at(st: SplitStateV, k: int) -> bool {
    (forall|j: int, m: int| 0 <= j < st.tapes.len() && 1 <= m < st.tapes[j].cell.len()
        ==> #[trigger] st.tapes[j].cell[m].ii != k)
    && (forall|m: int| 1 <= m < st.group.len() ==> #[trigger] st.group[m].ii != k)
}

/// The same, over finished tapes.
pub open spec fn no_merged_tapes(tapes: Seq<TapeV>, k: int) -> bool {
    forall|j: int, m: int| 0 <= j < tapes.len() && 1 <= m < tapes[j].cell.len()
        ==> #[trigger] tapes[j].cell[m].ii != k
}

proof fn lemma_right_no_merge_run(ts: Seq<ScriptTokenV>, rules: Seq<SplitConfigV>, st: SplitStateV, c0: int, k: int)
    requires
        no_merged_at(st, k),
        c0 <= k < c0 + ts.len() ==> splitter_of(rules, ts[k - c0]) == Some(Include::Right),
    ensures
        no_merged_tapes(split_finish(split_run(ts, rules, st, c0)), k),
    decreases ts.len(),
{
    if ts.len() == 0 {
        let tapes = split_finish(split_run(ts, rules, st, c0));
        assert(split_run(ts, rules, st, c0) == st);
        assert forall|j: int, m: int| 0 <= j < tapes.len() && 1 <= m < tapes[j].cell.len()
            implies #[trigger] tapes[j].cell[m].ii != k by {
            if j < st.tapes.len() {
                assert(st.tapes[j].cell[m].ii != k);
            } else {
                assert(tapes[j].cell == st.group);
                assert(st.group[m].ii != k);
            }
        }
    } else {
        let st1 = split_step(st, ts[0], c0, rules);
        assert(cell_of_token(ts[0], c0, st.cell_index).ii == c0);
        assert(cell_of_token(ts[0], c0, 0).ii == c0);
        if c0 == k {
            assert(splitter_of(rules, ts[0]) == Some(Include::Right));
        }
        assert(no_merged_at(st1, k)) by {
            match splitter_of(rules, ts[0]) {
                None => {
                    assert(c0 != k || splitter_of(rules, ts[0]) == Some(Include::Right));
                    assert(c0 != k);
                },
                Some(Include::Left) => {
                    assert(c0 != k);
                },
                Some(Include::Right) => {},
                Some(Include::Center) => {},
            }
        }
        assert(c0 + 1 <= k < c0 + 1 + ts.drop_first().len() ==> splitter_of(
            rules,
            ts.drop_first()[k - (c0 + 1)],
        ) == Some(Include::Right)) by {
            if c0 + 1 <= k < c0 + 1 + ts.drop_first().len() {
                assert(ts.drop_first()[k - (c0 + 1)] == ts[k - c0]);
            }
        }
        lemma_right_no_merge_run(ts.drop_first(), rules, st1, c0 + 1, k);
        assert(split_run(ts, rules, st, c0) == split_run(ts.drop_first(), rules, st1, c0 + 1));
    }
}

/// Right policy: the delimiter's cell opens its own tape, and never
/// stands anywhere but first, so the tape it closes does not contain it.
pub proof fn lemma_right_policy(ts: Seq<ScriptTokenV>, rules: Seq<SplitConfigV>, k: int)
    requires
        0 <= k < ts.len(),
        splitter_of(rules, ts[k]) == Some(Include::Right),
    ensures
        ({
            let tapes = split_tapes(ts, rules);
            exists|j: int| 0 <= j < tapes.len() && #[trigger] tapes[j].cell.len() > 0
                && cell_matches(tapes[j].cell[0], ts[k], k)
        }),
        no_merged_tapes(split_tapes(ts, rules), k),
{
    let stk = split_run(ts.take(k), rules, init_split_state(), 0);
    assert(ts.take(k + 1) =~= ts.take(k).push(ts[k]));
    lemma_split_run_snoc(ts.take(k), rules, init_split_state(), 0, ts[k]);
    let st1 = split_step(stk, ts[k], k, rules);
    assert(ts =~= ts.take(k + 1) + ts.skip(k + 1));
    lemma_run_concat(ts.take(k + 1), ts.skip(k + 1), rules, init_split_state(), 0);
    let dcell = cell_of_token(ts[k], k, stk.cell_index);
    assert(st1.group[0] == dcell);
    lemma_group_first_survives(ts.skip(k + 1), rules, st1, k + 1);
    let tapes = split_tapes(ts, rules);
    assert(cell_matches(dcell, ts[k], k));
    assert(no_merged_at(init_split_state(), k));
    lemma_right_no_merge_run(ts, rules, init_split_state(), 0, k);
}


/// An unlocking script whose second element is a push of neither 33 nor
/// 20 bytes resolves to the sentinel, never to an error.
pub proof fn lemma_address_sentinel(script: Seq<ScriptTokenV>)
    requires
        script.len() > 1,
        script[1] matches ScriptTokenV::Push(b) && b.len() != 33 && b.len() != 20,
    ensures
        spec_input_address(script) == no_address(),
{
}

/// A token tree whose conditionals carry a recognised condition opcode
/// and whose plain opcodes never collide with the markers.
pub open spec fn wf_token(t: ScriptTokenV) -> bool
    decreases t,
{
    match t {
        ScriptTokenV::OpCode(c) => c != OP_IF && c != OP_NOTIF && c != OP_ELSE && c != OP_ENDIF,
        ScriptTokenV::Push(_) => true,
        ScriptTokenV::Conditional { condition, then_branch, else_branch } => (condition == OP_IF
            || condition == OP_NOTIF) && wf_tokens(then_branch) && (match else_branch {
            Some(eb) => wf_tokens(eb),
            None => true,
        }),
    }
}

/// A sequence of well-formed tokens.
pub open spec fn wf_tokens(ts: Seq<ScriptTokenV>) -> bool
    decreases ts,
{
    if ts.len() == 0 {
        true
    } else {
        wf_token(ts[0]) && wf_tokens(ts.drop_first())
    }
}

/// One suspended conditional while markers are re-located: its condition,
/// its finished then-branch when the alternative marker has passed, and
/// the tokens of the enclosing level.
pub struct UnflatFrame {
    pub condition: u8,
    pub then_done: Option<Seq<ScriptTokenV>>,
    pub outer: Seq<ScriptTokenV>,
}

/// Re-locates the synthetic markers of a flat stream, rebuilding the
/// conditional tree; `None` when the markers do not balance.
pub open spec fn unflatten_loop(
    s: Seq<ScriptTokenV>,
    cur: Seq<ScriptTokenV>,
    stack: Seq<UnflatFrame>,
) -> Option<Seq<ScriptTokenV>>
    decreases s.len(),
{
    if s.len() == 0 {
        if stack.len() == 0 {
            Some(cur)
        } else {
            None
        }
    } else {
        match s[0] {
            ScriptTokenV::OpCode(c) => if c == OP_IF || c == OP_NOTIF {
                unflatten_loop(
                    s.drop_first(),
                    Seq::empty(),
                    stack.push(UnflatFrame { condition: c, then_done: None, outer: cur }),
                )
            } else if c == OP_ELSE {
                if stack.len() > 0 && stack.last().then_done is None {
                    unflatten_loop(
                        s.drop_first(),
                        Seq::empty(),
                        stack.drop_last().push(
                            UnflatFrame {
                                condition: stack.last().condition,
                                then_done: Some(cur),
                                outer: stack.last().outer,
                            },
                        ),
                    )
                } else {
                    None
                }
            } else if c == OP_ENDIF {
                if stack.len() > 0 {
                    let frame = stack.last();
                    let token = match frame.then_done {
                        Some(tb) => ScriptTokenV::Conditional {
                            condition: frame.condition,
                            then_branch: tb,
                            else_branch: Some(cur),
                        },
                        None => ScriptTokenV::Conditional {
                            condition: frame.condition,
                            then_branch: cur,
                            else_branch: None,
                        },
                    };
                    unflatten_loop(s.drop_first(), frame.outer.push(token), stack.drop_last())
                } else {
                    None
                }
            } else {
                unflatten_loop(s.drop_first(), cur.push(s[0]), stack)
            },
            _ => unflatten_loop(s.drop_first(), cur.push(s[0]), stack),
        }
    }
}

/// Re-locating the markers of a whole flat stream.
pub open spec fn unflatten(s: Seq<ScriptTokenV>) -> Option<Seq<ScriptTokenV>> {
    unflatten_loop(s, Seq::empty(), Seq::empty())
}

/// Consuming the linearization of one well-formed token appends exactly
/// that token to the current level.
proof fn lemma_unflatten_one(t: ScriptTokenV, rest: Seq<ScriptTokenV>, cur: Seq<ScriptTokenV>, stack: Seq<UnflatFrame>)
    requires
        wf_token(t),
    ensures
        unflatten_loop(spec_flatten_one(t) + rest, cur, stack) == unflatten_loop(
            rest,
            cur.push(t),
            stack,
        ),
    decreases t,
{
    match t {
        ScriptTokenV::OpCode(c) => {
            assert((spec_flatten_one(t) + rest)[0] == t);
            assert((spec_flatten_one(t) + rest).drop_first() =~= rest);
        },
        ScriptTokenV::Push(_) => {
            assert((spec_flatten_one(t) + rest)[0] == t);
            assert((spec_flatten_one(t) + rest).drop_first() =~= rest);
        },
        ScriptTokenV::Conditional { condition, then_branch, else_branch } => {
            let s0 = spec_flatten_one(t) + rest;
            assert(s0[0] == ScriptTokenV::OpCode(condition));
            match else_branch {
                Some(eb) => {
                    assert(s0.drop_first() =~= spec_flatten(then_branch) + (seq![
                        ScriptTokenV::OpCode(OP_ELSE),
                    ] + (spec_flatten(eb) + (seq![ScriptTokenV::OpCode(OP_ENDIF)] + rest))));
                    let stack1 = stack.push(
                        UnflatFrame { condition, then_done: None, outer: cur },
                    );
                    lemma_unflatten_seq(
                        then_branch,
                        seq![ScriptTokenV::OpCode(OP_ELSE)] + (spec_flatten(eb) + (seq![
                            ScriptTokenV::OpCode(OP_ENDIF),
                        ] + rest)),
                        Seq::empty(),
                        stack1,
                    );
                    let mid = seq![ScriptTokenV::OpCode(OP_ELSE)] + (spec_flatten(eb) + (seq![
                        ScriptTokenV::OpCode(OP_ENDIF),
                    ] + rest));
                    assert(Seq::<ScriptTokenV>::empty() + then_branch =~= then_branch);
                    assert(mid[0] == ScriptTokenV::OpCode(OP_ELSE));
                    assert(mid.drop_first() =~= spec_flatten(eb) + (seq![
                        ScriptTokenV::OpCode(OP_ENDIF),
                    ] + rest));
                    let stack2 = stack1.drop_last().push(
                        UnflatFrame { condition, then_done: Some(then_branch), outer: cur },
                    );
                    assert(stack1.drop_last() =~= stack);
                    lemma_unflatten_seq(
                        eb,
                        seq![ScriptTokenV::OpCode(OP_ENDIF)] + rest,
                        Seq::empty(),
                        stack2,
                    );
                    assert(Seq::<ScriptTokenV>::empty() + eb =~= eb);
                    let fin = seq![ScriptTokenV::OpCode(OP_ENDIF)] + rest;
                    assert(fin[0] == ScriptTokenV::OpCode(OP_ENDIF));
                    assert(fin.drop_first() =~= rest);
                    assert(stack2.len() > 0 && stack2.last() == UnflatFrame {
                        condition,
                        then_done: Some(then_branch),
                        outer: cur,
                    });
                    assert(stack2.drop_last() =~= stack);
                },
                None => {
                    assert(s0.drop_first() =~= spec_flatten(then_branch) + (seq![
                        ScriptTokenV::OpCode(OP_ENDIF),
                    ] + rest));
                    let stack1 = stack.push(
                        UnflatFrame { condition, then_done: None, outer: cur },
                    );
                    lemma_unflatten_seq(
                        then_branch,
                        seq![ScriptTokenV::OpCode(OP_ENDIF)] + rest,
                        Seq::empty(),
                        stack1,
                    );
                    assert(Seq::<ScriptTokenV>::empty() + then_branch =~= then_branch);
                    let fin = seq![ScriptTokenV::OpCode(OP_ENDIF)] + rest;
                    assert(fin[0] == ScriptTokenV::OpCode(OP_ENDIF));
                    assert(fin.drop_first() =~= rest);
                    assert(stack1.len() > 0 && stack1.last() == UnflatFrame {
                        condition,
                        then_done: None,
                        outer: cur,
                    });
                    assert(stack1.drop_last() =~= stack);
                },
            }
        },
    }
}

/// Consuming the linearization of a well-formed sequence appends exactly
/// those tokens to the current level.
proof fn lemma_unflatten_seq(ts: Seq<ScriptTokenV>, rest: Seq<ScriptTokenV>, cur: Seq<ScriptTokenV>, stack: Seq<UnflatFrame>)
    requires
        wf_tokens(ts),
    ensures
        unflatten_loop(spec_flatten(ts) + rest, cur, stack) == unflatten_loop(
            rest,
            cur + ts,
            stack,
        ),
    decreases ts,
{
    if ts.len() == 0 {
        assert(spec_flatten(ts) + rest =~= rest);
        assert(cur + ts =~= cur);
    } else {
        assert(spec_flatten(ts) + rest =~= spec_flatten_one(ts[0]) + (spec_flatten(
            ts.drop_first(),
        ) + rest));
        lemma_unflatten_one(ts[0], spec_flatten(ts.drop_first()) + rest, cur, stack);
        lemma_unflatten_seq(ts.drop_first(), rest, cur.push(ts[0]), stack);
        assert(cur.push(ts[0]) + ts.drop_first() =~= cur + ts);
    }
}

/// Flattening a well-formed token tree and re-locating the synthetic
/// markers reconstructs the original branch boundaries.
pub proof fn lemma_flatten_round_trip(ts: Seq<ScriptTokenV>)
    requires
        wf_tokens(ts),
    ensures
        unflatten(spec_flatten(ts)) == Some(ts),
{
    lemma_unflatten_seq(ts, Seq::empty(), Seq::empty(), Seq::empty());
    assert(spec_flatten(ts) + Seq::<ScriptTokenV>::empty() =~= spec_flatten(ts));
    assert(Seq::<ScriptTokenV>::empty() + ts =~= ts);
}

} // verus!
