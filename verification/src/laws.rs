//! Behavioural laws of the pipeline, stated over the build and run models
//! and proved once and for all. The executable builder and interpreter are
//! proved equal to those models, so every law carries over to them.

use vstd::prelude::*;

use crate::ast::{Node, NodeType};
use crate::cfg::{
    build_assign_s, build_if_s, build_s, build_children_s, build_print_s, build_stmt_s,
    close_if_s, emit1_s, emit_binary_s, emit_leaf_s, fork_state_s, if_header_s, if_instr_s,
    last_temp, lookup_block_s, lookup_from, lower_cond_s, lower_expr_s, lower_value_s, opcode_of,
    succs_from, succs_of, with_tail, BlockModel, BuildError, BuildState, CfgModel, InstrModel,
    Opcode, OperandModel,
};
use crate::numfmt::dec_int;
use crate::simulate::{
    emit_line_s, eval_arith_s, eval_expr_s, find_if_s, next_block_s, resolve_s, run_block_s,
    run_cfg_s, run_from_s, init_state_s, step_instr_s, write_temp_s, write_var_s, RunError,
    RunState,
};
use crate::token::TokenType;

verus! {

/// How many `Print` instructions a block run executes from position `k`
/// on, along the taken path.
pub open spec fn prints_in_block_s(
    instrs: Seq<InstrModel>,
    st: RunState,
    strings: Seq<Seq<char>>,
    k: int,
) -> nat
    decreases instrs.len() - k,
{
    if k < 0 || k >= instrs.len() {
        0
    } else {
        match step_instr_s(instrs[k], st, strings) {
            Ok(st2) => (if instrs[k].opcode == Opcode::Print {
                1nat
            } else {
                0nat
            }) + prints_in_block_s(instrs, st2, strings, k + 1),
            Err(e) => 0,
        }
    }
}

/// How many `Print` instructions the walk from block `id` executes, along
/// the taken path.
pub open spec fn prints_from_s(
    cfg: CfgModel,
    id: nat,
    st: RunState,
    strings: Seq<Seq<char>>,
    fuel: nat,
) -> nat
    decreases fuel,
{
    if id == cfg.exit || fuel == 0 {
        0
    } else {
        match lookup_block_s(cfg.blocks, id) {
            Some(b) => match run_block_s(b.instructions, st, strings, 0) {
                Ok(st2) => match next_block_s(cfg, b, st2.vars, st2.temps) {
                    Ok(nid) => prints_in_block_s(b.instructions, st, strings, 0)
                        + prints_from_s(cfg, nid, st2, strings, (fuel - 1) as nat),
                    Err(e) => 0,
                },
                Err(e) => 0,
            },
            None => 0,
        }
    }
}

/// How many `Print` instructions one whole run executes along its taken
/// path.
pub open spec fn prints_executed_s(cfg: CfgModel, nvars: nat, strings: Seq<Seq<char>>) -> nat {
    prints_from_s(cfg, cfg.entry, init_state_s(nvars), strings, cfg.blocks.len())
}

/// A successful step emits one output line when its instruction is a
/// `Print` and none otherwise, and never drops a line.
proof fn lemma_step_output(i: InstrModel, st: RunState, strings: Seq<Seq<char>>)
    ensures
        step_instr_s(i, st, strings) is Ok ==> step_instr_s(i, st, strings)->Ok_0.output.len()
            == st.output.len() + (if i.opcode == Opcode::Print {
            1nat
        } else {
            0nat
        }),
{
}

/// A successful block run emits exactly as many lines as the `Print`
/// instructions it executes.
proof fn lemma_block_output(
    instrs: Seq<InstrModel>,
    st: RunState,
    strings: Seq<Seq<char>>,
    k: int,
)
    ensures
        run_block_s(instrs, st, strings, k) is Ok ==> run_block_s(
            instrs,
            st,
            strings,
            k,
        )->Ok_0.output.len() == st.output.len() + prints_in_block_s(instrs, st, strings, k),
    decreases instrs.len() - k,
{
    if 0 <= k < instrs.len() {
        match step_instr_s(instrs[k], st, strings) {
            Ok(st2) => {
                lemma_step_output(instrs[k], st, strings);
                lemma_block_output(instrs, st2, strings, k + 1);
            },
            Err(e) => {},
        }
    }
}

/// A successful walk emits exactly as many lines as the `Print`
/// instructions it executes along the taken path.
proof fn lemma_walk_output(
    cfg: CfgModel,
    id: nat,
    st: RunState,
    strings: Seq<Seq<char>>,
    fuel: nat,
)
    ensures
        run_from_s(cfg, id, st, strings, fuel) is Ok ==> run_from_s(
            cfg,
            id,
            st,
            strings,
            fuel,
        )->Ok_0.output.len() == st.output.len() + prints_from_s(cfg, id, st, strings, fuel),
    decreases fuel,
{
    if id != cfg.exit && fuel != 0 {
        match lookup_block_s(cfg.blocks, id) {
            Some(b) => {
                match run_block_s(b.instructions, st, strings, 0) {
                    Ok(st2) => {
                        lemma_block_output(b.instructions, st, strings, 0);
                        match next_block_s(cfg, b, st2.vars, st2.temps) {
                            Ok(nid) => {
                                lemma_walk_output(cfg, nid, st2, strings, (fuel - 1) as nat);
                            },
                            Err(e) => {},
                        }
                    },
                    Err(e) => {},
                }
            },
            None => {},
        }
    }
}

/// For every graph, the count of `Print` instructions executed along the
/// taken path of a successful run equals the number of lines the run
/// emits.
pub proof fn lemma_print_count_is_line_count(cfg: CfgModel, nvars: nat, strings: Seq<Seq<char>>)
    requires
        run_cfg_s(cfg, nvars, strings) is Ok,
    ensures
        run_cfg_s(cfg, nvars, strings)->Ok_0.len() == prints_executed_s(cfg, nvars, strings),
{
    lemma_walk_output(
        cfg,
        cfg.entry,
        init_state_s(nvars),
        strings,
        cfg.blocks.len() as nat,
    );
}

/// A straight-line graph: every block sits at the position its id names,
/// the first block has no predecessor, and every later block's sole
/// predecessor is the block before it.
pub open spec fn chain_shape(blocks: Seq<BlockModel>) -> bool {
    &&& forall|k: int| 0 <= k < blocks.len() ==> (#[trigger] blocks[k]).id == k as nat
    &&& blocks.len() > 0 ==> blocks[0].predecessors == Seq::<nat>::empty()
    &&& forall|k: int|
        1 <= k < blocks.len() ==> (#[trigger] blocks[k]).predecessors == seq![(k - 1) as nat]
}

/// No block of the graph holds an `If` instruction.
pub open spec fn no_ifs(blocks: Seq<BlockModel>) -> bool {
    forall|k: int, j: int|
        0 <= k < blocks.len() && 0 <= j < (#[trigger] blocks[k]).instructions.len() ==> (
        #[trigger] blocks[k].instructions[j]).opcode != Opcode::If
}

/// In a chain-shaped graph, looking a block up by id lands on its
/// position.
proof fn lemma_chain_lookup(blocks: Seq<BlockModel>, id: int, k: int)
    requires
        chain_shape(blocks),
        0 <= k <= id < blocks.len(),
    ensures
        lookup_from(blocks, id as nat, k) == Some(blocks[id]),
    decreases id - k,
{
    if k < id {
        lemma_chain_lookup(blocks, id, k + 1);
    }
}

/// In a chain-shaped graph, each block's only successor is the next
/// block, and the last block has none.
proof fn lemma_chain_succs(blocks: Seq<BlockModel>, id: int, k: int)
    requires
        chain_shape(blocks),
        0 <= id < blocks.len(),
        0 <= k,
    ensures
        succs_from(blocks, id as nat, k) == (if k <= id + 1 < blocks.len() {
            seq![(id + 1) as nat]
        } else {
            Seq::<nat>::empty()
        }),
    decreases blocks.len() - k,
{
    if k < blocks.len() {
        lemma_chain_succs(blocks, id, k + 1);
        if blocks[k].predecessors.contains(id as nat) {
            assert(k >= 1);
            assert(blocks[k].predecessors == seq![(k - 1) as nat]);
            assert(blocks[k].predecessors[0] == (k - 1) as nat);
            assert(k == id + 1);
            assert(succs_from(blocks, id as nat, k) =~= seq![(id + 1) as nat]);
        } else {
            if k == id + 1 && 1 <= k {
                assert(blocks[k].predecessors[0] == (k - 1) as nat);
                assert(blocks[k].predecessors.contains(id as nat));
            }
        }
    }
}

/// A block whose instructions never use the `If` opcode yields no `If`
/// instruction to look for.
proof fn lemma_no_if_find(instrs: Seq<InstrModel>, k: int)
    requires
        forall|j: int| 0 <= j < instrs.len() ==> (#[trigger] instrs[j]).opcode != Opcode::If,
    ensures
        find_if_s(instrs, k) is None,
    decreases instrs.len() - k,
{
    if 0 <= k < instrs.len() {
        lemma_no_if_find(instrs, k + 1);
    }
}

/// Straight-line execution of a chain-shaped graph: run each block's
/// instructions in position order until just before the last block.
pub open spec fn run_chain_s(
    blocks: Seq<BlockModel>,
    id: int,
    st: RunState,
    strings: Seq<Seq<char>>,
) -> Result<RunState, RunError>
    decreases blocks.len() - id,
{
    if id < 0 || id >= blocks.len() - 1 {
        Ok(st)
    } else {
        match run_block_s(blocks[id].instructions, st, strings, 0) {
            Ok(st2) => run_chain_s(blocks, id + 1, st2, strings),
            Err(e) => Err(e),
        }
    }
}

/// On a chain-shaped graph without branches whose exit is its last block,
/// the graph walk is straight-line execution, provided the budget covers
/// the chain.
proof fn lemma_chain_run(
    cfg: CfgModel,
    id: int,
    st: RunState,
    strings: Seq<Seq<char>>,
    fuel: nat,
)
    requires
        chain_shape(cfg.blocks),
        no_ifs(cfg.blocks),
        cfg.blocks.len() >= 1,
        cfg.exit == cfg.blocks.len() - 1,
        0 <= id <= cfg.blocks.len() - 1,
        fuel >= cfg.blocks.len() - 1 - id,
    ensures
        run_from_s(cfg, id as nat, st, strings, fuel) == run_chain_s(cfg.blocks, id, st, strings),
    decreases fuel,
{
    if id as nat != cfg.exit {
        lemma_chain_lookup(cfg.blocks, id, 0);
        let b = cfg.blocks[id];
        match run_block_s(b.instructions, st, strings, 0) {
            Ok(st2) => {
                lemma_no_if_find(b.instructions, 0);
                lemma_chain_succs(cfg.blocks, id, 0);
                assert(succs_of(cfg.blocks, b.id)[0] == (id + 1) as nat);
                lemma_chain_run(cfg, id + 1, st2, strings, (fuel - 1) as nat);
            },
            Err(e) => {},
        }
    }
}

/// A sequencing node kind: one that folds its children.
pub open spec fn seq_kind(t: NodeType) -> bool {
    t == NodeType::Program || t == NodeType::StatementList || t == NodeType::Statement || t
        == NodeType::Term || t == NodeType::Factor
}

/// A literal a print statement can carry: an interned string the string
/// table resolves, or an integer.
pub open spec fn lit_token_ok(t: TokenType, strings: Seq<Seq<char>>) -> bool {
    match t {
        TokenType::StringListIndex(si) => si < strings.len(),
        TokenType::IntLiteral(v) => true,
        _ => false,
    }
}

/// The output line a print-of-literal statement stands for.
pub open spec fn lit_line(t: TokenType, strings: Seq<Seq<char>>) -> Seq<char> {
    match t {
        TokenType::StringListIndex(si) => strings[si as int],
        TokenType::IntLiteral(v) => dec_int(v as int),
        _ => seq![],
    }
}

/// A program consisting solely of print-of-literal statements: a tree of
/// sequencing nodes whose leaves are print statements of resolvable
/// literals.
pub open spec fn print_lit_program(nodes: Seq<Node>, idx: int, strings: Seq<Seq<char>>) -> bool
    decreases idx, 1int, 0int,
{
    &&& 0 <= idx < nodes.len()
    &&& if nodes[idx].node_type == NodeType::PrintStatement {
        &&& nodes[idx].children@.len() == 1
        &&& nodes[idx].children@[0] < idx
        &&& match nodes[nodes[idx].children@[0] as int].token {
            Some(tok) => lit_token_ok(tok.token_type, strings),
            None => false,
        }
    } else {
        &&& seq_kind(nodes[idx].node_type)
        &&& print_lit_children(nodes, idx, 0, strings)
    }
}

/// Whether the children of a sequencing node from position `k` on are all
/// print-of-literal programs.
pub open spec fn print_lit_children(
    nodes: Seq<Node>,
    idx: int,
    k: int,
    strings: Seq<Seq<char>>,
) -> bool
    decreases
            idx,
            0int,
            (if 0 <= idx < nodes.len() {
                nodes[idx].children@.len() - k
            } else {
                0int
            }),
{
    if !(0 <= idx < nodes.len()) {
        false
    } else if k < 0 || k >= nodes[idx].children@.len() {
        k == nodes[idx].children@.len()
    } else {
        &&& nodes[idx].children@[k] < idx
        &&& print_lit_program(nodes, nodes[idx].children@[k] as int, strings)
        &&& print_lit_children(nodes, idx, k + 1, strings)
    }
}

/// The output lines of a print-of-literal program, in source order.
pub open spec fn stmt_lines(nodes: Seq<Node>, idx: int, strings: Seq<Seq<char>>) -> Seq<
    Seq<char>,
>
    decreases idx, 1int, 0int,
{
    if !(0 <= idx < nodes.len()) {
        seq![]
    } else if nodes[idx].node_type == NodeType::PrintStatement {
        match nodes[nodes[idx].children@[0] as int].token {
            Some(tok) => seq![lit_line(tok.token_type, strings)],
            None => seq![],
        }
    } else {
        children_lines(nodes, idx, 0, strings)
    }
}

/// The output lines of a sequencing node's children from position `k` on.
pub open spec fn children_lines(
    nodes: Seq<Node>,
    idx: int,
    k: int,
    strings: Seq<Seq<char>>,
) -> Seq<Seq<char>>
    decreases
            idx,
            0int,
            (if 0 <= idx < nodes.len() {
                nodes[idx].children@.len() - k
            } else {
                0int
            }),
{
    if !(0 <= idx < nodes.len()) || k < 0 || k >= nodes[idx].children@.len() {
        seq![]
    } else if !(nodes[idx].children@[k] < idx) {
        seq![]
    } else {
        stmt_lines(nodes, nodes[idx].children@[k] as int, strings) + children_lines(
            nodes,
            idx,
            k + 1,
            strings,
        )
    }
}

/// A block holding exactly one print-of-literal instruction.
pub open spec fn is_print_block(b: BlockModel, strings: Seq<Seq<char>>) -> bool {
    &&& b.instructions.len() == 1
    &&& b.instructions[0].opcode == Opcode::Print
    &&& b.instructions[0].operands.len() == 1
    &&& match b.instructions[0].operands[0] {
        OperandModel::String(si) => si < strings.len(),
        OperandModel::Immediate(v) => true,
        _ => false,
    }
}

/// The line a print-of-literal block emits.
pub open spec fn block_line(b: BlockModel, strings: Seq<Seq<char>>) -> Seq<char> {
    match b.instructions[0].operands[0] {
        OperandModel::String(si) => strings[si as int],
        OperandModel::Immediate(v) => dec_int(v as int),
        _ => seq![],
    }
}

/// A build state that still looks like a chain under construction: the
/// next id is the block count and the tail is the last block.
pub open spec fn aligned(st: BuildState) -> bool {
    &&& st.blocks.len() >= 1
    &&& st.next_id == st.blocks.len()
    &&& st.tail == st.blocks.len() - 1
    &&& chain_shape(st.blocks)
}

/// Lowering a print-of-literal program from an aligned state succeeds and
/// appends one print block per statement, in source order.
proof fn lemma_build_print_lit(nodes: Seq<Node>, idx: int, st: BuildState, strings: Seq<Seq<char>>)
    requires
        print_lit_program(nodes, idx, strings),
        aligned(st),
    ensures
        ({
            let res = build_stmt_s(nodes, idx, st);
            let lines = stmt_lines(nodes, idx, strings);
            &&& res.1 is None
            &&& aligned(res.0)
            &&& res.0.next_temp == st.next_temp
            &&& res.0.blocks.len() == st.blocks.len() + lines.len()
            &&& forall|j: int| 0 <= j < st.blocks.len() ==> res.0.blocks[j] == st.blocks[j]
            &&& forall|j: int|
                0 <= j < lines.len() ==> is_print_block(
                    #[trigger] res.0.blocks[st.blocks.len() + j],
                    strings,
                ) && block_line(res.0.blocks[st.blocks.len() + j], strings) == lines[j]
        }),
    decreases idx, 1int, 0int,
{
    if nodes[idx].node_type == NodeType::PrintStatement {
        let c = nodes[idx].children@[0] as int;
        let res = build_stmt_s(nodes, idx, st);
        assert(res == build_print_s(nodes, idx, st));
        let lines = stmt_lines(nodes, idx, strings);
        assert(res.0.blocks == st.blocks.push(res.0.blocks.last()));
        assert(aligned(res.0));
    } else {
        lemma_build_print_lit_children(nodes, idx, 0, st, strings);
    }
}

/// Lowering the children of a sequencing node from an aligned state, from
/// position `k` on, appends their print blocks in order.
proof fn lemma_build_print_lit_children(
    nodes: Seq<Node>,
    idx: int,
    k: int,
    st: BuildState,
    strings: Seq<Seq<char>>,
)
    requires
        print_lit_children(nodes, idx, k, strings),
        0 <= idx < nodes.len(),
        aligned(st),
    ensures
        ({
            let res = build_children_s(nodes, idx, k, st);
            let lines = children_lines(nodes, idx, k, strings);
            &&& res.1 is None
            &&& aligned(res.0)
            &&& res.0.next_temp == st.next_temp
            &&& res.0.blocks.len() == st.blocks.len() + lines.len()
            &&& forall|j: int| 0 <= j < st.blocks.len() ==> res.0.blocks[j] == st.blocks[j]
            &&& forall|j: int|
                0 <= j < lines.len() ==> is_print_block(
                    #[trigger] res.0.blocks[st.blocks.len() + j],
                    strings,
                ) && block_line(res.0.blocks[st.blocks.len() + j], strings) == lines[j]
        }),
    decreases
            idx,
            0int,
            (if 0 <= idx < nodes.len() {
                nodes[idx].children@.len() - k
            } else {
                0int
            }),
{
    if !(k < 0 || k >= nodes[idx].children@.len()) {
        let c = nodes[idx].children@[k] as int;
        lemma_build_print_lit(nodes, c, st, strings);
        let cres = build_stmt_s(nodes, c, st);
        lemma_build_print_lit_children(nodes, idx, k + 1, cres.0, strings);
        let res = build_children_s(nodes, idx, k, st);
        let lines_c = stmt_lines(nodes, c, strings);
        let lines_r = children_lines(nodes, idx, k + 1, strings);
        let lines = children_lines(nodes, idx, k, strings);
        assert(lines =~= lines_c + lines_r);
        assert forall|j: int| 0 <= j < lines.len() implies is_print_block(
            #[trigger] res.0.blocks[st.blocks.len() + j],
            strings,
        ) && block_line(res.0.blocks[st.blocks.len() + j], strings) == lines[j] by {
            if j < lines_c.len() {
                assert(res.0.blocks[st.blocks.len() + j] == cres.0.blocks[st.blocks.len() + j]);
                assert(lines[j] == lines_c[j]);
            } else {
                assert(lines[j] == lines_r[j - lines_c.len()]);
                assert(st.blocks.len() + j == cres.0.blocks.len() + (j - lines_c.len()));
            }
        }
    }
}

/// The lines a run of print blocks emits from position `id` up to the
/// last block.
pub open spec fn chain_lines(blocks: Seq<BlockModel>, id: int, strings: Seq<Seq<char>>) -> Seq<
    Seq<char>,
>
    decreases blocks.len() - id,
{
    if id < 0 || id >= blocks.len() - 1 {
        seq![]
    } else {
        seq![block_line(blocks[id], strings)] + chain_lines(blocks, id + 1, strings)
    }
}

/// The lines of a print-block range, indexed.
proof fn lemma_chain_lines_index(blocks: Seq<BlockModel>, id: int, strings: Seq<Seq<char>>)
    requires
        0 <= id,
    ensures
        chain_lines(blocks, id, strings).len() == if id < blocks.len() - 1 {
            blocks.len() - 1 - id
        } else {
            0int
        },
        forall|j: int|
            0 <= j < chain_lines(blocks, id, strings).len() ==> chain_lines(blocks, id, strings)[j]
                == block_line(blocks[id + j], strings),
    decreases blocks.len() - id,
{
    if !(id >= blocks.len() - 1) {
        lemma_chain_lines_index(blocks, id + 1, strings);
    }
}

/// Straight-line execution of a range of print blocks succeeds, touches
/// no environment, and emits each block's line in order.
proof fn lemma_run_print_chain(
    blocks: Seq<BlockModel>,
    id: int,
    st: RunState,
    strings: Seq<Seq<char>>,
)
    requires
        blocks.len() >= 1,
        0 <= id <= blocks.len() - 1,
        forall|k: int|
            id <= k < blocks.len() - 1 ==> is_print_block(#[trigger] blocks[k], strings),
    ensures
        run_chain_s(blocks, id, st, strings) == Ok::<RunState, RunError>(
            RunState {
                vars: st.vars,
                temps: st.temps,
                output: st.output + chain_lines(blocks, id, strings),
            },
        ),
    decreases blocks.len() - id,
{
    if id == blocks.len() - 1 {
        assert(st.output + chain_lines(blocks, id, strings) =~= st.output);
        assert(RunState {
            vars: st.vars,
            temps: st.temps,
            output: st.output + chain_lines(blocks, id, strings),
        } == st);
    } else {
        let b = blocks[id];
        let line = block_line(b, strings);
        let st2 = RunState { vars: st.vars, temps: st.temps, output: st.output.push(line) };
        assert(step_instr_s(b.instructions[0], st, strings) == Ok::<RunState, RunError>(st2)) by {
            match b.instructions[0].operands[0] {
                OperandModel::String(si) => {
                    assert(emit_line_s(st, strings[si as int]) == st2);
                },
                OperandModel::Immediate(v) => {
                    assert(resolve_s(b.instructions[0].operands[0], st) == Some(v));
                    assert(emit_line_s(st, dec_int(v as int)) == st2);
                },
                _ => {
                    assert(false);
                },
            }
        }
        assert(b.instructions.len() == 1);
        assert(run_block_s(b.instructions, st2, strings, 1) == Ok::<RunState, RunError>(st2));
        assert(run_block_s(b.instructions, st, strings, 0) == Ok::<RunState, RunError>(st2));
        lemma_run_print_chain(blocks, id + 1, st2, strings);
        assert(st2.output + chain_lines(blocks, id + 1, strings) =~= st.output + chain_lines(
            blocks,
            id,
            strings,
        ));
    }
}

/// How many print statements a print-of-literal program holds.
pub open spec fn print_count(nodes: Seq<Node>, idx: int) -> nat
    decreases idx, 1int, 0int,
{
    if !(0 <= idx < nodes.len()) {
        0
    } else if nodes[idx].node_type == NodeType::PrintStatement {
        1
    } else {
        children_count(nodes, idx, 0)
    }
}

/// How many print statements the children from position `k` on hold.
pub open spec fn children_count(nodes: Seq<Node>, idx: int, k: int) -> nat
    decreases
            idx,
            0int,
            (if 0 <= idx < nodes.len() {
                nodes[idx].children@.len() - k
            } else {
                0int
            }),
{
    if !(0 <= idx < nodes.len()) || k < 0 || k >= nodes[idx].children@.len() {
        0
    } else if !(nodes[idx].children@[k] < idx) {
        0
    } else {
        print_count(nodes, nodes[idx].children@[k] as int) + children_count(nodes, idx, k + 1)
    }
}

/// A print-of-literal program has one output line per print statement.
proof fn lemma_lines_count(nodes: Seq<Node>, idx: int, strings: Seq<Seq<char>>)
    requires
        print_lit_program(nodes, idx, strings),
    ensures
        stmt_lines(nodes, idx, strings).len() == print_count(nodes, idx),
    decreases idx, 1int, 0int,
{
    if nodes[idx].node_type != NodeType::PrintStatement {
        lemma_lines_count_children(nodes, idx, 0, strings);
    }
}

/// The children of a sequencing node have one output line per print
/// statement.
proof fn lemma_lines_count_children(
    nodes: Seq<Node>,
    idx: int,
    k: int,
    strings: Seq<Seq<char>>,
)
    requires
        0 <= idx < nodes.len(),
        print_lit_children(nodes, idx, k, strings),
    ensures
        children_lines(nodes, idx, k, strings).len() == children_count(nodes, idx, k),
    decreases
            idx,
            0int,
            (if 0 <= idx < nodes.len() {
                nodes[idx].children@.len() - k
            } else {
                0int
            }),
{
    if !(k < 0 || k >= nodes[idx].children@.len()) {
        lemma_lines_count(nodes, nodes[idx].children@[k] as int, strings);
        lemma_lines_count_children(nodes, idx, k + 1, strings);
    }
}

/// For every program consisting solely of print-of-literal statements,
/// construction succeeds, the run emits the statements' literals in
/// source order, and the number of lines equals the number of
/// statements — whatever the symbol table's size.
pub proof fn lemma_print_literal_program(
    nodes: Seq<Node>,
    root: int,
    nvars: nat,
    strings: Seq<Seq<char>>,
)
    requires
        print_lit_program(nodes, root, strings),
    ensures
        build_s(nodes, root).1 is None,
        run_cfg_s(build_s(nodes, root).0, nvars, strings) == Ok::<Seq<Seq<char>>, RunError>(
            stmt_lines(nodes, root, strings),
        ),
        stmt_lines(nodes, root, strings).len() == print_count(nodes, root),
{
    let st0 = BuildState {
        blocks: seq![BlockModel { id: 0, instructions: seq![], predecessors: seq![] }],
        tail: 0,
        next_id: 1,
        next_temp: 0,
    };
    assert(aligned(st0)) by {
        assert(st0.blocks[0].id == 0);
        assert(st0.blocks[0].predecessors =~= Seq::<nat>::empty());
    }
    lemma_build_print_lit(nodes, root, st0, strings);
    let res = build_stmt_s(nodes, root, st0);
    let lines = stmt_lines(nodes, root, strings);
    let cfg = build_s(nodes, root).0;
    let n = cfg.blocks.len();
    assert(n == lines.len() + 2);
    assert(cfg.exit == n - 1);
    assert(chain_shape(cfg.blocks)) by {
        assert forall|k: int| 0 <= k < n implies (#[trigger] cfg.blocks[k]).id == k as nat by {
            if k < n - 1 {
                assert(cfg.blocks[k] == res.0.blocks[k]);
            }
        }
        assert forall|k: int|
            1 <= k < n implies (#[trigger] cfg.blocks[k]).predecessors == seq![
            (k - 1) as nat,
        ] by {
            if k < n - 1 {
                assert(cfg.blocks[k] == res.0.blocks[k]);
            }
        }
        assert(cfg.blocks[0] == st0.blocks[0]);
        assert(cfg.blocks[0].predecessors =~= Seq::<nat>::empty());
    }
    assert(no_ifs(cfg.blocks)) by {
        assert forall|k: int, j: int|
            0 <= k < n && 0 <= j < (#[trigger] cfg.blocks[k]).instructions.len() implies (
        #[trigger] cfg.blocks[k].instructions[j]).opcode != Opcode::If by {
            if k == 0 {
                assert(cfg.blocks[k] == st0.blocks[0]);
            } else if k < n - 1 {
                assert(cfg.blocks[k] == res.0.blocks[k]);
                assert(res.0.blocks[st0.blocks.len() + (k - 1)] == res.0.blocks[k]);
                assert(is_print_block(cfg.blocks[k], strings));
            }
        }
    }
    let init = init_state_s(nvars);
    lemma_chain_run(cfg, 0, init, strings, n as nat);
    assert(cfg.blocks[0] == res.0.blocks[0]);
    assert(res.0.blocks[0] == st0.blocks[0]);
    assert(cfg.blocks[0].instructions == Seq::<InstrModel>::empty());
    assert(run_block_s(cfg.blocks[0].instructions, init, strings, 0) == Ok::<
        RunState,
        RunError,
    >(init));
    assert(run_chain_s(cfg.blocks, 0, init, strings) == run_chain_s(cfg.blocks, 1, init, strings));
    assert forall|k: int|
        1 <= k < n - 1 implies is_print_block(#[trigger] cfg.blocks[k], strings) by {
        assert(cfg.blocks[k] == res.0.blocks[k]);
        assert(res.0.blocks[st0.blocks.len() + (k - 1)] == res.0.blocks[k]);
    }
    lemma_run_print_chain(cfg.blocks, 1, init, strings);
    lemma_chain_lines_index(cfg.blocks, 1, strings);
    assert(chain_lines(cfg.blocks, 1, strings) =~= lines) by {
        assert forall|j: int|
            0 <= j < lines.len() implies chain_lines(cfg.blocks, 1, strings)[j] == lines[j] by {
            assert(chain_lines(cfg.blocks, 1, strings)[j] == block_line(
                cfg.blocks[1 + j],
                strings,
            ));
            assert(cfg.blocks[1 + j] == res.0.blocks[1 + j]);
            assert(block_line(res.0.blocks[1 + j], strings) == lines[j]);
        }
    }
    assert(init.output + chain_lines(cfg.blocks, 1, strings) =~= lines);
    lemma_lines_count(nodes, root, strings);
}

/// Straight-line execution of the blocks at positions `i` up to `e`.
pub open spec fn run_range_s(
    blocks: Seq<BlockModel>,
    i: int,
    e: int,
    st: RunState,
    strings: Seq<Seq<char>>,
) -> Result<RunState, RunError>
    decreases e - i,
{
    if !(0 <= i < e <= blocks.len()) {
        Ok(st)
    } else {
        match run_block_s(blocks[i].instructions, st, strings, 0) {
            Ok(st2) => run_range_s(blocks, i + 1, e, st2, strings),
            Err(er) => Err(er),
        }
    }
}

/// Running up to the last block is running the range that ends before it.
proof fn lemma_chain_is_range(
    blocks: Seq<BlockModel>,
    id: int,
    st: RunState,
    strings: Seq<Seq<char>>,
)
    requires
        0 <= id,
    ensures
        run_chain_s(blocks, id, st, strings) == run_range_s(
            blocks,
            id,
            blocks.len() - 1,
            st,
            strings,
        ),
    decreases blocks.len() - id,
{
    if id < blocks.len() - 1 {
        match run_block_s(blocks[id].instructions, st, strings, 0) {
            Ok(st2) => {
                lemma_chain_is_range(blocks, id + 1, st2, strings);
            },
            Err(er) => {},
        }
    }
}

/// Range execution composes at any cut point.
proof fn lemma_range_compose(
    blocks: Seq<BlockModel>,
    i: int,
    m: int,
    e: int,
    st: RunState,
    strings: Seq<Seq<char>>,
)
    requires
        0 <= i <= m <= e <= blocks.len(),
    ensures
        run_range_s(blocks, i, e, st, strings) == (match run_range_s(blocks, i, m, st, strings) {
            Ok(st2) => run_range_s(blocks, m, e, st2, strings),
            Err(er) => Err(er),
        }),
    decreases m - i,
{
    if i < m {
        match run_block_s(blocks[i].instructions, st, strings, 0) {
            Ok(st2) => {
                lemma_range_compose(blocks, i + 1, m, e, st2, strings);
            },
            Err(er) => {},
        }
    }
}

/// Range execution reads only the instruction lists inside the range.
proof fn lemma_range_frame(
    b1: Seq<BlockModel>,
    b2: Seq<BlockModel>,
    i: int,
    e: int,
    st: RunState,
    strings: Seq<Seq<char>>,
)
    requires
        e <= b1.len(),
        e <= b2.len(),
        forall|j: int| i <= j < e ==> (#[trigger] b1[j]).instructions == b2[j].instructions,
    ensures
        run_range_s(b1, i, e, st, strings) == run_range_s(b2, i, e, st, strings),
    decreases e - i,
{
    if 0 <= i < e {
        match run_block_s(b1[i].instructions, st, strings, 0) {
            Ok(st2) => {
                lemma_range_frame(b1, b2, i + 1, e, st2, strings);
            },
            Err(er) => {},
        }
    }
}

/// A block holding exactly one instruction that is not a branch.
pub open spec fn is_plain_block(b: BlockModel) -> bool {
    b.instructions.len() == 1 && b.instructions[0].opcode != Opcode::If
}

/// Compiling an expression from an aligned state and running the
/// appended blocks computes exactly the expression's value into the
/// freshest temporary, touching nothing else: the variables and the
/// output are untouched, temporaries below the old generator keep their
/// values, and the temporary environment ends exactly at the new
/// generator with the value in its last slot.
proof fn lemma_expr_compile(
    nodes: Seq<Node>,
    idx: int,
    st: BuildState,
    rst: RunState,
    strings: Seq<Seq<char>>,
)
    requires
        aligned(st),
        lower_expr_s(nodes, idx, st).1 is None,
        eval_expr_s(nodes, idx, rst.vars) is Ok,
        rst.temps.len() == st.next_temp,
    ensures
        ({
            let res = lower_expr_s(nodes, idx, st);
            let v = eval_expr_s(nodes, idx, rst.vars)->Ok_0;
            let rr = run_range_s(
                res.0.blocks,
                st.blocks.len() as int,
                res.0.blocks.len() as int,
                rst,
                strings,
            );
            &&& aligned(res.0)
            &&& res.0.blocks.len() > st.blocks.len()
            &&& res.0.next_temp > st.next_temp
            &&& (forall|j: int| 0 <= j < st.blocks.len() ==> res.0.blocks[j] == st.blocks[j])
            &&& (forall|j: int|
                st.blocks.len() <= j < res.0.blocks.len() ==> is_plain_block(
                    #[trigger] res.0.blocks[j],
                ))
            &&& rr is Ok
            &&& rr->Ok_0.vars == rst.vars
            &&& rr->Ok_0.output == rst.output
            &&& rr->Ok_0.temps.len() == res.0.next_temp
            &&& (forall|t: int| 0 <= t < rst.temps.len() ==> rr->Ok_0.temps[t] == rst.temps[t])
            &&& rr->Ok_0.temps[res.0.next_temp - 1] == Some(v)
        }),
    decreases idx, 0int, 0int,
{
    let res = lower_expr_s(nodes, idx, st);
    let v = eval_expr_s(nodes, idx, rst.vars)->Ok_0;
    if nodes[idx].children@.len() == 2 {
        let lc = nodes[idx].children@[0] as int;
        let rc = nodes[idx].children@[1] as int;
        lemma_expr_compile(nodes, lc, st, rst, strings);
        let lres = lower_expr_s(nodes, lc, st);
        let rr1 = run_range_s(
            res.0.blocks,
            st.blocks.len() as int,
            lres.0.blocks.len() as int,
            rst,
            strings,
        );
        let rr1m = run_range_s(
            lres.0.blocks,
            st.blocks.len() as int,
            lres.0.blocks.len() as int,
            rst,
            strings,
        );
        let rst1 = rr1m->Ok_0;
        lemma_expr_compile(nodes, rc, lres.0, rst1, strings);
        let rres = lower_expr_s(nodes, rc, lres.0);
        let rr2m = run_range_s(
            rres.0.blocks,
            lres.0.blocks.len() as int,
            rres.0.blocks.len() as int,
            rst1,
            strings,
        );
        let rst2 = rr2m->Ok_0;
        let a = eval_expr_s(nodes, lc, rst.vars)->Ok_0;
        let b = eval_expr_s(nodes, rc, rst.vars)->Ok_0;
        let op = opcode_of(nodes[idx].data@)->Some_0;
        // the final block appended by the binary emission
        let lt = last_temp(lres.0);
        let rt = last_temp(rres.0);
        let t2 = rres.0.next_temp;
        let instr = InstrModel {
            id: rres.0.next_id,
            opcode: op,
            operands: seq![
                OperandModel::Temporary(t2),
                OperandModel::Temporary(lt),
                OperandModel::Temporary(rt),
            ],
        };
        assert(res.0.blocks == rres.0.blocks.push(
            BlockModel {
                id: rres.0.next_id,
                instructions: seq![instr],
                predecessors: seq![rres.0.tail],
            },
        ));
        // frame the two sub-ranges onto the final block sequence
        assert forall|j: int|
            st.blocks.len() <= j < lres.0.blocks.len() implies (#[trigger] res.0.blocks[j]).instructions
            == lres.0.blocks[j].instructions by {
            assert(rres.0.blocks[j] == lres.0.blocks[j]);
            assert(res.0.blocks[j] == rres.0.blocks[j]);
        }
        assert(rr1 == rr1m) by {
            lemma_range_frame(
                res.0.blocks,
                lres.0.blocks,
                st.blocks.len() as int,
                lres.0.blocks.len() as int,
                rst,
                strings,
            );
        }
        let rr2 = run_range_s(
            res.0.blocks,
            lres.0.blocks.len() as int,
            rres.0.blocks.len() as int,
            rst1,
            strings,
        );
        assert(rr2 == rr2m) by {
            assert forall|j: int|
                lres.0.blocks.len() <= j < rres.0.blocks.len() implies (
            #[trigger] res.0.blocks[j]).instructions == rres.0.blocks[j].instructions by {
                assert(res.0.blocks[j] == rres.0.blocks[j]);
            }
            lemma_range_frame(
                res.0.blocks,
                rres.0.blocks,
                lres.0.blocks.len() as int,
                rres.0.blocks.len() as int,
                rst1,
                strings,
            );
        }
        // execute the operation block
        let st3 = write_temp_s(rst2, t2, v);
        assert(resolve_s(OperandModel::Temporary(lt), rst2) == Some(a)) by {
            assert(lt < rst1.temps.len());
            assert(rst2.temps[lt as int] == rst1.temps[lt as int]);
        }
        assert(resolve_s(OperandModel::Temporary(rt), rst2) == Some(b));
        assert(eval_arith_s(op, a, b) == Ok::<i64, RunError>(v));
        assert(step_instr_s(instr, rst2, strings) == Ok::<RunState, RunError>(st3));
        assert(run_block_s(seq![instr], rst2, strings, 0) == Ok::<RunState, RunError>(st3)) by {
            assert(run_block_s(seq![instr], st3, strings, 1) == Ok::<RunState, RunError>(st3));
        }
        let opi = rres.0.blocks.len() as int;
        assert(run_range_s(res.0.blocks, opi, res.0.blocks.len() as int, rst2, strings) == Ok::<
            RunState,
            RunError,
        >(st3)) by {
            assert(res.0.blocks[opi].instructions == seq![instr]);
            assert(run_range_s(res.0.blocks, opi + 1, res.0.blocks.len() as int, st3, strings)
                == Ok::<RunState, RunError>(st3));
        }
        // compose the three pieces
        lemma_range_compose(
            res.0.blocks,
            st.blocks.len() as int,
            lres.0.blocks.len() as int,
            res.0.blocks.len() as int,
            rst,
            strings,
        );
        lemma_range_compose(
            res.0.blocks,
            lres.0.blocks.len() as int,
            rres.0.blocks.len() as int,
            res.0.blocks.len() as int,
            rst1,
            strings,
        );
        assert(run_range_s(
            res.0.blocks,
            st.blocks.len() as int,
            res.0.blocks.len() as int,
            rst,
            strings,
        ) == Ok::<RunState, RunError>(st3));
        assert(st3.temps.len() == res.0.next_temp) by {
            assert(rst2.temps.len() == t2);
        }
        assert(st3.temps[res.0.next_temp - 1] == Some(v));
        assert(aligned(res.0)) by {
            assert forall|k: int|
                1 <= k < res.0.blocks.len() implies (#[trigger] res.0.blocks[k]).predecessors
                == seq![(k - 1) as nat] by {
                if k < rres.0.blocks.len() {
                    assert(res.0.blocks[k] == rres.0.blocks[k]);
                }
            }
            assert(res.0.blocks[0] == rres.0.blocks[0]);
        }
    } else {
        // leaf: one block copies the literal or variable into a fresh slot
        let src: OperandModel = match nodes[idx].token->Some_0.token_type {
            TokenType::IntLiteral(vv) => OperandModel::Immediate(vv),
            TokenType::Symbol(sym) => OperandModel::Variable(sym as nat),
            _ => OperandModel::Immediate(0),
        };
        let t2 = st.next_temp;
        let instr = InstrModel {
            id: st.next_id,
            opcode: Opcode::Mov,
            operands: seq![OperandModel::Temporary(t2), src],
        };
        assert(res.0.blocks == st.blocks.push(
            BlockModel {
                id: st.next_id,
                instructions: seq![instr],
                predecessors: seq![st.tail],
            },
        ));
        let st3 = write_temp_s(rst, t2, v);
        assert(resolve_s(src, rst) == Some(v));
        assert(step_instr_s(instr, rst, strings) == Ok::<RunState, RunError>(st3));
        assert(run_block_s(seq![instr], rst, strings, 0) == Ok::<RunState, RunError>(st3)) by {
            assert(run_block_s(seq![instr], st3, strings, 1) == Ok::<RunState, RunError>(st3));
        }
        assert(run_range_s(
            res.0.blocks,
            st.blocks.len() as int,
            res.0.blocks.len() as int,
            rst,
            strings,
        ) == Ok::<RunState, RunError>(st3)) by {
            assert(res.0.blocks[st.blocks.len() as int].instructions == seq![instr]);
            assert(run_range_s(
                res.0.blocks,
                st.blocks.len() as int + 1,
                res.0.blocks.len() as int,
                st3,
                strings,
            ) == Ok::<RunState, RunError>(st3));
        }
        assert(st3.temps.len() == res.0.next_temp);
        assert(st3.temps[res.0.next_temp - 1] == Some(v));
        assert(aligned(res.0)) by {
            assert forall|k: int|
                1 <= k < res.0.blocks.len() implies (#[trigger] res.0.blocks[k]).predecessors
                == seq![(k - 1) as nat] by {
                if k < st.blocks.len() {
                    assert(res.0.blocks[k] == st.blocks[k]);
                }
            }
            assert(res.0.blocks[0] == st.blocks[0]);
        }
    }
}

/// The shape of a two-statement round-trip program: assign an expression
/// to the variable with handle `x`, then print that variable.
pub open spec fn assign_print_program(nodes: Seq<Node>, root: int, x: usize) -> bool {
    &&& 0 <= root < nodes.len()
    &&& (nodes[root].node_type == NodeType::Program || nodes[root].node_type
        == NodeType::StatementList || nodes[root].node_type == NodeType::Statement)
    &&& nodes[root].children@.len() == 2
    &&& nodes[root].children@[0] < root
    &&& nodes[root].children@[1] < root
    &&& ({
        let a = nodes[root].children@[0] as int;
        let p = nodes[root].children@[1] as int;
        &&& nodes[a].node_type == NodeType::AssignmentStatement
        &&& nodes[a].children@.len() == 2
        &&& nodes[a].children@[1] < a
        &&& nodes[a].children@[0] < nodes.len()
        &&& (match nodes[nodes[a].children@[0] as int].token {
            Some(tok) => tok.token_type == TokenType::Symbol(x),
            None => false,
        })
        &&& nodes[p].node_type == NodeType::PrintStatement
        &&& nodes[p].children@.len() == 1
        &&& nodes[p].children@[0] < nodes.len()
        &&& (match nodes[nodes[p].children@[0] as int].token {
            Some(tok) => tok.token_type == TokenType::Symbol(x),
            None => false,
        })
    })
}

/// The expression a round-trip program assigns.
pub open spec fn assigned_expr(nodes: Seq<Node>, root: int) -> int {
    nodes[nodes[root].children@[0] as int].children@[1] as int
}

/// Round trip: for every program `assign x := e; print x` whose
/// construction succeeds and whose expression evaluates in the starting
/// environment, the run emits exactly the value the expression evaluates
/// to, rendered in decimal — whatever the symbol table's size.
pub proof fn lemma_assign_print_round_trip(
    nodes: Seq<Node>,
    root: int,
    x: usize,
    nvars: nat,
    strings: Seq<Seq<char>>,
)
    requires
        assign_print_program(nodes, root, x),
        build_s(nodes, root).1 is None,
        eval_expr_s(nodes, assigned_expr(nodes, root), init_state_s(nvars).vars) is Ok,
    ensures
        run_cfg_s(build_s(nodes, root).0, nvars, strings) == Ok::<Seq<Seq<char>>, RunError>(
            seq![
                dec_int(
                    eval_expr_s(nodes, assigned_expr(nodes, root), init_state_s(nvars).vars)->Ok_0
                        as int,
                ),
            ],
        ),
{
    let st0 = BuildState {
        blocks: seq![BlockModel { id: 0, instructions: seq![], predecessors: seq![] }],
        tail: 0,
        next_id: 1,
        next_temp: 0,
    };
    assert(aligned(st0)) by {
        assert(st0.blocks[0].id == 0);
        assert(st0.blocks[0].predecessors =~= Seq::<nat>::empty());
    }
    let a = nodes[root].children@[0] as int;
    let p = nodes[root].children@[1] as int;
    let e = assigned_expr(nodes, root);
    let init = init_state_s(nvars);
    let v = eval_expr_s(nodes, e, init.vars)->Ok_0;
    // the construction thread, step by step
    let r_children0 = build_children_s(nodes, root, 0, st0);
    assert(build_stmt_s(nodes, root, st0) == r_children0);
    assert(r_children0.1 is None);
    let r_a = build_stmt_s(nodes, a, st0);
    assert(r_a == build_assign_s(nodes, a, st0));
    let r_children1 = build_children_s(nodes, root, 1, r_a.0);
    assert(r_a.1 is None) by {
        if r_a.1 is Some {
            assert(r_children0 == r_a);
        }
    }
    let lres = lower_expr_s(nodes, e, st0);
    assert(lres.1 is None);
    let lt = last_temp(lres.0);
    let mov_instr = InstrModel {
        id: lres.0.next_id,
        opcode: Opcode::Mov,
        operands: seq![OperandModel::Variable(x as nat), OperandModel::Temporary(lt)],
    };
    let st_a = emit1_s(lres.0, Opcode::Mov, mov_instr.operands);
    assert(build_stmt_s(nodes, a, st0) == (st_a, None::<BuildError>));
    let print_instr = InstrModel {
        id: st_a.next_id,
        opcode: Opcode::Print,
        operands: seq![OperandModel::Variable(x as nat)],
    };
    let st_p = emit1_s(st_a, Opcode::Print, print_instr.operands);
    let pv = nodes[p].children@[0] as int;
    assert(nodes[pv].token->Some_0.token_type == TokenType::Symbol(x));
    assert(build_print_s(nodes, p, st_a) == (st_p, None::<BuildError>));
    assert(build_stmt_s(nodes, p, st_a) == (st_p, None::<BuildError>));
    assert(build_stmt_s(nodes, root, st0) == (st_p, None::<BuildError>)) by {
        assert(build_children_s(nodes, root, 2, st_p) == (st_p, None::<BuildError>));
    }
    // the compiled expression computes v
    lemma_expr_compile(nodes, e, st0, init, strings);
    assert(aligned(lres.0));
    let cfg = build_s(nodes, root).0;
    let n = cfg.blocks.len();
    let expr_end = lres.0.blocks.len() as int;
    assert(n == expr_end + 3);
    assert(cfg.exit == n - 1);
    // the whole graph is a branch-free chain
    assert(cfg.blocks[expr_end] == st_a.blocks[expr_end]);
    assert(cfg.blocks[expr_end].instructions == seq![mov_instr]);
    assert(cfg.blocks[expr_end + 1] == st_p.blocks[expr_end + 1]);
    assert(cfg.blocks[expr_end + 1].instructions == seq![print_instr]);
    assert(chain_shape(cfg.blocks)) by {
        assert forall|k: int| 0 <= k < n implies (#[trigger] cfg.blocks[k]).id == k as nat by {
            if k < expr_end {
                assert(cfg.blocks[k] == lres.0.blocks[k]);
            } else if k == expr_end {
                assert(cfg.blocks[k] == st_a.blocks[k]);
            } else if k == expr_end + 1 {
                assert(cfg.blocks[k] == st_p.blocks[k]);
            }
        }
        assert forall|k: int|
            1 <= k < n implies (#[trigger] cfg.blocks[k]).predecessors == seq![
            (k - 1) as nat,
        ] by {
            if k < expr_end {
                assert(cfg.blocks[k] == lres.0.blocks[k]);
            } else if k == expr_end {
                assert(cfg.blocks[k] == st_a.blocks[k]);
            } else if k == expr_end + 1 {
                assert(cfg.blocks[k] == st_p.blocks[k]);
            }
        }
        assert(cfg.blocks[0] == lres.0.blocks[0]);
        assert(cfg.blocks[0].predecessors =~= Seq::<nat>::empty());
    }
    assert(no_ifs(cfg.blocks)) by {
        assert forall|k: int, j: int|
            0 <= k < n && 0 <= j < (#[trigger] cfg.blocks[k]).instructions.len() implies (
        #[trigger] cfg.blocks[k].instructions[j]).opcode != Opcode::If by {
            if k == 0 {
                assert(cfg.blocks[k] == lres.0.blocks[0]);
                assert(cfg.blocks[k] == st0.blocks[0]);
            } else if k < expr_end {
                assert(cfg.blocks[k] == lres.0.blocks[k]);
                assert(is_plain_block(lres.0.blocks[k]));
            }
        }
    }
    // the walk is straight-line execution
    lemma_chain_run(cfg, 0, init, strings, n as nat);
    lemma_chain_is_range(cfg.blocks, 0, init, strings);
    lemma_range_compose(cfg.blocks, 0, 1, n - 1, init, strings);
    assert(cfg.blocks[0].instructions == Seq::<InstrModel>::empty());
    assert(run_block_s(cfg.blocks[0].instructions, init, strings, 0) == Ok::<
        RunState,
        RunError,
    >(init));
    assert(run_range_s(cfg.blocks, 0, 1, init, strings) == Ok::<RunState, RunError>(init)) by {
        assert(run_range_s(cfg.blocks, 1, 1, init, strings) == Ok::<RunState, RunError>(init));
    }
    // the expression range
    let rrm = run_range_s(lres.0.blocks, 1, expr_end, init, strings);
    let rst1 = rrm->Ok_0;
    assert(run_range_s(cfg.blocks, 1, expr_end, init, strings) == rrm) by {
        assert forall|j: int|
            1 <= j < expr_end implies (#[trigger] cfg.blocks[j]).instructions
            == lres.0.blocks[j].instructions by {
            assert(cfg.blocks[j] == lres.0.blocks[j]);
        }
        lemma_range_frame(cfg.blocks, lres.0.blocks, 1, expr_end, init, strings);
    }
    // the assignment block writes v into the variable
    let rst2 = write_var_s(rst1, x as nat, v);
    assert(resolve_s(OperandModel::Temporary(lt), rst1) == Some(v)) by {
        assert(lt < rst1.temps.len());
    }
    assert(step_instr_s(mov_instr, rst1, strings) == Ok::<RunState, RunError>(rst2));
    assert(run_block_s(cfg.blocks[expr_end].instructions, rst1, strings, 0) == Ok::<
        RunState,
        RunError,
    >(rst2)) by {
        assert(run_block_s(seq![mov_instr], rst2, strings, 1) == Ok::<RunState, RunError>(rst2));
    }
    // the print block reads it back and emits its rendering
    let rst3 = emit_line_s(rst2, dec_int(v as int));
    assert(resolve_s(OperandModel::Variable(x as nat), rst2) == Some(v)) by {
        assert((x as nat) < rst2.vars.len());
        assert(rst2.vars[x as int] == Some(v));
    }
    assert(step_instr_s(print_instr, rst2, strings) == Ok::<RunState, RunError>(rst3));
    assert(run_block_s(cfg.blocks[expr_end + 1].instructions, rst2, strings, 0) == Ok::<
        RunState,
        RunError,
    >(rst3)) by {
        assert(run_block_s(seq![print_instr], rst3, strings, 1) == Ok::<RunState, RunError>(
            rst3,
        ));
    }
    // compose the pieces
    lemma_range_compose(cfg.blocks, 1, expr_end, n - 1, init, strings);
    lemma_range_compose(cfg.blocks, expr_end, expr_end + 1, n - 1, rst1, strings);
    assert(run_range_s(cfg.blocks, expr_end, expr_end + 1, rst1, strings) == Ok::<
        RunState,
        RunError,
    >(rst2)) by {
        assert(run_range_s(cfg.blocks, expr_end + 1, expr_end + 1, rst2, strings) == Ok::<
            RunState,
            RunError,
        >(rst2));
    }
    assert(run_range_s(cfg.blocks, expr_end + 1, n - 1, rst2, strings) == Ok::<
        RunState,
        RunError,
    >(rst3)) by {
        assert(run_range_s(cfg.blocks, expr_end + 2, n - 1, rst3, strings) == Ok::<
            RunState,
            RunError,
        >(rst3));
    }
    assert(run_from_s(cfg, cfg.entry, init, strings, cfg.blocks.len()) == Ok::<
        RunState,
        RunError,
    >(rst3));
    assert(rst3.output =~= seq![dec_int(v as int)]);
}

/// The shape of a one-branch-point program: a single if-statement whose
/// condition compares two integer literals for equality and whose two
/// branches are single print-of-literal statements.
pub open spec fn if_print_program(nodes: Seq<Node>, root: int, strings: Seq<Seq<char>>) -> bool {
    &&& 0 <= root < nodes.len()
    &&& nodes[root].node_type == NodeType::IfStatement
    &&& nodes[root].children@.len() == 3
    &&& nodes[root].children@[0] < root
    &&& nodes[root].children@[1] < root
    &&& nodes[root].children@[2] < root
    &&& ({
        let c = nodes[root].children@[0] as int;
        let t = nodes[root].children@[1] as int;
        let x = nodes[root].children@[2] as int;
        &&& nodes[c].node_type == NodeType::Condition
        &&& nodes[c].children@.len() == 2
        &&& nodes[c].children@[0] < c
        &&& nodes[c].children@[1] < c
        &&& nodes[c].data@ == "=="@
        &&& is_int_leaf(nodes, nodes[c].children@[0] as int)
        &&& is_int_leaf(nodes, nodes[c].children@[1] as int)
        &&& nodes[t].node_type == NodeType::PrintStatement
        &&& print_lit_program(nodes, t, strings)
        &&& nodes[x].node_type == NodeType::PrintStatement
        &&& print_lit_program(nodes, x, strings)
    })
}

/// An expression node that is a bare integer literal.
pub open spec fn is_int_leaf(nodes: Seq<Node>, idx: int) -> bool {
    &&& 0 <= idx < nodes.len()
    &&& nodes[idx].node_type == NodeType::Expression
    &&& nodes[idx].children@.len() == 0
    &&& match nodes[idx].token {
        Some(tok) => tok.token_type is IntLiteral,
        None => false,
    }
}

/// The literal value of an integer leaf.
pub open spec fn leaf_value(nodes: Seq<Node>, idx: int) -> i64 {
    nodes[idx].token->Some_0.token_type->IntLiteral_0
}

/// The print operand a print-of-literal statement lowers to.
pub open spec fn print_op(nodes: Seq<Node>, idx: int) -> OperandModel {
    match nodes[nodes[idx].children@[0] as int].token->Some_0.token_type {
        TokenType::StringListIndex(si) => OperandModel::String(si as nat),
        TokenType::Symbol(sym) => OperandModel::Variable(sym as nat),
        TokenType::IntLiteral(v) => OperandModel::Immediate(v),
        _ => OperandModel::Immediate(0),
    }
}

/// The ten blocks a one-branch-point program lowers to: entry, fork, the
/// two literal loads, the comparison, the branch block, the two print
/// blocks, the merge, and the exit. The branch instruction draws id 5, so
/// block ids skip it from the branch block on.
pub open spec fn if_layout(a: i64, b: i64, opt: OperandModel, opx: OperandModel) -> Seq<
    BlockModel,
> {
    seq![
        BlockModel { id: 0, instructions: seq![], predecessors: seq![] },
        BlockModel { id: 1, instructions: seq![], predecessors: seq![0nat] },
        BlockModel {
            id: 2,
            instructions: seq![
                InstrModel {
                    id: 2,
                    opcode: Opcode::Mov,
                    operands: seq![OperandModel::Temporary(0), OperandModel::Immediate(a)],
                },
            ],
            predecessors: seq![1nat],
        },
        BlockModel {
            id: 3,
            instructions: seq![
                InstrModel {
                    id: 3,
                    opcode: Opcode::Mov,
                    operands: seq![OperandModel::Temporary(1), OperandModel::Immediate(b)],
                },
            ],
            predecessors: seq![2nat],
        },
        BlockModel {
            id: 4,
            instructions: seq![
                InstrModel {
                    id: 4,
                    opcode: Opcode::CmpEq,
                    operands: seq![
                        OperandModel::Temporary(2),
                        OperandModel::Temporary(0),
                        OperandModel::Temporary(1),
                    ],
                },
            ],
            predecessors: seq![3nat],
        },
        BlockModel { id: 6, instructions: seq![if_instr_s(5, 2)], predecessors: seq![4nat] },
        BlockModel {
            id: 7,
            instructions: seq![InstrModel { id: 7, opcode: Opcode::Print, operands: seq![opt] }],
            predecessors: seq![6nat],
        },
        BlockModel {
            id: 8,
            instructions: seq![InstrModel { id: 8, opcode: Opcode::Print, operands: seq![opx] }],
            predecessors: seq![6nat],
        },
        BlockModel { id: 9, instructions: seq![], predecessors: seq![7nat, 8nat] },
        BlockModel { id: 10, instructions: seq![], predecessors: seq![9nat] },
    ]
}

/// Construction of a one-branch-point program succeeds and yields exactly
/// the ten-block layout.
proof fn lemma_branch_build(nodes: Seq<Node>, root: int, strings: Seq<Seq<char>>)
    requires
        if_print_program(nodes, root, strings),
    ensures
        build_s(nodes, root).1 is None,
        build_s(nodes, root).0.blocks =~= if_layout(
            leaf_value(nodes, nodes[nodes[root].children@[0] as int].children@[0] as int),
            leaf_value(nodes, nodes[nodes[root].children@[0] as int].children@[1] as int),
            print_op(nodes, nodes[root].children@[1] as int),
            print_op(nodes, nodes[root].children@[2] as int),
        ),
        build_s(nodes, root).0.entry == 0,
        build_s(nodes, root).0.exit == 10,
{
    let st0 = BuildState {
        blocks: seq![BlockModel { id: 0, instructions: seq![], predecessors: seq![] }],
        tail: 0,
        next_id: 1,
        next_temp: 0,
    };
    let c = nodes[root].children@[0] as int;
    let t = nodes[root].children@[1] as int;
    let x = nodes[root].children@[2] as int;
    let le = nodes[c].children@[0] as int;
    let re = nodes[c].children@[1] as int;
    let a = leaf_value(nodes, le);
    let b = leaf_value(nodes, re);
    let opt = print_op(nodes, t);
    let opx = print_op(nodes, x);
    let layout = if_layout(a, b, opt, opx);
    let stf = fork_state_s(st0);
    assert(stf.blocks =~= layout.take(2));
    let lres = lower_expr_s(nodes, le, stf);
    assert(lres == (emit_leaf_s(stf, OperandModel::Immediate(a)), None::<BuildError>));
    assert(lres.0.blocks =~= layout.take(3));
    let rres = lower_expr_s(nodes, re, lres.0);
    assert(rres == (emit_leaf_s(lres.0, OperandModel::Immediate(b)), None::<BuildError>));
    assert(rres.0.blocks =~= layout.take(4));
    let cres = lower_cond_s(nodes, c, stf);
    assert(cres == (emit_binary_s(rres.0, Opcode::CmpEq, 0, 1), None::<BuildError>));
    assert(cres.0.blocks =~= layout.take(5));
    assert(lower_value_s(nodes, c, stf) == cres);
    let st2 = if_header_s(cres.0);
    assert(st2.blocks =~= layout.take(6));
    assert(st2.tail == 6 && st2.next_id == 7 && st2.next_temp == 3);
    let tres = build_stmt_s(nodes, t, st2);
    assert(tres == (emit1_s(st2, Opcode::Print, seq![opt]), None::<BuildError>));
    assert(tres.0.blocks =~= layout.take(7));
    let xres = build_stmt_s(nodes, x, with_tail(tres.0, 6));
    assert(xres == (emit1_s(with_tail(tres.0, 6), Opcode::Print, seq![opx]), None::<
        BuildError,
    >));
    assert(xres.0.blocks =~= layout.take(8));
    let res = build_if_s(nodes, root, st0);
    assert(res == (close_if_s(xres.0, 7, 8), None::<BuildError>));
    assert(res.0.blocks =~= layout.take(9));
    assert(build_stmt_s(nodes, root, st0) == res);
    assert(res.0.next_id == 10 && res.0.tail == 9);
    assert(build_s(nodes, root).0.blocks =~= layout);
}

/// Membership in an empty, one-element or two-element id list.
proof fn lemma_small_contains(p: nat, q: nat, id: nat)
    ensures
        !Seq::<nat>::empty().contains(id),
        seq![p].contains(id) <==> p == id,
        seq![p, q].contains(id) <==> (p == id || q == id),
{
    if p == id {
        assert(seq![p][0] == id);
        assert(seq![p, q][0] == id);
    }
    if q == id {
        assert(seq![p, q][1] == id);
    }
}

/// The successor list of every id in the ten-block layout.
proof fn lemma_layout_succs(a: i64, b: i64, opt: OperandModel, opx: OperandModel, id: nat)
    ensures
        succs_of(if_layout(a, b, opt, opx), id) =~= (if id == 0 {
            seq![1nat]
        } else if id == 1 {
            seq![2nat]
        } else if id == 2 {
            seq![3nat]
        } else if id == 3 {
            seq![4nat]
        } else if id == 4 {
            seq![6nat]
        } else if id == 6 {
            seq![7nat, 8nat]
        } else if id == 7 || id == 8 {
            seq![9nat]
        } else if id == 9 {
            seq![10nat]
        } else {
            Seq::<nat>::empty()
        }),
{
    let blocks = if_layout(a, b, opt, opx);
    lemma_small_contains(0, 0, id);
    lemma_small_contains(1, 1, id);
    lemma_small_contains(2, 2, id);
    lemma_small_contains(3, 3, id);
    lemma_small_contains(4, 4, id);
    lemma_small_contains(6, 6, id);
    lemma_small_contains(7, 8, id);
    lemma_small_contains(9, 9, id);
    assert(succs_from(blocks, id, 10) =~= Seq::<nat>::empty());
    assert(succs_from(blocks, id, 9) =~= (if id == 9 {
        seq![10nat]
    } else {
        Seq::<nat>::empty()
    }));
    assert(succs_from(blocks, id, 8) =~= (if id == 7 || id == 8 {
        seq![9nat]
    } else if id == 9 {
        seq![10nat]
    } else {
        Seq::<nat>::empty()
    }));
    assert(succs_from(blocks, id, 7) =~= (if id == 6 {
        seq![8nat]
    } else if id == 7 || id == 8 {
        seq![9nat]
    } else if id == 9 {
        seq![10nat]
    } else {
        Seq::<nat>::empty()
    }));
    assert(succs_from(blocks, id, 6) =~= (if id == 6 {
        seq![7nat, 8nat]
    } else if id == 7 || id == 8 {
        seq![9nat]
    } else if id == 9 {
        seq![10nat]
    } else {
        Seq::<nat>::empty()
    }));
    assert(succs_from(blocks, id, 5) =~= (if id == 4 {
        seq![6nat]
    } else if id == 6 {
        seq![7nat, 8nat]
    } else if id == 7 || id == 8 {
        seq![9nat]
    } else if id == 9 {
        seq![10nat]
    } else {
        Seq::<nat>::empty()
    }));
    assert(succs_from(blocks, id, 4) =~= (if id == 3 {
        seq![4nat]
    } else if id == 4 {
        seq![6nat]
    } else if id == 6 {
        seq![7nat, 8nat]
    } else if id == 7 || id == 8 {
        seq![9nat]
    } else if id == 9 {
        seq![10nat]
    } else {
        Seq::<nat>::empty()
    }));
    assert(succs_from(blocks, id, 3) =~= (if id == 2 {
        seq![3nat]
    } else if id == 3 {
        seq![4nat]
    } else if id == 4 {
        seq![6nat]
    } else if id == 6 {
        seq![7nat, 8nat]
    } else if id == 7 || id == 8 {
        seq![9nat]
    } else if id == 9 {
        seq![10nat]
    } else {
        Seq::<nat>::empty()
    }));
    assert(succs_from(blocks, id, 2) =~= (if id == 1 {
        seq![2nat]
    } else if id == 2 {
        seq![3nat]
    } else if id == 3 {
        seq![4nat]
    } else if id == 4 {
        seq![6nat]
    } else if id == 6 {
        seq![7nat, 8nat]
    } else if id == 7 || id == 8 {
        seq![9nat]
    } else if id == 9 {
        seq![10nat]
    } else {
        Seq::<nat>::empty()
    }));
    assert(succs_from(blocks, id, 1) =~= (if id == 0 {
        seq![1nat]
    } else if id == 1 {
        seq![2nat]
    } else if id == 2 {
        seq![3nat]
    } else if id == 3 {
        seq![4nat]
    } else if id == 4 {
        seq![6nat]
    } else if id == 6 {
        seq![7nat, 8nat]
    } else if id == 7 || id == 8 {
        seq![9nat]
    } else if id == 9 {
        seq![10nat]
    } else {
        Seq::<nat>::empty()
    }));
    assert(succs_from(blocks, id, 0) =~= succs_from(blocks, id, 1));
}

/// The lookup result of every id present in the ten-block layout.
proof fn lemma_layout_lookup(a: i64, b: i64, opt: OperandModel, opx: OperandModel, id: nat)
    requires
        id <= 10,
        id != 5,
    ensures
        ({
            let blocks = if_layout(a, b, opt, opx);
            lookup_block_s(blocks, id) == Some(
                blocks[if id <= 4 {
                    id as int
                } else {
                    id - 1
                }],
            )
        }),
{
    let blocks = if_layout(a, b, opt, opx);
    assert(lookup_from(blocks, id, 10) is None);
    assert(lookup_from(blocks, id, 9) == (if id == 10 {
        Some(blocks[9])
    } else {
        lookup_from(blocks, id, 10)
    }));
    assert(lookup_from(blocks, id, 8) == (if id == 9 {
        Some(blocks[8])
    } else {
        lookup_from(blocks, id, 9)
    }));
    assert(lookup_from(blocks, id, 7) == (if id == 8 {
        Some(blocks[7])
    } else {
        lookup_from(blocks, id, 8)
    }));
    assert(lookup_from(blocks, id, 6) == (if id == 7 {
        Some(blocks[6])
    } else {
        lookup_from(blocks, id, 7)
    }));
    assert(lookup_from(blocks, id, 5) == (if id == 6 {
        Some(blocks[5])
    } else {
        lookup_from(blocks, id, 6)
    }));
    assert(lookup_from(blocks, id, 4) == (if id == 4 {
        Some(blocks[4])
    } else {
        lookup_from(blocks, id, 5)
    }));
    assert(lookup_from(blocks, id, 3) == (if id == 3 {
        Some(blocks[3])
    } else {
        lookup_from(blocks, id, 4)
    }));
    assert(lookup_from(blocks, id, 2) == (if id == 2 {
        Some(blocks[2])
    } else {
        lookup_from(blocks, id, 3)
    }));
    assert(lookup_from(blocks, id, 1) == (if id == 1 {
        Some(blocks[1])
    } else {
        lookup_from(blocks, id, 2)
    }));
    assert(lookup_from(blocks, id, 0) == (if id == 0 {
        Some(blocks[0])
    } else {
        lookup_from(blocks, id, 1)
    }));
}

/// The line a print operand's execution emits.
pub open spec fn op_line(op: OperandModel, strings: Seq<Seq<char>>) -> Seq<char> {
    match op {
        OperandModel::String(si) => strings[si as int],
        OperandModel::Immediate(v) => dec_int(v as int),
        _ => seq![],
    }
}

/// A print operand the layout can execute: an in-range string index or an
/// immediate.
pub open spec fn op_printable(op: OperandModel, strings: Seq<Seq<char>>) -> bool {
    match op {
        OperandModel::String(si) => si < strings.len(),
        OperandModel::Immediate(v) => true,
        _ => false,
    }
}

/// Walking the ten-block layout emits exactly the "then" print's line
/// when the literals are equal and exactly the "else" print's line when
/// they differ.
#[verifier::rlimit(60)]
proof fn lemma_branch_walk(
    cfg: CfgModel,
    a: i64,
    b: i64,
    opt: OperandModel,
    opx: OperandModel,
    nvars: nat,
    strings: Seq<Seq<char>>,
)
    requires
        cfg.blocks == if_layout(a, b, opt, opx),
        cfg.entry == 0,
        cfg.exit == 10,
        op_printable(opt, strings),
        op_printable(opx, strings),
    ensures
        run_cfg_s(cfg, nvars, strings) == Ok::<Seq<Seq<char>>, RunError>(
            seq![
                if a == b {
                    op_line(opt, strings)
                } else {
                    op_line(opx, strings)
                },
            ],
        ),
{
    let blocks = if_layout(a, b, opt, opx);
    let cv: i64 = if a == b {
        1
    } else {
        0
    };
    let init = init_state_s(nvars);
    let s2 = write_temp_s(init, 0, a);
    let s3 = write_temp_s(s2, 1, b);
    let s4 = write_temp_s(s3, 2, cv);
    assert(s2.temps =~= seq![Some(a)]);
    assert(s3.temps =~= seq![Some(a), Some(b)]);
    assert(s4.temps =~= seq![Some(a), Some(b), Some(cv)]);
    assert(s4.vars == init.vars && s4.output =~= Seq::<Seq<char>>::empty());
    let line = if a == b {
        op_line(opt, strings)
    } else {
        op_line(opx, strings)
    };
    let s5 = emit_line_s(s4, line);

    // successors and lookups in the fixed layout
    lemma_layout_succs(a, b, opt, opx, 0);
    lemma_layout_succs(a, b, opt, opx, 1);
    lemma_layout_succs(a, b, opt, opx, 2);
    lemma_layout_succs(a, b, opt, opx, 3);
    lemma_layout_succs(a, b, opt, opx, 4);
    lemma_layout_succs(a, b, opt, opx, 6);
    lemma_layout_succs(a, b, opt, opx, 7);
    lemma_layout_succs(a, b, opt, opx, 8);
    lemma_layout_succs(a, b, opt, opx, 9);
    lemma_layout_lookup(a, b, opt, opx, 0);
    lemma_layout_lookup(a, b, opt, opx, 1);
    lemma_layout_lookup(a, b, opt, opx, 2);
    lemma_layout_lookup(a, b, opt, opx, 3);
    lemma_layout_lookup(a, b, opt, opx, 4);
    lemma_layout_lookup(a, b, opt, opx, 6);
    lemma_layout_lookup(a, b, opt, opx, 7);
    lemma_layout_lookup(a, b, opt, opx, 8);
    lemma_layout_lookup(a, b, opt, opx, 9);

    // block bodies
    assert(run_block_s(blocks[0].instructions, init, strings, 0) == Ok::<RunState, RunError>(
        init,
    ));
    assert(run_block_s(blocks[1].instructions, init, strings, 0) == Ok::<RunState, RunError>(
        init,
    ));
    assert(run_block_s(blocks[2].instructions, init, strings, 0) == Ok::<RunState, RunError>(s2))
        by {
        assert(run_block_s(blocks[2].instructions, s2, strings, 1) == Ok::<RunState, RunError>(
            s2,
        ));
    }
    assert(run_block_s(blocks[3].instructions, s2, strings, 0) == Ok::<RunState, RunError>(s3))
        by {
        assert(run_block_s(blocks[3].instructions, s3, strings, 1) == Ok::<RunState, RunError>(
            s3,
        ));
    }
    assert(run_block_s(blocks[4].instructions, s3, strings, 0) == Ok::<RunState, RunError>(s4))
        by {
        assert(resolve_s(OperandModel::Temporary(0), s3) == Some(a));
        assert(resolve_s(OperandModel::Temporary(1), s3) == Some(b));
        assert(run_block_s(blocks[4].instructions, s4, strings, 1) == Ok::<RunState, RunError>(
            s4,
        ));
    }
    assert(run_block_s(blocks[5].instructions, s4, strings, 0) == Ok::<RunState, RunError>(s4))
        by {
        assert(run_block_s(blocks[5].instructions, s4, strings, 1) == Ok::<RunState, RunError>(
            s4,
        ));
    }
    let st_t = emit_line_s(s4, op_line(opt, strings));
    let st_x = emit_line_s(s4, op_line(opx, strings));
    assert(run_block_s(blocks[6].instructions, s4, strings, 0) == Ok::<RunState, RunError>(st_t))
        by {
        assert(step_instr_s(blocks[6].instructions[0], s4, strings) == Ok::<RunState, RunError>(
            st_t,
        ));
        assert(run_block_s(blocks[6].instructions, st_t, strings, 1) == Ok::<
            RunState,
            RunError,
        >(st_t));
    }
    assert(run_block_s(blocks[7].instructions, s4, strings, 0) == Ok::<RunState, RunError>(st_x))
        by {
        assert(step_instr_s(blocks[7].instructions[0], s4, strings) == Ok::<RunState, RunError>(
            st_x,
        ));
        assert(run_block_s(blocks[7].instructions, st_x, strings, 1) == Ok::<
            RunState,
            RunError,
        >(st_x));
    }
    assert(run_block_s(blocks[8].instructions, s5, strings, 0) == Ok::<RunState, RunError>(s5));

    // transitions
    assert(find_if_s(blocks[5].instructions, 0) == Some(if_instr_s(5, 2)));
    assert(next_block_s(cfg, blocks[5], s4.vars, s4.temps) == Ok::<nat, RunError>(
        if a == b {
            7nat
        } else {
            8nat
        },
    )) by {
        assert(resolve_s(OperandModel::Temporary(2), s4) == Some(cv));
    }
    assert(find_if_s(blocks[0].instructions, 0) is None);
    assert(find_if_s(blocks[1].instructions, 0) is None);
    assert(find_if_s(blocks[2].instructions, 0) is None) by {
        assert(find_if_s(blocks[2].instructions, 1) is None);
    }
    assert(find_if_s(blocks[3].instructions, 0) is None) by {
        assert(find_if_s(blocks[3].instructions, 1) is None);
    }
    assert(find_if_s(blocks[4].instructions, 0) is None) by {
        assert(find_if_s(blocks[4].instructions, 1) is None);
    }
    assert(find_if_s(blocks[6].instructions, 0) is None) by {
        assert(find_if_s(blocks[6].instructions, 1) is None);
    }
    assert(find_if_s(blocks[7].instructions, 0) is None) by {
        assert(find_if_s(blocks[7].instructions, 1) is None);
    }
    assert(find_if_s(blocks[8].instructions, 0) is None);

    // the walk, with the budget of one step per block
    assert(run_from_s(cfg, 10, s5, strings, 2) == Ok::<RunState, RunError>(s5));
    assert(run_from_s(cfg, 9, s5, strings, 3) == Ok::<RunState, RunError>(s5));
    if a == b {
        assert(st_t == s5);
        assert(run_from_s(cfg, 7, s4, strings, 4) == Ok::<RunState, RunError>(s5));
        assert(run_from_s(cfg, 6, s4, strings, 5) == Ok::<RunState, RunError>(s5));
    } else {
        assert(st_x == s5);
        assert(run_from_s(cfg, 8, s4, strings, 4) == Ok::<RunState, RunError>(s5));
        assert(run_from_s(cfg, 6, s4, strings, 5) == Ok::<RunState, RunError>(s5));
    }
    assert(run_from_s(cfg, 4, s3, strings, 6) == Ok::<RunState, RunError>(s5));
    assert(run_from_s(cfg, 3, s2, strings, 7) == Ok::<RunState, RunError>(s5));
    assert(run_from_s(cfg, 2, init, strings, 8) == Ok::<RunState, RunError>(s5));
    assert(run_from_s(cfg, 1, init, strings, 9) == Ok::<RunState, RunError>(s5));
    assert(run_from_s(cfg, 0, init, strings, 10) == Ok::<RunState, RunError>(s5));
    assert(s5.output =~= seq![line]);
}

/// Branch exclusivity for a one-branch-point program: when the two
/// literals are equal the run emits the "then" print's line and nothing
/// else; when they differ, the "else" print's line and nothing else —
/// whatever the symbol table's size.
pub proof fn lemma_branch_exclusivity(
    nodes: Seq<Node>,
    root: int,
    nvars: nat,
    strings: Seq<Seq<char>>,
)
    requires
        if_print_program(nodes, root, strings),
    ensures
        build_s(nodes, root).1 is None,
        run_cfg_s(build_s(nodes, root).0, nvars, strings) == Ok::<Seq<Seq<char>>, RunError>(
            if leaf_value(nodes, nodes[nodes[root].children@[0] as int].children@[0] as int)
                == leaf_value(
                nodes,
                nodes[nodes[root].children@[0] as int].children@[1] as int,
            ) {
                stmt_lines(nodes, nodes[root].children@[1] as int, strings)
            } else {
                stmt_lines(nodes, nodes[root].children@[2] as int, strings)
            },
        ),
{
    let c = nodes[root].children@[0] as int;
    let t = nodes[root].children@[1] as int;
    let x = nodes[root].children@[2] as int;
    let a = leaf_value(nodes, nodes[c].children@[0] as int);
    let b = leaf_value(nodes, nodes[c].children@[1] as int);
    lemma_branch_build(nodes, root, strings);
    let cfg = build_s(nodes, root).0;
    assert(cfg.blocks == if_layout(a, b, print_op(nodes, t), print_op(nodes, x)));
    lemma_branch_walk(cfg, a, b, print_op(nodes, t), print_op(nodes, x), nvars, strings);
    assert(stmt_lines(nodes, t, strings) =~= seq![op_line(print_op(nodes, t), strings)]);
    assert(stmt_lines(nodes, x, strings) =~= seq![op_line(print_op(nodes, x), strings)]);
}

} // verus!
