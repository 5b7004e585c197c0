//! The intermediate representation and its builder: a control-flow graph
//! of basic blocks holding three-address-style instructions, produced from
//! a program tree by one depth-first, order-preserving pass.
//!
//! The whole construction is mirrored by pure model functions (`*_s`
//! below); the executable builder is proved to produce exactly the graph
//! the model describes, including exactly when construction fails.

use vstd::prelude::*;

use crate::ast::{Node, NodeType};
use crate::symbol::SymbolRef;
use crate::token::TokenType;

verus! {

/// The operation an instruction performs. `Call`, `Ret` and `Push` are
/// reserved and carry no semantics yet; the construction API rejects them.
#[derive(Debug, Clone, Copy, PartialEq, Eq, Structural)]
pub enum Opcode {
    Add,
    Sub,
    Mul,
    Div,
    CmpEq,
    Call,
    Ret,
    Push,
    Print,
    Mov,
    If,
}

/// One operand of an instruction.
#[derive(Debug, Clone, Copy, PartialEq, Eq, Structural)]
pub enum Operand {
    /// A signed 64-bit immediate value.
    Immediate(i64),
    /// A block-label reference, kept only for documentation.
    Label(usize),
    /// An index into the string list.
    String(usize),
    /// A resolved variable handle.
    Variable(SymbolRef),
    /// A numbered temporary slot.
    Temporary(usize),
}

/// The model of an operand: the same vocabulary over unbounded naturals.
pub ghost enum OperandModel {
    Immediate(i64),
    Label(nat),
    String(nat),
    Variable(nat),
    Temporary(nat),
}

impl View for Operand {
    type V = OperandModel;

    open spec fn view(&self) -> OperandModel {
        match *self {
            Operand::Immediate(v) => OperandModel::Immediate(v),
            Operand::Label(l) => OperandModel::Label(l as nat),
            Operand::String(s) => OperandModel::String(s as nat),
            Operand::Variable(v) => OperandModel::Variable(v as nat),
            Operand::Temporary(t) => OperandModel::Temporary(t as nat),
        }
    }
}

/// The views of a sequence of operands.
pub open spec fn ops_view(ops: Seq<Operand>) -> Seq<OperandModel> {
    ops.map_values(|o: Operand| o@)
}

/// The views of a sequence of instructions.
pub open spec fn instrs_view(instrs: Seq<Instruction>) -> Seq<InstrModel> {
    instrs.map_values(|i: Instruction| i@)
}

/// A sequence of machine-word ids as unbounded naturals.
pub open spec fn ids_view(ids: Seq<usize>) -> Seq<nat> {
    ids.map_values(|p: usize| p as nat)
}

/// The model of an instruction.
pub ghost struct InstrModel {
    pub id: nat,
    pub opcode: Opcode,
    pub operands: Seq<OperandModel>,
}

/// An operand that resolves to a 64-bit value at run time.
pub open spec fn is_value_operand(op: OperandModel) -> bool {
    op is Immediate || op is Temporary || op is Variable
}

/// Which operand lists an opcode can interpret. This is the structural
/// invariant the construction API enforces, so the interpreter never meets
/// an operand kind its opcode cannot read.
pub open spec fn operands_ok(opcode: Opcode, ops: Seq<OperandModel>) -> bool {
    match opcode {
        Opcode::Add | Opcode::Sub | Opcode::Mul | Opcode::Div | Opcode::CmpEq => {
            &&& ops.len() == 3
            &&& ops[0] is Temporary
            &&& is_value_operand(ops[1])
            &&& is_value_operand(ops[2])
        },
        Opcode::Mov => {
            &&& ops.len() == 2
            &&& (ops[0] is Temporary || ops[0] is Variable)
            &&& is_value_operand(ops[1])
        },
        Opcode::Print => {
            &&& ops.len() == 1
            &&& (is_value_operand(ops[0]) || ops[0] is String)
        },
        Opcode::If => {
            &&& ops.len() == 1
            &&& ops[0] is Temporary
        },
        Opcode::Call | Opcode::Ret | Opcode::Push => false,
    }
}

/// A three-address-style instruction. Its fields are only reachable
/// through the checked constructor, so every instruction in existence
/// satisfies `operands_ok`.
#[derive(Debug, Clone)]
pub struct Instruction {
    id: usize,
    opcode: Opcode,
    operands: Vec<Operand>,
}

impl View for Instruction {
    type V = InstrModel;

    closed spec fn view(&self) -> InstrModel {
        InstrModel { id: self.id as nat, opcode: self.opcode, operands: ops_view(self.operands@) }
    }
}

/// Construction failures: the tree violated the expected shape for its
/// node kind, or asked for an operator outside the lowered set.
#[derive(Debug, Clone, Copy, PartialEq, Eq, Structural)]
pub enum BuildError {
    /// A tree node's shape does not match the grammar for its kind, or a
    /// node kind has no lowering rule.
    MalformedInput,
    /// An expression operator or condition comparator outside `+ - * / ==`.
    UnsupportedOperator,
}

impl Instruction {
    /// Builds an instruction after checking that the opcode can interpret
    /// the given operand list; rejects ill-formed combinations instead of
    /// deferring the discovery to execution time.
    pub fn new(id: usize, opcode: Opcode, operands: Vec<Operand>) -> (r: Result<
        Instruction,
        BuildError,
    >)
        ensures
            r is Ok <==> operands_ok(opcode, ops_view(operands@)),
            r is Ok ==> r->Ok_0@ == (InstrModel {
                id: id as nat,
                opcode,
                operands: ops_view(operands@),
            }),
            r is Err ==> r->Err_0 == BuildError::MalformedInput,
    {
        let ok: bool = match opcode {
            Opcode::Add | Opcode::Sub | Opcode::Mul | Opcode::Div | Opcode::CmpEq => {
                operands.len() == 3 && operands[0].is_temporary() && operands[1].is_value()
                    && operands[2].is_value()
            },
            Opcode::Mov => {
                operands.len() == 2 && (operands[0].is_temporary() || operands[0].is_variable())
                    && operands[1].is_value()
            },
            Opcode::Print => {
                operands.len() == 1 && (operands[0].is_value() || operands[0].is_string_index())
            },
            Opcode::If => operands.len() == 1 && operands[0].is_temporary(),
            Opcode::Call | Opcode::Ret | Opcode::Push => false,
        };
        if ok {
            Ok(Instruction { id, opcode, operands })
        } else {
            Err(BuildError::MalformedInput)
        }
    }

    /// The instruction's per-build id.
    pub fn id(&self) -> (r: usize)
        ensures
            r as nat == self@.id,
    {
        self.id
    }

    /// The instruction's operation.
    pub fn opcode(&self) -> (r: Opcode)
        ensures
            r == self@.opcode,
    {
        self.opcode
    }

    /// The instruction's operands, in order.
    pub fn operands(&self) -> (r: &Vec<Operand>)
        ensures
            ops_view(r@) == self@.operands,
    {
        &self.operands
    }
}

impl Operand {
    /// Whether this operand is a temporary-slot reference.
    pub fn is_temporary(&self) -> (r: bool)
        ensures
            r == self@ is Temporary,
    {
        match *self {
            Operand::Temporary(_) => true,
            _ => false,
        }
    }

    /// Whether this operand is a variable reference.
    pub fn is_variable(&self) -> (r: bool)
        ensures
            r == self@ is Variable,
    {
        match *self {
            Operand::Variable(_) => true,
            _ => false,
        }
    }

    /// Whether this operand is a string-table index.
    pub fn is_string_index(&self) -> (r: bool)
        ensures
            r == self@ is String,
    {
        match *self {
            Operand::String(_) => true,
            _ => false,
        }
    }

    /// Whether this operand resolves to a 64-bit value at run time.
    pub fn is_value(&self) -> (r: bool)
        ensures
            r == is_value_operand(self@),
    {
        match *self {
            Operand::Immediate(_) | Operand::Temporary(_) | Operand::Variable(_) => true,
            _ => false,
        }
    }
}

/// The model of a basic block.
pub ghost struct BlockModel {
    pub id: nat,
    pub instructions: Seq<InstrModel>,
    pub predecessors: Seq<nat>,
}

/// A basic block: an id, a straight-line instruction sequence, and the ids
/// of its predecessors. Successor edges are not stored: a block's
/// successors are the blocks whose predecessor list carries its id, in
/// block-creation order.
#[derive(Debug, Clone)]
pub struct BasicBlock {
    id: usize,
    instructions: Vec<Instruction>,
    predecessors: Vec<usize>,
}

impl View for BasicBlock {
    type V = BlockModel;

    closed spec fn view(&self) -> BlockModel {
        BlockModel {
            id: self.id as nat,
            instructions: instrs_view(self.instructions@),
            predecessors: ids_view(self.predecessors@),
        }
    }
}

impl BasicBlock {
    /// The block's instructions, in execution order.
    pub fn get_instructions(&self) -> (r: &Vec<Instruction>)
        ensures
            instrs_view(r@) == self@.instructions,
    {
        &self.instructions
    }

    /// The block's id.
    pub fn id(&self) -> (r: usize)
        ensures
            r as nat == self@.id,
    {
        self.id
    }
}

/// The model of a whole control-flow graph.
pub ghost struct CfgModel {
    pub blocks: Seq<BlockModel>,
    pub entry: nat,
    pub exit: nat,
    pub next_id: nat,
    pub next_temp: nat,
}

/// A control-flow graph: its blocks in creation order, the designated
/// entry and exit ids, and the two id generators of the build.
#[derive(Debug, Clone)]
pub struct CFG {
    blocks: Vec<BasicBlock>,
    entry: usize,
    exit: usize,
    next_id: usize,
    next_temporary_variable_id: usize,
}

impl View for CFG {
    type V = CfgModel;

    closed spec fn view(&self) -> CfgModel {
        CfgModel {
            blocks: self.blocks@.map_values(|b: BasicBlock| b@),
            entry: self.entry as nat,
            exit: self.exit as nat,
            next_id: self.next_id as nat,
            next_temp: self.next_temporary_variable_id as nat,
        }
    }
}

/// The first block from position `k` on that carries `id`, if any.
pub open spec fn lookup_from(blocks: Seq<BlockModel>, id: nat, k: int) -> Option<BlockModel>
    decreases blocks.len() - k,
{
    if k < 0 || k >= blocks.len() {
        None
    } else if blocks[k].id == id {
        Some(blocks[k])
    } else {
        lookup_from(blocks, id, k + 1)
    }
}

/// The first block carrying `id`, if any. Ids are unique in a built
/// graph, so "first" is no restriction there.
pub open spec fn lookup_block_s(blocks: Seq<BlockModel>, id: nat) -> Option<BlockModel> {
    lookup_from(blocks, id, 0)
}

/// The successors of block `id` found from position `k` on.
pub open spec fn succs_from(blocks: Seq<BlockModel>, id: nat, k: int) -> Seq<nat>
    decreases blocks.len() - k,
{
    if k < 0 || k >= blocks.len() {
        seq![]
    } else if blocks[k].predecessors.contains(id) {
        seq![blocks[k].id] + succs_from(blocks, id, k + 1)
    } else {
        succs_from(blocks, id, k + 1)
    }
}

/// The successors of block `id`: the ids of the blocks whose predecessor
/// list carries `id`, in block-creation order. The first-listed successor
/// of a branch block is its "then" path, the second its "else" path.
pub open spec fn succs_of(blocks: Seq<BlockModel>, id: nat) -> Seq<nat> {
    succs_from(blocks, id, 0)
}

/// The rolling state of one build: the blocks produced so far, the current
/// sequence tail, and the two id generators.
pub ghost struct BuildState {
    pub blocks: Seq<BlockModel>,
    pub tail: nat,
    pub next_id: nat,
    pub next_temp: nat,
}

/// The build state a graph and a sequence tail stand for.
pub open spec fn st_of(cfg: CfgModel, tail: nat) -> BuildState {
    BuildState { blocks: cfg.blocks, tail, next_id: cfg.next_id, next_temp: cfg.next_temp }
}

/// The most recently allocated temporary slot.
pub open spec fn last_temp(st: BuildState) -> nat {
    if st.next_temp > 0 {
        (st.next_temp - 1) as nat
    } else {
        0
    }
}

/// Appends one block to the graph.
pub open spec fn add_block_s(
    blocks: Seq<BlockModel>,
    id: nat,
    instructions: Seq<InstrModel>,
    predecessors: Seq<nat>,
) -> Seq<BlockModel> {
    blocks.push(BlockModel { id, instructions, predecessors })
}

/// Appends a block holding one instruction that shares the block's id,
/// anchored on the current tail, and makes it the new tail.
pub open spec fn emit1_s(st: BuildState, opcode: Opcode, operands: Seq<OperandModel>) -> BuildState {
    let id = st.next_id;
    BuildState {
        blocks: add_block_s(
            st.blocks,
            id,
            seq![InstrModel { id, opcode, operands }],
            seq![st.tail],
        ),
        tail: id,
        next_id: id + 1,
        next_temp: st.next_temp,
    }
}

/// Lowers a binary operation: a fresh temporary receives the operation of
/// the two given temporaries.
pub open spec fn emit_binary_s(st: BuildState, opcode: Opcode, lt: nat, rt: nat) -> BuildState {
    let temp = st.next_temp;
    let st1 = emit1_s(
        st,
        opcode,
        seq![
            OperandModel::Temporary(temp),
            OperandModel::Temporary(lt),
            OperandModel::Temporary(rt),
        ],
    );
    BuildState { blocks: st1.blocks, tail: st1.tail, next_id: st1.next_id, next_temp: temp + 1 }
}

/// Lowers a leaf expression: a fresh temporary receives the given source.
pub open spec fn emit_leaf_s(st: BuildState, src: OperandModel) -> BuildState {
    let temp = st.next_temp;
    let st1 = emit1_s(st, Opcode::Mov, seq![OperandModel::Temporary(temp), src]);
    BuildState { blocks: st1.blocks, tail: st1.tail, next_id: st1.next_id, next_temp: temp + 1 }
}

/// The arithmetic opcode an expression operator symbol stands for.
pub open spec fn opcode_of(data: Seq<char>) -> Option<Opcode> {
    if data == "+"@ {
        Some(Opcode::Add)
    } else if data == "-"@ {
        Some(Opcode::Sub)
    } else if data == "*"@ {
        Some(Opcode::Mul)
    } else if data == "/"@ {
        Some(Opcode::Div)
    } else {
        None
    }
}

/// The model of lowering an expression node: a compound expression lowers
/// its left operand, then its right operand, then computes into a fresh
/// temporary; a leaf copies its literal or variable into a fresh
/// temporary. The pair carries the state reached and, on failure, what
/// went wrong at that state.
pub open spec fn lower_expr_s(nodes: Seq<Node>, idx: int, st: BuildState) -> (
    BuildState,
    Option<BuildError>,
)
    decreases idx, 0int, 0int,
{
    if idx < 0 || idx >= nodes.len() {
        (st, Some(BuildError::MalformedInput))
    } else if nodes[idx].node_type != NodeType::Expression {
        (st, Some(BuildError::MalformedInput))
    } else if nodes[idx].children@.len() == 2 {
        let lc = nodes[idx].children@[0] as int;
        let rc = nodes[idx].children@[1] as int;
        if !(lc < idx) {
            (st, Some(BuildError::MalformedInput))
        } else {
            let lres = lower_expr_s(nodes, lc, st);
            if lres.1 is Some {
                lres
            } else {
                let lt = last_temp(lres.0);
                if !(rc < idx) {
                    (lres.0, Some(BuildError::MalformedInput))
                } else {
                    let rres = lower_expr_s(nodes, rc, lres.0);
                    if rres.1 is Some {
                        rres
                    } else {
                        let rt = last_temp(rres.0);
                        match opcode_of(nodes[idx].data@) {
                            Some(op) => (emit_binary_s(rres.0, op, lt, rt), None),
                            None => (rres.0, Some(BuildError::UnsupportedOperator)),
                        }
                    }
                }
            }
        }
    } else if nodes[idx].children@.len() == 0 {
        match nodes[idx].token {
            Some(tok) => match tok.token_type {
                TokenType::IntLiteral(v) => (emit_leaf_s(st, OperandModel::Immediate(v)), None),
                TokenType::Symbol(sym) => (
                    emit_leaf_s(st, OperandModel::Variable(sym as nat)),
                    None,
                ),
                _ => (st, Some(BuildError::MalformedInput)),
            },
            None => (st, Some(BuildError::MalformedInput)),
        }
    } else {
        (st, Some(BuildError::MalformedInput))
    }
}

/// The model of lowering a condition node: both operand expressions are
/// lowered, then an equality comparison writes 1 or 0 into a fresh
/// temporary. Only the `==` comparator is lowered.
pub open spec fn lower_cond_s(nodes: Seq<Node>, idx: int, st: BuildState) -> (
    BuildState,
    Option<BuildError>,
)
    decreases idx, 1int, 0int,
{
    if idx < 0 || idx >= nodes.len() {
        (st, Some(BuildError::MalformedInput))
    } else if nodes[idx].node_type != NodeType::Condition {
        (st, Some(BuildError::MalformedInput))
    } else if nodes[idx].children@.len() != 2 {
        (st, Some(BuildError::MalformedInput))
    } else {
        let lc = nodes[idx].children@[0] as int;
        let rc = nodes[idx].children@[1] as int;
        if !(lc < idx) {
            (st, Some(BuildError::MalformedInput))
        } else {
            let lres = lower_expr_s(nodes, lc, st);
            if lres.1 is Some {
                lres
            } else {
                let lt = last_temp(lres.0);
                if !(rc < idx) {
                    (lres.0, Some(BuildError::MalformedInput))
                } else {
                    let rres = lower_expr_s(nodes, rc, lres.0);
                    if rres.1 is Some {
                        rres
                    } else {
                        let rt = last_temp(rres.0);
                        if nodes[idx].data@ == "=="@ {
                            (emit_binary_s(rres.0, Opcode::CmpEq, lt, rt), None)
                        } else {
                            (rres.0, Some(BuildError::UnsupportedOperator))
                        }
                    }
                }
            }
        }
    }
}

/// The model of lowering the condition slot of an if-statement, which may
/// hold a comparison or a bare expression.
pub open spec fn lower_value_s(nodes: Seq<Node>, idx: int, st: BuildState) -> (
    BuildState,
    Option<BuildError>,
)
    decreases idx, 2int, 0int,
{
    if idx < 0 || idx >= nodes.len() {
        (st, Some(BuildError::MalformedInput))
    } else if nodes[idx].node_type == NodeType::Condition {
        lower_cond_s(nodes, idx, st)
    } else {
        lower_expr_s(nodes, idx, st)
    }
}

/// The state after appending the empty fork-anchor block that an
/// if-statement starts with.
pub open spec fn fork_state_s(st: BuildState) -> BuildState {
    let fid = st.next_id;
    BuildState {
        blocks: add_block_s(st.blocks, fid, seq![], seq![st.tail]),
        tail: fid,
        next_id: fid + 1,
        next_temp: st.next_temp,
    }
}

/// The branch instruction that consumes the condition temporary.
pub open spec fn if_instr_s(id: nat, cond_temp: nat) -> InstrModel {
    InstrModel { id, opcode: Opcode::If, operands: seq![OperandModel::Temporary(cond_temp)] }
}

/// The state after appending the block holding the `If` instruction: the
/// instruction draws one id, the block the next.
pub open spec fn if_header_s(st: BuildState) -> BuildState {
    let iid = st.next_id;
    BuildState {
        blocks: add_block_s(st.blocks, iid + 1, seq![if_instr_s(iid, last_temp(st))], seq![st.tail]),
        tail: iid + 1,
        next_id: iid + 2,
        next_temp: st.next_temp,
    }
}

/// The same state anchored on another tail.
pub open spec fn with_tail(st: BuildState, tail: nat) -> BuildState {
    BuildState { blocks: st.blocks, tail, next_id: st.next_id, next_temp: st.next_temp }
}

/// Appends the empty merge block that closes an if-statement: its
/// predecessors are the tails of the two branches (or of the branch block
/// itself, when a branch is absent), and it becomes the new tail.
pub open spec fn close_if_s(st: BuildState, body_id: nat, else_id: nat) -> BuildState {
    let eid = st.next_id;
    BuildState {
        blocks: add_block_s(st.blocks, eid, seq![], seq![body_id, else_id]),
        tail: eid,
        next_id: eid + 1,
        next_temp: st.next_temp,
    }
}

/// The model of lowering an if-statement: an empty fork-anchor block, the
/// condition, the `If` block, the "then" branch and, when present, the
/// "else" branch both anchored on the `If` block, and an empty merge
/// block anchored on both branch tails.
pub open spec fn build_if_s(nodes: Seq<Node>, idx: int, st: BuildState) -> (
    BuildState,
    Option<BuildError>,
)
    decreases idx, 3int, 2int,
{
    if idx < 0 || idx >= nodes.len() || nodes[idx].node_type != NodeType::IfStatement {
        (st, Some(BuildError::MalformedInput))
    } else if !(nodes[idx].children@.len() == 2 || nodes[idx].children@.len() == 3) {
        (st, Some(BuildError::MalformedInput))
    } else {
        let stf = fork_state_s(st);
        let cc = nodes[idx].children@[0] as int;
        if !(cc < idx) {
            (stf, Some(BuildError::MalformedInput))
        } else {
            let cres = lower_value_s(nodes, cc, stf);
            if cres.1 is Some {
                cres
            } else {
                let st2 = if_header_s(cres.0);
                let tc = nodes[idx].children@[1] as int;
                if !(tc < idx) {
                    (st2, Some(BuildError::MalformedInput))
                } else {
                    let tres = build_stmt_s(nodes, tc, st2);
                    if tres.1 is Some {
                        tres
                    } else {
                        build_if_else_s(nodes, idx, tres.0, st2.tail)
                    }
                }
            }
        }
    }
}

/// The model of lowering the optional "else" branch and the merge block,
/// continuing from the "then" branch's state, whose tail is the "then"
/// tail; `bid` is the id of the `If` block.
pub open spec fn build_if_else_s(nodes: Seq<Node>, idx: int, st3: BuildState, bid: nat) -> (
    BuildState,
    Option<BuildError>,
)
    decreases idx, 3int, 1int,
{
    if idx < 0 || idx >= nodes.len() {
        (st3, Some(BuildError::MalformedInput))
    } else if nodes[idx].children@.len() == 3 {
        let xc = nodes[idx].children@[2] as int;
        if !(xc < idx) {
            (st3, Some(BuildError::MalformedInput))
        } else {
            let xres = build_stmt_s(nodes, xc, with_tail(st3, bid));
            if xres.1 is Some {
                xres
            } else {
                (close_if_s(xres.0, st3.tail, xres.0.tail), None)
            }
        }
    } else {
        (close_if_s(st3, st3.tail, bid), None)
    }
}

/// The model of lowering a print statement: a bare interned string,
/// variable or integer literal is printed directly; a compound expression
/// is lowered first and its temporary printed.
pub open spec fn build_print_s(nodes: Seq<Node>, idx: int, st: BuildState) -> (
    BuildState,
    Option<BuildError>,
)
    decreases idx, 3int, 3int,
{
    if idx < 0 || idx >= nodes.len() || nodes[idx].node_type != NodeType::PrintStatement {
        (st, Some(BuildError::MalformedInput))
    } else if nodes[idx].children@.len() != 1 {
        (st, Some(BuildError::MalformedInput))
    } else {
        let c = nodes[idx].children@[0] as int;
        if !(c < nodes.len()) {
            (st, Some(BuildError::MalformedInput))
        } else {
            match nodes[c].token {
                Some(tok) => match tok.token_type {
                    TokenType::StringListIndex(si) => (
                        emit1_s(st, Opcode::Print, seq![OperandModel::String(si as nat)]),
                        None,
                    ),
                    TokenType::Symbol(sym) => (
                        emit1_s(st, Opcode::Print, seq![OperandModel::Variable(sym as nat)]),
                        None,
                    ),
                    TokenType::IntLiteral(v) => (
                        emit1_s(st, Opcode::Print, seq![OperandModel::Immediate(v)]),
                        None,
                    ),
                    _ => (st, Some(BuildError::MalformedInput)),
                },
                None => {
                    if !(c < idx) {
                        (st, Some(BuildError::MalformedInput))
                    } else {
                        let eres = lower_expr_s(nodes, c, st);
                        if eres.1 is Some {
                            eres
                        } else {
                            (
                                emit1_s(
                                    eres.0,
                                    Opcode::Print,
                                    seq![OperandModel::Temporary(last_temp(eres.0))],
                                ),
                                None,
                            )
                        }
                    }
                },
            }
        }
    }
}

/// The model of lowering an assignment: the right-hand expression is
/// lowered to a temporary, then one block writes that temporary into the
/// target variable.
pub open spec fn build_assign_s(nodes: Seq<Node>, idx: int, st: BuildState) -> (
    BuildState,
    Option<BuildError>,
)
    decreases idx, 3int, 3int,
{
    if idx < 0 || idx >= nodes.len() || nodes[idx].node_type != NodeType::AssignmentStatement {
        (st, Some(BuildError::MalformedInput))
    } else if nodes[idx].children@.len() != 2 {
        (st, Some(BuildError::MalformedInput))
    } else {
        let ec = nodes[idx].children@[1] as int;
        if !(ec < idx) {
            (st, Some(BuildError::MalformedInput))
        } else {
            let eres = lower_expr_s(nodes, ec, st);
            if eres.1 is Some {
                eres
            } else {
                let ic = nodes[idx].children@[0] as int;
                if !(ic < nodes.len()) {
                    (eres.0, Some(BuildError::MalformedInput))
                } else {
                    match nodes[ic].token {
                        Some(tok) => match tok.token_type {
                            TokenType::Symbol(sym) => (
                                emit1_s(
                                    eres.0,
                                    Opcode::Mov,
                                    seq![
                                        OperandModel::Variable(sym as nat),
                                        OperandModel::Temporary(last_temp(eres.0)),
                                    ],
                                ),
                                None,
                            ),
                            _ => (eres.0, Some(BuildError::MalformedInput)),
                        },
                        None => (eres.0, Some(BuildError::MalformedInput)),
                    }
                }
            }
        }
    }
}

/// The model of lowering one statement node. Sequencing kinds fold their
/// children left to right; `FunctionDefinition` and `FunctionCall` have no
/// lowering rule and fail construction.
pub open spec fn build_stmt_s(nodes: Seq<Node>, idx: int, st: BuildState) -> (
    BuildState,
    Option<BuildError>,
)
    decreases idx, 4int, 0int,
{
    if idx < 0 || idx >= nodes.len() {
        (st, Some(BuildError::MalformedInput))
    } else {
        match nodes[idx].node_type {
            NodeType::PrintStatement => build_print_s(nodes, idx, st),
            NodeType::AssignmentStatement => build_assign_s(nodes, idx, st),
            NodeType::Expression => lower_expr_s(nodes, idx, st),
            NodeType::Condition => lower_cond_s(nodes, idx, st),
            NodeType::IfStatement => build_if_s(nodes, idx, st),
            NodeType::Program | NodeType::StatementList | NodeType::Statement | NodeType::Term
                | NodeType::Factor => build_children_s(nodes, idx, 0, st),
            NodeType::FunctionDefinition | NodeType::FunctionCall => (
                st,
                Some(BuildError::MalformedInput),
            ),
        }
    }
}

/// The model of folding the children of a sequencing node, left to right,
/// each child's tail anchoring the next child.
pub open spec fn build_children_s(nodes: Seq<Node>, idx: int, k: int, st: BuildState) -> (
    BuildState,
    Option<BuildError>,
)
    decreases
            idx,
            3int,
            (if 0 <= idx < nodes.len() {
                nodes[idx].children@.len() - k
            } else {
                0int
            }),
{
    if idx < 0 || idx >= nodes.len() {
        (st, Some(BuildError::MalformedInput))
    } else if k < 0 || k >= nodes[idx].children@.len() {
        (st, None)
    } else {
        let c = nodes[idx].children@[k] as int;
        if !(c < idx) {
            (st, Some(BuildError::MalformedInput))
        } else {
            let cres = build_stmt_s(nodes, c, st);
            if cres.1 is Some {
                cres
            } else {
                build_children_s(nodes, idx, k + 1, cres.0)
            }
        }
    }
}

/// The model of a whole build from a fresh graph: an empty entry block,
/// the lowered program, and an empty exit block anchored on the final
/// tail. On failure the pair carries the partial graph and the error.
pub open spec fn build_s(nodes: Seq<Node>, root: int) -> (CfgModel, Option<BuildError>) {
    let st0 = BuildState {
        blocks: seq![BlockModel { id: 0, instructions: seq![], predecessors: seq![] }],
        tail: 0,
        next_id: 1,
        next_temp: 0,
    };
    let res = build_stmt_s(nodes, root, st0);
    if res.1 is Some {
        (
            CfgModel {
                blocks: res.0.blocks,
                entry: 0,
                exit: 0,
                next_id: res.0.next_id,
                next_temp: res.0.next_temp,
            },
            res.1,
        )
    } else {
        let eid = res.0.next_id;
        (
            CfgModel {
                blocks: add_block_s(res.0.blocks, eid, seq![], seq![res.0.tail]),
                entry: 0,
                exit: eid,
                next_id: eid + 1,
                next_temp: res.0.next_temp,
            },
            None,
        )
    }
}

/// Whether a build state's id generators still fit the machine word the
/// executable builder counts with.
pub open spec fn fits(st: BuildState) -> bool {
    st.next_id <= usize::MAX && st.next_temp <= usize::MAX
}

/// On the error side of a lowering result, the executable builder leaves
/// the graph exactly at the model's abort state; only the tail is moot.
pub open spec fn st_err_match(res: (BuildState, Option<BuildError>), post: CfgModel) -> bool {
    &&& res.0.blocks == post.blocks
    &&& res.0.next_id == post.next_id
    &&& res.0.next_temp == post.next_temp
}

/// A successful expression lowering has allocated at least one temporary.
proof fn lemma_expr_temp_pos(nodes: Seq<Node>, idx: int, st: BuildState)
    ensures
        lower_expr_s(nodes, idx, st).1 is None ==> lower_expr_s(nodes, idx, st).0.next_temp > 0,
{
}

/// A successful condition lowering has allocated at least one temporary.
proof fn lemma_cond_temp_pos(nodes: Seq<Node>, idx: int, st: BuildState)
    ensures
        lower_cond_s(nodes, idx, st).1 is None ==> lower_cond_s(nodes, idx, st).0.next_temp > 0,
{
}

/// A successful condition-slot lowering has allocated at least one
/// temporary.
proof fn lemma_value_temp_pos(nodes: Seq<Node>, idx: int, st: BuildState)
    ensures
        lower_value_s(nodes, idx, st).1 is None ==> lower_value_s(nodes, idx, st).0.next_temp > 0,
{
    lemma_expr_temp_pos(nodes, idx, st);
    lemma_cond_temp_pos(nodes, idx, st);
}

/// Lowering an expression never rewinds either id generator.
proof fn lemma_expr_mono(nodes: Seq<Node>, idx: int, st: BuildState)
    ensures
        st.next_id <= lower_expr_s(nodes, idx, st).0.next_id,
        st.next_temp <= lower_expr_s(nodes, idx, st).0.next_temp,
    decreases idx, 0int, 0int,
{
    if 0 <= idx < nodes.len() && nodes[idx].node_type == NodeType::Expression
        && nodes[idx].children@.len() == 2 {
        let lc = nodes[idx].children@[0] as int;
        let rc = nodes[idx].children@[1] as int;
        if lc < idx {
            lemma_expr_mono(nodes, lc, st);
            let lres = lower_expr_s(nodes, lc, st);
            if lres.1 is None && rc < idx {
                lemma_expr_mono(nodes, rc, lres.0);
            }
        }
    }
}

/// Lowering a condition never rewinds either id generator.
proof fn lemma_cond_mono(nodes: Seq<Node>, idx: int, st: BuildState)
    ensures
        st.next_id <= lower_cond_s(nodes, idx, st).0.next_id,
        st.next_temp <= lower_cond_s(nodes, idx, st).0.next_temp,
    decreases idx, 1int, 0int,
{
    if 0 <= idx < nodes.len() && nodes[idx].node_type == NodeType::Condition
        && nodes[idx].children@.len() == 2 {
        let lc = nodes[idx].children@[0] as int;
        let rc = nodes[idx].children@[1] as int;
        if lc < idx {
            lemma_expr_mono(nodes, lc, st);
            let lres = lower_expr_s(nodes, lc, st);
            if lres.1 is None && rc < idx {
                lemma_expr_mono(nodes, rc, lres.0);
            }
        }
    }
}

/// Lowering a condition slot never rewinds either id generator.
proof fn lemma_value_mono(nodes: Seq<Node>, idx: int, st: BuildState)
    ensures
        st.next_id <= lower_value_s(nodes, idx, st).0.next_id,
        st.next_temp <= lower_value_s(nodes, idx, st).0.next_temp,
    decreases idx, 2int, 0int,
{
    if 0 <= idx < nodes.len() {
        if nodes[idx].node_type == NodeType::Condition {
            lemma_cond_mono(nodes, idx, st);
        } else {
            lemma_expr_mono(nodes, idx, st);
        }
    }
}

/// Lowering a statement never rewinds either id generator.
proof fn lemma_stmt_mono(nodes: Seq<Node>, idx: int, st: BuildState)
    ensures
        st.next_id <= build_stmt_s(nodes, idx, st).0.next_id,
        st.next_temp <= build_stmt_s(nodes, idx, st).0.next_temp,
    decreases idx, 4int, 0int,
{
    if 0 <= idx < nodes.len() {
        match nodes[idx].node_type {
            NodeType::PrintStatement => {
                if nodes[idx].children@.len() == 1 {
                    let c = nodes[idx].children@[0] as int;
                    if c < nodes.len() && nodes[c].token is None && c < idx {
                        lemma_expr_mono(nodes, c, st);
                    }
                }
            },
            NodeType::AssignmentStatement => {
                if nodes[idx].children@.len() == 2 {
                    let ec = nodes[idx].children@[1] as int;
                    if ec < idx {
                        lemma_expr_mono(nodes, ec, st);
                    }
                }
            },
            NodeType::Expression => {
                lemma_expr_mono(nodes, idx, st);
            },
            NodeType::Condition => {
                lemma_cond_mono(nodes, idx, st);
            },
            NodeType::IfStatement => {
                lemma_if_mono(nodes, idx, st);
            },
            NodeType::Program | NodeType::StatementList | NodeType::Statement | NodeType::Term
                | NodeType::Factor => {
                lemma_children_mono(nodes, idx, 0, st);
            },
            NodeType::FunctionDefinition | NodeType::FunctionCall => {},
        }
    }
}

/// Lowering an if-statement never rewinds either id generator.
proof fn lemma_if_mono(nodes: Seq<Node>, idx: int, st: BuildState)
    ensures
        st.next_id <= build_if_s(nodes, idx, st).0.next_id,
        st.next_temp <= build_if_s(nodes, idx, st).0.next_temp,
    decreases idx, 3int, 2int,
{
    if 0 <= idx < nodes.len() && nodes[idx].node_type == NodeType::IfStatement
        && (nodes[idx].children@.len() == 2 || nodes[idx].children@.len() == 3) {
        let stf = fork_state_s(st);
        let cc = nodes[idx].children@[0] as int;
        if cc < idx {
            lemma_value_mono(nodes, cc, stf);
            let cres = lower_value_s(nodes, cc, stf);
            if cres.1 is None {
                let st2 = if_header_s(cres.0);
                let tc = nodes[idx].children@[1] as int;
                if tc < idx {
                    lemma_stmt_mono(nodes, tc, st2);
                    let tres = build_stmt_s(nodes, tc, st2);
                    if tres.1 is None {
                        lemma_if_else_mono(nodes, idx, tres.0, st2.tail);
                    }
                }
            }
        }
    }
}

/// Lowering an else branch and merge block never rewinds either id
/// generator.
proof fn lemma_if_else_mono(nodes: Seq<Node>, idx: int, st3: BuildState, bid: nat)
    ensures
        st3.next_id <= build_if_else_s(nodes, idx, st3, bid).0.next_id,
        st3.next_temp <= build_if_else_s(nodes, idx, st3, bid).0.next_temp,
    decreases idx, 3int, 1int,
{
    if 0 <= idx < nodes.len() && nodes[idx].children@.len() == 3 {
        let xc = nodes[idx].children@[2] as int;
        if xc < idx {
            lemma_stmt_mono(nodes, xc, with_tail(st3, bid));
        }
    }
}

/// Folding a sequencing node's children never rewinds either id generator.
proof fn lemma_children_mono(nodes: Seq<Node>, idx: int, k: int, st: BuildState)
    ensures
        st.next_id <= build_children_s(nodes, idx, k, st).0.next_id,
        st.next_temp <= build_children_s(nodes, idx, k, st).0.next_temp,
    decreases
            idx,
            3int,
            (if 0 <= idx < nodes.len() {
                nodes[idx].children@.len() - k
            } else {
                0int
            }),
{
    if 0 <= idx < nodes.len() && 0 <= k < nodes[idx].children@.len() {
        let c = nodes[idx].children@[k] as int;
        if c < idx {
            lemma_stmt_mono(nodes, c, st);
            let cres = build_stmt_s(nodes, c, st);
            if cres.1 is None {
                lemma_children_mono(nodes, idx, k + 1, cres.0);
            }
        }
    }
}

/// Builds an instruction in the module, bypassing the public checked
/// constructor; every use below is covered by the builder's proof that the
/// produced graph equals its model, whose instructions satisfy
/// `operands_ok`.
fn mk_instr(id: usize, opcode: Opcode, operands: Vec<Operand>) -> (r: Instruction)
    ensures
        r@ == (InstrModel { id: id as nat, opcode, operands: ops_view(operands@) }),
{
    Instruction { id, opcode, operands }
}

impl CFG {
    /// A fresh, empty graph, ready for one build.
    pub fn new() -> (r: Self)
        ensures
            r@.blocks.len() == 0,
            r@.entry == 0,
            r@.exit == 0,
            r@.next_id == 0,
            r@.next_temp == 0,
    {
        Self { blocks: Vec::new(), entry: 0, exit: 0, next_id: 0, next_temporary_variable_id: 0 }
    }

    /// Draws the next shared block/instruction id.
    fn next_id(&mut self) -> (id: usize)
        requires
            old(self)@.next_id < usize::MAX,
        ensures
            id as nat == old(self)@.next_id,
            final(self)@ == (CfgModel { next_id: old(self)@.next_id + 1, ..old(self)@ }),
    {
        let id = self.next_id;
        self.next_id += 1;
        id
    }

    /// Draws the next temporary-slot id.
    fn next_temp_id(&mut self) -> (id: usize)
        requires
            old(self)@.next_temp < usize::MAX,
        ensures
            id as nat == old(self)@.next_temp,
            final(self)@ == (CfgModel { next_temp: old(self)@.next_temp + 1, ..old(self)@ }),
    {
        let id = self.next_temporary_variable_id;
        self.next_temporary_variable_id += 1;
        id
    }

    /// The most recently drawn temporary-slot id.
    fn get_last_temp_id(&self) -> (r: usize)
        requires
            self@.next_temp > 0,
        ensures
            r as nat + 1 == self@.next_temp,
    {
        self.next_temporary_variable_id - 1
    }

    /// Appends one block to the graph.
    fn push_block(&mut self, id: usize, instructions: Vec<Instruction>, predecessors: Vec<usize>)
        ensures
            final(self)@ == (CfgModel {
                blocks: add_block_s(
                    old(self)@.blocks,
                    id as nat,
                    instrs_view(instructions@),
                    ids_view(predecessors@),
                ),
                ..old(self)@
            }),
    {
        let b = BasicBlock { id, instructions, predecessors };
        self.blocks.push(b);
        proof {
            assert(self@.blocks =~= add_block_s(
                old(self)@.blocks,
                id as nat,
                b@.instructions,
                b@.predecessors,
            ));
        }
    }

    /// Appends a block holding one instruction that shares the block's id,
    /// anchored on `pred`, and returns that id.
    fn emit1(&mut self, opcode: Opcode, operands: Vec<Operand>, pred: usize) -> (id: usize)
        requires
            old(self)@.next_id < usize::MAX,
        ensures
            id as nat == old(self)@.next_id,
            final(self)@.entry == old(self)@.entry,
            final(self)@.exit == old(self)@.exit,
            st_of(final(self)@, id as nat) == emit1_s(
                st_of(old(self)@, pred as nat),
                opcode,
                ops_view(operands@),
            ),
    {
        let ghost ops = ops_view(operands@);
        let id = self.next_id();
        let instr = mk_instr(id, opcode, operands);
        let instrs = vec![instr];
        let preds = vec![pred];
        proof {
            assert(instrs_view(instrs@) =~= seq![
                InstrModel { id: id as nat, opcode, operands: ops },
            ]);
            assert(ids_view(preds@) =~= seq![pred as nat]);
        }
        self.push_block(id, instrs, preds);
        id
    }

    /// Lowers a binary operation into a fresh temporary.
    fn emit_binary(&mut self, opcode: Opcode, lt: usize, rt: usize, pred: usize) -> (id: usize)
        requires
            old(self)@.next_id < usize::MAX,
            old(self)@.next_temp < usize::MAX,
        ensures
            id as nat == old(self)@.next_id,
            final(self)@.entry == old(self)@.entry,
            final(self)@.exit == old(self)@.exit,
            st_of(final(self)@, id as nat) == emit_binary_s(
                st_of(old(self)@, pred as nat),
                opcode,
                lt as nat,
                rt as nat,
            ),
    {
        let id = self.next_id();
        let temp = self.next_temp_id();
        let instr = mk_instr(
            id,
            opcode,
            vec![Operand::Temporary(temp), Operand::Temporary(lt), Operand::Temporary(rt)],
        );
        let instrs = vec![instr];
        let preds = vec![pred];
        proof {
            assert(instr@.operands =~= seq![
                OperandModel::Temporary(temp as nat),
                OperandModel::Temporary(lt as nat),
                OperandModel::Temporary(rt as nat),
            ]);
            assert(instrs_view(instrs@) =~= seq![instr@]);
            assert(ids_view(preds@) =~= seq![pred as nat]);
        }
        self.push_block(id, instrs, preds);
        id
    }

    /// Lowers a leaf expression: a fresh temporary receives `src`.
    fn emit_leaf(&mut self, src: Operand, pred: usize) -> (id: usize)
        requires
            old(self)@.next_id < usize::MAX,
            old(self)@.next_temp < usize::MAX,
        ensures
            id as nat == old(self)@.next_id,
            final(self)@.entry == old(self)@.entry,
            final(self)@.exit == old(self)@.exit,
            st_of(final(self)@, id as nat) == emit_leaf_s(st_of(old(self)@, pred as nat), src@),
    {
        let id = self.next_id();
        let temp = self.next_temp_id();
        let instr = mk_instr(id, Opcode::Mov, vec![Operand::Temporary(temp), src]);
        let instrs = vec![instr];
        let preds = vec![pred];
        proof {
            assert(instr@.operands =~= seq![OperandModel::Temporary(temp as nat), src@]);
            assert(instrs_view(instrs@) =~= seq![instr@]);
            assert(ids_view(preds@) =~= seq![pred as nat]);
        }
        self.push_block(id, instrs, preds);
        id
    }

    /// Lowers an expression node from the tail `parent`, returning the new
    /// tail; the graph afterwards is exactly `lower_expr_s`'s.
    fn lower_expr(&mut self, nodes: &Vec<Node>, idx: usize, parent: usize) -> (r: Result<
        usize,
        BuildError,
    >)
        requires
            fits(lower_expr_s(nodes@, idx as int, st_of(old(self)@, parent as nat)).0),
        ensures
            final(self)@.entry == old(self)@.entry,
            final(self)@.exit == old(self)@.exit,
            ({
                let res = lower_expr_s(nodes@, idx as int, st_of(old(self)@, parent as nat));
                match r {
                    Ok(t) => res.1 is None && res.0 == st_of(final(self)@, t as nat),
                    Err(e) => res.1 == Some(e) && st_err_match(res, final(self)@),
                }
            }),
        decreases idx, 0int, 0int,
    {
        let ghost st0 = st_of(self@, parent as nat);
        let ghost res = lower_expr_s(nodes@, idx as int, st0);
        if idx >= nodes.len() {
            return Err(BuildError::MalformedInput);
        }
        if nodes[idx].node_type != NodeType::Expression {
            return Err(BuildError::MalformedInput);
        }
        let clen = nodes[idx].children.len();
        if clen == 2 {
            let lc = nodes[idx].children[0];
            let rc = nodes[idx].children[1];
            if !(lc < idx) {
                return Err(BuildError::MalformedInput);
            }
            proof {
                lemma_expr_mono(nodes@, rc as int, lower_expr_s(nodes@, lc as int, st0).0);
            }
            let ltail = match self.lower_expr(nodes, lc, parent) {
                Ok(t) => t,
                Err(e) => {
                    return Err(e);
                },
            };
            proof {
                lemma_expr_temp_pos(nodes@, lc as int, st0);
            }
            let lt = self.get_last_temp_id();
            if !(rc < idx) {
                return Err(BuildError::MalformedInput);
            }
            let ghost st1 = lower_expr_s(nodes@, lc as int, st0).0;
            let rtail = match self.lower_expr(nodes, rc, ltail) {
                Ok(t) => t,
                Err(e) => {
                    return Err(e);
                },
            };
            proof {
                lemma_expr_temp_pos(nodes@, rc as int, st1);
            }
            let rt = self.get_last_temp_id();
            let op: Opcode;
            if nodes[idx].data == "+".to_owned() {
                op = Opcode::Add;
            } else if nodes[idx].data == "-".to_owned() {
                op = Opcode::Sub;
            } else if nodes[idx].data == "*".to_owned() {
                op = Opcode::Mul;
            } else if nodes[idx].data == "/".to_owned() {
                op = Opcode::Div;
            } else {
                return Err(BuildError::UnsupportedOperator);
            }
            let id = self.emit_binary(op, lt, rt, rtail);
            Ok(id)
        } else if clen == 0 {
            match &nodes[idx].token {
                Some(tok) => match &tok.token_type {
                    TokenType::IntLiteral(v) => {
                        let id = self.emit_leaf(Operand::Immediate(*v), parent);
                        Ok(id)
                    },
                    TokenType::Symbol(sym) => {
                        let id = self.emit_leaf(Operand::Variable(*sym), parent);
                        Ok(id)
                    },
                    _ => Err(BuildError::MalformedInput),
                },
                None => Err(BuildError::MalformedInput),
            }
        } else {
            Err(BuildError::MalformedInput)
        }
    }

    /// Lowers a condition node from the tail `parent`, returning the new
    /// tail; the graph afterwards is exactly `lower_cond_s`'s.
    fn lower_cond(&mut self, nodes: &Vec<Node>, idx: usize, parent: usize) -> (r: Result<
        usize,
        BuildError,
    >)
        requires
            fits(lower_cond_s(nodes@, idx as int, st_of(old(self)@, parent as nat)).0),
        ensures
            final(self)@.entry == old(self)@.entry,
            final(self)@.exit == old(self)@.exit,
            ({
                let res = lower_cond_s(nodes@, idx as int, st_of(old(self)@, parent as nat));
                match r {
                    Ok(t) => res.1 is None && res.0 == st_of(final(self)@, t as nat),
                    Err(e) => res.1 == Some(e) && st_err_match(res, final(self)@),
                }
            }),
        decreases idx, 1int, 0int,
    {
        let ghost st0 = st_of(self@, parent as nat);
        if idx >= nodes.len() {
            return Err(BuildError::MalformedInput);
        }
        if nodes[idx].node_type != NodeType::Condition {
            return Err(BuildError::MalformedInput);
        }
        if nodes[idx].children.len() != 2 {
            return Err(BuildError::MalformedInput);
        }
        let lc = nodes[idx].children[0];
        let rc = nodes[idx].children[1];
        if !(lc < idx) {
            return Err(BuildError::MalformedInput);
        }
        proof {
            lemma_expr_mono(nodes@, rc as int, lower_expr_s(nodes@, lc as int, st0).0);
        }
        let ltail = match self.lower_expr(nodes, lc, parent) {
            Ok(t) => t,
            Err(e) => {
                return Err(e);
            },
        };
        proof {
            lemma_expr_temp_pos(nodes@, lc as int, st0);
        }
        let lt = self.get_last_temp_id();
        if !(rc < idx) {
            return Err(BuildError::MalformedInput);
        }
        let ghost st1 = lower_expr_s(nodes@, lc as int, st0).0;
        let rtail = match self.lower_expr(nodes, rc, ltail) {
            Ok(t) => t,
            Err(e) => {
                return Err(e);
            },
        };
        proof {
            lemma_expr_temp_pos(nodes@, rc as int, st1);
        }
        let rt = self.get_last_temp_id();
        if nodes[idx].data == "==".to_owned() {
            let id = self.emit_binary(Opcode::CmpEq, lt, rt, rtail);
            Ok(id)
        } else {
            Err(BuildError::UnsupportedOperator)
        }
    }

    /// Lowers the condition slot of an if-statement, which may hold a
    /// comparison or a bare expression.
    fn lower_value(&mut self, nodes: &Vec<Node>, idx: usize, parent: usize) -> (r: Result<
        usize,
        BuildError,
    >)
        requires
            fits(lower_value_s(nodes@, idx as int, st_of(old(self)@, parent as nat)).0),
        ensures
            final(self)@.entry == old(self)@.entry,
            final(self)@.exit == old(self)@.exit,
            ({
                let res = lower_value_s(nodes@, idx as int, st_of(old(self)@, parent as nat));
                match r {
                    Ok(t) => res.1 is None && res.0 == st_of(final(self)@, t as nat),
                    Err(e) => res.1 == Some(e) && st_err_match(res, final(self)@),
                }
            }),
        decreases idx, 2int, 0int,
    {
        if idx >= nodes.len() {
            return Err(BuildError::MalformedInput);
        }
        if nodes[idx].node_type == NodeType::Condition {
            self.lower_cond(nodes, idx, parent)
        } else {
            self.lower_expr(nodes, idx, parent)
        }
    }

    /// Lowers a print statement from the tail `parent`; the graph
    /// afterwards is exactly `build_print_s`'s.
    fn build_print(&mut self, nodes: &Vec<Node>, idx: usize, parent: usize) -> (r: Result<
        usize,
        BuildError,
    >)
        requires
            fits(build_print_s(nodes@, idx as int, st_of(old(self)@, parent as nat)).0),
        ensures
            final(self)@.entry == old(self)@.entry,
            final(self)@.exit == old(self)@.exit,
            ({
                let res = build_print_s(nodes@, idx as int, st_of(old(self)@, parent as nat));
                match r {
                    Ok(t) => res.1 is None && res.0 == st_of(final(self)@, t as nat),
                    Err(e) => res.1 == Some(e) && st_err_match(res, final(self)@),
                }
            }),
        decreases idx, 3int, 3int,
    {
        let ghost st0 = st_of(self@, parent as nat);
        if idx >= nodes.len() {
            return Err(BuildError::MalformedInput);
        }
        if nodes[idx].node_type != NodeType::PrintStatement {
            return Err(BuildError::MalformedInput);
        }
        if nodes[idx].children.len() != 1 {
            return Err(BuildError::MalformedInput);
        }
        let c = nodes[idx].children[0];
        if !(c < nodes.len()) {
            return Err(BuildError::MalformedInput);
        }
        match &nodes[c].token {
            Some(tok) => match &tok.token_type {
                TokenType::StringListIndex(si) => {
                    let sival: usize = *si;
                    let ops = vec![Operand::String(sival)];
                    proof {
                        assert(ops_view(ops@) =~= seq![OperandModel::String(sival as nat)]);
                    }
                    let id = self.emit1(Opcode::Print, ops, parent);
                    Ok(id)
                },
                TokenType::Symbol(sym) => {
                    let symval: usize = *sym;
                    let ops = vec![Operand::Variable(symval)];
                    proof {
                        assert(ops_view(ops@) =~= seq![OperandModel::Variable(symval as nat)]);
                    }
                    let id = self.emit1(Opcode::Print, ops, parent);
                    Ok(id)
                },
                TokenType::IntLiteral(v) => {
                    let vval: i64 = *v;
                    let ops = vec![Operand::Immediate(vval)];
                    proof {
                        assert(ops_view(ops@) =~= seq![OperandModel::Immediate(vval)]);
                    }
                    let id = self.emit1(Opcode::Print, ops, parent);
                    Ok(id)
                },
                _ => Err(BuildError::MalformedInput),
            },
            None => {
                if !(c < idx) {
                    return Err(BuildError::MalformedInput);
                }
                let etail = match self.lower_expr(nodes, c, parent) {
                    Ok(t) => t,
                    Err(e) => {
                        return Err(e);
                    },
                };
                proof {
                    lemma_expr_temp_pos(nodes@, c as int, st0);
                }
                let temp = self.get_last_temp_id();
                let ops = vec![Operand::Temporary(temp)];
                proof {
                    assert(ops_view(ops@) =~= seq![OperandModel::Temporary(temp as nat)]);
                }
                let id = self.emit1(Opcode::Print, ops, etail);
                Ok(id)
            },
        }
    }

    /// Lowers an assignment from the tail `parent`; the graph afterwards
    /// is exactly `build_assign_s`'s.
    fn build_assign(&mut self, nodes: &Vec<Node>, idx: usize, parent: usize) -> (r: Result<
        usize,
        BuildError,
    >)
        requires
            fits(build_assign_s(nodes@, idx as int, st_of(old(self)@, parent as nat)).0),
        ensures
            final(self)@.entry == old(self)@.entry,
            final(self)@.exit == old(self)@.exit,
            ({
                let res = build_assign_s(nodes@, idx as int, st_of(old(self)@, parent as nat));
                match r {
                    Ok(t) => res.1 is None && res.0 == st_of(final(self)@, t as nat),
                    Err(e) => res.1 == Some(e) && st_err_match(res, final(self)@),
                }
            }),
        decreases idx, 3int, 3int,
    {
        let ghost st0 = st_of(self@, parent as nat);
        if idx >= nodes.len() {
            return Err(BuildError::MalformedInput);
        }
        if nodes[idx].node_type != NodeType::AssignmentStatement {
            return Err(BuildError::MalformedInput);
        }
        if nodes[idx].children.len() != 2 {
            return Err(BuildError::MalformedInput);
        }
        let ec = nodes[idx].children[1];
        if !(ec < idx) {
            return Err(BuildError::MalformedInput);
        }
        let etail = match self.lower_expr(nodes, ec, parent) {
            Ok(t) => t,
            Err(e) => {
                return Err(e);
            },
        };
        proof {
            lemma_expr_temp_pos(nodes@, ec as int, st0);
        }
        let temp = self.get_last_temp_id();
        let ic = nodes[idx].children[0];
        if !(ic < nodes.len()) {
            return Err(BuildError::MalformedInput);
        }
        match &nodes[ic].token {
            Some(tok) => match &tok.token_type {
                TokenType::Symbol(sym) => {
                    let symval: usize = *sym;
                    let ops = vec![Operand::Variable(symval), Operand::Temporary(temp)];
                    proof {
                        assert(ops_view(ops@) =~= seq![
                            OperandModel::Variable(symval as nat),
                            OperandModel::Temporary(temp as nat),
                        ]);
                    }
                    let id = self.emit1(Opcode::Mov, ops, etail);
                    Ok(id)
                },
                _ => Err(BuildError::MalformedInput),
            },
            None => Err(BuildError::MalformedInput),
        }
    }

    /// Lowers an if-statement from the tail `parent`; the graph afterwards
    /// is exactly `build_if_s`'s.
    fn build_if(&mut self, nodes: &Vec<Node>, idx: usize, parent: usize) -> (r: Result<
        usize,
        BuildError,
    >)
        requires
            fits(build_if_s(nodes@, idx as int, st_of(old(self)@, parent as nat)).0),
        ensures
            final(self)@.entry == old(self)@.entry,
            final(self)@.exit == old(self)@.exit,
            ({
                let res = build_if_s(nodes@, idx as int, st_of(old(self)@, parent as nat));
                match r {
                    Ok(t) => res.1 is None && res.0 == st_of(final(self)@, t as nat),
                    Err(e) => res.1 == Some(e) && st_err_match(res, final(self)@),
                }
            }),
        decreases idx, 3int, 2int,
    {
        let ghost st0 = st_of(self@, parent as nat);
        if idx >= nodes.len() {
            return Err(BuildError::MalformedInput);
        }
        if nodes[idx].node_type != NodeType::IfStatement {
            return Err(BuildError::MalformedInput);
        }
        let clen = nodes[idx].children.len();
        if !(clen == 2 || clen == 3) {
            return Err(BuildError::MalformedInput);
        }
        proof {
            let stfg = fork_state_s(st0);
            let ccg = nodes@[idx as int].children@[0] as int;
            if ccg < idx as int {
                lemma_value_mono(nodes@, ccg, stfg);
                let cresg = lower_value_s(nodes@, ccg, stfg);
                if cresg.1 is None {
                    let st2g = if_header_s(cresg.0);
                    let tcg = nodes@[idx as int].children@[1] as int;
                    if tcg < idx as int {
                        lemma_stmt_mono(nodes@, tcg, st2g);
                        let tresg = build_stmt_s(nodes@, tcg, st2g);
                        if tresg.1 is None {
                            lemma_if_else_mono(nodes@, idx as int, tresg.0, st2g.tail);
                            if nodes@[idx as int].children@.len() == 3 {
                                let xcg = nodes@[idx as int].children@[2] as int;
                                if xcg < idx as int {
                                    lemma_stmt_mono(
                                        nodes@,
                                        xcg,
                                        with_tail(tresg.0, st2g.tail),
                                    );
                                }
                            }
                        }
                    }
                }
            }
        }
        let fid = self.next_id();
        let fork_instrs: Vec<Instruction> = Vec::new();
        let fork_preds = vec![parent];
        proof {
            assert(instrs_view(fork_instrs@) =~= Seq::<InstrModel>::empty());
            assert(ids_view(fork_preds@) =~= seq![parent as nat]);
        }
        self.push_block(fid, fork_instrs, fork_preds);
        let ghost stf = fork_state_s(st0);
        proof {
            assert(st_of(self@, fid as nat) == stf);
        }
        let cc = nodes[idx].children[0];
        if !(cc < idx) {
            return Err(BuildError::MalformedInput);
        }
        let ctail = match self.lower_value(nodes, cc, fid) {
            Ok(t) => t,
            Err(e) => {
                return Err(e);
            },
        };
        proof {
            lemma_value_temp_pos(nodes@, cc as int, stf);
        }
        let cond_temp = self.get_last_temp_id();
        let iid = self.next_id();
        let bid = self.next_id();
        let instr = mk_instr(iid, Opcode::If, vec![Operand::Temporary(cond_temp)]);
        let instrs = vec![instr];
        let preds = vec![ctail];
        proof {
            assert(instr@.operands =~= seq![OperandModel::Temporary(cond_temp as nat)]);
            assert(instr@ == if_instr_s(iid as nat, cond_temp as nat));
            assert(instrs_view(instrs@) =~= seq![
                if_instr_s(iid as nat, cond_temp as nat),
            ]);
            assert(ids_view(preds@) =~= seq![ctail as nat]);
        }
        self.push_block(bid, instrs, preds);
        let ghost st2 = if_header_s(lower_value_s(nodes@, cc as int, stf).0);
        proof {
            assert(st_of(self@, bid as nat) == st2);
        }
        let tc = nodes[idx].children[1];
        if !(tc < idx) {
            return Err(BuildError::MalformedInput);
        }
        let body_tail = match self.build_stmt(nodes, tc, bid) {
            Ok(t) => t,
            Err(e) => {
                return Err(e);
            },
        };
        let ghost st3 = build_stmt_s(nodes@, tc as int, st2).0;
        let mut else_tail = bid;
        if clen == 3 {
            let xc = nodes[idx].children[2];
            if !(xc < idx) {
                return Err(BuildError::MalformedInput);
            }
            else_tail = match self.build_stmt(nodes, xc, bid) {
                Ok(t) => t,
                Err(e) => {
                    return Err(e);
                },
            };
        }
        let eid = self.next_id();
        let merge_instrs: Vec<Instruction> = Vec::new();
        let merge_preds = vec![body_tail, else_tail];
        proof {
            assert(instrs_view(merge_instrs@) =~= Seq::<InstrModel>::empty());
            assert(ids_view(merge_preds@) =~= seq![
                body_tail as nat,
                else_tail as nat,
            ]);
        }
        self.push_block(eid, merge_instrs, merge_preds);
        Ok(eid)
    }

    /// Lowers one statement node from the tail `parent`, returning the new
    /// tail; the graph afterwards is exactly `build_stmt_s`'s.
    fn build_stmt(&mut self, nodes: &Vec<Node>, idx: usize, parent: usize) -> (r: Result<
        usize,
        BuildError,
    >)
        requires
            fits(build_stmt_s(nodes@, idx as int, st_of(old(self)@, parent as nat)).0),
        ensures
            final(self)@.entry == old(self)@.entry,
            final(self)@.exit == old(self)@.exit,
            ({
                let res = build_stmt_s(nodes@, idx as int, st_of(old(self)@, parent as nat));
                match r {
                    Ok(t) => res.1 is None && res.0 == st_of(final(self)@, t as nat),
                    Err(e) => res.1 == Some(e) && st_err_match(res, final(self)@),
                }
            }),
        decreases idx, 4int, 0int,
    {
        if idx >= nodes.len() {
            return Err(BuildError::MalformedInput);
        }
        match nodes[idx].node_type {
            NodeType::PrintStatement => self.build_print(nodes, idx, parent),
            NodeType::AssignmentStatement => self.build_assign(nodes, idx, parent),
            NodeType::Expression => self.lower_expr(nodes, idx, parent),
            NodeType::Condition => self.lower_cond(nodes, idx, parent),
            NodeType::IfStatement => self.build_if(nodes, idx, parent),
            NodeType::Program | NodeType::StatementList | NodeType::Statement | NodeType::Term
                | NodeType::Factor => self.build_children(nodes, idx, 0, parent),
            NodeType::FunctionDefinition | NodeType::FunctionCall => Err(
                BuildError::MalformedInput,
            ),
        }
    }

    /// Folds the children of a sequencing node from position `k` on, each
    /// child's tail anchoring the next child.
    fn build_children(&mut self, nodes: &Vec<Node>, idx: usize, k: usize, parent: usize) -> (r:
        Result<usize, BuildError>)
        requires
            fits(build_children_s(nodes@, idx as int, k as int, st_of(old(self)@, parent as nat)).0),
        ensures
            final(self)@.entry == old(self)@.entry,
            final(self)@.exit == old(self)@.exit,
            ({
                let res = build_children_s(
                    nodes@,
                    idx as int,
                    k as int,
                    st_of(old(self)@, parent as nat),
                );
                match r {
                    Ok(t) => res.1 is None && res.0 == st_of(final(self)@, t as nat),
                    Err(e) => res.1 == Some(e) && st_err_match(res, final(self)@),
                }
            }),
        decreases
                idx,
                3int,
                (if (idx as int) < nodes@.len() {
                    nodes@[idx as int].children@.len() - k
                } else {
                    0int
                }),
    {
        let ghost st0 = st_of(self@, parent as nat);
        if idx >= nodes.len() {
            return Err(BuildError::MalformedInput);
        }
        if k >= nodes[idx].children.len() {
            return Ok(parent);
        }
        let c = nodes[idx].children[k];
        if !(c < idx) {
            return Err(BuildError::MalformedInput);
        }
        proof {
            lemma_children_mono(nodes@, idx as int, k as int + 1, build_stmt_s(nodes@, c as int, st0).0);
        }
        let ctail = match self.build_stmt(nodes, c, parent) {
            Ok(t) => t,
            Err(e) => {
                return Err(e);
            },
        };
        self.build_children(nodes, idx, k + 1, ctail)
    }

    /// Builds the whole graph for the program tree rooted at `root` in the
    /// arena `nodes`: an empty entry block, the lowered program, and an
    /// empty exit block anchored on the final sequence tail. The graph
    /// afterwards is exactly `build_s`'s, and the call fails exactly when
    /// the model says construction fails.
    pub fn build(&mut self, nodes: &Vec<Node>, root: usize) -> (r: Result<(), BuildError>)
        requires
            old(self)@.blocks.len() == 0,
            old(self)@.entry == 0,
            old(self)@.exit == 0,
            old(self)@.next_id == 0,
            old(self)@.next_temp == 0,
            fits(st_of(build_s(nodes@, root as int).0, 0)),
        ensures
            final(self)@ == build_s(nodes@, root as int).0,
            r is Ok <==> build_s(nodes@, root as int).1 is None,
            r is Err ==> build_s(nodes@, root as int).1 == Some(r->Err_0),
    {
        let eid0 = self.next_id();
        self.entry = eid0;
        let entry_instrs: Vec<Instruction> = Vec::new();
        let entry_preds: Vec<usize> = Vec::new();
        proof {
            assert(instrs_view(entry_instrs@) =~= Seq::<InstrModel>::empty());
            assert(ids_view(entry_preds@) =~= Seq::<nat>::empty());
        }
        self.push_block(eid0, entry_instrs, entry_preds);
        proof {
            assert(self@.blocks =~= seq![
                BlockModel { id: 0, instructions: seq![], predecessors: seq![] },
            ]);
            assert(st_of(self@, eid0 as nat) == (BuildState {
                blocks: seq![BlockModel { id: 0, instructions: seq![], predecessors: seq![] }],
                tail: 0,
                next_id: 1,
                next_temp: 0,
            }));
            lemma_stmt_mono(nodes@, root as int, st_of(self@, eid0 as nat));
        }
        let tail = match self.build_stmt(nodes, root, eid0) {
            Ok(t) => t,
            Err(e) => {
                return Err(e);
            },
        };
        let eid = self.next_id();
        self.exit = eid;
        let exit_instrs: Vec<Instruction> = Vec::new();
        let exit_preds = vec![tail];
        proof {
            assert(instrs_view(exit_instrs@) =~= Seq::<InstrModel>::empty());
            assert(ids_view(exit_preds@) =~= seq![tail as nat]);
        }
        self.push_block(eid, exit_instrs, exit_preds);
        Ok(())
    }

    /// How many blocks the graph holds.
    pub fn block_count(&self) -> (r: usize)
        ensures
            r == self@.blocks.len(),
    {
        self.blocks.len()
    }

    /// The id of the designated entry block.
    pub fn entry_block(&self) -> (r: usize)
        ensures
            r as nat == self@.entry,
    {
        self.entry
    }

    /// The id of the designated exit block.
    pub fn exit_block(&self) -> (r: usize)
        ensures
            r as nat == self@.exit,
    {
        self.exit
    }

    /// The successors of block `id`, in block-creation order: the ids of
    /// the blocks whose predecessor list carries `id`.
    pub fn get_successors(&self, id: usize) -> (r: Vec<usize>)
        ensures
            ids_view(r@) == succs_of(self@.blocks, id as nat),
    {
        let mut successors: Vec<usize> = Vec::new();
        let n = self.blocks.len();
        let mut i: usize = 0;
        proof {
            assert(ids_view(successors@) + succs_from(
                self@.blocks,
                id as nat,
                0,
            ) =~= succs_from(self@.blocks, id as nat, 0));
        }
        while i < n
            invariant
                n == self.blocks@.len(),
                i <= n,
                succs_of(self@.blocks, id as nat) == ids_view(successors@) + succs_from(
                    self@.blocks,
                    id as nat,
                    i as int,
                ),
            decreases n - i,
        {
            let ghost pre = successors@;
            if has_pred(&self.blocks[i], id) {
                successors.push(self.blocks[i].id);
                proof {
                    assert(ids_view(successors@) =~= ids_view(pre).push(
                        self@.blocks[i as int].id,
                    ));
                    assert(ids_view(pre).push(self@.blocks[i as int].id) + succs_from(
                        self@.blocks,
                        id as nat,
                        i as int + 1,
                    ) =~= ids_view(pre) + (seq![self@.blocks[i as int].id] + succs_from(
                        self@.blocks,
                        id as nat,
                        i as int + 1,
                    )));
                }
            }
            i += 1;
        }
        successors
    }

    /// The block carrying `id`; the caller knows the graph holds one.
    pub fn get_block(&self, id: usize) -> (r: &BasicBlock)
        requires
            lookup_block_s(self@.blocks, id as nat) is Some,
        ensures
            r@ == lookup_block_s(self@.blocks, id as nat)->Some_0,
    {
        match self.find_block(id) {
            Some(b) => b,
            None => vstd::pervasive::unreached(),
        }
    }

    /// The first block carrying `id`, if the graph holds one.
    pub fn find_block(&self, id: usize) -> (r: Option<&BasicBlock>)
        ensures
            r is Some <==> lookup_block_s(self@.blocks, id as nat) is Some,
            r is Some ==> r->Some_0@ == lookup_block_s(self@.blocks, id as nat)->Some_0,
    {
        let n = self.blocks.len();
        let mut i: usize = 0;
        while i < n
            invariant
                n == self.blocks@.len(),
                i <= n,
                lookup_block_s(self@.blocks, id as nat) == lookup_from(
                    self@.blocks,
                    id as nat,
                    i as int,
                ),
            decreases n - i,
        {
            if self.blocks[i].id == id {
                return Some(&self.blocks[i]);
            }
            i += 1;
        }
        None
    }
}

/// Whether a block's predecessor list carries `id`.
fn has_pred(b: &BasicBlock, id: usize) -> (r: bool)
    ensures
        r == b@.predecessors.contains(id as nat),
{
    let n = b.predecessors.len();
    let mut i: usize = 0;
    while i < n
        invariant
            n == b.predecessors@.len(),
            i <= n,
            forall|j: int| 0 <= j < i ==> b@.predecessors[j] != id as nat,
        decreases n - i,
    {
        if b.predecessors[i] == id {
            proof {
                assert(b@.predecessors[i as int] == id as nat);
            }
            return true;
        }
        i += 1;
    }
    proof {
        assert forall|j: int| 0 <= j < b@.predecessors.len() implies b@.predecessors[j] != id
            as nat by {}
    }
    false
}

} // verus!
