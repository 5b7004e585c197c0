//! The graph interpreter: a state machine whose states are block ids. The
//! walk starts at the entry id, executes each block's instructions in
//! order, follows successor edges — choosing by the `If` instruction's
//! temporary where one is present — and stops at the exit id. Its only
//! observable effect is the ordered sequence of output lines.
//!
//! The walk is mirrored by pure model functions; the executable
//! interpreter is proved to return exactly what the model says. A graph
//! with no path to the exit cannot arise from the builder, but the walk
//! is defensive anyway: a step budget of one step per block bounds it,
//! and exhausting the budget is a typed error.

use vstd::prelude::*;

use crate::arith::{add64, div64, mul64, sub64, add64_exec, div64_exec, mul64_exec, sub64_exec};
use crate::ast::{Node, NodeType};
use crate::cfg::{
    ids_view, instrs_view, lookup_block_s, opcode_of, succs_of, BasicBlock, BlockModel, CfgModel,
    InstrModel, Instruction, Opcode, Operand, OperandModel, CFG,
};
use crate::numfmt::{dec_int, i64_to_string};
use crate::symbol::{StringList, SymbolTable};
use crate::token::TokenType;

verus! {

/// Execution failures: a reference read before any write reaches it, a
/// zero divisor, an instruction the interpreter cannot read, or a walk
/// that fails to reach the exit id.
#[derive(Debug, Clone, Copy, PartialEq, Eq, Structural)]
pub enum RunError {
    /// A variable, temporary or string index was read before being
    /// defined.
    UnresolvedReference,
    /// A division instruction met a zero divisor.
    DivisionByZero,
    /// An instruction carried an operand list its opcode cannot read, or
    /// a reserved opcode; built graphs never hold one.
    MalformedInstruction,
    /// The walk exhausted its step budget or met a block without the
    /// successors it needed.
    NoPathToExit,
}

/// The transient state of one run: the variable environment, the
/// temporary environment, and the output lines so far.
pub ghost struct RunState {
    pub vars: Seq<Option<i64>>,
    pub temps: Seq<Option<i64>>,
    pub output: Seq<Seq<char>>,
}

/// The value an operand resolves to against the two environments, if it
/// resolves: an immediate is itself; a temporary or variable reads its
/// slot.
pub open spec fn resolve_vt_s(
    op: OperandModel,
    vars: Seq<Option<i64>>,
    temps: Seq<Option<i64>>,
) -> Option<i64> {
    match op {
        OperandModel::Immediate(v) => Some(v),
        OperandModel::Temporary(t) => if t < temps.len() {
            temps[t as int]
        } else {
            None
        },
        OperandModel::Variable(r) => if r < vars.len() {
            vars[r as int]
        } else {
            None
        },
        _ => None,
    }
}

/// The value an operand resolves to in a run state.
pub open spec fn resolve_s(op: OperandModel, st: RunState) -> Option<i64> {
    resolve_vt_s(op, st.vars, st.temps)
}

/// Writes `v` into slot `i`, growing the environment as needed.
pub open spec fn pad_write(env: Seq<Option<i64>>, i: nat, v: i64) -> Seq<Option<i64>> {
    let env2 = if i < env.len() {
        env
    } else {
        env + Seq::new((i + 1 - env.len()) as nat, |j: int| None)
    };
    env2.update(i as int, Some(v))
}

/// The state after writing `v` into temporary slot `t`.
pub open spec fn write_temp_s(st: RunState, t: nat, v: i64) -> RunState {
    RunState { vars: st.vars, temps: pad_write(st.temps, t, v), output: st.output }
}

/// The state after writing `v` into variable slot `r`.
pub open spec fn write_var_s(st: RunState, r: nat, v: i64) -> RunState {
    RunState { vars: pad_write(st.vars, r, v), temps: st.temps, output: st.output }
}

/// The state after emitting one output line.
pub open spec fn emit_line_s(st: RunState, line: Seq<char>) -> RunState {
    RunState { vars: st.vars, temps: st.temps, output: st.output.push(line) }
}

/// The result of one arithmetic or comparison operation under 64-bit
/// wrapping semantics with truncating division.
pub open spec fn eval_arith_s(opcode: Opcode, a: i64, b: i64) -> Result<i64, RunError> {
    match opcode {
        Opcode::Add => Ok(add64(a, b)),
        Opcode::Sub => Ok(sub64(a, b)),
        Opcode::Mul => Ok(mul64(a, b)),
        Opcode::Div => if b == 0 {
            Err(RunError::DivisionByZero)
        } else {
            Ok(div64(a, b))
        },
        Opcode::CmpEq => Ok(
            if a == b {
                1
            } else {
                0
            },
        ),
        _ => Err(RunError::MalformedInstruction),
    }
}

/// The model of executing one instruction. `If` only steers the block
/// transition and changes no state here; the reserved opcodes have no
/// semantics and fail.
pub open spec fn step_instr_s(i: InstrModel, st: RunState, strings: Seq<Seq<char>>) -> Result<
    RunState,
    RunError,
> {
    match i.opcode {
        Opcode::Add | Opcode::Sub | Opcode::Mul | Opcode::Div | Opcode::CmpEq => {
            if i.operands.len() != 3 || !(i.operands[0] is Temporary) {
                Err(RunError::MalformedInstruction)
            } else {
                match (resolve_s(i.operands[1], st), resolve_s(i.operands[2], st)) {
                    (Some(a), Some(b)) => match eval_arith_s(i.opcode, a, b) {
                        Ok(v) => Ok(write_temp_s(st, i.operands[0]->Temporary_0, v)),
                        Err(e) => Err(e),
                    },
                    _ => Err(RunError::UnresolvedReference),
                }
            }
        },
        Opcode::Mov => {
            if i.operands.len() != 2 {
                Err(RunError::MalformedInstruction)
            } else {
                match resolve_s(i.operands[1], st) {
                    Some(v) => match i.operands[0] {
                        OperandModel::Temporary(t) => Ok(write_temp_s(st, t, v)),
                        OperandModel::Variable(r) => Ok(write_var_s(st, r, v)),
                        _ => Err(RunError::MalformedInstruction),
                    },
                    None => Err(RunError::UnresolvedReference),
                }
            }
        },
        Opcode::Print => {
            if i.operands.len() != 1 {
                Err(RunError::MalformedInstruction)
            } else {
                match i.operands[0] {
                    OperandModel::String(si) => if si < strings.len() {
                        Ok(emit_line_s(st, strings[si as int]))
                    } else {
                        Err(RunError::UnresolvedReference)
                    },
                    OperandModel::Label(_) => Err(RunError::MalformedInstruction),
                    _ => match resolve_s(i.operands[0], st) {
                        Some(v) => Ok(emit_line_s(st, dec_int(v as int))),
                        None => Err(RunError::UnresolvedReference),
                    },
                }
            }
        },
        Opcode::If => Ok(st),
        Opcode::Call | Opcode::Ret | Opcode::Push => Err(RunError::MalformedInstruction),
    }
}

/// The model of executing a block's instructions from position `k` on.
pub open spec fn run_block_s(
    instrs: Seq<InstrModel>,
    st: RunState,
    strings: Seq<Seq<char>>,
    k: int,
) -> Result<RunState, RunError>
    decreases instrs.len() - k,
{
    if k < 0 || k >= instrs.len() {
        Ok(st)
    } else {
        match step_instr_s(instrs[k], st, strings) {
            Ok(st2) => run_block_s(instrs, st2, strings, k + 1),
            Err(e) => Err(e),
        }
    }
}

/// The first `If` instruction from position `k` on, if any.
pub open spec fn find_if_s(instrs: Seq<InstrModel>, k: int) -> Option<InstrModel>
    decreases instrs.len() - k,
{
    if k < 0 || k >= instrs.len() {
        None
    } else if instrs[k].opcode == Opcode::If {
        Some(instrs[k])
    } else {
        find_if_s(instrs, k + 1)
    }
}

/// The model of choosing the next block: a block holding an `If`
/// instruction branches on its temporary — nonzero takes the
/// first-discovered successor, zero the second — and any other block
/// transitions to its first successor.
pub open spec fn next_block_s(
    cfg: CfgModel,
    b: BlockModel,
    vars: Seq<Option<i64>>,
    temps: Seq<Option<i64>>,
) -> Result<nat, RunError> {
    let succs = succs_of(cfg.blocks, b.id);
    match find_if_s(b.instructions, 0) {
        Some(i) => if i.operands.len() != 1 {
            Err(RunError::MalformedInstruction)
        } else {
            match resolve_vt_s(i.operands[0], vars, temps) {
                Some(c) => if succs.len() < 2 {
                    Err(RunError::NoPathToExit)
                } else if c != 0 {
                    Ok(succs[0])
                } else {
                    Ok(succs[1])
                },
                None => Err(RunError::UnresolvedReference),
            }
        },
        None => if succs.len() == 0 {
            Err(RunError::NoPathToExit)
        } else {
            Ok(succs[0])
        },
    }
}

/// The model of the walk from block `id` with `fuel` steps left: stop at
/// the exit id, else execute the current block and follow its edge.
pub open spec fn run_from_s(
    cfg: CfgModel,
    id: nat,
    st: RunState,
    strings: Seq<Seq<char>>,
    fuel: nat,
) -> Result<RunState, RunError>
    decreases fuel,
{
    if id == cfg.exit {
        Ok(st)
    } else if fuel == 0 {
        Err(RunError::NoPathToExit)
    } else {
        match lookup_block_s(cfg.blocks, id) {
            Some(b) => match run_block_s(b.instructions, st, strings, 0) {
                Ok(st2) => match next_block_s(cfg, b, st2.vars, st2.temps) {
                    Ok(nid) => run_from_s(cfg, nid, st2, strings, (fuel - 1) as nat),
                    Err(e) => Err(e),
                },
                Err(e) => Err(e),
            },
            None => Err(RunError::NoPathToExit),
        }
    }
}

/// The state a run starts from: one undefined slot per symbol, no
/// temporaries, no output.
pub open spec fn init_state_s(nvars: nat) -> RunState {
    RunState { vars: Seq::new(nvars, |i: int| None), temps: seq![], output: seq![] }
}

/// The model of one whole run: the walk from the entry id with a budget
/// of one step per block, yielding the output lines.
pub open spec fn run_cfg_s(cfg: CfgModel, nvars: nat, strings: Seq<Seq<char>>) -> Result<
    Seq<Seq<char>>,
    RunError,
> {
    match run_from_s(cfg, cfg.entry, init_state_s(nvars), strings, cfg.blocks.len()) {
        Ok(st) => Ok(st.output),
        Err(e) => Err(e),
    }
}

/// The output lines a vector of strings stands for.
pub open spec fn lines_view(output: Seq<String>) -> Seq<Seq<char>> {
    output.map_values(|s: String| s@)
}

/// Resolves one operand against the two environments.
fn resolve(op: &Operand, vars: &Vec<Option<i64>>, temps: &Vec<Option<i64>>) -> (r: Option<i64>)
    ensures
        r == resolve_vt_s(op@, vars@, temps@),
{
    match op {
        Operand::Immediate(v) => Some(*v),
        Operand::Temporary(t) => {
            if *t < temps.len() {
                temps[*t]
            } else {
                None
            }
        },
        Operand::Variable(r) => {
            if *r < vars.len() {
                vars[*r]
            } else {
                None
            }
        },
        _ => None,
    }
}

/// Writes `v` into slot `i`, growing the environment as needed.
fn write_slot(env: &mut Vec<Option<i64>>, i: usize, v: i64)
    ensures
        final(env)@ == pad_write(old(env)@, i as nat, v),
{
    while env.len() <= i
        invariant
            old(env)@.len() <= env@.len(),
            env@.len() <= i + 1 || env@.len() == old(env)@.len(),
            env@ == (old(env)@ + Seq::new((env@.len() - old(env)@.len()) as nat, |j: int| None)),
        decreases i + 1 - env@.len(),
    {
        proof {
            assert(env@ + seq![None::<i64>] =~= old(env)@ + Seq::new(
                (env@.len() + 1 - old(env)@.len()) as nat,
                |j: int| None,
            ));
        }
        env.push(None);
    }
    env[i] = Some(v);
    proof {
        assert(final(env)@ =~= pad_write(old(env)@, i as nat, v));
    }
}

/// The result of one arithmetic or comparison operation.
fn eval_arith(opcode: Opcode, a: i64, b: i64) -> (r: Result<i64, RunError>)
    requires
        opcode == Opcode::Add || opcode == Opcode::Sub || opcode == Opcode::Mul || opcode
            == Opcode::Div || opcode == Opcode::CmpEq,
    ensures
        r == eval_arith_s(opcode, a, b),
{
    match opcode {
        Opcode::Add => Ok(add64_exec(a, b)),
        Opcode::Sub => Ok(sub64_exec(a, b)),
        Opcode::Mul => Ok(mul64_exec(a, b)),
        Opcode::Div => {
            if b == 0 {
                Err(RunError::DivisionByZero)
            } else {
                Ok(div64_exec(a, b))
            }
        },
        _ => Ok(
            if a == b {
                1
            } else {
                0
            },
        ),
    }
}

/// Executes one instruction against the run's mutable state; exactly the
/// model's step.
fn step_instr(
    instr: &Instruction,
    vars: &mut Vec<Option<i64>>,
    temps: &mut Vec<Option<i64>>,
    output: &mut Vec<String>,
    string_list: &StringList,
) -> (r: Result<(), RunError>)
    ensures
        ({
            let pre = RunState {
                vars: old(vars)@,
                temps: old(temps)@,
                output: lines_view(old(output)@),
            };
            let post = RunState {
                vars: final(vars)@,
                temps: final(temps)@,
                output: lines_view(final(output)@),
            };
            match r {
                Ok(u) => step_instr_s(instr@, pre, string_list@) == Ok::<RunState, RunError>(
                    post,
                ),
                Err(e) => step_instr_s(instr@, pre, string_list@) == Err::<RunState, RunError>(e)
                    && post == pre,
            }
        }),
{
    let ghost pre = RunState {
        vars: vars@,
        temps: temps@,
        output: lines_view(output@),
    };
    let opcode = instr.opcode();
    let operands = instr.operands();
    match opcode {
        Opcode::Add | Opcode::Sub | Opcode::Mul | Opcode::Div | Opcode::CmpEq => {
            if operands.len() != 3 {
                return Err(RunError::MalformedInstruction);
            }
            let dst = operands[0];
            let t: usize = match dst {
                Operand::Temporary(t) => t,
                _ => {
                    return Err(RunError::MalformedInstruction);
                },
            };
            let a = match resolve(&operands[1], vars, temps) {
                Some(a) => a,
                None => {
                    return Err(RunError::UnresolvedReference);
                },
            };
            let b = match resolve(&operands[2], vars, temps) {
                Some(b) => b,
                None => {
                    return Err(RunError::UnresolvedReference);
                },
            };
            let v = match eval_arith(opcode, a, b) {
                Ok(v) => v,
                Err(e) => {
                    return Err(e);
                },
            };
            write_slot(temps, t, v);
            proof {
                assert(step_instr_s(instr@, pre, string_list@) == Ok::<RunState, RunError>(
                    write_temp_s(pre, t as nat, v),
                ));
            }
            Ok(())
        },
        Opcode::Mov => {
            if operands.len() != 2 {
                return Err(RunError::MalformedInstruction);
            }
            let v = match resolve(&operands[1], vars, temps) {
                Some(v) => v,
                None => {
                    return Err(RunError::UnresolvedReference);
                },
            };
            match operands[0] {
                Operand::Temporary(t) => {
                    write_slot(temps, t, v);
                    Ok(())
                },
                Operand::Variable(r) => {
                    write_slot(vars, r, v);
                    Ok(())
                },
                _ => Err(RunError::MalformedInstruction),
            }
        },
        Opcode::Print => {
            if operands.len() != 1 {
                return Err(RunError::MalformedInstruction);
            }
            match operands[0] {
                Operand::String(si) => {
                    if si < string_list.len() {
                        let line = string_list.get(si).to_owned();
                        output.push(line);
                        proof {
                            assert(lines_view(final(output)@) =~= pre.output.push(
                                string_list@[si as int],
                            ));
                        }
                        Ok(())
                    } else {
                        Err(RunError::UnresolvedReference)
                    }
                },
                Operand::Label(_) => Err(RunError::MalformedInstruction),
                _ => {
                    match resolve(&operands[0], vars, temps) {
                        Some(v) => {
                            let line = i64_to_string(v);
                            output.push(line);
                            proof {
                                assert(lines_view(final(output)@) =~= pre.output.push(
                                    dec_int(v as int),
                                ));
                            }
                            Ok(())
                        },
                        None => Err(RunError::UnresolvedReference),
                    }
                },
            }
        },
        Opcode::If => Ok(()),
        Opcode::Call | Opcode::Ret | Opcode::Push => Err(RunError::MalformedInstruction),
    }
}

/// The first `If` instruction of a block, if any.
fn find_if(instrs: &Vec<Instruction>) -> (r: Option<&Instruction>)
    ensures
        ({
            let spec = find_if_s(instrs_view(instrs@), 0);
            match r {
                Some(i) => spec == Some(i@),
                None => spec is None,
            }
        }),
{
    let ghost m = instrs_view(instrs@);
    let n = instrs.len();
    let mut k: usize = 0;
    while k < n
        invariant
            n == instrs@.len(),
            k <= n,
            m == instrs_view(instrs@),
            find_if_s(m, 0) == find_if_s(m, k as int),
        decreases n - k,
    {
        proof {
            assert(m[k as int] == instrs@[k as int]@);
        }
        if instr_is_if(&instrs[k]) {
            return Some(&instrs[k]);
        }
        k += 1;
    }
    None
}

/// Whether an instruction is an `If`.
fn instr_is_if(i: &Instruction) -> (r: bool)
    ensures
        r == (i@.opcode == Opcode::If),
{
    match i.opcode() {
        Opcode::If => true,
        _ => false,
    }
}

/// Executes a block's instructions in order against the run's mutable
/// state; exactly the model's block run.
fn run_block(
    instrs: &Vec<Instruction>,
    vars: &mut Vec<Option<i64>>,
    temps: &mut Vec<Option<i64>>,
    output: &mut Vec<String>,
    string_list: &StringList,
) -> (r: Result<(), RunError>)
    ensures
        r is Ok ==> run_block_s(
            instrs_view(instrs@),
            RunState { vars: old(vars)@, temps: old(temps)@, output: lines_view(old(output)@) },
            string_list@,
            0,
        ) == Ok::<RunState, RunError>(
            RunState {
                vars: final(vars)@,
                temps: final(temps)@,
                output: lines_view(final(output)@),
            },
        ),
        r is Err ==> run_block_s(
            instrs_view(instrs@),
            RunState { vars: old(vars)@, temps: old(temps)@, output: lines_view(old(output)@) },
            string_list@,
            0,
        ) == Err::<RunState, RunError>(r->Err_0),
{
    let ghost m = instrs_view(instrs@);
    let ghost pre = RunState { vars: vars@, temps: temps@, output: lines_view(output@) };
    let n = instrs.len();
    let mut k: usize = 0;
    while k < n
        invariant
            n == instrs@.len(),
            m == instrs_view(instrs@),
            k <= n,
            pre == (RunState {
                vars: old(vars)@,
                temps: old(temps)@,
                output: lines_view(old(output)@),
            }),
            run_block_s(m, pre, string_list@, 0) == run_block_s(
                m,
                RunState { vars: vars@, temps: temps@, output: lines_view(output@) },
                string_list@,
                k as int,
            ),
        decreases n - k,
    {
        proof {
            assert(m[k as int] == instrs@[k as int]@);
        }
        let ghost cur = RunState { vars: vars@, temps: temps@, output: lines_view(output@) };
        match step_instr(&instrs[k], vars, temps, output, string_list) {
            Ok(u) => {},
            Err(e) => {
                proof {
                    assert(step_instr_s(m[k as int], cur, string_list@) == Err::<
                        RunState,
                        RunError,
                    >(e));
                    assert(run_block_s(m, cur, string_list@, k as int) == Err::<
                        RunState,
                        RunError,
                    >(e));
                }
                return Err(e);
            },
        }
        k += 1;
    }
    Ok(())
}

/// Chooses the next block id after `b`, following the branch convention;
/// exactly the model's transition.
fn next_block(
    cfg: &CFG,
    b: &BasicBlock,
    vars: &Vec<Option<i64>>,
    temps: &Vec<Option<i64>>,
) -> (r: Result<usize, RunError>)
    ensures
        ({
            let res = next_block_s(cfg@, b@, vars@, temps@);
            match r {
                Ok(next) => res == Ok::<nat, RunError>(next as nat),
                Err(e) => res == Err::<nat, RunError>(e),
            }
        }),
{
    let succs = cfg.get_successors(b.id());
    let instrs = b.get_instructions();
    match find_if(instrs) {
        Some(ii) => {
            let iops = ii.operands();
            if iops.len() != 1 {
                return Err(RunError::MalformedInstruction);
            }
            proof {
                assert(ii@.operands[0] == iops@[0]@);
            }
            match resolve(&iops[0], vars, temps) {
                Some(c) => {
                    if succs.len() < 2 {
                        return Err(RunError::NoPathToExit);
                    }
                    proof {
                        assert(ids_view(succs@)[0] == succs@[0] as nat);
                        assert(ids_view(succs@)[1] == succs@[1] as nat);
                    }
                    if c != 0 {
                        Ok(succs[0])
                    } else {
                        Ok(succs[1])
                    }
                },
                None => Err(RunError::UnresolvedReference),
            }
        },
        None => {
            if succs.len() == 0 {
                return Err(RunError::NoPathToExit);
            }
            proof {
                assert(ids_view(succs@)[0] == succs@[0] as nat);
            }
            Ok(succs[0])
        },
    }
}

/// Walks a built graph from its entry id to its exit id, executing each
/// block on the way, and returns the output lines; exactly the model run
/// `run_cfg_s`. The walk is bounded by one step per block — enough for
/// every built graph, whose edges strictly increase block ids — and
/// reports `NoPathToExit` when the budget runs out.
pub fn simulate_cfg(cfg: &CFG, symbol_table: &SymbolTable, string_list: &StringList) -> (r:
    Result<Vec<String>, RunError>)
    ensures
        ({
            let res = run_cfg_s(cfg@, symbol_table@.len(), string_list@);
            match r {
                Ok(out) => res == Ok::<Seq<Seq<char>>, RunError>(lines_view(out@)),
                Err(e) => res == Err::<Seq<Seq<char>>, RunError>(e),
            }
        }),
{
    let mut vars: Vec<Option<i64>> = Vec::new();
    let nvars = symbol_table.len();
    let mut i: usize = 0;
    while i < nvars
        invariant
            i <= nvars,
            vars@ =~= Seq::new(i as nat, |j: int| None::<i64>),
        decreases nvars - i,
    {
        vars.push(None);
        proof {
            assert(vars@ =~= Seq::new(i as nat + 1, |j: int| None::<i64>));
        }
        i += 1;
    }
    let mut temps: Vec<Option<i64>> = Vec::new();
    let mut output: Vec<String> = Vec::new();
    proof {
        assert(vars@ =~= init_state_s(symbol_table@.len()).vars);
        assert(lines_view(output@) =~= Seq::<Seq<char>>::empty());
        assert(RunState { vars: vars@, temps: temps@, output: lines_view(output@) }
            == init_state_s(symbol_table@.len()));
    }
    let mut id = cfg.entry_block();
    let mut fuel = cfg.block_count();
    let exit = cfg.exit_block();
    while id != exit
        invariant
            exit as nat == cfg@.exit,
            fuel <= cfg@.blocks.len(),
            run_from_s(
                cfg@,
                cfg@.entry,
                init_state_s(symbol_table@.len()),
                string_list@,
                cfg@.blocks.len(),
            ) == run_from_s(
                cfg@,
                id as nat,
                RunState { vars: vars@, temps: temps@, output: lines_view(output@) },
                string_list@,
                fuel as nat,
            ),
        decreases fuel,
    {
        let ghost st_pre = RunState { vars: vars@, temps: temps@, output: lines_view(output@) };
        let ghost fuel_pre = fuel as nat;
        if fuel == 0 {
            return Err(RunError::NoPathToExit);
        }
        fuel = fuel - 1;
        let b = match cfg.find_block(id) {
            Some(b) => b,
            None => {
                return Err(RunError::NoPathToExit);
            },
        };
        proof {
            assert(lookup_block_s(cfg@.blocks, id as nat) == Some(b@));
        }
        match run_block(b.get_instructions(), &mut vars, &mut temps, &mut output, string_list) {
            Ok(u) => {},
            Err(e) => {
                proof {
                    assert(run_block_s(b@.instructions, st_pre, string_list@, 0)
                        == Err::<RunState, RunError>(e));
                }
                return Err(e);
            },
        }
        let ghost st_post = RunState { vars: vars@, temps: temps@, output: lines_view(output@) };
        proof {
            assert(run_block_s(b@.instructions, st_pre, string_list@, 0) == Ok::<
                RunState,
                RunError,
            >(st_post));
        }
        let next: usize = match next_block(cfg, b, &vars, &temps) {
            Ok(next) => next,
            Err(e) => {
                proof {
                    assert(next_block_s(cfg@, b@, st_post.vars, st_post.temps) == Err::<
                        nat,
                        RunError,
                    >(e));
                }
                return Err(e);
            },
        };
        proof {
            assert(next_block_s(cfg@, b@, st_post.vars, st_post.temps) == Ok::<nat, RunError>(
                next as nat,
            ));
            assert(run_from_s(cfg@, id as nat, st_pre, string_list@, fuel_pre) == run_from_s(
                cfg@,
                next as nat,
                st_post,
                string_list@,
                (fuel_pre - 1) as nat,
            ));
        }
        id = next;
    }
    Ok(output)
}

/// The value of an expression node under the tree-walking evaluator: the
/// same 64-bit wrapping arithmetic and truncating division the graph
/// interpreter uses, over a variable environment keyed by symbol handle.
pub open spec fn eval_expr_s(nodes: Seq<Node>, idx: int, vars: Seq<Option<i64>>) -> Result<
    i64,
    RunError,
>
    decreases idx, 0int, 0int,
{
    if !(0 <= idx < nodes.len()) || nodes[idx].node_type != NodeType::Expression {
        Err(RunError::MalformedInstruction)
    } else if nodes[idx].children@.len() == 2 {
        let lc = nodes[idx].children@[0] as int;
        let rc = nodes[idx].children@[1] as int;
        if !(lc < idx && rc < idx) {
            Err(RunError::MalformedInstruction)
        } else {
            match (eval_expr_s(nodes, lc, vars), eval_expr_s(nodes, rc, vars)) {
                (Ok(a), Ok(b)) => match opcode_of(nodes[idx].data@) {
                    Some(op) => eval_arith_s(op, a, b),
                    None => Err(RunError::MalformedInstruction),
                },
                (Err(e), _) => Err(e),
                (_, Err(e)) => Err(e),
            }
        }
    } else if nodes[idx].children@.len() == 0 {
        match nodes[idx].token {
            Some(tok) => match tok.token_type {
                TokenType::IntLiteral(v) => Ok(v),
                TokenType::Symbol(sym) => if sym < vars.len() {
                    match vars[sym as int] {
                        Some(v) => Ok(v),
                        None => Err(RunError::UnresolvedReference),
                    }
                } else {
                    Err(RunError::UnresolvedReference)
                },
                _ => Err(RunError::MalformedInstruction),
            },
            None => Err(RunError::MalformedInstruction),
        }
    } else {
        Err(RunError::MalformedInstruction)
    }
}

/// The comparison a condition node's comparator symbol stands for, on two
/// 64-bit values.
pub open spec fn compare_s(data: Seq<char>, a: i64, b: i64) -> Option<bool> {
    if data == "=="@ {
        Some(a == b)
    } else if data == "!="@ {
        Some(a != b)
    } else if data == "<"@ {
        Some(a < b)
    } else if data == "<="@ {
        Some(a <= b)
    } else if data == ">"@ {
        Some(a > b)
    } else if data == ">="@ {
        Some(a >= b)
    } else {
        None
    }
}

/// The model of the tree-walking interpreter on one statement node. It
/// mirrors the walker's lenient style: node kinds it does not know are
/// skipped — function definitions and calls among them, which have no
/// walking rule — while references that fail to resolve, zero divisors and
/// malformed shapes abort with a typed error. The `temps` environment is
/// untouched; the walker has no temporaries.
pub open spec fn walk_stmt_s(
    nodes: Seq<Node>,
    idx: int,
    st: RunState,
    strings: Seq<Seq<char>>,
) -> Result<RunState, RunError>
    decreases idx, 2int, 0int,
{
    if !(0 <= idx < nodes.len()) {
        Err(RunError::MalformedInstruction)
    } else {
        match nodes[idx].node_type {
            NodeType::Program | NodeType::StatementList | NodeType::Statement => walk_children_s(
                nodes,
                idx,
                0,
                st,
                strings,
            ),
            NodeType::PrintStatement => {
                if nodes[idx].children@.len() != 1 {
                    Err(RunError::MalformedInstruction)
                } else {
                    let c = nodes[idx].children@[0] as int;
                    if !(c < idx) {
                        Err(RunError::MalformedInstruction)
                    } else {
                        match nodes[c].token {
                            Some(tok) => match tok.token_type {
                                TokenType::StringListIndex(si) => if si < strings.len() {
                                    Ok(emit_line_s(st, strings[si as int]))
                                } else {
                                    Err(RunError::UnresolvedReference)
                                },
                                _ => match eval_expr_s(nodes, c, st.vars) {
                                    Ok(v) => Ok(emit_line_s(st, dec_int(v as int))),
                                    Err(e) => Err(e),
                                },
                            },
                            None => match eval_expr_s(nodes, c, st.vars) {
                                Ok(v) => Ok(emit_line_s(st, dec_int(v as int))),
                                Err(e) => Err(e),
                            },
                        }
                    }
                }
            },
            NodeType::AssignmentStatement => {
                if nodes[idx].children@.len() != 2 {
                    Err(RunError::MalformedInstruction)
                } else {
                    let ic = nodes[idx].children@[0] as int;
                    let ec = nodes[idx].children@[1] as int;
                    if !(ic < nodes.len() && ec < idx) {
                        Err(RunError::MalformedInstruction)
                    } else {
                        match eval_expr_s(nodes, ec, st.vars) {
                            Ok(v) => match nodes[ic].token {
                                Some(tok) => match tok.token_type {
                                    TokenType::Symbol(sym) => Ok(write_var_s(st, sym as nat, v)),
                                    _ => Err(RunError::MalformedInstruction),
                                },
                                None => Err(RunError::MalformedInstruction),
                            },
                            Err(e) => Err(e),
                        }
                    }
                }
            },
            NodeType::IfStatement => {
                if !(nodes[idx].children@.len() == 2 || nodes[idx].children@.len() == 3) {
                    Err(RunError::MalformedInstruction)
                } else {
                    let cc = nodes[idx].children@[0] as int;
                    if !(cc < idx && 0 <= cc) {
                        Err(RunError::MalformedInstruction)
                    } else if nodes[cc].node_type != NodeType::Condition || nodes[cc].children@.len()
                        != 2 {
                        Err(RunError::MalformedInstruction)
                    } else {
                        let lc = nodes[cc].children@[0] as int;
                        let rc = nodes[cc].children@[1] as int;
                        if !(lc < cc && rc < cc) {
                            Err(RunError::MalformedInstruction)
                        } else {
                            match (eval_expr_s(nodes, lc, st.vars), eval_expr_s(
                                nodes,
                                rc,
                                st.vars,
                            )) {
                                (Ok(a), Ok(b)) => match compare_s(nodes[cc].data@, a, b) {
                                    Some(c) => if c {
                                        if nodes[idx].children@[1] < idx {
                                            walk_stmt_s(
                                                nodes,
                                                nodes[idx].children@[1] as int,
                                                st,
                                                strings,
                                            )
                                        } else {
                                            Err(RunError::MalformedInstruction)
                                        }
                                    } else if nodes[idx].children@.len() == 3 {
                                        if nodes[idx].children@[2] < idx {
                                            walk_stmt_s(
                                                nodes,
                                                nodes[idx].children@[2] as int,
                                                st,
                                                strings,
                                            )
                                        } else {
                                            Err(RunError::MalformedInstruction)
                                        }
                                    } else {
                                        Ok(st)
                                    },
                                    None => Ok(st),
                                },
                                (Err(e), _) => Err(e),
                                (_, Err(e)) => Err(e),
                            }
                        }
                    }
                }
            },
            _ => Ok(st),
        }
    }
}

/// The model of walking a sequencing node's children from position `k` on.
pub open spec fn walk_children_s(
    nodes: Seq<Node>,
    idx: int,
    k: int,
    st: RunState,
    strings: Seq<Seq<char>>,
) -> Result<RunState, RunError>
    decreases
            idx,
            1int,
            (if 0 <= idx < nodes.len() {
                nodes[idx].children@.len() - k
            } else {
                0int
            }),
{
    if !(0 <= idx < nodes.len()) {
        Err(RunError::MalformedInstruction)
    } else if k < 0 || k >= nodes[idx].children@.len() {
        Ok(st)
    } else {
        let c = nodes[idx].children@[k] as int;
        if !(c < idx) {
            Err(RunError::MalformedInstruction)
        } else {
            match walk_stmt_s(nodes, c, st, strings) {
                Ok(st2) => walk_children_s(nodes, idx, k + 1, st2, strings),
                Err(e) => Err(e),
            }
        }
    }
}

/// The model of one whole tree walk: the statements under the root, from
/// an environment of one undefined slot per symbol.
pub open spec fn walk_s(
    nodes: Seq<Node>,
    root: int,
    nvars: nat,
    strings: Seq<Seq<char>>,
) -> Result<Seq<Seq<char>>, RunError> {
    match walk_stmt_s(nodes, root, init_state_s(nvars), strings) {
        Ok(st) => Ok(st.output),
        Err(e) => Err(e),
    }
}

/// Evaluates an expression node over the variable environment; exactly
/// the model evaluation `eval_expr_s`.
pub fn evaluate(nodes: &Vec<Node>, idx: usize, state: &Vec<Option<i64>>) -> (r: Result<
    i64,
    RunError,
>)
    ensures
        r == eval_expr_s(nodes@, idx as int, state@),
    decreases idx, 0int, 0int,
{
    if idx >= nodes.len() {
        return Err(RunError::MalformedInstruction);
    }
    if nodes[idx].node_type != NodeType::Expression {
        return Err(RunError::MalformedInstruction);
    }
    let clen = nodes[idx].children.len();
    if clen == 2 {
        let lc = nodes[idx].children[0];
        let rc = nodes[idx].children[1];
        if !(lc < idx && rc < idx) {
            return Err(RunError::MalformedInstruction);
        }
        let a = match evaluate(nodes, lc, state) {
            Ok(a) => a,
            Err(e) => {
                return Err(e);
            },
        };
        let b = match evaluate(nodes, rc, state) {
            Ok(b) => b,
            Err(e) => {
                return Err(e);
            },
        };
        let op: Opcode;
        if nodes[idx].data == "+".to_owned() {
            op = Opcode::Add;
        } else if nodes[idx].data == "-".to_owned() {
            op = Opcode::Sub;
        } else if nodes[idx].data == "*".to_owned() {
            op = Opcode::Mul;
        } else if nodes[idx].data == "/".to_owned() {
            op = Opcode::Div;
        } else {
            return Err(RunError::MalformedInstruction);
        }
        eval_arith(op, a, b)
    } else if clen == 0 {
        match &nodes[idx].token {
            Some(tok) => match &tok.token_type {
                TokenType::IntLiteral(v) => Ok(*v),
                TokenType::Symbol(sym) => {
                    if *sym < state.len() {
                        match state[*sym] {
                            Some(v) => Ok(v),
                            None => Err(RunError::UnresolvedReference),
                        }
                    } else {
                        Err(RunError::UnresolvedReference)
                    }
                },
                _ => Err(RunError::MalformedInstruction),
            },
            None => Err(RunError::MalformedInstruction),
        }
    } else {
        Err(RunError::MalformedInstruction)
    }
}

/// Compares two values under a condition node's comparator symbol.
fn compare(data: &String, a: i64, b: i64) -> (r: Option<bool>)
    ensures
        r == compare_s(data@, a, b),
{
    if *data == "==".to_owned() {
        Some(a == b)
    } else if *data == "!=".to_owned() {
        Some(a != b)
    } else if *data == "<".to_owned() {
        Some(a < b)
    } else if *data == "<=".to_owned() {
        Some(a <= b)
    } else if *data == ">".to_owned() {
        Some(a > b)
    } else if *data == ">=".to_owned() {
        Some(a >= b)
    } else {
        None
    }
}

/// Walks one statement node of the tree, mutating the variable
/// environment and the output lines; exactly the model walk.
fn walk_stmt(
    nodes: &Vec<Node>,
    idx: usize,
    vars: &mut Vec<Option<i64>>,
    output: &mut Vec<String>,
    string_list: &StringList,
) -> (r: Result<(), RunError>)
    ensures
        ({
            let pre = RunState {
                vars: old(vars)@,
                temps: seq![],
                output: lines_view(old(output)@),
            };
            let post = RunState {
                vars: final(vars)@,
                temps: seq![],
                output: lines_view(final(output)@),
            };
            match r {
                Ok(u) => walk_stmt_s(nodes@, idx as int, pre, string_list@) == Ok::<
                    RunState,
                    RunError,
                >(post),
                Err(e) => walk_stmt_s(nodes@, idx as int, pre, string_list@) == Err::<
                    RunState,
                    RunError,
                >(e),
            }
        }),
    decreases idx, 2int, 0int,
{
    let ghost pre = RunState { vars: vars@, temps: seq![], output: lines_view(output@) };
    if idx >= nodes.len() {
        return Err(RunError::MalformedInstruction);
    }
    match nodes[idx].node_type {
        NodeType::Program | NodeType::StatementList | NodeType::Statement => {
            walk_children(nodes, idx, 0, vars, output, string_list)
        },
        NodeType::PrintStatement => {
            if nodes[idx].children.len() != 1 {
                return Err(RunError::MalformedInstruction);
            }
            let c = nodes[idx].children[0];
            if !(c < idx) {
                return Err(RunError::MalformedInstruction);
            }
            let is_interned: Option<usize> = match &nodes[c].token {
                Some(tok) => match &tok.token_type {
                    TokenType::StringListIndex(si) => Some(*si),
                    _ => None,
                },
                None => None,
            };
            match is_interned {
                Some(si) => {
                    if si < string_list.len() {
                        let line = string_list.get(si).to_owned();
                        output.push(line);
                        proof {
                            assert(lines_view(output@) =~= pre.output.push(
                                string_list@[si as int],
                            ));
                        }
                        Ok(())
                    } else {
                        Err(RunError::UnresolvedReference)
                    }
                },
                None => {
                    let v = match evaluate(nodes, c, vars) {
                        Ok(v) => v,
                        Err(e) => {
                            return Err(e);
                        },
                    };
                    let line = i64_to_string(v);
                    output.push(line);
                    proof {
                        assert(lines_view(output@) =~= pre.output.push(dec_int(v as int)));
                    }
                    Ok(())
                },
            }
        },
        NodeType::AssignmentStatement => {
            if nodes[idx].children.len() != 2 {
                return Err(RunError::MalformedInstruction);
            }
            let ic = nodes[idx].children[0];
            let ec = nodes[idx].children[1];
            if !(ic < nodes.len() && ec < idx) {
                return Err(RunError::MalformedInstruction);
            }
            let v = match evaluate(nodes, ec, vars) {
                Ok(v) => v,
                Err(e) => {
                    return Err(e);
                },
            };
            match &nodes[ic].token {
                Some(tok) => match &tok.token_type {
                    TokenType::Symbol(sym) => {
                        write_slot(vars, *sym, v);
                        Ok(())
                    },
                    _ => Err(RunError::MalformedInstruction),
                },
                None => Err(RunError::MalformedInstruction),
            }
        },
        NodeType::IfStatement => {
            let clen = nodes[idx].children.len();
            if !(clen == 2 || clen == 3) {
                return Err(RunError::MalformedInstruction);
            }
            let cc = nodes[idx].children[0];
            if !(cc < idx) {
                return Err(RunError::MalformedInstruction);
            }
            if nodes[cc].node_type != NodeType::Condition || nodes[cc].children.len() != 2 {
                return Err(RunError::MalformedInstruction);
            }
            let lc = nodes[cc].children[0];
            let rc = nodes[cc].children[1];
            if !(lc < cc && rc < cc) {
                return Err(RunError::MalformedInstruction);
            }
            let a = match evaluate(nodes, lc, vars) {
                Ok(a) => a,
                Err(e) => {
                    return Err(e);
                },
            };
            let b = match evaluate(nodes, rc, vars) {
                Ok(b) => b,
                Err(e) => {
                    return Err(e);
                },
            };
            match compare(&nodes[cc].data, a, b) {
                Some(c) => {
                    if c {
                        let tc = nodes[idx].children[1];
                        if !(tc < idx) {
                            return Err(RunError::MalformedInstruction);
                        }
                        walk_stmt(nodes, tc, vars, output, string_list)
                    } else if clen == 3 {
                        let xc = nodes[idx].children[2];
                        if !(xc < idx) {
                            return Err(RunError::MalformedInstruction);
                        }
                        walk_stmt(nodes, xc, vars, output, string_list)
                    } else {
                        Ok(())
                    }
                },
                None => Ok(()),
            }
        },
        _ => Ok(()),
    }
}

/// Walks a sequencing node's children from position `k` on.
fn walk_children(
    nodes: &Vec<Node>,
    idx: usize,
    k: usize,
    vars: &mut Vec<Option<i64>>,
    output: &mut Vec<String>,
    string_list: &StringList,
) -> (r: Result<(), RunError>)
    requires
        idx < nodes@.len(),
    ensures
        ({
            let pre = RunState {
                vars: old(vars)@,
                temps: seq![],
                output: lines_view(old(output)@),
            };
            let post = RunState {
                vars: final(vars)@,
                temps: seq![],
                output: lines_view(final(output)@),
            };
            match r {
                Ok(u) => walk_children_s(nodes@, idx as int, k as int, pre, string_list@) == Ok::<
                    RunState,
                    RunError,
                >(post),
                Err(e) => walk_children_s(nodes@, idx as int, k as int, pre, string_list@)
                    == Err::<RunState, RunError>(e),
            }
        }),
    decreases
            idx,
            1int,
            (if (idx as int) < nodes@.len() {
                nodes@[idx as int].children@.len() - k
            } else {
                0int
            }),
{
    if k >= nodes[idx].children.len() {
        return Ok(());
    }
    let c = nodes[idx].children[k];
    if !(c < idx) {
        return Err(RunError::MalformedInstruction);
    }
    match walk_stmt(nodes, c, vars, output, string_list) {
        Ok(u) => {},
        Err(e) => {
            return Err(e);
        },
    }
    walk_children(nodes, idx, k + 1, vars, output, string_list)
}

/// Interprets a program tree directly, without building a graph, and
/// returns the output lines; exactly the model walk `walk_s`. This is the
/// tree-walking counterpart of `simulate_cfg`, and the one that knows the
/// comparators beyond equality.
pub fn simulate(
    nodes: &Vec<Node>,
    root: usize,
    symbol_table: &SymbolTable,
    string_list: &StringList,
) -> (r: Result<Vec<String>, RunError>)
    ensures
        ({
            let res = walk_s(nodes@, root as int, symbol_table@.len(), string_list@);
            match r {
                Ok(out) => res == Ok::<Seq<Seq<char>>, RunError>(lines_view(out@)),
                Err(e) => res == Err::<Seq<Seq<char>>, RunError>(e),
            }
        }),
{
    let mut vars: Vec<Option<i64>> = Vec::new();
    let nvars = symbol_table.len();
    let mut i: usize = 0;
    while i < nvars
        invariant
            i <= nvars,
            vars@ =~= Seq::new(i as nat, |j: int| None::<i64>),
        decreases nvars - i,
    {
        vars.push(None);
        proof {
            assert(vars@ =~= Seq::new(i as nat + 1, |j: int| None::<i64>));
        }
        i += 1;
    }
    let mut output: Vec<String> = Vec::new();
    proof {
        assert(vars@ =~= init_state_s(symbol_table@.len()).vars);
        assert(lines_view(output@) =~= Seq::<Seq<char>>::empty());
        assert(RunState { vars: vars@, temps: seq![], output: lines_view(output@) }
            == init_state_s(symbol_table@.len()));
    }
    match walk_stmt(nodes, root, &mut vars, &mut output, string_list) {
        Ok(u) => Ok(output),
        Err(e) => Err(e),
    }
}

} // verus!
