use cfglang::ast::{Node, NodeType};
use cfglang::cfg::{BuildError, Opcode, Operand, CFG};
use cfglang::simulate::{simulate, simulate_cfg, RunError};
use cfglang::symbol::{StringList, SymbolTable};
use cfglang::token::{Token, TokenType};

fn node(node_type: NodeType, token: Option<TokenType>, children: Vec<usize>, data: &str) -> Node {
    Node {
        token: token.map(|t| Token::new(t, 1, 1)),
        children,
        node_type,
        data: data.to_string(),
    }
}

fn int_leaf(v: i64) -> Node {
    node(NodeType::Expression, Some(TokenType::IntLiteral(v)), vec![], "")
}

/// `let x be 3 + 4. print x.` lowers to the chain temp0 = 3, temp1 = 4,
/// temp2 = temp0 + temp1, x = temp2, print(x), and prints `7`.
#[test]
fn assign_add_print_emits_seven() {
    let mut nodes = vec![
        int_leaf(3),
        int_leaf(4),
        node(NodeType::Expression, None, vec![0, 1], "+"),
        node(NodeType::Expression, Some(TokenType::Identifier("x".to_string())), vec![], ""),
        node(NodeType::AssignmentStatement, None, vec![3, 2], ""),
        node(NodeType::Expression, Some(TokenType::Identifier("x".to_string())), vec![], ""),
        node(NodeType::PrintStatement, None, vec![5], ""),
        node(NodeType::Statement, None, vec![4, 6], ""),
    ];
    let mut table = SymbolTable::new();
    let strings = StringList::new();
    find_ok(&mut nodes, 7, &mut table);
    let mut cfg = CFG::new();
    cfg.build(&nodes, 7).expect("construction must succeed");

    // the chain: entry, temp0 = 3, temp1 = 4, temp2 = temp0 + temp1,
    // x = temp2, print x, exit
    let entry = cfg.entry_block();
    let b1 = only_successor(&cfg, entry);
    let b2 = only_successor(&cfg, b1);
    let b3 = only_successor(&cfg, b2);
    let b4 = only_successor(&cfg, b3);
    let b5 = only_successor(&cfg, b4);
    assert_eq!(only_successor(&cfg, b5), cfg.exit_block());
    let i1 = &cfg.get_block(b1).get_instructions()[0];
    assert_eq!(i1.opcode(), Opcode::Mov);
    assert_eq!(i1.operands()[0], Operand::Temporary(0));
    assert_eq!(i1.operands()[1], Operand::Immediate(3));
    let i2 = &cfg.get_block(b2).get_instructions()[0];
    assert_eq!(i2.operands()[0], Operand::Temporary(1));
    assert_eq!(i2.operands()[1], Operand::Immediate(4));
    let i3 = &cfg.get_block(b3).get_instructions()[0];
    assert_eq!(i3.opcode(), Opcode::Add);
    assert_eq!(i3.operands()[0], Operand::Temporary(2));
    assert_eq!(i3.operands()[1], Operand::Temporary(0));
    assert_eq!(i3.operands()[2], Operand::Temporary(1));
    let i4 = &cfg.get_block(b4).get_instructions()[0];
    assert_eq!(i4.opcode(), Opcode::Mov);
    assert_eq!(i4.operands()[0], Operand::Variable(0));
    assert_eq!(i4.operands()[1], Operand::Temporary(2));
    let i5 = &cfg.get_block(b5).get_instructions()[0];
    assert_eq!(i5.opcode(), Opcode::Print);
    assert_eq!(i5.operands()[0], Operand::Variable(0));

    let out = simulate_cfg(&cfg, &table, &strings).expect("run must succeed");
    assert_eq!(out, vec!["7".to_string()]);

    // the tree walker agrees with the graph interpreter here
    let walked = simulate(&nodes, 7, &table, &strings).expect("walk must succeed");
    assert_eq!(walked, vec!["7".to_string()]);
}

fn only_successor(cfg: &CFG, id: usize) -> usize {
    let succs = cfg.get_successors(id);
    assert_eq!(succs.len(), 1);
    succs[0]
}

fn find_ok(nodes: &mut Vec<Node>, root: usize, table: &mut SymbolTable) {
    cfglang::ast::find_symbols(nodes, root, table).expect("resolution must succeed");
}

/// `if 2 is equal to 2 do the following: print "yes". else do the
/// following: print "no".` prints `yes` and nothing else.
#[test]
fn true_condition_takes_then_branch() {
    let mut nodes = vec![
        int_leaf(2),
        int_leaf(2),
        node(NodeType::Condition, None, vec![0, 1], "=="),
        node(NodeType::Expression, Some(TokenType::StringLiteral("yes".to_string())), vec![], ""),
        node(NodeType::PrintStatement, None, vec![3], ""),
        node(NodeType::Expression, Some(TokenType::StringLiteral("no".to_string())), vec![], ""),
        node(NodeType::PrintStatement, None, vec![5], ""),
        node(NodeType::IfStatement, None, vec![2, 4, 6], ""),
    ];
    let mut strings = StringList::new();
    cfglang::ast::fill_string_list(&mut nodes, 7, &mut strings);
    assert_eq!(strings.get(0), "yes");
    assert_eq!(strings.get(1), "no");
    let table = SymbolTable::new();
    let mut cfg = CFG::new();
    cfg.build(&nodes, 7).expect("construction must succeed");
    let out = simulate_cfg(&cfg, &table, &strings).expect("run must succeed");
    assert_eq!(out, vec!["yes".to_string()]);
}

/// A false condition takes the "else" branch, and only that branch's
/// prints are observed.
#[test]
fn false_condition_takes_else_branch() {
    let mut nodes = vec![
        int_leaf(1),
        int_leaf(2),
        node(NodeType::Condition, None, vec![0, 1], "=="),
        node(NodeType::Expression, Some(TokenType::StringLiteral("a".to_string())), vec![], ""),
        node(NodeType::PrintStatement, None, vec![3], ""),
        node(NodeType::Expression, Some(TokenType::StringLiteral("b".to_string())), vec![], ""),
        node(NodeType::PrintStatement, None, vec![5], ""),
        node(NodeType::IfStatement, None, vec![2, 4, 6], ""),
    ];
    let mut strings = StringList::new();
    cfglang::ast::fill_string_list(&mut nodes, 7, &mut strings);
    let table = SymbolTable::new();
    let mut cfg = CFG::new();
    cfg.build(&nodes, 7).expect("construction must succeed");
    let out = simulate_cfg(&cfg, &table, &strings).expect("run must succeed");
    assert_eq!(out, vec!["b".to_string()]);
}

/// A false condition with no "else" branch prints nothing.
#[test]
fn false_condition_without_else_prints_nothing() {
    let mut nodes = vec![
        int_leaf(1),
        int_leaf(2),
        node(NodeType::Condition, None, vec![0, 1], "=="),
        node(NodeType::Expression, Some(TokenType::StringLiteral("a".to_string())), vec![], ""),
        node(NodeType::PrintStatement, None, vec![3], ""),
        node(NodeType::IfStatement, None, vec![2, 4], ""),
    ];
    let mut strings = StringList::new();
    cfglang::ast::fill_string_list(&mut nodes, 5, &mut strings);
    let table = SymbolTable::new();
    let mut cfg = CFG::new();
    cfg.build(&nodes, 5).expect("construction must succeed");
    let out = simulate_cfg(&cfg, &table, &strings).expect("run must succeed");
    assert_eq!(out, Vec::<String>::new());
}

/// An expression node carrying the operator symbol `%` fails
/// construction with `UnsupportedOperator`, never a silent no-op.
#[test]
fn unsupported_operator_fails_construction() {
    let nodes = vec![
        int_leaf(7),
        int_leaf(3),
        node(NodeType::Expression, None, vec![0, 1], "%"),
        node(NodeType::PrintStatement, None, vec![2], ""),
    ];
    let mut cfg = CFG::new();
    assert_eq!(cfg.build(&nodes, 3), Err(BuildError::UnsupportedOperator));
}

/// A condition with a comparator the lowering does not know fails
/// construction with `UnsupportedOperator`.
#[test]
fn unsupported_comparator_fails_construction() {
    let nodes = vec![
        int_leaf(3),
        int_leaf(2),
        node(NodeType::Condition, None, vec![0, 1], ">"),
        node(NodeType::Expression, Some(TokenType::StringLiteral("a".to_string())), vec![], ""),
        node(NodeType::PrintStatement, None, vec![3], ""),
        node(NodeType::IfStatement, None, vec![2, 4], ""),
    ];
    let mut cfg = CFG::new();
    assert_eq!(cfg.build(&nodes, 5), Err(BuildError::UnsupportedOperator));
}

/// A function call has no lowering rule; its node kind fails
/// construction.
#[test]
fn function_call_fails_construction() {
    let nodes = vec![
        node(NodeType::Expression, Some(TokenType::Symbol(0)), vec![], ""),
        node(NodeType::FunctionCall, None, vec![0], ""),
    ];
    let mut cfg = CFG::new();
    assert_eq!(cfg.build(&nodes, 1), Err(BuildError::MalformedInput));
}

/// A print statement whose child is an unresolved identifier violates the
/// precondition that names are already resolved.
#[test]
fn unresolved_identifier_fails_construction() {
    let nodes = vec![
        node(NodeType::Expression, Some(TokenType::Identifier("x".to_string())), vec![], ""),
        node(NodeType::PrintStatement, None, vec![0], ""),
    ];
    let mut cfg = CFG::new();
    assert_eq!(cfg.build(&nodes, 1), Err(BuildError::MalformedInput));
}

/// Division by zero is an explicit, typed run-time failure.
#[test]
fn division_by_zero_is_reported() {
    let nodes = vec![
        int_leaf(10),
        int_leaf(0),
        node(NodeType::Expression, None, vec![0, 1], "/"),
        node(NodeType::PrintStatement, None, vec![2], ""),
    ];
    let table = SymbolTable::new();
    let strings = StringList::new();
    let mut cfg = CFG::new();
    cfg.build(&nodes, 3).expect("construction must succeed");
    assert_eq!(simulate_cfg(&cfg, &table, &strings), Err(RunError::DivisionByZero));
}

/// Reading a variable no write ever reached is an explicit, typed
/// run-time failure.
#[test]
fn unwritten_variable_is_reported() {
    let mut table = SymbolTable::new();
    table.add("x", cfglang::symbol::SymbolKind::Variable);
    let nodes = vec![
        node(NodeType::Expression, Some(TokenType::Symbol(0)), vec![], ""),
        node(NodeType::PrintStatement, None, vec![0], ""),
    ];
    let strings = StringList::new();
    let mut cfg = CFG::new();
    cfg.build(&nodes, 1).expect("construction must succeed");
    assert_eq!(simulate_cfg(&cfg, &table, &strings), Err(RunError::UnresolvedReference));
}

/// A program of three print-of-literal statements emits three lines, in
/// source order.
#[test]
fn print_literals_emit_in_source_order() {
    let mut nodes = vec![
        node(NodeType::Expression, Some(TokenType::StringLiteral("first".to_string())), vec![], ""),
        node(NodeType::PrintStatement, None, vec![0], ""),
        int_leaf(2),
        node(NodeType::PrintStatement, None, vec![2], ""),
        node(NodeType::Expression, Some(TokenType::StringLiteral("third".to_string())), vec![], ""),
        node(NodeType::PrintStatement, None, vec![4], ""),
        node(NodeType::Statement, None, vec![1, 3, 5], ""),
    ];
    let mut strings = StringList::new();
    cfglang::ast::fill_string_list(&mut nodes, 6, &mut strings);
    let table = SymbolTable::new();
    let mut cfg = CFG::new();
    cfg.build(&nodes, 6).expect("construction must succeed");
    let out = simulate_cfg(&cfg, &table, &strings).expect("run must succeed");
    assert_eq!(out, vec!["first".to_string(), "2".to_string(), "third".to_string()]);
}

/// Addition wraps at the 64-bit boundary.
#[test]
fn addition_wraps_at_the_boundary() {
    let nodes = vec![
        int_leaf(i64::MAX),
        int_leaf(1),
        node(NodeType::Expression, None, vec![0, 1], "+"),
        node(NodeType::PrintStatement, None, vec![2], ""),
    ];
    let table = SymbolTable::new();
    let strings = StringList::new();
    let mut cfg = CFG::new();
    cfg.build(&nodes, 3).expect("construction must succeed");
    let out = simulate_cfg(&cfg, &table, &strings).expect("run must succeed");
    assert_eq!(out, vec!["-9223372036854775808".to_string()]);
}

/// The tree walker knows the comparators the lowering does not.
#[test]
fn walker_handles_greater_than() {
    let mut nodes = vec![
        int_leaf(3),
        int_leaf(2),
        node(NodeType::Condition, None, vec![0, 1], ">"),
        node(NodeType::Expression, Some(TokenType::StringLiteral("a".to_string())), vec![], ""),
        node(NodeType::PrintStatement, None, vec![3], ""),
        node(NodeType::IfStatement, None, vec![2, 4], ""),
    ];
    let mut strings = StringList::new();
    cfglang::ast::fill_string_list(&mut nodes, 5, &mut strings);
    let table = SymbolTable::new();
    let out = simulate(&nodes, 5, &table, &strings).expect("walk must succeed");
    assert_eq!(out, vec!["a".to_string()]);
}

/// Round trip: assigning the value of an expression and printing the
/// variable emits exactly the value the expression evaluates to.
#[test]
fn assign_then_print_round_trips() {
    let mut nodes = vec![
        int_leaf(6),
        int_leaf(7),
        node(NodeType::Expression, None, vec![0, 1], "*"),
        node(NodeType::Expression, Some(TokenType::Identifier("v".to_string())), vec![], ""),
        node(NodeType::AssignmentStatement, None, vec![3, 2], ""),
        node(NodeType::Expression, Some(TokenType::Identifier("v".to_string())), vec![], ""),
        node(NodeType::PrintStatement, None, vec![5], ""),
        node(NodeType::Statement, None, vec![4, 6], ""),
    ];
    let mut table = SymbolTable::new();
    find_ok(&mut nodes, 7, &mut table);
    let strings = StringList::new();
    let mut cfg = CFG::new();
    cfg.build(&nodes, 7).expect("construction must succeed");
    let out = simulate_cfg(&cfg, &table, &strings).expect("run must succeed");
    assert_eq!(out, vec!["42".to_string()]);
}
