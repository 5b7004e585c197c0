use cfglang::ast::{fill_string_list, find_symbols, simplify_tree, Node, NodeType};
use cfglang::cfg::BuildError;
use cfglang::symbol::{StringList, SymbolKind, SymbolTable};
use cfglang::token::{Token, TokenType};

fn node(node_type: NodeType, token: Option<TokenType>, children: Vec<usize>, data: &str) -> Node {
    Node {
        token: token.map(|t| Token::new(t, 1, 1)),
        children,
        node_type,
        data: data.to_string(),
    }
}

/// Interning replaces a string literal's token by the index of its text.
#[test]
fn interning_replaces_literal_tokens() {
    let mut nodes = vec![
        node(
            NodeType::Expression,
            Some(TokenType::StringLiteral("hei".to_string())),
            vec![],
            "",
        ),
        node(NodeType::PrintStatement, None, vec![0], ""),
    ];
    let mut strings = StringList::new();
    fill_string_list(&mut nodes, 1, &mut strings);
    assert_eq!(strings.len(), 1);
    assert_eq!(strings.get(0), "hei");
    match &nodes[0].token {
        Some(t) => match &t.token_type {
            TokenType::StringListIndex(si) => assert_eq!(*si, 0),
            other => panic!("literal not interned: {:?}", other),
        },
        None => panic!("token lost"),
    }
}

/// An assignment declares its target variable; later reads resolve to the
/// same handle.
#[test]
fn declaration_and_use_resolve_to_one_handle() {
    let mut nodes = vec![
        node(NodeType::Expression, Some(TokenType::IntLiteral(1)), vec![], ""),
        node(NodeType::Expression, Some(TokenType::Identifier("x".to_string())), vec![], ""),
        node(NodeType::AssignmentStatement, None, vec![1, 0], ""),
        node(NodeType::Expression, Some(TokenType::Identifier("x".to_string())), vec![], ""),
        node(NodeType::PrintStatement, None, vec![3], ""),
        node(NodeType::Statement, None, vec![2, 4], ""),
    ];
    let mut table = SymbolTable::new();
    find_symbols(&mut nodes, 5, &mut table).expect("resolution must succeed");
    assert_eq!(table.len(), 1);
    assert_eq!(table.get(0).name, "x".to_string());
    assert_eq!(table.get(0).kind, SymbolKind::Variable);
    match &nodes[1].token {
        Some(t) => assert!(matches!(t.token_type, TokenType::Symbol(0))),
        None => panic!("target token lost"),
    }
    match &nodes[3].token {
        Some(t) => assert!(matches!(t.token_type, TokenType::Symbol(0))),
        None => panic!("use token lost"),
    }
}

/// An identifier never declared fails resolution.
#[test]
fn unknown_identifier_fails_resolution() {
    let mut nodes = vec![
        node(NodeType::Expression, Some(TokenType::Identifier("y".to_string())), vec![], ""),
        node(NodeType::PrintStatement, None, vec![0], ""),
    ];
    let mut table = SymbolTable::new();
    assert_eq!(find_symbols(&mut nodes, 1, &mut table), Err(BuildError::MalformedInput));
}

/// Single-child layers collapse to the leaf they wrap.
#[test]
fn single_child_chain_collapses() {
    let mut nodes = vec![
        node(NodeType::Expression, Some(TokenType::IntLiteral(5)), vec![], ""),
        node(NodeType::Factor, None, vec![0], ""),
        node(NodeType::Term, None, vec![1], ""),
        node(NodeType::Expression, None, vec![2], ""),
    ];
    simplify_tree(&mut nodes, 3);
    assert_eq!(nodes[3].node_type, NodeType::Expression);
    assert!(nodes[3].children.is_empty());
    match &nodes[3].token {
        Some(t) => assert!(matches!(t.token_type, TokenType::IntLiteral(5))),
        None => panic!("collapsed node lost its token"),
    }
}

/// A statement list absorbs the children of a trailing statement list.
#[test]
fn trailing_statement_list_is_spliced() {
    let mut nodes = vec![
        node(NodeType::PrintStatement, Some(TokenType::IntLiteral(1)), vec![], ""),
        node(NodeType::PrintStatement, Some(TokenType::IntLiteral(2)), vec![], ""),
        node(NodeType::PrintStatement, Some(TokenType::IntLiteral(3)), vec![], ""),
        node(NodeType::StatementList, None, vec![1, 2], ""),
        node(NodeType::StatementList, None, vec![0, 3], ""),
    ];
    simplify_tree(&mut nodes, 4);
    assert_eq!(nodes[4].children, vec![0, 1, 2]);
}

/// Adding a known name hands back its existing handle; fresh names get
/// the next handle.
#[test]
fn table_deduplicates_names() {
    let mut table = SymbolTable::new();
    assert_eq!(table.add("x", SymbolKind::Variable), 0);
    assert_eq!(table.add("y", SymbolKind::Variable), 1);
    assert_eq!(table.add("x", SymbolKind::Function), 0);
    assert_eq!(table.len(), 2);
    assert_eq!(table.get(0).kind, SymbolKind::Variable);
    assert!(table.contains_name("y"));
    assert!(!table.contains_name("z"));
    assert_eq!(table.get_symbol_ref(&"y".to_string()), Some(1));
    assert_eq!(table.get_symbol_ref(&"z".to_string()), None);
}

/// The string list hands out dense indices in insertion order.
#[test]
fn string_list_hands_out_dense_indices() {
    let mut strings = StringList::new();
    assert_eq!(strings.add("a"), 0);
    assert_eq!(strings.add("b"), 1);
    assert_eq!(strings.get(1), "b");
    assert_eq!(strings.len(), 2);
}
