//! The program tree. Nodes live in an arena and refer to their children by
//! index; a child's index is always strictly below its parent's, so every
//! traversal terminates, and later passes can rewrite nodes in place.

use vstd::prelude::*;

use crate::cfg::BuildError;
use crate::symbol::{syms_view, StringList, Symbol, SymbolKind, SymbolModel, SymbolTable, Type};
use crate::token::{Token, TokenType};

verus! {

/// The grammar production a tree node came from.
#[derive(Debug, Clone, Copy, PartialEq, Eq, Structural)]
pub enum NodeType {
    Program,
    StatementList,
    Statement,
    PrintStatement,
    AssignmentStatement,
    Expression,
    IfStatement,
    Condition,
    FunctionDefinition,
    FunctionCall,
    Term,
    Factor,
}

/// One node of the program tree: a kind tag, an optional leaf token, a
/// free-form string carrying an operator or comparator symbol, and the
/// arena indices of its children.
#[derive(Debug, Clone)]
pub struct Node {
    pub token: Option<Token>,
    pub children: Vec<usize>,
    pub node_type: NodeType,
    pub data: String,
}

impl Node {
    /// A childless, tokenless node of the given kind.
    pub fn new(node_type: NodeType) -> (r: Self)
        ensures
            r.token is None,
            r.children@.len() == 0,
            r.node_type == node_type,
            r.data@.len() == 0,
    {
        Self { token: None, children: Vec::new(), node_type, data: String::new() }
    }
}

/// The arena after interning the string literal of one node: an
/// expression node carrying a string literal has it appended to the
/// string list and its token replaced by the new index; any other node is
/// left alone.
pub open spec fn intern_node_s(nodes: Seq<Node>, idx: int, nstrings: nat) -> Seq<Node> {
    if !(0 <= idx < nodes.len()) {
        nodes
    } else if nodes[idx].node_type == NodeType::Expression {
        match nodes[idx].token {
            Some(tok) => match tok.token_type {
                TokenType::StringLiteral(sv) => nodes.update(
                    idx,
                    Node {
                        token: Some(
                            Token {
                                token_type: TokenType::StringListIndex(nstrings as usize),
                                line: tok.line,
                                column: tok.column,
                            },
                        ),
                        children: nodes[idx].children,
                        node_type: nodes[idx].node_type,
                        data: nodes[idx].data,
                    },
                ),
                _ => nodes,
            },
            None => nodes,
        }
    } else {
        nodes
    }
}

/// The string list after interning one node.
pub open spec fn intern_strings_s(nodes: Seq<Node>, idx: int, strings: Seq<Seq<char>>) -> Seq<
    Seq<char>,
> {
    if !(0 <= idx < nodes.len()) {
        strings
    } else if nodes[idx].node_type == NodeType::Expression {
        match nodes[idx].token {
            Some(tok) => match tok.token_type {
                TokenType::StringLiteral(sv) => strings.push(sv@),
                _ => strings,
            },
            None => strings,
        }
    } else {
        strings
    }
}

/// The model of the interning pass on the subtree at `idx`: the node
/// itself first, then its children left to right. The pair carries the
/// rewritten arena and the grown string list.
pub open spec fn fill_s(nodes: Seq<Node>, idx: int, strings: Seq<Seq<char>>) -> (
    Seq<Node>,
    Seq<Seq<char>>,
)
    decreases idx, 1int, 0int,
{
    if !(0 <= idx < nodes.len()) {
        (nodes, strings)
    } else {
        let nodes1 = intern_node_s(nodes, idx, strings.len());
        let strings1 = intern_strings_s(nodes, idx, strings);
        fill_children_s(nodes1, idx, nodes1[idx].children@.len() as int, strings1)
    }
}

/// The model of the interning pass on the children at positions below
/// `k`, left to right.
pub open spec fn fill_children_s(
    nodes: Seq<Node>,
    idx: int,
    k: int,
    strings: Seq<Seq<char>>,
) -> (Seq<Node>, Seq<Seq<char>>)
    decreases idx, 0int, k,
{
    if !(0 <= idx < nodes.len()) || k <= 0 {
        (nodes, strings)
    } else {
        let mid = fill_children_s(nodes, idx, k - 1, strings);
        if !(0 <= idx < mid.0.len()) || k > mid.0[idx].children@.len() {
            mid
        } else {
            let c = mid.0[idx].children@[k - 1] as int;
            if !(c < idx) {
                mid
            } else {
                fill_s(mid.0, c, mid.1)
            }
        }
    }
}

/// Replaces every string literal under `idx` by an index into the string
/// list, appending the literal's text there; exactly the model pass
/// `fill_s`.
pub fn fill_string_list(nodes: &mut Vec<Node>, idx: usize, string_list: &mut StringList)
    ensures
        ({
            let res = fill_s(old(nodes)@, idx as int, old(string_list)@);
            final(nodes)@ == res.0 && final(string_list)@ == res.1
        }),
    decreases idx, 1int, 0int,
{
    let ghost pre_nodes = nodes@;
    let ghost pre_strings = string_list@;
    if idx >= nodes.len() {
        return ;
    }
    let interned: Option<(String, usize, usize)> = if nodes[idx].node_type
        == NodeType::Expression {
        match &nodes[idx].token {
            Some(tok) => match &tok.token_type {
                TokenType::StringLiteral(sv) => Some((sv.clone(), tok.line, tok.column)),
                _ => None,
            },
            None => None,
        }
    } else {
        None
    };
    match interned {
        Some((sv, line, column)) => {
            let j = string_list.add(sv.as_str());
            let tok = Token { token_type: TokenType::StringListIndex(j), line, column };
            nodes[idx].token = Some(tok);
            proof {
                assert(nodes@ =~= intern_node_s(pre_nodes, idx as int, pre_strings.len()));
                assert(string_list@ =~= intern_strings_s(pre_nodes, idx as int, pre_strings));
            }
        },
        None => {
            proof {
                assert(nodes@ =~= intern_node_s(pre_nodes, idx as int, pre_strings.len()));
                assert(string_list@ =~= intern_strings_s(pre_nodes, idx as int, pre_strings));
            }
        },
    }
    let klen = nodes[idx].children.len();
    fill_children(nodes, idx, klen, string_list);
}

/// Interns the literals of the children at positions below `k`.
fn fill_children(nodes: &mut Vec<Node>, idx: usize, k: usize, string_list: &mut StringList)
    ensures
        ({
            let res = fill_children_s(old(nodes)@, idx as int, k as int, old(string_list)@);
            final(nodes)@ == res.0 && final(string_list)@ == res.1
        }),
    decreases idx, 0int, k,
{
    if idx >= nodes.len() || k == 0 {
        return ;
    }
    fill_children(nodes, idx, k - 1, string_list);
    if idx >= nodes.len() || k > nodes[idx].children.len() {
        return ;
    }
    let c = nodes[idx].children[k - 1];
    if !(c < idx) {
        return ;
    }
    fill_string_list(nodes, c, string_list);
}

/// The model of a token payload: the same vocabulary with string
/// payloads as character sequences.
pub ghost enum TokenTypeModel {
    IntLiteral(i64),
    StringLiteral(Seq<char>),
    StringListIndex(nat),
    Identifier(Seq<char>),
    Symbol(nat),
}

impl View for TokenType {
    type V = TokenTypeModel;

    open spec fn view(&self) -> TokenTypeModel {
        match *self {
            TokenType::IntLiteral(v) => TokenTypeModel::IntLiteral(v),
            TokenType::StringLiteral(ref sv) => TokenTypeModel::StringLiteral(sv@),
            TokenType::StringListIndex(si) => TokenTypeModel::StringListIndex(si as nat),
            TokenType::Identifier(ref name) => TokenTypeModel::Identifier(name@),
            TokenType::Symbol(sym) => TokenTypeModel::Symbol(sym as nat),
        }
    }
}

/// The model of a token.
pub ghost struct TokenModel {
    pub token_type: TokenTypeModel,
    pub line: nat,
    pub column: nat,
}

impl View for Token {
    type V = TokenModel;

    open spec fn view(&self) -> TokenModel {
        TokenModel {
            token_type: self.token_type@,
            line: self.line as nat,
            column: self.column as nat,
        }
    }
}

/// The model of a tree node.
pub ghost struct NodeModel {
    pub token: Option<TokenModel>,
    pub children: Seq<nat>,
    pub node_type: NodeType,
    pub data: Seq<char>,
}

impl View for Node {
    type V = NodeModel;

    open spec fn view(&self) -> NodeModel {
        NodeModel {
            token: match self.token {
                Some(t) => Some(t@),
                None => None,
            },
            children: Seq::new(self.children@.len(), |i: int| self.children@[i] as nat),
            node_type: self.node_type,
            data: self.data@,
        }
    }
}

/// The views of an arena of nodes.
pub open spec fn nodes_view(nodes: Seq<Node>) -> Seq<NodeModel> {
    nodes.map_values(|n: Node| n@)
}

/// The single-child collapse on the model arena: a sequencing or
/// expression-layer node with exactly one child is replaced by that
/// child.
pub open spec fn collapse_single_m(nodes: Seq<NodeModel>, idx: int) -> Seq<NodeModel> {
    if !(0 <= idx < nodes.len()) {
        nodes
    } else {
        let node = nodes[idx];
        let collapsible = node.node_type == NodeType::Program || node.node_type
            == NodeType::StatementList || node.node_type == NodeType::Statement || node.node_type
            == NodeType::Expression || node.node_type == NodeType::Term || node.node_type
            == NodeType::Factor;
        if collapsible && node.children.len() == 1 && node.children[0] < nodes.len() {
            nodes.update(idx, nodes[node.children[0] as int])
        } else {
            nodes
        }
    }
}

/// The statement-list splice on the model arena: a two-child statement
/// list whose second child is itself a statement list absorbs that
/// child's children.
pub open spec fn splice_m(nodes: Seq<NodeModel>, idx: int) -> Seq<NodeModel> {
    if !(0 <= idx < nodes.len()) {
        nodes
    } else {
        let node = nodes[idx];
        if node.node_type == NodeType::StatementList && node.children.len() == 2
            && node.children[1] < nodes.len() && nodes[node.children[1] as int].node_type
            == NodeType::StatementList {
            nodes.update(
                idx,
                NodeModel {
                    token: node.token,
                    children: seq![node.children[0]] + nodes[node.children[1] as int].children,
                    node_type: node.node_type,
                    data: node.data,
                },
            )
        } else {
            nodes
        }
    }
}

/// The model of the simplification pass on the subtree at `idx`: the
/// children are simplified left to right, then the node itself is
/// collapsed and spliced.
pub open spec fn simplify_m(nodes: Seq<NodeModel>, idx: int) -> Seq<NodeModel>
    decreases idx, 1int, 0int,
{
    if !(0 <= idx < nodes.len()) {
        nodes
    } else {
        let mid = simplify_children_m(nodes, idx, nodes[idx].children.len() as int);
        splice_m(collapse_single_m(mid, idx), idx)
    }
}

/// The model of simplifying the children at positions below `k`, left to
/// right.
pub open spec fn simplify_children_m(nodes: Seq<NodeModel>, idx: int, k: int) -> Seq<NodeModel>
    decreases idx, 0int, k,
{
    if !(0 <= idx < nodes.len()) || k <= 0 {
        nodes
    } else {
        let mid = simplify_children_m(nodes, idx, k - 1);
        if !(0 <= idx < mid.len()) || k > mid[idx].children.len() {
            mid
        } else {
            let c = mid[idx].children[k - 1] as int;
            if !(c < idx) {
                mid
            } else {
                simplify_m(mid, c)
            }
        }
    }
}

/// A copy of a node, with the same view.
fn clone_node(n: &Node) -> (r: Node)
    ensures
        r@ == n@,
{
    let token: Option<Token> = match &n.token {
        Some(t) => {
            let tt: TokenType = match &t.token_type {
                TokenType::IntLiteral(v) => TokenType::IntLiteral(*v),
                TokenType::StringLiteral(sv) => TokenType::StringLiteral(sv.clone()),
                TokenType::StringListIndex(si) => TokenType::StringListIndex(*si),
                TokenType::Identifier(name) => TokenType::Identifier(name.clone()),
                TokenType::Symbol(sym) => TokenType::Symbol(*sym),
            };
            Some(Token { token_type: tt, line: t.line, column: t.column })
        },
        None => None,
    };
    let mut children: Vec<usize> = Vec::new();
    let m = n.children.len();
    let mut i: usize = 0;
    while i < m
        invariant
            m == n.children@.len(),
            i <= m,
            children@ =~= n.children@.take(i as int),
        decreases m - i,
    {
        children.push(n.children[i]);
        proof {
            assert(children@ =~= n.children@.take(i as int + 1));
        }
        i += 1;
    }
    proof {
        assert(children@ =~= n.children@);
    }
    let r = Node { token, children, node_type: n.node_type, data: n.data.clone() };
    proof {
        assert(r@.children =~= n@.children);
    }
    r
}

/// Normalises the tree in place: every single-child sequencing or
/// expression-layer node is replaced by its child, and statement lists
/// are flattened; exactly the model pass `simplify_m`.
pub fn simplify_tree(nodes: &mut Vec<Node>, idx: usize)
    ensures
        nodes_view(final(nodes)@) == simplify_m(nodes_view(old(nodes)@), idx as int),
    decreases idx, 1int, 0int,
{
    let ghost pre = nodes_view(nodes@);
    if idx >= nodes.len() {
        return ;
    }
    proof {
        assert(pre[idx as int].children.len() == nodes@[idx as int].children@.len());
    }
    let klen = nodes[idx].children.len();
    simplify_children(nodes, idx, klen);
    let ghost mid = nodes_view(nodes@);
    // single-child collapse
    if idx < nodes.len() {
        let node_kind = nodes[idx].node_type;
        let collapsible = match node_kind {
            NodeType::Program | NodeType::StatementList | NodeType::Statement
                | NodeType::Expression | NodeType::Term | NodeType::Factor => true,
            _ => false,
        };
        if collapsible && nodes[idx].children.len() == 1 {
            let c0 = nodes[idx].children[0];
            proof {
                assert(mid[idx as int].children[0] == c0 as nat);
            }
            if c0 < nodes.len() {
                let repl = clone_node(&nodes[c0]);
                nodes[idx] = repl;
            }
        }
    }
    proof {
        assert(nodes_view(nodes@) =~= collapse_single_m(mid, idx as int));
    }
    let ghost mid2 = nodes_view(nodes@);
    // statement-list splice
    if idx < nodes.len() && nodes[idx].children.len() == 2 {
        let is_sl = match nodes[idx].node_type {
            NodeType::StatementList => true,
            _ => false,
        };
        if is_sl {
            let c1 = nodes[idx].children[1];
            proof {
                assert(mid2[idx as int].children[1] == c1 as nat);
            }
            if c1 < nodes.len() {
                let is_sl2 = match nodes[c1].node_type {
                    NodeType::StatementList => true,
                    _ => false,
                };
                if is_sl2 {
                    let c0 = nodes[idx].children[0];
                    let mut ch: Vec<usize> = Vec::new();
                    ch.push(c0);
                    let m = nodes[c1].children.len();
                    let mut i: usize = 0;
                    while i < m
                        invariant
                            idx < nodes@.len(),
                            c1 < nodes@.len(),
                            m == nodes@[c1 as int].children@.len(),
                            i <= m,
                            nodes_view(nodes@) == mid2,
                            ch@ =~= seq![c0] + nodes@[c1 as int].children@.take(i as int),
                        decreases m - i,
                    {
                        let x = nodes[c1].children[i];
                        ch.push(x);
                        proof {
                            assert(ch@ =~= seq![c0] + nodes@[c1 as int].children@.take(
                                i as int + 1,
                            ));
                        }
                        i += 1;
                    }
                    proof {
                        assert(ch@ =~= seq![c0] + nodes@[c1 as int].children@);
                    }
                    nodes[idx].children = ch;
                    proof {
                        let target = splice_m(mid2, idx as int);
                        assert(nodes_view(nodes@)[idx as int].children =~= target[idx as int].children);
                        assert(nodes_view(nodes@)[idx as int] == target[idx as int]);
                        assert(nodes_view(nodes@) =~= target);
                    }
                }
            }
        }
    }
    proof {
        assert(nodes_view(nodes@) =~= splice_m(mid2, idx as int));
        assert(nodes_view(nodes@) == simplify_m(pre, idx as int));
    }
}

/// Simplifies the children at positions below `k`, left to right.
fn simplify_children(nodes: &mut Vec<Node>, idx: usize, k: usize)
    ensures
        nodes_view(final(nodes)@) == simplify_children_m(
            nodes_view(old(nodes)@),
            idx as int,
            k as int,
        ),
    decreases idx, 0int, k,
{
    let ghost pre = nodes_view(nodes@);
    if idx >= nodes.len() || k == 0 {
        return ;
    }
    simplify_children(nodes, idx, k - 1);
    let ghost midw = nodes_view(nodes@);
    if idx >= nodes.len() || k > nodes[idx].children.len() {
        proof {
            if (idx as int) < nodes@.len() {
                assert(midw[idx as int].children.len() == nodes@[idx as int].children@.len());
            }
        }
        return ;
    }
    let c = nodes[idx].children[k - 1];
    proof {
        assert(midw[idx as int].children[k as int - 1] == c as nat);
        assert(midw[idx as int].children.len() == nodes@[idx as int].children@.len());
    }
    if !(c < idx) {
        return ;
    }
    simplify_tree(nodes, c);
}

/// The position of the first record carrying `name`, from `k` on; the
/// table's length when none does.
pub open spec fn first_sym_from(tbl: Seq<SymbolModel>, name: Seq<char>, k: int) -> int
    decreases tbl.len() - k,
{
    if k < 0 || k >= tbl.len() {
        tbl.len() as int
    } else if tbl[k].name == name {
        k
    } else {
        first_sym_from(tbl, name, k + 1)
    }
}

/// The model of adding a name to the table: an existing name keeps its
/// handle and record; a fresh one is appended with the given kind.
pub open spec fn add_sym_m(tbl: Seq<SymbolModel>, name: Seq<char>, kind: SymbolKind) -> (
    Seq<SymbolModel>,
    nat,
) {
    let f = first_sym_from(tbl, name, 0);
    if f < tbl.len() {
        (tbl, f as nat)
    } else {
        (tbl.push(SymbolModel { name, kind, type_: Type::Unknown }), tbl.len())
    }
}

/// The model of resolving a name: the handle of its first record, if any.
pub open spec fn resolve_sym_m(tbl: Seq<SymbolModel>, name: Seq<char>) -> Option<nat> {
    let f = first_sym_from(tbl, name, 0);
    if f < tbl.len() {
        Some(f as nat)
    } else {
        None
    }
}

/// The first matching position is a match and nothing earlier matches;
/// past the length, nothing matches at all.
proof fn lemma_first_sym(tbl: Seq<SymbolModel>, name: Seq<char>, k: int)
    requires
        0 <= k <= tbl.len(),
    ensures
        k <= first_sym_from(tbl, name, k) <= tbl.len(),
        first_sym_from(tbl, name, k) < tbl.len() ==> tbl[first_sym_from(tbl, name, k)].name
            == name && (forall|j: int|
            k <= j < first_sym_from(tbl, name, k) ==> (#[trigger] tbl[j]).name != name),
        first_sym_from(tbl, name, k) == tbl.len() ==> (forall|j: int|
            k <= j < tbl.len() ==> (#[trigger] tbl[j]).name != name),
    decreases tbl.len() - k,
{
    if k < tbl.len() && tbl[k].name != name {
        lemma_first_sym(tbl, name, k + 1);
    }
}

/// The identifier text a node's token carries, if it is an unresolved
/// identifier.
pub open spec fn ident_of(node: Node) -> Option<Seq<char>> {
    match node.token {
        Some(t) => match t.token_type {
            TokenType::Identifier(name) => Some(name@),
            _ => None,
        },
        None => None,
    }
}

/// A token carrying a resolved handle at the position of `t`.
pub open spec fn sym_token_s(t: Token, r: nat) -> Token {
    Token { token_type: TokenType::Symbol(r as usize), line: t.line, column: t.column }
}

/// The model of the resolution pass on the subtree at `idx`. An
/// assignment or function definition whose first child is an unresolved
/// identifier declares it — variable or function — rewrites the child's
/// token to the handle, and walks the grandchildren of its second child,
/// skipping the declared name itself, as the tree walker does; a call or a
/// bare identifier resolves against the table and fails when the name is
/// unknown; anything else walks its children.
pub open spec fn find_s(nodes: Seq<Node>, tbl: Seq<SymbolModel>, idx: int) -> (
    Seq<Node>,
    Seq<SymbolModel>,
    Option<BuildError>,
)
    decreases idx, 3int, 0int,
{
    if !(0 <= idx < nodes.len()) {
        (nodes, tbl, Some(BuildError::MalformedInput))
    } else {
        let node = nodes[idx];
        let is_decl = node.node_type == NodeType::AssignmentStatement || node.node_type
            == NodeType::FunctionDefinition;
        if is_decl && node.children@.len() >= 2 && node.children@[0] < nodes.len() && ident_of(
            nodes[node.children@[0] as int],
        ) is Some {
            let ic = node.children@[0] as int;
            let name = ident_of(nodes[ic])->Some_0;
            let kind = if node.node_type == NodeType::AssignmentStatement {
                SymbolKind::Variable
            } else {
                SymbolKind::Function
            };
            let res = add_sym_m(tbl, name, kind);
            let t = nodes[ic].token->Some_0;
            let nodes1 = nodes.update(
                ic,
                Node {
                    token: Some(sym_token_s(t, res.1)),
                    children: nodes[ic].children,
                    node_type: nodes[ic].node_type,
                    data: nodes[ic].data,
                },
            );
            let bc = node.children@[1] as int;
            if !(0 <= bc < nodes1.len()) {
                (nodes1, res.0, Some(BuildError::MalformedInput))
            } else {
                find_grandchildren_s(nodes1, res.0, idx, bc, nodes1[bc].children@.len() as int)
            }
        } else if node.node_type == NodeType::FunctionCall && node.children@.len() >= 1
            && node.children@[0] < nodes.len() && ident_of(nodes[node.children@[0] as int])
            is Some {
            let ic = node.children@[0] as int;
            let name = ident_of(nodes[ic])->Some_0;
            match resolve_sym_m(tbl, name) {
                Some(r) => {
                    let t = nodes[ic].token->Some_0;
                    (
                        nodes.update(
                            ic,
                            Node {
                                token: Some(sym_token_s(t, r)),
                                children: nodes[ic].children,
                                node_type: nodes[ic].node_type,
                                data: nodes[ic].data,
                            },
                        ),
                        tbl,
                        None,
                    )
                },
                None => (nodes, tbl, Some(BuildError::MalformedInput)),
            }
        } else if ident_of(node) is Some {
            let name = ident_of(node)->Some_0;
            match resolve_sym_m(tbl, name) {
                Some(r) => {
                    let t = node.token->Some_0;
                    (
                        nodes.update(
                            idx,
                            Node {
                                token: Some(sym_token_s(t, r)),
                                children: node.children,
                                node_type: node.node_type,
                                data: node.data,
                            },
                        ),
                        tbl,
                        None,
                    )
                },
                None => (nodes, tbl, Some(BuildError::MalformedInput)),
            }
        } else {
            find_children_s(nodes, tbl, idx, nodes[idx].children@.len() as int)
        }
    }
}

/// The model of resolving the children of `idx` at positions below `k`,
/// left to right.
pub open spec fn find_children_s(nodes: Seq<Node>, tbl: Seq<SymbolModel>, idx: int, k: int) -> (
    Seq<Node>,
    Seq<SymbolModel>,
    Option<BuildError>,
)
    decreases idx, 2int, k,
{
    if !(0 <= idx < nodes.len()) || k <= 0 {
        (nodes, tbl, None)
    } else {
        let mid = find_children_s(nodes, tbl, idx, k - 1);
        if mid.2 is Some {
            mid
        } else if !(0 <= idx < mid.0.len()) || k > mid.0[idx].children@.len() {
            (mid.0, mid.1, Some(BuildError::MalformedInput))
        } else {
            let c = mid.0[idx].children@[k - 1] as int;
            if !(c < idx) {
                (mid.0, mid.1, Some(BuildError::MalformedInput))
            } else {
                find_s(mid.0, mid.1, c)
            }
        }
    }
}

/// The model of resolving the grandchildren under `bc`, a child of the
/// declaration at `idx`, at positions below `k`, left to right.
pub open spec fn find_grandchildren_s(
    nodes: Seq<Node>,
    tbl: Seq<SymbolModel>,
    idx: int,
    bc: int,
    k: int,
) -> (Seq<Node>, Seq<SymbolModel>, Option<BuildError>)
    decreases idx, 1int, k,
{
    if !(0 <= bc < nodes.len()) || k <= 0 {
        (nodes, tbl, None)
    } else {
        let mid = find_grandchildren_s(nodes, tbl, idx, bc, k - 1);
        if mid.2 is Some {
            mid
        } else if !(0 <= bc < mid.0.len()) || k > mid.0[bc].children@.len() {
            (mid.0, mid.1, Some(BuildError::MalformedInput))
        } else {
            let c = mid.0[bc].children@[k - 1] as int;
            if !(c < idx) {
                (mid.0, mid.1, Some(BuildError::MalformedInput))
            } else {
                find_s(mid.0, mid.1, c)
            }
        }
    }
}

/// The identifier text of a node's token, if it is an unresolved
/// identifier.
fn get_ident(n: &Node) -> (r: Option<String>)
    ensures
        match r {
            Some(s) => ident_of(*n) == Some(s@),
            None => ident_of(*n) is None,
        },
{
    match &n.token {
        Some(t) => match &t.token_type {
            TokenType::Identifier(nm) => Some(nm.clone()),
            _ => None,
        },
        None => None,
    }
}

/// Declares or finds `name` in the table; exactly the model `add_sym_m`.
#[verifier::rlimit(60)]
fn add_symbol(symbol_table: &mut SymbolTable, name: &String, kind: SymbolKind) -> (r: usize)
    ensures
        syms_view(final(symbol_table)@) == add_sym_m(syms_view(old(symbol_table)@), name@, kind).0,
        r as nat == add_sym_m(syms_view(old(symbol_table)@), name@, kind).1,
{
    let ghost tbl0 = symbol_table@;
    let ghost m0 = syms_view(tbl0);
    let r = symbol_table.add(name.as_str(), kind);
    proof {
        lemma_first_sym(m0, name@, 0);
        let f = first_sym_from(m0, name@, 0);
        if old(symbol_table).spec_contains_name(name@) {
            let w = choose|i: int| 0 <= i < tbl0.len() && tbl0[i].name@ == name@;
            assert(m0[w].name == name@);
            assert(f < m0.len());
            assert(tbl0[f].name@ == name@);
            assert forall|j: int| 0 <= j < f implies (#[trigger] tbl0[j]).name@ != name@ by {
                assert(m0[j] == tbl0[j]@);
                assert(m0[j].name != name@);
            }
            assert(exists|i: int|
                0 <= i < tbl0.len() && tbl0[i].name@ == name@ && (forall|j: int|
                    0 <= j < i ==> tbl0[j].name@ != name@)) by {
                assert(0 <= f < tbl0.len() && tbl0[f].name@ == name@ && (forall|j: int|
                    0 <= j < f ==> tbl0[j].name@ != name@));
            }
            let c = old(symbol_table).spec_ref_of(name@);
            assert(0 <= c < tbl0.len() && tbl0[c].name@ == name@ && (forall|j: int|
                0 <= j < c ==> tbl0[j].name@ != name@));
            assert(c == f);
        } else {
            assert(f == m0.len()) by {
                if f < m0.len() {
                    assert(tbl0[f].name@ == name@);
                }
            }
            assert(syms_view(symbol_table@) =~= m0.push(
                SymbolModel { name: name@, kind, type_: Type::Unknown },
            )) by {
                assert(forall|j: int|
                    0 <= j < tbl0.len() ==> #[trigger] symbol_table@[j] == tbl0.subrange(
                        0,
                        tbl0.len() as int,
                    )[j]);
                assert(forall|j: int|
                    0 <= j < tbl0.len() ==> #[trigger] symbol_table@[j] == tbl0[j]);
            }
        }
    }
    r
}

/// Resolves `name` against the table; exactly the model `resolve_sym_m`.
#[verifier::rlimit(60)]
fn resolve_symbol(symbol_table: &SymbolTable, name: &String) -> (r: Option<usize>)
    ensures
        match r {
            Some(v) => resolve_sym_m(syms_view(symbol_table@), name@) == Some(v as nat),
            None => resolve_sym_m(syms_view(symbol_table@), name@) is None,
        },
{
    let ghost tbl0 = symbol_table@;
    let ghost m0 = syms_view(tbl0);
    let r = symbol_table.get_symbol_ref(name);
    proof {
        lemma_first_sym(m0, name@, 0);
        let f = first_sym_from(m0, name@, 0);
        if symbol_table.spec_contains_name(name@) {
            let w = choose|i: int| 0 <= i < tbl0.len() && tbl0[i].name@ == name@;
            assert(m0[w].name == name@);
            assert(f < m0.len());
            assert(tbl0[f].name@ == name@);
            assert forall|j: int| 0 <= j < f implies (#[trigger] tbl0[j]).name@ != name@ by {
                assert(m0[j] == tbl0[j]@);
                assert(m0[j].name != name@);
            }
            assert(exists|i: int|
                0 <= i < tbl0.len() && tbl0[i].name@ == name@ && (forall|j: int|
                    0 <= j < i ==> tbl0[j].name@ != name@)) by {
                assert(0 <= f < tbl0.len() && tbl0[f].name@ == name@ && (forall|j: int|
                    0 <= j < f ==> tbl0[j].name@ != name@));
            }
            let c = symbol_table.spec_ref_of(name@);
            assert(0 <= c < tbl0.len() && tbl0[c].name@ == name@ && (forall|j: int|
                0 <= j < c ==> tbl0[j].name@ != name@));
            assert(c == f);
        } else {
            assert(f == m0.len()) by {
                if f < m0.len() {
                    assert(tbl0[f].name@ == name@);
                }
            }
        }
    }
    r
}

/// Resolves every identifier under `idx`: assignments and function
/// definitions declare their target — variable or function — and other
/// identifiers must already be known; exactly the model pass `find_s`.
pub fn find_symbols(nodes: &mut Vec<Node>, idx: usize, symbol_table: &mut SymbolTable) -> (r:
    Result<(), BuildError>)
    ensures
        ({
            let res = find_s(old(nodes)@, syms_view(old(symbol_table)@), idx as int);
            &&& final(nodes)@ == res.0
            &&& syms_view(final(symbol_table)@) == res.1
            &&& match r {
                Ok(u) => res.2 is None,
                Err(e) => res.2 == Some(e),
            }
        }),
    decreases idx, 3int, 0int,
{
    let ghost pre_nodes = nodes@;
    let ghost pre_tbl = syms_view(symbol_table@);
    if idx >= nodes.len() {
        return Err(BuildError::MalformedInput);
    }
    let is_decl = match nodes[idx].node_type {
        NodeType::AssignmentStatement | NodeType::FunctionDefinition => true,
        _ => false,
    };
    let decl_ident: Option<String> = if is_decl && nodes[idx].children.len() >= 2
        && nodes[idx].children[0] < nodes.len() {
        get_ident(&nodes[nodes[idx].children[0]])
    } else {
        None
    };
    if let Some(name) = decl_ident {
        let ic = nodes[idx].children[0];
        let kind = match nodes[idx].node_type {
            NodeType::AssignmentStatement => SymbolKind::Variable,
            _ => SymbolKind::Function,
        };
        let r = add_symbol(symbol_table, &name, kind);
        let (line, column) = match &nodes[ic].token {
            Some(t) => (t.line, t.column),
            None => (0, 0),
        };
        let tok = Token { token_type: TokenType::Symbol(r), line, column };
        nodes[ic].token = Some(tok);
        proof {
            let resm = add_sym_m(pre_tbl, name@, kind);
            let t = pre_nodes[ic as int].token->Some_0;
            assert(nodes@ =~= pre_nodes.update(
                ic as int,
                Node {
                    token: Some(sym_token_s(t, resm.1)),
                    children: pre_nodes[ic as int].children,
                    node_type: pre_nodes[ic as int].node_type,
                    data: pre_nodes[ic as int].data,
                },
            ));
        }
        let bc = nodes[idx].children[1];
        if !(bc < nodes.len()) {
            return Err(BuildError::MalformedInput);
        }
        let klen = nodes[bc].children.len();
        return match find_grandchildren(nodes, idx, bc, klen, symbol_table) {
            Ok(u) => Ok(()),
            Err(e) => Err(e),
        };
    }
    let is_call = match nodes[idx].node_type {
        NodeType::FunctionCall => true,
        _ => false,
    };
    let call_ident: Option<String> = if is_call && nodes[idx].children.len() >= 1
        && nodes[idx].children[0] < nodes.len() {
        get_ident(&nodes[nodes[idx].children[0]])
    } else {
        None
    };
    if let Some(name) = call_ident {
        let ic = nodes[idx].children[0];
        return match resolve_symbol(symbol_table, &name) {
            Some(r) => {
                let (line, column) = match &nodes[ic].token {
                    Some(t) => (t.line, t.column),
                    None => (0, 0),
                };
                let tok = Token { token_type: TokenType::Symbol(r), line, column };
                nodes[ic].token = Some(tok);
                proof {
                    let t = pre_nodes[ic as int].token->Some_0;
                    let rm = resolve_sym_m(pre_tbl, name@)->Some_0;
                    assert(nodes@ =~= pre_nodes.update(
                        ic as int,
                        Node {
                            token: Some(sym_token_s(t, rm)),
                            children: pre_nodes[ic as int].children,
                            node_type: pre_nodes[ic as int].node_type,
                            data: pre_nodes[ic as int].data,
                        },
                    ));
                }
                Ok(())
            },
            None => Err(BuildError::MalformedInput),
        };
    }
    match get_ident(&nodes[idx]) {
        Some(name) => {
            match resolve_symbol(symbol_table, &name) {
                Some(r) => {
                    let (line, column) = match &nodes[idx].token {
                        Some(t) => (t.line, t.column),
                        None => (0, 0),
                    };
                    let tok = Token { token_type: TokenType::Symbol(r), line, column };
                    nodes[idx].token = Some(tok);
                    proof {
                        let t = pre_nodes[idx as int].token->Some_0;
                        let rm = resolve_sym_m(pre_tbl, name@)->Some_0;
                        assert(nodes@ =~= pre_nodes.update(
                            idx as int,
                            Node {
                                token: Some(sym_token_s(t, rm)),
                                children: pre_nodes[idx as int].children,
                                node_type: pre_nodes[idx as int].node_type,
                                data: pre_nodes[idx as int].data,
                            },
                        ));
                    }
                    Ok(())
                },
                None => Err(BuildError::MalformedInput),
            }
        },
        None => find_children_all(nodes, idx, symbol_table),
    }
}

/// Resolves all children of `idx`, left to right.
fn find_children_all(nodes: &mut Vec<Node>, idx: usize, symbol_table: &mut SymbolTable) -> (r:
    Result<(), BuildError>)
    requires
        idx < old(nodes)@.len(),
    ensures
        ({
            let res = find_children_s(
                old(nodes)@,
                syms_view(old(symbol_table)@),
                idx as int,
                old(nodes)@[idx as int].children@.len() as int,
            );
            &&& final(nodes)@ == res.0
            &&& syms_view(final(symbol_table)@) == res.1
            &&& match r {
                Ok(u) => res.2 is None,
                Err(e) => res.2 == Some(e),
            }
        }),
    decreases idx, 2int, old(nodes)@[idx as int].children@.len() as int + 1,
{
    let klen = nodes[idx].children.len();
    find_children(nodes, idx, klen, symbol_table)
}

/// Resolves the children of `idx` at positions below `k`, left to right.
fn find_children(nodes: &mut Vec<Node>, idx: usize, k: usize, symbol_table: &mut SymbolTable) -> (
    r: Result<(), BuildError>)
    ensures
        ({
            let res = find_children_s(
                old(nodes)@,
                syms_view(old(symbol_table)@),
                idx as int,
                k as int,
            );
            &&& final(nodes)@ == res.0
            &&& syms_view(final(symbol_table)@) == res.1
            &&& match r {
                Ok(u) => res.2 is None,
                Err(e) => res.2 == Some(e),
            }
        }),
    decreases idx, 2int, k,
{
    if idx >= nodes.len() || k == 0 {
        return Ok(());
    }
    match find_children(nodes, idx, k - 1, symbol_table) {
        Ok(u) => {},
        Err(e) => {
            return Err(e);
        },
    }
    if idx >= nodes.len() || k > nodes[idx].children.len() {
        return Err(BuildError::MalformedInput);
    }
    let c = nodes[idx].children[k - 1];
    if !(c < idx) {
        return Err(BuildError::MalformedInput);
    }
    match find_symbols(nodes, c, symbol_table) {
        Ok(u) => Ok(()),
        Err(e) => Err(e),
    }
}

/// Resolves the grandchildren under `bc` at positions below `k`, left to
/// right.
fn find_grandchildren(
    nodes: &mut Vec<Node>,
    idx: usize,
    bc: usize,
    k: usize,
    symbol_table: &mut SymbolTable,
) -> (r: Result<(), BuildError>)
    ensures
        ({
            let res = find_grandchildren_s(
                old(nodes)@,
                syms_view(old(symbol_table)@),
                idx as int,
                bc as int,
                k as int,
            );
            &&& final(nodes)@ == res.0
            &&& syms_view(final(symbol_table)@) == res.1
            &&& match r {
                Ok(u) => res.2 is None,
                Err(e) => res.2 == Some(e),
            }
        }),
    decreases idx, 1int, k,
{
    if bc >= nodes.len() || k == 0 {
        return Ok(());
    }
    match find_grandchildren(nodes, idx, bc, k - 1, symbol_table) {
        Ok(u) => {},
        Err(e) => {
            return Err(e);
        },
    }
    if bc >= nodes.len() || k > nodes[bc].children.len() {
        return Err(BuildError::MalformedInput);
    }
    let c = nodes[bc].children[k - 1];
    if !(c < idx) {
        return Err(BuildError::MalformedInput);
    }
    match find_symbols(nodes, c, symbol_table) {
        Ok(u) => Ok(()),
        Err(e) => Err(e),
    }
}

} // verus!
