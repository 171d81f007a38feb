//! The part of a syntax tree that token classification reads.
use vstd::prelude::*;

use crate::text::eq_str;

verus! {

/// The kinds of node that matter to parameter uses.
#[derive(Debug, Clone, Copy, PartialEq, Eq, Structural)]
pub enum NodeKind {
    FunctionDeclaration,
    MethodDeclaration,
    FunctionValueParameters,
    Parameter,
    FunctionBody,
    ForStatement,
    ControlStructureBody,
    LambdaLiteral,
    CatchBlock,
    Block,
    Statements,
    PropertyDeclaration,
    MultiVariableDeclaration,
    VariableDeclaration,
    SimpleIdentifier,
    InterpolatedIdentifier,
    Other,
}

/// The kinds and the names that the grammar has for them.
pub const KIND_NAMES: [(&'static str, NodeKind); 16] = [
    ("function_declaration", NodeKind::FunctionDeclaration),
    ("method_declaration", NodeKind::MethodDeclaration),
    ("function_value_parameters", NodeKind::FunctionValueParameters),
    ("parameter", NodeKind::Parameter),
    ("function_body", NodeKind::FunctionBody),
    ("for_statement", NodeKind::ForStatement),
    ("control_structure_body", NodeKind::ControlStructureBody),
    ("lambda_literal", NodeKind::LambdaLiteral),
    ("catch_block", NodeKind::CatchBlock),
    ("block", NodeKind::Block),
    ("statements", NodeKind::Statements),
    ("property_declaration", NodeKind::PropertyDeclaration),
    ("multi_variable_declaration", NodeKind::MultiVariableDeclaration),
    ("variable_declaration", NodeKind::VariableDeclaration),
    ("simple_identifier", NodeKind::SimpleIdentifier),
    ("interpolated_identifier", NodeKind::InterpolatedIdentifier),
];

/// The kind that the grammar calls `name`, looked up from entry `i` on.
pub open spec fn kind_from(name: Seq<char>, i: int) -> NodeKind
    decreases 16 - i,
{
    if i < 0 || i >= 16 {
        NodeKind::Other
    } else if KIND_NAMES@[i].0@ == name {
        KIND_NAMES@[i].1
    } else {
        kind_from(name, i + 1)
    }
}

impl NodeKind {
    /// The kind that the grammar calls `name`.
    pub fn named(name: &str) -> (r: Self)
        ensures
            r == kind_from(name@, 0),
    {
        let mut i: usize = 0;
        while i < 16
            invariant
                i <= 16,
                kind_from(name@, 0) == kind_from(name@, i as int),
            decreases 16 - i,
        {
            let (kind_name, kind) = KIND_NAMES[i];
            if eq_str(kind_name, name) {
                return kind;
            }
            i += 1;
        }
        NodeKind::Other
    }
}

/// The kinds of node that declare what their first identifier names.
pub const DECLARING_KINDS: [&'static str; 7] = [
    "parameter",
    "class_parameter",
    "variable_declaration",
    "function_declaration",
    "class_declaration",
    "object_declaration",
    "enum_entry",
];

/// The identifier names what the node around it declares.
pub open spec fn names_declared(parent_kind: Seq<char>, is_first: bool) -> bool {
    is_first && exists|i: int| 0 <= i < 7 && #[trigger] DECLARING_KINDS@[i]@ == parent_kind
}

/// Whether an identifier names what the node around it declares: that node declares something,
/// and no other identifier of its kind stands before it there.
pub fn is_declaration_site(parent_kind: &str, is_first: bool) -> (r: bool)
    ensures
        r == names_declared(parent_kind@, is_first),
{
    for i in 0..7
        invariant
            forall|j: int| 0 <= j < i ==> #[trigger] DECLARING_KINDS@[j]@ != parent_kind@,
    {
        if eq_str(DECLARING_KINDS[i], parent_kind) {
            return is_first;
        }
    }
    false
}

/// A node of the syntax tree.
pub struct SyntaxNode {
    pub kind: NodeKind,
    /// The text of the node; none where its bytes are not UTF-8.
    pub text: Option<String>,
    /// The node names what is declared around it.
    pub declares: bool,
    pub line: u32,
    /// UTF-16 column.
    pub col: u32,
    /// Length in UTF-16 units.
    pub length: u32,
    pub children: Vec<SyntaxNode>,
}

proof fn lemma_kind_at(name: Seq<char>, i: int, k: int)
    requires
        0 <= i <= k < 16,
        KIND_NAMES@[k].0@ == name,
        forall|j: int| i <= j < k ==> (#[trigger] KIND_NAMES@[j]).0@ != name,
    ensures
        kind_from(name, i) == KIND_NAMES@[k].1,
    decreases k - i,
{
    if i < k {
        assert(KIND_NAMES@[i].0@ != name);
        lemma_kind_at(name, i + 1, k);
    }
}

proof fn lemma_kind_named(name: Seq<char>, i: int)
    requires
        0 <= i <= 16,
    ensures
        kind_from(name, i) == NodeKind::Other || exists|k: int|
            i <= k < 16 && (#[trigger] KIND_NAMES@[k]).0@ == name,
    decreases 16 - i,
{
    if i < 16 && KIND_NAMES@[i].0@ != name {
        lemma_kind_named(name, i + 1);
    }
}

/// The kind of each name of the grammar; every other name is of no kind that matters.
pub proof fn grammar_names_have_these_kinds(name: Seq<char>)
    ensures
        kind_from("function_declaration"@, 0) == NodeKind::FunctionDeclaration,
        kind_from("method_declaration"@, 0) == NodeKind::MethodDeclaration,
        kind_from("function_value_parameters"@, 0) == NodeKind::FunctionValueParameters,
        kind_from("parameter"@, 0) == NodeKind::Parameter,
        kind_from("function_body"@, 0) == NodeKind::FunctionBody,
        kind_from("for_statement"@, 0) == NodeKind::ForStatement,
        kind_from("control_structure_body"@, 0) == NodeKind::ControlStructureBody,
        kind_from("lambda_literal"@, 0) == NodeKind::LambdaLiteral,
        kind_from("catch_block"@, 0) == NodeKind::CatchBlock,
        kind_from("block"@, 0) == NodeKind::Block,
        kind_from("statements"@, 0) == NodeKind::Statements,
        kind_from("property_declaration"@, 0) == NodeKind::PropertyDeclaration,
        kind_from("multi_variable_declaration"@, 0) == NodeKind::MultiVariableDeclaration,
        kind_from("variable_declaration"@, 0) == NodeKind::VariableDeclaration,
        kind_from("simple_identifier"@, 0) == NodeKind::SimpleIdentifier,
        kind_from("interpolated_identifier"@, 0) == NodeKind::InterpolatedIdentifier,
        kind_from(name, 0) != NodeKind::Other ==> name == "function_declaration"@
            || name == "method_declaration"@
            || name == "function_value_parameters"@
            || name == "parameter"@
            || name == "function_body"@
            || name == "for_statement"@
            || name == "control_structure_body"@
            || name == "lambda_literal"@
            || name == "catch_block"@
            || name == "block"@
            || name == "statements"@
            || name == "property_declaration"@
            || name == "multi_variable_declaration"@
            || name == "variable_declaration"@
            || name == "simple_identifier"@
            || name == "interpolated_identifier"@,
{
    reveal_strlit("function_declaration");
    reveal_strlit("method_declaration");
    reveal_strlit("function_value_parameters");
    reveal_strlit("parameter");
    reveal_strlit("function_body");
    reveal_strlit("for_statement");
    reveal_strlit("control_structure_body");
    reveal_strlit("lambda_literal");
    reveal_strlit("catch_block");
    reveal_strlit("block");
    reveal_strlit("statements");
    reveal_strlit("property_declaration");
    reveal_strlit("multi_variable_declaration");
    reveal_strlit("variable_declaration");
    reveal_strlit("simple_identifier");
    reveal_strlit("interpolated_identifier");
    assert(KIND_NAMES@[0].0@ == "function_declaration"@ && KIND_NAMES@[0].1 == NodeKind::FunctionDeclaration);
    assert("function_declaration"@.len() == 20);
    assert(KIND_NAMES@[1].0@ == "method_declaration"@ && KIND_NAMES@[1].1 == NodeKind::MethodDeclaration);
    assert("method_declaration"@.len() == 18);
    assert(KIND_NAMES@[2].0@ == "function_value_parameters"@ && KIND_NAMES@[2].1 == NodeKind::FunctionValueParameters);
    assert("function_value_parameters"@.len() == 25);
    assert(KIND_NAMES@[3].0@ == "parameter"@ && KIND_NAMES@[3].1 == NodeKind::Parameter);
    assert("parameter"@.len() == 9);
    assert(KIND_NAMES@[4].0@ == "function_body"@ && KIND_NAMES@[4].1 == NodeKind::FunctionBody);
    assert("function_body"@.len() == 13);
    assert(KIND_NAMES@[5].0@ == "for_statement"@ && KIND_NAMES@[5].1 == NodeKind::ForStatement);
    assert("for_statement"@.len() == 13);
    assert(KIND_NAMES@[6].0@ == "control_structure_body"@ && KIND_NAMES@[6].1 == NodeKind::ControlStructureBody);
    assert("control_structure_body"@.len() == 22);
    assert(KIND_NAMES@[7].0@ == "lambda_literal"@ && KIND_NAMES@[7].1 == NodeKind::LambdaLiteral);
    assert("lambda_literal"@.len() == 14);
    assert(KIND_NAMES@[8].0@ == "catch_block"@ && KIND_NAMES@[8].1 == NodeKind::CatchBlock);
    assert("catch_block"@.len() == 11);
    assert(KIND_NAMES@[9].0@ == "block"@ && KIND_NAMES@[9].1 == NodeKind::Block);
    assert("block"@.len() == 5);
    assert(KIND_NAMES@[10].0@ == "statements"@ && KIND_NAMES@[10].1 == NodeKind::Statements);
    assert("statements"@.len() == 10);
    assert(KIND_NAMES@[11].0@ == "property_declaration"@ && KIND_NAMES@[11].1 == NodeKind::PropertyDeclaration);
    assert("property_declaration"@.len() == 20);
    assert(KIND_NAMES@[12].0@ == "multi_variable_declaration"@ && KIND_NAMES@[12].1 == NodeKind::MultiVariableDeclaration);
    assert("multi_variable_declaration"@.len() == 26);
    assert(KIND_NAMES@[13].0@ == "variable_declaration"@ && KIND_NAMES@[13].1 == NodeKind::VariableDeclaration);
    assert("variable_declaration"@.len() == 20);
    assert(KIND_NAMES@[14].0@ == "simple_identifier"@ && KIND_NAMES@[14].1 == NodeKind::SimpleIdentifier);
    assert("simple_identifier"@.len() == 17);
    assert(KIND_NAMES@[15].0@ == "interpolated_identifier"@ && KIND_NAMES@[15].1 == NodeKind::InterpolatedIdentifier);
    assert("interpolated_identifier"@.len() == 23);
    assert("function_declaration"@[0] != "property_declaration"@[0]);
    assert("function_declaration"@[0] != "variable_declaration"@[0]);
    assert("function_body"@[1] != "for_statement"@[1]);
    assert("property_declaration"@[0] != "variable_declaration"@[0]);
    lemma_kind_at("function_declaration"@, 0, 0);
    lemma_kind_at("method_declaration"@, 0, 1);
    lemma_kind_at("function_value_parameters"@, 0, 2);
    lemma_kind_at("parameter"@, 0, 3);
    lemma_kind_at("function_body"@, 0, 4);
    lemma_kind_at("for_statement"@, 0, 5);
    lemma_kind_at("control_structure_body"@, 0, 6);
    lemma_kind_at("lambda_literal"@, 0, 7);
    lemma_kind_at("catch_block"@, 0, 8);
    lemma_kind_at("block"@, 0, 9);
    lemma_kind_at("statements"@, 0, 10);
    lemma_kind_at("property_declaration"@, 0, 11);
    lemma_kind_at("multi_variable_declaration"@, 0, 12);
    lemma_kind_at("variable_declaration"@, 0, 13);
    lemma_kind_at("simple_identifier"@, 0, 14);
    lemma_kind_at("interpolated_identifier"@, 0, 15);
    lemma_kind_named(name, 0);
}

/// An identifier names what is declared exactly where it is the first of a node of one of these
/// kinds.
pub proof fn declarations_name_by_their_first_identifier(parent_kind: Seq<char>, is_first: bool)
    ensures
        names_declared(parent_kind, is_first) <==> is_first && (parent_kind == "parameter"@
            || parent_kind == "class_parameter"@
            || parent_kind == "variable_declaration"@
            || parent_kind == "function_declaration"@
            || parent_kind == "class_declaration"@
            || parent_kind == "object_declaration"@
            || parent_kind == "enum_entry"@),
{
    assert(DECLARING_KINDS@[0]@ == "parameter"@);
    assert(DECLARING_KINDS@[1]@ == "class_parameter"@);
    assert(DECLARING_KINDS@[2]@ == "variable_declaration"@);
    assert(DECLARING_KINDS@[3]@ == "function_declaration"@);
    assert(DECLARING_KINDS@[4]@ == "class_declaration"@);
    assert(DECLARING_KINDS@[5]@ == "object_declaration"@);
    assert(DECLARING_KINDS@[6]@ == "enum_entry"@);
}

/// The place of the first node of this kind from number `i` on.
pub open spec fn first_from(nodes: Seq<SyntaxNode>, kind: NodeKind, i: int) -> Option<int>
    decreases nodes.len() - i,
{
    if i < 0 || i >= nodes.len() {
        None
    } else if nodes[i].kind == kind {
        Some(i)
    } else {
        first_from(nodes, kind, i + 1)
    }
}

/// The place of the node's first child of this kind.
pub open spec fn child_place(node: SyntaxNode, kind: NodeKind) -> Option<int> {
    first_from(node.children@, kind, 0)
}

/// The name of the declared thing: the text of the node's first simple identifier.
pub open spec fn ident_name(node: SyntaxNode) -> Option<Seq<char>> {
    match child_place(node, NodeKind::SimpleIdentifier) {
        Some(k) => match node.children@[k].text {
            Some(text) => Some(text@),
            None => None,
        },
        None => None,
    }
}

/// The place of the node's first child of this kind.
pub fn first_child_of_kind(node: &SyntaxNode, kind: NodeKind) -> (r: Option<usize>)
    ensures
        match r {
            Some(k) => child_place(*node, kind) == Some(k as int) && k < node.children@.len(),
            None => child_place(*node, kind) is None,
        },
{
    let mut i: usize = 0;
    while i < node.children.len()
        invariant
            i <= node.children@.len(),
            child_place(*node, kind) == first_from(node.children@, kind, i as int),
        decreases node.children@.len() - i,
    {
        if node.children[i].kind == kind {
            return Some(i);
        }
        i += 1;
    }
    None
}

/// The text of the node's first simple identifier.
pub fn child_ident(node: &SyntaxNode) -> (r: Option<String>)
    ensures
        crate::uri::text_of(r) == ident_name(*node),
{
    match first_child_of_kind(node, NodeKind::SimpleIdentifier) {
        Some(k) => match &node.children[k].text {
            Some(text) => Some(text.clone()),
            None => None,
        },
        None => None,
    }
}

} // verus!
