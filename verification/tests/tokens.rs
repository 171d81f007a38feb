use kotlin_lsp::semantic_tokens::legend::{
    legend, modifier_bit, type_index, TokenModifier, TokenType, TOKEN_MODIFIERS, TOKEN_TYPES,
};
use kotlin_lsp::semantic_tokens::params::{emit_kotlin_param_uses, local_binding_name};
use kotlin_lsp::semantic_tokens::phases::{token_phases, Language};
use kotlin_lsp::semantic_tokens::source::Source;
use kotlin_lsp::semantic_tokens::tokens::{
    collect_tokens, delta_encode, RawToken, SemanticToken, TokenPhases,
};
use kotlin_lsp::semantic_tokens::tree::{is_declaration_site, NodeKind, SyntaxNode};
use kotlin_lsp::types::{Position, Range};
use tower_lsp::lsp_types::{SemanticTokenModifier, SemanticTokenType};

fn token(line: u32, col: u32, length: u32, token_type: u32) -> RawToken {
    RawToken { line, col, length, token_type, token_modifiers_bitset: 0 }
}

fn decode(encoded: &[SemanticToken]) -> Vec<(u32, u32)> {
    let mut line = 0;
    let mut col = 0;
    let mut places = Vec::new();
    for e in encoded {
        if e.delta_line > 0 {
            line += e.delta_line;
            col = 0;
        }
        col += e.delta_start;
        places.push((line, col));
    }
    places
}

#[test]
fn legend_is_in_order_of_the_numbers() {
    let legend = legend();
    assert_eq!(legend.token_types.len(), 15);
    for (i, t) in legend.token_types.iter().enumerate() {
        assert_eq!(type_index(*t), i as u32);
        assert_eq!(TOKEN_TYPES[i], *t);
    }
    for (i, m) in legend.token_modifiers.iter().enumerate() {
        assert_eq!(modifier_bit(*m), 1 << i);
        assert_eq!(TOKEN_MODIFIERS[i], *m);
    }
    assert_eq!(type_index(TokenType::Parameter), 8);
    assert_eq!(modifier_bit(TokenModifier::DefaultLibrary), 64);
}

#[test]
fn legend_names_are_those_of_the_protocol() {
    let types = [
        SemanticTokenType::CLASS,
        SemanticTokenType::INTERFACE,
        SemanticTokenType::ENUM,
        SemanticTokenType::STRUCT,
        SemanticTokenType::TYPE_PARAMETER,
        SemanticTokenType::FUNCTION,
        SemanticTokenType::METHOD,
        SemanticTokenType::PROPERTY,
        SemanticTokenType::PARAMETER,
        SemanticTokenType::VARIABLE,
        SemanticTokenType::ENUM_MEMBER,
        SemanticTokenType::DECORATOR,
        SemanticTokenType::NAMESPACE,
        SemanticTokenType::KEYWORD,
        SemanticTokenType::OPERATOR,
    ];
    for (own, outside) in TOKEN_TYPES.iter().zip(types.iter()) {
        assert_eq!(own.name(), outside.as_str());
    }
    let modifiers = [
        SemanticTokenModifier::DECLARATION,
        SemanticTokenModifier::READONLY,
        SemanticTokenModifier::STATIC,
        SemanticTokenModifier::ABSTRACT,
        SemanticTokenModifier::ASYNC,
        SemanticTokenModifier::DEPRECATED,
        SemanticTokenModifier::DEFAULT_LIBRARY,
    ];
    for (own, outside) in TOKEN_MODIFIERS.iter().zip(modifiers.iter()) {
        assert_eq!(own.name(), outside.as_str());
    }
}

#[test]
fn final_tokens_are_ordered_and_the_earlier_phase_wins() {
    let phases = TokenPhases {
        phase1: vec![token(2, 5, 1, 0), token(0, 3, 1, 1)],
        phase1b: vec![token(0, 3, 1, 8), token(1, 0, 1, 8)],
        phase2: vec![token(2, 5, 1, 6), token(2, 1, 1, 6)],
    };
    assert_eq!(
        phases.final_tokens(),
        vec![token(0, 3, 1, 1), token(1, 0, 1, 8), token(2, 1, 1, 6), token(2, 5, 1, 0)]
    );
}

#[test]
fn delta_encoding_is_relative_to_the_token_before() {
    let sorted = [token(0, 4, 2, 1), token(0, 9, 3, 2), token(3, 1, 1, 0)];
    let encoded = delta_encode(&sorted);
    let deltas: Vec<(u32, u32)> = encoded.iter().map(|e| (e.delta_line, e.delta_start)).collect();
    assert_eq!(deltas, vec![(0, 4), (0, 5), (3, 1)]);
    assert_eq!(encoded[1].length, 3);
    assert_eq!(decode(&encoded), vec![(0, 4), (0, 9), (3, 1)]);
    assert!(delta_encode(&[]).is_empty());
}

#[test]
fn tokens_of_a_range() {
    let phases = TokenPhases {
        phase1: vec![
            token(1, 0, 3, 0),
            token(1, 4, 3, 0),
            token(2, 9, 3, 0),
            token(3, 0, 3, 0),
            token(3, 3, 3, 0),
            token(4, 0, 1, 0),
        ],
        phase1b: Vec::new(),
        phase2: vec![token(3, 1, u32::MAX, 0)],
    };
    let range = Range {
        start: Position { line: 1, character: 2 },
        end: Position { line: 3, character: 5 },
    };
    assert_eq!(decode(&collect_tokens(&phases, Some(&range))), vec![(1, 4), (2, 9), (3, 0)]);
    assert_eq!(collect_tokens(&phases, None).len(), 7);
}

#[test]
fn columns_count_utf16_units() {
    let text = "a\u{e9}\u{20ac}\u{1f600}b\nxyz";
    let source = Source::new(text.as_bytes());
    assert_eq!(source.line_starts, vec![0, 12]);
    assert_eq!(source.col_utf16(0, 1), 1);
    assert_eq!(source.col_utf16(0, 3), 2);
    assert_eq!(source.col_utf16(0, 6), 3);
    assert_eq!(source.col_utf16(0, 10), 5);
    assert_eq!(source.col_utf16(1, 2), 2);
    assert_eq!(source.col_utf16(1, 99), 3);
    assert_eq!(source.col_utf16(7, 1), 0);
}

fn node(kind: NodeKind, children: Vec<SyntaxNode>) -> SyntaxNode {
    SyntaxNode { kind, text: None, declares: false, line: 0, col: 0, length: 0, children }
}

fn ident(text: &str, line: u32, declares: bool) -> SyntaxNode {
    SyntaxNode {
        kind: NodeKind::SimpleIdentifier,
        text: Some(text.to_string()),
        declares,
        line,
        col: 4,
        length: text.len() as u32,
        children: Vec::new(),
    }
}

fn declared(text: &str, line: u32) -> SyntaxNode {
    node(NodeKind::VariableDeclaration, vec![ident(text, line, true)])
}

fn function(params: &[&str], body: Vec<SyntaxNode>) -> SyntaxNode {
    let params = params
        .iter()
        .map(|p| node(NodeKind::Parameter, vec![ident(p, 0, true)]))
        .collect();
    node(
        NodeKind::FunctionDeclaration,
        vec![
            node(NodeKind::FunctionValueParameters, params),
            node(NodeKind::FunctionBody, vec![node(NodeKind::Statements, body)]),
        ],
    )
}

fn uses(root: &SyntaxNode) -> Vec<u32> {
    let mut out = Vec::new();
    emit_kotlin_param_uses(root, &mut out);
    assert!(out.iter().all(|t| t.token_type == 8 && t.token_modifiers_bitset == 0));
    out.iter().map(|t| t.line).collect()
}

#[test]
fn parameters_are_found_in_the_body() {
    let call = node(NodeKind::Other, vec![ident("x", 1, false), ident("y", 1, false)]);
    assert_eq!(uses(&function(&["x"], vec![call, ident("x", 2, false)])), vec![1, 2]);
    assert!(uses(&function(&[], vec![ident("x", 1, false)])).is_empty());
    assert!(uses(&node(NodeKind::Other, vec![ident("x", 1, false)])).is_empty());
}

#[test]
fn a_declaration_hides_the_parameter_behind_it() {
    let property = node(NodeKind::PropertyDeclaration, vec![declared("x", 2), ident("x", 2, false)]);
    let f = function(&["x"], vec![ident("x", 1, false), property, ident("x", 3, false)]);
    assert_eq!(uses(&f), vec![1, 2]);
}

#[test]
fn a_loop_variable_hides_the_parameter_in_the_loop() {
    let body = node(NodeKind::ControlStructureBody, vec![ident("x", 3, false)]);
    let for_loop = node(NodeKind::ForStatement, vec![declared("x", 2), ident("x", 2, false), body]);
    let inner = node(NodeKind::Other, vec![for_loop, ident("x", 4, false)]);
    assert_eq!(uses(&function(&["x"], vec![inner])), vec![2, 4]);
}

#[test]
fn behind_a_loop_the_parameter_is_seen_again() {
    let body = node(NodeKind::ControlStructureBody, vec![ident("x", 3, false)]);
    let for_loop = node(NodeKind::ForStatement, vec![declared("x", 2), ident("x", 2, false), body]);
    let f = function(&["x"], vec![ident("x", 1, false), for_loop, ident("x", 4, false)]);
    assert_eq!(uses(&f), vec![1, 2, 4]);
}

#[test]
fn a_scope_ends_what_it_hides() {
    let block = node(
        NodeKind::LambdaLiteral,
        vec![node(NodeKind::PropertyDeclaration, vec![declared("x", 1)]), ident("x", 2, false)],
    );
    assert_eq!(uses(&function(&["x"], vec![block, ident("x", 3, false)])), vec![3]);
}

#[test]
fn destructuring_hides_its_first_parameter() {
    let multi = node(
        NodeKind::MultiVariableDeclaration,
        vec![declared("a", 1), declared("x", 1), declared("y", 1)],
    );
    let property = node(NodeKind::PropertyDeclaration, vec![multi]);
    let params = vec!["x".to_string(), "y".to_string()];
    assert_eq!(local_binding_name(&property, &params).as_deref(), Some("x"));
    assert!(local_binding_name(&declared("x", 1), &params).is_none());
    assert_eq!(
        uses(&function(&["x", "y"], vec![property, ident("x", 2, false), ident("y", 3, false)])),
        vec![3]
    );
}

#[test]
fn nested_functions_emit_their_own_parameters() {
    let inner = function(&["y"], vec![ident("x", 2, false), ident("y", 2, false)]);
    let outer = function(&["x"], vec![inner, ident("x", 3, false)]);
    assert_eq!(uses(&outer), vec![2, 3, 2]);
}

#[test]
fn node_kinds_go_by_the_names_of_the_grammar() {
    assert_eq!(NodeKind::named("function_declaration"), NodeKind::FunctionDeclaration);
    assert_eq!(NodeKind::named("interpolated_identifier"), NodeKind::InterpolatedIdentifier);
    assert_eq!(NodeKind::named("class_body"), NodeKind::Other);
}

#[test]
fn the_first_identifier_of_a_declaration_names_it() {
    assert!(is_declaration_site("parameter", true));
    assert!(!is_declaration_site("parameter", false));
    assert!(!is_declaration_site("call_expression", true));
}

#[test]
fn phases_go_by_the_language() {
    let f = function(&["x"], vec![ident("x", 1, false)]);
    for language in [Language::Kotlin, Language::Java, Language::Swift] {
        let phases = token_phases(language, &f, vec![token(0, 0, 1, 5)], vec![token(9, 0, 1, 6)]);
        let classified = if language == Language::Swift { vec![] } else { vec![token(0, 0, 1, 5)] };
        assert_eq!(phases.phase1, classified);
        assert_eq!(phases.phase2, vec![token(9, 0, 1, 6)]);
        assert_eq!(phases.phase1b.len(), if language == Language::Kotlin { 1 } else { 0 });
    }
}

#[test]
fn without_classifier_and_index_there_are_no_tokens() {
    let f = function(&["x"], vec![ident("x", 1, false)]);
    let swift = token_phases(Language::Swift, &f, vec![token(0, 0, 1, 5)], Vec::new());
    assert!(collect_tokens(&swift, None).is_empty());
    let java = token_phases(Language::Java, &f, vec![token(0, 0, 1, 5)], Vec::new());
    assert_eq!(collect_tokens(&java, None), delta_encode(&java.final_tokens()));
    assert_eq!(collect_tokens(&java, None).len(), 1);
}
