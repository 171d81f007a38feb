//! Where function parameters are used inside their function's body.
use vstd::prelude::*;

use super::legend::{type_index, type_number, TokenType};
use super::tokens::RawToken;
use super::tree::{child_ident, child_place, first_child_of_kind, ident_name, NodeKind, SyntaxNode};
use crate::text::{holds, texts};

verus! {

/// The names of the parameters among the nodes.
pub open spec fn names_of(nodes: Seq<SyntaxNode>) -> Seq<Seq<char>>
    decreases nodes.len(),
{
    if nodes.len() == 0 {
        Seq::empty()
    } else {
        let before = names_of(nodes.drop_last());
        if nodes.last().kind == NodeKind::Parameter && ident_name(nodes.last()) is Some {
            before.push(ident_name(nodes.last())->0)
        } else {
            before
        }
    }
}

/// The names of the function's parameters.
pub open spec fn param_names(function: SyntaxNode) -> Seq<Seq<char>> {
    match child_place(function, NodeKind::FunctionValueParameters) {
        Some(k) => names_of(function.children@[k].children@),
        None => Seq::empty(),
    }
}

/// The first name from node `i` on that a variable declaration binds and that is a parameter's.
pub open spec fn bound_in(
    nodes: Seq<SyntaxNode>,
    params: Seq<Seq<char>>,
    i: int,
) -> Option<Seq<char>>
    decreases nodes.len() - i,
{
    if i < 0 || i >= nodes.len() {
        None
    } else if nodes[i].kind == NodeKind::VariableDeclaration && ident_name(nodes[i]) is Some
        && params.contains(ident_name(nodes[i])->0) {
        ident_name(nodes[i])
    } else {
        bound_in(nodes, params, i + 1)
    }
}

/// The parameter that the property or loop variable declared by the node hides.
pub open spec fn binding(node: SyntaxNode, params: Seq<Seq<char>>) -> Option<Seq<char>> {
    if node.kind != NodeKind::PropertyDeclaration && node.kind != NodeKind::ForStatement {
        None
    } else {
        match child_place(node, NodeKind::MultiVariableDeclaration) {
            Some(k) => bound_in(node.children@[k].children@, params, 0),
            None => match child_place(node, NodeKind::VariableDeclaration) {
                Some(k) => match ident_name(node.children@[k]) {
                    Some(name) => if params.contains(name) {
                        Some(name)
                    } else {
                        None
                    },
                    None => None,
                },
                None => None,
            },
        }
    }
}

/// The node opens a scope in which a declaration hides parameters from then on.
pub open spec fn opens_scope(kind: NodeKind) -> bool {
    kind == NodeKind::FunctionBody || kind == NodeKind::LambdaLiteral || kind
        == NodeKind::ControlStructureBody || kind == NodeKind::CatchBlock || kind == NodeKind::Block
        || kind == NodeKind::Statements
}

/// The parameter that the node hides from what follows it in its scope: that of a property. A
/// loop variable ends with its loop.
pub open spec fn lasting_binding(node: SyntaxNode, params: Seq<Seq<char>>) -> Option<Seq<char>> {
    if node.kind == NodeKind::PropertyDeclaration {
        binding(node, params)
    } else {
        None
    }
}

/// The parameters that the first `n` of the nodes hide from what follows them.
pub open spec fn hidden_by(nodes: Seq<SyntaxNode>, params: Seq<Seq<char>>, n: int) -> Set<
    Seq<char>,
> {
    Set::new(
        |name: Seq<char>|
            exists|j: int|
                0 <= j < n && j < nodes.len() && lasting_binding(#[trigger] nodes[j], params)
                    == Some(name),
    )
}

/// The parameters hidden at child `i` of the node: a loop variable hides in the loop's body
/// alone, a property in a scope hides behind itself, up to the end of the scope.
pub open spec fn hidden_at(
    node: SyntaxNode,
    params: Seq<Seq<char>>,
    hidden: Set<Seq<char>>,
    i: int,
) -> Set<Seq<char>> {
    if node.kind == NodeKind::ForStatement {
        if child_place(node, NodeKind::ControlStructureBody) == Some(i) && binding(
            node,
            params,
        ) is Some {
            hidden.insert(binding(node, params)->0)
        } else {
            hidden
        }
    } else if opens_scope(node.kind) {
        hidden.union(hidden_by(node.children@, params, i))
    } else {
        hidden
    }
}

/// The node is the use of a parameter that is not hidden.
pub open spec fn is_use(
    node: SyntaxNode,
    params: Seq<Seq<char>>,
    hidden: Set<Seq<char>>,
) -> bool {
    &&& node.kind == NodeKind::SimpleIdentifier || node.kind == NodeKind::InterpolatedIdentifier
    &&& !node.declares
    &&& node.text matches Some(text) && params.contains(text@) && !hidden.contains(text@)
}

/// The token of a parameter at the node.
pub open spec fn param_token(node: SyntaxNode) -> RawToken {
    RawToken {
        line: node.line,
        col: node.col,
        length: node.length,
        token_type: type_number(TokenType::Parameter) as u32,
        token_modifiers_bitset: 0,
    }
}

/// The uses of parameters at and below the node, in order.
pub open spec fn uses_in(
    node: SyntaxNode,
    params: Seq<Seq<char>>,
    hidden: Set<Seq<char>>,
) -> Seq<RawToken>
    decreases node, 1nat, 0nat,
{
    if is_use(node, params, hidden) {
        seq![param_token(node)]
    } else {
        uses_in_children(node, params, hidden, node.children@.len())
    }
}

/// The uses of parameters at and below the node's first `n` children, in order.
pub open spec fn uses_in_children(
    node: SyntaxNode,
    params: Seq<Seq<char>>,
    hidden: Set<Seq<char>>,
    n: nat,
) -> Seq<RawToken>
    decreases node, 0nat, n,
{
    if n == 0 || n > node.children@.len() {
        Seq::empty()
    } else {
        let k = (n - 1) as nat;
        uses_in_children(node, params, hidden, k) + uses_in(
            node.children@[k as int],
            params,
            hidden_at(node, params, hidden, k as int),
        )
    }
}

/// The uses of the function's parameters in its body.
pub open spec fn uses_in_function(function: SyntaxNode) -> Seq<RawToken> {
    match child_place(function, NodeKind::FunctionBody) {
        Some(k) => if param_names(function).len() == 0 {
            Seq::empty()
        } else {
            uses_in(function.children@[k], param_names(function), Set::empty())
        },
        None => Seq::empty(),
    }
}

/// The uses of the node's own parameters, where it is a function.
pub open spec fn own_uses(node: SyntaxNode) -> Seq<RawToken> {
    if node.kind == NodeKind::FunctionDeclaration || node.kind == NodeKind::MethodDeclaration {
        uses_in_function(node)
    } else {
        Seq::empty()
    }
}

/// The uses of parameters of every function at and below the node, outer functions first.
pub open spec fn all_uses(node: SyntaxNode) -> Seq<RawToken>
    decreases node, 1nat, 0nat,
{
    own_uses(node) + all_uses_in_children(node, node.children@.len())
}

/// The uses of parameters of every function at and below the node's first `n` children.
pub open spec fn all_uses_in_children(node: SyntaxNode, n: nat) -> Seq<RawToken>
    decreases node, 0nat, n,
{
    if n == 0 || n > node.children@.len() {
        Seq::empty()
    } else {
        let k = (n - 1) as nat;
        all_uses_in_children(node, k) + all_uses(node.children@[k as int])
    }
}

/// All tokens are those of parameters, without modifiers.
pub open spec fn of_parameters(tokens: Seq<RawToken>) -> bool {
    forall|i: int|
        0 <= i < tokens.len() ==> (#[trigger] tokens[i]).token_type == type_number(
            TokenType::Parameter,
        ) as u32 && tokens[i].token_modifiers_bitset == 0
}

/// Every token emitted for a use is that of a parameter, without modifiers.
pub proof fn uses_are_parameters(node: SyntaxNode, params: Seq<Seq<char>>, hidden: Set<Seq<char>>)
    ensures
        of_parameters(uses_in(node, params, hidden)),
    decreases node, 1nat, 0nat,
{
    if !is_use(node, params, hidden) {
        lemma_child_uses_are_parameters(node, params, hidden, node.children@.len());
    }
}

proof fn lemma_child_uses_are_parameters(
    node: SyntaxNode,
    params: Seq<Seq<char>>,
    hidden: Set<Seq<char>>,
    n: nat,
)
    ensures
        of_parameters(uses_in_children(node, params, hidden, n)),
    decreases node, 0nat, n,
{
    if n > 0 && n <= node.children@.len() {
        let k = (n - 1) as nat;
        let child = node.children@[k as int];
        let h = hidden_at(node, params, hidden, k as int);
        lemma_child_uses_are_parameters(node, params, hidden, k);
        uses_are_parameters(child, params, h);
        let a = uses_in_children(node, params, hidden, k);
        let b = uses_in(child, params, h);
        assert(of_parameters(a + b)) by {
            assert forall|i: int| 0 <= i < (a + b).len() implies (#[trigger] (a + b)[i]).token_type
                == type_number(TokenType::Parameter) as u32 && (a + b)[i].token_modifiers_bitset
                == 0 by {
                if i < a.len() {
                    assert((a + b)[i] == a[i]);
                } else {
                    assert((a + b)[i] == b[i - a.len()]);
                }
            }
        }
        assert(uses_in_children(node, params, hidden, n) == a + b);
    }
}

/// Where every parameter is hidden, none is used.
pub proof fn hidden_parameters_are_not_used(
    node: SyntaxNode,
    params: Seq<Seq<char>>,
    hidden: Set<Seq<char>>,
)
    requires
        forall|name: Seq<char>| #[trigger] params.contains(name) ==> hidden.contains(name),
    ensures
        uses_in(node, params, hidden).len() == 0,
    decreases node, 1nat, 0nat,
{
    assert(!is_use(node, params, hidden));
    lemma_children_hidden(node, params, hidden, node.children@.len());
}

proof fn lemma_children_hidden(
    node: SyntaxNode,
    params: Seq<Seq<char>>,
    hidden: Set<Seq<char>>,
    n: nat,
)
    requires
        forall|name: Seq<char>| #[trigger] params.contains(name) ==> hidden.contains(name),
    ensures
        uses_in_children(node, params, hidden, n).len() == 0,
    decreases node, 0nat, n,
{
    if n > 0 && n <= node.children@.len() {
        let k = (n - 1) as nat;
        lemma_children_hidden(node, params, hidden, k);
        hidden_parameters_are_not_used(
            node.children@[k as int],
            params,
            hidden_at(node, params, hidden, k as int),
        );
    }
}

/// A name hidden behind a declaration stays hidden: what is hidden at a child of a scope is
/// hidden at every later child.
pub proof fn hiding_lasts(
    node: SyntaxNode,
    params: Seq<Seq<char>>,
    hidden: Set<Seq<char>>,
    i: int,
    j: int,
)
    requires
        0 <= i <= j,
        opens_scope(node.kind),
    ensures
        hidden.subset_of(hidden_at(node, params, hidden, i)),
        hidden_at(node, params, hidden, i).subset_of(hidden_at(node, params, hidden, j)),
{
}

/// A loop hides nothing behind itself: what is hidden at the child that follows it in a scope
/// is what is hidden at the loop.
pub proof fn loop_variables_end_with_the_loop(
    node: SyntaxNode,
    params: Seq<Seq<char>>,
    hidden: Set<Seq<char>>,
    i: int,
)
    requires
        opens_scope(node.kind),
        0 <= i < node.children@.len(),
        node.children@[i].kind == NodeKind::ForStatement,
    ensures
        hidden_at(node, params, hidden, i + 1) == hidden_at(node, params, hidden, i),
{
    let before = hidden_by(node.children@, params, i);
    let after = hidden_by(node.children@, params, i + 1);
    assert forall|name: Seq<char>| after.contains(name) implies before.contains(name) by {
        let j = choose|j: int|
            0 <= j < i + 1 && j < node.children@.len() && lasting_binding(
                #[trigger] node.children@[j],
                params,
            ) == Some(name);
        assert(j != i);
    }
    assert(after =~= before);
}

/// A loop variable hides the parameter in the loop's body, and nowhere else in the loop.
pub proof fn loop_variables_hide_in_the_body(
    node: SyntaxNode,
    params: Seq<Seq<char>>,
    hidden: Set<Seq<char>>,
    i: int,
)
    requires
        node.kind == NodeKind::ForStatement,
        binding(node, params) is Some,
    ensures
        child_place(node, NodeKind::ControlStructureBody) == Some(i) ==> hidden_at(
            node,
            params,
            hidden,
            i,
        ).contains(binding(node, params)->0),
        child_place(node, NodeKind::ControlStructureBody) != Some(i) ==> hidden_at(
            node,
            params,
            hidden,
            i,
        ) == hidden,
{
}

/// Only parameters are ever hidden by a declaration.
pub proof fn bindings_are_parameters(node: SyntaxNode, params: Seq<Seq<char>>)
    ensures
        binding(node, params) matches Some(name) ==> params.contains(name),
{
    match child_place(node, NodeKind::MultiVariableDeclaration) {
        Some(k) => {
            lemma_bound_in(node.children@[k].children@, params, 0);
        },
        None => {},
    }
}

proof fn lemma_bound_in(nodes: Seq<SyntaxNode>, params: Seq<Seq<char>>, i: int)
    ensures
        bound_in(nodes, params, i) matches Some(name) ==> params.contains(name),
    decreases nodes.len() - i,
{
    if 0 <= i < nodes.len() {
        lemma_bound_in(nodes, params, i + 1);
    }
}

/// The names of the function's parameters.
pub fn collect_fun_param_names(function: &SyntaxNode) -> (r: Vec<String>)
    ensures
        texts(r@) == param_names(*function),
{
    let mut names: Vec<String> = Vec::new();
    if let Some(k) = first_child_of_kind(function, NodeKind::FunctionValueParameters) {
        let nodes = &function.children[k].children;
        assert(nodes@.take(0) =~= Seq::<SyntaxNode>::empty());
        assert(texts(names@) =~= names_of(nodes@.take(0)));
        for i in 0..nodes.len()
            invariant
                texts(names@) == names_of(nodes@.take(i as int)),
        {
            assert(nodes@.take(i + 1).drop_last() =~= nodes@.take(i as int));
            let ghost before = texts(names@);
            let child = &nodes[i];
            if child.kind == NodeKind::Parameter {
                if let Some(name) = child_ident(child) {
                    names.push(name);
                    assert(texts(names@) =~= before.push(name@));
                }
            }
        }
        assert(nodes@.take(nodes@.len() as int) =~= nodes@);
    }
    assert(texts(names@) =~= param_names(*function));
    names
}

/// The parameter that the property or loop variable declared by the node hides.
pub fn local_binding_name(node: &SyntaxNode, params: &[String]) -> (r: Option<String>)
    ensures
        crate::uri::text_of(r) == binding(*node, texts(params@)),
{
    if node.kind != NodeKind::PropertyDeclaration && node.kind != NodeKind::ForStatement {
        return None;
    }
    if let Some(k) = first_child_of_kind(node, NodeKind::MultiVariableDeclaration) {
        let nodes = &node.children[k].children;
        let mut i: usize = 0;
        while i < nodes.len()
            invariant
                i <= nodes@.len(),
                binding(*node, texts(params@)) == bound_in(
                    nodes@,
                    texts(params@),
                    i as int,
                ),
            decreases nodes@.len() - i,
        {
            if nodes[i].kind == NodeKind::VariableDeclaration {
                if let Some(name) = child_ident(&nodes[i]) {
                    if holds(params, name.as_str()) {
                        return Some(name);
                    }
                }
            }
            i += 1;
        }
        return None;
    }
    match first_child_of_kind(node, NodeKind::VariableDeclaration) {
        Some(k) => match child_ident(&node.children[k]) {
            Some(name) => if holds(params, name.as_str()) {
                Some(name)
            } else {
                None
            },
            None => None,
        },
        None => None,
    }
}

/// Hides the name too.
fn hide_name(hidden: &mut Vec<String>, name: Option<String>)
    ensures
        texts(final(hidden)@).to_set() == (match name {
            Some(name) => texts(old(hidden)@).to_set().insert(name@),
            None => texts(old(hidden)@).to_set(),
        }),
{
    let ghost before = texts(hidden@);
    if let Some(name) = name {
        if !holds(hidden.as_slice(), name.as_str()) {
            hidden.push(name);
            assert(texts(hidden@) =~= before.push(name@));
            assert forall|x: Seq<char>| before.push(name@).contains(x) == (before.contains(x) || x
                == name@) by {
                if before.contains(x) {
                    let i = before.index_of(x);
                    assert(before.push(name@)[i] == x);
                }
                if x == name@ {
                    assert(before.push(name@)[before.len() as int] == x);
                }
            }
        }
        assert(texts(hidden@).to_set() =~= before.to_set().insert(name@));
    }
}

/// Whether the node is the use of a parameter that is not hidden.
fn is_param_use(node: &SyntaxNode, params: &[String], hidden: &[String]) -> (r: bool)
    ensures
        r == is_use(*node, texts(params@), texts(hidden@).to_set()),
{
    if node.kind != NodeKind::SimpleIdentifier && node.kind != NodeKind::InterpolatedIdentifier {
        return false;
    }
    if node.declares {
        return false;
    }
    match &node.text {
        Some(text) => !holds(hidden, text.as_str()) && holds(params, text.as_str()),
        None => false,
    }
}

/// Whether the node opens a scope.
fn is_scope(kind: NodeKind) -> (r: bool)
    ensures
        r == opens_scope(kind),
{
    kind == NodeKind::FunctionBody || kind == NodeKind::LambdaLiteral || kind
        == NodeKind::ControlStructureBody || kind == NodeKind::CatchBlock || kind == NodeKind::Block
        || kind == NodeKind::Statements
}

/// Emits a token for every use of a parameter at and below the node.
pub fn emit_param_refs_in_scope(
    node: &SyntaxNode,
    params: &[String],
    shadowed: &[String],
    out: &mut Vec<RawToken>,
)
    ensures
        final(out)@ == old(out)@ + uses_in(*node, texts(params@), texts(shadowed@).to_set()),
    decreases *node, 1nat,
{
    if is_param_use(node, params, shadowed) {
        let token = RawToken {
            line: node.line,
            col: node.col,
            length: node.length,
            token_type: type_index(TokenType::Parameter),
            token_modifiers_bitset: 0,
        };
        out.push(token);
        assert(token == param_token(*node));
        assert(out@ =~= old(out)@ + seq![token]);
        return;
    }
    if node.kind == NodeKind::ForStatement {
        emit_in_loop(node, params, shadowed, out);
    } else if is_scope(node.kind) {
        emit_in_scope(node, params, shadowed, out);
    } else {
        let ghost ps = texts(params@);
        let ghost hs = texts(shadowed@).to_set();
        assert(old(out)@ + uses_in_children(*node, ps, hs, 0) =~= old(out)@);
        for i in 0..node.children.len()
            invariant
                ps == texts(params@),
                hs == texts(shadowed@).to_set(),
                node.kind != NodeKind::ForStatement,
                !opens_scope(node.kind),
                out@ == old(out)@ + uses_in_children(*node, ps, hs, i as nat),
        {
            assert(decreases_to!(*node => node.children@[i as int]));
            emit_param_refs_in_scope(&node.children[i], params, shadowed, out);
            assert(out@ =~= old(out)@ + uses_in_children(*node, ps, hs, (i + 1) as nat));
        }
    }
}

/// Emits the uses below a loop, whose variable hides a parameter in the loop's body.
fn emit_in_loop(
    node: &SyntaxNode,
    params: &[String],
    shadowed: &[String],
    out: &mut Vec<RawToken>,
)
    requires
        node.kind == NodeKind::ForStatement,
    ensures
        final(out)@ == old(out)@ + uses_in_children(
            *node,
            texts(params@),
            texts(shadowed@).to_set(),
            node.children@.len(),
        ),
    decreases *node, 0nat,
{
    let ghost ps = texts(params@);
    let ghost hs = texts(shadowed@).to_set();
    let body = first_child_of_kind(node, NodeKind::ControlStructureBody);
    let mut shadowed_in_body = crate::text::clone_strings(shadowed);
    hide_name(&mut shadowed_in_body, local_binding_name(node, params));
    assert(old(out)@ + uses_in_children(*node, ps, hs, 0) =~= old(out)@);
    for i in 0..node.children.len()
        invariant
            ps == texts(params@),
            hs == texts(shadowed@).to_set(),
            node.kind == NodeKind::ForStatement,
            match body {
                Some(k) => child_place(*node, NodeKind::ControlStructureBody) == Some(k as int),
                None => child_place(*node, NodeKind::ControlStructureBody) is None,
            },
            texts(shadowed_in_body@).to_set() == (match binding(*node, ps) {
                Some(name) => hs.insert(name),
                None => hs,
            }),
            out@ == old(out)@ + uses_in_children(*node, ps, hs, i as nat),
    {
        let child = &node.children[i];
        assert(decreases_to!(*node => node.children@[i as int]));
        let in_body = match body {
            Some(k) => k == i,
            None => false,
        };
        if in_body {
            emit_param_refs_in_scope(child, params, shadowed_in_body.as_slice(), out);
        } else {
            emit_param_refs_in_scope(child, params, shadowed, out);
        }
        assert(out@ =~= old(out)@ + uses_in_children(*node, ps, hs, (i + 1) as nat));
    }
}

/// Emits the uses below a scope, where a property hides a parameter behind itself.
fn emit_in_scope(
    node: &SyntaxNode,
    params: &[String],
    shadowed: &[String],
    out: &mut Vec<RawToken>,
)
    requires
        opens_scope(node.kind),
    ensures
        final(out)@ == old(out)@ + uses_in_children(
            *node,
            texts(params@),
            texts(shadowed@).to_set(),
            node.children@.len(),
        ),
    decreases *node, 0nat,
{
    let ghost ps = texts(params@);
    let ghost hs = texts(shadowed@).to_set();
    let mut local_shadowed = crate::text::clone_strings(shadowed);
    assert(hs.union(hidden_by(node.children@, ps, 0)) =~= hs);
    assert(old(out)@ + uses_in_children(*node, ps, hs, 0) =~= old(out)@);
    for i in 0..node.children.len()
        invariant
            ps == texts(params@),
            hs == texts(shadowed@).to_set(),
            opens_scope(node.kind),
            texts(local_shadowed@).to_set() == hs.union(hidden_by(node.children@, ps, i as int)),
            out@ == old(out)@ + uses_in_children(*node, ps, hs, i as nat),
    {
        let child = &node.children[i];
        assert(decreases_to!(*node => node.children@[i as int]));
        let new_shadow = if child.kind == NodeKind::PropertyDeclaration {
            local_binding_name(child, params)
        } else {
            None
        };
        emit_param_refs_in_scope(child, params, local_shadowed.as_slice(), out);
        hide_name(&mut local_shadowed, new_shadow);
        proof {
            let before = hidden_by(node.children@, ps, i as int);
            let after = hidden_by(node.children@, ps, i + 1);
            assert(lasting_binding(node.children@[i as int], ps) == crate::uri::text_of(
                new_shadow,
            ));
            assert forall|x: Seq<char>| after.contains(x) == (before.contains(x)
                || lasting_binding(node.children@[i as int], ps) == Some(x)) by {}
            assert(texts(local_shadowed@).to_set() =~= hs.union(after));
        }
        assert(out@ =~= old(out)@ + uses_in_children(*node, ps, hs, (i + 1) as nat));
    }
}

/// Emits the uses of the function's parameters in its body.
pub fn emit_param_uses_for_function(function: &SyntaxNode, out: &mut Vec<RawToken>)
    ensures
        final(out)@ == old(out)@ + uses_in_function(*function),
{
    let params = collect_fun_param_names(function);
    assert(texts(params@).len() == params@.len());
    if params.len() > 0 {
        if let Some(k) = first_child_of_kind(function, NodeKind::FunctionBody) {
            let none: Vec<String> = Vec::new();
            assert(texts(none@).to_set() =~= Set::empty());
            emit_param_refs_in_scope(
                &function.children[k],
                params.as_slice(),
                none.as_slice(),
                out,
            );
            return;
        }
    }
    assert(out@ =~= old(out)@ + uses_in_function(*function));
}

/// Emits a token for every use of a function parameter within its function's body.
pub fn emit_kotlin_param_uses(root: &SyntaxNode, out: &mut Vec<RawToken>)
    ensures
        final(out)@ == old(out)@ + all_uses(*root),
    decreases *root,
{
    if root.kind == NodeKind::FunctionDeclaration || root.kind == NodeKind::MethodDeclaration {
        emit_param_uses_for_function(root, out);
    }
    let ghost start = out@;
    assert(start =~= old(out)@ + own_uses(*root));
    assert(start + all_uses_in_children(*root, 0) =~= start);
    for i in 0..root.children.len()
        invariant
            out@ == start + all_uses_in_children(*root, i as nat),
    {
        assert(decreases_to!(*root => root.children@[i as int]));
        emit_kotlin_param_uses(&root.children[i], out);
        assert(out@ =~= start + all_uses_in_children(*root, (i + 1) as nat));
    }
    assert(out@ =~= old(out)@ + all_uses(*root));
}

} // verus!
