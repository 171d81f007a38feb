//! What holds of the tokens of every document.
use vstd::prelude::*;
use vstd::utf8::encode_utf8;

use super::legend::{type_number, types_have_one_number, TokenType, TOKEN_TYPES};
use super::params::{
    all_uses, all_uses_in_children, binding, bound_in, hidden_at, hidden_by, is_use,
    lasting_binding, names_of, own_uses, param_names, uses_in, uses_in_children, uses_in_function,
};
use super::phases::{document_tokens, Language};
use super::source::{
    bytes_before, lines_begin_behind_line_feeds, row_start, starts_of, units,
    units_are_utf16_units, utf16_len,
};
use super::tokens::{
    arranged, arranged_is_in_order, arranged_takes_the_first, encoded, wanted, RawToken,
    TokenPhases,
};
use super::tree::{child_place, first_from, ident_name, NodeKind, SyntaxNode};
use crate::types::Range;

verus! {

/// The path leads from the node down to a node below it: each number is that of a child.
pub open spec fn leads(node: SyntaxNode, path: Seq<int>) -> bool
    decreases path.len(),
{
    path.len() > 0 ==> 0 <= path[0] < node.children@.len() && leads(
        node.children@[path[0]],
        path.skip(1),
    )
}

/// The node that the path leads to.
pub open spec fn node_at(node: SyntaxNode, path: Seq<int>) -> SyntaxNode
    decreases path.len(),
{
    if path.len() == 0 {
        node
    } else {
        node_at(node.children@[path[0]], path.skip(1))
    }
}

/// The node is an identifier, on its own or in a string template.
pub open spec fn identifies(node: SyntaxNode) -> bool {
    node.kind == NodeKind::SimpleIdentifier || node.kind == NodeKind::InterpolatedIdentifier
}

/// No node on the path is an identifier, but perhaps the one it leads to.
pub open spec fn passes_no_identifier(node: SyntaxNode, path: Seq<int>) -> bool
    decreases path.len(),
{
    path.len() > 0 ==> !identifies(node) && passes_no_identifier(
        node.children@[path[0]],
        path.skip(1),
    )
}

/// Child `k` is the node's first child of this kind.
pub open spec fn is_first_of_kind(node: SyntaxNode, kind: NodeKind, k: int) -> bool {
    &&& 0 <= k < node.children@.len()
    &&& node.children@[k].kind == kind
    &&& forall|j: int| 0 <= j < k ==> (#[trigger] node.children@[j]).kind != kind
}

/// The node's first simple identifier has this text.
pub open spec fn is_called(node: SyntaxNode, name: Seq<char>) -> bool {
    exists|k: int| #[trigger]
        is_first_of_kind(node, NodeKind::SimpleIdentifier, k) && (node.children@[k].text matches Some(
            text,
        ) && text@ == name)
}

/// The function has a parameter of this name.
pub open spec fn has_parameter(function: SyntaxNode, name: Seq<char>) -> bool {
    exists|k: int, i: int|
        #![trigger is_first_of_kind(function, NodeKind::FunctionValueParameters, k), function.children@[k].children@[i]]
        is_first_of_kind(function, NodeKind::FunctionValueParameters, k) && 0 <= i
            < function.children@[k].children@.len() && function.children@[k].children@[i].kind
            == NodeKind::Parameter && is_called(function.children@[k].children@[i], name)
}

/// The destructuring declaration binds the name, and no parameter before it.
pub open spec fn destructures(
    multi: SyntaxNode,
    is_param: spec_fn(Seq<char>) -> bool,
    name: Seq<char>,
) -> bool {
    exists|i: int|
        0 <= i < multi.children@.len() && (#[trigger] multi.children@[i]).kind
            == NodeKind::VariableDeclaration && is_called(multi.children@[i], name) && forall|
            j: int,
            other: Seq<char>,
        |
            0 <= j < i && (#[trigger] multi.children@[j]).kind == NodeKind::VariableDeclaration
                && #[trigger] is_called(multi.children@[j], other) ==> !is_param(other)
}

/// The property or loop declares a variable of this name, which is that of a parameter.
pub open spec fn rebinds(
    node: SyntaxNode,
    is_param: spec_fn(Seq<char>) -> bool,
    name: Seq<char>,
) -> bool {
    is_param(name) && if exists|k: int| #[trigger]
        is_first_of_kind(node, NodeKind::MultiVariableDeclaration, k) {
        exists|k: int| #[trigger]
            is_first_of_kind(node, NodeKind::MultiVariableDeclaration, k) && destructures(
                node.children@[k],
                is_param,
                name,
            )
    } else {
        exists|k: int| #[trigger]
            is_first_of_kind(node, NodeKind::VariableDeclaration, k) && is_called(
                node.children@[k],
                name,
            )
    }
}

/// At child `i` of the node the parameter is hidden: the node is a loop over a variable of that
/// name and the child its body, or the node is a block and an earlier child a property of that
/// name.
pub open spec fn hides_at(
    node: SyntaxNode,
    is_param: spec_fn(Seq<char>) -> bool,
    i: int,
    name: Seq<char>,
) -> bool {
    ||| node.kind == NodeKind::ForStatement && is_first_of_kind(
        node,
        NodeKind::ControlStructureBody,
        i,
    ) && rebinds(node, is_param, name)
    ||| (node.kind == NodeKind::FunctionBody || node.kind == NodeKind::LambdaLiteral || node.kind
        == NodeKind::ControlStructureBody || node.kind == NodeKind::CatchBlock || node.kind
        == NodeKind::Block || node.kind == NodeKind::Statements) && exists|j: int|
        0 <= j < i && j < node.children@.len() && (#[trigger] node.children@[j]).kind
            == NodeKind::PropertyDeclaration && rebinds(node.children@[j], is_param, name)
}

/// Somewhere on the path the parameter gets hidden.
pub open spec fn hidden_on(
    node: SyntaxNode,
    is_param: spec_fn(Seq<char>) -> bool,
    path: Seq<int>,
    name: Seq<char>,
) -> bool
    decreases path.len(),
{
    path.len() > 0 && (hides_at(node, is_param, path[0], name) || hidden_on(
        node.children@[path[0]],
        is_param,
        path.skip(1),
        name,
    ))
}

/// The path leads to a use of the parameter `name`.
pub open spec fn uses_parameter(
    node: SyntaxNode,
    is_param: spec_fn(Seq<char>) -> bool,
    path: Seq<int>,
    name: Seq<char>,
) -> bool {
    &&& leads(node, path)
    &&& identifies(node_at(node, path))
    &&& !node_at(node, path).declares
    &&& node_at(node, path).text matches Some(text) && text@ == name
    &&& is_param(name)
    &&& !hidden_on(node, is_param, path, name)
}

/// Being the name of a parameter of the function.
pub open spec fn parameters_of(function: SyntaxNode) -> spec_fn(Seq<char>) -> bool {
    |name: Seq<char>| has_parameter(function, name)
}

proof fn lemma_first_from(nodes: Seq<SyntaxNode>, kind: NodeKind, i: int)
    requires
        0 <= i,
    ensures
        match first_from(nodes, kind, i) {
            Some(k) => i <= k < nodes.len() && nodes[k].kind == kind && forall|j: int|
                i <= j < k ==> (#[trigger] nodes[j]).kind != kind,
            None => forall|j: int| i <= j < nodes.len() ==> (#[trigger] nodes[j]).kind != kind,
        },
    decreases nodes.len() - i,
{
    if i < nodes.len() && nodes[i].kind != kind {
        lemma_first_from(nodes, kind, i + 1);
    }
}

proof fn lemma_child_place(node: SyntaxNode, kind: NodeKind)
    ensures
        forall|k: int| #[trigger]
            is_first_of_kind(node, kind, k) <==> child_place(node, kind) == Some(k),
{
    lemma_first_from(node.children@, kind, 0);
    assert forall|k: int| #[trigger] is_first_of_kind(node, kind, k) implies child_place(node, kind)
        == Some(k) by {
        assert(node.children@[k].kind == kind);
        match child_place(node, kind) {
            Some(m) => {
                if m < k {
                    assert(node.children@[m].kind != kind);
                }
                if k < m {
                    assert(node.children@[k].kind != kind);
                }
            },
            None => {},
        }
    }
}

proof fn lemma_called(node: SyntaxNode)
    ensures
        forall|name: Seq<char>| #[trigger] is_called(node, name) <==> ident_name(node) == Some(name),
{
    lemma_child_place(node, NodeKind::SimpleIdentifier);
    assert forall|name: Seq<char>| ident_name(node) == Some(name) implies #[trigger] is_called(
        node,
        name,
    ) by {
        let k = child_place(node, NodeKind::SimpleIdentifier)->0;
        assert(is_first_of_kind(node, NodeKind::SimpleIdentifier, k));
    }
}

proof fn lemma_names_of(nodes: Seq<SyntaxNode>, name: Seq<char>)
    ensures
        names_of(nodes).contains(name) <==> exists|i: int|
            0 <= i < nodes.len() && (#[trigger] nodes[i]).kind == NodeKind::Parameter && is_called(
                nodes[i],
                name,
            ),
    decreases nodes.len(),
{
    if nodes.len() > 0 {
        let d = nodes.drop_last();
        let before = names_of(d);
        lemma_names_of(d, name);
        lemma_called(nodes.last());
        let all = names_of(nodes);
        if all.contains(name) {
            let m = all.index_of(name);
            if m < before.len() {
                assert(before[m] == name);
                let i = choose|i: int|
                    0 <= i < d.len() && (#[trigger] d[i]).kind == NodeKind::Parameter && is_called(
                        d[i],
                        name,
                    );
                assert(nodes[i] == d[i]);
            } else {
                assert(nodes[nodes.len() - 1] == nodes.last());
            }
        }
        if exists|i: int|
            0 <= i < nodes.len() && (#[trigger] nodes[i]).kind == NodeKind::Parameter && is_called(
                nodes[i],
                name,
            ) {
            let i = choose|i: int|
                0 <= i < nodes.len() && (#[trigger] nodes[i]).kind == NodeKind::Parameter
                    && is_called(nodes[i], name);
            if i < d.len() {
                assert(d[i] == nodes[i]);
                let m = before.index_of(name);
                assert(all[m] == name);
            } else {
                assert(all[before.len() as int] == name);
            }
        }
    }
}

/// The parameters of a function are found, whatever their number and order.
pub proof fn parameters_are_collected(function: SyntaxNode, name: Seq<char>)
    ensures
        param_names(function).contains(name) <==> has_parameter(function, name),
{
    lemma_child_place(function, NodeKind::FunctionValueParameters);
    match child_place(function, NodeKind::FunctionValueParameters) {
        Some(k) => {
            assert(is_first_of_kind(function, NodeKind::FunctionValueParameters, k));
            lemma_names_of(function.children@[k].children@, name);
        },
        None => {},
    }
}

proof fn lemma_bound_in(
    multi: SyntaxNode,
    params: Seq<Seq<char>>,
    is_param: spec_fn(Seq<char>) -> bool,
    i: int,
    name: Seq<char>,
)
    requires
        forall|n: Seq<char>| #[trigger] params.contains(n) <==> is_param(n),
        0 <= i <= multi.children@.len(),
        forall|j: int, other: Seq<char>|
            0 <= j < i && (#[trigger] multi.children@[j]).kind == NodeKind::VariableDeclaration
                && #[trigger] is_called(multi.children@[j], other) ==> !is_param(other),
    ensures
        bound_in(multi.children@, params, i) == Some(name) <==> is_param(name) && destructures(
            multi,
            is_param,
            name,
        ),
    decreases multi.children@.len() - i,
{
    let nodes = multi.children@;
    if i < nodes.len() {
        lemma_called(nodes[i]);
        let here = nodes[i].kind == NodeKind::VariableDeclaration && ident_name(nodes[i]) is Some
            && params.contains(ident_name(nodes[i])->0);
        if here {
            let bound = ident_name(nodes[i])->0;
            assert(is_called(nodes[i], bound));
            assert(is_param(bound));
            if bound == name {
                assert(destructures(multi, is_param, name));
            } else if is_param(name) && destructures(multi, is_param, name) {
                let k = choose|k: int|
                    0 <= k < nodes.len() && (#[trigger] nodes[k]).kind
                        == NodeKind::VariableDeclaration && is_called(nodes[k], name) && forall|
                        j: int,
                        other: Seq<char>,
                    |
                        0 <= j < k && (#[trigger] nodes[j]).kind == NodeKind::VariableDeclaration
                            && #[trigger] is_called(nodes[j], other) ==> !is_param(other);
                if i < k {
                    assert(!is_param(bound));
                } else if k == i {
                    assert(ident_name(nodes[i]) == Some(name));
                } else {
                    assert(!is_param(name));
                }
            }
        } else {
            assert forall|j: int, other: Seq<char>|
                0 <= j < i + 1 && (#[trigger] nodes[j]).kind == NodeKind::VariableDeclaration
                    && #[trigger] is_called(nodes[j], other) implies !is_param(other) by {
                if j == i {
                    assert(ident_name(nodes[i]) == Some(other));
                }
            }
            lemma_bound_in(multi, params, is_param, i + 1, name);
        }
    } else if is_param(name) && destructures(multi, is_param, name) {
        let k = choose|k: int|
            0 <= k < nodes.len() && (#[trigger] nodes[k]).kind == NodeKind::VariableDeclaration
                && is_called(nodes[k], name) && forall|j: int, other: Seq<char>|
                0 <= j < k && (#[trigger] nodes[j]).kind == NodeKind::VariableDeclaration
                    && #[trigger] is_called(nodes[j], other) ==> !is_param(other);
        assert(!is_param(name));
    }
}

/// What a property or a loop declares is found.
pub proof fn rebound_parameters_are_found(
    node: SyntaxNode,
    params: Seq<Seq<char>>,
    is_param: spec_fn(Seq<char>) -> bool,
    name: Seq<char>,
)
    requires
        forall|n: Seq<char>| #[trigger] params.contains(n) <==> is_param(n),
    ensures
        binding(node, params) == Some(name) <==> (node.kind == NodeKind::PropertyDeclaration
            || node.kind == NodeKind::ForStatement) && rebinds(node, is_param, name),
{
    lemma_child_place(node, NodeKind::MultiVariableDeclaration);
    lemma_child_place(node, NodeKind::VariableDeclaration);
    match child_place(node, NodeKind::MultiVariableDeclaration) {
        Some(k) => {
            assert(is_first_of_kind(node, NodeKind::MultiVariableDeclaration, k));
            lemma_bound_in(node.children@[k], params, is_param, 0, name);
        },
        None => {
            assert(!exists|k: int| #[trigger]
                is_first_of_kind(node, NodeKind::MultiVariableDeclaration, k));
            match child_place(node, NodeKind::VariableDeclaration) {
                Some(k) => {
                    assert(is_first_of_kind(node, NodeKind::VariableDeclaration, k));
                    lemma_called(node.children@[k]);
                },
                None => {},
            }
        },
    }
}

proof fn lemma_hidden_at(
    node: SyntaxNode,
    params: Seq<Seq<char>>,
    is_param: spec_fn(Seq<char>) -> bool,
    hidden: Set<Seq<char>>,
    i: int,
    name: Seq<char>,
)
    requires
        forall|n: Seq<char>| #[trigger] params.contains(n) <==> is_param(n),
    ensures
        hidden_at(node, params, hidden, i).contains(name) <==> hidden.contains(name) || hides_at(
            node,
            is_param,
            i,
            name,
        ),
{
    lemma_child_place(node, NodeKind::ControlStructureBody);
    rebound_parameters_are_found(node, params, is_param, name);
    assert forall|j: int| 0 <= j < node.children@.len() implies (lasting_binding(
        #[trigger] node.children@[j],
        params,
    ) == Some(name) <==> node.children@[j].kind == NodeKind::PropertyDeclaration && rebinds(
        node.children@[j],
        is_param,
        name,
    )) by {
        rebound_parameters_are_found(node.children@[j], params, is_param, name);
    }
    if hidden_by(node.children@, params, i).contains(name) {
        let j = choose|j: int|
            0 <= j < i && j < node.children@.len() && lasting_binding(
                #[trigger] node.children@[j],
                params,
            ) == Some(name);
        assert(rebinds(node.children@[j], is_param, name));
    }
    if exists|j: int|
        0 <= j < i && j < node.children@.len() && (#[trigger] node.children@[j]).kind
            == NodeKind::PropertyDeclaration && rebinds(node.children@[j], is_param, name) {
        let j = choose|j: int|
            0 <= j < i && j < node.children@.len() && (#[trigger] node.children@[j]).kind
                == NodeKind::PropertyDeclaration && rebinds(node.children@[j], is_param, name);
        assert(lasting_binding(node.children@[j], params) == Some(name));
        assert(hidden_by(node.children@, params, i).contains(name));
    }
}

proof fn lemma_child_uses(
    node: SyntaxNode,
    params: Seq<Seq<char>>,
    hidden: Set<Seq<char>>,
    n: nat,
    k: int,
    t: RawToken,
)
    requires
        0 <= k < n <= node.children@.len(),
        uses_in(node.children@[k], params, hidden_at(node, params, hidden, k)).contains(t),
    ensures
        uses_in_children(node, params, hidden, n).contains(t),
    decreases n,
{
    let m = (n - 1) as nat;
    let a = uses_in_children(node, params, hidden, m);
    let b = uses_in(node.children@[m as int], params, hidden_at(node, params, hidden, m as int));
    assert(uses_in_children(node, params, hidden, n) == a + b);
    if k == m {
        let i = b.index_of(t);
        assert((a + b)[a.len() + i] == t);
    } else {
        lemma_child_uses(node, params, hidden, m, k, t);
        let i = a.index_of(t);
        assert((a + b)[i] == t);
    }
}

/// The token of a parameter at the node.
pub open spec fn parameter_token(node: SyntaxNode) -> RawToken {
    RawToken {
        line: node.line,
        col: node.col,
        length: node.length,
        token_type: 8,
        token_modifiers_bitset: 0,
    }
}

proof fn lemma_parameter_number()
    ensures
        type_number(TokenType::Parameter) == 8,
{
    assert(TOKEN_TYPES@[8] == TokenType::Parameter);
    types_have_one_number(TokenType::Parameter, 8);
}

/// Every use of a parameter at or below the node is found: an identifier, on its own or in a
/// string template, that declares nothing, has the name of a parameter and is not hidden.
pub proof fn uses_are_found(
    node: SyntaxNode,
    params: Seq<Seq<char>>,
    is_param: spec_fn(Seq<char>) -> bool,
    hidden: Set<Seq<char>>,
    path: Seq<int>,
    name: Seq<char>,
)
    requires
        forall|n: Seq<char>| #[trigger] params.contains(n) <==> is_param(n),
        uses_parameter(node, is_param, path, name),
        !hidden.contains(name),
        passes_no_identifier(node, path),
    ensures
        uses_in(node, params, hidden).contains(parameter_token(node_at(node, path))),
    decreases path.len(),
{
    let t = parameter_token(node_at(node, path));
    if path.len() == 0 {
        lemma_parameter_number();
        assert(params.contains(name));
        assert(is_use(node, params, hidden));
        assert(uses_in(node, params, hidden)[0] == t);
    } else {
        let k = path[0];
        lemma_hidden_at(node, params, is_param, hidden, k, name);
        uses_are_found(
            node.children@[k],
            params,
            is_param,
            hidden_at(node, params, hidden, k),
            path.skip(1),
            name,
        );
        lemma_child_uses(node, params, hidden, node.children@.len(), k, t);
    }
}

/// Every token found is that of a use of a parameter.
pub proof fn found_tokens_are_uses(
    node: SyntaxNode,
    params: Seq<Seq<char>>,
    is_param: spec_fn(Seq<char>) -> bool,
    hidden: Set<Seq<char>>,
    t: RawToken,
)
    requires
        forall|n: Seq<char>| #[trigger] params.contains(n) <==> is_param(n),
        uses_in(node, params, hidden).contains(t),
    ensures
        exists|path: Seq<int>, name: Seq<char>| #[trigger]
            uses_parameter(node, is_param, path, name) && !hidden.contains(name) && t
                == parameter_token(node_at(node, path)),
    decreases node, 1nat, 0nat,
{
    if is_use(node, params, hidden) {
        lemma_parameter_number();
        let path = Seq::<int>::empty();
        let name = node.text->0@;
        assert(t == uses_in(node, params, hidden)[0]);
        assert(params.contains(name));
        assert(uses_parameter(node, is_param, path, name));
    } else {
        lemma_found_in_children(node, params, is_param, hidden, node.children@.len(), t);
    }
}

proof fn lemma_found_in_children(
    node: SyntaxNode,
    params: Seq<Seq<char>>,
    is_param: spec_fn(Seq<char>) -> bool,
    hidden: Set<Seq<char>>,
    n: nat,
    t: RawToken,
)
    requires
        forall|n: Seq<char>| #[trigger] params.contains(n) <==> is_param(n),
        uses_in_children(node, params, hidden, n).contains(t),
    ensures
        exists|path: Seq<int>, name: Seq<char>| #[trigger]
            uses_parameter(node, is_param, path, name) && !hidden.contains(name) && t
                == parameter_token(node_at(node, path)),
    decreases node, 0nat, n,
{
    let all = uses_in_children(node, params, hidden, n);
    let m = (n - 1) as nat;
    let a = uses_in_children(node, params, hidden, m);
    let child = node.children@[m as int];
    let h = hidden_at(node, params, hidden, m as int);
    let b = uses_in(child, params, h);
    assert(all == a + b);
    let i = all.index_of(t);
    if i < a.len() {
        assert(a[i] == t);
        lemma_found_in_children(node, params, is_param, hidden, m, t);
    } else {
        assert(b[i - a.len()] == t);
        found_tokens_are_uses(child, params, is_param, h, t);
        let (rest, name) = choose|rest: Seq<int>, name: Seq<char>| #[trigger]
            uses_parameter(child, is_param, rest, name) && !h.contains(name) && t
                == parameter_token(node_at(child, rest));
        let path = seq![m as int] + rest;
        assert(path.skip(1) =~= rest);
        lemma_hidden_at(node, params, is_param, hidden, m as int, name);
        assert(uses_parameter(node, is_param, path, name));
    }
}

/// Within a function every use of a parameter in the body gets its token.
pub proof fn uses_in_a_body_are_coloured(
    function: SyntaxNode,
    body: int,
    path: Seq<int>,
    name: Seq<char>,
)
    requires
        is_first_of_kind(function, NodeKind::FunctionBody, body),
        uses_parameter(function.children@[body], parameters_of(function), path, name),
        passes_no_identifier(function.children@[body], path),
    ensures
        uses_in_function(function).contains(
            parameter_token(node_at(function.children@[body], path)),
        ),
{
    lemma_child_place(function, NodeKind::FunctionBody);
    let params = param_names(function);
    assert forall|n: Seq<char>| #[trigger] params.contains(n) <==> (parameters_of(function))(n) by {
        parameters_are_collected(function, n);
    }
    assert(params.contains(name));
    uses_are_found(
        function.children@[body],
        params,
        parameters_of(function),
        Set::empty(),
        path,
        name,
    );
}

/// Within a function nothing else gets a token.
pub proof fn only_uses_in_a_body_are_coloured(function: SyntaxNode, t: RawToken)
    requires
        uses_in_function(function).contains(t),
    ensures
        exists|body: int, path: Seq<int>, name: Seq<char>|
            #![trigger uses_parameter(function.children@[body], parameters_of(function), path, name)]
            is_first_of_kind(function, NodeKind::FunctionBody, body) && uses_parameter(
                function.children@[body],
                parameters_of(function),
                path,
                name,
            ) && t == parameter_token(node_at(function.children@[body], path)),
{
    lemma_child_place(function, NodeKind::FunctionBody);
    let params = param_names(function);
    assert forall|n: Seq<char>| #[trigger] params.contains(n) <==> (parameters_of(function))(n) by {
        parameters_are_collected(function, n);
    }
    let body = child_place(function, NodeKind::FunctionBody)->0;
    assert(is_first_of_kind(function, NodeKind::FunctionBody, body));
    found_tokens_are_uses(
        function.children@[body],
        params,
        parameters_of(function),
        Set::empty(),
        t,
    );
}

proof fn lemma_all_uses_child(node: SyntaxNode, n: nat, k: int, t: RawToken)
    requires
        0 <= k < n <= node.children@.len(),
        all_uses(node.children@[k]).contains(t),
    ensures
        all_uses_in_children(node, n).contains(t),
    decreases n,
{
    let m = (n - 1) as nat;
    let a = all_uses_in_children(node, m);
    let b = all_uses(node.children@[m as int]);
    assert(all_uses_in_children(node, n) == a + b);
    if k == m {
        let i = b.index_of(t);
        assert((a + b)[a.len() + i] == t);
    } else {
        lemma_all_uses_child(node, m, k, t);
        let i = a.index_of(t);
        assert((a + b)[i] == t);
    }
}

/// The path leads to a function.
pub open spec fn leads_to_function(root: SyntaxNode, path: Seq<int>) -> bool {
    leads(root, path) && (node_at(root, path).kind == NodeKind::FunctionDeclaration || node_at(
        root,
        path,
    ).kind == NodeKind::MethodDeclaration)
}

proof fn lemma_functions_are_visited(root: SyntaxNode, path: Seq<int>, t: RawToken)
    requires
        leads_to_function(root, path),
        uses_in_function(node_at(root, path)).contains(t),
    ensures
        all_uses(root).contains(t),
    decreases path.len(),
{
    let a = own_uses(root);
    let b = all_uses_in_children(root, root.children@.len());
    assert(all_uses(root) == a + b);
    if path.len() == 0 {
        let i = a.index_of(t);
        assert((a + b)[i] == t);
    } else {
        lemma_functions_are_visited(root.children@[path[0]], path.skip(1), t);
        lemma_all_uses_child(root, root.children@.len(), path[0], t);
        let i = b.index_of(t);
        assert((a + b)[a.len() + i] == t);
    }
}

/// In a document every use of a parameter, in the body of whatever function and however deep,
/// gets its token: at its line, column and length, of the type that the legend has for
/// parameters.
pub proof fn parameter_uses_are_coloured(
    root: SyntaxNode,
    to_function: Seq<int>,
    body: int,
    path: Seq<int>,
    name: Seq<char>,
)
    requires
        leads_to_function(root, to_function),
        is_first_of_kind(node_at(root, to_function), NodeKind::FunctionBody, body),
        uses_parameter(
            node_at(root, to_function).children@[body],
            parameters_of(node_at(root, to_function)),
            path,
            name,
        ),
        passes_no_identifier(node_at(root, to_function).children@[body], path),
    ensures
        ({
            let node = node_at(node_at(root, to_function).children@[body], path);
            all_uses(root).contains(
                RawToken {
                    line: node.line,
                    col: node.col,
                    length: node.length,
                    token_type: 8,
                    token_modifiers_bitset: 0,
                },
            )
        }),
        TOKEN_TYPES@[8] == TokenType::Parameter,
{
    let function = node_at(root, to_function);
    uses_in_a_body_are_coloured(function, body, path, name);
    lemma_functions_are_visited(
        root,
        to_function,
        parameter_token(node_at(function.children@[body], path)),
    );
}

/// In a document nothing but uses of parameters gets such a token.
pub proof fn only_parameter_uses_are_coloured(root: SyntaxNode, t: RawToken)
    requires
        all_uses(root).contains(t),
    ensures
        exists|to_function: Seq<int>| #[trigger]
            leads_to_function(root, to_function) && uses_in_function(
                node_at(root, to_function),
            ).contains(t),
    decreases root, 1nat, 0nat,
{
    let a = own_uses(root);
    let b = all_uses_in_children(root, root.children@.len());
    assert(all_uses(root) == a + b);
    let i = all_uses(root).index_of(t);
    if i < a.len() {
        assert(a[i] == t);
        let path = Seq::<int>::empty();
        assert(leads_to_function(root, path));
    } else {
        assert(b[i - a.len()] == t);
        lemma_coloured_in_children(root, root.children@.len(), t);
    }
}

proof fn lemma_coloured_in_children(root: SyntaxNode, n: nat, t: RawToken)
    requires
        all_uses_in_children(root, n).contains(t),
    ensures
        exists|to_function: Seq<int>| #[trigger]
            leads_to_function(root, to_function) && uses_in_function(
                node_at(root, to_function),
            ).contains(t),
    decreases root, 0nat, n,
{
    let m = (n - 1) as nat;
    let a = all_uses_in_children(root, m);
    let child = root.children@[m as int];
    let b = all_uses(child);
    let all = all_uses_in_children(root, n);
    assert(all == a + b);
    let i = all.index_of(t);
    if i < a.len() {
        assert(a[i] == t);
        lemma_coloured_in_children(root, m, t);
    } else {
        assert(b[i - a.len()] == t);
        only_parameter_uses_are_coloured(child, t);
        let rest = choose|p: Seq<int>| #[trigger]
            leads_to_function(child, p) && uses_in_function(node_at(child, p)).contains(t);
        let path = seq![m as int] + rest;
        assert(path.skip(1) =~= rest);
        assert(leads_to_function(root, path));
    }
}

/// The tokens of a document, phase after phase: in Kotlin those of the classifier, the
/// parameter uses and those of the index; in Java those of the classifier and of the index; in
/// another language those of the index alone.
pub proof fn languages_have_these_tokens(
    root: SyntaxNode,
    phase1: Seq<RawToken>,
    phase2: Seq<RawToken>,
    phases: TokenPhases,
)
    ensures
        document_tokens(Language::Kotlin, root, phase1, phase2) == phase1 + all_uses(root) + phase2,
        document_tokens(Language::Java, root, phase1, phase2) == phase1 + phase2,
        document_tokens(Language::Swift, root, phase1, phase2) == phase2,
        phases.all() == phases.phase1@ + phases.phase1b@ + phases.phase2@,
{
    assert(document_tokens(Language::Java, root, phase1, phase2) =~= phase1 + phase2);
    assert(document_tokens(Language::Swift, root, phase1, phase2) =~= phase2);
}

/// Ordered tokens stand line after line and, in a line, column after column; every token that
/// is the first of all given ones at its line and column is among them, and no other is.
pub proof fn ordered_tokens_are_the_first_of_each_place(raw: Seq<RawToken>)
    ensures
        forall|i: int, j: int|
            0 <= i < j < arranged(raw).len() ==> {
                let (a, b) = (#[trigger] arranged(raw)[i], #[trigger] arranged(raw)[j]);
                a.line < b.line || (a.line == b.line && a.col < b.col)
            },
        forall|k: int|
            #![trigger raw[k]]
            0 <= k < raw.len() && (forall|m: int|
                0 <= m < k ==> (#[trigger] raw[m]).line != raw[k].line || raw[m].col != raw[k].col)
                ==> arranged(raw).contains(raw[k]),
        forall|t: RawToken| #[trigger]
            arranged(raw).contains(t) ==> exists|k: int|
                0 <= k < raw.len() && #[trigger] raw[k] == t && forall|m: int|
                    0 <= m < k ==> (#[trigger] raw[m]).line != t.line || raw[m].col != t.col,
{
    arranged_is_in_order(raw);
    arranged_takes_the_first(raw);
    assert forall|i: int, j: int| 0 <= i < j < arranged(raw).len() implies {
        let (a, b) = (#[trigger] arranged(raw)[i], #[trigger] arranged(raw)[j]);
        a.line < b.line || (a.line == b.line && a.col < b.col)
    } by {
        assert(super::tokens::before(arranged(raw)[i], arranged(raw)[j]));
    }
    assert forall|k: int|
        #![trigger raw[k]]
        0 <= k < raw.len() && (forall|m: int|
            0 <= m < k ==> (#[trigger] raw[m]).line != raw[k].line || raw[m].col != raw[k].col)
            implies arranged(raw).contains(raw[k]) by {
        assert(super::tokens::first_at_place(raw, k));
    }
    assert forall|t: RawToken| #[trigger] arranged(raw).contains(t) implies exists|k: int|
        0 <= k < raw.len() && #[trigger] raw[k] == t && forall|m: int|
            0 <= m < k ==> (#[trigger] raw[m]).line != t.line || raw[m].col != t.col by {
        let k = choose|k: int| #[trigger] super::tokens::first_at_place(raw, k) && raw[k] == t;
        assert(raw[k] == t);
        assert forall|m: int| 0 <= m < k implies (#[trigger] raw[m]).line != t.line || raw[m].col
            != t.col by {
            assert(!super::tokens::same_place(raw[m], raw[k]));
        }
    }
}

/// A range keeps exactly the tokens that begin at or behind its start and end at or before its
/// end; without a range all are kept.
pub proof fn ranges_keep_what_lies_in_them(tokens: Seq<RawToken>, range: Range, t: RawToken)
    ensures
        tokens.filter(wanted(Some(range))).contains(t) <==> tokens.contains(t) && range.start.line
            <= t.line && t.line <= range.end.line && (t.line == range.start.line ==> t.col
            >= range.start.character) && (t.line == range.end.line ==> t.col + t.length
            <= range.end.character),
        tokens.filter(wanted(None)) == tokens,
{
    super::tokens::every_token_is_wanted(tokens);
    let p = wanted(Some(range));
    if tokens.filter(p).contains(t) {
        let i = tokens.filter(p).index_of(t);
        tokens.lemma_filter_pred(p, i);
        tokens.lemma_filter_contains_rev(p, t);
    }
    if tokens.contains(t) && p(t) {
        let i = tokens.index_of(t);
        tokens.lemma_filter_contains(p, i);
    }
}

/// Of ordered tokens the first is sent with its line and column, every other with the lines
/// since the one before it and, in the same line, the columns since it; length, type and
/// modifiers are sent as they are.
pub proof fn tokens_are_sent_relative_to_each_other(s: Seq<RawToken>)
    requires
        forall|i: int, j: int|
            0 <= i < j < s.len() ==> {
                let (a, b) = (#[trigger] s[i], #[trigger] s[j]);
                a.line < b.line || (a.line == b.line && a.col < b.col)
            },
    ensures
        encoded(s).len() == s.len(),
        s.len() > 0 ==> encoded(s)[0].delta_line == s[0].line && encoded(s)[0].delta_start
            == s[0].col,
        forall|i: int|
            #![trigger encoded(s)[i]]
            0 < i < s.len() ==> encoded(s)[i].delta_line == s[i].line - s[i - 1].line
                && encoded(s)[i].delta_start == (if s[i].line == s[i - 1].line {
                s[i].col - s[i - 1].col
            } else {
                s[i].col as int
            }),
        forall|i: int|
            #![trigger encoded(s)[i]]
            0 <= i < s.len() ==> encoded(s)[i].length == s[i].length && encoded(s)[i].token_type
                == s[i].token_type && encoded(s)[i].token_modifiers_bitset
                == s[i].token_modifiers_bitset,
{
    assert forall|i: int| #![trigger encoded(s)[i]] 0 < i < s.len() implies encoded(
        s,
    )[i].delta_line == s[i].line - s[i - 1].line && encoded(s)[i].delta_start == (if s[i].line
        == s[i - 1].line {
        s[i].col - s[i - 1].col
    } else {
        s[i].col as int
    }) by {
        let (a, b) = (s[i - 1], s[i]);
        assert(a.line < b.line || (a.line == b.line && a.col < b.col));
    }
}

/// The UTF-16 units of a text: two for each character outside the basic plane, one for any
/// other.
pub proof fn characters_take_one_or_two_units(s: Seq<char>, c: char)
    ensures
        utf16_len(Seq::empty()) == 0,
        utf16_len(s.push(c)) == utf16_len(s) + (if c as u32 >= 0x10000 {
            2int
        } else {
            1int
        }),
    decreases s.len(),
{
    if s.len() == 0 {
        assert(s.push(c).drop_first() =~= s);
        assert(utf16_len(s) == 0);
        assert(s.push(c)[0] == c);
    } else {
        characters_take_one_or_two_units(s.drop_first(), c);
        assert(s.push(c).drop_first() =~= s.drop_first().push(c));
        assert(s.push(c)[0] == s[0]);
    }
}

/// How many line feeds the bytes hold.
pub open spec fn line_feeds(bytes: Seq<u8>) -> nat {
    bytes.filter(|b: u8| b == 0x0a).len()
}

proof fn lemma_line_count(bytes: Seq<u8>)
    ensures
        starts_of(bytes).len() == line_feeds(bytes) + 1,
    decreases bytes.len(),
{
    reveal(Seq::filter);
    if bytes.len() > 0 {
        lemma_line_count(bytes.drop_last());
    }
}

proof fn lemma_starts_prefix(a: Seq<u8>, b: Seq<u8>)
    ensures
        starts_of(a).is_prefix_of(starts_of(a + b)),
    decreases b.len(),
{
    if b.len() == 0 {
        assert(a + b =~= a);
    } else {
        lemma_starts_prefix(a, b.drop_last());
        assert((a + b).drop_last() =~= a + b.drop_last());
        let s = starts_of(a + b.drop_last());
        let r = starts_of(a + b);
        assert(r.subrange(0, starts_of(a).len() as int) =~= s.subrange(
            0,
            starts_of(a).len() as int,
        ));
    }
}

/// In a line behind any number of others, the column behind a text is the number of its UTF-16
/// units.
pub proof fn columns_count_units_of_the_line(before: Seq<u8>, text: Seq<char>, rest: Seq<u8>)
    requires
        before.len() > 0 ==> before.last() == 0x0a,
    ensures
        units(
            bytes_before(
                before + encode_utf8(text) + rest,
                line_feeds(before) as int,
                encode_utf8(text).len() as int,
            ),
        ) == utf16_len(text),
{
    let e = encode_utf8(text);
    let all = before + e + rest;
    let row = line_feeds(before) as int;
    lemma_line_count(before);
    lemma_starts_prefix(before, e + rest);
    assert(before + (e + rest) =~= all);
    assert(starts_of(before).last() == before.len());
    assert(starts_of(all).subrange(0, row + 1)[row] == starts_of(all)[row]);
    assert(row_start(all, row) == before.len());
    assert(bytes_before(all, row, e.len() as int) =~= e);
    units_are_utf16_units(text);
}

proof fn lemma_nothing_hidden(
    node: SyntaxNode,
    is_param: spec_fn(Seq<char>) -> bool,
    path: Seq<int>,
    name: Seq<char>,
)
    requires
        leads(node, path),
        forall|p: Seq<int>| #[trigger]
            leads(node, p) ==> node_at(node, p).kind != NodeKind::PropertyDeclaration && node_at(
                node,
                p,
            ).kind != NodeKind::ForStatement,
    ensures
        !hidden_on(node, is_param, path, name),
    decreases path.len(),
{
    if path.len() > 0 {
        let k = path[0];
        let child = node.children@[k];
        let here = Seq::<int>::empty();
        assert(leads(node, here));
        assert(node_at(node, here) == node);
        assert forall|j: int| 0 <= j < node.children@.len() implies (
        #[trigger] node.children@[j]).kind != NodeKind::PropertyDeclaration by {
            let p = seq![j];
            reveal_with_fuel(leads, 2);
            reveal_with_fuel(node_at, 2);
            assert(p.skip(1) =~= Seq::<int>::empty());
            assert(p[0] == j);
            assert(leads(node, p));
            assert(node_at(node, p) == node.children@[j]);
        }
        assert forall|p: Seq<int>| #[trigger] leads(child, p) implies node_at(child, p).kind
            != NodeKind::PropertyDeclaration && node_at(child, p).kind != NodeKind::ForStatement by {
            let q = seq![k] + p;
            assert(q.skip(1) =~= p);
            assert(leads(node, q));
            assert(node_at(node, q) == node_at(child, p));
        }
        lemma_nothing_hidden(child, is_param, path.skip(1), name);
    }
}

/// In the body of a function that declares no variable of its own, every identifier, on its own
/// or in a string template, that declares nothing and has the name of a parameter, gets the
/// token of a parameter.
pub proof fn uses_among_no_variables_are_coloured(
    root: SyntaxNode,
    to_function: Seq<int>,
    parameters: int,
    parameter: int,
    identifier: int,
    body: int,
    path: Seq<int>,
)
    requires
        leads(root, to_function),
        node_at(root, to_function).kind == NodeKind::FunctionDeclaration || node_at(
            root,
            to_function,
        ).kind == NodeKind::MethodDeclaration,
        ({
            let function = node_at(root, to_function);
            let list = function.children@[parameters];
            let declared = list.children@[parameter];
            let block = function.children@[body];
            let node = node_at(block, path);
            &&& 0 <= parameters < function.children@.len()
            &&& list.kind == NodeKind::FunctionValueParameters
            &&& forall|j: int|
                0 <= j < parameters ==> (#[trigger] function.children@[j]).kind
                    != NodeKind::FunctionValueParameters
            &&& 0 <= parameter < list.children@.len()
            &&& declared.kind == NodeKind::Parameter
            &&& 0 <= identifier < declared.children@.len()
            &&& declared.children@[identifier].kind == NodeKind::SimpleIdentifier
            &&& forall|j: int|
                0 <= j < identifier ==> (#[trigger] declared.children@[j]).kind
                    != NodeKind::SimpleIdentifier
            &&& 0 <= body < function.children@.len()
            &&& block.kind == NodeKind::FunctionBody
            &&& forall|j: int|
                0 <= j < body ==> (#[trigger] function.children@[j]).kind != NodeKind::FunctionBody
            &&& leads(block, path)
            &&& passes_no_identifier(block, path)
            &&& node.kind == NodeKind::SimpleIdentifier || node.kind
                == NodeKind::InterpolatedIdentifier
            &&& !node.declares
            &&& node.text is Some
            &&& declared.children@[identifier].text is Some
            &&& node.text->0@ == declared.children@[identifier].text->0@
            &&& forall|p: Seq<int>| #[trigger]
                leads(block, p) ==> node_at(block, p).kind != NodeKind::PropertyDeclaration
                    && node_at(block, p).kind != NodeKind::ForStatement
        }),
    ensures
        ({
            let node = node_at(node_at(root, to_function).children@[body], path);
            all_uses(root).contains(
                RawToken {
                    line: node.line,
                    col: node.col,
                    length: node.length,
                    token_type: 8,
                    token_modifiers_bitset: 0,
                },
            )
        }),
{
    let function = node_at(root, to_function);
    let list = function.children@[parameters];
    let declared = list.children@[parameter];
    let block = function.children@[body];
    let node = node_at(block, path);
    let name = node.text->0@;
    assert(is_first_of_kind(declared, NodeKind::SimpleIdentifier, identifier));
    assert(is_called(declared, name));
    assert(is_first_of_kind(function, NodeKind::FunctionValueParameters, parameters));
    assert(has_parameter(function, name));
    assert(is_first_of_kind(function, NodeKind::FunctionBody, body));
    lemma_nothing_hidden(block, parameters_of(function), path, name);
    assert(uses_parameter(block, parameters_of(function), path, name));
    assert(leads_to_function(root, to_function));
    parameter_uses_are_coloured(root, to_function, body, path, name);
}

/// A byte column behind the end of the text counts what is there; a line behind the last has
/// nothing to count.
pub proof fn columns_behind_the_end(bytes: Seq<u8>, row: int, byte_col: int)
    requires
        0 <= row,
        0 <= byte_col,
    ensures
        row > line_feeds(bytes) ==> units(bytes_before(bytes, row, byte_col)) == 0,
        byte_col >= bytes.len() ==> bytes_before(bytes, row, byte_col) =~= bytes.skip(
            row_start(bytes, row),
        ),
{
    lemma_line_count(bytes);
    lines_begin_behind_line_feeds(bytes);
    if row > line_feeds(bytes) {
        assert(row_start(bytes, row) == bytes.len());
        assert(bytes_before(bytes, row, byte_col) =~= Seq::<u8>::empty());
    }
    if row < starts_of(bytes).len() && row > 0 {
        assert(starts_of(bytes)[row] <= bytes.len());
    }
}

} // verus!
