//! Token types and modifiers, in the order that their numbers refer to.
use vstd::prelude::*;

verus! {

/// What a token is.
#[derive(Debug, Clone, Copy, PartialEq, Eq, Structural)]
pub enum TokenType {
    Class,
    Interface,
    Enum,
    Struct,
    TypeParameter,
    Function,
    Method,
    Property,
    Parameter,
    Variable,
    EnumMember,
    Decorator,
    Namespace,
    Keyword,
    Operator,
}

/// What else is said of a token.
#[derive(Debug, Clone, Copy, PartialEq, Eq, Structural)]
pub enum TokenModifier {
    Declaration,
    Readonly,
    /// Companion object members.
    Static,
    Abstract,
    /// Suspend functions.
    Async,
    Deprecated,
    /// Standard library symbols.
    DefaultLibrary,
}

/// The token types; the place of a type is its number.
pub const TOKEN_TYPES: [TokenType; 15] = [
    TokenType::Class,
    TokenType::Interface,
    TokenType::Enum,
    TokenType::Struct,
    TokenType::TypeParameter,
    TokenType::Function,
    TokenType::Method,
    TokenType::Property,
    TokenType::Parameter,
    TokenType::Variable,
    TokenType::EnumMember,
    TokenType::Decorator,
    TokenType::Namespace,
    TokenType::Keyword,
    TokenType::Operator,
];

/// The modifiers; the place of a modifier is its bit.
pub const TOKEN_MODIFIERS: [TokenModifier; 7] = [
    TokenModifier::Declaration,
    TokenModifier::Readonly,
    TokenModifier::Static,
    TokenModifier::Abstract,
    TokenModifier::Async,
    TokenModifier::Deprecated,
    TokenModifier::DefaultLibrary,
];

/// The token types and modifiers, as announced to the editor.
pub struct Legend {
    pub token_types: Vec<TokenType>,
    pub token_modifiers: Vec<TokenModifier>,
}

impl TokenType {
    /// The name of the type in the protocol.
    pub open spec fn protocol_name(self) -> Seq<char> {
        match self {
            TokenType::Class => "class"@,
            TokenType::Interface => "interface"@,
            TokenType::Enum => "enum"@,
            TokenType::Struct => "struct"@,
            TokenType::TypeParameter => "typeParameter"@,
            TokenType::Function => "function"@,
            TokenType::Method => "method"@,
            TokenType::Property => "property"@,
            TokenType::Parameter => "parameter"@,
            TokenType::Variable => "variable"@,
            TokenType::EnumMember => "enumMember"@,
            TokenType::Decorator => "decorator"@,
            TokenType::Namespace => "namespace"@,
            TokenType::Keyword => "keyword"@,
            TokenType::Operator => "operator"@,
        }
    }

    /// The name of the type in the protocol.
    pub fn name(self) -> (r: &'static str)
        ensures
            r@ == self.protocol_name(),
    {
        match self {
            TokenType::Class => "class",
            TokenType::Interface => "interface",
            TokenType::Enum => "enum",
            TokenType::Struct => "struct",
            TokenType::TypeParameter => "typeParameter",
            TokenType::Function => "function",
            TokenType::Method => "method",
            TokenType::Property => "property",
            TokenType::Parameter => "parameter",
            TokenType::Variable => "variable",
            TokenType::EnumMember => "enumMember",
            TokenType::Decorator => "decorator",
            TokenType::Namespace => "namespace",
            TokenType::Keyword => "keyword",
            TokenType::Operator => "operator",
        }
    }
}

impl TokenModifier {
    /// The name of the modifier in the protocol.
    pub open spec fn protocol_name(self) -> Seq<char> {
        match self {
            TokenModifier::Declaration => "declaration"@,
            TokenModifier::Readonly => "readonly"@,
            TokenModifier::Static => "static"@,
            TokenModifier::Abstract => "abstract"@,
            TokenModifier::Async => "async"@,
            TokenModifier::Deprecated => "deprecated"@,
            TokenModifier::DefaultLibrary => "defaultLibrary"@,
        }
    }

    /// The name of the modifier in the protocol.
    pub fn name(self) -> (r: &'static str)
        ensures
            r@ == self.protocol_name(),
    {
        match self {
            TokenModifier::Declaration => "declaration",
            TokenModifier::Readonly => "readonly",
            TokenModifier::Static => "static",
            TokenModifier::Abstract => "abstract",
            TokenModifier::Async => "async",
            TokenModifier::Deprecated => "deprecated",
            TokenModifier::DefaultLibrary => "defaultLibrary",
        }
    }
}

/// The place of the type among the token types.
pub open spec fn type_number(token_type: TokenType) -> int {
    choose|i: int| 0 <= i < 15 && TOKEN_TYPES@[i] == token_type
}

/// The place of the modifier among the modifiers.
pub open spec fn modifier_number(modifier: TokenModifier) -> int {
    choose|i: int| 0 <= i < 7 && TOKEN_MODIFIERS@[i] == modifier
}

/// Every type has one place.
pub proof fn types_have_one_number(token_type: TokenType, i: int)
    requires
        0 <= i < 15,
    ensures
        0 <= type_number(token_type) < 15,
        TOKEN_TYPES@[type_number(token_type)] == token_type,
        TOKEN_TYPES@[i] == token_type ==> type_number(token_type) == i,
{
    let all = TOKEN_TYPES@;
    assert(all[0] == TokenType::Class);
    assert(all[1] == TokenType::Interface);
    assert(all[2] == TokenType::Enum);
    assert(all[3] == TokenType::Struct);
    assert(all[4] == TokenType::TypeParameter);
    assert(all[5] == TokenType::Function);
    assert(all[6] == TokenType::Method);
    assert(all[7] == TokenType::Property);
    assert(all[8] == TokenType::Parameter);
    assert(all[9] == TokenType::Variable);
    assert(all[10] == TokenType::EnumMember);
    assert(all[11] == TokenType::Decorator);
    assert(all[12] == TokenType::Namespace);
    assert(all[13] == TokenType::Keyword);
    assert(all[14] == TokenType::Operator);
}

/// Every modifier has one place.
pub proof fn modifiers_have_one_number(modifier: TokenModifier, i: int)
    requires
        0 <= i < 7,
    ensures
        0 <= modifier_number(modifier) < 7,
        TOKEN_MODIFIERS@[modifier_number(modifier)] == modifier,
        TOKEN_MODIFIERS@[i] == modifier ==> modifier_number(modifier) == i,
{
    let all = TOKEN_MODIFIERS@;
    assert(all[0] == TokenModifier::Declaration);
    assert(all[1] == TokenModifier::Readonly);
    assert(all[2] == TokenModifier::Static);
    assert(all[3] == TokenModifier::Abstract);
    assert(all[4] == TokenModifier::Async);
    assert(all[5] == TokenModifier::Deprecated);
    assert(all[6] == TokenModifier::DefaultLibrary);
}

/// The bit of the modifier.
pub open spec fn modifier_mask(modifier: TokenModifier) -> u32 {
    1u32 << (modifier_number(modifier) as u32)
}

/// No two modifiers share a bit.
pub proof fn modifier_bits_are_distinct(a: TokenModifier, b: TokenModifier)
    requires
        a != b,
    ensures
        modifier_mask(a) & modifier_mask(b) == 0,
        modifier_mask(a) != 0,
{
    modifiers_have_one_number(a, 0);
    modifiers_have_one_number(b, 0);
    let i = modifier_number(a) as u32;
    let j = modifier_number(b) as u32;
    assert((1u32 << i) & (1u32 << j) == 0 && (1u32 << i) != 0) by (bit_vector)
        requires
            i < 7,
            j < 7,
            i != j,
    ;
}

/// The numbers that editors know the token types by.
pub proof fn token_types_have_these_numbers()
    ensures
        type_number(TokenType::Class) == 0,
        type_number(TokenType::Interface) == 1,
        type_number(TokenType::Enum) == 2,
        type_number(TokenType::Struct) == 3,
        type_number(TokenType::TypeParameter) == 4,
        type_number(TokenType::Function) == 5,
        type_number(TokenType::Method) == 6,
        type_number(TokenType::Property) == 7,
        type_number(TokenType::Parameter) == 8,
        type_number(TokenType::Variable) == 9,
        type_number(TokenType::EnumMember) == 10,
        type_number(TokenType::Decorator) == 11,
        type_number(TokenType::Namespace) == 12,
        type_number(TokenType::Keyword) == 13,
        type_number(TokenType::Operator) == 14,
{
    assert(TOKEN_TYPES@[0] == TokenType::Class);
    types_have_one_number(TokenType::Class, 0);
    assert(TOKEN_TYPES@[1] == TokenType::Interface);
    types_have_one_number(TokenType::Interface, 1);
    assert(TOKEN_TYPES@[2] == TokenType::Enum);
    types_have_one_number(TokenType::Enum, 2);
    assert(TOKEN_TYPES@[3] == TokenType::Struct);
    types_have_one_number(TokenType::Struct, 3);
    assert(TOKEN_TYPES@[4] == TokenType::TypeParameter);
    types_have_one_number(TokenType::TypeParameter, 4);
    assert(TOKEN_TYPES@[5] == TokenType::Function);
    types_have_one_number(TokenType::Function, 5);
    assert(TOKEN_TYPES@[6] == TokenType::Method);
    types_have_one_number(TokenType::Method, 6);
    assert(TOKEN_TYPES@[7] == TokenType::Property);
    types_have_one_number(TokenType::Property, 7);
    assert(TOKEN_TYPES@[8] == TokenType::Parameter);
    types_have_one_number(TokenType::Parameter, 8);
    assert(TOKEN_TYPES@[9] == TokenType::Variable);
    types_have_one_number(TokenType::Variable, 9);
    assert(TOKEN_TYPES@[10] == TokenType::EnumMember);
    types_have_one_number(TokenType::EnumMember, 10);
    assert(TOKEN_TYPES@[11] == TokenType::Decorator);
    types_have_one_number(TokenType::Decorator, 11);
    assert(TOKEN_TYPES@[12] == TokenType::Namespace);
    types_have_one_number(TokenType::Namespace, 12);
    assert(TOKEN_TYPES@[13] == TokenType::Keyword);
    types_have_one_number(TokenType::Keyword, 13);
    assert(TOKEN_TYPES@[14] == TokenType::Operator);
    types_have_one_number(TokenType::Operator, 14);
}

/// The bits that editors know the modifiers by.
pub proof fn modifiers_have_these_bits()
    ensures
        modifier_mask(TokenModifier::Declaration) == 1,
        modifier_mask(TokenModifier::Readonly) == 2,
        modifier_mask(TokenModifier::Static) == 4,
        modifier_mask(TokenModifier::Abstract) == 8,
        modifier_mask(TokenModifier::Async) == 16,
        modifier_mask(TokenModifier::Deprecated) == 32,
        modifier_mask(TokenModifier::DefaultLibrary) == 64,
{
    assert(TOKEN_MODIFIERS@[0] == TokenModifier::Declaration);
    modifiers_have_one_number(TokenModifier::Declaration, 0);
    assert(1u32 << 0u32 == 1) by (bit_vector);
    assert(TOKEN_MODIFIERS@[1] == TokenModifier::Readonly);
    modifiers_have_one_number(TokenModifier::Readonly, 1);
    assert(1u32 << 1u32 == 2) by (bit_vector);
    assert(TOKEN_MODIFIERS@[2] == TokenModifier::Static);
    modifiers_have_one_number(TokenModifier::Static, 2);
    assert(1u32 << 2u32 == 4) by (bit_vector);
    assert(TOKEN_MODIFIERS@[3] == TokenModifier::Abstract);
    modifiers_have_one_number(TokenModifier::Abstract, 3);
    assert(1u32 << 3u32 == 8) by (bit_vector);
    assert(TOKEN_MODIFIERS@[4] == TokenModifier::Async);
    modifiers_have_one_number(TokenModifier::Async, 4);
    assert(1u32 << 4u32 == 16) by (bit_vector);
    assert(TOKEN_MODIFIERS@[5] == TokenModifier::Deprecated);
    modifiers_have_one_number(TokenModifier::Deprecated, 5);
    assert(1u32 << 5u32 == 32) by (bit_vector);
    assert(TOKEN_MODIFIERS@[6] == TokenModifier::DefaultLibrary);
    modifiers_have_one_number(TokenModifier::DefaultLibrary, 6);
    assert(1u32 << 6u32 == 64) by (bit_vector);
}

/// The names that the protocol has for the token types.
pub proof fn token_types_have_these_names()
    ensures
        TokenType::Class.protocol_name() == "class"@,
        TokenType::Interface.protocol_name() == "interface"@,
        TokenType::Enum.protocol_name() == "enum"@,
        TokenType::Struct.protocol_name() == "struct"@,
        TokenType::TypeParameter.protocol_name() == "typeParameter"@,
        TokenType::Function.protocol_name() == "function"@,
        TokenType::Method.protocol_name() == "method"@,
        TokenType::Property.protocol_name() == "property"@,
        TokenType::Parameter.protocol_name() == "parameter"@,
        TokenType::Variable.protocol_name() == "variable"@,
        TokenType::EnumMember.protocol_name() == "enumMember"@,
        TokenType::Decorator.protocol_name() == "decorator"@,
        TokenType::Namespace.protocol_name() == "namespace"@,
        TokenType::Keyword.protocol_name() == "keyword"@,
        TokenType::Operator.protocol_name() == "operator"@,
{
}

/// The names that the protocol has for the modifiers.
pub proof fn modifiers_have_these_names()
    ensures
        TokenModifier::Declaration.protocol_name() == "declaration"@,
        TokenModifier::Readonly.protocol_name() == "readonly"@,
        TokenModifier::Static.protocol_name() == "static"@,
        TokenModifier::Abstract.protocol_name() == "abstract"@,
        TokenModifier::Async.protocol_name() == "async"@,
        TokenModifier::Deprecated.protocol_name() == "deprecated"@,
        TokenModifier::DefaultLibrary.protocol_name() == "defaultLibrary"@,
{
}

/// The number of the type.
pub fn type_index(token_type: TokenType) -> (r: u32)
    ensures
        r == type_number(token_type),
{
    proof {
        types_have_one_number(token_type, 0);
    }
    let mut i: usize = 0;
    while i < 14 && TOKEN_TYPES[i] != token_type
        invariant
            i <= 14,
            forall|j: int| 0 <= j < i ==> TOKEN_TYPES@[j] != token_type,
        decreases 14 - i,
    {
        i += 1;
    }
    proof {
        types_have_one_number(token_type, i as int);
    }
    i as u32
}

/// The bit of the modifier.
pub fn modifier_bit(modifier: TokenModifier) -> (r: u32)
    ensures
        r == modifier_mask(modifier),
{
    proof {
        modifiers_have_one_number(modifier, 0);
    }
    let mut i: usize = 0;
    while i < 6 && TOKEN_MODIFIERS[i] != modifier
        invariant
            i <= 6,
            forall|j: int| 0 <= j < i ==> TOKEN_MODIFIERS@[j] != modifier,
        decreases 6 - i,
    {
        i += 1;
    }
    proof {
        modifiers_have_one_number(modifier, i as int);
    }
    1u32 << (i as u32)
}

/// The token types and modifiers, each at the place that its number refers to.
pub fn legend() -> (r: Legend)
    ensures
        r.token_types@ == TOKEN_TYPES@,
        r.token_modifiers@ == TOKEN_MODIFIERS@,
{
    let mut token_types: Vec<TokenType> = Vec::new();
    for i in 0..15
        invariant
            token_types@ == TOKEN_TYPES@.take(i as int),
    {
        token_types.push(TOKEN_TYPES[i]);
        assert(TOKEN_TYPES@.take(i + 1) =~= TOKEN_TYPES@.take(i as int).push(
            TOKEN_TYPES@[i as int],
        ));
    }
    assert(TOKEN_TYPES@.take(15) =~= TOKEN_TYPES@);
    let mut token_modifiers: Vec<TokenModifier> = Vec::new();
    for i in 0..7
        invariant
            token_modifiers@ == TOKEN_MODIFIERS@.take(i as int),
    {
        token_modifiers.push(TOKEN_MODIFIERS[i]);
        assert(TOKEN_MODIFIERS@.take(i + 1) =~= TOKEN_MODIFIERS@.take(i as int).push(
            TOKEN_MODIFIERS@[i as int],
        ));
    }
    assert(TOKEN_MODIFIERS@.take(7) =~= TOKEN_MODIFIERS@);
    Legend { token_types, token_modifiers }
}

} // verus!
