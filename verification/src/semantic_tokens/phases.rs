//! Which phases a document's language goes through.
use vstd::prelude::*;

use super::params::{all_uses, emit_kotlin_param_uses};
use super::tokens::{arranged, encoded, wanted, RawToken, TokenPhases};
use super::tree::SyntaxNode;
use crate::types::Range;

verus! {

/// The language of a document.
#[derive(Debug, Clone, Copy, PartialEq, Eq, Structural)]
pub enum Language {
    Kotlin,
    Java,
    Swift,
}

/// The languages that have a classifier.
pub open spec fn has_classifier(language: Language) -> bool {
    language == Language::Kotlin || language == Language::Java
}

/// The tokens of the classifier; a language without one has none.
pub open spec fn classified(language: Language, tokens: Seq<RawToken>) -> Seq<RawToken> {
    if has_classifier(language) {
        tokens
    } else {
        Seq::empty()
    }
}

/// The parameter uses, which are looked for in Kotlin alone.
pub open spec fn parameter_uses(language: Language, root: SyntaxNode) -> Seq<RawToken> {
    if language == Language::Kotlin {
        all_uses(root)
    } else {
        Seq::empty()
    }
}

/// The tokens of all phases, one phase after another.
pub open spec fn document_tokens(
    language: Language,
    root: SyntaxNode,
    phase1: Seq<RawToken>,
    phase2: Seq<RawToken>,
) -> Seq<RawToken> {
    classified(language, phase1) + parameter_uses(language, root) + phase2
}

/// The tokens of each phase: those of the classifier, for Kotlin and Java; the parameter uses,
/// for Kotlin alone; and those of the index as given, none where there is no index.
pub fn token_phases(
    language: Language,
    root: &SyntaxNode,
    phase1: Vec<RawToken>,
    phase2: Vec<RawToken>,
) -> (r: TokenPhases)
    ensures
        r.phase1@ == classified(language, phase1@),
        r.phase1b@ == parameter_uses(language, *root),
        r.phase2 == phase2,
        r.all() == document_tokens(language, *root, phase1@, phase2@),
{
    let phase1 = if language == Language::Kotlin || language == Language::Java {
        phase1
    } else {
        Vec::new()
    };
    let mut phase1b: Vec<RawToken> = Vec::new();
    if language == Language::Kotlin {
        emit_kotlin_param_uses(root, &mut phase1b);
        assert(phase1b@ =~= all_uses(*root));
    }
    TokenPhases { phase1, phase1b, phase2 }
}

/// A document in a language without a classifier has no tokens where there is no index.
pub proof fn no_classifier_and_no_index_give_no_tokens(
    language: Language,
    root: SyntaxNode,
    phase1: Seq<RawToken>,
    range: Option<Range>,
)
    requires
        !has_classifier(language),
    ensures
        document_tokens(language, root, phase1, Seq::empty()).len() == 0,
        encoded(
            arranged(document_tokens(language, root, phase1, Seq::empty())).filter(wanted(range)),
        ) == Seq::<super::tokens::SemanticToken>::empty(),
{
    reveal(Seq::filter);
    let all = arranged(document_tokens(language, root, phase1, Seq::empty()));
    assert(encoded(all.filter(wanted(range))) =~= Seq::empty());
}

} // verus!
