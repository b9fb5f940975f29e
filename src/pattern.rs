//! Patterns: validated token-tree templates, and the three operations on
//! them (match, substitute, specialize).

use vstd::prelude::*;
use crate::token::{TokenTree, TokV, tokens_view};
use crate::item::{ParameterKind, PatternItem, ItemV, items_view, params_from, refs, referenced_parameters, names_view, dedup_first, lemma_dedup_first};
use crate::store::StructuredBindings;
use crate::index::IndexBindings;
use crate::matcher::{MatchError, MatchFailure, match_from, failure_of, match_seq};
use crate::substitute::{SubstitutionError, SubstOutcome, subst_from, subst_outcome_of, subst_seq};
use crate::parser::{SyntaxError, parse_from, parse_items};
use crate::specialize::{SpecializationError, specialize_from, spec_failure_of, spec_seq};
use crate::schema::{
    NoParameterInRepetition, ParameterUsedInIncompatibleRepetitions, ParameterSchema, schema_of,
    schema_valid, empty_repetition_from, has_incompatible, incompatible, find_empty_repetition, empty_repetition_path, path_view, lemma_empty_repetition_path,
};

verus! {

/// Why a token sequence is not a valid pattern.
#[derive(Debug)]
pub enum PatternError {
    Syntax(SyntaxError),
    NoParameterInRepetition(NoParameterInRepetition),
    Incompatible(ParameterUsedInIncompatibleRepetitions),
}

/// A parameter that one pattern references and another does not.
#[derive(Debug)]
pub struct ParameterNotFound {
    pub parameter: String,
}

impl ParameterNotFound {
    pub fn new(parameter: String) -> (r: ParameterNotFound)
        ensures
            r.parameter == parameter,
    {
        ParameterNotFound { parameter }
    }
}

/// Tells whether a validation of `items` gives `r`: the first failing
/// rule, in order, is reported.
pub open spec fn validated<P: ParameterKind>(items: Seq<ItemV<P>>, r: Result<Pattern<P>, PatternError>) -> bool {
    if empty_repetition_from(items, 0) {
        r matches Err(PatternError::NoParameterInRepetition(e)) && empty_repetition_path(items, 0) == Some(
            path_view(e.path@),
        )
    } else if has_incompatible(schema_of(items)) {
        r matches Err(PatternError::Incompatible(e)) && incompatible(schema_of(items), e.parameter@)
    } else {
        r matches Ok(p) && p.wf() && p.view() == items
    }
}

/// Tells whether building a pattern from `toks` gives `r`.
pub open spec fn constructed<P: ParameterKind>(toks: Seq<TokV>, r: Result<Pattern<P>, PatternError>) -> bool {
    match parse_from(toks, 0) {
        Err(at) => r matches Err(PatternError::Syntax(e)) && crate::parser::positions(e.path@) == at,
        Ok(items) => validated(items, r),
    }
}

/// The outcome of matching a whole input: every token must be consumed.
pub open spec fn match_pattern<P: ParameterKind>(items: Seq<ItemV<P>>, input: Seq<TokV>) -> Result<crate::store::BindingMap, MatchFailure> {
    match match_from(items, 0, input, 0, Seq::empty()) {
        Err(e) => Err(e),
        Ok((b, p)) => if p == input.len() {
            Ok(b)
        } else {
            Err(MatchFailure::TrailingInput(p as nat))
        },
    }
}

/// The outcome of substituting `m` into a whole pattern.
pub open spec fn substitute_pattern<P: ParameterKind>(items: Seq<ItemV<P>>, m: crate::store::BindingMap) -> SubstOutcome {
    subst_from(items, 0, m, Seq::empty())
}

/// Tells whether specializing the pattern `items` with `m` gives `r`.
pub open spec fn specialized<P: ParameterKind>(items: Seq<ItemV<P>>, m: crate::store::BindingMap, r: Result<Pattern<P>, SpecializationError>) -> bool {
    match specialize_from(items, 0, m, Seq::empty()) {
        Err(f) => r matches Err(e) && !(e is Schema) && spec_failure_of(e) == f,
        Ok(out) => match r {
            Ok(p) => validated(out, Ok(p)),
            Err(SpecializationError::Schema(pe)) => validated(out, Err(pe)),
            Err(_) => false,
        },
    }
}

/// A validated pattern: no repetition lacks a parameter, and every
/// parameter has one repetition classification.
#[derive(Debug)]
pub struct Pattern<P> {
    items: Vec<PatternItem<P>>,
    parameters: Vec<String>,
}

impl<P: ParameterKind> Pattern<P> {
    pub closed spec fn view(&self) -> Seq<ItemV<P>> {
        items_view(self.items@)
    }

    pub closed spec fn inv(&self) -> bool {
        names_view(self.parameters@) == dedup_first(params_from(items_view(self.items@), 0))
    }

    pub open spec fn wf(&self) -> bool {
        self.inv() && schema_valid(self.view())
    }

    /// Builds a pattern from parsed items, checking both schema rules.
    pub fn from_items(items: Vec<PatternItem<P>>) -> (r: Result<Pattern<P>, PatternError>)
        ensures
            validated(items_view(items@), r),
    {
        proof {
            lemma_empty_repetition_path(items_view(items@), 0);
        }
        match find_empty_repetition(&items) {
            Some(path) => {
                return Err(PatternError::NoParameterInRepetition(NoParameterInRepetition { path }));
            },
            None => {},
        }
        let schema = ParameterSchema::extract(&items);
        match schema.assert_parameters_disjoint() {
            Err(e) => Err(PatternError::Incompatible(e)),
            Ok(()) => {
                let parameters = referenced_parameters(&items);
                Ok(Pattern { items, parameters })
            },
        }
    }

    /// Parses a token sequence as a pattern.
    pub fn parse(tokens: &Vec<TokenTree>) -> (r: Result<Pattern<P>, PatternError>)
        ensures
            constructed(tokens_view(tokens@), r),
    {
        match parse_items(tokens) {
            Err(e) => Err(PatternError::Syntax(e)),
            Ok(items) => Pattern::from_items(items),
        }
    }

    /// The pattern's items.
    pub fn items(&self) -> (r: &Vec<PatternItem<P>>)
        ensures
            items_view(r@) == self.view(),
    {
        &self.items
    }

    /// The pattern written back as token trees, in the syntax that
    /// `parse` reads.
    pub fn to_tokens(&self) -> (r: Vec<TokenTree>)
        ensures
            tokens_view(r@) == crate::unparse::unparse_from(self.view(), 0),
    {
        crate::unparse::unparse_items(&self.items)
    }

    /// The names of the parameters that the pattern references, each once,
    /// in order of first occurrence.
    pub fn parameters(&self) -> (r: &Vec<String>)
        requires
            self.wf(),
        ensures
            names_view(r@) == dedup_first(params_from(self.view(), 0)),
            names_view(r@).to_set() == refs(self.view()),
    {
        proof {
            lemma_dedup_first(params_from(self.view(), 0));
        }
        &self.parameters
    }

    /// Checks that this pattern references every parameter that `other`
    /// references.
    pub fn assert_parameters_superset(&self, other: &Pattern<P>) -> (r: Result<(), ParameterNotFound>)
        requires
            self.wf(),
            other.wf(),
        ensures
            r is Ok <==> refs(other.view()).subset_of(refs(self.view())),
            r matches Err(e) ==> refs(other.view()).contains(e.parameter@) && !refs(self.view()).contains(
                e.parameter@,
            ),
    {
        let mine = self.parameters();
        let theirs = other.parameters();
        let mut i: usize = 0;
        while i < theirs.len()
            invariant
                i <= theirs.len(),
                names_view(mine@).to_set() == refs(self.view()),
                names_view(theirs@).to_set() == refs(other.view()),
                forall|j: int| 0 <= j < i ==> refs(self.view()).contains(#[trigger] theirs@[j]@),
            decreases theirs.len() - i,
        {
            let mut found = false;
            let mut k: usize = 0;
            while k < mine.len()
                invariant
                    i < theirs.len(),
                    k <= mine.len(),
                    names_view(mine@).to_set() == refs(self.view()),
                    found ==> refs(self.view()).contains(theirs@[i as int]@),
                    !found ==> forall|l: int| 0 <= l < k ==> mine@[l]@ != theirs@[i as int]@,
                decreases mine.len() - k,
            {
                if mine[k].eq(&theirs[i]) {
                    assert(names_view(mine@)[k as int] == mine@[k as int]@);
                    assert(names_view(mine@).contains(mine@[k as int]@));
                    found = true;
                }
                k = k + 1;
            }
            assert(names_view(theirs@)[i as int] == theirs@[i as int]@);
            assert(names_view(theirs@).contains(theirs@[i as int]@));
            if !found {
                proof {
                    if refs(self.view()).contains(theirs@[i as int]@) {
                        let l = choose|l: int| 0 <= l < mine.len() && names_view(mine@)[l] == theirs@[i as int]@;
                    }
                }
                return Err(ParameterNotFound::new(theirs[i].clone()));
            }
            i = i + 1;
        }
        proof {
            assert forall|x: Seq<char>| refs(other.view()).contains(x) implies refs(self.view()).contains(x) by {
                let j = choose|j: int| 0 <= j < theirs.len() && names_view(theirs@)[j] == x;
                assert(names_view(theirs@)[j] == theirs@[j]@);
            }
        }
        Ok(())
    }

    /// Matches a whole token sequence against the pattern.
    pub fn match_tokens(&self, input: &Vec<TokenTree>) -> (r: Result<StructuredBindings, MatchError>)
        ensures
            r matches Ok(b) ==> b.wf() && match_pattern(self.view(), tokens_view(input@)) == Ok::<
                crate::store::BindingMap,
                MatchFailure,
            >(b.view()),
            r matches Err(e) ==> match_pattern(self.view(), tokens_view(input@)) == Err::<
                crate::store::BindingMap,
                MatchFailure,
            >(failure_of(e)),
    {
        proof {
            crate::token::lemma_tokens_view(input@);
        }
        let mut env = IndexBindings::new();
        match match_seq(&self.items, 0, input, 0, &mut env) {
            Err(e) => Err(e),
            Ok((b, p)) => {
                if p == input.len() {
                    Ok(b)
                } else {
                    Err(MatchError::TrailingInput { at: p })
                }
            },
        }
    }

    /// Substitutes the bindings that `bindings` gives and keeps the rest,
    /// giving a new pattern.
    pub fn specialize(&self, bindings: &StructuredBindings) -> (r: Result<Pattern<P>, SpecializationError>)
        requires
            bindings.wf(),
        ensures
            specialized(self.view(), bindings.view(), r),
    {
        let mut env = IndexBindings::new();
        match spec_seq(&self.items, 0, bindings, &mut env) {
            Err(e) => Err(e),
            Ok(items) => match Pattern::from_items(items) {
                Ok(p) => Ok(p),
                Err(pe) => Err(SpecializationError::Schema(pe)),
            },
        }
    }

    /// Renders the pattern with `bindings`.
    pub fn substitute(&self, bindings: &StructuredBindings) -> (r: Result<Vec<TokenTree>, SubstitutionError>)
        requires
            bindings.wf(),
        ensures
            subst_outcome_of(r) == substitute_pattern(self.view(), bindings.view()),
    {
        let mut env = IndexBindings::new();
        subst_seq(&self.items, 0, bindings, &mut env)
    }
}

} // verus!
