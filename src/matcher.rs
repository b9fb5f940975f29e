//! The matcher: reads concrete tokens against a pattern into structured
//! bindings, trying repetitions speculatively and rolling back on failure.

use vstd::prelude::*;
use crate::token::{TokenTree, TokV, token_view, tokens_view, lemma_tokens_view, copy_range, decimal, usize_text};
use crate::item::{ParameterKind, PatternItem, ItemV, item_view, items_view, lemma_items_view, opt_view, params_from, params_of, refs, referenced_parameters, names_view, lemma_concat_to_set};
use crate::binding::BindV;
use crate::store::{
    StructuredBindings, BindingMap, ParameterBindingMismatch, ParameterBindingNotFound, agree,
    lift_optional, lift_repetition, lift_optional_bindings, lift_repetition_bindings, stores_view,
};
use crate::index::{IndexBindings, IndexEnv, env_get, with_index};

verus! {

/// Why matching failed.
#[derive(Debug)]
pub enum MatchError {
    /// The token at `at` (the end of the input when `at` is its length)
    /// is not what the pattern asks for there.
    Mismatch { at: usize },
    /// The pattern ended at `at`, before the end of the input or group.
    TrailingInput { at: usize },
    /// A parameter matched two different values.
    BindingMismatch(ParameterBindingMismatch),
    /// An index reference names no enclosing repetition index.
    IndexNotFound(ParameterBindingNotFound),
}

/// The mathematical value of a match error; which name a binding
/// mismatch reports is left open.
pub enum MatchFailure {
    Mismatch(nat),
    TrailingInput(nat),
    BindingMismatch,
    IndexNotFound(Seq<char>),
}

pub open spec fn failure_of(e: MatchError) -> MatchFailure {
    match e {
        MatchError::Mismatch { at } => MatchFailure::Mismatch(at as nat),
        MatchError::TrailingInput { at } => MatchFailure::TrailingInput(at as nat),
        MatchError::BindingMismatch(_) => MatchFailure::BindingMismatch,
        MatchError::IndexNotFound(e) => MatchFailure::IndexNotFound(e.parameter@),
    }
}

pub type MatchOutcome = Result<(BindingMap, int), MatchFailure>;

pub type RepetitionOutcome = Result<(Seq<BindingMap>, int), MatchFailure>;

/// Matches `items[i..]` against `input` from `pos`: the bindings and the
/// position after the last token consumed.
pub open spec fn match_from<P: ParameterKind>(items: Seq<ItemV<P>>, i: int, input: Seq<TokV>, pos: int, env: IndexEnv) -> MatchOutcome
    decreases items, 1int, items.len() - i,
{
    if i < 0 || i >= items.len() {
        Ok((Map::empty(), pos))
    } else {
        match match_item(items[i], input, pos, env) {
            Err(e) => Err(e),
            Ok((b1, p1)) => match match_from(items, i + 1, input, p1, env) {
                Err(e) => Err(e),
                Ok((b2, p2)) => if agree(b1, b2) {
                    Ok((b1.union_prefer_right(b2), p2))
                } else {
                    Err(MatchFailure::BindingMismatch)
                },
            },
        }
    }
}

/// Matches one item against `input` from `pos`.
pub open spec fn match_item<P: ParameterKind>(item: ItemV<P>, input: Seq<TokV>, pos: int, env: IndexEnv) -> MatchOutcome
    decreases item, 0int, 0int,
{
    let here = 0 <= pos < input.len();
    match item {
        ItemV::Ident(s) => if here && input[pos] == TokV::Ident(s) {
            Ok((Map::empty(), pos + 1))
        } else {
            Err(MatchFailure::Mismatch(pos as nat))
        },
        ItemV::Literal(s) => if here && input[pos] == TokV::Literal(s) {
            Ok((Map::empty(), pos + 1))
        } else {
            Err(MatchFailure::Mismatch(pos as nat))
        },
        ItemV::Punct(s) => if here && input[pos] == TokV::Punct(s) {
            Ok((Map::empty(), pos + 1))
        } else {
            Err(MatchFailure::Mismatch(pos as nat))
        },
        ItemV::Group(d, inner) => if here && input[pos] is Group && input[pos]->Group_0 == d {
            match match_from(inner, 0, input[pos]->Group_1, 0, env) {
                Err(e) => Err(e),
                Ok((b, p)) => if p == input[pos]->Group_1.len() {
                    Ok((b, pos + 1))
                } else {
                    Err(MatchFailure::TrailingInput(p as nat))
                },
            }
        } else {
            Err(MatchFailure::Mismatch(pos as nat))
        },
        ItemV::Parameter(n, f) => match f.extent(input, pos) {
            Some(q) => Ok((Map::empty().insert(n, BindV::Value(input.subrange(pos, q))), q)),
            None => Err(MatchFailure::Mismatch(pos as nat)),
        },
        ItemV::Index(n) => match env_get(env, n) {
            None => Err(MatchFailure::IndexNotFound(n)),
            Some(k) => if here && input[pos] == TokV::Literal(decimal(k)) {
                Ok((Map::empty(), pos + 1))
            } else {
                Err(MatchFailure::Mismatch(pos as nat))
            },
        },
        ItemV::Optional(inner) => match match_from(inner, 0, input, pos, env) {
            Ok((b, p)) => Ok((lift_optional(refs(inner), Some(b)), p)),
            Err(_) => Ok((lift_optional(refs(inner), None), pos)),
        },
        ItemV::ZeroOrMore(idx, inner, sep) => match match_repetition(
            false,
            idx,
            inner,
            sep,
            input,
            pos,
            env,
            Seq::empty(),
        ) {
            Err(e) => Err(e),
            Ok((its, p)) => Ok((lift_repetition(refs(inner), its, false), p)),
        },
        ItemV::OneOrMore(idx, inner, sep) => match match_repetition(
            true,
            idx,
            inner,
            sep,
            input,
            pos,
            env,
            Seq::empty(),
        ) {
            Err(e) => Err(e),
            Ok((its, p)) => Ok((lift_repetition(refs(inner), its, true), p)),
        },
    }
}

/// Matches further iterations of a repetition from `pos`, `acc` holding
/// the bindings of those already matched.
///
/// An iteration, together with the separator before it, is speculative:
/// when it fails, or consumes nothing, the repetition ends before it and
/// keeps the input from `pos`. Only the first iteration of a one-or-more
/// repetition is mandatory: its failure is the repetition's failure.
pub open spec fn match_repetition<P: ParameterKind>(
    one: bool,
    idx: Option<Seq<char>>,
    inner: Seq<ItemV<P>>,
    sep: Option<Seq<char>>,
    input: Seq<TokV>,
    pos: int,
    env: IndexEnv,
    acc: Seq<BindingMap>,
) -> RepetitionOutcome
    decreases inner, 2int, input.len() - pos,
{
    let first = acc.len() == 0;
    let needs_sep = !first && sep is Some;
    if needs_sep && !(0 <= pos < input.len() && input[pos] == TokV::Punct(sep->Some_0)) {
        Ok((acc, pos))
    } else {
        let start = if needs_sep {
            pos + 1
        } else {
            pos
        };
        match match_from(inner, 0, input, start, with_index(env, idx, acc.len())) {
            Err(e) => if one && first {
                Err(e)
            } else {
                Ok((acc, pos))
            },
            Ok((b, p)) => if pos < p <= input.len() {
                match_repetition(one, idx, inner, sep, input, p, env, acc.push(b))
            } else if one && first {
                Ok((acc.push(b), p))
            } else {
                Ok((acc, pos))
            },
        }
    }
}

pub open spec fn outcome_of(r: Result<(StructuredBindings, usize), MatchError>) -> MatchOutcome {
    match r {
        Ok((b, p)) => Ok((b.view(), p as int)),
        Err(e) => Err(failure_of(e)),
    }
}

pub open spec fn repetition_outcome_of(r: Result<(Vec<StructuredBindings>, usize), MatchError>) -> RepetitionOutcome {
    match r {
        Ok((its, p)) => Ok((stores_view(its@), p as int)),
        Err(e) => Err(failure_of(e)),
    }
}

/// Tells whether `t` is the identifier `s`.
fn is_ident(t: &TokenTree, s: &String) -> (r: bool)
    ensures
        r == (token_view(*t) == TokV::Ident(s@)),
{
    match t {
        TokenTree::Ident(x) => x.eq(s),
        _ => false,
    }
}

/// Tells whether `t` is the literal `s`.
fn is_literal(t: &TokenTree, s: &String) -> (r: bool)
    ensures
        r == (token_view(*t) == TokV::Literal(s@)),
{
    match t {
        TokenTree::Literal(x) => x.eq(s),
        _ => false,
    }
}

/// Tells whether `t` is the punctuation run `s`.
pub(crate) fn is_punct(t: &TokenTree, s: &String) -> (r: bool)
    ensures
        r == (token_view(*t) == TokV::Punct(s@)),
{
    match t {
        TokenTree::Punct(x) => x.eq(s),
        _ => false,
    }
}

/// Matches `items[i..]` against `input` from `pos`.
pub(crate) fn match_seq<P: ParameterKind>(
    items: &Vec<PatternItem<P>>,
    i: usize,
    input: &Vec<TokenTree>,
    pos: usize,
    env: &mut IndexBindings,
) -> (r: Result<(StructuredBindings, usize), MatchError>)
    requires
        i <= items.len(),
        pos <= input.len(),
    ensures
        final(env).view() == old(env).view(),
        outcome_of(r) == match_from(items_view(items@), i as int, tokens_view(input@), pos as int, old(env).view()),
        r matches Ok((b, p)) ==> b.wf() && pos <= p <= input.len() && b.view().dom() == params_from(
            items_view(items@),
            i as int,
        ).to_set(),
    decreases items, 1int, items.len() - i,
{
    proof {
        lemma_items_view(items@);
    }
    if i >= items.len() {
        let b = StructuredBindings::new();
        proof {
            assert(params_from(items_view(items@), i as int).to_set() =~= Set::<Seq<char>>::empty());
        }
        return Ok((b, pos));
    }
    let (b1, p1) = match match_one(&items[i], input, pos, env) {
        Ok(x) => x,
        Err(e) => {
            return Err(e);
        },
    };
    let (mut b2, p2) = match match_seq(items, i + 1, input, p1, env) {
        Ok(x) => x,
        Err(e) => {
            return Err(e);
        },
    };
    let ghost v1 = b1.view();
    let ghost v2 = b2.view();
    match b2.merge(&b1) {
        Ok(()) => {
            proof {
                assert(v2.union_prefer_right(v1) =~= v1.union_prefer_right(v2));
                lemma_concat_to_set(
                    params_of(items_view(items@)[i as int]),
                    params_from(items_view(items@), i + 1),
                );
            }
            Ok((b2, p2))
        },
        Err(e) => {
            proof {
                assert(!agree(v1, v2));
            }
            Err(MatchError::BindingMismatch(e))
        },
    }
}

/// Matches one item against `input` from `pos`.
pub(crate) fn match_one<P: ParameterKind>(
    item: &PatternItem<P>,
    input: &Vec<TokenTree>,
    pos: usize,
    env: &mut IndexBindings,
) -> (r: Result<(StructuredBindings, usize), MatchError>)
    requires
        pos <= input.len(),
    ensures
        final(env).view() == old(env).view(),
        outcome_of(r) == match_item(item_view(*item), tokens_view(input@), pos as int, old(env).view()),
        r matches Ok((b, p)) ==> b.wf() && pos <= p <= input.len() && b.view().dom() == params_of(
            item_view(*item),
        ).to_set(),
    decreases item, 0int, 0int,
{
    proof {
        lemma_tokens_view(input@);
    }
    let ghost tv = tokens_view(input@);
    match item {
        PatternItem::Ident(s) => {
            if pos < input.len() && is_ident(&input[pos], s) {
                let b = StructuredBindings::new();
                proof {
                    assert(params_of(item_view(*item)).to_set() =~= Set::<Seq<char>>::empty());
                }
                return Ok((b, pos + 1));
            }
            Err(MatchError::Mismatch { at: pos })
        },
        PatternItem::Literal(s) => {
            if pos < input.len() && is_literal(&input[pos], s) {
                let b = StructuredBindings::new();
                proof {
                    assert(params_of(item_view(*item)).to_set() =~= Set::<Seq<char>>::empty());
                }
                return Ok((b, pos + 1));
            }
            Err(MatchError::Mismatch { at: pos })
        },
        PatternItem::Punct(s) => {
            if pos < input.len() && is_punct(&input[pos], s) {
                let b = StructuredBindings::new();
                proof {
                    assert(params_of(item_view(*item)).to_set() =~= Set::<Seq<char>>::empty());
                }
                return Ok((b, pos + 1));
            }
            Err(MatchError::Mismatch { at: pos })
        },
        PatternItem::Group(d, inner) => {
            if pos < input.len() {
                match &input[pos] {
                    TokenTree::Group(e, ts) => {
                        if *e == *d {
                            proof {
                                assert(tv[pos as int] == token_view(input@[pos as int]));
                                lemma_tokens_view(ts@);
                            }
                            let (b, p) = match match_seq(inner, 0, ts, 0, env) {
                                Ok(x) => x,
                                Err(err) => {
                                    return Err(err);
                                },
                            };
                            proof {
                                assert(tv[pos as int] == token_view(input@[pos as int]));
                            }
                            if p == ts.len() {
                                return Ok((b, pos + 1));
                            } else {
                                return Err(MatchError::TrailingInput { at: p });
                            }
                        }
                    },
                    _ => {},
                }
            }
            Err(MatchError::Mismatch { at: pos })
        },
        PatternItem::Parameter(n, f) => {
            match f.parse_binding(input, pos) {
                Some(q) => {
                    proof {
                        f.lemma_extent(tv, pos as int);
                    }
                    let v = copy_range(input, pos, q);
                    let mut b = StructuredBindings::new();
                    let res = b.add_value_binding(n.clone(), v);
                    proof {
                        assert(res is Ok);
                        let pv = params_of(item_view(*item));
                        assert(pv == seq![n@]);
                        assert(pv.to_set() =~= set![n@]) by {
                            assert(pv[0] == n@);
                            assert(pv.contains(pv[0]));
                        }
                        assert(b.view().dom() =~= params_of(item_view(*item)).to_set());
                    }
                    Ok((b, q))
                },
                None => Err(MatchError::Mismatch { at: pos }),
            }
        },
        PatternItem::Index(n) => {
            match env.get_index(n) {
                Err(e) => Err(MatchError::IndexNotFound(e)),
                Ok(k) => {
                    if pos < input.len() && is_literal(&input[pos], &usize_text(k)) {
                        let b = StructuredBindings::new();
                        proof {
                            assert(params_of(item_view(*item)).to_set() =~= Set::<Seq<char>>::empty());
                        }
                        return Ok((b, pos + 1));
                    }
                    Err(MatchError::Mismatch { at: pos })
                },
            }
        },
        PatternItem::Optional(inner) => {
            let names = referenced_parameters(inner);
            proof {
                assert forall|j: int| 0 <= j < names.len() implies names_view(names@).to_set().contains(
                    #[trigger] names@[j]@,
                ) by {
                    assert(names_view(names@)[j] == names@[j]@);
                }
            }
            match match_seq(inner, 0, input, pos, env) {
                Ok((b, p)) => {
                    let l = lift_optional_bindings(&names, Some(&b));
                    Ok((l, p))
                },
                Err(_) => {
                    let l = lift_optional_bindings(&names, None);
                    Ok((l, pos))
                },
            }
        },
        PatternItem::ZeroOrMore(idx, inner, sep) => {
            let names = referenced_parameters(inner);
            let (its, p) = match match_rep(false, idx, inner, sep, input, pos, env) {
                Ok(x) => x,
                Err(e) => {
                    return Err(e);
                },
            };
            proof {
                assert forall|k: int, j: int| 0 <= k < its.len() && 0 <= j < names.len() implies (
                #[trigger] its@[k]).view().contains_key(#[trigger] names@[j]@) by {
                    assert(names_view(names@)[j] == names@[j]@);
                    assert(names_view(names@).contains(names@[j]@));
                }
            }
            let l = lift_repetition_bindings(&names, &its, false);
            Ok((l, p))
        },
        PatternItem::OneOrMore(idx, inner, sep) => {
            let names = referenced_parameters(inner);
            let (its, p) = match match_rep(true, idx, inner, sep, input, pos, env) {
                Ok(x) => x,
                Err(e) => {
                    return Err(e);
                },
            };
            proof {
                assert forall|k: int, j: int| 0 <= k < its.len() && 0 <= j < names.len() implies (
                #[trigger] its@[k]).view().contains_key(#[trigger] names@[j]@) by {
                    assert(names_view(names@)[j] == names@[j]@);
                    assert(names_view(names@).contains(names@[j]@));
                }
            }
            let l = lift_repetition_bindings(&names, &its, true);
            Ok((l, p))
        },
    }
}

/// Matches the iterations of a repetition from `pos`.
pub(crate) fn match_rep<P: ParameterKind>(
    one: bool,
    idx: &Option<String>,
    inner: &Vec<PatternItem<P>>,
    sep: &Option<String>,
    input: &Vec<TokenTree>,
    pos: usize,
    env: &mut IndexBindings,
) -> (r: Result<(Vec<StructuredBindings>, usize), MatchError>)
    requires
        pos <= input.len(),
    ensures
        final(env).view() == old(env).view(),
        repetition_outcome_of(r) == match_repetition(
            one,
            opt_view(*idx),
            items_view(inner@),
            opt_view(*sep),
            tokens_view(input@),
            pos as int,
            old(env).view(),
            Seq::empty(),
        ),
        r matches Ok((its, p)) ==> pos <= p <= input.len() && forall|k: int|
            0 <= k < its.len() ==> (#[trigger] its@[k]).wf() && its@[k].view().dom() == refs(
                items_view(inner@),
            ),
    decreases inner, 2int, 0int,
{
    proof {
        lemma_tokens_view(input@);
    }
    let ghost env0 = env.view();
    let ghost iv = items_view(inner@);
    let ghost idxv = opt_view(*idx);
    let ghost sepv = opt_view(*sep);
    let ghost tv = tokens_view(input@);
    let ghost total = match_repetition(one, idxv, iv, sepv, tv, pos as int, env0, Seq::empty());
    match idx {
        Some(n) => env.push_scope(n.clone()),
        None => {},
    }
    let mut its: Vec<StructuredBindings> = Vec::new();
    let mut cur: usize = pos;
    proof {
        assert(stores_view(its@) =~= Seq::<BindingMap>::empty());
    }
    loop
        invariant_except_break
            total == match_repetition(one, idxv, iv, sepv, tv, cur as int, env0, stores_view(its@)),
            env.view() == with_index(env0, idxv, its.len() as nat),
            its.len() <= cur - pos,
        invariant
            pos <= cur <= input.len(),
            env0 == old(env).view(),
            total == match_repetition(one, idxv, iv, sepv, tv, pos as int, old(env).view(), Seq::empty()),
            iv == items_view(inner@),
            idxv == opt_view(*idx),
            sepv == opt_view(*sep),
            tv == tokens_view(input@),
            tv.len() == input.len(),
            forall|j: int| 0 <= j < input.len() ==> #[trigger] tv[j] == token_view(input@[j]),
            forall|k: int|
                0 <= k < its.len() ==> (#[trigger] its@[k]).wf() && its@[k].view().dom() == refs(iv),
        ensures
            total == Ok::<(Seq<BindingMap>, int), MatchFailure>((stores_view(its@), cur as int)),
            idx is Some ==> env.view().len() == env0.len() + 1 && env.view().drop_last() == env0,
            idx is None ==> env.view() == env0,
        decreases input.len() - cur,
    {
        let k = its.len();
        let mut start = cur;
        if k > 0 {
            match sep {
                Some(s) => {
                    if cur < input.len() && is_punct(&input[cur], s) {
                        start = cur + 1;
                    } else {
                        break;
                    }
                },
                None => {},
            }
        }
        match match_seq(inner, 0, input, start, env) {
            Err(e) => {
                if one && k == 0 {
                    proof {
                        assert(stores_view(its@) =~= Seq::<BindingMap>::empty());
                    }
                    if idx.is_some() {
                        env.pop_scope();
                        proof {
                            assert(env.view() =~= env0);
                        }
                    }
                    return Err(e);
                }
                break;
            },
            Ok((b, p)) => {
                let ghost acc = stores_view(its@);
                if cur < p {
                    its.push(b);
                    cur = p;
                    proof {
                        assert(stores_view(its@) =~= acc.push(b.view()));
                    }
                    if idx.is_some() {
                        env.increment();
                        proof {
                            assert(env.view() =~= with_index(env0, idxv, its.len() as nat));
                        }
                    }
                } else if one && k == 0 {
                    its.push(b);
                    cur = p;
                    proof {
                        assert(stores_view(its@) =~= acc.push(b.view()));
                    }
                    break;
                } else {
                    break;
                }
            },
        }
    }
    if idx.is_some() {
        env.pop_scope();
    }
    Ok((its, cur))
}

} // verus!
