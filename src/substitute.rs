//! The substituter: renders a pattern with structured bindings into
//! concrete tokens.

use vstd::prelude::*;
use crate::token::{
    TokenTree, TokV, tokens_view, lemma_tokens_view, lemma_tokens_view_concat, copy_tokens, decimal,
    index_literal,
};
use crate::item::{ParameterKind, PatternItem, ItemV, item_view, items_view, lemma_items_view, opt_view, params_from, referenced_parameters, dedup_first};
use crate::binding::{BindV, StructuredBindingType, kind_of};
use crate::store::{
    StructuredBindings, BindingMap, ParameterBindingNotFound, StructuredBindingLookupError,
    first_missing, first_not_of, first_shorter, iteration_count,
    iteration_map, unwrap_optional, some_absent, elems, lemma_iteration_count, lemma_first_not_of_none,
};
use crate::index::{IndexBindings, IndexEnv, env_get, with_index};

verus! {

/// A repetition whose iteration count differs from the count bound to its
/// index name.
#[derive(Debug)]
pub struct RepetitionLenMismatch {
    pub ident: String,
    pub found: usize,
    pub expected: usize,
}

impl RepetitionLenMismatch {
    pub fn new(ident: String, found: usize, expected: usize) -> (r: RepetitionLenMismatch)
        ensures
            r.ident == ident,
            r.found == found,
            r.expected == expected,
    {
        RepetitionLenMismatch { ident, found, expected }
    }
}

/// A bound value that does not render as a value of its parameter's kind.
#[derive(Debug)]
pub struct TokenizeError {
    pub parameter: String,
}

/// Why substitution failed.
#[derive(Debug)]
pub enum SubstitutionError {
    /// A binding is missing or has the wrong shape.
    Lookup(StructuredBindingLookupError),
    /// A repetition's count disagrees with its index's bound count.
    LenMismatch(RepetitionLenMismatch),
    /// A value does not render as a value of its parameter's kind.
    Tokenize(TokenizeError),
    /// An index reference names no enclosing repetition index.
    IndexLookup(ParameterBindingNotFound),
}

/// The mathematical value of a substitution error.
pub enum SubstFailure {
    NotFound(Seq<char>),
    TypeMismatch(Seq<char>, StructuredBindingType, StructuredBindingType),
    LenMismatch(Seq<char>, nat, nat),
    Tokenize(Seq<char>),
    IndexNotFound(Seq<char>),
}

pub open spec fn subst_failure_of(e: SubstitutionError) -> SubstFailure {
    match e {
        SubstitutionError::Lookup(StructuredBindingLookupError::NotFound(x)) => SubstFailure::NotFound(
            x.parameter@,
        ),
        SubstitutionError::Lookup(StructuredBindingLookupError::TypeMismatch(x)) => SubstFailure::TypeMismatch(
            x.parameter@,
            x.found,
            x.expected,
        ),
        SubstitutionError::LenMismatch(x) => SubstFailure::LenMismatch(
            x.ident@,
            x.found as nat,
            x.expected as nat,
        ),
        SubstitutionError::Tokenize(x) => SubstFailure::Tokenize(x.parameter@),
        SubstitutionError::IndexLookup(x) => SubstFailure::IndexNotFound(x.parameter@),
    }
}

pub type SubstOutcome = Result<Seq<TokV>, SubstFailure>;

pub open spec fn subst_outcome_of(r: Result<Vec<TokenTree>, SubstitutionError>) -> SubstOutcome {
    match r {
        Ok(v) => Ok(tokens_view(v@)),
        Err(e) => Err(subst_failure_of(e)),
    }
}

/// Renders `items[i..]` with the bindings `m`.
pub open spec fn subst_from<P: ParameterKind>(items: Seq<ItemV<P>>, i: int, m: BindingMap, env: IndexEnv) -> SubstOutcome
    decreases items, 1int, items.len() - i,
{
    if i < 0 || i >= items.len() {
        Ok(Seq::empty())
    } else {
        match subst_item(items[i], m, env) {
            Err(e) => Err(e),
            Ok(a) => match subst_from(items, i + 1, m, env) {
                Err(e) => Err(e),
                Ok(b) => Ok(a + b),
            },
        }
    }
}

/// Renders one item with the bindings `m`.
pub open spec fn subst_item<P: ParameterKind>(item: ItemV<P>, m: BindingMap, env: IndexEnv) -> SubstOutcome
    decreases item, 0int, 0int,
{
    match item {
        ItemV::Ident(s) => Ok(seq![TokV::Ident(s)]),
        ItemV::Literal(s) => Ok(seq![TokV::Literal(s)]),
        ItemV::Punct(s) => Ok(seq![TokV::Punct(s)]),
        ItemV::Group(d, inner) => match subst_from(inner, 0, m, env) {
            Err(e) => Err(e),
            Ok(ts) => Ok(seq![TokV::Group(d, ts)]),
        },
        ItemV::Parameter(n, f) => if !m.contains_key(n) {
            Err(SubstFailure::NotFound(n))
        } else {
            match m[n] {
                BindV::Value(ts) => if f.renders(ts) {
                    Ok(ts)
                } else {
                    Err(SubstFailure::Tokenize(n))
                },
                other => Err(
                    SubstFailure::TypeMismatch(n, kind_of(other), StructuredBindingType::Value),
                ),
            }
        },
        ItemV::Index(n) => match env_get(env, n) {
            None => Err(SubstFailure::IndexNotFound(n)),
            Some(k) => Ok(seq![TokV::Literal(decimal(k))]),
        },
        ItemV::Optional(inner) => subst_optional(inner, m, env),
        ItemV::ZeroOrMore(idx, inner, sep) => subst_repetition(false, idx, inner, sep, m, env),
        ItemV::OneOrMore(idx, inner, sep) => subst_repetition(true, idx, inner, sep, m, env),
    }
}

/// Renders an optional block: nothing when some name is bound to an
/// absent block, else the block with the bindings inside it.
pub open spec fn subst_optional<P: ParameterKind>(inner: Seq<ItemV<P>>, m: BindingMap, env: IndexEnv) -> SubstOutcome
    decreases inner, 3int, 0int,
{
    let ns = dedup_first(params_from(inner, 0));
    match first_missing(ns, m) {
        Some(n) => Err(SubstFailure::NotFound(n)),
        None => {
            let p = m.restrict(ns.to_set());
            match first_not_of(ns, p, StructuredBindingType::Optional) {
                Some(n) => Err(
                    SubstFailure::TypeMismatch(n, kind_of(p[n]), StructuredBindingType::Optional),
                ),
                None => if some_absent(p) {
                    Ok(Seq::empty())
                } else {
                    subst_from(inner, 0, unwrap_optional(p), env)
                },
            }
        },
    }
}

/// The shape of the bindings of a repetition.
pub open spec fn list_type(one: bool) -> StructuredBindingType {
    if one {
        StructuredBindingType::OneOrMore
    } else {
        StructuredBindingType::ZeroOrMore
    }
}

/// Renders a repetition: one rendering of the inner pattern per position
/// of the bound lists, as many as the shortest list allows, with the
/// separator between two of them. Where the index name is also bound to
/// an `Index` count, that count must equal the number of iterations.
pub open spec fn subst_repetition<P: ParameterKind>(
    one: bool,
    idx: Option<Seq<char>>,
    inner: Seq<ItemV<P>>,
    sep: Option<Seq<char>>,
    m: BindingMap,
    env: IndexEnv,
) -> SubstOutcome
    decreases inner, 3int, 0int,
{
    let ns = dedup_first(params_from(inner, 0));
    match first_missing(ns, m) {
        Some(n) => Err(SubstFailure::NotFound(n)),
        None => {
            let p = m.restrict(ns.to_set());
            match first_not_of(ns, p, list_type(one)) {
                Some(n) => Err(SubstFailure::TypeMismatch(n, kind_of(p[n]), list_type(one))),
                None => if one && first_shorter(ns, p, 0) is Some {
                    Err(SubstFailure::NotFound(first_shorter(ns, p, 0)->Some_0))
                } else {
                    let c = iteration_count(ns, p);
                    match subst_iterations(idx, inner, sep, p, env, 0, c) {
                        Err(e) => Err(e),
                        Ok(out) => match idx {
                            None => Ok(out),
                            Some(i) => if m.contains_key(i) && m[i] is Index && m[i]->Index_0 != c {
                                Err(SubstFailure::LenMismatch(i, c, m[i]->Index_0))
                            } else {
                                Ok(out)
                            },
                        },
                    }
                },
            }
        },
    }
}

/// Renders iterations `k..c` of a repetition.
pub open spec fn subst_iterations<P: ParameterKind>(
    idx: Option<Seq<char>>,
    inner: Seq<ItemV<P>>,
    sep: Option<Seq<char>>,
    p: BindingMap,
    env: IndexEnv,
    k: nat,
    c: nat,
) -> SubstOutcome
    decreases inner, 2int, c - k,
{
    if k >= c {
        Ok(Seq::empty())
    } else {
        match subst_from(inner, 0, iteration_map(p, k as int), with_index(env, idx, k)) {
            Err(e) => Err(e),
            Ok(a) => match subst_iterations(idx, inner, sep, p, env, k + 1, c) {
                Err(e) => Err(e),
                Ok(rest) => Ok(
                    a + (if k + 1 < c && sep is Some {
                        seq![TokV::Punct(sep->Some_0)]
                    } else {
                        Seq::empty()
                    }) + rest,
                ),
            },
        }
    }
}

/// Prefixes the tokens `a` to a successful outcome.
pub open spec fn prefixed(a: Seq<TokV>, r: SubstOutcome) -> SubstOutcome {
    match r {
        Ok(b) => Ok(a + b),
        Err(e) => Err(e),
    }
}

/// Renders `items[i..]` with `bindings`.
pub(crate) fn subst_seq<P: ParameterKind>(
    items: &Vec<PatternItem<P>>,
    i: usize,
    bindings: &StructuredBindings,
    env: &mut IndexBindings,
) -> (r: Result<Vec<TokenTree>, SubstitutionError>)
    requires
        i <= items.len(),
        bindings.wf(),
    ensures
        final(env).view() == old(env).view(),
        subst_outcome_of(r) == subst_from(items_view(items@), i as int, bindings.view(), old(env).view()),
    decreases items, 1int, items.len() - i,
{
    proof {
        lemma_items_view(items@);
    }
    if i >= items.len() {
        let v: Vec<TokenTree> = Vec::new();
        proof {
            assert(tokens_view(v@) =~= Seq::<TokV>::empty());
        }
        return Ok(v);
    }
    let mut a = match subst_one(&items[i], bindings, env) {
        Ok(x) => x,
        Err(e) => {
            return Err(e);
        },
    };
    let mut b = match subst_seq(items, i + 1, bindings, env) {
        Ok(x) => x,
        Err(e) => {
            return Err(e);
        },
    };
    let ghost av = a@;
    let ghost bv = b@;
    a.append(&mut b);
    proof {
        lemma_tokens_view_concat(av, bv);
    }
    Ok(a)
}

/// Renders one item with `bindings`.
pub(crate) fn subst_one<P: ParameterKind>(item: &PatternItem<P>, bindings: &StructuredBindings, env: &mut IndexBindings) -> (r: Result<
    Vec<TokenTree>,
    SubstitutionError,
>)
    requires
        bindings.wf(),
    ensures
        final(env).view() == old(env).view(),
        subst_outcome_of(r) == subst_item(item_view(*item), bindings.view(), old(env).view()),
    decreases item, 0int, 0int,
{
    match item {
        PatternItem::Ident(s) => {
            let v = vec![TokenTree::Ident(s.clone())];
            proof {
                lemma_tokens_view(v@);
                assert(tokens_view(v@) =~= seq![TokV::Ident(s@)]);
            }
            Ok(v)
        },
        PatternItem::Literal(s) => {
            let v = vec![TokenTree::Literal(s.clone())];
            proof {
                lemma_tokens_view(v@);
                assert(tokens_view(v@) =~= seq![TokV::Literal(s@)]);
            }
            Ok(v)
        },
        PatternItem::Punct(s) => {
            let v = vec![TokenTree::Punct(s.clone())];
            proof {
                lemma_tokens_view(v@);
                assert(tokens_view(v@) =~= seq![TokV::Punct(s@)]);
            }
            Ok(v)
        },
        PatternItem::Group(d, inner) => {
            let ts = match subst_seq(inner, 0, bindings, env) {
                Ok(x) => x,
                Err(e) => {
                    return Err(e);
                },
            };
            let v = vec![TokenTree::Group(*d, ts)];
            proof {
                lemma_tokens_view(v@);
                assert(tokens_view(v@) =~= seq![TokV::Group(*d, tokens_view(ts@))]);
            }
            Ok(v)
        },
        PatternItem::Parameter(n, f) => {
            match bindings.get_value(n) {
                Err(e) => Err(SubstitutionError::Lookup(e)),
                Ok(v) => {
                    if f.tokenize_binding(v) {
                        Ok(copy_tokens(v))
                    } else {
                        Err(SubstitutionError::Tokenize(TokenizeError { parameter: n.clone() }))
                    }
                },
            }
        },
        PatternItem::Index(n) => {
            match env.get_index(n) {
                Err(e) => Err(SubstitutionError::IndexLookup(e)),
                Ok(k) => {
                    let v = vec![index_literal(k)];
                    proof {
                        lemma_tokens_view(v@);
                        assert(tokens_view(v@) =~= seq![TokV::Literal(decimal(k as nat))]);
                    }
                    Ok(v)
                },
            }
        },
        PatternItem::Optional(inner) => subst_opt(inner, bindings, env),
        PatternItem::ZeroOrMore(idx, inner, sep) => subst_rep(false, idx, inner, sep, bindings, env),
        PatternItem::OneOrMore(idx, inner, sep) => subst_rep(true, idx, inner, sep, bindings, env),
    }
}

/// Renders an optional block.
fn subst_opt<P: ParameterKind>(inner: &Vec<PatternItem<P>>, bindings: &StructuredBindings, env: &mut IndexBindings) -> (r: Result<
    Vec<TokenTree>,
    SubstitutionError,
>)
    requires
        bindings.wf(),
    ensures
        final(env).view() == old(env).view(),
        subst_outcome_of(r) == subst_optional(items_view(inner@), bindings.view(), old(env).view()),
    decreases inner, 3int, 0int,
{
    let names = referenced_parameters(inner);
    let p = match bindings.project(&names) {
        Ok(p) => p,
        Err(e) => {
            return Err(SubstitutionError::Lookup(StructuredBindingLookupError::NotFound(e)));
        },
    };
    match p.check_shapes(StructuredBindingType::Optional) {
        Ok(()) => {},
        Err(e) => {
            return Err(SubstitutionError::Lookup(StructuredBindingLookupError::TypeMismatch(e)));
        },
    }
    proof {
        assert forall|n: Seq<char>| #[trigger] p.view().contains_key(n) implies p.view()[n] is Optional by {
            assert(p.keys().to_set().contains(n));
            let j = choose|j: int| 0 <= j < p.keys().len() && p.keys()[j] == n;
            lemma_first_not_of_none(p.keys(), p.view(), StructuredBindingType::Optional, j);
        }
    }
    match p.unwrap_optionals() {
        None => {
            let v: Vec<TokenTree> = Vec::new();
            proof {
                assert(tokens_view(v@) =~= Seq::<TokV>::empty());
            }
            Ok(v)
        },
        Some(q) => subst_seq(inner, 0, &q, env),
    }
}

/// Renders a repetition.
fn subst_rep<P: ParameterKind>(
    one: bool,
    idx: &Option<String>,
    inner: &Vec<PatternItem<P>>,
    sep: &Option<String>,
    bindings: &StructuredBindings,
    env: &mut IndexBindings,
) -> (r: Result<Vec<TokenTree>, SubstitutionError>)
    requires
        bindings.wf(),
    ensures
        final(env).view() == old(env).view(),
        subst_outcome_of(r) == subst_repetition(
            one,
            opt_view(*idx),
            items_view(inner@),
            opt_view(*sep),
            bindings.view(),
            old(env).view(),
        ),
    decreases inner, 3int, 0int,
{
    let ghost iv = items_view(inner@);
    let ghost idxv = opt_view(*idx);
    let ghost sepv = opt_view(*sep);
    let ghost env0 = env.view();
    let names = referenced_parameters(inner);
    let p = match bindings.project(&names) {
        Ok(p) => p,
        Err(e) => {
            return Err(SubstitutionError::Lookup(StructuredBindingLookupError::NotFound(e)));
        },
    };
    let t = if one {
        StructuredBindingType::OneOrMore
    } else {
        StructuredBindingType::ZeroOrMore
    };
    let c = match p.list_count(t) {
        Ok(c) => c,
        Err(e) => {
            return Err(SubstitutionError::Lookup(StructuredBindingLookupError::TypeMismatch(e)));
        },
    };
    if one {
        match p.first_empty_list() {
            Some(n) => {
                return Err(
                    SubstitutionError::Lookup(
                        StructuredBindingLookupError::NotFound(ParameterBindingNotFound { parameter: n }),
                    ),
                );
            },
            None => {},
        }
    }
    let ghost pv = p.view();
    proof {
        assert(t == list_type(one));
    }
    let ghost total = subst_iterations(idxv, iv, sepv, pv, env0, 0, c as nat);
    match idx {
        Some(n) => env.push_scope(n.clone()),
        None => {},
    }
    let mut out: Vec<TokenTree> = Vec::new();
    proof {
        assert(tokens_view(out@) =~= Seq::<TokV>::empty());
        assert(prefixed(Seq::empty(), total) == total);
    }
    let mut k: usize = 0;
    while k < c
        invariant
            p.wf(),
            pv == p.view(),
            iv == items_view(inner@),
            idxv == opt_view(*idx),
            sepv == opt_view(*sep),
            env0 == old(env).view(),
            c == iteration_count(p.keys(), pv),
            k <= c,
            env.view() == with_index(env0, idxv, k as nat),
            total == subst_iterations(idxv, iv, sepv, pv, env0, 0, c as nat),
            bindings.wf(),
            p.keys() == dedup_first(params_from(iv, 0)),
            pv == bindings.view().restrict(p.keys().to_set()),
            first_missing(p.keys(), bindings.view()) is None,
            first_not_of(p.keys(), pv, list_type(one)) is None,
            one ==> first_shorter(p.keys(), pv, 0) is None,
            total == prefixed(tokens_view(out@), subst_iterations(idxv, iv, sepv, pv, env0, k as nat, c as nat)),
        decreases c - k,
    {
        proof {
            assert forall|n: Seq<char>| #[trigger] pv.contains_key(n) implies k < elems(pv[n]).len() by {
                assert(p.keys().to_set().contains(n));
                let j = choose|j: int| 0 <= j < p.keys().len() && p.keys()[j] == n;
                lemma_iteration_count(p.keys(), pv, j);
            }
        }
        let q = p.iteration_view(k);
        let mut a = match subst_seq(inner, 0, &q, env) {
            Ok(x) => x,
            Err(e) => {
                proof {
                    assert(subst_iterations(idxv, iv, sepv, pv, env0, k as nat, c as nat) == Err::<Seq<TokV>, SubstFailure>(subst_failure_of(e)));
                    assert(total == Err::<Seq<TokV>, SubstFailure>(subst_failure_of(e)));
                }
                if idx.is_some() {
                    env.pop_scope();
                    proof {
                        assert(env.view() =~= env0);
                    }
                }
                return Err(e);
            },
        };
        let ghost ov = tokens_view(out@);
        let ghost av = tokens_view(a@);
        let ghost o0 = out@;
        let ghost a0 = a@;
        out.append(&mut a);
        proof {
            lemma_tokens_view_concat(o0, a0);
        }
        if k + 1 < c {
            match sep {
                Some(s) => {
                    let ghost o1 = out@;
                    let tok = TokenTree::Punct(s.clone());
                    out.push(tok);
                    proof {
                        lemma_tokens_view_concat(o1, seq![tok]);
                        assert(out@ == o1 + seq![tok]);
                        lemma_tokens_view(seq![tok]);
                    }
                },
                None => {},
            }
        }
        proof {
            let sepseq = if k + 1 < c && sepv is Some {
                seq![TokV::Punct(sepv->Some_0)]
            } else {
                Seq::<TokV>::empty()
            };
            assert(tokens_view(out@) =~= ov + av + sepseq);
            let rest = subst_iterations(idxv, iv, sepv, pv, env0, (k + 1) as nat, c as nat);
            match rest {
                Ok(rs) => {
                    assert(ov + (av + sepseq + rs) =~= tokens_view(out@) + rs);
                },
                Err(_) => {},
            }
        }
        if idx.is_some() {
            env.increment();
        }
        k = k + 1;
        proof {
            assert(env.view() =~= with_index(env0, idxv, k as nat));
        }
    }
    if idx.is_some() {
        env.pop_scope();
        proof {
            assert(env.view() =~= env0);
        }
    }
    proof {
        assert(tokens_view(out@) + Seq::<TokV>::empty() =~= tokens_view(out@));
    }
    match idx {
        Some(i) => {
            match bindings.get_index_len(i) {
                Err(_) => {},
                Ok(None) => {},
                Ok(Some(x)) => {
                    if x != c {
                        return Err(
                            SubstitutionError::LenMismatch(
                                RepetitionLenMismatch { ident: i.clone(), found: c, expected: x },
                            ),
                        );
                    }
                },
            }
        },
        None => {},
    }
    Ok(out)
}

} // verus!
