//! The specializer: substitutes the bindings that are given and keeps the
//! rest of the pattern, giving a new pattern.

use vstd::prelude::*;
use crate::token::{decimal, usize_text};
use crate::item::{ParameterKind, PatternItem, ItemV, item_view, items_view, lemma_items_view, opt_view, params_from, referenced_parameters, dedup_first, copy_item, lemma_items_view_concat};
use crate::binding::{BindV, StructuredBindingType, kind_of};
use crate::store::{
    StructuredBindings, BindingMap, ParameterBindingNotFound, StructuredBindingLookupError,
    first_missing, first_not_of, first_shorter, iteration_count, iteration_map, unwrap_optional, some_absent,
    elems, lemma_iteration_count, lemma_first_not_of_none,
};
use crate::index::{IndexBindings, IndexEnv, env_get, with_index};
use crate::parser::{SyntaxError, parse_from, parse_items};
use crate::substitute::{RepetitionLenMismatch, TokenizeError, list_type};

verus! {

/// Why specialization failed.
#[derive(Debug)]
pub enum SpecializationError {
    /// A binding has the wrong shape, or a one-or-more list is empty.
    Lookup(StructuredBindingLookupError),
    /// A repetition's count disagrees with its index's bound count.
    LenMismatch(RepetitionLenMismatch),
    /// A value does not render as a value of its parameter's kind.
    Tokenize(TokenizeError),
    /// A substituted value does not parse as pattern items.
    Parse(SyntaxError),
    /// The specialized items break a schema rule (possible only where a
    /// substituted value holds pattern syntax).
    Schema(crate::pattern::PatternError),
}

/// The mathematical value of a specialization error.
pub enum SpecFailure {
    NotFound(Seq<char>),
    TypeMismatch(Seq<char>, StructuredBindingType, StructuredBindingType),
    LenMismatch(Seq<char>, nat, nat),
    Tokenize(Seq<char>),
    Parse(Seq<int>),
    Schema,
}

pub open spec fn spec_failure_of(e: SpecializationError) -> SpecFailure {
    match e {
        SpecializationError::Lookup(StructuredBindingLookupError::NotFound(x)) => SpecFailure::NotFound(
            x.parameter@,
        ),
        SpecializationError::Lookup(StructuredBindingLookupError::TypeMismatch(x)) => SpecFailure::TypeMismatch(
            x.parameter@,
            x.found,
            x.expected,
        ),
        SpecializationError::LenMismatch(x) => SpecFailure::LenMismatch(
            x.ident@,
            x.found as nat,
            x.expected as nat,
        ),
        SpecializationError::Tokenize(x) => SpecFailure::Tokenize(x.parameter@),
        SpecializationError::Parse(x) => SpecFailure::Parse(crate::parser::positions(x.path@)),
        SpecializationError::Schema(_) => SpecFailure::Schema,
    }
}

pub type SpecOutcome<P> = Result<Seq<ItemV<P>>, SpecFailure>;

pub open spec fn spec_outcome_of<P: ParameterKind>(r: Result<Vec<PatternItem<P>>, SpecializationError>) -> SpecOutcome<P> {
    match r {
        Ok(v) => Ok(items_view(v@)),
        Err(e) => Err(spec_failure_of(e)),
    }
}

/// Prefixes the items `a` to a successful outcome.
pub open spec fn prefixed_spec<P: ParameterKind>(a: Seq<ItemV<P>>, r: SpecOutcome<P>) -> SpecOutcome<P> {
    match r {
        Ok(b) => Ok(a + b),
        Err(e) => Err(e),
    }
}

/// Specializes `items[i..]` with the bindings `m`.
pub open spec fn specialize_from<P: ParameterKind>(items: Seq<ItemV<P>>, i: int, m: BindingMap, env: IndexEnv) -> SpecOutcome<P>
    decreases items, 1int, items.len() - i,
{
    if i < 0 || i >= items.len() {
        Ok(Seq::empty())
    } else {
        match specialize_item(items[i], m, env) {
            Err(e) => Err(e),
            Ok(a) => match specialize_from(items, i + 1, m, env) {
                Err(e) => Err(e),
                Ok(b) => Ok(a + b),
            },
        }
    }
}

/// Specializes one item: a bound parameter becomes the items that its
/// value parses to, an unbound one stays; an index of a repetition being
/// unrolled becomes its literal; a construct whose names are all bound is
/// unrolled, one with an unbound name stays as it is.
pub open spec fn specialize_item<P: ParameterKind>(item: ItemV<P>, m: BindingMap, env: IndexEnv) -> SpecOutcome<P>
    decreases item, 0int, 0int,
{
    match item {
        ItemV::Group(d, inner) => match specialize_from(inner, 0, m, env) {
            Err(e) => Err(e),
            Ok(ts) => Ok(seq![ItemV::Group(d, ts)]),
        },
        ItemV::Parameter(n, f) => if !m.contains_key(n) {
            Ok(seq![item])
        } else {
            match m[n] {
                BindV::Value(ts) => if f.renders(ts) {
                    match parse_from::<P>(ts, 0) {
                        Ok(its) => Ok(its),
                        Err(at) => Err(SpecFailure::Parse(at)),
                    }
                } else {
                    Err(SpecFailure::Tokenize(n))
                },
                other => Err(SpecFailure::TypeMismatch(n, kind_of(other), StructuredBindingType::Value)),
            }
        },
        ItemV::Index(n) => match env_get(env, n) {
            None => Ok(seq![item]),
            Some(k) => Ok(seq![ItemV::Literal(decimal(k))]),
        },
        ItemV::Optional(inner) => specialize_optional(item, inner, m, env),
        ItemV::ZeroOrMore(idx, inner, sep) => specialize_repetition(item, false, idx, inner, sep, m, env),
        ItemV::OneOrMore(idx, inner, sep) => specialize_repetition(item, true, idx, inner, sep, m, env),
        _ => Ok(seq![item]),
    }
}

/// Specializes an optional block.
pub open spec fn specialize_optional<P: ParameterKind>(item: ItemV<P>, inner: Seq<ItemV<P>>, m: BindingMap, env: IndexEnv) -> SpecOutcome<P>
    decreases inner, 3int, 0int,
{
    let ns = dedup_first(params_from(inner, 0));
    if first_missing(ns, m) is Some {
        Ok(seq![item])
    } else {
        let p = m.restrict(ns.to_set());
        match first_not_of(ns, p, StructuredBindingType::Optional) {
            Some(n) => Err(SpecFailure::TypeMismatch(n, kind_of(p[n]), StructuredBindingType::Optional)),
            None => if some_absent(p) {
                Ok(Seq::empty())
            } else {
                specialize_from(inner, 0, unwrap_optional(p), env)
            },
        }
    }
}

/// Specializes a repetition.
pub open spec fn specialize_repetition<P: ParameterKind>(
    item: ItemV<P>,
    one: bool,
    idx: Option<Seq<char>>,
    inner: Seq<ItemV<P>>,
    sep: Option<Seq<char>>,
    m: BindingMap,
    env: IndexEnv,
) -> SpecOutcome<P>
    decreases inner, 3int, 0int,
{
    let ns = dedup_first(params_from(inner, 0));
    if first_missing(ns, m) is Some {
        Ok(seq![item])
    } else {
        let p = m.restrict(ns.to_set());
        match first_not_of(ns, p, list_type(one)) {
            Some(n) => Err(SpecFailure::TypeMismatch(n, kind_of(p[n]), list_type(one))),
            None => if one && first_shorter(ns, p, 0) is Some {
                Err(SpecFailure::NotFound(first_shorter(ns, p, 0)->Some_0))
            } else {
                let c = iteration_count(ns, p);
                match specialize_iterations(idx, inner, sep, p, env, 0, c) {
                    Err(e) => Err(e),
                    Ok(out) => match idx {
                        None => Ok(out),
                        Some(i) => if m.contains_key(i) && m[i] is Index && m[i]->Index_0 != c {
                            Err(SpecFailure::LenMismatch(i, c, m[i]->Index_0))
                        } else {
                            Ok(out)
                        },
                    },
                }
            },
        }
    }
}

/// Specializes iterations `k..c` of a repetition being unrolled.
pub open spec fn specialize_iterations<P: ParameterKind>(
    idx: Option<Seq<char>>,
    inner: Seq<ItemV<P>>,
    sep: Option<Seq<char>>,
    p: BindingMap,
    env: IndexEnv,
    k: nat,
    c: nat,
) -> SpecOutcome<P>
    decreases inner, 2int, c - k,
{
    if k >= c {
        Ok(Seq::empty())
    } else {
        match specialize_from(inner, 0, iteration_map(p, k as int), with_index(env, idx, k)) {
            Err(e) => Err(e),
            Ok(a) => match specialize_iterations(idx, inner, sep, p, env, k + 1, c) {
                Err(e) => Err(e),
                Ok(rest) => Ok(
                    a + (if k + 1 < c && sep is Some {
                        seq![ItemV::Punct(sep->Some_0)]
                    } else {
                        Seq::empty()
                    }) + rest,
                ),
            },
        }
    }
}

/// Specializes `items[i..]` with `bindings`.
pub(crate) fn spec_seq<P: ParameterKind>(
    items: &Vec<PatternItem<P>>,
    i: usize,
    bindings: &StructuredBindings,
    env: &mut IndexBindings,
) -> (r: Result<Vec<PatternItem<P>>, SpecializationError>)
    requires
        i <= items.len(),
        bindings.wf(),
    ensures
        final(env).view() == old(env).view(),
        spec_outcome_of(r) == specialize_from(items_view(items@), i as int, bindings.view(), old(env).view()),
        r matches Err(e) ==> !(e is Schema),
    decreases items, 1int, items.len() - i,
{
    proof {
        lemma_items_view(items@);
    }
    if i >= items.len() {
        let v: Vec<PatternItem<P>> = Vec::new();
        proof {
            assert(items_view(v@) =~= Seq::<ItemV<P>>::empty());
        }
        return Ok(v);
    }
    let mut a = match spec_one(&items[i], bindings, env) {
        Ok(x) => x,
        Err(e) => {
            return Err(e);
        },
    };
    let mut b = match spec_seq(items, i + 1, bindings, env) {
        Ok(x) => x,
        Err(e) => {
            return Err(e);
        },
    };
    let ghost av = a@;
    let ghost bv = b@;
    a.append(&mut b);
    proof {
        lemma_items_view_concat(av, bv);
    }
    Ok(a)
}

/// A pattern holding one item.
fn single<P: ParameterKind>(item: PatternItem<P>) -> (r: Vec<PatternItem<P>>)
    ensures
        items_view(r@) == seq![item_view(item)],
{
    let v = vec![item];
    proof {
        lemma_items_view(v@);
        assert(items_view(v@) =~= seq![item_view(item)]);
    }
    v
}

/// Specializes one item with `bindings`.
pub(crate) fn spec_one<P: ParameterKind>(item: &PatternItem<P>, bindings: &StructuredBindings, env: &mut IndexBindings) -> (r: Result<
    Vec<PatternItem<P>>,
    SpecializationError,
>)
    requires
        bindings.wf(),
    ensures
        final(env).view() == old(env).view(),
        spec_outcome_of(r) == specialize_item(item_view(*item), bindings.view(), old(env).view()),
        r matches Err(e) ==> !(e is Schema),
    decreases item, 0int, 0int,
{
    match item {
        PatternItem::Group(d, inner) => {
            let ts = match spec_seq(inner, 0, bindings, env) {
                Ok(x) => x,
                Err(e) => {
                    return Err(e);
                },
            };
            Ok(single(PatternItem::Group(*d, ts)))
        },
        PatternItem::Parameter(n, f) => {
            match bindings.get_maybe_value(n) {
                Err(e) => Err(SpecializationError::Lookup(StructuredBindingLookupError::TypeMismatch(e))),
                Ok(None) => Ok(single(copy_item(item))),
                Ok(Some(v)) => {
                    if f.tokenize_binding(v) {
                        match parse_items(v) {
                            Ok(its) => Ok(its),
                            Err(e) => Err(SpecializationError::Parse(e)),
                        }
                    } else {
                        Err(SpecializationError::Tokenize(TokenizeError { parameter: n.clone() }))
                    }
                },
            }
        },
        PatternItem::Index(n) => {
            match env.get_maybe_index(n) {
                None => Ok(single(copy_item(item))),
                Some(k) => Ok(single(PatternItem::Literal(usize_text(k)))),
            }
        },
        PatternItem::Optional(inner) => spec_opt(item, inner, bindings, env),
        PatternItem::ZeroOrMore(idx, inner, sep) => spec_rep(item, false, idx, inner, sep, bindings, env),
        PatternItem::OneOrMore(idx, inner, sep) => spec_rep(item, true, idx, inner, sep, bindings, env),
        _ => Ok(single(copy_item(item))),
    }
}

/// Specializes an optional block.
fn spec_opt<P: ParameterKind>(item: &PatternItem<P>, inner: &Vec<PatternItem<P>>, bindings: &StructuredBindings, env: &mut IndexBindings) -> (r: Result<
    Vec<PatternItem<P>>,
    SpecializationError,
>)
    requires
        bindings.wf(),
        item_view(*item) == ItemV::Optional(items_view(inner@)),
    ensures
        final(env).view() == old(env).view(),
        spec_outcome_of(r) == specialize_optional(item_view(*item), items_view(inner@), bindings.view(), old(env).view()),
        r matches Err(e) ==> !(e is Schema),
    decreases inner, 3int, 0int,
{
    let names = referenced_parameters(inner);
    let p = match bindings.project(&names) {
        Ok(p) => p,
        Err(_) => {
            return Ok(single(copy_item(item)));
        },
    };
    match p.check_shapes(StructuredBindingType::Optional) {
        Ok(()) => {},
        Err(e) => {
            return Err(SpecializationError::Lookup(StructuredBindingLookupError::TypeMismatch(e)));
        },
    }
    proof {
        assert forall|n: Seq<char>| #[trigger] p.view().contains_key(n) implies p.view()[n] is Optional by {
            assert(p.keys().to_set().contains(n));
            let j = choose|j: int| 0 <= j < p.keys().len() && p.keys()[j] == n;
            lemma_first_not_of_none(p.keys(), p.view(), StructuredBindingType::Optional, j);
        }
    }
    match p.unwrap_optionals() {
        None => {
            let v: Vec<PatternItem<P>> = Vec::new();
            proof {
                assert(items_view(v@) =~= Seq::<ItemV<P>>::empty());
            }
            Ok(v)
        },
        Some(q) => spec_seq(inner, 0, &q, env),
    }
}

/// Specializes a repetition.
fn spec_rep<P: ParameterKind>(
    item: &PatternItem<P>,
    one: bool,
    idx: &Option<String>,
    inner: &Vec<PatternItem<P>>,
    sep: &Option<String>,
    bindings: &StructuredBindings,
    env: &mut IndexBindings,
) -> (r: Result<Vec<PatternItem<P>>, SpecializationError>)
    requires
        bindings.wf(),
    ensures
        final(env).view() == old(env).view(),
        spec_outcome_of(r) == specialize_repetition(
            item_view(*item),
            one,
            opt_view(*idx),
            items_view(inner@),
            opt_view(*sep),
            bindings.view(),
            old(env).view(),
        ),
        r matches Err(e) ==> !(e is Schema),
    decreases inner, 3int, 0int,
{
    let ghost iv = items_view(inner@);
    let ghost idxv = opt_view(*idx);
    let ghost sepv = opt_view(*sep);
    let ghost env0 = env.view();
    let names = referenced_parameters(inner);
    let p = match bindings.project(&names) {
        Ok(p) => p,
        Err(_) => {
            return Ok(single(copy_item(item)));
        },
    };
    let t = if one {
        StructuredBindingType::OneOrMore
    } else {
        StructuredBindingType::ZeroOrMore
    };
    let c = match p.list_count(t) {
        Ok(c) => c,
        Err(e) => {
            return Err(SpecializationError::Lookup(StructuredBindingLookupError::TypeMismatch(e)));
        },
    };
    if one {
        match p.first_empty_list() {
            Some(n) => {
                return Err(
                    SpecializationError::Lookup(
                        StructuredBindingLookupError::NotFound(ParameterBindingNotFound { parameter: n }),
                    ),
                );
            },
            None => {},
        }
    }
    let ghost pv = p.view();
    proof {
        assert(t == list_type(one));
    }
    let ghost total = specialize_iterations(idxv, iv, sepv, pv, env0, 0, c as nat);
    match idx {
        Some(n) => env.push_scope(n.clone()),
        None => {},
    }
    let mut out: Vec<PatternItem<P>> = Vec::new();
    proof {
        assert(items_view(out@) =~= Seq::<ItemV<P>>::empty());
        assert(prefixed_spec(Seq::empty(), total) == total) by {
            match total {
                Ok(b) => {
                    assert(Seq::<ItemV<P>>::empty() + b =~= b);
                },
                Err(_) => {},
            }
        }
    }
    let mut k: usize = 0;
    while k < c
        invariant
            p.wf(),
            pv == p.view(),
            iv == items_view(inner@),
            idxv == opt_view(*idx),
            sepv == opt_view(*sep),
            env0 == old(env).view(),
            c == iteration_count(p.keys(), pv),
            k <= c,
            env.view() == with_index(env0, idxv, k as nat),
            total == specialize_iterations(idxv, iv, sepv, pv, env0, 0, c as nat),
            bindings.wf(),
            p.keys() == dedup_first(params_from(iv, 0)),
            pv == bindings.view().restrict(p.keys().to_set()),
            first_missing(p.keys(), bindings.view()) is None,
            first_not_of(p.keys(), pv, list_type(one)) is None,
            one ==> first_shorter(p.keys(), pv, 0) is None,
            total == prefixed_spec(
                items_view(out@),
                specialize_iterations(idxv, iv, sepv, pv, env0, k as nat, c as nat),
            ),
        decreases c - k,
    {
        proof {
            assert forall|n: Seq<char>| #[trigger] pv.contains_key(n) implies k < elems(pv[n]).len() by {
                assert(p.keys().to_set().contains(n));
                let j = choose|j: int| 0 <= j < p.keys().len() && p.keys()[j] == n;
                lemma_iteration_count(p.keys(), pv, j);
            }
        }
        let q = p.iteration_view(k);
        let mut a = match spec_seq(inner, 0, &q, env) {
            Ok(x) => x,
            Err(e) => {
                proof {
                    assert(specialize_iterations(idxv, iv, sepv, pv, env0, k as nat, c as nat) == Err::<
                        Seq<ItemV<P>>,
                        SpecFailure,
                    >(spec_failure_of(e)));
                }
                if idx.is_some() {
                    env.pop_scope();
                    proof {
                        assert(env.view() =~= env0);
                    }
                }
                return Err(e);
            },
        };
        let ghost ov = items_view(out@);
        let ghost av = items_view(a@);
        let ghost o0 = out@;
        let ghost a0 = a@;
        out.append(&mut a);
        proof {
            lemma_items_view_concat(o0, a0);
        }
        if k + 1 < c {
            match sep {
                Some(s) => {
                    let ghost o1 = out@;
                    let tok = PatternItem::Punct(s.clone());
                    out.push(tok);
                    proof {
                        lemma_items_view_concat(o1, seq![tok]);
                        assert(out@ == o1 + seq![tok]);
                        lemma_items_view(seq![tok]);
                    }
                },
                None => {},
            }
        }
        proof {
            let sepseq = if k + 1 < c && sepv is Some {
                seq![ItemV::Punct(sepv->Some_0)]
            } else {
                Seq::<ItemV<P>>::empty()
            };
            assert(items_view(out@) =~= ov + av + sepseq);
            let rest = specialize_iterations(idxv, iv, sepv, pv, env0, (k + 1) as nat, c as nat);
            match rest {
                Ok(rs) => {
                    assert(ov + (av + sepseq + rs) =~= items_view(out@) + rs);
                },
                Err(_) => {},
            }
        }
        if idx.is_some() {
            env.increment();
        }
        k = k + 1;
        proof {
            assert(env.view() =~= with_index(env0, idxv, k as nat));
        }
    }
    if idx.is_some() {
        env.pop_scope();
        proof {
            assert(env.view() =~= env0);
        }
    }
    proof {
        assert(items_view(out@) + Seq::<ItemV<P>>::empty() =~= items_view(out@));
    }
    match idx {
        Some(i) => {
            match bindings.get_index_len(i) {
                Err(_) => {},
                Ok(None) => {},
                Ok(Some(x)) => {
                    if x != c {
                        return Err(
                            SpecializationError::LenMismatch(
                                RepetitionLenMismatch { ident: i.clone(), found: c, expected: x },
                            ),
                        );
                    }
                },
            }
        },
        None => {},
    }
    Ok(out)
}

} // verus!
