//! Laws of the engine, proved over the specifications of its operations.

use vstd::prelude::*;
use crate::token::TokV;
use crate::item::{ParameterKind, ItemV, params_from, params_of, refs, lemma_concat_to_set, dedup_first, lemma_dedup_first};
use crate::binding::BindV;
use crate::binding::{StructuredBindingType, kind_of};
use crate::store::{
    BindingMap, agree, lift_repetition, first_missing, first_not_of, first_shorter,
    iteration_count, iteration_map, unwrap_optional, some_absent, elems,
};
use crate::substitute::{subst_from, subst_item, subst_optional, subst_repetition, subst_iterations, list_type};
use crate::index::{IndexEnv, with_index};
use crate::matcher::{match_from, match_item, match_repetition};
use crate::pattern::{Pattern, PatternError, validated, match_pattern, substitute_pattern};
use crate::schema::{Repetition, schema_of, schema_valid, incompatible, empty_repetition_from, empty_repetition_in};

verus! {

/// No name of `b` is bound to an iteration count.
pub open spec fn no_index(b: BindingMap) -> bool {
    forall|k: Seq<char>| #[trigger] b.contains_key(k) ==> !(b[k] is Index)
}

/// What a successful match of `items[i..]` consumed and bound.
proof fn lemma_match_from_facts<P: ParameterKind>(items: Seq<ItemV<P>>, i: int, input: Seq<TokV>, pos: int, env: IndexEnv)
    requires
        0 <= i,
        0 <= pos <= input.len(),
        match_from(items, i, input, pos, env) is Ok,
    ensures
        pos <= match_from(items, i, input, pos, env)->Ok_0.1 <= input.len(),
        match_from(items, i, input, pos, env)->Ok_0.0.dom() == params_from(items, i).to_set(),
        no_index(match_from(items, i, input, pos, env)->Ok_0.0),
    decreases items, 1int, items.len() - i,
{
    if i >= items.len() {
        assert(params_from(items, i).to_set() =~= Set::<Seq<char>>::empty());
    } else {
        lemma_match_item_facts(items[i], input, pos, env);
        let (b1, p1) = match_item(items[i], input, pos, env)->Ok_0;
        lemma_match_from_facts(items, i + 1, input, p1, env);
        lemma_concat_to_set(params_of(items[i]), params_from(items, i + 1));
        let (b2, p2) = match_from(items, i + 1, input, p1, env)->Ok_0;
        assert(b1.union_prefer_right(b2).dom() =~= b1.dom() + b2.dom());
    }
}

/// What a successful match of one item consumed and bound.
proof fn lemma_match_item_facts<P: ParameterKind>(item: ItemV<P>, input: Seq<TokV>, pos: int, env: IndexEnv)
    requires
        0 <= pos <= input.len(),
        match_item(item, input, pos, env) is Ok,
    ensures
        pos <= match_item(item, input, pos, env)->Ok_0.1 <= input.len(),
        match_item(item, input, pos, env)->Ok_0.0.dom() == params_of(item).to_set(),
        no_index(match_item(item, input, pos, env)->Ok_0.0),
    decreases item, 0int, 0int,
{
    match item {
        ItemV::Group(d, inner) => {
            lemma_match_from_facts(inner, 0, input[pos]->Group_1, 0, env);
        },
        ItemV::Parameter(n, f) => {
            f.lemma_extent(input, pos);
            let b = match_item(item, input, pos, env)->Ok_0.0;
            assert(seq![n].to_set() =~= set![n]) by {
                assert(seq![n][0] == n);
                assert(seq![n].contains(n));
            }
            assert(b.dom() =~= set![n]);
        },
        ItemV::Optional(inner) => {
            if match_from(inner, 0, input, pos, env) is Ok {
                lemma_match_from_facts(inner, 0, input, pos, env);
            }
            let b = match_item(item, input, pos, env)->Ok_0.0;
            assert(b.dom() =~= refs(inner));
        },
        ItemV::ZeroOrMore(idx, inner, sep) => {
            lemma_match_repetition_facts(false, idx, inner, sep, input, pos, env, Seq::empty());
            let b = match_item(item, input, pos, env)->Ok_0.0;
            assert(b.dom() =~= refs(inner));
        },
        ItemV::OneOrMore(idx, inner, sep) => {
            lemma_match_repetition_facts(true, idx, inner, sep, input, pos, env, Seq::empty());
            let b = match_item(item, input, pos, env)->Ok_0.0;
            assert(b.dom() =~= refs(inner));
        },
        _ => {
            let b = match_item(item, input, pos, env)->Ok_0.0;
            assert(b.dom() =~= params_of(item).to_set());
        },
    }
}

/// What a successful match of further iterations consumed and bound.
proof fn lemma_match_repetition_facts<P: ParameterKind>(
    one: bool,
    idx: Option<Seq<char>>,
    inner: Seq<ItemV<P>>,
    sep: Option<Seq<char>>,
    input: Seq<TokV>,
    pos: int,
    env: IndexEnv,
    acc: Seq<BindingMap>,
)
    requires
        0 <= pos <= input.len(),
        match_repetition(one, idx, inner, sep, input, pos, env, acc) is Ok,
    ensures
        ({
            let (its, p) = match_repetition(one, idx, inner, sep, input, pos, env, acc)->Ok_0;
            &&& pos <= p <= input.len()
            &&& acc.len() <= its.len()
            &&& its.subrange(0, acc.len() as int) == acc
            &&& forall|k: int|
                acc.len() <= k < its.len() ==> (#[trigger] its[k]).dom() == refs(inner) && no_index(its[k])
            &&& (one && acc.len() == 0 ==> its.len() >= 1)
        }),
    decreases inner, 2int, input.len() - pos,
{
    let first = acc.len() == 0;
    let needs_sep = !first && sep is Some;
    if needs_sep && !(0 <= pos < input.len() && input[pos] == TokV::Punct(sep->Some_0)) {
        assert(acc.subrange(0, acc.len() as int) =~= acc);
    } else {
        let start = if needs_sep {
            pos + 1
        } else {
            pos
        };
        let e2 = with_index(env, idx, acc.len());
        if match_from(inner, 0, input, start, e2) is Ok {
            lemma_match_from_facts(inner, 0, input, start, e2);
            let (b, p1) = match_from(inner, 0, input, start, e2)->Ok_0;
            if pos < p1 <= input.len() {
                lemma_match_repetition_facts(one, idx, inner, sep, input, p1, env, acc.push(b));
                let (its, p) = match_repetition(one, idx, inner, sep, input, p1, env, acc.push(b))->Ok_0;
                assert(its.subrange(0, acc.len() as int) =~= its.subrange(0, acc.len() as int + 1).subrange(0, acc.len() as int));
                assert(acc.push(b).subrange(0, acc.len() as int) =~= acc);
                assert(its[acc.len() as int] == its.subrange(0, acc.len() as int + 1)[acc.len() as int]);
            } else if one && first {
                assert(acc.push(b).subrange(0, acc.len() as int) =~= acc);
            } else {
                assert(acc.subrange(0, acc.len() as int) =~= acc);
            }
        } else {
            assert(acc.subrange(0, acc.len() as int) =~= acc);
        }
    }
}

proof fn lemma_first_missing_none(ns: Seq<Seq<char>>, m: BindingMap)
    requires
        forall|j: int| 0 <= j < ns.len() ==> m.contains_key(#[trigger] ns[j]),
    ensures
        first_missing(ns, m) is None,
    decreases ns.len(),
{
    if ns.len() > 0 {
        assert forall|j: int| 0 <= j < ns.drop_first().len() implies m.contains_key(#[trigger] ns.drop_first()[j]) by {
            assert(ns.drop_first()[j] == ns[j + 1]);
        }
        lemma_first_missing_none(ns.drop_first(), m);
    }
}

proof fn lemma_first_not_of_none(ns: Seq<Seq<char>>, m: BindingMap, t: StructuredBindingType)
    requires
        forall|j: int| 0 <= j < ns.len() ==> kind_of(m[#[trigger] ns[j]]) == t,
    ensures
        first_not_of(ns, m, t) is None,
    decreases ns.len(),
{
    if ns.len() > 0 {
        assert forall|j: int| 0 <= j < ns.drop_first().len() implies kind_of(m[#[trigger] ns.drop_first()[j]]) == t by {
            assert(ns.drop_first()[j] == ns[j + 1]);
        }
        lemma_first_not_of_none(ns.drop_first(), m, t);
    }
}

proof fn lemma_first_shorter_none(ns: Seq<Seq<char>>, m: BindingMap, k: nat)
    requires
        forall|j: int| 0 <= j < ns.len() ==> elems(m[#[trigger] ns[j]]).len() > k,
    ensures
        first_shorter(ns, m, k) is None,
    decreases ns.len(),
{
    if ns.len() > 0 {
        assert forall|j: int| 0 <= j < ns.drop_first().len() implies elems(m[#[trigger] ns.drop_first()[j]]).len() > k by {
            assert(ns.drop_first()[j] == ns[j + 1]);
        }
        lemma_first_shorter_none(ns.drop_first(), m, k);
    }
}

proof fn lemma_iteration_count_uniform(ns: Seq<Seq<char>>, m: BindingMap, l: nat)
    requires
        ns.len() > 0,
        forall|j: int| 0 <= j < ns.len() ==> elems(m[#[trigger] ns[j]]).len() == l,
    ensures
        iteration_count(ns, m) == l,
    decreases ns.len(),
{
    if ns.len() > 1 {
        assert forall|j: int| 0 <= j < ns.drop_first().len() implies elems(m[#[trigger] ns.drop_first()[j]]).len() == l by {
            assert(ns.drop_first()[j] == ns[j + 1]);
        }
        lemma_iteration_count_uniform(ns.drop_first(), m, l);
        assert(elems(m[ns[0]]).len() == l);
    }
}

proof fn lemma_subrange_concat(s: Seq<TokV>, a: int, b: int, c: int)
    requires
        0 <= a <= b <= c <= s.len(),
    ensures
        s.subrange(a, b) + s.subrange(b, c) == s.subrange(a, c),
{
    assert(s.subrange(a, b) + s.subrange(b, c) =~= s.subrange(a, c));
}

/// Tells whether `v` binds every name of `b` as `b` does.
pub open spec fn covers(v: BindingMap, b: BindingMap) -> bool {
    forall|k: Seq<char>| #[trigger] b.contains_key(k) ==> v.contains_key(k) && v[k] == b[k]
}

/// The separator that precedes iteration `k` of a repetition.
pub open spec fn lead(k: nat, sep: Option<Seq<char>>) -> Seq<TokV> {
    if k > 0 && sep is Some {
        seq![TokV::Punct(sep->Some_0)]
    } else {
        Seq::empty()
    }
}

/// Substituting what `items[i..]` matched gives back the tokens consumed.
proof fn lemma_round_trip_from<P: ParameterKind>(items: Seq<ItemV<P>>, i: int, input: Seq<TokV>, pos: int, env: IndexEnv, v: BindingMap)
    requires
        0 <= i,
        0 <= pos <= input.len(),
        match_from(items, i, input, pos, env) is Ok,
        !crate::schema::empty_repetition_from(items, i),
        covers(v, match_from(items, i, input, pos, env)->Ok_0.0),
        no_index(v),
    ensures
        subst_from(items, i, v, env) == Ok::<Seq<TokV>, crate::substitute::SubstFailure>(
            input.subrange(pos, match_from(items, i, input, pos, env)->Ok_0.1),
        ),
    decreases items, 1int, items.len() - i,
{
    if i >= items.len() {
        assert(input.subrange(pos, pos) =~= Seq::<TokV>::empty());
    } else {
        lemma_match_item_facts(items[i], input, pos, env);
        let (b1, p1) = match_item(items[i], input, pos, env)->Ok_0;
        lemma_match_from_facts(items, i + 1, input, p1, env);
        let (b2, p2) = match_from(items, i + 1, input, p1, env)->Ok_0;
        assert(agree(b1, b2));
        assert(covers(v, b1)) by {
            assert forall|k: Seq<char>| #[trigger] b1.contains_key(k) implies v.contains_key(k) && v[k] == b1[k] by {
                assert(b1.union_prefer_right(b2).contains_key(k));
            }
        }
        assert(covers(v, b2)) by {
            assert forall|k: Seq<char>| #[trigger] b2.contains_key(k) implies v.contains_key(k) && v[k] == b2[k] by {
                assert(b1.union_prefer_right(b2).contains_key(k));
            }
        }
        lemma_round_trip_item(items[i], input, pos, env, v);
        lemma_round_trip_from(items, i + 1, input, p1, env, v);
        lemma_subrange_concat(input, pos, p1, p2);
    }
}

/// Substituting what one item matched gives back the tokens consumed.
proof fn lemma_round_trip_item<P: ParameterKind>(item: ItemV<P>, input: Seq<TokV>, pos: int, env: IndexEnv, v: BindingMap)
    requires
        0 <= pos <= input.len(),
        match_item(item, input, pos, env) is Ok,
        !crate::schema::empty_repetition_in(item),
        covers(v, match_item(item, input, pos, env)->Ok_0.0),
        no_index(v),
    ensures
        subst_item(item, v, env) == Ok::<Seq<TokV>, crate::substitute::SubstFailure>(
            input.subrange(pos, match_item(item, input, pos, env)->Ok_0.1),
        ),
    decreases item, 0int, 0int,
{
    lemma_match_item_facts(item, input, pos, env);
    match item {
        ItemV::Group(d, inner) => {
            let ts = input[pos]->Group_1;
            lemma_round_trip_from(inner, 0, ts, 0, env, v);
            assert(ts.subrange(0, ts.len() as int) =~= ts);
            assert(input.subrange(pos, pos + 1) =~= seq![input[pos]]);
        },
        ItemV::Optional(inner) => {
            lemma_round_trip_optional(inner, input, pos, env, v);
        },
        ItemV::ZeroOrMore(idx, inner, sep) => {
            lemma_round_trip_repetition(false, idx, inner, sep, input, pos, env, v);
        },
        ItemV::OneOrMore(idx, inner, sep) => {
            lemma_round_trip_repetition(true, idx, inner, sep, input, pos, env, v);
        },
        ItemV::Parameter(n, f) => {
            f.lemma_extent(input, pos);
            let b = match_item(item, input, pos, env)->Ok_0.0;
            assert(b.contains_key(n));
        },
        _ => {
            assert(input.subrange(pos, pos + 1) =~= seq![input[pos]]);
        },
    }
}

/// Substituting what an optional block matched gives back the tokens
/// consumed.
proof fn lemma_round_trip_optional<P: ParameterKind>(inner: Seq<ItemV<P>>, input: Seq<TokV>, pos: int, env: IndexEnv, v: BindingMap)
    requires
        0 <= pos <= input.len(),
        params_from(inner, 0).len() > 0,
        !crate::schema::empty_repetition_from(inner, 0),
        covers(v, match_item(ItemV::Optional(inner), input, pos, env)->Ok_0.0),
        no_index(v),
    ensures
        subst_optional(inner, v, env) == Ok::<Seq<TokV>, crate::substitute::SubstFailure>(
            input.subrange(pos, match_item(ItemV::Optional(inner), input, pos, env)->Ok_0.1),
        ),
    decreases inner, 3int, 0int,
{
    let b = match_item(ItemV::Optional(inner), input, pos, env)->Ok_0.0;
    let ns = dedup_first(params_from(inner, 0));
    lemma_dedup_first(params_from(inner, 0));
    assert forall|j: int| 0 <= j < ns.len() implies v.contains_key(#[trigger] ns[j]) by {
        assert(ns.to_set().contains(ns[j]));
        assert(b.contains_key(ns[j]));
    }
    lemma_first_missing_none(ns, v);
    let p = v.restrict(ns.to_set());
    assert forall|j: int| 0 <= j < ns.len() implies kind_of(p[#[trigger] ns[j]]) == StructuredBindingType::Optional by {
        assert(ns.to_set().contains(ns[j]));
        assert(b.contains_key(ns[j]));
    }
    lemma_first_not_of_none(ns, p, StructuredBindingType::Optional);
    if match_from(inner, 0, input, pos, env) is Ok {
        lemma_match_from_facts(inner, 0, input, pos, env);
        let (bi, pi) = match_from(inner, 0, input, pos, env)->Ok_0;
        assert(!some_absent(p)) by {
            assert forall|n: Seq<char>| p.contains_key(n) implies p[n] != BindV::Optional(None) by {
                assert(b.contains_key(n));
            }
        }
        let u = unwrap_optional(p);
        assert(covers(u, bi)) by {
            assert forall|k: Seq<char>| #[trigger] bi.contains_key(k) implies u.contains_key(k) && u[k] == bi[k] by {
                assert(b.contains_key(k));
                assert(p.contains_key(k));
            }
        }
        assert(no_index(u)) by {
            assert forall|k: Seq<char>| #[trigger] u.contains_key(k) implies !(u[k] is Index) by {
                assert(b.contains_key(k));
                assert(bi.contains_key(k));
            }
        }
        lemma_round_trip_from(inner, 0, input, pos, env, u);
    } else {
        let n0 = params_from(inner, 0)[0];
        assert(params_from(inner, 0).contains(n0));
        assert(b.contains_key(n0));
        assert(p.contains_key(n0));
        assert(some_absent(p));
        assert(input.subrange(pos, pos) =~= Seq::<TokV>::empty());
    }
}

/// Substituting what a repetition matched gives back the tokens consumed.
proof fn lemma_round_trip_repetition<P: ParameterKind>(
    one: bool,
    idx: Option<Seq<char>>,
    inner: Seq<ItemV<P>>,
    sep: Option<Seq<char>>,
    input: Seq<TokV>,
    pos: int,
    env: IndexEnv,
    v: BindingMap,
)
    requires
        0 <= pos <= input.len(),
        params_from(inner, 0).len() > 0,
        !crate::schema::empty_repetition_from(inner, 0),
        match_repetition(one, idx, inner, sep, input, pos, env, Seq::empty()) is Ok,
        covers(v, lift_repetition(refs(inner), match_repetition(one, idx, inner, sep, input, pos, env, Seq::empty())->Ok_0.0, one)),
        no_index(v),
    ensures
        subst_repetition(one, idx, inner, sep, v, env) == Ok::<Seq<TokV>, crate::substitute::SubstFailure>(
            input.subrange(pos, match_repetition(one, idx, inner, sep, input, pos, env, Seq::empty())->Ok_0.1),
        ),
    decreases inner, 3int, 0int,
{
    lemma_match_repetition_facts(one, idx, inner, sep, input, pos, env, Seq::empty());
    let (its, q) = match_repetition(one, idx, inner, sep, input, pos, env, Seq::empty())->Ok_0;
    let b = lift_repetition(refs(inner), its, one);
    let ns = dedup_first(params_from(inner, 0));
    lemma_dedup_first(params_from(inner, 0));
    assert forall|j: int| 0 <= j < ns.len() implies v.contains_key(#[trigger] ns[j]) by {
        assert(ns.to_set().contains(ns[j]));
        assert(b.contains_key(ns[j]));
    }
    lemma_first_missing_none(ns, v);
    let p = v.restrict(ns.to_set());
    assert forall|j: int| 0 <= j < ns.len() implies kind_of(p[#[trigger] ns[j]]) == list_type(one)
        && elems(p[ns[j]]).len() == its.len() by {
        assert(ns.to_set().contains(ns[j]));
        assert(b.contains_key(ns[j]));
    }
    lemma_first_not_of_none(ns, p, list_type(one));
    if one {
        lemma_first_shorter_none(ns, p, 0);
    }
    let n0 = params_from(inner, 0)[0];
    assert(params_from(inner, 0).contains(n0));
    assert(ns.len() > 0) by {
        assert(ns.to_set().contains(n0));
    }
    lemma_iteration_count_uniform(ns, p, its.len());
    assert forall|k: int| 0 <= k < its.len() implies covers(iteration_map(p, k), #[trigger] its[k]) && no_index(
        iteration_map(p, k),
    ) by {
        assert forall|x: Seq<char>| #[trigger] its[k].contains_key(x) implies iteration_map(p, k).contains_key(x)
            && iteration_map(p, k)[x] == its[k][x] by {
            assert(b.contains_key(x));
            assert(p.contains_key(x));
        }
        assert forall|x: Seq<char>| #[trigger] iteration_map(p, k).contains_key(x) implies !(iteration_map(p, k)[x] is Index) by {
            assert(b.contains_key(x));
            assert(its[k].contains_key(x));
        }
    }
    lemma_round_trip_iterations(one, idx, inner, sep, input, pos, env, Seq::empty(), p, its.len());
    if its.len() == 0 {
        assert(input.subrange(pos, q) =~= Seq::<TokV>::empty());
    } else {
        assert(lead(0, sep) + subst_iterations(idx, inner, sep, p, env, 0, its.len())->Ok_0 =~= subst_iterations(
            idx,
            inner,
            sep,
            p,
            env,
            0,
            its.len(),
        )->Ok_0);
    }
}

/// Substituting what further iterations matched gives back the tokens
/// consumed, but for the separator before the first of them.
proof fn lemma_round_trip_iterations<P: ParameterKind>(
    one: bool,
    idx: Option<Seq<char>>,
    inner: Seq<ItemV<P>>,
    sep: Option<Seq<char>>,
    input: Seq<TokV>,
    pos: int,
    env: IndexEnv,
    acc: Seq<BindingMap>,
    p: BindingMap,
    c: nat,
)
    requires
        0 <= pos <= input.len(),
        !crate::schema::empty_repetition_from(inner, 0),
        match_repetition(one, idx, inner, sep, input, pos, env, acc) is Ok,
        c == match_repetition(one, idx, inner, sep, input, pos, env, acc)->Ok_0.0.len(),
        forall|k: int|
            acc.len() <= k < c ==> covers(
                iteration_map(p, k),
                #[trigger] match_repetition(one, idx, inner, sep, input, pos, env, acc)->Ok_0.0[k],
            ) && no_index(iteration_map(p, k)),
    ensures
        ({
            let q = match_repetition(one, idx, inner, sep, input, pos, env, acc)->Ok_0.1;
            let r = subst_iterations(idx, inner, sep, p, env, acc.len(), c);
            if acc.len() < c {
                r is Ok && input.subrange(pos, q) == lead(acc.len(), sep) + r->Ok_0
            } else {
                r == Ok::<Seq<TokV>, crate::substitute::SubstFailure>(Seq::empty()) && q == pos
            }
        }),
    decreases inner, 2int, input.len() - pos,
{
    lemma_match_repetition_facts(one, idx, inner, sep, input, pos, env, acc);
    let (its, q) = match_repetition(one, idx, inner, sep, input, pos, env, acc)->Ok_0;
    let k = acc.len();
    let first = k == 0;
    let needs_sep = !first && sep is Some;
    if needs_sep && !(0 <= pos < input.len() && input[pos] == TokV::Punct(sep->Some_0)) {
        assert(its =~= acc);
    } else {
        let start = if needs_sep {
            pos + 1
        } else {
            pos
        };
        let e2 = with_index(env, idx, k);
        if match_from(inner, 0, input, start, e2) is Ok {
            lemma_match_from_facts(inner, 0, input, start, e2);
            let (bk, pk) = match_from(inner, 0, input, start, e2)->Ok_0;
            if pos < pk <= input.len() {
                lemma_match_repetition_facts(one, idx, inner, sep, input, pk, env, acc.push(bk));
                let its2 = match_repetition(one, idx, inner, sep, input, pk, env, acc.push(bk))->Ok_0.0;
                assert(its2 == its);
                assert(its[k as int] == its.subrange(0, k as int + 1)[k as int]);
                assert(its[k as int] == bk);
                lemma_round_trip_from(inner, 0, input, start, e2, iteration_map(p, k as int));
                lemma_round_trip_iterations(one, idx, inner, sep, input, pk, env, acc.push(bk), p, c);
                assert(input.subrange(pos, start) =~= lead(k, sep));
                lemma_subrange_concat(input, pos, start, pk);
                lemma_subrange_concat(input, pos, pk, q);
                let a = input.subrange(start, pk);
                let r2 = subst_iterations(idx, inner, sep, p, env, k + 1, c);
                if k + 1 < c {
                    assert(lead((k + 1) as nat, sep) == (if k + 1 < c && sep is Some {
                        seq![TokV::Punct(sep->Some_0)]
                    } else {
                        Seq::<TokV>::empty()
                    }));
                    assert(input.subrange(pos, q) =~= lead(k, sep) + (a + lead((k + 1) as nat, sep) + r2->Ok_0));
                } else {
                    assert(input.subrange(pos, q) =~= lead(k, sep) + (a + Seq::<TokV>::empty() + Seq::<TokV>::empty()));
                }
            } else if one && first {
                assert(its =~= acc.push(bk));
                assert(its[0] == bk);
                lemma_round_trip_from(inner, 0, input, start, e2, iteration_map(p, 0));
                assert(input.subrange(pos, q) =~= Seq::<TokV>::empty());
                assert(input.subrange(start, pk) =~= Seq::<TokV>::empty());
                assert(subst_iterations(idx, inner, sep, p, env, 1, c) == Ok::<Seq<TokV>, crate::substitute::SubstFailure>(
                    Seq::empty(),
                ));
                assert(Seq::<TokV>::empty() + Seq::<TokV>::empty() + Seq::<TokV>::empty() =~= Seq::<TokV>::empty());
            } else {
                assert(its =~= acc);
            }
        } else {
            assert(its =~= acc);
        }
    }
}

/// Round trip: for a valid pattern and an input that it matches,
/// substituting the bindings of the match into the pattern gives back the
/// input.
pub proof fn lemma_round_trip<P: ParameterKind>(items: Seq<ItemV<P>>, input: Seq<TokV>)
    requires
        schema_valid(items),
        match_pattern(items, input) is Ok,
    ensures
        substitute_pattern(items, match_pattern(items, input)->Ok_0) == Ok::<Seq<TokV>, crate::substitute::SubstFailure>(
            input,
        ),
{
    let env = Seq::<(Seq<char>, nat)>::empty();
    lemma_match_from_facts(items, 0, input, 0, env);
    let (b, p) = match_from(items, 0, input, 0, env)->Ok_0;
    lemma_round_trip_from(items, 0, input, 0, env, b);
    assert(input.subrange(0, input.len() as int) =~= input);
}

/// A parameter name used once inside an optional block and once inside a
/// one-or-more repetition (the innermost repetition of each use) makes a
/// pattern invalid: building it fails with an incompatible-repetitions
/// error, unless it already fails for a repetition without parameters.
pub proof fn lemma_incompatible_repetitions<P: ParameterKind>(
    items: Seq<ItemV<P>>,
    r: Result<Pattern<P>, PatternError>,
    n: Seq<char>,
    i: int,
    j: int,
)
    requires
        validated(items, r),
        !empty_repetition_from(items, 0),
        0 <= i < schema_of(items).len(),
        0 <= j < schema_of(items).len(),
        schema_of(items)[i].0 == n,
        schema_of(items)[j].0 == n,
        schema_of(items)[i].1.len() > 0 && schema_of(items)[i].1.last() == Repetition::Optional,
        schema_of(items)[j].1.len() > 0 && schema_of(items)[j].1.last() == Repetition::OneOrMore,
    ensures
        r matches Err(PatternError::Incompatible(_)),
{
    assert(schema_of(items)[i].1 != schema_of(items)[j].1);
    assert(incompatible(schema_of(items), n));
}

proof fn lemma_empty_repetition_at<P: ParameterKind>(items: Seq<ItemV<P>>, k: int, i: int)
    requires
        0 <= k <= i < items.len(),
        empty_repetition_in(items[i]),
    ensures
        empty_repetition_from(items, k),
    decreases i - k,
{
    if k < i {
        lemma_empty_repetition_at(items, k + 1, i);
    }
}

/// An optional block or a repetition that references no parameter makes
/// a pattern invalid: building it fails with a no-parameter error.
pub proof fn lemma_empty_repetition_rejected<P: ParameterKind>(items: Seq<ItemV<P>>, r: Result<Pattern<P>, PatternError>, i: int)
    requires
        validated(items, r),
        0 <= i < items.len(),
        match items[i] {
            ItemV::Optional(inner) => params_from(inner, 0).len() == 0,
            ItemV::ZeroOrMore(_, inner, _) => params_from(inner, 0).len() == 0,
            ItemV::OneOrMore(_, inner, _) => params_from(inner, 0).len() == 0,
            _ => false,
        },
    ensures
        r matches Err(PatternError::NoParameterInRepetition(_)),
{
    lemma_empty_repetition_at(items, 0, i);
}

/// An optional block renders to nothing when its names are bound to
/// absent blocks, and to its inner pattern rendered with the present
/// bindings when they are all present.
pub proof fn lemma_optional_toggle<P: ParameterKind>(inner: Seq<ItemV<P>>, v: BindingMap, env: IndexEnv)
    requires
        forall|n: Seq<char>| #[trigger] refs(inner).contains(n) ==> v.contains_key(n) && v[n] is Optional,
    ensures
        (exists|n: Seq<char>| #[trigger] refs(inner).contains(n) && v[n] == BindV::Optional(None)) ==> subst_optional(
            inner,
            v,
            env,
        ) == Ok::<Seq<TokV>, crate::substitute::SubstFailure>(Seq::empty()),
        (forall|n: Seq<char>| #[trigger] refs(inner).contains(n) ==> v[n] != BindV::Optional(None)) ==> subst_optional(
            inner,
            v,
            env,
        ) == subst_from(inner, 0, unwrap_optional(v.restrict(refs(inner))), env),
{
    let ns = dedup_first(params_from(inner, 0));
    lemma_dedup_first(params_from(inner, 0));
    assert forall|j: int| 0 <= j < ns.len() implies v.contains_key(#[trigger] ns[j]) by {
        assert(ns.to_set().contains(ns[j]));
    }
    lemma_first_missing_none(ns, v);
    let p = v.restrict(ns.to_set());
    assert forall|j: int| 0 <= j < ns.len() implies kind_of(p[#[trigger] ns[j]]) == StructuredBindingType::Optional by {
        assert(ns.to_set().contains(ns[j]));
    }
    lemma_first_not_of_none(ns, p, StructuredBindingType::Optional);
    if exists|n: Seq<char>| #[trigger] refs(inner).contains(n) && v[n] == BindV::Optional(None) {
        let n = choose|n: Seq<char>| #[trigger] refs(inner).contains(n) && v[n] == BindV::Optional(None);
        assert(p.contains_key(n));
        assert(some_absent(p));
    }
    if forall|n: Seq<char>| #[trigger] refs(inner).contains(n) ==> v[n] != BindV::Optional(None) {
        assert(!some_absent(p));
    }
}

/// The first iteration of a one-or-more repetition is mandatory: where the
/// inner pattern does not match, the repetition fails with its error, while
/// a zero-or-more repetition matches nothing there.
pub proof fn lemma_first_iteration_mandatory<P: ParameterKind>(
    idx: Option<Seq<char>>,
    inner: Seq<ItemV<P>>,
    sep: Option<Seq<char>>,
    input: Seq<TokV>,
    pos: int,
    env: IndexEnv,
)
    requires
        match_from(inner, 0, input, pos, with_index(env, idx, 0)) is Err,
    ensures
        match_item(ItemV::OneOrMore(idx, inner, sep), input, pos, env) == Err::<(BindingMap, int), crate::matcher::MatchFailure>(
            match_from(inner, 0, input, pos, with_index(env, idx, 0))->Err_0,
        ),
        match_item(ItemV::ZeroOrMore(idx, inner, sep), input, pos, env) == Ok::<(BindingMap, int), crate::matcher::MatchFailure>(
            (lift_repetition(refs(inner), Seq::empty(), false), pos),
        ),
{
}

} // verus!
