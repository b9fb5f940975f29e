//! The binding store: a map from parameter names to structured bindings.

use vstd::prelude::*;
use crate::token::{TokenTree, tokens_view};
use crate::binding::{
    StructuredBinding, StructuredBindingType, BindV, binding_view, bindings_seq_view,
    lemma_bindings_seq_view, kind_of, mapped_by,
};
use crate::item::names_view;

verus! {

pub type BindingMap = Map<Seq<char>, BindV>;

/// A name bound twice to different values.
#[derive(Debug)]
pub struct ParameterBindingMismatch {
    pub parameter: String,
    pub first_value: StructuredBinding,
    pub second_value: StructuredBinding,
}

/// A name with no binding.
#[derive(Debug)]
pub struct ParameterBindingNotFound {
    pub parameter: String,
}

/// A name whose binding has another shape than the one asked for.
#[derive(Debug)]
pub struct StructuredBindingTypeMismatch {
    pub parameter: String,
    pub found: StructuredBindingType,
    pub expected: StructuredBindingType,
}

impl ParameterBindingMismatch {
    pub fn new(parameter: String, first_value: StructuredBinding, second_value: StructuredBinding) -> (r: ParameterBindingMismatch)
        ensures
            r.parameter == parameter,
            r.first_value == first_value,
            r.second_value == second_value,
    {
        ParameterBindingMismatch { parameter, first_value, second_value }
    }
}

impl ParameterBindingNotFound {
    pub fn new(parameter: String) -> (r: ParameterBindingNotFound)
        ensures
            r.parameter == parameter,
    {
        ParameterBindingNotFound { parameter }
    }
}

impl StructuredBindingTypeMismatch {
    pub fn new(parameter: String, found: StructuredBindingType, expected: StructuredBindingType) -> (r: StructuredBindingTypeMismatch)
        ensures
            r.parameter == parameter,
            r.found == found,
            r.expected == expected,
    {
        StructuredBindingTypeMismatch { parameter, found, expected }
    }
}

/// A failed lookup of a binding.
#[derive(Debug)]
pub enum StructuredBindingLookupError {
    TypeMismatch(StructuredBindingTypeMismatch),
    NotFound(ParameterBindingNotFound),
}

/// The map built from parallel sequences of names and values, later
/// entries taking precedence.
pub open spec fn map_of(ns: Seq<Seq<char>>, vs: Seq<BindV>) -> BindingMap
    decreases ns.len(),
{
    if ns.len() == 0 || vs.len() == 0 {
        Map::empty()
    } else {
        map_of(ns.drop_last(), vs.drop_last()).insert(ns.last(), vs.last())
    }
}

pub proof fn lemma_map_of(ns: Seq<Seq<char>>, vs: Seq<BindV>)
    requires
        ns.len() == vs.len(),
        ns.no_duplicates(),
    ensures
        map_of(ns, vs).dom() == ns.to_set(),
        forall|i: int| 0 <= i < ns.len() ==> #[trigger] map_of(ns, vs)[ns[i]] == vs[i],
    decreases ns.len(),
{
    if ns.len() > 0 {
        let n0 = ns.drop_last();
        assert(n0.no_duplicates());
        lemma_map_of(n0, vs.drop_last());
        assert(ns == n0.push(ns.last()));
        n0.lemma_push_to_set_commute(ns.last());
        assert forall|i: int| 0 <= i < ns.len() implies #[trigger] map_of(ns, vs)[ns[i]] == vs[i] by {
            if i < ns.len() - 1 {
                assert(ns[i] != ns.last());
                assert(ns[i] == n0[i]);
            }
        }
    }
}

/// Tells whether two maps agree on every name that both bind.
pub open spec fn agree(a: BindingMap, b: BindingMap) -> bool {
    forall|k: Seq<char>| a.contains_key(k) && b.contains_key(k) ==> a[k] == b[k]
}

/// The values of a list binding (empty for other shapes).
pub open spec fn elems(b: BindV) -> Seq<BindV> {
    match b {
        BindV::ZeroOrMore(s) => s,
        BindV::OneOrMore(s) => s,
        _ => Seq::empty(),
    }
}

/// The bindings that an optional block gives to the names `ns`: the
/// block's own bindings when it was present, `None` otherwise.
pub open spec fn lift_optional(ns: Set<Seq<char>>, b: Option<BindingMap>) -> BindingMap {
    Map::new(
        |n: Seq<char>| ns.contains(n),
        |n: Seq<char>|
            match b {
                Some(m) => BindV::Optional(Some(Box::new(m[n]))),
                None => BindV::Optional(None),
            },
    )
}

/// The bindings that a repetition gives to the names `ns`: for each name,
/// the list of its bindings in the successive iterations.
pub open spec fn lift_repetition(ns: Set<Seq<char>>, its: Seq<BindingMap>, one: bool) -> BindingMap {
    Map::new(
        |n: Seq<char>| ns.contains(n),
        |n: Seq<char>|
            if one {
                BindV::OneOrMore(its.map_values(|m: BindingMap| m[n]))
            } else {
                BindV::ZeroOrMore(its.map_values(|m: BindingMap| m[n]))
            },
    )
}

/// The first name of `ns` that `m` does not bind.
pub open spec fn first_missing(ns: Seq<Seq<char>>, m: BindingMap) -> Option<Seq<char>>
    decreases ns.len(),
{
    if ns.len() == 0 {
        None
    } else if !m.contains_key(ns[0]) {
        Some(ns[0])
    } else {
        first_missing(ns.drop_first(), m)
    }
}

/// The first name of `ns` whose binding in `m` is not of shape `t`.
pub open spec fn first_not_of(ns: Seq<Seq<char>>, m: BindingMap, t: StructuredBindingType) -> Option<
    Seq<char>,
>
    decreases ns.len(),
{
    if ns.len() == 0 {
        None
    } else if kind_of(m[ns[0]]) != t {
        Some(ns[0])
    } else {
        first_not_of(ns.drop_first(), m, t)
    }
}

/// The first name of `ns` whose list in `m` holds no element at `k`.
pub open spec fn first_shorter(ns: Seq<Seq<char>>, m: BindingMap, k: nat) -> Option<Seq<char>>
    decreases ns.len(),
{
    if ns.len() == 0 {
        None
    } else if elems(m[ns[0]]).len() <= k {
        Some(ns[0])
    } else {
        first_shorter(ns.drop_first(), m, k)
    }
}

/// The number of iterations that list bindings allow: the length of the
/// shortest list, zero when there is none.
pub open spec fn iteration_count(ns: Seq<Seq<char>>, m: BindingMap) -> nat
    decreases ns.len(),
{
    if ns.len() == 0 {
        0
    } else if ns.len() == 1 {
        elems(m[ns[0]]).len()
    } else {
        let rest = iteration_count(ns.drop_first(), m);
        if elems(m[ns[0]]).len() < rest {
            elems(m[ns[0]]).len()
        } else {
            rest
        }
    }
}

/// The bindings of iteration `k`: each name bound to element `k` of its list.
pub open spec fn iteration_map(m: BindingMap, k: int) -> BindingMap {
    Map::new(|n: Seq<char>| m.contains_key(n), |n: Seq<char>| elems(m[n])[k])
}

/// The bindings inside an optional block: each name bound to what its
/// `Optional(Some(..))` holds.
pub open spec fn unwrap_optional(m: BindingMap) -> BindingMap {
    Map::new(
        |n: Seq<char>| m.contains_key(n),
        |n: Seq<char>|
            match m[n] {
                BindV::Optional(Some(b)) => *b,
                _ => m[n],
            },
    )
}

/// Tells whether some name of `m` is bound to `Optional(None)`.
pub open spec fn some_absent(m: BindingMap) -> bool {
    exists|n: Seq<char>| m.contains_key(n) && m[n] == BindV::Optional(None)
}

/// A set of structured bindings, each name bound once.
#[derive(Debug)]
pub struct StructuredBindings {
    names: Vec<String>,
    values: Vec<StructuredBinding>,
}

impl StructuredBindings {
    /// The names, in the order in which they were bound.
    pub closed spec fn keys(&self) -> Seq<Seq<char>> {
        names_view(self.names@)
    }

    /// The bindings, in key order.
    pub closed spec fn bindings(&self) -> Seq<StructuredBinding> {
        self.values@
    }

    pub closed spec fn view(&self) -> BindingMap {
        map_of(names_view(self.names@), bindings_seq_view(self.values@))
    }

    pub closed spec fn inv(&self) -> bool {
        &&& self.names.len() == self.values.len()
        &&& names_view(self.names@).no_duplicates()
    }

    pub open spec fn wf(&self) -> bool {
        &&& self.inv()
        &&& self.keys().no_duplicates()
        &&& self.view().dom() == self.keys().to_set()
    }

    proof fn lemma_inv(&self)
        requires
            self.inv(),
        ensures
            self.wf(),
            self.keys().len() == self.names.len(),
            forall|i: int|
                0 <= i < self.names.len() ==> #[trigger] self.keys()[i] == self.names@[i]@
                    && self.view()[self.names@[i]@] == binding_view(self.values@[i]),
    {
        lemma_bindings_seq_view(self.values@);
        lemma_map_of(names_view(self.names@), bindings_seq_view(self.values@));
        assert forall|i: int| 0 <= i < self.names.len() implies #[trigger] self.keys()[i]
            == self.names@[i]@ && self.view()[self.names@[i]@] == binding_view(self.values@[i]) by {
            assert(names_view(self.names@)[i] == self.names@[i]@);
        }
    }

    /// No bindings.
    pub fn new() -> (r: StructuredBindings)
        ensures
            r.wf(),
            r.view() == Map::<Seq<char>, BindV>::empty(),
            r.keys() == Seq::<Seq<char>>::empty(),
    {
        let r = StructuredBindings { names: Vec::new(), values: Vec::new() };
        proof {
            assert(names_view(r.names@) =~= Seq::<Seq<char>>::empty());
            r.lemma_inv();
            assert(r.view() =~= Map::<Seq<char>, BindV>::empty());
        }
        r
    }

    /// The number of names bound.
    pub fn len(&self) -> (r: usize)
        requires
            self.wf(),
        ensures
            r == self.keys().len(),
    {
        proof {
            self.lemma_inv();
        }
        self.names.len()
    }

    /// Where `name` stands among the keys.
    fn find(&self, name: &String) -> (r: Option<usize>)
        requires
            self.wf(),
        ensures
            r is None <==> !self.view().contains_key(name@),
            r matches Some(i) ==> i < self.names.len() && self.keys()[i as int] == name@,
    {
        proof {
            self.lemma_inv();
        }
        let mut i: usize = 0;
        while i < self.names.len()
            invariant
                self.wf(),
                i <= self.names.len(),
                self.keys().len() == self.names.len(),
                forall|j: int| 0 <= j < i ==> self.keys()[j] != name@,
                forall|j: int| 0 <= j < self.names.len() ==> #[trigger] self.keys()[j] == self.names@[j]@,
            decreases self.names.len() - i,
        {
            if self.names[i].eq(name) {
                assert(self.keys().contains(self.keys()[i as int]));
                return Some(i);
            }
            i = i + 1;
        }
        proof {
            if self.view().contains_key(name@) {
                assert(self.keys().to_set().contains(name@));
                let j = choose|j: int| 0 <= j < self.keys().len() && self.keys()[j] == name@;
            }
        }
        None
    }

    /// The binding of `name`, if it has one.
    pub fn get(&self, name: &String) -> (r: Option<&StructuredBinding>)
        requires
            self.wf(),
        ensures
            r is None <==> !self.view().contains_key(name@),
            r matches Some(b) ==> binding_view(*b) == self.view()[name@],
    {
        proof {
            self.lemma_inv();
        }
        match self.find(name) {
            Some(i) => Some(&self.values[i]),
            None => None,
        }
    }

    /// Appends a binding for a name that has none.
    fn push_new(&mut self, name: String, b: StructuredBinding)
        requires
            old(self).wf(),
            !old(self).view().contains_key(name@),
        ensures
            final(self).wf(),
            final(self).view() == old(self).view().insert(name@, binding_view(b)),
            final(self).keys() == old(self).keys().push(name@),
    {
        proof {
            self.lemma_inv();
        }
        let ghost nv = names_view(self.names@);
        let ghost bv = bindings_seq_view(self.values@);
        self.names.push(name);
        self.values.push(b);
        proof {
            assert(names_view(self.names@) =~= nv.push(name@));
            assert(bindings_seq_view(self.values@).drop_last() == bv) by {
                assert(self.values@.drop_last() =~= old(self).values@);
            }
            assert(names_view(self.names@).drop_last() =~= nv);
            assert(!nv.contains(name@)) by {
                if nv.contains(name@) {
                    assert(nv.to_set().contains(name@));
                }
            }
            assert(names_view(self.names@).no_duplicates()) by {
                let s = names_view(self.names@);
                assert forall|i: int, j: int| 0 <= i < s.len() && 0 <= j < s.len() && i != j
                    implies s[i] != s[j] by {
                    if i < nv.len() && j < nv.len() {
                        assert(s[i] == nv[i] && s[j] == nv[j]);
                    } else if i < nv.len() {
                        assert(s[i] == nv[i]);
                        assert(nv.contains(nv[i]));
                    } else {
                        assert(s[j] == nv[j]);
                        assert(nv.contains(nv[j]));
                    }
                }
            }
            self.lemma_inv();
        }
    }

    /// Binds `name` to `b`; binding a name again to the same value is no
    /// change, to another value is an error.
    pub fn add_binding(&mut self, name: String, b: StructuredBinding) -> (r: Result<
        (),
        ParameterBindingMismatch,
    >)
        requires
            old(self).wf(),
        ensures
            final(self).wf(),
            r is Ok <==> (!old(self).view().contains_key(name@) || old(self).view()[name@]
                == binding_view(b)),
            r is Ok ==> final(self).view() == old(self).view().insert(name@, binding_view(b)),
            r is Ok && !old(self).view().contains_key(name@) ==> final(self).keys() == old(
                self,
            ).keys().push(name@),
            r is Ok && old(self).view().contains_key(name@) ==> final(self).keys() == old(
                self,
            ).keys(),
            r matches Err(e) ==> e.parameter@ == name@ && *final(self) == *old(self)
                && binding_view(e.first_value) == old(self).view()[name@] && binding_view(
                e.second_value,
            ) == binding_view(b),
    {
        match self.find(&name) {
            Some(i) => {
                proof {
                    self.lemma_inv();
                }
                if self.values[i].same_as(&b) {
                    proof {
                        assert(self.view().insert(name@, binding_view(b)) =~= self.view());
                    }
                    Ok(())
                } else {
                    let first = self.values[i].duplicate();
                    Err(ParameterBindingMismatch { parameter: name, first_value: first, second_value: b })
                }
            },
            None => {
                self.push_new(name, b);
                Ok(())
            },
        }
    }

    /// Binds `name` to the tokens `v`.
    pub fn add_value_binding(&mut self, name: String, v: Vec<TokenTree>) -> (r: Result<
        (),
        ParameterBindingMismatch,
    >)
        requires
            old(self).wf(),
        ensures
            final(self).wf(),
            r is Ok <==> (!old(self).view().contains_key(name@) || old(self).view()[name@]
                == BindV::Value(tokens_view(v@))),
            r is Ok ==> final(self).view() == old(self).view().insert(
                name@,
                BindV::Value(tokens_view(v@)),
            ),
    {
        self.add_binding(name, StructuredBinding::Value(v))
    }

    /// Binds `name` to the iteration count `len`.
    pub fn add_index_len(&mut self, name: String, len: usize) -> (r: Result<
        (),
        ParameterBindingMismatch,
    >)
        requires
            old(self).wf(),
        ensures
            final(self).wf(),
            r is Ok <==> (!old(self).view().contains_key(name@) || old(self).view()[name@]
                == BindV::Index(len as nat)),
            r is Ok ==> final(self).view() == old(self).view().insert(name@, BindV::Index(len as nat)),
    {
        self.add_binding(name, StructuredBinding::Index(len))
    }

    /// Adds every binding of `other`; a name bound on both sides must have
    /// the same value on both.
    pub fn merge(&mut self, other: &StructuredBindings) -> (r: Result<(), ParameterBindingMismatch>)
        requires
            old(self).wf(),
            other.wf(),
        ensures
            final(self).wf(),
            r is Ok <==> agree(old(self).view(), other.view()),
            r is Ok ==> final(self).view() == old(self).view().union_prefer_right(other.view()),
            r matches Err(e) ==> old(self).view().contains_key(e.parameter@) && other.view().contains_key(
                e.parameter@,
            ) && old(self).view()[e.parameter@] != other.view()[e.parameter@],
    {
        proof {
            other.lemma_inv();
        }
        let ghost m0 = self.view();
        let ghost ks = other.keys();
        let mut i: usize = 0;
        while i < other.names.len()
            invariant
                other.wf(),
                self.wf(),
                m0 == old(self).view(),
                i <= other.names.len(),
                ks == other.keys(),
                ks.len() == other.names.len(),
                forall|j: int|
                    0 <= j < other.names.len() ==> #[trigger] ks[j] == other.names@[j]@
                        && other.view()[other.names@[j]@] == binding_view(other.values@[j]),
                forall|j: int|
                    0 <= j < i ==> self.view().contains_key(#[trigger] ks[j]) && self.view()[ks[j]]
                        == other.view()[ks[j]],
                forall|j: int|
                    0 <= j < i ==> m0.contains_key(#[trigger] ks[j]) ==> m0[ks[j]] == other.view()[ks[j]],
                forall|k: Seq<char>|
                    #[trigger] self.view().contains_key(k) <==> (m0.contains_key(k) || exists|j: int|
                        0 <= j < i && ks[j] == k),
                forall|k: Seq<char>|
                    m0.contains_key(k) && (forall|j: int| 0 <= j < i ==> ks[j] != k) ==> #[trigger] self.view()[k]
                        == m0[k],
            decreases other.names.len() - i,
        {
            let ghost before = self.view();
            let b = other.values[i].duplicate();
            let res = self.add_binding(other.names[i].clone(), b);
            match res {
                Ok(()) => {
                    proof {
                        assert forall|k: Seq<char>|
                            #[trigger] self.view().contains_key(k) <==> (m0.contains_key(k) || exists|j: int|
                                0 <= j < i + 1 && ks[j] == k) by {
                            if k == ks[i as int] {
                            } else if self.view().contains_key(k) {
                                assert(before.contains_key(k));
                            } else if exists|j: int| 0 <= j < i + 1 && ks[j] == k {
                                let j = choose|j: int| 0 <= j < i + 1 && ks[j] == k;
                                assert(before.contains_key(ks[j]));
                            }
                        }
                        assert forall|j: int| 0 <= j < i + 1 && m0.contains_key(#[trigger] ks[j])
                            implies m0[ks[j]] == other.view()[ks[j]] by {
                            if j == i {
                                assert(forall|l: int| 0 <= l < i ==> ks[l] != ks[j]);
                            }
                        }
                    }
                },
                Err(e) => {
                    proof {
                        let k = ks[i as int];
                        assert(e.parameter@ == k);
                        assert(before.contains_key(k));
                        assert(forall|l: int| 0 <= l < i ==> ks[l] != ks[i as int]);
                        assert(m0.contains_key(k));
                        assert(before[k] == m0[k]);
                        assert(ks.contains(k));
                        assert(other.view().contains_key(k));
                        assert(m0[k] != other.view()[k]);
                        assert(!agree(m0, other.view()));
                    }
                    return Err(e);
                },
            }
            i = i + 1;
        }
        proof {
            assert forall|k: Seq<char>| m0.contains_key(k) && other.view().contains_key(k) implies m0[k]
                == other.view()[k] by {
                assert(ks.to_set().contains(k));
                let j = choose|j: int| 0 <= j < ks.len() && ks[j] == k;
            }
            assert forall|k: Seq<char>| #[trigger] self.view().contains_key(k) <==> m0.union_prefer_right(
                other.view(),
            ).contains_key(k) by {
                if other.view().contains_key(k) {
                    assert(ks.to_set().contains(k));
                    let j = choose|j: int| 0 <= j < ks.len() && ks[j] == k;
                }
                if exists|j: int| 0 <= j < ks.len() && ks[j] == k {
                    let j = choose|j: int| 0 <= j < ks.len() && ks[j] == k;
                    assert(ks.contains(ks[j]));
                }
            }
            assert forall|k: Seq<char>| #[trigger] self.view().contains_key(k) implies self.view()[k]
                == m0.union_prefer_right(other.view())[k] by {
                if other.view().contains_key(k) {
                    assert(ks.to_set().contains(k));
                    let j = choose|j: int| 0 <= j < ks.len() && ks[j] == k;
                } else {
                    assert forall|j: int| 0 <= j < ks.len() implies ks[j] != k by {
                        assert(ks.contains(ks[j]));
                    }
                }
            }
            assert(self.view() =~= m0.union_prefer_right(other.view()));
        }
        Ok(())
    }

    /// Applies `f` to every value of every binding, keeping names and
    /// shapes.
    pub fn map<F: Fn(&Vec<TokenTree>) -> Vec<TokenTree>>(&self, f: &F) -> (r: StructuredBindings)
        requires
            self.wf(),
            forall|v: &Vec<TokenTree>| #[trigger] f.requires((v,)),
        ensures
            r.wf(),
            r.keys() == self.keys(),
            r.bindings().len() == self.bindings().len(),
            forall|i: int|
                0 <= i < self.bindings().len() ==> mapped_by(#[trigger] self.bindings()[i], r.bindings()[i], *f),
    {
        proof {
            self.lemma_inv();
        }
        let mut values: Vec<StructuredBinding> = Vec::new();
        let mut i: usize = 0;
        while i < self.values.len()
            invariant
                self.wf(),
                i <= self.values.len(),
                values.len() == i,
                forall|v: &Vec<TokenTree>| #[trigger] f.requires((v,)),
                forall|j: int| 0 <= j < i ==> mapped_by(#[trigger] self.values@[j], values@[j], *f),
            decreases self.values.len() - i,
        {
            values.push(self.values[i].map(f));
            i = i + 1;
        }
        let mut names: Vec<String> = Vec::new();
        let mut k: usize = 0;
        while k < self.names.len()
            invariant
                k <= self.names.len(),
                names.len() == k,
                forall|j: int| 0 <= j < k ==> #[trigger] names@[j]@ == self.names@[j]@,
            decreases self.names.len() - k,
        {
            names.push(self.names[k].clone());
            k = k + 1;
        }
        assert(names_view(names@) =~= names_view(self.names@));
        let r = StructuredBindings { names, values };
        proof {
            r.lemma_inv();
        }
        r
    }

    /// The bindings of the names `names` alone, in that order.
    pub fn project(&self, names: &Vec<String>) -> (r: Result<StructuredBindings, ParameterBindingNotFound>)
        requires
            self.wf(),
            names_view(names@).no_duplicates(),
        ensures
            r is Ok <==> first_missing(names_view(names@), self.view()) is None,
            r matches Ok(p) ==> p.wf() && p.keys() == names_view(names@) && p.view() == self.view().restrict(
                names_view(names@).to_set(),
            ),
            r matches Err(e) ==> first_missing(names_view(names@), self.view()) == Some(e.parameter@),
    {
        let ghost ns = names_view(names@);
        let mut p = StructuredBindings::new();
        proof {
            assert(ns.subrange(0, ns.len() as int) == ns);
            assert(ns.subrange(0, 0) =~= Seq::<Seq<char>>::empty());
            assert(p.view() =~= self.view().restrict(ns.subrange(0, 0).to_set()));
        }
        let mut i: usize = 0;
        while i < names.len()
            invariant
                self.wf(),
                p.wf(),
                i <= names.len(),
                ns == names_view(names@),
                ns.len() == names.len(),
                ns.no_duplicates(),
                p.keys() == ns.subrange(0, i as int),
                first_missing(ns, self.view()) == first_missing(ns.subrange(i as int, ns.len() as int), self.view()),
                p.view() == self.view().restrict(ns.subrange(0, i as int).to_set()),
            decreases names.len() - i,
        {
            let ghost rest = ns.subrange(i as int, ns.len() as int);
            assert(rest[0] == names@[i as int]@);
            assert(rest.drop_first() == ns.subrange(i + 1, ns.len() as int));
            match self.get(&names[i]) {
                None => {
                    return Err(ParameterBindingNotFound { parameter: names[i].clone() });
                },
                Some(b) => {
                    let c = b.duplicate();
                    proof {
                        assert(!ns.subrange(0, i as int).contains(names@[i as int]@)) by {
                            if ns.subrange(0, i as int).contains(names@[i as int]@) {
                                let j = choose|j: int| 0 <= j < i && ns.subrange(0, i as int)[j] == names@[i as int]@;
                                assert(ns[j] == ns[i as int]);
                            }
                        }
                        assert(p.keys().to_set().contains(names@[i as int]@) ==> p.keys().contains(names@[i as int]@));
                    }
                    p.push_new(names[i].clone(), c);
                    proof {
                        assert(ns.subrange(0, i + 1) =~= ns.subrange(0, i as int).push(ns[i as int]));
                        ns.subrange(0, i as int).lemma_push_to_set_commute(ns[i as int]);
                        assert(p.view() =~= self.view().restrict(ns.subrange(0, i + 1).to_set()));
                    }
                },
            }
            i = i + 1;
        }
        proof {
            assert(ns.subrange(0, ns.len() as int) == ns);
            assert(ns.subrange(ns.len() as int, ns.len() as int) =~= Seq::<Seq<char>>::empty());
        }
        Ok(p)
    }

    /// The binding of `name`, which must be a value.
    pub fn get_value(&self, name: &String) -> (r: Result<&Vec<TokenTree>, StructuredBindingLookupError>)
        requires
            self.wf(),
        ensures
            r matches Ok(v) ==> self.view().contains_key(name@) && self.view()[name@] == BindV::Value(
                tokens_view(v@),
            ),
            r matches Err(StructuredBindingLookupError::NotFound(e)) ==> e.parameter@ == name@
                && !self.view().contains_key(name@),
            r matches Err(StructuredBindingLookupError::TypeMismatch(e)) ==> e.parameter@ == name@
                && self.view().contains_key(name@) && e.found == kind_of(self.view()[name@]) && e.expected
                == StructuredBindingType::Value && !(self.view()[name@] is Value),
            r is Ok <==> self.view().contains_key(name@) && self.view()[name@] is Value,
    {
        match self.get(name) {
            None => Err(StructuredBindingLookupError::NotFound(ParameterBindingNotFound { parameter: name.clone() })),
            Some(b) => match b {
                StructuredBinding::Value(v) => Ok(v),
                _ => Err(
                    StructuredBindingLookupError::TypeMismatch(
                        StructuredBindingTypeMismatch {
                            parameter: name.clone(),
                            found: b.ty(),
                            expected: StructuredBindingType::Value,
                        },
                    ),
                ),
            },
        }
    }

    /// The binding of `name` if it has one, which must then be a value.
    pub fn get_maybe_value(&self, name: &String) -> (r: Result<Option<&Vec<TokenTree>>, StructuredBindingTypeMismatch>)
        requires
            self.wf(),
        ensures
            r matches Ok(Some(v)) ==> self.view().contains_key(name@) && self.view()[name@] == BindV::Value(
                tokens_view(v@),
            ),
            r matches Ok(None) <==> !self.view().contains_key(name@),
            r is Err <==> self.view().contains_key(name@) && !(self.view()[name@] is Value),
            r matches Err(e) ==> e.parameter@ == name@ && e.found == kind_of(self.view()[name@])
                && e.expected == StructuredBindingType::Value,
    {
        match self.get(name) {
            None => Ok(None),
            Some(b) => match b {
                StructuredBinding::Value(v) => Ok(Some(v)),
                _ => Err(
                    StructuredBindingTypeMismatch {
                        parameter: name.clone(),
                        found: b.ty(),
                        expected: StructuredBindingType::Value,
                    },
                ),
            },
        }
    }

    /// The iteration count bound to `name`, if it has a binding, which must
    /// then be an index.
    pub fn get_index_len(&self, name: &String) -> (r: Result<Option<usize>, StructuredBindingTypeMismatch>)
        requires
            self.wf(),
        ensures
            r matches Ok(Some(n)) ==> self.view().contains_key(name@) && self.view()[name@] == BindV::Index(
                n as nat,
            ),
            r matches Ok(None) <==> !self.view().contains_key(name@),
            r is Err <==> self.view().contains_key(name@) && !(self.view()[name@] is Index),
            r matches Err(e) ==> e.parameter@ == name@ && e.found == kind_of(self.view()[name@])
                && e.expected == StructuredBindingType::Index,
    {
        match self.get(name) {
            None => Ok(None),
            Some(b) => match b {
                StructuredBinding::Index(n) => Ok(Some(*n)),
                _ => Err(
                    StructuredBindingTypeMismatch {
                        parameter: name.clone(),
                        found: b.ty(),
                        expected: StructuredBindingType::Index,
                    },
                ),
            },
        }
    }

    /// Checks that every binding has shape `t`, in key order.
    pub fn check_shapes(&self, t: StructuredBindingType) -> (r: Result<(), StructuredBindingTypeMismatch>)
        requires
            self.wf(),
        ensures
            r is Ok <==> first_not_of(self.keys(), self.view(), t) is None,
            r matches Err(e) ==> first_not_of(self.keys(), self.view(), t) == Some(e.parameter@)
                && e.found == kind_of(self.view()[e.parameter@]) && e.expected == t,
    {
        proof {
            self.lemma_inv();
        }
        let ghost ks = self.keys();
        let ghost m = self.view();
        let n = self.names.len();
        proof {
            assert(ks.subrange(0, n as int) == ks);
        }
        let mut i: usize = 0;
        while i < n
            invariant
                self.wf(),
                ks == self.keys(),
                m == self.view(),
                n == self.names.len(),
                ks.len() == n,
                i <= n,
                forall|j: int|
                    0 <= j < n ==> #[trigger] ks[j] == self.names@[j]@ && m[self.names@[j]@]
                        == binding_view(self.values@[j]),
                first_not_of(ks, m, t) == first_not_of(ks.subrange(i as int, n as int), m, t),
            decreases n - i,
        {
            let ghost rest = ks.subrange(i as int, n as int);
            assert(rest[0] == ks[i as int]);
            assert(rest.drop_first() == ks.subrange(i + 1, n as int));
            let k = self.values[i].ty();
            if k != t {
                return Err(
                    StructuredBindingTypeMismatch { parameter: self.names[i].clone(), found: k, expected: t },
                );
            }
            i = i + 1;
        }
        proof {
            assert(first_not_of(ks.subrange(n as int, n as int), m, t) is None);
        }
        Ok(())
    }

    /// The first name, in key order, whose list binding is empty.
    pub fn first_empty_list(&self) -> (r: Option<String>)
        requires
            self.wf(),
        ensures
            r matches Some(n) ==> first_shorter(self.keys(), self.view(), 0) == Some(n@),
            r is None ==> first_shorter(self.keys(), self.view(), 0) is None,
    {
        proof {
            self.lemma_inv();
        }
        let ghost ks = self.keys();
        let ghost m = self.view();
        let n = self.names.len();
        proof {
            assert(ks.subrange(0, n as int) == ks);
        }
        let mut i: usize = 0;
        while i < n
            invariant
                self.wf(),
                ks == self.keys(),
                m == self.view(),
                n == self.names.len(),
                ks.len() == n,
                i <= n,
                forall|j: int|
                    0 <= j < n ==> #[trigger] ks[j] == self.names@[j]@ && m[self.names@[j]@]
                        == binding_view(self.values@[j]),
                first_shorter(ks, m, 0) == first_shorter(ks.subrange(i as int, n as int), m, 0),
            decreases n - i,
        {
            let ghost rest = ks.subrange(i as int, n as int);
            assert(rest[0] == ks[i as int]);
            assert(rest.drop_first() == ks.subrange(i + 1, n as int));
            let len = match &self.values[i] {
                StructuredBinding::ZeroOrMore(v) => v.len(),
                StructuredBinding::OneOrMore(v) => v.len(),
                _ => 0,
            };
            proof {
                lemma_bindings_seq_view(match self.values@[i as int] {
                    StructuredBinding::ZeroOrMore(v) => v@,
                    StructuredBinding::OneOrMore(v) => v@,
                    _ => Seq::empty(),
                });
            }
            if len == 0 {
                return Some(self.names[i].clone());
            }
            i = i + 1;
        }
        proof {
            assert(first_shorter(ks.subrange(n as int, n as int), m, 0) is None);
        }
        None
    }

    /// Checks that every binding is a list of shape `t`, and gives the
    /// number of iterations that the lists allow.
    pub fn list_count(&self, t: StructuredBindingType) -> (r: Result<usize, StructuredBindingTypeMismatch>)
        requires
            self.wf(),
        ensures
            r is Ok <==> first_not_of(self.keys(), self.view(), t) is None,
            r matches Ok(c) ==> c == iteration_count(self.keys(), self.view()),
            r matches Err(e) ==> first_not_of(self.keys(), self.view(), t) == Some(e.parameter@)
                && e.found == kind_of(self.view()[e.parameter@]) && e.expected == t,
    {
        proof {
            self.lemma_inv();
        }
        match self.check_shapes(t) {
            Ok(()) => {},
            Err(e) => {
                return Err(e);
            },
        }
        let ghost ks = self.keys();
        let ghost m = self.view();
        let n = self.names.len();
        let mut c: usize = 0;
        let mut j: usize = n;
        proof {
            assert(ks.subrange(n as int, n as int) =~= Seq::<Seq<char>>::empty());
        }
        while j > 0
            invariant
                self.wf(),
                ks == self.keys(),
                m == self.view(),
                n == self.names.len(),
                ks.len() == n,
                j <= n,
                forall|l: int|
                    0 <= l < n ==> #[trigger] ks[l] == self.names@[l]@ && m[self.names@[l]@]
                        == binding_view(self.values@[l]),
                c == iteration_count(ks.subrange(j as int, n as int), m),
            decreases j,
        {
            let len = match &self.values[j - 1] {
                StructuredBinding::ZeroOrMore(v) => v.len(),
                StructuredBinding::OneOrMore(v) => v.len(),
                _ => 0,
            };
            proof {
                lemma_bindings_seq_view(match self.values@[j - 1] {
                    StructuredBinding::ZeroOrMore(v) => v@,
                    StructuredBinding::OneOrMore(v) => v@,
                    _ => Seq::empty(),
                });
                assert(len == elems(m[ks[j - 1]]).len());
                let s = ks.subrange(j - 1, n as int);
                assert(s[0] == ks[j - 1]);
                assert(s.drop_first() == ks.subrange(j as int, n as int));
            }
            if j == n || len < c {
                c = len;
            }
            j = j - 1;
        }
        proof {
            assert(ks.subrange(0, n as int) == ks);
        }
        Ok(c)
    }

    /// The bindings of iteration `k`: each name bound to element `k` of
    /// its list.
    pub fn iteration_view(&self, k: usize) -> (r: StructuredBindings)
        requires
            self.wf(),
            forall|n: Seq<char>| #[trigger] self.view().contains_key(n) ==> k < elems(self.view()[n]).len(),
        ensures
            r.wf(),
            r.keys() == self.keys(),
            r.view() == iteration_map(self.view(), k as int),
    {
        proof {
            self.lemma_inv();
        }
        let ghost ks = self.keys();
        let ghost m = self.view();
        let mut p = StructuredBindings::new();
        proof {
            assert(ks.subrange(0, 0) =~= Seq::<Seq<char>>::empty());
            assert(p.view() =~= iteration_map(m, k as int).restrict(ks.subrange(0, 0).to_set()));
        }
        let mut i: usize = 0;
        while i < self.names.len()
            invariant
                self.wf(),
                p.wf(),
                ks == self.keys(),
                m == self.view(),
                ks.len() == self.names.len(),
                ks.no_duplicates(),
                i <= self.names.len(),
                forall|n: Seq<char>| #[trigger] m.contains_key(n) ==> k < elems(m[n]).len(),
                forall|j: int|
                    0 <= j < self.names.len() ==> #[trigger] ks[j] == self.names@[j]@ && m[self.names@[j]@]
                        == binding_view(self.values@[j]),
                p.keys() == ks.subrange(0, i as int),
                p.view() == iteration_map(m, k as int).restrict(ks.subrange(0, i as int).to_set()),
            decreases self.names.len() - i,
        {
            proof {
                assert(ks.contains(ks[i as int]));
                assert(m.contains_key(ks[i as int]));
            }
            let b = match &self.values[i] {
                StructuredBinding::ZeroOrMore(v) => {
                    proof { lemma_bindings_seq_view(v@); }
                    v[k].duplicate()
                },
                StructuredBinding::OneOrMore(v) => {
                    proof { lemma_bindings_seq_view(v@); }
                    v[k].duplicate()
                },
                _ => {
                    proof { assert(false); }
                    StructuredBinding::Index(0)
                },
            };
            proof {
                assert(!ks.subrange(0, i as int).contains(ks[i as int])) by {
                    if ks.subrange(0, i as int).contains(ks[i as int]) {
                        let j = choose|j: int| 0 <= j < i && ks.subrange(0, i as int)[j] == ks[i as int];
                        assert(ks[j] == ks[i as int]);
                    }
                }
                assert(p.keys().to_set().contains(ks[i as int]) ==> p.keys().contains(ks[i as int]));
            }
            p.push_new(self.names[i].clone(), b);
            proof {
                assert(ks.subrange(0, i + 1) =~= ks.subrange(0, i as int).push(ks[i as int]));
                ks.subrange(0, i as int).lemma_push_to_set_commute(ks[i as int]);
                assert(p.view() =~= iteration_map(m, k as int).restrict(ks.subrange(0, i + 1).to_set()));
            }
            i = i + 1;
        }
        proof {
            assert(ks.subrange(0, ks.len() as int) == ks);
            assert(p.view() =~= iteration_map(m, k as int));
        }
        p
    }

    /// The bindings inside an optional block, or `None` when some name is
    /// bound to an absent block.
    pub fn unwrap_optionals(&self) -> (r: Option<StructuredBindings>)
        requires
            self.wf(),
            forall|n: Seq<char>| #[trigger] self.view().contains_key(n) ==> self.view()[n] is Optional,
        ensures
            r is None <==> some_absent(self.view()),
            r matches Some(p) ==> p.wf() && p.keys() == self.keys() && p.view() == unwrap_optional(
                self.view(),
            ),
    {
        proof {
            self.lemma_inv();
        }
        let ghost ks = self.keys();
        let ghost m = self.view();
        let mut p = StructuredBindings::new();
        proof {
            assert(ks.subrange(0, 0) =~= Seq::<Seq<char>>::empty());
            assert(p.view() =~= unwrap_optional(m).restrict(ks.subrange(0, 0).to_set()));
        }
        let mut i: usize = 0;
        while i < self.names.len()
            invariant
                self.wf(),
                p.wf(),
                ks == self.keys(),
                m == self.view(),
                ks.len() == self.names.len(),
                ks.no_duplicates(),
                i <= self.names.len(),
                forall|n: Seq<char>| #[trigger] m.contains_key(n) ==> m[n] is Optional,
                forall|j: int|
                    0 <= j < self.names.len() ==> #[trigger] ks[j] == self.names@[j]@ && m[self.names@[j]@]
                        == binding_view(self.values@[j]),
                forall|j: int| 0 <= j < i ==> m[#[trigger] ks[j]] != BindV::Optional(None),
                p.keys() == ks.subrange(0, i as int),
                p.view() == unwrap_optional(m).restrict(ks.subrange(0, i as int).to_set()),
            decreases self.names.len() - i,
        {
            proof {
                assert(ks.contains(ks[i as int]));
                assert(m.contains_key(ks[i as int]));
            }
            let b = match &self.values[i] {
                StructuredBinding::Optional(o) => match o {
                    Some(x) => x.duplicate(),
                    None => {
                        return None;
                    },
                },
                _ => {
                    proof { assert(false); }
                    StructuredBinding::Index(0)
                },
            };
            proof {
                assert(!ks.subrange(0, i as int).contains(ks[i as int])) by {
                    if ks.subrange(0, i as int).contains(ks[i as int]) {
                        let j = choose|j: int| 0 <= j < i && ks.subrange(0, i as int)[j] == ks[i as int];
                        assert(ks[j] == ks[i as int]);
                    }
                }
                assert(p.keys().to_set().contains(ks[i as int]) ==> p.keys().contains(ks[i as int]));
            }
            p.push_new(self.names[i].clone(), b);
            proof {
                assert(ks.subrange(0, i + 1) =~= ks.subrange(0, i as int).push(ks[i as int]));
                ks.subrange(0, i as int).lemma_push_to_set_commute(ks[i as int]);
                assert(p.view() =~= unwrap_optional(m).restrict(ks.subrange(0, i + 1).to_set()));
            }
            i = i + 1;
        }
        proof {
            assert(ks.subrange(0, ks.len() as int) == ks);
            assert(p.view() =~= unwrap_optional(m));
            assert forall|n: Seq<char>| m.contains_key(n) implies m[n] != BindV::Optional(None) by {
                assert(ks.to_set().contains(n));
                let j = choose|j: int| 0 <= j < ks.len() && ks[j] == n;
            }
        }
        Some(p)
    }
}

} // verus!

verus! {

/// Every list allows `iteration_count` elements.
pub proof fn lemma_iteration_count(ns: Seq<Seq<char>>, m: BindingMap, j: int)
    requires
        0 <= j < ns.len(),
    ensures
        iteration_count(ns, m) <= elems(m[ns[j]]).len(),
    decreases ns.len(),
{
    if ns.len() > 1 && j > 0 {
        lemma_iteration_count(ns.drop_first(), m, j - 1);
    }
    if ns.len() > 1 && j == 0 {
    }
}

/// A name that `first_not_of` does not report has the shape asked for.
pub proof fn lemma_first_not_of_none(ns: Seq<Seq<char>>, m: BindingMap, t: StructuredBindingType, j: int)
    requires
        first_not_of(ns, m, t) is None,
        0 <= j < ns.len(),
    ensures
        kind_of(m[ns[j]]) == t,
    decreases ns.len(),
{
    if j > 0 {
        lemma_first_not_of_none(ns.drop_first(), m, t, j - 1);
    }
}

/// The bindings that an optional block gives to `names`.
pub(crate) fn lift_optional_bindings(names: &Vec<String>, inner: Option<&StructuredBindings>) -> (r: StructuredBindings)
    requires
        names_view(names@).no_duplicates(),
        inner matches Some(b) ==> b.wf() && forall|j: int|
            0 <= j < names.len() ==> b.view().contains_key(#[trigger] names@[j]@),
    ensures
        r.wf(),
        r.keys() == names_view(names@),
        r.view() == lift_optional(
            names_view(names@).to_set(),
            match inner {
                Some(b) => Some(b.view()),
                None => None,
            },
        ),
{
    let ghost ns = names_view(names@);
    let ghost target = lift_optional(
        ns.to_set(),
        match inner {
            Some(b) => Some(b.view()),
            None => None,
        },
    );
    let mut p = StructuredBindings::new();
    proof {
        assert(ns.subrange(0, 0) =~= Seq::<Seq<char>>::empty());
        assert(p.view() =~= target.restrict(ns.subrange(0, 0).to_set()));
    }
    let mut i: usize = 0;
    while i < names.len()
        invariant
            p.wf(),
            ns == names_view(names@),
            ns.len() == names.len(),
            ns.no_duplicates(),
            i <= names.len(),
            inner matches Some(b) ==> b.wf() && forall|j: int|
                0 <= j < names.len() ==> b.view().contains_key(#[trigger] names@[j]@),
            target == lift_optional(
                ns.to_set(),
                match inner {
                    Some(b) => Some(b.view()),
                    None => None,
                },
            ),
            p.keys() == ns.subrange(0, i as int),
            p.view() == target.restrict(ns.subrange(0, i as int).to_set()),
        decreases names.len() - i,
    {
        assert(ns[i as int] == names@[i as int]@);
        assert(ns.contains(ns[i as int]));
        let b = match inner {
            Some(m) => StructuredBinding::Optional(Some(Box::new(m.get(&names[i]).unwrap().duplicate()))),
            None => StructuredBinding::Optional(None),
        };
        proof {
            assert(!ns.subrange(0, i as int).contains(ns[i as int])) by {
                if ns.subrange(0, i as int).contains(ns[i as int]) {
                    let j = choose|j: int| 0 <= j < i && ns.subrange(0, i as int)[j] == ns[i as int];
                    assert(ns[j] == ns[i as int]);
                }
            }
            assert(p.keys().to_set().contains(ns[i as int]) ==> p.keys().contains(ns[i as int]));
        }
        p.push_new(names[i].clone(), b);
        proof {
            assert(ns.subrange(0, i + 1) =~= ns.subrange(0, i as int).push(ns[i as int]));
            ns.subrange(0, i as int).lemma_push_to_set_commute(ns[i as int]);
            assert(p.view() =~= target.restrict(ns.subrange(0, i + 1).to_set()));
        }
        i = i + 1;
    }
    proof {
        assert(ns.subrange(0, ns.len() as int) == ns);
        assert(p.view() =~= target);
    }
    p
}

/// The views of a sequence of binding stores.
pub open spec fn stores_view(s: Seq<StructuredBindings>) -> Seq<BindingMap> {
    s.map_values(|b: StructuredBindings| b.view())
}

/// The bindings that a repetition gives to `names`, from the bindings of
/// its iterations.
pub(crate) fn lift_repetition_bindings(names: &Vec<String>, its: &Vec<StructuredBindings>, one: bool) -> (r: StructuredBindings)
    requires
        names_view(names@).no_duplicates(),
        forall|k: int| 0 <= k < its.len() ==> (#[trigger] its@[k]).wf(),
        forall|k: int, j: int|
            0 <= k < its.len() && 0 <= j < names.len() ==> (#[trigger] its@[k]).view().contains_key(
                #[trigger] names@[j]@,
            ),
    ensures
        r.wf(),
        r.keys() == names_view(names@),
        r.view() == lift_repetition(names_view(names@).to_set(), stores_view(its@), one),
{
    let ghost ns = names_view(names@);
    let ghost target = lift_repetition(ns.to_set(), stores_view(its@), one);
    let mut p = StructuredBindings::new();
    proof {
        assert(ns.subrange(0, 0) =~= Seq::<Seq<char>>::empty());
        assert(p.view() =~= target.restrict(ns.subrange(0, 0).to_set()));
    }
    let mut i: usize = 0;
    while i < names.len()
        invariant
            p.wf(),
            ns == names_view(names@),
            ns.len() == names.len(),
            ns.no_duplicates(),
            i <= names.len(),
            forall|k: int| 0 <= k < its.len() ==> (#[trigger] its@[k]).wf(),
            forall|k: int, j: int|
                0 <= k < its.len() && 0 <= j < names.len() ==> (#[trigger] its@[k]).view().contains_key(
                    #[trigger] names@[j]@,
                ),
            target == lift_repetition(ns.to_set(), stores_view(its@), one),
            p.keys() == ns.subrange(0, i as int),
            p.view() == target.restrict(ns.subrange(0, i as int).to_set()),
        decreases names.len() - i,
    {
        assert(ns[i as int] == names@[i as int]@);
        assert(ns.contains(ns[i as int]));
        let mut list: Vec<StructuredBinding> = Vec::new();
        let mut k: usize = 0;
        while k < its.len()
            invariant
                i < names.len(),
                k <= its.len(),
                list.len() == k,
                forall|k: int| 0 <= k < its.len() ==> (#[trigger] its@[k]).wf(),
                forall|k: int, j: int|
                    0 <= k < its.len() && 0 <= j < names.len() ==> (#[trigger] its@[k]).view().contains_key(
                        #[trigger] names@[j]@,
                    ),
                forall|l: int| 0 <= l < k ==> binding_view(#[trigger] list@[l]) == its@[l].view()[names@[i as int]@],
            decreases its.len() - k,
        {
            let b = its[k].get(&names[i]).unwrap().duplicate();
            list.push(b);
            k = k + 1;
        }
        proof {
            lemma_bindings_seq_view(list@);
            assert(bindings_seq_view(list@) =~= stores_view(its@).map_values(|m: BindingMap| m[ns[i as int]]));
        }
        let b = if one {
            StructuredBinding::OneOrMore(list)
        } else {
            StructuredBinding::ZeroOrMore(list)
        };
        proof {
            assert(!ns.subrange(0, i as int).contains(ns[i as int])) by {
                if ns.subrange(0, i as int).contains(ns[i as int]) {
                    let j = choose|j: int| 0 <= j < i && ns.subrange(0, i as int)[j] == ns[i as int];
                    assert(ns[j] == ns[i as int]);
                }
            }
            assert(p.keys().to_set().contains(ns[i as int]) ==> p.keys().contains(ns[i as int]));
        }
        p.push_new(names[i].clone(), b);
        proof {
            assert(ns.subrange(0, i + 1) =~= ns.subrange(0, i as int).push(ns[i as int]));
            ns.subrange(0, i as int).lemma_push_to_set_commute(ns[i as int]);
            assert(p.view() =~= target.restrict(ns.subrange(0, i + 1).to_set()));
        }
        i = i + 1;
    }
    proof {
        assert(ns.subrange(0, ns.len() as int) == ns);
        assert(p.view() =~= target);
    }
    p
}

} // verus!
