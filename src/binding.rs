//! Structured bindings: the nested values bound to parameter names.

use vstd::prelude::*;
use crate::token::{TokenTree, TokV, tokens_view, copy_tokens, tokens_eq};

verus! {

/// The shape of a structured binding.
#[derive(Clone, Copy, Debug, PartialEq, Eq, Structural)]
pub enum StructuredBindingType {
    Value,
    Index,
    Optional,
    ZeroOrMore,
    OneOrMore,
}

/// The value bound to one parameter name.
#[derive(Debug)]
pub enum StructuredBinding {
    /// The tokens that a parameter matched.
    Value(Vec<TokenTree>),
    /// The number of iterations of a repetition with a named index.
    Index(usize),
    /// The binding inside an optional block, if the block was present.
    Optional(Option<Box<StructuredBinding>>),
    /// One binding per iteration of a zero-or-more repetition.
    ZeroOrMore(Vec<StructuredBinding>),
    /// One binding per iteration of a one-or-more repetition.
    OneOrMore(Vec<StructuredBinding>),
}

/// The mathematical value of a structured binding.
pub enum BindV {
    Value(Seq<TokV>),
    Index(nat),
    Optional(Option<Box<BindV>>),
    ZeroOrMore(Seq<BindV>),
    OneOrMore(Seq<BindV>),
}

pub open spec fn binding_view(b: StructuredBinding) -> BindV
    decreases b,
{
    match b {
        StructuredBinding::Value(v) => BindV::Value(tokens_view(v@)),
        StructuredBinding::Index(n) => BindV::Index(n as nat),
        StructuredBinding::Optional(o) => match o {
            Some(x) => BindV::Optional(Some(Box::new(binding_view(*x)))),
            None => BindV::Optional(None),
        },
        StructuredBinding::ZeroOrMore(v) => BindV::ZeroOrMore(bindings_seq_view(v@)),
        StructuredBinding::OneOrMore(v) => BindV::OneOrMore(bindings_seq_view(v@)),
    }
}

pub open spec fn bindings_seq_view(s: Seq<StructuredBinding>) -> Seq<BindV>
    decreases s,
{
    if s.len() == 0 {
        Seq::empty()
    } else {
        bindings_seq_view(s.drop_last()).push(binding_view(s.last()))
    }
}

pub proof fn lemma_bindings_seq_view(s: Seq<StructuredBinding>)
    ensures
        bindings_seq_view(s).len() == s.len(),
        forall|i: int| 0 <= i < s.len() ==> #[trigger] bindings_seq_view(s)[i] == binding_view(s[i]),
    decreases s.len(),
{
    if s.len() > 0 {
        lemma_bindings_seq_view(s.drop_last());
    }
}

/// The shape of a binding value.
pub open spec fn kind_of(b: BindV) -> StructuredBindingType {
    match b {
        BindV::Value(_) => StructuredBindingType::Value,
        BindV::Index(_) => StructuredBindingType::Index,
        BindV::Optional(_) => StructuredBindingType::Optional,
        BindV::ZeroOrMore(_) => StructuredBindingType::ZeroOrMore,
        BindV::OneOrMore(_) => StructuredBindingType::OneOrMore,
    }
}

/// Tells whether `b` maps to `r` by `f` on every value, keeping the shape.
pub open spec fn mapped_by<F: Fn(&Vec<TokenTree>) -> Vec<TokenTree>>(
    b: StructuredBinding,
    r: StructuredBinding,
    f: F,
) -> bool
    decreases b,
{
    match b {
        StructuredBinding::Value(v) => r matches StructuredBinding::Value(w) && f.ensures((&v,), w),
        StructuredBinding::Index(n) => r == StructuredBinding::Index(n),
        StructuredBinding::Optional(o) => match o {
            Some(x) => r matches StructuredBinding::Optional(Some(y)) && mapped_by(*x, *y, f),
            None => r matches StructuredBinding::Optional(None),
        },
        StructuredBinding::ZeroOrMore(v) => r matches StructuredBinding::ZeroOrMore(w) && w.len()
            == v.len() && (forall|i: int| 0 <= i < v.len() ==> mapped_by(#[trigger] v@[i], w@[i], f)),
        StructuredBinding::OneOrMore(v) => r matches StructuredBinding::OneOrMore(w) && w.len()
            == v.len() && (forall|i: int| 0 <= i < v.len() ==> mapped_by(#[trigger] v@[i], w@[i], f)),
    }
}

impl StructuredBinding {
    /// The shape of this binding.
    pub fn ty(&self) -> (r: StructuredBindingType)
        ensures
            r == kind_of(binding_view(*self)),
    {
        match self {
            StructuredBinding::Value(_) => StructuredBindingType::Value,
            StructuredBinding::Index(_) => StructuredBindingType::Index,
            StructuredBinding::Optional(_) => StructuredBindingType::Optional,
            StructuredBinding::ZeroOrMore(_) => StructuredBindingType::ZeroOrMore,
            StructuredBinding::OneOrMore(_) => StructuredBindingType::OneOrMore,
        }
    }

    /// A copy of this binding with the same value.
    pub fn duplicate(&self) -> (r: StructuredBinding)
        ensures
            binding_view(r) == binding_view(*self),
        decreases self,
    {
        match self {
            StructuredBinding::Value(v) => StructuredBinding::Value(copy_tokens(v)),
            StructuredBinding::Index(n) => StructuredBinding::Index(*n),
            StructuredBinding::Optional(o) => match o {
                Some(x) => StructuredBinding::Optional(Some(Box::new(x.duplicate()))),
                None => StructuredBinding::Optional(None),
            },
            StructuredBinding::ZeroOrMore(v) => StructuredBinding::ZeroOrMore(duplicate_all(v)),
            StructuredBinding::OneOrMore(v) => StructuredBinding::OneOrMore(duplicate_all(v)),
        }
    }

    /// Tells whether two bindings have the same value.
    pub fn same_as(&self, other: &StructuredBinding) -> (r: bool)
        ensures
            r == (binding_view(*self) == binding_view(*other)),
        decreases self,
    {
        match self {
            StructuredBinding::Value(v) => match other {
                StructuredBinding::Value(w) => tokens_eq(v, w),
                _ => false,
            },
            StructuredBinding::Index(n) => match other {
                StructuredBinding::Index(m) => *n == *m,
                _ => false,
            },
            StructuredBinding::Optional(o) => match other {
                StructuredBinding::Optional(p) => match o {
                    Some(x) => match p {
                        Some(y) => {
                            let e = x.same_as(y);
                            proof {
                                if binding_view(*self) == binding_view(*other) {
                                    assert(binding_view(**x) == binding_view(**y));
                                }
                            }
                            e
                        },
                        None => false,
                    },
                    None => p.is_none(),
                },
                _ => false,
            },
            StructuredBinding::ZeroOrMore(v) => match other {
                StructuredBinding::ZeroOrMore(w) => all_same(v, w),
                _ => false,
            },
            StructuredBinding::OneOrMore(v) => match other {
                StructuredBinding::OneOrMore(w) => all_same(v, w),
                _ => false,
            },
        }
    }

    /// Applies `f` to every value of this binding, keeping its shape.
    pub fn map<F: Fn(&Vec<TokenTree>) -> Vec<TokenTree>>(&self, f: &F) -> (r: StructuredBinding)
        requires
            forall|v: &Vec<TokenTree>| #[trigger] f.requires((v,)),
        ensures
            mapped_by(*self, r, *f),
        decreases self,
    {
        match self {
            StructuredBinding::Value(v) => StructuredBinding::Value(f(v)),
            StructuredBinding::Index(n) => StructuredBinding::Index(*n),
            StructuredBinding::Optional(o) => match o {
                Some(x) => StructuredBinding::Optional(Some(Box::new(x.map(f)))),
                None => StructuredBinding::Optional(None),
            },
            StructuredBinding::ZeroOrMore(v) => StructuredBinding::ZeroOrMore(map_all(v, f)),
            StructuredBinding::OneOrMore(v) => StructuredBinding::OneOrMore(map_all(v, f)),
        }
    }
}

fn duplicate_all(v: &Vec<StructuredBinding>) -> (r: Vec<StructuredBinding>)
    ensures
        bindings_seq_view(r@) == bindings_seq_view(v@),
    decreases v,
{
    let mut r: Vec<StructuredBinding> = Vec::new();
    let mut i: usize = 0;
    while i < v.len()
        invariant
            i <= v.len(),
            bindings_seq_view(r@) == bindings_seq_view(v@.subrange(0, i as int)),
        decreases v.len() - i,
    {
        let b = v[i].duplicate();
        let ghost r0 = r@;
        r.push(b);
        proof {
            assert(r@.drop_last() == r0);
            assert(v@.subrange(0, i + 1).drop_last() == v@.subrange(0, i as int));
        }
        i = i + 1;
    }
    assert(v@.subrange(0, v.len() as int) == v@);
    r
}

fn all_same(a: &Vec<StructuredBinding>, b: &Vec<StructuredBinding>) -> (r: bool)
    ensures
        r == (bindings_seq_view(a@) == bindings_seq_view(b@)),
    decreases a,
{
    proof {
        lemma_bindings_seq_view(a@);
        lemma_bindings_seq_view(b@);
    }
    if a.len() != b.len() {
        return false;
    }
    let mut i: usize = 0;
    while i < a.len()
        invariant
            a.len() == b.len(),
            i <= a.len(),
            bindings_seq_view(a@).len() == a.len(),
            bindings_seq_view(b@).len() == b.len(),
            forall|j: int| 0 <= j < a.len() ==> #[trigger] bindings_seq_view(a@)[j] == binding_view(a@[j]),
            forall|j: int| 0 <= j < b.len() ==> #[trigger] bindings_seq_view(b@)[j] == binding_view(b@[j]),
            forall|j: int| 0 <= j < i ==> binding_view(#[trigger] a@[j]) == binding_view(b@[j]),
        decreases a.len() - i,
    {
        if !a[i].same_as(&b[i]) {
            assert(bindings_seq_view(a@)[i as int] != bindings_seq_view(b@)[i as int]);
            return false;
        }
        i = i + 1;
    }
    assert(bindings_seq_view(a@) =~= bindings_seq_view(b@));
    true
}

fn map_all<F: Fn(&Vec<TokenTree>) -> Vec<TokenTree>>(v: &Vec<StructuredBinding>, f: &F) -> (r: Vec<StructuredBinding>)
    requires
        forall|x: &Vec<TokenTree>| #[trigger] f.requires((x,)),
    ensures
        r.len() == v.len(),
        forall|i: int| 0 <= i < v.len() ==> mapped_by(#[trigger] v@[i], r@[i], *f),
    decreases v,
{
    let mut r: Vec<StructuredBinding> = Vec::new();
    let mut i: usize = 0;
    while i < v.len()
        invariant
            i <= v.len(),
            r.len() == i,
            forall|x: &Vec<TokenTree>| #[trigger] f.requires((x,)),
            forall|j: int| 0 <= j < i ==> mapped_by(#[trigger] v@[j], r@[j], *f),
        decreases v.len() - i,
    {
        let b = v[i].map(f);
        r.push(b);
        i = i + 1;
    }
    r
}

} // verus!
