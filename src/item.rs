//! Pattern items: the nodes of a parsed pattern.

use vstd::prelude::*;
use itertools::Itertools;
use crate::token::{Delimiter, TokV, TokenTree, token_view, tokens_view, lemma_tokens_view};

verus! {

/// The built-in parameter kinds, written `ident`, `literal`, `punct` and
/// `tt` in patterns.
///
/// Each kind binds exactly one token tree: an identifier, a literal, a
/// punctuation run, or any token tree (a group included).
#[derive(Clone, Copy, Debug, PartialEq, Eq, Structural)]
pub enum Fragment {
    Ident,
    Literal,
    Punct,
    TokenTree,
}

/// Tells whether a token tree is an instance of a fragment kind.
pub open spec fn fits(f: Fragment, t: TokV) -> bool {
    match f {
        Fragment::Ident => t is Ident,
        Fragment::Literal => t is Literal,
        Fragment::Punct => t is Punct,
        Fragment::TokenTree => true,
    }
}

/// Tells whether a token tree is an instance of a fragment kind.
pub fn fragment_fits(f: Fragment, t: &TokenTree) -> (r: bool)
    ensures
        r == fits(f, token_view(*t)),
{
    match f {
        Fragment::Ident => matches!(t, TokenTree::Ident(_)),
        Fragment::Literal => matches!(t, TokenTree::Literal(_)),
        Fragment::Punct => matches!(t, TokenTree::Punct(_)),
        Fragment::TokenTree => true,
    }
}

/// The payload strategy of a parameter: how its value is read from
/// input, checked on output, and named in pattern syntax. A value is the
/// sequence of tokens that the parameter matched.
pub trait ParameterKind: Copy + Sized {
    /// Where a value that starts at `input[pos]` ends, if one does.
    spec fn extent(&self, input: Seq<TokV>, pos: int) -> Option<int>;

    /// Tells whether `value` renders as a value of this kind.
    spec fn renders(&self, value: Seq<TokV>) -> bool;

    /// The kind that a name denotes, if any.
    spec fn named(name: Seq<char>) -> Option<Self>;

    /// The name of this kind.
    spec fn name(&self) -> Seq<char>;

    /// A value read from input lies within it and renders back.
    proof fn lemma_extent(&self, input: Seq<TokV>, pos: int)
        requires
            0 <= pos <= input.len(),
            self.extent(input, pos) is Some,
        ensures
            pos <= self.extent(input, pos)->Some_0 <= input.len(),
            self.renders(input.subrange(pos, self.extent(input, pos)->Some_0)),
    ;

    /// The name of this kind denotes it.
    proof fn lemma_name(&self)
        ensures
            Self::named(self.name()) == Some(*self),
    ;

    /// Reads a value from `input` at `pos`: where it ends.
    fn parse_binding(&self, input: &Vec<TokenTree>, pos: usize) -> (r: Option<usize>)
        requires
            pos <= input.len(),
        ensures
            r matches Some(q) ==> self.extent(tokens_view(input@), pos as int) == Some(q as int),
            r is None ==> self.extent(tokens_view(input@), pos as int) is None,
    ;

    /// Tells whether a value renders as a value of this kind.
    fn tokenize_binding(&self, value: &Vec<TokenTree>) -> (r: bool)
        ensures
            r == self.renders(tokens_view(value@)),
    ;

    /// The kind that a name denotes, if any.
    fn from_name(name: &String) -> (r: Option<Self>)
        ensures
            r == Self::named(name@),
    ;

    /// The name of this kind.
    fn to_name(&self) -> (r: String)
        ensures
            r@ == self.name(),
    ;
}

/// The fragment kind that a name denotes.
pub open spec fn fragment_named(s: Seq<char>) -> Option<Fragment> {
    if s == seq!['i', 'd', 'e', 'n', 't'] {
        Some(Fragment::Ident)
    } else if s == seq!['l', 'i', 't', 'e', 'r', 'a', 'l'] {
        Some(Fragment::Literal)
    } else if s == seq!['p', 'u', 'n', 'c', 't'] {
        Some(Fragment::Punct)
    } else if s == seq!['t', 't'] {
        Some(Fragment::TokenTree)
    } else {
        None
    }
}

/// The name of a fragment kind.
pub open spec fn fragment_name(f: Fragment) -> Seq<char> {
    match f {
        Fragment::Ident => seq!['i', 'd', 'e', 'n', 't'],
        Fragment::Literal => seq!['l', 'i', 't', 'e', 'r', 'a', 'l'],
        Fragment::Punct => seq!['p', 'u', 'n', 'c', 't'],
        Fragment::TokenTree => seq!['t', 't'],
    }
}

impl ParameterKind for Fragment {
    open spec fn extent(&self, input: Seq<TokV>, pos: int) -> Option<int> {
        if 0 <= pos < input.len() && fits(*self, input[pos]) {
            Some(pos + 1)
        } else {
            None
        }
    }

    open spec fn renders(&self, value: Seq<TokV>) -> bool {
        value.len() == 1 && fits(*self, value[0])
    }

    open spec fn named(name: Seq<char>) -> Option<Fragment> {
        fragment_named(name)
    }

    open spec fn name(&self) -> Seq<char> {
        fragment_name(*self)
    }

    proof fn lemma_extent(&self, input: Seq<TokV>, pos: int) {
        assert(input.subrange(pos, pos + 1) =~= seq![input[pos]]);
    }

    proof fn lemma_name(&self) {
    }

    fn parse_binding(&self, input: &Vec<TokenTree>, pos: usize) -> (r: Option<usize>) {
        proof {
            lemma_tokens_view(input@);
        }
        if pos < input.len() && fragment_fits(*self, &input[pos]) {
            Some(pos + 1)
        } else {
            None
        }
    }

    fn tokenize_binding(&self, value: &Vec<TokenTree>) -> (r: bool) {
        proof {
            lemma_tokens_view(value@);
        }
        value.len() == 1 && fragment_fits(*self, &value[0])
    }

    fn from_name(name: &String) -> (r: Option<Fragment>) {
        let ident = String::from_str("ident");
        let literal = String::from_str("literal");
        let punct = String::from_str("punct");
        let tt = String::from_str("tt");
        proof {
            reveal_strlit("ident");
            reveal_strlit("literal");
            reveal_strlit("punct");
            reveal_strlit("tt");
            assert(ident@ =~= seq!['i', 'd', 'e', 'n', 't']);
            assert(literal@ =~= seq!['l', 'i', 't', 'e', 'r', 'a', 'l']);
            assert(punct@ =~= seq!['p', 'u', 'n', 'c', 't']);
            assert(tt@ =~= seq!['t', 't']);
        }
        if name.eq(&ident) {
            Some(Fragment::Ident)
        } else if name.eq(&literal) {
            Some(Fragment::Literal)
        } else if name.eq(&punct) {
            Some(Fragment::Punct)
        } else if name.eq(&tt) {
            Some(Fragment::TokenTree)
        } else {
            None
        }
    }

    fn to_name(&self) -> (r: String) {
        let s = match self {
            Fragment::Ident => String::from_str("ident"),
            Fragment::Literal => String::from_str("literal"),
            Fragment::Punct => String::from_str("punct"),
            Fragment::TokenTree => String::from_str("tt"),
        };
        proof {
            reveal_strlit("ident");
            reveal_strlit("literal");
            reveal_strlit("punct");
            reveal_strlit("tt");
            assert(s@ =~= fragment_name(*self));
        }
        s
    }
}

/// One item of a pattern.
#[derive(Debug)]
pub enum PatternItem<P> {
    /// An identifier, matched verbatim.
    Ident(String),
    /// A literal, matched verbatim.
    Literal(String),
    /// A punctuation run, matched verbatim.
    Punct(String),
    /// A delimited group with a nested pattern.
    Group(Delimiter, Vec<PatternItem<P>>),
    /// `$name:kind`, the kind being the parameter's payload strategy.
    Parameter(String, P),
    /// `$#name`: the current iteration number of the enclosing repetition
    /// whose index is `name`.
    Index(String),
    /// `$( ... )?`
    Optional(Vec<PatternItem<P>>),
    /// `$[index]( ... ) sep *`, index and separator optional.
    ZeroOrMore(Option<String>, Vec<PatternItem<P>>, Option<String>),
    /// `$[index]( ... ) sep +`, index and separator optional.
    OneOrMore(Option<String>, Vec<PatternItem<P>>, Option<String>),
}

/// The mathematical value of a pattern item.
pub enum ItemV<P> {
    Ident(Seq<char>),
    Literal(Seq<char>),
    Punct(Seq<char>),
    Group(Delimiter, Seq<ItemV<P>>),
    Parameter(Seq<char>, P),
    Index(Seq<char>),
    Optional(Seq<ItemV<P>>),
    ZeroOrMore(Option<Seq<char>>, Seq<ItemV<P>>, Option<Seq<char>>),
    OneOrMore(Option<Seq<char>>, Seq<ItemV<P>>, Option<Seq<char>>),
}

pub open spec fn opt_view(o: Option<String>) -> Option<Seq<char>> {
    match o {
        Some(s) => Some(s@),
        None => None,
    }
}

pub open spec fn item_view<P: ParameterKind>(t: PatternItem<P>) -> ItemV<P>
    decreases t,
{
    match t {
        PatternItem::Ident(s) => ItemV::Ident(s@),
        PatternItem::Literal(s) => ItemV::Literal(s@),
        PatternItem::Punct(s) => ItemV::Punct(s@),
        PatternItem::Group(d, v) => ItemV::Group(d, items_view(v@)),
        PatternItem::Parameter(n, f) => ItemV::Parameter(n@, f),
        PatternItem::Index(n) => ItemV::Index(n@),
        PatternItem::Optional(v) => ItemV::Optional(items_view(v@)),
        PatternItem::ZeroOrMore(i, v, s) => ItemV::ZeroOrMore(opt_view(i), items_view(v@), opt_view(s)),
        PatternItem::OneOrMore(i, v, s) => ItemV::OneOrMore(opt_view(i), items_view(v@), opt_view(s)),
    }
}

pub open spec fn items_view<P: ParameterKind>(s: Seq<PatternItem<P>>) -> Seq<ItemV<P>>
    decreases s,
{
    if s.len() == 0 {
        Seq::empty()
    } else {
        items_view(s.drop_last()).push(item_view(s.last()))
    }
}

pub proof fn lemma_items_view<P: ParameterKind>(s: Seq<PatternItem<P>>)
    ensures
        items_view(s).len() == s.len(),
        forall|i: int| 0 <= i < s.len() ==> #[trigger] items_view(s)[i] == item_view(s[i]),
    decreases s.len(),
{
    if s.len() > 0 {
        lemma_items_view(s.drop_last());
    }
}

pub proof fn lemma_items_view_concat<P: ParameterKind>(a: Seq<PatternItem<P>>, b: Seq<PatternItem<P>>)
    ensures
        items_view(a + b) == items_view(a) + items_view(b),
{
    lemma_items_view(a);
    lemma_items_view(b);
    lemma_items_view(a + b);
    assert(items_view(a + b) =~= items_view(a) + items_view(b));
}

/// The names of the parameters of `items[i..]`, in order of occurrence,
/// nested ones included.
pub open spec fn params_from<P: ParameterKind>(items: Seq<ItemV<P>>, i: int) -> Seq<Seq<char>>
    decreases items, 1int, items.len() - i,
{
    if i < 0 || i >= items.len() {
        Seq::empty()
    } else {
        params_of(items[i]) + params_from(items, i + 1)
    }
}

/// The names of the parameters of one item, in order of occurrence.
pub open spec fn params_of<P: ParameterKind>(item: ItemV<P>) -> Seq<Seq<char>>
    decreases item, 0int, 0int,
{
    match item {
        ItemV::Parameter(n, _) => seq![n],
        ItemV::Group(_, inner) => params_from(inner, 0),
        ItemV::Optional(inner) => params_from(inner, 0),
        ItemV::ZeroOrMore(_, inner, _) => params_from(inner, 0),
        ItemV::OneOrMore(_, inner, _) => params_from(inner, 0),
        _ => Seq::empty(),
    }
}

/// The set of parameter names that a pattern references.
pub open spec fn refs<P: ParameterKind>(items: Seq<ItemV<P>>) -> Set<Seq<char>> {
    params_from(items, 0).to_set()
}

/// A sequence with only the first occurrence of each element kept.
pub open spec fn dedup_first<A>(s: Seq<A>) -> Seq<A>
    decreases s.len(),
{
    if s.len() == 0 {
        s
    } else {
        let r = dedup_first(s.drop_last());
        if r.contains(s.last()) {
            r
        } else {
            r.push(s.last())
        }
    }
}

pub proof fn lemma_dedup_first<A>(s: Seq<A>)
    ensures
        dedup_first(s).to_set() == s.to_set(),
        dedup_first(s).no_duplicates(),
    decreases s.len(),
{
    if s.len() > 0 {
        lemma_dedup_first(s.drop_last());
        let r = dedup_first(s.drop_last());
        assert(s == s.drop_last().push(s.last()));
        s.drop_last().lemma_push_to_set_commute(s.last());
        r.lemma_push_to_set_commute(s.last());
        if !r.contains(s.last()) {
            assert forall|i: int, j: int|
                0 <= i < r.push(s.last()).len() && 0 <= j < r.push(s.last()).len() && i != j
                implies r.push(s.last())[i] != r.push(s.last())[j] by {
                if i < r.len() && j < r.len() {
                } else if i < r.len() {
                    assert(r.contains(r[i]));
                } else {
                    assert(r.contains(r[j]));
                }
            }
        } else {
            assert(s.to_set() =~= r.to_set()) by {
                assert(r.to_set().contains(s.last()));
            }
        }
    }
}

pub open spec fn names_view(v: Seq<String>) -> Seq<Seq<char>> {
    v.map_values(|s: String| s@)
}

/// Relies on `Itertools::unique`: it keeps the first occurrence of each
/// string, in order (strings compare by their characters).
#[verifier::external_body]
fn unique_names(v: Vec<String>) -> (r: Vec<String>)
    ensures
        names_view(r@) == dedup_first(names_view(v@)),
{
    v.into_iter().unique().collect()
}

/// Copies a pattern item, keeping its value.
pub fn copy_item<P: ParameterKind>(item: &PatternItem<P>) -> (r: PatternItem<P>)
    ensures
        item_view(r) == item_view(*item),
    decreases item,
{
    match item {
        PatternItem::Ident(s) => PatternItem::Ident(s.clone()),
        PatternItem::Literal(s) => PatternItem::Literal(s.clone()),
        PatternItem::Punct(s) => PatternItem::Punct(s.clone()),
        PatternItem::Group(d, v) => PatternItem::Group(*d, copy_items(v)),
        PatternItem::Parameter(n, f) => PatternItem::Parameter(n.clone(), *f),
        PatternItem::Index(n) => PatternItem::Index(n.clone()),
        PatternItem::Optional(v) => PatternItem::Optional(copy_items(v)),
        PatternItem::ZeroOrMore(i, v, s) => PatternItem::ZeroOrMore(i.clone(), copy_items(v), s.clone()),
        PatternItem::OneOrMore(i, v, s) => PatternItem::OneOrMore(i.clone(), copy_items(v), s.clone()),
    }
}

/// Copies a sequence of pattern items, keeping its value.
pub fn copy_items<P: ParameterKind>(v: &Vec<PatternItem<P>>) -> (r: Vec<PatternItem<P>>)
    ensures
        items_view(r@) == items_view(v@),
    decreases v,
{
    let mut r: Vec<PatternItem<P>> = Vec::new();
    let mut i: usize = 0;
    while i < v.len()
        invariant
            i <= v.len(),
            items_view(r@) == items_view(v@.subrange(0, i as int)),
        decreases v.len() - i,
    {
        let t = copy_item(&v[i]);
        let ghost r0 = r@;
        r.push(t);
        proof {
            assert(r@.drop_last() == r0);
            assert(v@.subrange(0, i + 1).drop_last() == v@.subrange(0, i as int));
        }
        i = i + 1;
    }
    proof {
        assert(v@.subrange(0, v.len() as int) == v@);
    }
    r
}

/// Appends the names of the parameters of one item, in order.
fn push_item_params<P: ParameterKind>(item: &PatternItem<P>, out: &mut Vec<String>)
    ensures
        names_view(final(out)@) == names_view(old(out)@) + params_of(item_view(*item)),
    decreases item,
{
    let ghost o = names_view(out@);
    match item {
        PatternItem::Parameter(n, _) => {
            out.push(n.clone());
            assert(names_view(out@) =~= o + params_of(item_view(*item)));
        },
        PatternItem::Group(_, inner) => push_params(inner, out),
        PatternItem::Optional(inner) => push_params(inner, out),
        PatternItem::ZeroOrMore(_, inner, _) => push_params(inner, out),
        PatternItem::OneOrMore(_, inner, _) => push_params(inner, out),
        _ => {
            assert(names_view(out@) =~= o + params_of(item_view(*item)));
        },
    }
}

/// Appends the names of the parameters of a pattern, in order.
fn push_params<P: ParameterKind>(items: &Vec<PatternItem<P>>, out: &mut Vec<String>)
    ensures
        names_view(final(out)@) == names_view(old(out)@) + params_from(items_view(items@), 0),
    decreases items,
{
    let ghost iv = items_view(items@);
    let ghost total = names_view(out@) + params_from(iv, 0);
    proof {
        lemma_items_view(items@);
        assert(total =~= names_view(out@) + params_from(iv, 0));
    }
    let mut i: usize = 0;
    while i < items.len()
        invariant
            i <= items.len(),
            iv.len() == items.len(),
            iv == items_view(items@),
            forall|j: int| 0 <= j < items.len() ==> #[trigger] iv[j] == item_view(items@[j]),
            total == names_view(out@) + params_from(iv, i as int),
        decreases items.len() - i,
    {
        let ghost before = names_view(out@);
        push_item_params(&items[i], out);
        proof {
            assert(params_from(iv, i as int) == params_of(iv[i as int]) + params_from(iv, i + 1));
            assert(total =~= names_view(out@) + params_from(iv, i + 1));
        }
        i = i + 1;
    }
    assert(names_view(out@) =~= total);
}

/// The names of the parameters that a pattern references, each once, in
/// order of first occurrence.
pub fn referenced_parameters<P: ParameterKind>(items: &Vec<PatternItem<P>>) -> (r: Vec<String>)
    ensures
        names_view(r@) == dedup_first(params_from(items_view(items@), 0)),
        names_view(r@).to_set() == refs(items_view(items@)),
        names_view(r@).no_duplicates(),
{
    let mut all: Vec<String> = Vec::new();
    proof {
        assert(names_view(all@) =~= Seq::<Seq<char>>::empty());
    }
    push_params(items, &mut all);
    assert(names_view(all@) =~= params_from(items_view(items@), 0));
    let r = unique_names(all);
    proof {
        lemma_dedup_first(params_from(items_view(items@), 0));
    }
    r
}

pub proof fn lemma_concat_to_set<A>(a: Seq<A>, b: Seq<A>)
    ensures
        (a + b).to_set() == a.to_set() + b.to_set(),
{
    assert forall|x: A| #[trigger] (a + b).to_set().contains(x) <==> (a.to_set() + b.to_set()).contains(x) by {
        if (a + b).contains(x) {
            let i = choose|i: int| 0 <= i < (a + b).len() && (a + b)[i] == x;
            if i < a.len() {
                assert(a[i] == x);
            } else {
                assert(b[i - a.len()] == x);
            }
        }
        if a.contains(x) {
            let i = choose|i: int| 0 <= i < a.len() && a[i] == x;
            assert((a + b)[i] == x);
        }
        if b.contains(x) {
            let i = choose|i: int| 0 <= i < b.len() && b[i] == x;
            assert((a + b)[i + a.len()] == x);
        }
    }
    assert((a + b).to_set() =~= a.to_set() + b.to_set());
}

} // verus!
