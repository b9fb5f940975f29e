//! The parameter schema: which repetition classification each parameter
//! name belongs to, and the two rules that a pattern's schema must obey.

use vstd::prelude::*;
use crate::item::{ParameterKind, PatternItem, ItemV, item_view, items_view, lemma_items_view, params_from, referenced_parameters, dedup_first, lemma_dedup_first};

verus! {

/// A repetition construct, as a step of a classification path.
#[derive(Clone, Copy, Debug, PartialEq, Eq, Structural)]
pub enum Repetition {
    Optional,
    ZeroOrMore,
    OneOrMore,
}

/// One occurrence of a parameter: its name and the repetitions that
/// enclose it, outermost first (groups do not count).
pub type Occurrence = (Seq<char>, Seq<Repetition>);

/// The parameter occurrences of `items[i..]` under the path `path`.
pub open spec fn occurrences_from<P: ParameterKind>(items: Seq<ItemV<P>>, i: int, path: Seq<Repetition>) -> Seq<Occurrence>
    decreases items, 1int, items.len() - i,
{
    if i < 0 || i >= items.len() {
        Seq::empty()
    } else {
        occurrences_of(items[i], path) + occurrences_from(items, i + 1, path)
    }
}

/// The parameter occurrences of one item under the path `path`.
pub open spec fn occurrences_of<P: ParameterKind>(item: ItemV<P>, path: Seq<Repetition>) -> Seq<Occurrence>
    decreases item, 0int, 0int,
{
    match item {
        ItemV::Parameter(n, _) => seq![(n, path)],
        ItemV::Group(_, inner) => occurrences_from(inner, 0, path),
        ItemV::Optional(inner) => occurrences_from(inner, 0, path.push(Repetition::Optional)),
        ItemV::ZeroOrMore(_, inner, _) => occurrences_from(inner, 0, path.push(Repetition::ZeroOrMore)),
        ItemV::OneOrMore(_, inner, _) => occurrences_from(inner, 0, path.push(Repetition::OneOrMore)),
        _ => Seq::empty(),
    }
}

/// The schema of a pattern: every parameter occurrence with its path.
pub open spec fn schema_of<P: ParameterKind>(items: Seq<ItemV<P>>) -> Seq<Occurrence> {
    occurrences_from(items, 0, Seq::empty())
}

/// Tells whether `n` occurs under two different repetition paths.
pub open spec fn incompatible(occ: Seq<Occurrence>, n: Seq<char>) -> bool {
    exists|i: int, j: int|
        0 <= i < occ.len() && 0 <= j < occ.len() && occ[i].0 == n && occ[j].0 == n && occ[i].1 != occ[j].1
}

/// Tells whether some name occurs under two different repetition paths.
pub open spec fn has_incompatible(occ: Seq<Occurrence>) -> bool {
    exists|n: Seq<char>| incompatible(occ, n)
}

/// Tells whether `items[i..]` holds a repetition that references no
/// parameter.
pub open spec fn empty_repetition_from<P: ParameterKind>(items: Seq<ItemV<P>>, i: int) -> bool
    decreases items, 1int, items.len() - i,
{
    if i < 0 || i >= items.len() {
        false
    } else {
        empty_repetition_in(items[i]) || empty_repetition_from(items, i + 1)
    }
}

/// Tells whether an item is, or holds, a repetition that references no
/// parameter.
pub open spec fn empty_repetition_in<P: ParameterKind>(item: ItemV<P>) -> bool
    decreases item, 0int, 0int,
{
    match item {
        ItemV::Group(_, inner) => empty_repetition_from(inner, 0),
        ItemV::Optional(inner) => params_from(inner, 0).len() == 0 || empty_repetition_from(inner, 0),
        ItemV::ZeroOrMore(_, inner, _) => params_from(inner, 0).len() == 0 || empty_repetition_from(
            inner,
            0,
        ),
        ItemV::OneOrMore(_, inner, _) => params_from(inner, 0).len() == 0 || empty_repetition_from(
            inner,
            0,
        ),
        _ => false,
    }
}

/// The mathematical value of a schema error.
pub enum SchemaFailure {
    NoParameterInRepetition,
    Incompatible(Seq<char>),
}

/// Tells whether a pattern obeys both schema rules.
pub open spec fn schema_valid<P: ParameterKind>(items: Seq<ItemV<P>>) -> bool {
    !empty_repetition_from(items, 0) && !has_incompatible(schema_of(items))
}

/// A repetition construct that references no parameter: nothing tells
/// how many times it repeats.
#[derive(Debug)]
pub struct NoParameterInRepetition {
    /// The indices of the items that lead to the repetition, outermost
    /// first.
    pub path: Vec<usize>,
}

/// A parameter used under two different repetition classifications.
#[derive(Debug)]
pub struct ParameterUsedInIncompatibleRepetitions {
    pub parameter: String,
}

/// Tells whether a pattern's items reference some parameter.
fn references_parameters<P: ParameterKind>(items: &Vec<PatternItem<P>>) -> (r: bool)
    ensures
        r == (params_from(items_view(items@), 0).len() > 0),
{
    let names = referenced_parameters(items);
    let ghost s = params_from(items_view(items@), 0);
    proof {
        lemma_dedup_first(s);
        if s.len() > 0 {
            assert(s.to_set().contains(s[0]));
            assert(dedup_first(s).to_set().contains(s[0]));
        }
        if names.len() > 0 {
            assert(dedup_first(s).to_set().contains(dedup_first(s)[0]));
        }
    }
    names.len() > 0
}

/// Where the first repetition without parameters stands in `items[i..]`:
/// the indices of the items that lead to it, outermost first.
pub open spec fn empty_repetition_path<P: ParameterKind>(items: Seq<ItemV<P>>, i: int) -> Option<Seq<int>>
    decreases items, 1int, items.len() - i,
{
    if i < 0 || i >= items.len() {
        None
    } else {
        match empty_repetition_path_in(items[i]) {
            Some(p) => Some(seq![i] + p),
            None => empty_repetition_path(items, i + 1),
        }
    }
}

/// Where the first repetition without parameters stands in one item: the
/// empty path when it is the item itself.
pub open spec fn empty_repetition_path_in<P: ParameterKind>(item: ItemV<P>) -> Option<Seq<int>>
    decreases item, 0int, 0int,
{
    match item {
        ItemV::Group(_, inner) => empty_repetition_path(inner, 0),
        ItemV::Optional(inner) => if params_from(inner, 0).len() == 0 {
            Some(Seq::empty())
        } else {
            empty_repetition_path(inner, 0)
        },
        ItemV::ZeroOrMore(_, inner, _) => if params_from(inner, 0).len() == 0 {
            Some(Seq::empty())
        } else {
            empty_repetition_path(inner, 0)
        },
        ItemV::OneOrMore(_, inner, _) => if params_from(inner, 0).len() == 0 {
            Some(Seq::empty())
        } else {
            empty_repetition_path(inner, 0)
        },
        _ => None,
    }
}

pub proof fn lemma_empty_repetition_path<P: ParameterKind>(items: Seq<ItemV<P>>, i: int)
    ensures
        empty_repetition_path(items, i) is Some <==> empty_repetition_from(items, i),
    decreases items, 1int, items.len() - i,
{
    if 0 <= i < items.len() {
        lemma_empty_repetition_path_in(items[i]);
        lemma_empty_repetition_path(items, i + 1);
    }
}

pub proof fn lemma_empty_repetition_path_in<P: ParameterKind>(item: ItemV<P>)
    ensures
        empty_repetition_path_in(item) is Some <==> empty_repetition_in(item),
    decreases item, 0int, 0int,
{
    match item {
        ItemV::Group(_, inner) => lemma_empty_repetition_path(inner, 0),
        ItemV::Optional(inner) => lemma_empty_repetition_path(inner, 0),
        ItemV::ZeroOrMore(_, inner, _) => lemma_empty_repetition_path(inner, 0),
        ItemV::OneOrMore(_, inner, _) => lemma_empty_repetition_path(inner, 0),
        _ => {},
    }
}

/// The value of a path of item indices.
pub open spec fn path_view(p: Seq<usize>) -> Seq<int> {
    p.map_values(|x: usize| x as int)
}

/// Where the first repetition without parameters stands in one item.
fn item_empty_repetition<P: ParameterKind>(item: &PatternItem<P>) -> (r: Option<Vec<usize>>)
    ensures
        match r {
            Some(p) => empty_repetition_path_in(item_view(*item)) == Some(path_view(p@)),
            None => empty_repetition_path_in(item_view(*item)) is None,
        },
    decreases item, 0int, 0int,
{
    match item {
        PatternItem::Group(_, inner) => find_empty_repetition(inner),
        PatternItem::Optional(inner) => {
            if !references_parameters(inner) {
                let p: Vec<usize> = Vec::new();
                assert(path_view(p@) =~= Seq::<int>::empty());
                Some(p)
            } else {
                find_empty_repetition(inner)
            }
        },
        PatternItem::ZeroOrMore(_, inner, _) => {
            if !references_parameters(inner) {
                let p: Vec<usize> = Vec::new();
                assert(path_view(p@) =~= Seq::<int>::empty());
                Some(p)
            } else {
                find_empty_repetition(inner)
            }
        },
        PatternItem::OneOrMore(_, inner, _) => {
            if !references_parameters(inner) {
                let p: Vec<usize> = Vec::new();
                assert(path_view(p@) =~= Seq::<int>::empty());
                Some(p)
            } else {
                find_empty_repetition(inner)
            }
        },
        _ => None,
    }
}

/// Where the first repetition without parameters stands in a pattern: the
/// indices of the items that lead to it, outermost first.
pub fn find_empty_repetition<P: ParameterKind>(items: &Vec<PatternItem<P>>) -> (r: Option<Vec<usize>>)
    ensures
        match r {
            Some(p) => empty_repetition_path(items_view(items@), 0) == Some(path_view(p@)),
            None => empty_repetition_path(items_view(items@), 0) is None,
        },
    decreases items, 1int, 0int,
{
    proof {
        lemma_items_view(items@);
    }
    let ghost iv = items_view(items@);
    let mut i: usize = 0;
    while i < items.len()
        invariant
            i <= items.len(),
            iv == items_view(items@),
            iv.len() == items.len(),
            forall|j: int| 0 <= j < items.len() ==> #[trigger] iv[j] == item_view(items@[j]),
            empty_repetition_path(iv, 0) == empty_repetition_path(iv, i as int),
        decreases items.len() - i,
    {
        match item_empty_repetition(&items[i]) {
            Some(mut p) => {
                let mut r: Vec<usize> = Vec::new();
                r.push(i);
                let ghost p0 = p@;
                r.append(&mut p);
                assert(path_view(r@) =~= seq![i as int] + path_view(p0));
                return Some(r);
            },
            None => {},
        }
        i = i + 1;
    }
    None
}

/// The parameter occurrences of a pattern, each with its classification
/// path.
#[derive(Debug)]
pub struct ParameterSchema {
    names: Vec<String>,
    paths: Vec<Vec<Repetition>>,
}

fn copy_path(p: &Vec<Repetition>) -> (r: Vec<Repetition>)
    ensures
        r@ == p@,
{
    let mut r: Vec<Repetition> = Vec::new();
    let mut i: usize = 0;
    while i < p.len()
        invariant
            i <= p.len(),
            r@ == p@.subrange(0, i as int),
        decreases p.len() - i,
    {
        r.push(p[i]);
        assert(r@ =~= p@.subrange(0, i + 1));
        i = i + 1;
    }
    assert(p@.subrange(0, p.len() as int) =~= p@);
    r
}

fn same_path(a: &Vec<Repetition>, b: &Vec<Repetition>) -> (r: bool)
    ensures
        r == (a@ == b@),
{
    if a.len() != b.len() {
        return false;
    }
    let mut i: usize = 0;
    while i < a.len()
        invariant
            a.len() == b.len(),
            i <= a.len(),
            forall|j: int| 0 <= j < i ==> a@[j] == b@[j],
        decreases a.len() - i,
    {
        if a[i] != b[i] {
            return false;
        }
        i = i + 1;
    }
    assert(a@ =~= b@);
    true
}

impl ParameterSchema {
    pub closed spec fn view(&self) -> Seq<Occurrence> {
        Seq::new(self.names.len() as nat, |i: int| (self.names@[i]@, self.paths@[i]@))
    }

    pub closed spec fn wf(&self) -> bool {
        self.names.len() == self.paths.len()
    }

    /// Appends the occurrences of one item under `path`.
    fn push_item<P: ParameterKind>(&mut self, item: &PatternItem<P>, path: &Vec<Repetition>)
        requires
            old(self).wf(),
        ensures
            final(self).wf(),
            final(self).view() == old(self).view() + occurrences_of(item_view(*item), path@),
        decreases item, 0int, 0int,
    {
        let ghost before = self.view();
        match item {
            PatternItem::Parameter(n, _) => {
                self.names.push(n.clone());
                self.paths.push(copy_path(path));
                assert(self.view() =~= before + occurrences_of(item_view(*item), path@));
            },
            PatternItem::Group(_, inner) => self.push_items(inner, path),
            PatternItem::Optional(inner) => {
                let mut p = copy_path(path);
                p.push(Repetition::Optional);
                self.push_items(inner, &p);
            },
            PatternItem::ZeroOrMore(_, inner, _) => {
                let mut p = copy_path(path);
                p.push(Repetition::ZeroOrMore);
                self.push_items(inner, &p);
            },
            PatternItem::OneOrMore(_, inner, _) => {
                let mut p = copy_path(path);
                p.push(Repetition::OneOrMore);
                self.push_items(inner, &p);
            },
            _ => {
                assert(self.view() =~= before + occurrences_of(item_view(*item), path@));
            },
        }
    }

    /// Appends the occurrences of a pattern's items under `path`.
    fn push_items<P: ParameterKind>(&mut self, items: &Vec<PatternItem<P>>, path: &Vec<Repetition>)
        requires
            old(self).wf(),
        ensures
            final(self).wf(),
            final(self).view() == old(self).view() + occurrences_from(items_view(items@), 0, path@),
        decreases items, 1int, 0int,
    {
        proof {
            lemma_items_view(items@);
        }
        let ghost iv = items_view(items@);
        let ghost total = self.view() + occurrences_from(iv, 0, path@);
        assert(total =~= self.view() + occurrences_from(iv, 0, path@));
        let mut i: usize = 0;
        while i < items.len()
            invariant
                self.wf(),
                i <= items.len(),
                iv == items_view(items@),
                iv.len() == items.len(),
                forall|j: int| 0 <= j < items.len() ==> #[trigger] iv[j] == item_view(items@[j]),
                total == self.view() + occurrences_from(iv, i as int, path@),
            decreases items.len() - i,
        {
            self.push_item(&items[i], path);
            assert(total =~= self.view() + occurrences_from(iv, i + 1, path@));
            i = i + 1;
        }
        assert(self.view() =~= total);
    }

    /// The schema of a pattern.
    pub fn extract<P: ParameterKind>(items: &Vec<PatternItem<P>>) -> (r: ParameterSchema)
        ensures
            r.wf(),
            r.view() == schema_of(items_view(items@)),
    {
        let mut r = ParameterSchema { names: Vec::new(), paths: Vec::new() };
        let path: Vec<Repetition> = Vec::new();
        assert(r.view() =~= Seq::<Occurrence>::empty());
        r.push_items(items, &path);
        assert(path@ =~= Seq::<Repetition>::empty());
        assert(r.view() =~= schema_of(items_view(items@)));
        r
    }

    /// Checks that each parameter name has a single classification path.
    pub fn assert_parameters_disjoint(&self) -> (r: Result<(), ParameterUsedInIncompatibleRepetitions>)
        requires
            self.wf(),
        ensures
            r is Ok <==> !has_incompatible(self.view()),
            r matches Err(e) ==> incompatible(self.view(), e.parameter@),
    {
        let n = self.names.len();
        let mut i: usize = 0;
        while i < n
            invariant
                n == self.names.len(),
                n <= self.paths.len(),
                i <= n,
                forall|a: int, b: int|
                    0 <= a < i && 0 <= b < n && self.names@[a]@ == self.names@[b]@ ==> self.paths@[a]@
                        == self.paths@[b]@,
            decreases n - i,
        {
            let mut j: usize = 0;
            while j < n
                invariant
                    n == self.names.len(),
                    n <= self.paths.len(),
                    i < n,
                    j <= n,
                    forall|a: int, b: int|
                        0 <= a < i && 0 <= b < n && self.names@[a]@ == self.names@[b]@ ==> self.paths@[a]@
                            == self.paths@[b]@,
                    forall|b: int|
                        0 <= b < j && self.names@[i as int]@ == self.names@[b]@ ==> self.paths@[i as int]@
                            == self.paths@[b]@,
                decreases n - j,
            {
                if self.names[i].eq(&self.names[j]) && !same_path(&self.paths[i], &self.paths[j]) {
                    proof {
                        assert(self.view()[i as int] == (self.names@[i as int]@, self.paths@[i as int]@));
                        assert(self.view()[j as int] == (self.names@[j as int]@, self.paths@[j as int]@));
                        assert(incompatible(self.view(), self.names@[i as int]@));
                    }
                    return Err(ParameterUsedInIncompatibleRepetitions { parameter: self.names[i].clone() });
                }
                j = j + 1;
            }
            i = i + 1;
        }
        proof {
            if has_incompatible(self.view()) {
                let m = choose|m: Seq<char>| incompatible(self.view(), m);
                let (a, b) = choose|a: int, b: int|
                    0 <= a < self.view().len() && 0 <= b < self.view().len() && self.view()[a].0 == m
                        && self.view()[b].0 == m && self.view()[a].1 != self.view()[b].1;
                assert(self.view()[a] == (self.names@[a]@, self.paths@[a]@));
                assert(self.view()[b] == (self.names@[b]@, self.paths@[b]@));
            }
        }
        Ok(())
    }
}

} // verus!
