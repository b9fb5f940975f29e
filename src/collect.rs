//! The collecting traversal: reports every parameter of a pattern, with
//! its fragment kind, to a collector.

use vstd::prelude::*;
use crate::item::{ParameterKind, PatternItem, ItemV, item_view, items_view, lemma_items_view};
use crate::pattern::Pattern;

verus! {

/// The parameter uses of `items[i..]`, in order, nested ones included.
pub open spec fn uses_from<P: ParameterKind>(items: Seq<ItemV<P>>, i: int) -> Seq<(Seq<char>, P)>
    decreases items, 1int, items.len() - i,
{
    if i < 0 || i >= items.len() {
        Seq::empty()
    } else {
        uses_of(items[i]) + uses_from(items, i + 1)
    }
}

/// The parameter uses of one item, in order.
pub open spec fn uses_of<P: ParameterKind>(item: ItemV<P>) -> Seq<(Seq<char>, P)>
    decreases item, 0int, 0int,
{
    match item {
        ItemV::Parameter(n, f) => seq![(n, f)],
        ItemV::Group(_, inner) => uses_from(inner, 0),
        ItemV::Optional(inner) => uses_from(inner, 0),
        ItemV::ZeroOrMore(_, inner, _) => uses_from(inner, 0),
        ItemV::OneOrMore(_, inner, _) => uses_from(inner, 0),
        _ => Seq::empty(),
    }
}

/// Something that receives the parameters of a pattern.
pub trait ParameterCollector<P>: Sized {
    /// The parameters received so far, in order.
    spec fn collected(&self) -> Seq<(Seq<char>, P)>;

    fn add_parameter(&mut self, name: &String, kind: P)
        ensures
            final(self).collected() == old(self).collected().push((name@, kind));
}

/// A collector that keeps every parameter it receives, in order.
#[derive(Debug)]
pub struct ParameterList<P> {
    pub entries: Vec<(String, P)>,
}

impl<P: ParameterKind> ParameterList<P> {
    pub fn new() -> (r: ParameterList<P>)
        ensures
            r.collected() == Seq::<(Seq<char>, P)>::empty(),
    {
        let r = ParameterList { entries: Vec::new() };
        assert(r.collected() =~= Seq::<(Seq<char>, P)>::empty());
        r
    }
}

impl<P: ParameterKind> ParameterCollector<P> for ParameterList<P> {
    open spec fn collected(&self) -> Seq<(Seq<char>, P)> {
        self.entries@.map_values(|e: (String, P)| (e.0@, e.1))
    }

    fn add_parameter(&mut self, name: &String, kind: P) {
        self.entries.push((name.clone(), kind));
        assert(self.collected() =~= old(self).collected().push((name@, kind)));
    }
}

/// Walks patterns and reports their parameters to a collector.
pub struct CollectVisitor<C> {
    collector: C,
}

impl<C> CollectVisitor<C> {
    pub closed spec fn collector(&self) -> C {
        self.collector
    }

    /// A visitor that reports to `collector`.
    pub fn new(collector: C) -> (r: CollectVisitor<C>)
        ensures
            r.collector() == collector,
    {
        CollectVisitor { collector }
    }

    /// The collector, with every parameter reported so far.
    pub fn into_collector(self) -> (r: C)
        ensures
            r == self.collector(),
    {
        self.collector
    }

    /// Reports the parameters of a pattern, in order.
    pub fn visit_pattern<P: ParameterKind>(&mut self, pattern: &Pattern<P>)
        where
            C: ParameterCollector<P>,
        ensures
            final(self).collector().collected() == old(self).collector().collected() + uses_from(
                pattern.view(),
                0,
            ),
    {
        self.visit_items(pattern.items());
    }

    fn visit_item<P: ParameterKind>(&mut self, item: &PatternItem<P>)
        where
            C: ParameterCollector<P>,
        ensures
            final(self).collector().collected() == old(self).collector().collected() + uses_of(
                item_view(*item),
            ),
        decreases item, 0int, 0int,
    {
        let ghost before = self.collector.collected();
        match item {
            PatternItem::Parameter(n, f) => {
                self.collector.add_parameter(n, *f);
                assert(self.collector.collected() =~= before + uses_of(item_view(*item)));
            },
            PatternItem::Group(_, inner) => self.visit_items(inner),
            PatternItem::Optional(inner) => self.visit_items(inner),
            PatternItem::ZeroOrMore(_, inner, _) => self.visit_items(inner),
            PatternItem::OneOrMore(_, inner, _) => self.visit_items(inner),
            _ => {
                assert(self.collector.collected() =~= before + uses_of(item_view(*item)));
            },
        }
    }

    fn visit_items<P: ParameterKind>(&mut self, items: &Vec<PatternItem<P>>)
        where
            C: ParameterCollector<P>,
        ensures
            final(self).collector().collected() == old(self).collector().collected() + uses_from(
                items_view(items@),
                0,
            ),
        decreases items, 1int, 0int,
    {
        proof {
            lemma_items_view(items@);
        }
        let ghost iv = items_view(items@);
        let ghost total = self.collector.collected() + uses_from(iv, 0);
        let mut i: usize = 0;
        while i < items.len()
            invariant
                i <= items.len(),
                iv == items_view(items@),
                iv.len() == items.len(),
                forall|j: int| 0 <= j < items.len() ==> #[trigger] iv[j] == item_view(items@[j]),
                total == self.collector.collected() + uses_from(iv, i as int),
            decreases items.len() - i,
        {
            self.visit_item(&items[i]);
            assert(total =~= self.collector.collected() + uses_from(iv, i + 1));
            i = i + 1;
        }
        assert(self.collector.collected() =~= total);
    }
}

} // verus!
