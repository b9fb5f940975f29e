//! The pattern grammar: token trees to pattern items.
//!
//! `$name:kind` is a parameter (kind one of `ident`, `literal`, `punct`,
//! `tt`); `$#name` reads the counter of the enclosing repetition whose index
//! is `name`; `$( ... )?` is optional; `$[index]( ... ) sep *` and
//! `$[index]( ... ) sep +` repeat zero-or-more and one-or-more times, the
//! index and the separator (one punctuation run) being optional. Any other
//! token stands for itself, a group holding a nested pattern.

use vstd::prelude::*;
use crate::token::{TokenTree, TokV, Delimiter, token_view, tokens_view, lemma_tokens_view};
use crate::item::{ParameterKind, PatternItem, ItemV, item_view, items_view, opt_view};

verus! {

/// A token sequence that is not a pattern. `path` locates the token where
/// the grammar fails: the indices of the groups that hold it, outermost
/// first, then its index in the innermost one (the length of that group
/// when its end came too early).
#[derive(Debug)]
pub struct SyntaxError {
    pub path: Vec<usize>,
}

/// The value of a path of token indices.
pub open spec fn positions(p: Seq<usize>) -> Seq<int> {
    p.map_values(|x: usize| x as int)
}

impl SyntaxError {
    /// The error at `at` in the current group.
    pub fn at(at: usize) -> (r: SyntaxError)
        ensures
            positions(r.path@) == seq![at as int],
    {
        let mut path: Vec<usize> = Vec::new();
        path.push(at);
        assert(positions(path@) =~= seq![at as int]);
        SyntaxError { path }
    }

    /// The same error seen from the group that holds, at `index`, the
    /// group where it occurred.
    pub fn within(self, index: usize) -> (r: SyntaxError)
        ensures
            positions(r.path@) == seq![index as int] + positions(self.path@),
    {
        let mut path: Vec<usize> = Vec::new();
        path.push(index);
        let mut rest = self.path;
        let ghost r0 = rest@;
        path.append(&mut rest);
        assert(positions(path@) =~= seq![index as int] + positions(r0));
        SyntaxError { path }
    }
}

pub type ParseOutcome<P> = Result<Seq<ItemV<P>>, Seq<int>>;

pub type StepOutcome<P> = Result<(ItemV<P>, int), Seq<int>>;

/// Parses `toks[i..]` as a pattern.
pub open spec fn parse_from<P: ParameterKind>(toks: Seq<TokV>, i: int) -> ParseOutcome<P>
    decreases toks, 2int, toks.len() - i,
{
    if i < 0 || i >= toks.len() {
        Ok(Seq::empty())
    } else {
        match parse_step(toks, i) {
            Err(e) => Err(e),
            Ok((item, j)) => if i < j <= toks.len() {
                match parse_from(toks, j) {
                    Err(e) => Err(e),
                    Ok(rest) => Ok(seq![item] + rest),
                }
            } else {
                Err(seq![i])
            },
        }
    }
}

/// Parses the item that starts at `toks[i]`: the item and where the next
/// one starts.
pub open spec fn parse_step<P: ParameterKind>(toks: Seq<TokV>, i: int) -> StepOutcome<P>
    decreases toks, 1int, 0int,
{
    if !(0 <= i < toks.len()) {
        Err(seq![i])
    } else {
        match toks[i] {
            TokV::Ident(s) => Ok((ItemV::Ident(s), i + 1)),
            TokV::Literal(s) => Ok((ItemV::Literal(s), i + 1)),
            TokV::Group(d, inner) => match parse_from(inner, 0) {
                Err(e) => Err(seq![i] + e),
                Ok(items) => Ok((ItemV::Group(d, items), i + 1)),
            },
            TokV::Punct(s) => if s == seq!['$', '#'] {
                if i + 1 < toks.len() && toks[i + 1] is Ident {
                    Ok((ItemV::Index(toks[i + 1]->Ident_0), i + 2))
                } else {
                    Err(seq![i + 1])
                }
            } else if s == seq!['$'] {
                parse_escape(toks, i)
            } else if s.len() > 0 && s[0] == '$' {
                Err(seq![i])
            } else {
                Ok((ItemV::Punct(s), i + 1))
            },
        }
    }
}

/// Parses what follows a lone `$` at `toks[i]`.
pub open spec fn parse_escape<P: ParameterKind>(toks: Seq<TokV>, i: int) -> StepOutcome<P>
    decreases toks, 0int, 0int,
{
    let n = toks.len();
    if !(0 <= i && i + 1 < n) {
        Err(seq![i + 1])
    } else {
        match toks[i + 1] {
            TokV::Ident(name) => if !(i + 2 < n && toks[i + 2] == TokV::Punct(seq![':'])) {
                Err(seq![i + 2])
            } else if i + 3 < n && toks[i + 3] is Ident && P::named(toks[i + 3]->Ident_0) is Some {
                Ok((ItemV::Parameter(name, P::named(toks[i + 3]->Ident_0)->Some_0), i + 4))
            } else {
                Err(seq![i + 3])
            },
            TokV::Punct(s) => if s == seq!['#'] && i + 2 < n && toks[i + 2] is Ident {
                Ok((ItemV::Index(toks[i + 2]->Ident_0), i + 3))
            } else {
                Err(seq![i + 1])
            },
            TokV::Group(d, inner) => if d == Delimiter::Paren {
                match parse_from(inner, 0) {
                    Err(e) => Err(seq![i + 1] + e),
                    Ok(items) => repetition_tail(toks, i + 2, None, items),
                }
            } else if d == Delimiter::Bracket && inner.len() == 1 && inner[0] is Ident && i + 2 < n
                && toks[i + 2] is Group && toks[i + 2]->Group_0 == Delimiter::Paren {
                match parse_from(toks[i + 2]->Group_1, 0) {
                    Err(e) => Err(seq![i + 2] + e),
                    Ok(items) => repetition_tail(toks, i + 3, Some(inner[0]->Ident_0), items),
                }
            } else {
                Err(seq![i + 1])
            },
            _ => Err(seq![i + 1]),
        }
    }
}

/// Parses the operator of a repetition at `toks[j]`, with its separator.
pub open spec fn repetition_tail<P: ParameterKind>(toks: Seq<TokV>, j: int, idx: Option<Seq<char>>, items: Seq<ItemV<P>>) -> StepOutcome<P> {
    let n = toks.len();
    if !(0 <= j < n) || !(toks[j] is Punct) {
        Err(seq![j])
    } else {
        let r = toks[j]->Punct_0;
        if r == seq!['?'] && idx is None {
            Ok((ItemV::Optional(items), j + 1))
        } else if r == seq!['*'] {
            Ok((ItemV::ZeroOrMore(idx, items, None), j + 1))
        } else if r == seq!['+'] {
            Ok((ItemV::OneOrMore(idx, items, None), j + 1))
        } else if r.len() >= 2 && r.last() == '*' {
            Ok((ItemV::ZeroOrMore(idx, items, Some(r.drop_last())), j + 1))
        } else if r.len() >= 2 && r.last() == '+' {
            Ok((ItemV::OneOrMore(idx, items, Some(r.drop_last())), j + 1))
        } else if j + 1 < n && toks[j + 1] == TokV::Punct(seq!['*']) {
            Ok((ItemV::ZeroOrMore(idx, items, Some(r)), j + 2))
        } else if j + 1 < n && toks[j + 1] == TokV::Punct(seq!['+']) {
            Ok((ItemV::OneOrMore(idx, items, Some(r)), j + 2))
        } else {
            Err(seq![j])
        }
    }
}

pub open spec fn step_outcome_of<P: ParameterKind>(r: Result<(PatternItem<P>, usize), SyntaxError>) -> StepOutcome<P> {
    match r {
        Ok((item, j)) => Ok((item_view(item), j as int)),
        Err(e) => Err(positions(e.path@)),
    }
}

pub open spec fn parse_outcome_of<P: ParameterKind>(r: Result<Vec<PatternItem<P>>, SyntaxError>) -> ParseOutcome<P> {
    match r {
        Ok(v) => Ok(items_view(v@)),
        Err(e) => Err(positions(e.path@)),
    }
}

/// Prefixes the items `a` to a successful outcome.
pub open spec fn prefixed_items<P: ParameterKind>(a: Seq<ItemV<P>>, r: ParseOutcome<P>) -> ParseOutcome<P> {
    match r {
        Ok(b) => Ok(a + b),
        Err(e) => Err(e),
    }
}

/// Tells whether `s` is the one character `c`.
fn run_is(s: &String, c: char) -> (r: bool)
    ensures
        r == (s@ == seq![c]),
{
    let t = s.as_str();
    let r = t.unicode_len() == 1 && t.get_char(0) == c;
    proof {
        if s@ == seq![c] {
            assert(s@.len() == 1);
        }
        if r {
            assert(s@ =~= seq![c]);
        }
    }
    r
}

/// Tells whether `s` is the two characters `c`, `d`.
fn run_is2(s: &String, c: char, d: char) -> (r: bool)
    ensures
        r == (s@ == seq![c, d]),
{
    let t = s.as_str();
    let r = t.unicode_len() == 2 && t.get_char(0) == c && t.get_char(1) == d;
    proof {
        if s@ == seq![c, d] {
            assert(s@.len() == 2);
        }
        if r {
            assert(s@ =~= seq![c, d]);
        }
    }
    r
}

/// Parses a token sequence as a pattern's items.
pub fn parse_items<P: ParameterKind>(toks: &Vec<TokenTree>) -> (r: Result<Vec<PatternItem<P>>, SyntaxError>)
    ensures
        parse_outcome_of(r) == parse_from::<P>(tokens_view(toks@), 0),
    decreases toks, 2int, 0int,
{
    let ghost tv = tokens_view(toks@);
    let ghost total = parse_from::<P>(tv, 0);
    proof {
        lemma_tokens_view(toks@);
    }
    let mut items: Vec<PatternItem<P>> = Vec::new();
    proof {
        assert(items_view(items@) =~= Seq::<ItemV<P>>::empty());
        assert(prefixed_items(Seq::empty(), total) == total) by {
            match total {
                Ok(b) => {
                    assert(Seq::<ItemV<P>>::empty() + b =~= b);
                },
                Err(_) => {},
            }
        }
    }
    let mut i: usize = 0;
    while i < toks.len()
        invariant
            i <= toks.len(),
            tv == tokens_view(toks@),
            tv.len() == toks.len(),
            total == parse_from::<P>(tv, 0),
            total == prefixed_items(items_view(items@), parse_from(tv, i as int)),
        decreases toks.len() - i,
    {
        let (item, j) = match parse_one(toks, i) {
            Ok(x) => x,
            Err(e) => {
                return Err(e);
            },
        };
        let ghost before = items_view(items@);
        let ghost prev = items@;
        items.push(item);
        proof {
            assert(items@.drop_last() == prev);
            assert(items_view(items@) =~= before.push(item_view(item)));
            match parse_from(tv, j as int) {
                Ok(rest) => {
                    assert(before + (seq![item_view(item)] + rest) =~= before.push(item_view(item)) + rest);
                },
                Err(_) => {},
            }
        }
        i = j;
    }
    proof {
        assert(items_view(items@) + Seq::<ItemV<P>>::empty() =~= items_view(items@));
    }
    Ok(items)
}

/// Parses the item that starts at `toks[i]`.
fn parse_one<P: ParameterKind>(toks: &Vec<TokenTree>, i: usize) -> (r: Result<(PatternItem<P>, usize), SyntaxError>)
    requires
        i < toks.len(),
    ensures
        step_outcome_of(r) == parse_step::<P>(tokens_view(toks@), i as int),
        r matches Ok((_, j)) ==> i < j <= toks.len(),
    decreases toks, 1int, 0int,
{
    proof {
        lemma_tokens_view(toks@);
    }
    let ghost tv = tokens_view(toks@);
    assert(tv[i as int] == token_view(toks@[i as int]));
    match &toks[i] {
        TokenTree::Ident(s) => Ok((PatternItem::Ident(s.clone()), i + 1)),
        TokenTree::Literal(s) => Ok((PatternItem::Literal(s.clone()), i + 1)),
        TokenTree::Group(d, inner) => {
            let items = match parse_items(inner) {
                Ok(x) => x,
                Err(e) => {
                    return Err(e.within(i));
                },
            };
            Ok((PatternItem::Group(*d, items), i + 1))
        },
        TokenTree::Punct(s) => {
            if run_is2(s, '$', '#') {
                if i + 1 < toks.len() {
                    assert(tv[i + 1] == token_view(toks@[i + 1]));
                    match &toks[i + 1] {
                        TokenTree::Ident(n) => {
                            return Ok((PatternItem::Index(n.clone()), i + 2));
                        },
                        _ => {},
                    }
                }
                Err(SyntaxError::at(i + 1))
            } else if run_is(s, '$') {
                parse_dollar(toks, i)
            } else {
                let t = s.as_str();
                if t.unicode_len() > 0 && t.get_char(0) == '$' {
                    Err(SyntaxError::at(i))
                } else {
                    Ok((PatternItem::Punct(s.clone()), i + 1))
                }
            }
        },
    }
}

/// Parses what follows a lone `$` at `toks[i]`.
fn parse_dollar<P: ParameterKind>(toks: &Vec<TokenTree>, i: usize) -> (r: Result<(PatternItem<P>, usize), SyntaxError>)
    requires
        i < toks.len(),
    ensures
        step_outcome_of(r) == parse_escape::<P>(tokens_view(toks@), i as int),
        r matches Ok((_, j)) ==> i < j <= toks.len(),
    decreases toks, 0int, 0int,
{
    proof {
        lemma_tokens_view(toks@);
    }
    let ghost tv = tokens_view(toks@);
    let n = toks.len();
    if i + 1 >= n {
        return Err(SyntaxError::at(i + 1));
    }
    assert(tv[i + 1] == token_view(toks@[i + 1]));
    match &toks[i + 1] {
        TokenTree::Ident(name) => {
            let colon = if i + 2 < n {
                assert(tv[i + 2] == token_view(toks@[i + 2]));
                match &toks[i + 2] {
                    TokenTree::Punct(c) => run_is(c, ':'),
                    _ => false,
                }
            } else {
                false
            };
            if !colon {
                return Err(SyntaxError::at(i + 2));
            }
            if i + 3 < n {
                assert(tv[i + 3] == token_view(toks@[i + 3]));
                match &toks[i + 3] {
                    TokenTree::Ident(k) => match P::from_name(k) {
                        Some(f) => {
                            return Ok((PatternItem::Parameter(name.clone(), f), i + 4));
                        },
                        None => {},
                    },
                    _ => {},
                }
            }
            Err(SyntaxError::at(i + 3))
        },
        TokenTree::Punct(s) => {
            if run_is(s, '#') && i + 2 < n {
                assert(tv[i + 2] == token_view(toks@[i + 2]));
                match &toks[i + 2] {
                    TokenTree::Ident(name) => {
                        return Ok((PatternItem::Index(name.clone()), i + 3));
                    },
                    _ => {},
                }
            }
            Err(SyntaxError::at(i + 1))
        },
        TokenTree::Group(d, inner) => {
            proof {
                lemma_tokens_view(inner@);
            }
            if *d == Delimiter::Paren {
                let items = match parse_items(inner) {
                    Ok(x) => x,
                    Err(e) => {
                        return Err(e.within(i + 1));
                    },
                };
                return repetition_end(toks, i + 2, None, items);
            }
            if *d == Delimiter::Bracket && inner.len() == 1 && i + 2 < n {
                proof {
                    lemma_tokens_view(inner@);
                }
                assert(tv[i + 2] == token_view(toks@[i + 2]));
                match &inner[0] {
                    TokenTree::Ident(index) => match &toks[i + 2] {
                        TokenTree::Group(e, body) => {
                            if *e == Delimiter::Paren {
                                let items = match parse_items(body) {
                                    Ok(x) => x,
                                    Err(err) => {
                                        return Err(err.within(i + 2));
                                    },
                                };
                                return repetition_end(toks, i + 3, Some(index.clone()), items);
                            }
                        },
                        _ => {},
                    },
                    _ => {},
                }
            }
            Err(SyntaxError::at(i + 1))
        },
        _ => Err(SyntaxError::at(i + 1)),
    }
}

/// Parses the operator of a repetition at `toks[j]`, with its separator.
fn repetition_end<P: ParameterKind>(toks: &Vec<TokenTree>, j: usize, idx: Option<String>, items: Vec<PatternItem<P>>) -> (r: Result<
    (PatternItem<P>, usize),
    SyntaxError,
>)
    requires
        j <= toks.len(),
    ensures
        step_outcome_of(r) == repetition_tail(tokens_view(toks@), j as int, opt_view(idx), items_view(items@)),
        r matches Ok((_, k)) ==> j < k <= toks.len(),
{
    proof {
        lemma_tokens_view(toks@);
    }
    let ghost tv = tokens_view(toks@);
    let n = toks.len();
    if j >= n {
        return Err(SyntaxError::at(j));
    }
    assert(tv[j as int] == token_view(toks@[j as int]));
    let r = match &toks[j] {
        TokenTree::Punct(r) => r,
        _ => {
            return Err(SyntaxError::at(j));
        },
    };
    if run_is(r, '?') && idx.is_none() {
        return Ok((PatternItem::Optional(items), j + 1));
    }
    if run_is(r, '*') {
        return Ok((PatternItem::ZeroOrMore(idx, items, None), j + 1));
    }
    if run_is(r, '+') {
        return Ok((PatternItem::OneOrMore(idx, items, None), j + 1));
    }
    let t = r.as_str();
    let len = t.unicode_len();
    if len >= 2 {
        let last = t.get_char(len - 1);
        if last == '*' || last == '+' {
            let sep = String::from_str(t.substring_char(0, len - 1));
            proof {
                assert(sep@ =~= r@.drop_last());
            }
            if last == '*' {
                return Ok((PatternItem::ZeroOrMore(idx, items, Some(sep)), j + 1));
            } else {
                return Ok((PatternItem::OneOrMore(idx, items, Some(sep)), j + 1));
            }
        }
    }
    if j + 1 < n {
        assert(tv[j + 1] == token_view(toks@[j + 1]));
        match &toks[j + 1] {
            TokenTree::Punct(op) => {
                if run_is(op, '*') {
                    return Ok((PatternItem::ZeroOrMore(idx, items, Some(r.clone())), j + 2));
                }
                if run_is(op, '+') {
                    return Ok((PatternItem::OneOrMore(idx, items, Some(r.clone())), j + 2));
                }
            },
            _ => {},
        }
    }
    Err(SyntaxError::at(j))
}

} // verus!
