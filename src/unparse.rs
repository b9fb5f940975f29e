//! Writing a pattern back as token trees, in the syntax that the parser
//! reads.

use vstd::prelude::*;
use crate::token::{TokenTree, TokV, Delimiter, tokens_view, lemma_tokens_view_concat};
use crate::item::{ParameterKind, PatternItem, ItemV, item_view, items_view, lemma_items_view, opt_view};

verus! {

/// The tokens of `items[i..]`.
pub open spec fn unparse_from<P: ParameterKind>(items: Seq<ItemV<P>>, i: int) -> Seq<TokV>
    decreases items, 1int, items.len() - i,
{
    if i < 0 || i >= items.len() {
        Seq::empty()
    } else {
        unparse_item(items[i]) + unparse_from(items, i + 1)
    }
}

/// The token that follows the body of a repetition: its separator, if
/// any, joined to its operator.
pub open spec fn repetition_end(sep: Option<Seq<char>>, op: char) -> Seq<TokV> {
    match sep {
        Some(s) => seq![TokV::Punct(s + seq![op])],
        None => seq![TokV::Punct(seq![op])],
    }
}

/// The tokens that open a repetition: `$` and its index, if any.
pub open spec fn repetition_start(idx: Option<Seq<char>>) -> Seq<TokV> {
    match idx {
        Some(n) => seq![TokV::Punct(seq!['$']), TokV::Group(Delimiter::Bracket, seq![TokV::Ident(n)])],
        None => seq![TokV::Punct(seq!['$'])],
    }
}

/// The tokens of one item.
pub open spec fn unparse_item<P: ParameterKind>(item: ItemV<P>) -> Seq<TokV>
    decreases item, 0int, 0int,
{
    match item {
        ItemV::Ident(s) => seq![TokV::Ident(s)],
        ItemV::Literal(s) => seq![TokV::Literal(s)],
        ItemV::Punct(s) => seq![TokV::Punct(s)],
        ItemV::Group(d, inner) => seq![TokV::Group(d, unparse_from(inner, 0))],
        ItemV::Parameter(n, f) => seq![
            TokV::Punct(seq!['$']),
            TokV::Ident(n),
            TokV::Punct(seq![':']),
            TokV::Ident(f.name()),
        ],
        ItemV::Index(n) => seq![TokV::Punct(seq!['$', '#']), TokV::Ident(n)],
        ItemV::Optional(inner) => seq![
            TokV::Punct(seq!['$']),
            TokV::Group(Delimiter::Paren, unparse_from(inner, 0)),
            TokV::Punct(seq!['?']),
        ],
        ItemV::ZeroOrMore(idx, inner, sep) => repetition_start(idx) + seq![
            TokV::Group(Delimiter::Paren, unparse_from(inner, 0)),
        ] + repetition_end(sep, '*'),
        ItemV::OneOrMore(idx, inner, sep) => repetition_start(idx) + seq![
            TokV::Group(Delimiter::Paren, unparse_from(inner, 0)),
        ] + repetition_end(sep, '+'),
    }
}

/// A punctuation run token.
fn run(s: &str) -> (r: TokenTree)
    ensures
        crate::token::token_view(r) == TokV::Punct(s@),
{
    TokenTree::Punct(String::from_str(s))
}


/// Appends `b` to `a`.
fn extend(a: &mut Vec<TokenTree>, b: Vec<TokenTree>)
    ensures
        tokens_view(final(a)@) == tokens_view(old(a)@) + tokens_view(b@),
{
    let mut b = b;
    let ghost a0 = a@;
    let ghost b0 = b@;
    a.append(&mut b);
    proof {
        lemma_tokens_view_concat(a0, b0);
    }
}

/// Appends one token to `a`.
fn push_token(a: &mut Vec<TokenTree>, t: TokenTree)
    ensures
        tokens_view(final(a)@) == tokens_view(old(a)@).push(crate::token::token_view(t)),
{
    let ghost a0 = a@;
    a.push(t);
    proof {
        assert(a@.drop_last() == a0);
    }
}

/// The tokens of the items of a pattern.
pub fn unparse_items<P: ParameterKind>(items: &Vec<PatternItem<P>>) -> (r: Vec<TokenTree>)
    ensures
        tokens_view(r@) == unparse_from(items_view(items@), 0),
    decreases items, 1int, 0int,
{
    proof {
        lemma_items_view(items@);
    }
    let ghost iv = items_view(items@);
    let mut out: Vec<TokenTree> = Vec::new();
    let ghost total = unparse_from(iv, 0);
    assert(tokens_view(out@) + total =~= total);
    let mut i: usize = 0;
    while i < items.len()
        invariant
            i <= items.len(),
            iv == items_view(items@),
            iv.len() == items.len(),
            forall|j: int| 0 <= j < items.len() ==> #[trigger] iv[j] == item_view(items@[j]),
            total == unparse_from(iv, 0),
            total == tokens_view(out@) + unparse_from(iv, i as int),
        decreases items.len() - i,
    {
        let t = unparse_one(&items[i]);
        let ghost before = tokens_view(out@);
        extend(&mut out, t);
        assert(total =~= tokens_view(out@) + unparse_from(iv, i + 1));
        i = i + 1;
    }
    assert(tokens_view(out@) =~= total);
    out
}

/// The tokens of one item.
fn unparse_one<P: ParameterKind>(item: &PatternItem<P>) -> (r: Vec<TokenTree>)
    ensures
        tokens_view(r@) == unparse_item(item_view(*item)),
    decreases item, 0int, 0int,
{
    let mut out: Vec<TokenTree> = Vec::new();
    proof {
        reveal_strlit("$");
        reveal_strlit(":");
        reveal_strlit("$#");
        reveal_strlit("?");
        reveal_strlit("*");
        reveal_strlit("+");
        assert(":"@ =~= seq![':']);
        assert("$"@ =~= seq!['$']);
        assert("?"@ =~= seq!['?']);
        assert("*"@ =~= seq!['*']);
        assert("+"@ =~= seq!['+']);
        assert("$#"@ =~= seq!['$', '#']);
        assert(tokens_view(out@) =~= Seq::<TokV>::empty());
    }
    match item {
        PatternItem::Ident(s) => push_token(&mut out, TokenTree::Ident(s.clone())),
        PatternItem::Literal(s) => push_token(&mut out, TokenTree::Literal(s.clone())),
        PatternItem::Punct(s) => push_token(&mut out, TokenTree::Punct(s.clone())),
        PatternItem::Group(d, inner) => push_token(&mut out, TokenTree::Group(*d, unparse_items(inner))),
        PatternItem::Parameter(n, f) => {
            push_token(&mut out, run("$"));
            push_token(&mut out, TokenTree::Ident(n.clone()));
            push_token(&mut out, run(":"));
            push_token(&mut out, TokenTree::Ident(f.to_name()));
            assert(tokens_view(out@) =~= unparse_item(item_view(*item)));
        },
        PatternItem::Index(n) => {
            push_token(&mut out, run("$#"));
            push_token(&mut out, TokenTree::Ident(n.clone()));
            assert(tokens_view(out@) =~= unparse_item(item_view(*item)));
        },
        PatternItem::Optional(inner) => {
            push_token(&mut out, run("$"));
            let body = unparse_items(inner);
            let ghost bv = tokens_view(body@);
            push_token(&mut out, TokenTree::Group(Delimiter::Paren, body));
            assert(tokens_view(out@) =~= seq![TokV::Punct(seq!['$']), TokV::Group(Delimiter::Paren, bv)]);
            push_token(&mut out, run("?"));
            assert(tokens_view(out@) =~= unparse_item(item_view(*item)));
        },
        PatternItem::ZeroOrMore(idx, inner, sep) => {
            push_token(&mut out, run("$"));
            match idx {
                Some(n) => {
                    let mut g: Vec<TokenTree> = Vec::new();
                    push_token(&mut g, TokenTree::Ident(n.clone()));
                    assert(tokens_view(g@) =~= seq![TokV::Ident(n@)]);
                    push_token(&mut out, TokenTree::Group(Delimiter::Bracket, g));
                },
                None => {},
            }
            let ghost start = tokens_view(out@);
            assert(start =~= repetition_start(opt_view(*idx)));
            push_token(&mut out, TokenTree::Group(Delimiter::Paren, unparse_items(inner)));
            let ghost mid = tokens_view(out@);
            match sep {
                Some(s) => push_token(&mut out, TokenTree::Punct(s.clone().concat("*"))),
                None => push_token(&mut out, run("*")),
            }
            assert(tokens_view(out@) =~= mid + repetition_end(opt_view(*sep), '*'));
            assert(tokens_view(out@) =~= unparse_item(item_view(*item)));
        },
        PatternItem::OneOrMore(idx, inner, sep) => {
            push_token(&mut out, run("$"));
            match idx {
                Some(n) => {
                    let mut g: Vec<TokenTree> = Vec::new();
                    push_token(&mut g, TokenTree::Ident(n.clone()));
                    assert(tokens_view(g@) =~= seq![TokV::Ident(n@)]);
                    push_token(&mut out, TokenTree::Group(Delimiter::Bracket, g));
                },
                None => {},
            }
            let ghost start = tokens_view(out@);
            assert(start =~= repetition_start(opt_view(*idx)));
            push_token(&mut out, TokenTree::Group(Delimiter::Paren, unparse_items(inner)));
            let ghost mid = tokens_view(out@);
            match sep {
                Some(s) => push_token(&mut out, TokenTree::Punct(s.clone().concat("+"))),
                None => push_token(&mut out, run("+")),
            }
            assert(tokens_view(out@) =~= mid + repetition_end(opt_view(*sep), '+'));
            assert(tokens_view(out@) =~= unparse_item(item_view(*item)));
        },
    }
    assert(tokens_view(out@) =~= unparse_item(item_view(*item)));
    out
}

} // verus!
