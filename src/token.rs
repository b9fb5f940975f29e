//! Token trees: identifiers, literals, punctuation runs and delimited groups.

use vstd::prelude::*;

verus! {

/// The delimiter of a group.
#[derive(Clone, Copy, Debug, PartialEq, Eq, Structural)]
pub enum Delimiter {
    Paren,
    Brace,
    Bracket,
}

/// A token tree.
///
/// A punctuation run holds consecutive punctuation characters that had no
/// whitespace between them (`::`, `=>`, `,`), so that a multi-character
/// operator is one unit.
#[derive(Debug)]
pub enum TokenTree {
    Ident(String),
    Literal(String),
    Punct(String),
    Group(Delimiter, Vec<TokenTree>),
}

/// The mathematical value of a token tree.
pub enum TokV {
    Ident(Seq<char>),
    Literal(Seq<char>),
    Punct(Seq<char>),
    Group(Delimiter, Seq<TokV>),
}

pub open spec fn token_view(t: TokenTree) -> TokV
    decreases t,
{
    match t {
        TokenTree::Ident(s) => TokV::Ident(s@),
        TokenTree::Literal(s) => TokV::Literal(s@),
        TokenTree::Punct(s) => TokV::Punct(s@),
        TokenTree::Group(d, v) => TokV::Group(d, tokens_view(v@)),
    }
}

pub open spec fn tokens_view(s: Seq<TokenTree>) -> Seq<TokV>
    decreases s,
{
    if s.len() == 0 {
        Seq::empty()
    } else {
        tokens_view(s.drop_last()).push(token_view(s.last()))
    }
}

pub proof fn lemma_tokens_view(s: Seq<TokenTree>)
    ensures
        tokens_view(s).len() == s.len(),
        forall|i: int| 0 <= i < s.len() ==> #[trigger] tokens_view(s)[i] == token_view(s[i]),
    decreases s.len(),
{
    if s.len() > 0 {
        lemma_tokens_view(s.drop_last());
    }
}

pub proof fn lemma_tokens_view_concat(a: Seq<TokenTree>, b: Seq<TokenTree>)
    ensures
        tokens_view(a + b) == tokens_view(a) + tokens_view(b),
{
    lemma_tokens_view(a);
    lemma_tokens_view(b);
    lemma_tokens_view(a + b);
    assert(tokens_view(a + b) =~= tokens_view(a) + tokens_view(b));
}

/// Copies a token tree, keeping its value.
pub fn copy_token(t: &TokenTree) -> (r: TokenTree)
    ensures
        token_view(r) == token_view(*t),
    decreases t,
{
    match t {
        TokenTree::Ident(s) => TokenTree::Ident(s.clone()),
        TokenTree::Literal(s) => TokenTree::Literal(s.clone()),
        TokenTree::Punct(s) => TokenTree::Punct(s.clone()),
        TokenTree::Group(d, v) => TokenTree::Group(*d, copy_tokens(v)),
    }
}

/// Copies a sequence of token trees, keeping its value.
pub fn copy_tokens(v: &Vec<TokenTree>) -> (r: Vec<TokenTree>)
    ensures
        tokens_view(r@) == tokens_view(v@),
    decreases v,
{
    let mut r: Vec<TokenTree> = Vec::new();
    let mut i: usize = 0;
    while i < v.len()
        invariant
            i <= v.len(),
            tokens_view(r@) == tokens_view(v@.subrange(0, i as int)),
        decreases v.len() - i,
    {
        let t = copy_token(&v[i]);
        let ghost r0 = r@;
        r.push(t);
        proof {
            assert(r@.drop_last() == r0);
            assert(v@.subrange(0, i + 1).drop_last() == v@.subrange(0, i as int));
        }
        i = i + 1;
    }
    proof {
        assert(v@.subrange(0, v.len() as int) == v@);
    }
    r
}

/// Copies the tokens `v[from..to]`.
pub fn copy_range(v: &Vec<TokenTree>, from: usize, to: usize) -> (r: Vec<TokenTree>)
    requires
        from <= to <= v.len(),
    ensures
        tokens_view(r@) == tokens_view(v@).subrange(from as int, to as int),
{
    proof {
        lemma_tokens_view(v@);
    }
    let mut r: Vec<TokenTree> = Vec::new();
    let mut i: usize = from;
    while i < to
        invariant
            from <= i <= to,
            to <= v.len(),
            tokens_view(v@).len() == v.len(),
            forall|j: int| 0 <= j < v.len() ==> #[trigger] tokens_view(v@)[j] == token_view(v@[j]),
            tokens_view(r@) == tokens_view(v@).subrange(from as int, i as int),
        decreases to - i,
    {
        let t = copy_token(&v[i]);
        let ghost r0 = r@;
        r.push(t);
        proof {
            assert(r@.drop_last() == r0);
            assert(tokens_view(r@) =~= tokens_view(v@).subrange(from as int, i + 1));
        }
        i = i + 1;
    }
    r
}

/// Tells whether two token trees have the same value.
pub fn token_eq(a: &TokenTree, b: &TokenTree) -> (r: bool)
    ensures
        r == (token_view(*a) == token_view(*b)),
    decreases a,
{
    match a {
        TokenTree::Ident(x) => match b {
            TokenTree::Ident(y) => x.eq(y),
            _ => false,
        },
        TokenTree::Literal(x) => match b {
            TokenTree::Literal(y) => x.eq(y),
            _ => false,
        },
        TokenTree::Punct(x) => match b {
            TokenTree::Punct(y) => x.eq(y),
            _ => false,
        },
        TokenTree::Group(d, x) => match b {
            TokenTree::Group(e, y) => *d == *e && tokens_eq(x, y),
            _ => false,
        },
    }
}

/// Tells whether two sequences of token trees have the same value.
pub fn tokens_eq(a: &Vec<TokenTree>, b: &Vec<TokenTree>) -> (r: bool)
    ensures
        r == (tokens_view(a@) == tokens_view(b@)),
    decreases a,
{
    proof {
        lemma_tokens_view(a@);
        lemma_tokens_view(b@);
    }
    if a.len() != b.len() {
        return false;
    }
    let mut i: usize = 0;
    while i < a.len()
        invariant
            a.len() == b.len(),
            i <= a.len(),
            tokens_view(a@).len() == a.len(),
            tokens_view(b@).len() == b.len(),
            forall|j: int| 0 <= j < a.len() ==> #[trigger] tokens_view(a@)[j] == token_view(a@[j]),
            forall|j: int| 0 <= j < b.len() ==> #[trigger] tokens_view(b@)[j] == token_view(b@[j]),
            forall|j: int| 0 <= j < i ==> token_view(#[trigger] a@[j]) == token_view(b@[j]),
        decreases a.len() - i,
    {
        if !token_eq(&a[i], &b[i]) {
            assert(tokens_view(a@)[i as int] != tokens_view(b@)[i as int]);
            return false;
        }
        i = i + 1;
    }
    assert(tokens_view(a@) =~= tokens_view(b@));
    true
}

/// The ten decimal digits.
pub open spec fn digit_char(d: nat) -> char {
    seq!['0', '1', '2', '3', '4', '5', '6', '7', '8', '9'][d as int]
}

/// The decimal notation of a natural number, without sign or suffix.
pub open spec fn decimal(n: nat) -> Seq<char>
    decreases n,
{
    if n < 10 {
        seq![digit_char(n)]
    } else {
        decimal(n / 10).push(digit_char(n % 10))
    }
}

/// Relies on the standard library's `Display` for `usize` (through
/// `to_string`): it writes the number in decimal, without sign or suffix.
#[verifier::external_body]
pub(crate) fn usize_text(n: usize) -> (r: String)
    ensures
        r@ == decimal(n as nat),
{
    n.to_string()
}

/// The unsuffixed integer literal token for `n`.
pub fn index_literal(n: usize) -> (r: TokenTree)
    ensures
        token_view(r) == TokV::Literal(decimal(n as nat)),
{
    TokenTree::Literal(usize_text(n))
}

} // verus!
