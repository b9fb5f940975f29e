use macrospace::token::{Delimiter, TokenTree};
use macrospace::pattern::{Pattern, PatternError};
use macrospace::binding::StructuredBinding;
use macrospace::store::StructuredBindings;
use macrospace::matcher::MatchError;
use macrospace::substitute::SubstitutionError;
use macrospace::store::StructuredBindingLookupError;
use macrospace::specialize::SpecializationError;
use macrospace::collect::{CollectVisitor, ParameterList};
use macrospace::item::Fragment;
use macrospace::expect::{expect_token_tree, expect_tokens};

/// Splits source text into token trees: identifiers, numeric and string
/// literals, punctuation runs (characters with no space between them) and
/// delimited groups.
fn lex(src: &str) -> Vec<TokenTree> {
    let chars: Vec<char> = src.chars().collect();
    let mut pos = 0;
    let out = lex_until(&chars, &mut pos, None);
    assert_eq!(pos, chars.len());
    out
}

fn lex_until(chars: &[char], pos: &mut usize, close: Option<char>) -> Vec<TokenTree> {
    let mut out = Vec::new();
    while *pos < chars.len() {
        let c = chars[*pos];
        if Some(c) == close {
            *pos += 1;
            return out;
        }
        if c.is_whitespace() {
            *pos += 1;
        } else if c.is_alphabetic() || c == '_' {
            let start = *pos;
            while *pos < chars.len() && (chars[*pos].is_alphanumeric() || chars[*pos] == '_') {
                *pos += 1;
            }
            out.push(TokenTree::Ident(chars[start..*pos].iter().collect()));
        } else if c.is_ascii_digit() {
            let start = *pos;
            while *pos < chars.len() && chars[*pos].is_ascii_alphanumeric() {
                *pos += 1;
            }
            out.push(TokenTree::Literal(chars[start..*pos].iter().collect()));
        } else if c == '"' {
            let start = *pos;
            *pos += 1;
            while chars[*pos] != '"' {
                *pos += 1;
            }
            *pos += 1;
            out.push(TokenTree::Literal(chars[start..*pos].iter().collect()));
        } else if c == '(' || c == '[' || c == '{' {
            *pos += 1;
            let (d, cl) = match c {
                '(' => (Delimiter::Paren, ')'),
                '[' => (Delimiter::Bracket, ']'),
                _ => (Delimiter::Brace, '}'),
            };
            let inner = lex_until(chars, pos, Some(cl));
            out.push(TokenTree::Group(d, inner));
        } else {
            let start = *pos;
            while *pos < chars.len() && is_punct(chars[*pos]) {
                *pos += 1;
            }
            out.push(TokenTree::Punct(chars[start..*pos].iter().collect()));
        }
    }
    out
}

fn is_punct(c: char) -> bool {
    !(c.is_whitespace() || c.is_alphanumeric() || c == '_' || c == '"' || "()[]{}".contains(c))
}

fn pattern(src: &str) -> Pattern<Fragment> {
    Pattern::<Fragment>::parse(&lex(src)).expect("a valid pattern")
}

fn ident(s: &str) -> TokenTree {
    TokenTree::Ident(s.to_string())
}

fn value(s: &str) -> StructuredBinding {
    StructuredBinding::Value(vec![ident(s)])
}

fn render(tokens: &[TokenTree]) -> String {
    let mut parts = Vec::new();
    for t in tokens {
        parts.push(match t {
            TokenTree::Ident(s) | TokenTree::Literal(s) | TokenTree::Punct(s) => s.clone(),
            TokenTree::Group(d, inner) => {
                let (o, c) = match d {
                    Delimiter::Paren => ("(", ")"),
                    Delimiter::Bracket => ("[", "]"),
                    Delimiter::Brace => ("{", "}"),
                };
                format!("{}{}{}", o, render(inner), c)
            },
        });
    }
    parts.join(" ")
}

fn lex_render(src: &str) -> String {
    render(&lex(src))
}

#[test]
fn repetition_arity_match() {
    let p = pattern("a $($x:ident),* b");
    let b = p.match_tokens(&lex("a x1, x2, x3 b")).expect("a match");
    match b.get(&"x".to_string()) {
        Some(StructuredBinding::ZeroOrMore(v)) => {
            assert_eq!(v.len(), 3);
            for (i, name) in ["x1", "x2", "x3"].iter().enumerate() {
                match &v[i] {
                    StructuredBinding::Value(t) => assert_eq!(render(t), *name),
                    other => panic!("unexpected {:?}", other),
                }
            }
        },
        other => panic!("unexpected {:?}", other),
    }
}

#[test]
fn repetition_arity_substitute() {
    let p = pattern("a $($x:ident),* b");
    let mut b = StructuredBindings::new();
    assert!(b.add_binding("x".to_string(), StructuredBinding::ZeroOrMore(vec![value("p"), value("q")])).is_ok());
    let out = p.substitute(&b).expect("a substitution");
    assert_eq!(render(&out), lex_render("a p , q b"));
}

fn bind(pairs: Vec<(&str, StructuredBinding)>) -> StructuredBindings {
    let mut b = StructuredBindings::new();
    for (n, v) in pairs {
        assert!(b.add_binding(n.to_string(), v).is_ok());
    }
    b
}

fn list(names: &[&str]) -> StructuredBinding {
    StructuredBinding::ZeroOrMore(names.iter().map(|n| value(n)).collect())
}

fn round_trip(pat: &str, input: &str) {
    let p = pattern(pat);
    let b = p.match_tokens(&lex(input)).expect("a match");
    let out = p.substitute(&b).expect("a substitution");
    assert_eq!(render(&out), lex_render(input));
}

fn values(b: &StructuredBinding) -> Vec<String> {
    match b {
        StructuredBinding::ZeroOrMore(v) | StructuredBinding::OneOrMore(v) => v
            .iter()
            .map(|x| match x {
                StructuredBinding::Value(t) => render(t),
                other => panic!("unexpected {:?}", other),
            })
            .collect(),
        other => panic!("unexpected {:?}", other),
    }
}

#[test]
fn one_or_more_rejects_empty_input() {
    let p = pattern("$($x:ident)+");
    assert!(p.match_tokens(&lex("")).is_err());
}

#[test]
fn one_or_more_single() {
    let p = pattern("$($x:ident)+");
    let b = p.match_tokens(&lex("x1")).expect("a match");
    match b.get(&"x".to_string()) {
        Some(x @ StructuredBinding::OneOrMore(_)) => assert_eq!(values(x), vec!["x1"]),
        other => panic!("unexpected {:?}", other),
    }
}

#[test]
fn index_count_mismatch() {
    let p = pattern("$[i]($x:ident)*");
    let b = bind(vec![("x", list(&["a", "b", "c", "d"])), ("i", StructuredBinding::Index(3))]);
    match p.substitute(&b) {
        Err(SubstitutionError::LenMismatch(e)) => {
            assert_eq!(e.ident, "i");
            assert_eq!(e.found, 4);
            assert_eq!(e.expected, 3);
        },
        other => panic!("unexpected {:?}", other),
    }
}

#[test]
fn index_count_agrees() {
    let p = pattern("$[i]($x:ident)*");
    let b = bind(vec![("x", list(&["a", "b"])), ("i", StructuredBinding::Index(2))]);
    assert_eq!(render(&p.substitute(&b).expect("a substitution")), "a b");
}

#[test]
fn index_bound_to_other_shape() {
    let p = pattern("$[i]($x:ident)*");
    let b = bind(vec![("x", list(&["a"])), ("i", value("z"))]);
    assert_eq!(render(&p.substitute(&b).expect("a substitution")), "a");
}

#[test]
fn optional_none_omits_block() {
    let p = pattern("a $(< $x:ident >)? b");
    let b = bind(vec![("x", StructuredBinding::Optional(None))]);
    assert_eq!(render(&p.substitute(&b).expect("a substitution")), "a b");
}

#[test]
fn optional_some_emits_block() {
    let p = pattern("a $(< $x:ident >)? b");
    let b = bind(vec![("x", StructuredBinding::Optional(Some(Box::new(value("v")))))]);
    assert_eq!(render(&p.substitute(&b).expect("a substitution")), "a < v > b");
}

#[test]
fn optional_match_both_ways() {
    let p = pattern("a $(< $x:ident >)? b");
    let b = p.match_tokens(&lex("a < v > b")).expect("a match");
    match b.get(&"x".to_string()) {
        Some(StructuredBinding::Optional(Some(_))) => {},
        other => panic!("unexpected {:?}", other),
    }
    let b = p.match_tokens(&lex("a b")).expect("a match");
    match b.get(&"x".to_string()) {
        Some(StructuredBinding::Optional(None)) => {},
        other => panic!("unexpected {:?}", other),
    }
}

#[test]
fn round_trips() {
    round_trip("a $($x:ident),* b", "a x1, x2, x3 b");
    round_trip("a $($x:ident),* ;", "a ;");
    round_trip("fn $name:ident ( $($arg:ident : $ty:tt),* ) { $($body:tt)* }", "fn f(a: u8, b: u16) { x + 1 }");
    round_trip("$($k:ident => $v:literal);+", "a => 1; b => 2");
    round_trip("$[i]($x:ident = $#i),*", "a = 0, b = 1, c = 2");
    round_trip("$($(a $x:ident)?)*", "a b a c");
    round_trip("[ $($x:punct)* ]", "[ + :: => ]");
}

#[test]
fn repetitions_are_greedy() {
    let p = pattern("a $($x:ident),* b");
    match p.match_tokens(&lex("a b")) {
        Err(MatchError::Mismatch { at }) => assert_eq!(at, 2),
        other => panic!("unexpected {:?}", other),
    }
}

#[test]
fn incompatible_repetitions_rejected() {
    match Pattern::<Fragment>::parse(&lex("$($x:ident)? $($x:ident)+")) {
        Err(PatternError::Incompatible(e)) => assert_eq!(e.parameter, "x"),
        other => panic!("unexpected {:?}", other),
    }
    match Pattern::<Fragment>::parse(&lex("$x:ident $($x:ident)*")) {
        Err(PatternError::Incompatible(e)) => assert_eq!(e.parameter, "x"),
        other => panic!("unexpected {:?}", other),
    }
}

#[test]
fn same_classification_accepted() {
    assert!(Pattern::<Fragment>::parse(&lex("$($x:ident)* ; $($x:ident)*")).is_ok());
    assert!(Pattern::<Fragment>::parse(&lex("$x:ident ( $x:ident )")).is_ok());
}

#[test]
fn empty_repetitions_rejected() {
    let cases: [(&str, Vec<usize>); 5] = [
        ("$(a)*", vec![0]),
        ("$(a b)+", vec![0]),
        ("$(a)?", vec![0]),
        ("x $( ( $($y:ident)* ) $(c)? )*", vec![1, 1]),
        ("( k $[i]($#i)* )", vec![0, 1]),
    ];
    for (src, path) in cases {
        match Pattern::<Fragment>::parse(&lex(src)) {
            Err(PatternError::NoParameterInRepetition(e)) => assert_eq!(e.path, path, "{}", src),
            other => panic!("unexpected {:?} for {}", other, src),
        }
    }
}

#[test]
fn syntax_errors() {
    for (src, at) in [("$", 1), ("a $x", 3), ("$x:foo", 3), ("$x ident", 2), ("$($x:ident)", 2), ("$[i]($x:ident)?", 3), ("$$", 0)] {
        match Pattern::<Fragment>::parse(&lex(src)) {
            Err(PatternError::Syntax(e)) => assert_eq!(e.path, vec![at], "{}", src),
            other => panic!("unexpected {:?} for {}", other, src),
        }
    }
}

#[test]
fn nested_syntax_errors_are_located() {
    for (src, path) in [("a ( b { $x } )", vec![1, 1, 2]), ("$( c $ )*", vec![1, 2]), ("$[i]( $x: )*", vec![2, 3])] {
        match Pattern::<Fragment>::parse(&lex(src)) {
            Err(PatternError::Syntax(e)) => assert_eq!(e.path, path, "{}", src),
            other => panic!("unexpected {:?} for {}", other, src),
        }
    }
}

#[test]
fn separators() {
    let p = pattern("$($x:ident)=>*");
    let b = p.match_tokens(&lex("a => b => c")).expect("a match");
    assert_eq!(values(b.get(&"x".to_string()).unwrap()), vec!["a", "b", "c"]);
    let p = pattern("$($x:ident); +");
    let b = p.match_tokens(&lex("a; b")).expect("a match");
    assert_eq!(values(b.get(&"x".to_string()).unwrap()), vec!["a", "b"]);
}

#[test]
fn trailing_separator_is_left() {
    let p = pattern("$($x:ident),*");
    match p.match_tokens(&lex("a, b,")) {
        Err(MatchError::TrailingInput { at }) => assert_eq!(at, 3),
        other => panic!("unexpected {:?}", other),
    }
}

#[test]
fn token_mismatch() {
    let p = pattern("a b");
    match p.match_tokens(&lex("a c")) {
        Err(MatchError::Mismatch { at }) => assert_eq!(at, 1),
        other => panic!("unexpected {:?}", other),
    }
    match p.match_tokens(&lex("a")) {
        Err(MatchError::Mismatch { at }) => assert_eq!(at, 1),
        other => panic!("unexpected {:?}", other),
    }
}

#[test]
fn trailing_input() {
    let p = pattern("a");
    match p.match_tokens(&lex("a b")) {
        Err(MatchError::TrailingInput { at }) => assert_eq!(at, 1),
        other => panic!("unexpected {:?}", other),
    }
    let p = pattern("( a )");
    match p.match_tokens(&lex("(a b)")) {
        Err(MatchError::TrailingInput { at }) => assert_eq!(at, 1),
        other => panic!("unexpected {:?}", other),
    }
    match p.match_tokens(&lex("[a]")) {
        Err(MatchError::Mismatch { at }) => assert_eq!(at, 0),
        other => panic!("unexpected {:?}", other),
    }
}

#[test]
fn repeated_parameter_must_agree() {
    let p = pattern("$x:ident + $x:ident");
    assert!(p.match_tokens(&lex("a + a")).is_ok());
    match p.match_tokens(&lex("a + b")) {
        Err(MatchError::BindingMismatch(e)) => assert_eq!(e.parameter, "x"),
        other => panic!("unexpected {:?}", other),
    }
}

#[test]
fn index_reference_outside_repetition() {
    let p = pattern("$#i");
    match p.match_tokens(&lex("0")) {
        Err(MatchError::IndexNotFound(e)) => assert_eq!(e.parameter, "i"),
        other => panic!("unexpected {:?}", other),
    }
    match p.substitute(&StructuredBindings::new()) {
        Err(SubstitutionError::IndexLookup(e)) => assert_eq!(e.parameter, "i"),
        other => panic!("unexpected {:?}", other),
    }
}

#[test]
fn index_literals_count_in_decimal() {
    let p = pattern("$[i]($x:ident $#i)*");
    let names: Vec<String> = (0..12).map(|k| format!("n{}", k)).collect();
    let refs: Vec<&str> = names.iter().map(|s| s.as_str()).collect();
    let b = bind(vec![("x", list(&refs))]);
    let out = p.substitute(&b).expect("a substitution");
    assert_eq!(out.len(), 24);
    assert_eq!(render(&out[21..24]), "10 n11 11");
    let again = p.match_tokens(&out).expect("a match");
    assert_eq!(values(again.get(&"x".to_string()).unwrap()).len(), 12);
}

#[test]
fn substitution_lookup_errors() {
    let p = pattern("$x:ident");
    match p.substitute(&StructuredBindings::new()) {
        Err(SubstitutionError::Lookup(StructuredBindingLookupError::NotFound(e))) => assert_eq!(e.parameter, "x"),
        other => panic!("unexpected {:?}", other),
    }
    match p.substitute(&bind(vec![("x", StructuredBinding::Index(1))])) {
        Err(SubstitutionError::Lookup(StructuredBindingLookupError::TypeMismatch(e))) => assert_eq!(e.parameter, "x"),
        other => panic!("unexpected {:?}", other),
    }
    let lit = StructuredBinding::Value(vec![TokenTree::Literal("1".to_string())]);
    match p.substitute(&bind(vec![("x", lit)])) {
        Err(SubstitutionError::Tokenize(e)) => assert_eq!(e.parameter, "x"),
        other => panic!("unexpected {:?}", other),
    }
    let p = pattern("$($x:ident)+");
    match p.substitute(&bind(vec![("x", StructuredBinding::OneOrMore(vec![]))])) {
        Err(SubstitutionError::Lookup(StructuredBindingLookupError::NotFound(e))) => assert_eq!(e.parameter, "x"),
        other => panic!("unexpected {:?}", other),
    }
}

#[test]
fn shortest_list_bounds_iterations() {
    let p = pattern("$($a:ident $b:ident),*");
    let b = bind(vec![("a", list(&["p", "q", "r"])), ("b", list(&["s", "t"]))]);
    assert_eq!(render(&p.substitute(&b).expect("a substitution")), lex_render("p s, q t"));
}

#[test]
fn zero_width_iterations_end_repetition() {
    let p = pattern("$( $($x:ident)* )*");
    let b = p.match_tokens(&lex("")).expect("a match");
    match b.get(&"x".to_string()) {
        Some(StructuredBinding::ZeroOrMore(v)) => assert!(v.is_empty()),
        other => panic!("unexpected {:?}", other),
    }
    let b = p.match_tokens(&lex("a b")).expect("a match");
    match b.get(&"x".to_string()) {
        Some(StructuredBinding::ZeroOrMore(v)) => {
            assert_eq!(v.len(), 1);
            assert_eq!(values(&v[0]), vec!["a", "b"]);
        },
        other => panic!("unexpected {:?}", other),
    }
}

#[test]
fn specialize_binds_some_parameters() {
    let p = pattern("a $x:ident $y:ident");
    let s = p.specialize(&bind(vec![("x", value("p"))])).expect("a specialization");
    assert_eq!(s.parameters(), &vec!["y".to_string()]);
    let out = s.substitute(&bind(vec![("y", value("q"))])).expect("a substitution");
    assert_eq!(render(&out), "a p q");
}

#[test]
fn specialize_unrolls_bound_repetition() {
    let p = pattern("$[i]($x:ident = $#i),* ; $($y:ident)*");
    let s = p.specialize(&bind(vec![("x", list(&["p", "q"]))])).expect("a specialization");
    assert_eq!(s.parameters(), &vec!["y".to_string()]);
    let out = s.substitute(&bind(vec![("y", list(&["r"]))])).expect("a substitution");
    assert_eq!(render(&out), lex_render("p = 0, q = 1 ; r"));
    match p.specialize(&bind(vec![("x", list(&["p"])), ("i", StructuredBinding::Index(2))])) {
        Err(SpecializationError::LenMismatch(e)) => assert_eq!(e.expected, 2),
        other => panic!("unexpected {:?}", other),
    }
}

#[test]
fn specialize_optional() {
    let p = pattern("a $(< $x:ident >)? b");
    let s = p.specialize(&bind(vec![("x", StructuredBinding::Optional(None))])).expect("a specialization");
    assert!(s.parameters().is_empty());
    assert_eq!(render(&s.substitute(&StructuredBindings::new()).expect("a substitution")), "a b");
    let kept = p.specialize(&StructuredBindings::new()).expect("a specialization");
    assert_eq!(kept.parameters(), &vec!["x".to_string()]);
}

#[test]
fn specialize_errors() {
    let p = pattern("$x:ident");
    match p.specialize(&bind(vec![("x", StructuredBinding::Index(0))])) {
        Err(SpecializationError::Lookup(StructuredBindingLookupError::TypeMismatch(e))) => assert_eq!(e.parameter, "x"),
        other => panic!("unexpected {:?}", other),
    }
    let p = pattern("$x:tt");
    match p.specialize(&bind(vec![("x", StructuredBinding::Value(vec![TokenTree::Punct("$".to_string())]))])) {
        Err(SpecializationError::Parse(e)) => assert_eq!(e.path, vec![1]),
        other => panic!("unexpected {:?}", other),
    }
}

#[test]
fn parameters_listed_once_in_order() {
    assert!(Pattern::<Fragment>::parse(&lex("$x:ident $( $y:ident $x:ident )? $z:tt")).is_err());
    let p = pattern("$x:ident $y:ident $x:ident");
    assert_eq!(p.parameters(), &vec!["x".to_string(), "y".to_string()]);
}

#[test]
fn collect_reports_every_use() {
    let p = pattern("$x:ident ( $($y:literal)* ) $x:ident");
    let mut v = CollectVisitor::new(ParameterList::<Fragment>::new());
    v.visit_pattern(&p);
    let got = v.into_collector().entries;
    assert_eq!(
        got,
        vec![
            ("x".to_string(), Fragment::Ident),
            ("y".to_string(), Fragment::Literal),
            ("x".to_string(), Fragment::Ident),
        ]
    );
}

#[test]
fn superset_of_parameters() {
    let big = pattern("$x:ident $y:ident");
    let small = pattern("$($y:ident)*");
    assert!(big.assert_parameters_superset(&small).is_ok());
    match small.assert_parameters_superset(&big) {
        Err(e) => assert_eq!(e.parameter, "x"),
        other => panic!("unexpected {:?}", other),
    }
}

#[test]
fn map_keeps_shape() {
    let b = StructuredBinding::ZeroOrMore(vec![value("a"), StructuredBinding::Index(2)]);
    let m = b.map(&|v: &Vec<TokenTree>| {
        let mut w = Vec::new();
        for t in v {
            if let TokenTree::Ident(s) = t {
                w.push(TokenTree::Ident(format!("{}_2", s)));
            }
        }
        w
    });
    match &m {
        StructuredBinding::ZeroOrMore(v) => {
            assert_eq!(v.len(), 2);
            match &v[0] {
                StructuredBinding::Value(t) => assert_eq!(render(t), "a_2"),
                other => panic!("unexpected {:?}", other),
            }
            assert!(matches!(v[1], StructuredBinding::Index(2)));
        },
        other => panic!("unexpected {:?}", other),
    }
    assert_eq!(m.ty(), b.ty());
}

#[test]
fn merge_and_conflicts() {
    let mut a = bind(vec![("x", value("p"))]);
    let b = bind(vec![("x", value("p")), ("y", value("q"))]);
    assert!(a.merge(&b).is_ok());
    assert_eq!(a.len(), 2);
    let c = bind(vec![("y", value("r"))]);
    match a.merge(&c) {
        Err(e) => assert_eq!(e.parameter, "y"),
        other => panic!("unexpected {:?}", other),
    }
}

#[test]
fn expect_tokens_verbatim() {
    let input = lex("a (b c) d e");
    assert_eq!(expect_tokens(&input, 1, &lex("(b c) d")).expect("a match"), 3);
    match expect_tokens(&input, 1, &lex("(b x)")) {
        Err(e) => assert_eq!(e.at, 1),
        other => panic!("unexpected {:?}", other),
    }
    match expect_tokens(&input, 2, &lex("d e f")) {
        Err(e) => assert_eq!(e.at, 4),
        other => panic!("unexpected {:?}", other),
    }
    assert!(expect_token_tree(&input[1], &lex("(b c)")[0]).is_ok());
    assert!(expect_token_tree(&input[1], &lex("[b c]")[0]).is_err());
}

#[test]
fn pattern_written_back() {
    let src = "a $x:ident ( $[i]($y:literal = $#i),* ) $($z:tt)? { $($w:punct)=>+ }";
    let p = pattern(src);
    let toks = p.to_tokens();
    assert_eq!(render(&toks), lex_render(src));
    let again = Pattern::<Fragment>::parse(&toks).expect("a valid pattern");
    assert_eq!(render(&again.to_tokens()), render(&toks));
}

