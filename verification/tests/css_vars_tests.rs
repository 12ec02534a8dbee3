use rosin_core::css::properties::{
    after_var_pass, resolve_vars_iteratively, resolve_vars_pass, VarPassStep, VarResolveError, VarResolveErrorKind,
    VAR_RESOLVE_LIMIT,
};
use rosin_core::css::tokens::{read_outer_tokens, tokenize_value, CssToken, TokenKind};
use rosin_core::css::variables::VariableContext;

fn tok(kind: TokenKind, text: &str) -> CssToken {
    CssToken { kind, text: text.to_string() }
}

fn ctx(vars: &[(&str, &str)]) -> VariableContext {
    let mut c = VariableContext::new();
    let owned: Vec<(String, String)> = vars.iter().map(|(k, v)| (k.to_string(), v.to_string())).collect();
    c.push_vars(0, &owned);
    c
}

fn resolve(input: &str, vars: &[(&str, &str)]) -> Result<Option<String>, VarResolveErrorKind> {
    resolve_vars_iteratively(input, 0, 0, &ctx(vars)).map_err(|e| e.kind)
}

#[test]
fn tokenize_plain_tokens() {
    assert_eq!(
        tokenize_value("a, b"),
        vec![
            tok(TokenKind::Ident("a".to_string()), "a"),
            tok(TokenKind::Comma, ","),
            tok(TokenKind::WhiteSpace, " "),
            tok(TokenKind::Ident("b".to_string()), "b"),
        ]
    );
}

#[test]
fn tokenize_nested_blocks() {
    assert_eq!(
        tokenize_value("f(x [1])"),
        vec![
            tok(TokenKind::Function("f".to_string()), "f("),
            tok(TokenKind::Ident("x".to_string()), "x"),
            tok(TokenKind::WhiteSpace, " "),
            tok(TokenKind::SquareBracketBlock, "["),
            tok(TokenKind::Number(Some(1)), "1"),
            tok(TokenKind::BlockEnd, "]"),
            tok(TokenKind::BlockEnd, ")"),
        ]
    );
}

#[test]
fn tokenize_unclosed_block_and_stray_close() {
    assert_eq!(
        tokenize_value("f(x"),
        vec![
            tok(TokenKind::Function("f".to_string()), "f("),
            tok(TokenKind::Ident("x".to_string()), "x"),
            tok(TokenKind::BlockEnd, ""),
        ]
    );
    assert_eq!(tokenize_value(")"), vec![tok(TokenKind::CloseParenthesis, ")")]);
    assert_eq!(tokenize_value("/* c */"), vec![tok(TokenKind::Comment, "/* c */")]);
    assert_eq!(tokenize_value(""), vec![]);
}

#[test]
fn pass_replaces_var_with_value() {
    let vars = ctx(&[("--a", "red")]);
    let toks = tokenize_value("1px solid var(--a)");
    assert_eq!(resolve_vars_pass(&toks, &vars), Ok(Some("1px solid red".to_string())));
}

#[test]
fn pass_without_var_reports_none() {
    let vars = ctx(&[("--a", "red")]);
    assert_eq!(resolve_vars_pass(&tokenize_value("1px solid blue"), &vars), Ok(None));
    assert_eq!(resolve_vars_pass(&tokenize_value("calc(1px + 2px)"), &vars), Ok(None));
}

#[test]
fn pass_uses_fallback_when_unset() {
    let vars = ctx(&[]);
    let toks = tokenize_value("var(--missing, 1px  2px )");
    assert_eq!(resolve_vars_pass(&toks, &vars), Ok(Some("1px  2px".to_string())));
}

#[test]
fn pass_prefers_value_over_fallback() {
    let vars = ctx(&[("--a", "red")]);
    let toks = tokenize_value("VAR( --a , blue)");
    assert_eq!(resolve_vars_pass(&toks, &vars), Ok(Some("red".to_string())));
}

#[test]
fn pass_errors() {
    let vars = ctx(&[("--a", "red")]);
    assert_eq!(resolve_vars_pass(&tokenize_value("var(--missing)"), &vars), Err(VarResolveErrorKind::UnresolvedNoFallback));
    assert_eq!(resolve_vars_pass(&tokenize_value("var(--a x)"), &vars), Err(VarResolveErrorKind::ParseFailed));
    assert_eq!(resolve_vars_pass(&tokenize_value("var(1px)"), &vars), Err(VarResolveErrorKind::ParseFailed));
    assert_eq!(resolve_vars_pass(&tokenize_value("red ]"), &vars), Err(VarResolveErrorKind::ParseFailed));
    assert_eq!(resolve_vars_pass(&tokenize_value("var(--a, x ) )"), &vars), Err(VarResolveErrorKind::ParseFailed));
}

#[test]
fn pass_expands_inside_functions() {
    let vars = ctx(&[("--w", "4px")]);
    let toks = tokenize_value("calc(var(--w) * 2) [var(--w)]");
    assert_eq!(resolve_vars_pass(&toks, &vars), Ok(Some("calc(4px * 2) [4px]".to_string())));
}

#[test]
fn pass_refuses_deep_nesting() {
    let vars = ctx(&[]);
    let deep = "(".repeat(80);
    assert_eq!(resolve_vars_pass(&tokenize_value(&deep), &vars), Err(VarResolveErrorKind::ParseFailed));
    let shallow = "(".repeat(70);
    assert_eq!(resolve_vars_pass(&tokenize_value(&shallow), &vars), Ok(None));
}

#[test]
fn iterative_value_without_var() {
    assert_eq!(resolve("1px solid", &[("--a", "red")]), Ok(None));
}

#[test]
fn iterative_expands_chains() {
    assert_eq!(resolve("var(--a)", &[("--a", "var(--b) 1px"), ("--b", "blue")]), Ok(Some("blue 1px".to_string())));
}

#[test]
fn iterative_detects_cycles() {
    assert_eq!(resolve("var(--a)", &[("--a", "var(--a)")]), Err(VarResolveErrorKind::DepthExceeded));
}

#[test]
fn iterative_reports_missing() {
    assert_eq!(resolve("var(--a)", &[("--b", "1")]), Err(VarResolveErrorKind::UnresolvedNoFallback));
    assert_eq!(resolve("var(--a, var(--b))", &[("--b", "1")]), Ok(Some("1".to_string())));
}

#[test]
fn step_after_passes() {
    assert!(matches!(after_var_pass(0, None, Ok(None)), VarPassStep::Done(Ok(None))));
    assert!(matches!(after_var_pass(0, None, Ok(Some("x".to_string()))), VarPassStep::Again(s) if s == "x"));
    assert!(matches!(
        after_var_pass(3, Some("y".to_string()), Ok(None)),
        VarPassStep::Done(Ok(Some(s))) if s == "y"
    ));
    assert!(matches!(
        after_var_pass(VAR_RESOLVE_LIMIT - 1, Some("y".to_string()), Ok(Some("z".to_string()))),
        VarPassStep::Done(Err(VarResolveErrorKind::DepthExceeded))
    ));
    assert!(matches!(
        after_var_pass(2, Some("y".to_string()), Err(VarResolveErrorKind::ParseFailed)),
        VarPassStep::Done(Err(VarResolveErrorKind::ParseFailed))
    ));
}

#[test]
fn iterative_error_carries_value_and_place() {
    let e = resolve_vars_iteratively("var(--missing)", 3, 7, &ctx(&[])).unwrap_err();
    assert_eq!(
        e,
        VarResolveError { kind: VarResolveErrorKind::UnresolvedNoFallback, value: "var(--missing)".to_string(), line: 3, column: 7 }
    );
    assert_eq!(resolve_vars_iteratively("var(--missing, 4px)", 0, 0, &ctx(&[])).unwrap(), Some("4px".to_string()));
    let e = resolve_vars_iteratively("var(--a)", 1, 2, &ctx(&[("--a", "var(--a)")])).unwrap_err();
    assert_eq!(e.kind, VarResolveErrorKind::DepthExceeded);
    assert_eq!(e.value, "var(--a)");
}

#[test]
fn tokenize_brackets_and_closers() {
    assert_eq!(
        tokenize_value("{a}]"),
        vec![
            tok(TokenKind::CurlyBracketBlock, "{"),
            tok(TokenKind::Ident("a".to_string()), "a"),
            tok(TokenKind::BlockEnd, "}"),
            tok(TokenKind::CloseSquareBracket, "]"),
        ]
    );
    assert_eq!(
        tokenize_value("(]) }"),
        vec![
            tok(TokenKind::ParenthesisBlock, "("),
            tok(TokenKind::CloseSquareBracket, "]"),
            tok(TokenKind::BlockEnd, ")"),
            tok(TokenKind::WhiteSpace, " "),
            tok(TokenKind::CloseCurlyBracket, "}"),
        ]
    );
    assert_eq!(tokenize_value("a/b"), vec![
        tok(TokenKind::Ident("a".to_string()), "a"),
        tok(TokenKind::Delim('/'), "/"),
        tok(TokenKind::Ident("b".to_string()), "b"),
    ]);
}

#[test]
fn tokenize_too_deep_stops_with_unopened() {
    let deep = "(".repeat(80);
    let toks = tokenize_value(&deep);
    assert_eq!(toks.len(), 77);
    assert!(toks[..76].iter().all(|t| t.kind == TokenKind::ParenthesisBlock && t.text == "("));
    assert_eq!(toks[76], tok(TokenKind::Unopened, ""));
}

#[test]
fn outer_tokens_skip_blocks() {
    assert_eq!(
        read_outer_tokens("f(a) /* c */ [b] x", true),
        vec![
            tok(TokenKind::Function("f".to_string()), "f("),
            tok(TokenKind::SquareBracketBlock, "["),
            tok(TokenKind::Ident("x".to_string()), "x"),
        ]
    );
    assert_eq!(
        read_outer_tokens("#a 'q' 2.5", false),
        vec![
            tok(TokenKind::IDHash("a".to_string()), "#a"),
            tok(TokenKind::WhiteSpace, " "),
            tok(TokenKind::QuotedString, "'q'"),
            tok(TokenKind::WhiteSpace, " "),
            tok(TokenKind::Number(None), "2.5"),
        ]
    );
}

#[test]
fn token_texts_spell_the_value() {
    for text in ["f(x [1]) a", "calc(var(--w) * 2) [var(--w)]", "a /* c */ ( ] ) }", "f(x", ""] {
        let joined: String = tokenize_value(text).iter().map(|t| t.text.as_str()).collect();
        assert_eq!(joined, text);
    }
}
