use ambit::ast::{Entry, Expr, Spec, SpecType};
use ambit::errors::{ParseError, ParseErrorType};
use ambit::lexer::{TokType, Token};
use ambit::parser::Parser;

fn s(x: &str) -> Token {
    Token::string(x, 0)
}

fn t(tt: TokType) -> Token {
    Token::new(tt, 0)
}

fn collect_all(toks: Vec<Token>) -> Vec<Result<Entry, ParseError>> {
    let mut parser = Parser::new(toks);
    let mut out = Vec::new();
    while let Some(res) = parser.next() {
        out.push(res);
    }
    out
}

fn success(toks: Vec<Token>, ast: &[Entry]) {
    let results = collect_all(toks);
    let mut parsed = Vec::new();
    for res in results {
        match res {
            Ok(entry) => parsed.push(entry),
            Err(e) => panic!("{:?} at token {:?}", e.ty, e.tok),
        }
    }
    assert_eq!(parsed, ast);
}

fn fail(toks: Vec<Token>, errors: Vec<ParseError>) {
    let res: Vec<ParseError> = collect_all(toks).into_iter().filter_map(|e| e.err()).collect();
    assert_eq!(errors, res);
}

#[test]
fn basic_entry() {
    success(
        vec![s("yes"), t(TokType::Semicolon)],
        &[Entry { left: Spec::from("yes"), right: None }],
    );
}

#[test]
fn choice_expr_basic() {
    success(
        vec![
            t(TokType::LBracket),
            s("a"),
            t(TokType::Comma),
            s("b"),
            t(TokType::RBracket),
            t(TokType::Semicolon),
        ],
        &[Entry {
            left: Spec::from(SpecType::variant_expr(
                vec![Spec::from("a"), Spec::from("b")],
                None,
            )),
            right: None,
        }],
    );
}

#[test]
fn match_expr_basic() {
    success(
        vec![
            t(TokType::LBrace),
            s("default"),
            t(TokType::Colon),
            s("b"),
            t(TokType::Comma),
            s("os"),
            t(TokType::LParen),
            s("windows"),
            t(TokType::RParen),
            t(TokType::Colon),
            s("a"),
            t(TokType::RBrace),
            s("c"),
            t(TokType::Semicolon),
        ],
        &[Entry {
            left: Spec::from(SpecType::match_expr(
                vec![
                    (Expr::Any, Spec::from("b")),
                    (Expr::Os(vec!["windows".to_owned()]), Spec::from("a")),
                ],
                Some(Spec::from("c")),
            )),
            right: None,
        }],
    );
}

#[test]
fn multiple_exprs() {
    success(
        vec![
            s("examples of "),
            t(TokType::LBracket),
            s("gui"),
            t(TokType::Comma),
            s("cli"),
            t(TokType::RBracket),
            t(TokType::MapsTo),
            t(TokType::LBracket),
            s("gvim"),
            t(TokType::Comma),
            s("ed"),
            t(TokType::RBracket),
            t(TokType::Semicolon),
        ],
        &[Entry {
            left: Spec {
                string: Some("examples of ".to_owned()),
                spectype: SpecType::variant_expr(vec![Spec::from("gui"), Spec::from("cli")], None),
            },
            right: Some(Spec::from(SpecType::variant_expr(
                vec![Spec::from("gvim"), Spec::from("ed")],
                None,
            ))),
        }],
    );
}

#[test]
fn nested_variant_with_only_one_option() {
    success(
        vec![
            s(".config/"),
            t(TokType::LBracket),
            s("kitty/"),
            t(TokType::LBracket),
            s("kitty.conf"),
            t(TokType::Comma),
            s("theme.conf"),
            t(TokType::RBracket),
            t(TokType::RBracket),
            t(TokType::Semicolon),
        ],
        &[Entry {
            left: Spec {
                string: Some(".config/".to_owned()),
                spectype: SpecType::variant_expr(
                    vec![Spec {
                        string: Some("kitty/".to_owned()),
                        spectype: SpecType::variant_expr(
                            vec![Spec::from("kitty.conf"), Spec::from("theme.conf")],
                            None,
                        ),
                    }],
                    None,
                ),
            },
            right: None,
        }],
    );
}

#[test]
fn match_expr_without_default() {
    success(
        vec![
            t(TokType::LBrace),
            s("host"),
            t(TokType::LParen),
            s("hexagon"),
            t(TokType::RParen),
            t(TokType::Colon),
            s("a"),
            t(TokType::Comma),
            s("os"),
            t(TokType::LParen),
            s("macos"),
            t(TokType::RParen),
            t(TokType::Colon),
            s("b"),
            t(TokType::RBrace),
            t(TokType::Semicolon),
        ],
        &[Entry {
            left: Spec::from(SpecType::match_expr(
                vec![
                    (Expr::Host(vec!["hexagon".to_owned()]), Spec::from("a")),
                    (Expr::Os(vec!["macos".to_owned()]), Spec::from("b")),
                ],
                None,
            )),
            right: None,
        }],
    )
}

// Trailing commas are valid syntax and must be supported.

#[test]
fn variant_trailing_comma() {
    success(
        vec![
            t(TokType::LBracket),
            s("a"),
            t(TokType::Comma),
            t(TokType::RBracket),
            t(TokType::Semicolon),
        ],
        &[Entry {
            left: Spec::from(SpecType::variant_expr(vec![Spec::from("a")], None)),
            right: None,
        }],
    )
}

#[test]
fn match_trailing_comma() {
    success(
        vec![
            t(TokType::LBrace),
            s("os"),
            t(TokType::LParen),
            s("linux"),
            t(TokType::Comma),
            s("windows"),
            t(TokType::Comma), // also checks trailing comma on `os(linux, windows, )`
            t(TokType::RParen),
            t(TokType::Colon),
            s("a"),
            t(TokType::Comma),
            t(TokType::RBrace),
            t(TokType::Semicolon),
        ],
        &[Entry {
            left: Spec::from(SpecType::match_expr(
                vec![(
                    Expr::Os(vec!["linux".to_owned(), "windows".to_owned()]),
                    Spec::from("a"),
                )],
                None,
            )),
            right: None,
        }],
    )
}

#[test]
fn semicolon_error() {
    fail(
        vec![s("a")],
        vec![ParseError {
            tok: None, // `None` means it failed at end of input
            ty: ParseErrorType::Expected(TokType::Semicolon),
        }],
    );
}

#[test]
fn multiple_errors() {
    // Multiple errors can be reported, one per invalid entry, while the
    // valid entries around them are still parsed.
    let toks = vec![
        // This first entry should be invalid.
        s(".config/bspwm/"),
        t(TokType::LBrace),
        s("os"),
        t(TokType::LParen),
        s("linux"),
        t(TokType::RParen),
        // Missing colon...
        t(TokType::LBrace),
        s("host"),
        t(TokType::LParen),
        s("claby2"),
        t(TokType::Colon),
        s("a"),
        t(TokType::Comma),
        s("default"),
        t(TokType::Colon),
        s("b"),
        t(TokType::Comma),
        t(TokType::RBrace),
        t(TokType::RBrace),
        t(TokType::MapsTo),
        s("c"),
        t(TokType::Semicolon),
        // The following entry should be valid.
        s("yes"),
        t(TokType::Semicolon),
        // The following entry should be invalid.
        s("file"), // Missing semicolon...
    ];
    let (entries, errors): (Vec<_>, Vec<_>) =
        collect_all(toks).into_iter().partition(Result::is_ok);
    let entries: Vec<_> = entries.into_iter().map(Result::unwrap).collect();
    let errors: Vec<_> = errors.into_iter().map(Result::unwrap_err).collect();
    // Check that the 'yes' entry passed to ensure that it isn't consumed
    // accidentally.
    assert_eq!(
        entries,
        vec![Entry { left: Spec::from("yes"), right: None }]
    );
    assert_eq!(
        errors,
        vec![
            ParseError {
                tok: Some(Token::new(TokType::LBrace, 0)),
                ty: ParseErrorType::Expected(TokType::Colon),
            },
            ParseError {
                tok: None,
                ty: ParseErrorType::Expected(TokType::Semicolon),
            }
        ]
    );
}

#[test]
fn malformed_entry_between_two_valid_entries() {
    // One malformed entry between two well-formed ones: exactly one error,
    // and both well-formed entries come through.
    let toks = vec![
        s("first"),
        t(TokType::Semicolon),
        s("bad"),
        t(TokType::LBrace),
        s("os"),
        t(TokType::LParen),
        s("linux"),
        t(TokType::RParen),
        // Missing colon: the entry is malformed from here on.
        t(TokType::RBrace),
        t(TokType::MapsTo),
        s("tail"),
        t(TokType::Semicolon),
        s("second"),
        t(TokType::Semicolon),
    ];
    let results = collect_all(toks);
    let entries: Vec<_> = results.iter().filter(|r| r.is_ok()).collect();
    let errors: Vec<_> = results.iter().filter(|r| r.is_err()).collect();
    assert_eq!(errors.len(), 1);
    assert_eq!(
        entries,
        vec![
            &Ok(Entry { left: Spec::from("first"), right: None }),
            &Ok(Entry { left: Spec::from("second"), right: None }),
        ]
    );
}

#[test]
fn mapped_entry_with_balanced_sides_parses() {
    // `[a,b] => [x,y];` must succeed: both sides denote two options.
    let toks = vec![
        t(TokType::LBracket),
        s("a"),
        t(TokType::Comma),
        s("b"),
        t(TokType::RBracket),
        t(TokType::MapsTo),
        t(TokType::LBracket),
        s("x"),
        t(TokType::Comma),
        s("y"),
        t(TokType::RBracket),
        t(TokType::Semicolon),
    ];
    let results = collect_all(toks);
    assert_eq!(results.len(), 1);
    assert!(results[0].is_ok());
}

#[test]
fn mapped_entry_with_imbalanced_sides_fails() {
    // `[a,b] => [x,y,z];` must fail: two options cannot map onto three.
    let toks = vec![
        t(TokType::LBracket),
        s("a"),
        t(TokType::Comma),
        s("b"),
        t(TokType::RBracket),
        t(TokType::MapsTo),
        t(TokType::LBracket),
        s("x"),
        t(TokType::Comma),
        s("y"),
        t(TokType::Comma),
        s("z"),
        t(TokType::RBracket),
        t(TokType::Semicolon),
    ];
    let results = collect_all(toks);
    assert_eq!(results.len(), 1);
    match &results[0] {
        Err(e) => assert_eq!(
            e.ty,
            ParseErrorType::Custom("Left and right sides of mapping must match up")
        ),
        Ok(_) => panic!("imbalanced mapping must not parse"),
    }
}

#[test]
fn empty_variant_is_rejected() {
    let toks = vec![
        t(TokType::LBracket),
        t(TokType::RBracket),
        t(TokType::Semicolon),
    ];
    let results = collect_all(toks);
    assert_eq!(results.len(), 1);
    match &results[0] {
        Err(e) => assert_eq!(
            e.ty,
            ParseErrorType::Custom("Variant expression must have at least one option")
        ),
        Ok(_) => panic!("empty variant must not parse"),
    }
}

#[test]
fn overflowing_count_is_rejected() {
    // 2 options per level over 70 nested continuations overflows any
    // 64-bit count, so the mapped entry is rejected rather than wrapped.
    let mut toks = Vec::new();
    for _ in 0..70 {
        toks.push(t(TokType::LBracket));
        toks.push(s("a"));
        toks.push(t(TokType::Comma));
        toks.push(s("b"));
        toks.push(t(TokType::RBracket));
    }
    toks.push(t(TokType::MapsTo));
    toks.push(s("x"));
    toks.push(t(TokType::Semicolon));
    let results = collect_all(toks);
    assert_eq!(results.len(), 1);
    match &results[0] {
        Err(e) => assert_eq!(
            e.ty,
            ParseErrorType::Custom("Too many options on left hand side")
        ),
        Ok(_) => panic!("overflowing count must not parse"),
    }
}

#[test]
fn get_entries_parses_source_text() {
    let results = ambit::get_entries("/etc/conf.d/minecraft => ~/.mc.conf;\nplain;");
    assert_eq!(results.len(), 2);
    assert_eq!(
        results[0],
        Ok(Entry {
            left: Spec::from("/etc/conf.d/minecraft"),
            right: Some(Spec::from("~/.mc.conf")),
        })
    );
    assert_eq!(results[1], Ok(Entry { left: Spec::from("plain"), right: None }));
}

#[test]
fn errors_carry_the_source_line() {
    let results = ambit::get_entries("a\nb");
    assert_eq!(results.len(), 1);
    match &results[0] {
        Err(e) => {
            assert_eq!(e.ty, ParseErrorType::Expected(TokType::Semicolon));
            assert_eq!(e.tok, Some(Token::string("b", 2)));
        }
        Ok(_) => panic!("missing semicolon must not parse"),
    }
}

#[test]
fn recovery_does_not_drop_entry_after_short_malformed_statement() {
    // `a; []; c;` — even when the malformed statement leaves almost
    // nothing behind the failure point, recovery stops at its own `;`
    // and the following valid entry still comes through.
    let toks = vec![
        s("a"),
        t(TokType::Semicolon),
        t(TokType::LBracket),
        t(TokType::RBracket),
        t(TokType::Semicolon),
        s("c"),
        t(TokType::Semicolon),
    ];
    let results = collect_all(toks);
    assert_eq!(results.len(), 3);
    assert_eq!(results[0], Ok(Entry { left: Spec::from("a"), right: None }));
    match &results[1] {
        Err(e) => {
            assert_eq!(
                e.ty,
                ParseErrorType::Custom("Variant expression must have at least one option")
            );
            assert_eq!(e.tok, Some(Token::new(TokType::RBracket, 0)));
        }
        Ok(_) => panic!("the empty variant must not parse"),
    }
    assert_eq!(results[2], Ok(Entry { left: Spec::from("c"), right: None }));
}
