use ambit::lexer::{Lexer, TokType, Token, get_processed_string};

fn check_lexer_output(input: &str, expected: Vec<Token>) {
    let mut lex = Lexer::new(input);
    let mut out = Vec::new();
    while let Some(tok) = lex.next() {
        out.push(tok);
    }
    assert_eq!(out.len(), expected.len(), "token counts differ");
    for (idx, (out, ex_out)) in out.iter().zip(expected.iter()).enumerate() {
        assert!(
            out == ex_out,
            "Not equal at position {}:\n`{:?}`\n!=\n`{:?}`",
            idx,
            out,
            ex_out
        );
    }
}

fn tok(t: TokType, l: usize) -> Token {
    Token::new(t, l)
}

fn s(x: &str, l: usize) -> Token {
    Token::string(x, l)
}

#[test]
fn ignore_pattern_chars_in_processed_string() {
    // '*' and '?' are pattern chars. They should be kept escaped if the user
    // escapes them, so they reach the downstream glob matcher unresolved.
    let (proc_str, _) = get_processed_string("\\[\\]\\*\\?", '[', 0);
    assert_eq!(proc_str, "[[]\\*\\?");
}

#[test]
fn full_example_config() {
    check_lexer_output(
        "\
~/.config/nvim/init.vim => config.nvim;
~/{
    os(linux, macos): _config,
    default: .config
}/rofi.rasi;
/etc/fonts/local.conf => local.conf;
",
        vec![
            s("~/.config/nvim/init.vim", 1),
            tok(TokType::MapsTo, 1),
            s("config.nvim", 1),
            tok(TokType::Semicolon, 1),
            s("~/", 2),
            tok(TokType::LBrace, 2),
            s("os", 3),
            tok(TokType::LParen, 3),
            s("linux", 3),
            tok(TokType::Comma, 3),
            s("macos", 3),
            tok(TokType::RParen, 3),
            tok(TokType::Colon, 3),
            s("_config", 3),
            tok(TokType::Comma, 3),
            s("default", 4),
            tok(TokType::Colon, 4),
            s(".config", 4),
            tok(TokType::RBrace, 5),
            s("/rofi.rasi", 5),
            tok(TokType::Semicolon, 5),
            s("/etc/fonts/local.conf", 6),
            tok(TokType::MapsTo, 6),
            s("local.conf", 6),
            tok(TokType::Semicolon, 6),
        ],
    );
}

#[test]
fn single_statement() {
    check_lexer_output(
        "/etc/conf.d/minecraft => ~/.mc.conf;",
        vec![
            s("/etc/conf.d/minecraft", 1),
            tok(TokType::MapsTo, 1),
            s("~/.mc.conf", 1),
            tok(TokType::Semicolon, 1),
        ],
    );
}

#[test]
fn excessive_whitespace() {
    check_lexer_output(
        "check\t\r\n\r\r            \nq",
        vec![s("check", 1), s("q", 3)],
    );
}

#[test]
fn all_symbols() {
    check_lexer_output(
        "(  \t){ }\n [ ]\n ; \n =>\t\n = >\n ,\n",
        vec![
            tok(TokType::LParen, 1),
            tok(TokType::RParen, 1),
            tok(TokType::LBrace, 1),
            tok(TokType::RBrace, 1),
            tok(TokType::LBracket, 2),
            tok(TokType::RBracket, 2),
            tok(TokType::Semicolon, 3),
            tok(TokType::MapsTo, 4),
            s("=", 5),
            s(">", 5),
            tok(TokType::Comma, 6),
        ],
    );
}

#[test]
fn backslash_escape() {
    check_lexer_output("test\\{\\}\\:\\ \\\n", vec![s("test{}: \n", 1)]);
}

#[test]
fn escaped_pattern_chars_stay_escaped() {
    // Lexing `x\*y` yields a single literal token `x\*y`: the escape is
    // preserved, not descaled.
    check_lexer_output("x\\*y", vec![s("x\\*y", 1)]);
}

#[test]
fn trailing_lone_backslash_is_literal() {
    check_lexer_output("abc\\", vec![s("abc\\", 1)]);
}

#[test]
fn unwrap_str_returns_contents() {
    assert_eq!(TokType::Str("hello".to_string()).unwrap_str(), "hello");
}
