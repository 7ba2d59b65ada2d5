//! The lexer: turns raw configuration text into a stream of tokens —
//! literal runs, punctuation, and the `=>` operator — tracking line
//! numbers for diagnostics and preserving backslash escapes of the
//! pattern characters `*` and `?` verbatim. Lexing is total: no input
//! fails; a trailing lone backslash is kept as a literal backslash.

use vstd::prelude::*;

use crate::ast::str_eq;

verus! {

/// What a token is: an unquoted string run, a parenthesis, a curly
/// brace, a square bracket, the mapping operator `=>`, or one of the
/// separators `, : ;`.
#[derive(PartialEq, Eq, Debug, Clone)]
pub enum TokType {
    Str(String),
    LParen,
    RParen,
    LBrace,
    RBrace,
    LBracket,
    RBracket,
    MapsTo,
    Comma,
    Colon,
    Semicolon,
}

/// The mathematical mirror of `TokType`.
#[verifier::ext_equal]
pub enum TokTypeV {
    Str(Seq<char>),
    LParen,
    RParen,
    LBrace,
    RBrace,
    LBracket,
    RBracket,
    MapsTo,
    Comma,
    Colon,
    Semicolon,
}

impl View for TokType {
    type V = TokTypeV;

    open spec fn view(&self) -> TokTypeV {
        match self {
            TokType::Str(s) => TokTypeV::Str(s@),
            TokType::LParen => TokTypeV::LParen,
            TokType::RParen => TokTypeV::RParen,
            TokType::LBrace => TokTypeV::LBrace,
            TokType::RBrace => TokTypeV::RBrace,
            TokType::LBracket => TokTypeV::LBracket,
            TokType::RBracket => TokTypeV::RBracket,
            TokType::MapsTo => TokTypeV::MapsTo,
            TokType::Comma => TokTypeV::Comma,
            TokType::Colon => TokTypeV::Colon,
            TokType::Semicolon => TokTypeV::Semicolon,
        }
    }
}

impl TokType {
    /// The string of a `Str` token.
    pub fn unwrap_str(self) -> (r: String)
        requires
            self matches TokType::Str(_),
        ensures
            self@ == TokTypeV::Str(r@),
    {
        match self {
            TokType::Str(s) => s,
            _ => {
                proof {
                    assert(false);
                }
                String::new()
            }
        }
    }
}

/// Compares two token types by contents.
pub fn toktype_eq(a: &TokType, b: &TokType) -> (r: bool)
    ensures
        r == (a@ == b@),
{
    match (a, b) {
        (TokType::Str(x), TokType::Str(y)) => str_eq(x.as_str(), y.as_str()),
        (TokType::LParen, TokType::LParen) => true,
        (TokType::RParen, TokType::RParen) => true,
        (TokType::LBrace, TokType::LBrace) => true,
        (TokType::RBrace, TokType::RBrace) => true,
        (TokType::LBracket, TokType::LBracket) => true,
        (TokType::RBracket, TokType::RBracket) => true,
        (TokType::MapsTo, TokType::MapsTo) => true,
        (TokType::Comma, TokType::Comma) => true,
        (TokType::Colon, TokType::Colon) => true,
        (TokType::Semicolon, TokType::Semicolon) => true,
        _ => false,
    }
}

/// One token, with the source line it began on.
#[derive(PartialEq, Eq, Debug, Clone)]
pub struct Token {
    pub toktype: TokType,
    pub line: usize,
}

/// The mathematical mirror of `Token`.
#[verifier::ext_equal]
pub struct TokenV {
    pub toktype: TokTypeV,
    pub line: nat,
}

impl View for Token {
    type V = TokenV;

    open spec fn view(&self) -> TokenV {
        TokenV { toktype: self.toktype@, line: self.line as nat }
    }
}

impl DeepView for Token {
    type V = TokenV;

    open spec fn deep_view(&self) -> TokenV {
        self@
    }
}

impl Token {
    pub fn new(toktype: TokType, line: usize) -> (r: Self)
        ensures
            r@ == (TokenV { toktype: toktype@, line: line as nat }),
    {
        Self { toktype, line }
    }

    pub fn string(s: &str, line: usize) -> (r: Self)
        ensures
            r@ == (TokenV { toktype: TokTypeV::Str(s@), line: line as nat }),
    {
        Self { toktype: TokType::Str(s.to_owned()), line }
    }
}

/// Relies on String::push: appends the given character to the end of
/// the string. The lexer builds token literals with it.
pub assume_specification[ String::push ](s: &mut String, ch: char)
    ensures
        final(s)@ == old(s)@.push(ch),
;

// ------------------------------------------------------------------
// The lexing model.
// ------------------------------------------------------------------

/// The ASCII whitespace characters.
pub open spec fn is_lex_space(c: char) -> bool {
    c == ' ' || c == '\t' || c == '\n' || c == '\r' || c == '\x0c'
}

/// The punctuation characters that end a literal run.
pub open spec fn is_lex_punct(c: char) -> bool {
    ||| c == '('
    ||| c == ')'
    ||| c == '{'
    ||| c == '}'
    ||| c == '['
    ||| c == ']'
    ||| c == ','
    ||| c == ';'
    ||| c == ':'
    ||| c == '='
}

/// Whether a character ends a literal run.
pub open spec fn is_lex_ending(c: char) -> bool {
    is_lex_space(c) || is_lex_punct(c)
}

fn ending_char(c: char) -> (r: bool)
    ensures
        r == is_lex_ending(c),
{
    match c {
        ' ' | '\t' | '\n' | '\r' | '\x0c' => true,
        '(' | ')' | '{' | '}' | '[' | ']' | ',' | ';' | ':' | '=' => true,
        _ => false,
    }
}

/// The rest of a literal run from position `i` (the run's first character
/// stands before `i` and is not included): the characters the literal
/// gains, and the position after the run. A backslash escapes the next
/// character; before `*` or `?` the backslash itself is kept, so those
/// reach the downstream glob matcher still escaped. A final lone
/// backslash is kept as a literal backslash.
pub open spec fn scan_literal(src: Seq<char>, i: int) -> (Seq<char>, int)
    decreases src.len() - i,
{
    if i < 0 || i >= src.len() {
        (Seq::empty(), i)
    } else if src[i] == '\\' {
        if i + 1 >= src.len() {
            (seq!['\\'], i + 1)
        } else {
            let c = src[i + 1];
            let head: Seq<char> = if c == '*' || c == '?' {
                seq!['\\', c]
            } else {
                seq![c]
            };
            let rest = scan_literal(src, i + 2);
            (head + rest.0, rest.1)
        }
    } else if is_lex_ending(src[i]) {
        (Seq::empty(), i)
    } else {
        let rest = scan_literal(src, i + 1);
        (seq![src[i]] + rest.0, rest.1)
    }
}

pub proof fn lemma_scan_literal_bounds(src: Seq<char>, i: int)
    requires
        0 <= i <= src.len(),
    ensures
        i <= scan_literal(src, i).1 <= src.len(),
    decreases src.len() - i,
{
    if i < src.len() && src[i] == '\\' && i + 1 < src.len() {
        lemma_scan_literal_bounds(src, i + 2);
    } else if i < src.len() && src[i] != '\\' && !is_lex_ending(src[i]) {
        lemma_scan_literal_bounds(src, i + 1);
    }
}

/// The tokens of `src` from position `i` on, with `line` the current
/// line number: whitespace is skipped, `\n` increments the line counter,
/// single punctuation characters become their tokens, `=>` becomes the
/// mapping operator, and anything else starts a literal run.
pub open spec fn lex_from(src: Seq<char>, i: int, line: nat) -> Seq<TokenV>
    decreases src.len() - i
        when 0 <= i <= src.len()
        via lex_from_dec
{
    if i >= src.len() {
        Seq::empty()
    } else {
        let c = src[i];
        if c == '\n' {
            lex_from(src, i + 1, line + 1)
        } else if c == ' ' || c == '\t' || c == '\r' {
            lex_from(src, i + 1, line)
        } else if c == '(' {
            seq![TokenV { toktype: TokTypeV::LParen, line }] + lex_from(src, i + 1, line)
        } else if c == ')' {
            seq![TokenV { toktype: TokTypeV::RParen, line }] + lex_from(src, i + 1, line)
        } else if c == '{' {
            seq![TokenV { toktype: TokTypeV::LBrace, line }] + lex_from(src, i + 1, line)
        } else if c == '}' {
            seq![TokenV { toktype: TokTypeV::RBrace, line }] + lex_from(src, i + 1, line)
        } else if c == '[' {
            seq![TokenV { toktype: TokTypeV::LBracket, line }] + lex_from(src, i + 1, line)
        } else if c == ']' {
            seq![TokenV { toktype: TokTypeV::RBracket, line }] + lex_from(src, i + 1, line)
        } else if c == ',' {
            seq![TokenV { toktype: TokTypeV::Comma, line }] + lex_from(src, i + 1, line)
        } else if c == ';' {
            seq![TokenV { toktype: TokTypeV::Semicolon, line }] + lex_from(src, i + 1, line)
        } else if c == ':' {
            seq![TokenV { toktype: TokTypeV::Colon, line }] + lex_from(src, i + 1, line)
        } else if c == '=' {
            if i + 1 < src.len() && src[i + 1] == '>' {
                seq![TokenV { toktype: TokTypeV::MapsTo, line }] + lex_from(src, i + 2, line)
            } else {
                let sc = scan_literal(src, i + 1);
                seq![TokenV { toktype: TokTypeV::Str(seq!['='] + sc.0), line }] + lex_from(
                    src,
                    sc.1,
                    line,
                )
            }
        } else {
            let sc = scan_literal(src, i + 1);
            seq![TokenV { toktype: TokTypeV::Str(seq![c] + sc.0), line }] + lex_from(
                src,
                sc.1,
                line,
            )
        }
    }
}

#[via_fn]
proof fn lex_from_dec(src: Seq<char>, i: int, line: nat) {
    if 0 <= i < src.len() {
        lemma_scan_literal_bounds(src, i + 1);
    }
}

// ------------------------------------------------------------------
// The executable lexer.
// ------------------------------------------------------------------

/// Builds the rest of a literal run that began with `start`, reading
/// `src` from position `from`: returns the full literal and the position
/// after the run.
pub fn get_processed_string(src: &str, start: char, from: usize) -> (r: (String, usize))
    requires
        from <= src@.len(),
    ensures
        r.0@ == seq![start] + scan_literal(src@, from as int).0,
        r.1 == scan_literal(src@, from as int).1,
{
    let len = src.unicode_len();
    let mut ret = String::new();
    ret.push(start);
    let mut i: usize = from;
    loop
        invariant
            from <= i <= len,
            len == src@.len(),
            ret@ + scan_literal(src@, i as int).0 == seq![start] + scan_literal(
                src@,
                from as int,
            ).0,
            scan_literal(src@, i as int).1 == scan_literal(src@, from as int).1,
        ensures
            ret@ == seq![start] + scan_literal(src@, from as int).0,
            i == scan_literal(src@, from as int).1,
        decreases len - i,
    {
        if i >= len {
            proof {
                assert(ret@ + scan_literal(src@, i as int).0 =~= ret@);
            }
            break;
        }
        let c = src.get_char(i);
        if c == '\\' {
            if i + 1 >= len {
                proof {
                    assert((ret@ + seq!['\\']) + scan_literal(src@, i + 1).0 =~= ret@ + (seq![
                        '\\',
                    ] + scan_literal(src@, i + 1).0));
                }
                ret.push('\\');
                i = i + 1;
            } else {
                let c2 = src.get_char(i + 1);
                proof {
                    let head: Seq<char> = if c2 == '*' || c2 == '?' {
                        seq!['\\', c2]
                    } else {
                        seq![c2]
                    };
                    assert((ret@ + head) + scan_literal(src@, i + 2).0 =~= ret@ + (head
                        + scan_literal(src@, i + 2).0));
                }
                if c2 == '*' || c2 == '?' {
                    ret.push('\\');
                }
                ret.push(c2);
                i = i + 2;
            }
        } else if ending_char(c) {
            proof {
                assert(ret@ + scan_literal(src@, i as int).0 =~= ret@);
            }
            break;
        } else {
            proof {
                assert((ret@ + seq![c]) + scan_literal(src@, i + 1).0 =~= ret@ + (seq![c]
                    + scan_literal(src@, i + 1).0));
            }
            ret.push(c);
            i = i + 1;
        }
    }
    (ret, i)
}

/// The lexer's whole state: the source text, the position of the next
/// character to read, and the current line number.
pub struct Lexer<'a> {
    src: &'a str,
    pos: usize,
    line: usize,
}

impl<'a> Lexer<'a> {
    pub closed spec fn wf(&self) -> bool {
        &&& self.pos <= self.src@.len()
        &&& self.src@.len() < usize::MAX
        &&& 1 <= self.line
        &&& self.line <= self.pos + 1
    }

    /// The tokens this lexer has yet to produce.
    pub closed spec fn remaining(&self) -> Seq<TokenV> {
        lex_from(self.src@, self.pos as int, self.line as nat)
    }

    pub fn new(src: &'a str) -> (r: Lexer<'a>)
        requires
            src@.len() < usize::MAX,
        ensures
            r.wf(),
            r.remaining() == lex_from(src@, 0, 1),
    {
        Lexer { src, pos: 0, line: 1 }
    }

    /// The next token, or `None` once the source is exhausted.
    pub fn next(&mut self) -> (r: Option<Token>)
        requires
            old(self).wf(),
        ensures
            final(self).wf(),
            match r {
                None => old(self).remaining().len() == 0 && final(self).remaining().len() == 0,
                Some(t) => old(self).remaining().len() > 0 && t@ == old(self).remaining()[0]
                    && final(self).remaining() == old(self).remaining().drop_first(),
            },
    {
        let src = self.src;
        let len = src.unicode_len();
        let mut pos = self.pos;
        let mut line = self.line;
        loop
            invariant
                pos <= len,
                len == src@.len(),
                len < usize::MAX,
                1 <= line <= pos + 1,
                src@ == old(self).src@,
                lex_from(src@, pos as int, line as nat) == old(self).remaining(),
                *self == *old(self),
            ensures
                final(self).wf(),
            decreases len - pos,
        {
            if pos >= len {
                self.pos = pos;
                self.line = line;
                return None;
            }
            let ghost gpos = pos as int;
            let c = src.get_char(pos);
            pos = pos + 1;
            let next_tok: Token = match c {
                '\n' => {
                    line = line + 1;
                    continue ;
                }
                '(' => Token::new(TokType::LParen, line),
                ')' => Token::new(TokType::RParen, line),
                '{' => Token::new(TokType::LBrace, line),
                '}' => Token::new(TokType::RBrace, line),
                '[' => Token::new(TokType::LBracket, line),
                ']' => Token::new(TokType::RBracket, line),
                ',' => Token::new(TokType::Comma, line),
                ';' => Token::new(TokType::Semicolon, line),
                ':' => Token::new(TokType::Colon, line),
                '=' => {
                    if pos < len && src.get_char(pos) == '>' {
                        pos = pos + 1;
                        Token::new(TokType::MapsTo, line)
                    } else {
                        proof {
                            lemma_scan_literal_bounds(src@, gpos + 1);
                        }
                        let (s, newpos) = get_processed_string(src, '=', pos);
                        pos = newpos;
                        Token::string(s.as_str(), line)
                    }
                }
                ' ' | '\t' | '\r' => {
                    continue ;
                }
                _ => {
                    proof {
                        lemma_scan_literal_bounds(src@, gpos + 1);
                    }
                    let (s, newpos) = get_processed_string(src, c, pos);
                    pos = newpos;
                    Token::string(s.as_str(), line)
                }
            };
            self.pos = pos;
            self.line = line;
            return Some(next_tok);
        }
    }
}

} // verus!
