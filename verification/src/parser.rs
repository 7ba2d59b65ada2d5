//! The parser: recursive descent over the token stream, one `Entry` per
//! `entry;` statement, following the grammar
//!
//! ```text
//! entry     -> spec ("=>" spec)? ";"
//! spec      -> STRING? (variant | match)? spec?
//! variant   -> "[" spec ("," spec)* ","? "]"
//! match     -> "{" (predicate ":" spec ",")* "}"
//! predicate -> ("os" | "host") "(" STRING ("," STRING)* ")" | "default"
//! ```
//!
//! A mapped entry is accepted only if both sides' option counts are
//! defined and equal. On a grammar violation the parser reports one
//! error for the malformed entry and discards the rest of that
//! statement, through its terminating `;`, so later statements still
//! come through.
//!
//! The whole grammar is stated once more as a family of `sp_parse_*`
//! spec functions over token sequences; every executable parsing
//! function is proved to return exactly what its spec function denotes.

use vstd::prelude::*;

use crate::ast::{
    CommaList, Entry, EntryV, Expr, ExprV, MatchExpr, MatchExprV, Spec, SpecType, SpecTypeV, SpecV,
    VariantExpr, VariantExprV, count_ok, lemma_view_of_cases_push, lemma_view_of_specs_push,
    spec_count, str_eq, view_of_cases, view_of_cont, view_of_spec, view_of_specs,
};
use crate::errors::{ParseError, ParseErrorType, ParseErrorTypeV, ParseErrorV, ParseResult};
use crate::lexer::{Lexer, TokType, TokTypeV, Token, TokenV, lex_from, toktype_eq};

verus! {

/// The token type at position `i`, or `None` past the end.
pub open spec fn at_tok(toks: Seq<TokenV>, i: int) -> Option<TokTypeV> {
    if 0 <= i < toks.len() {
        Some(toks[i].toktype)
    } else {
        None
    }
}

// ------------------------------------------------------------------
// The grammar as spec functions. Each takes the token sequence and a
// position and returns the parse result together with the position
// after the consumed tokens (on an error: where parsing stopped).
// ------------------------------------------------------------------

/// One string token.
pub open spec fn sp_parse_string(toks: Seq<TokenV>, i: int) -> (Result<
    Seq<char>,
    ParseErrorTypeV,
>, int) {
    match at_tok(toks, i) {
        Some(TokTypeV::Str(s)) => (Ok(s), i + 1),
        _ => (Err(ParseErrorTypeV::Expected(TokTypeV::Str(Seq::empty()))), i),
    }
}

pub proof fn lemma_string_bounds(toks: Seq<TokenV>, i: int)
    requires
        0 <= i <= toks.len(),
    ensures
        i <= sp_parse_string(toks, i).1 <= toks.len(),
        sp_parse_string(toks, i).0 is Ok ==> sp_parse_string(toks, i).1 == i + 1,
{
}

/// `STRING ("," STRING)* ","?` followed by the closing token `end` —
/// the names a predicate lists.
pub open spec fn sp_parse_string_list(toks: Seq<TokenV>, i: int, end: TokTypeV) -> (Result<
    Seq<Seq<char>>,
    ParseErrorTypeV,
>, int)
    decreases toks.len() - i, 2int
        when 0 <= i <= toks.len()
        via sp_parse_string_list_dec
{
    if at_tok(toks, i) == Some(end) {
        (Ok(Seq::empty()), i + 1)
    } else {
        let head = sp_parse_string(toks, i);
        match head.0 {
            Err(e) => (Err(e), head.1),
            Ok(s) => {
                let j = head.1;
                if at_tok(toks, j) == Some(end) {
                    (Ok(seq![s]), j + 1)
                } else if at_tok(toks, j) == Some(TokTypeV::Comma) {
                    let rest = sp_parse_string_list(toks, j + 1, end);
                    match rest.0 {
                        Ok(l) => (Ok(seq![s] + l), rest.1),
                        Err(e) => (Err(e), rest.1),
                    }
                } else {
                    (Err(ParseErrorTypeV::Expected(TokTypeV::Comma)), j)
                }
            }
        }
    }
}

#[via_fn]
proof fn sp_parse_string_list_dec(toks: Seq<TokenV>, i: int, end: TokTypeV) {
    lemma_string_bounds(toks, i);
}

pub proof fn lemma_string_list_bounds(toks: Seq<TokenV>, i: int, end: TokTypeV)
    requires
        0 <= i <= toks.len(),
    ensures
        i <= sp_parse_string_list(toks, i, end).1 <= toks.len(),
        sp_parse_string_list(toks, i, end).0 is Ok ==> sp_parse_string_list(toks, i, end).1 > i,
    decreases toks.len() - i, 3int,
{
    lemma_string_bounds(toks, i);
    if at_tok(toks, i) != Some(end) {
        let head = sp_parse_string(toks, i);
        if head.0 is Ok {
            let j = head.1;
            if at_tok(toks, j) != Some(end) && at_tok(toks, j) == Some(TokTypeV::Comma) {
                lemma_string_list_bounds(toks, j + 1, end);
            }
        }
    }
}

/// `("os" | "host") "(" STRING ("," STRING)* ")" | "default"`.
pub open spec fn sp_parse_expr(toks: Seq<TokenV>, i: int) -> (Result<ExprV, ParseErrorTypeV>, int)
    decreases toks.len() - i, 4int
        when 0 <= i <= toks.len()
{
    match at_tok(toks, i) {
        Some(TokTypeV::Str(s)) => {
            if s == "default"@ {
                (Ok(ExprV::Any), i + 1)
            } else if s == "os"@ || s == "host"@ {
                if at_tok(toks, i + 1) == Some(TokTypeV::LParen) {
                    let rest = sp_parse_string_list(toks, i + 2, TokTypeV::RParen);
                    match rest.0 {
                        Ok(l) => (
                            Ok(
                                if s == "os"@ {
                                    ExprV::Os(l)
                                } else {
                                    ExprV::Host(l)
                                },
                            ),
                            rest.1,
                        ),
                        Err(e) => (Err(e), rest.1),
                    }
                } else {
                    (Err(ParseErrorTypeV::Expected(TokTypeV::LParen)), i + 1)
                }
            } else {
                (Err(ParseErrorTypeV::Expected(TokTypeV::Str(Seq::empty()))), i)
            }
        }
        _ => (Err(ParseErrorTypeV::Expected(TokTypeV::Str(Seq::empty()))), i),
    }
}

pub proof fn lemma_expr_bounds(toks: Seq<TokenV>, i: int)
    requires
        0 <= i <= toks.len(),
    ensures
        i <= sp_parse_expr(toks, i).1 <= toks.len(),
        sp_parse_expr(toks, i).0 is Ok ==> sp_parse_expr(toks, i).1 > i,
{
    match at_tok(toks, i) {
        Some(TokTypeV::Str(s)) => {
            if s != "default"@ && (s == "os"@ || s == "host"@) && at_tok(toks, i + 1) == Some(
                TokTypeV::LParen,
            ) {
                lemma_string_list_bounds(toks, i + 2, TokTypeV::RParen);
            }
        }
        _ => {}
    }
}

/// The position a recursive descent step continues from, kept inside
/// `(i, len]` so the recursion is visibly well-founded; the bounds
/// lemmas below show that for every reachable `j` this is `j` itself.
pub open spec fn step_from(i: int, j: int, len: int) -> int {
    if i < j && j <= len {
        j
    } else if i < len {
        i + 1
    } else {
        i
    }
}

/// `"{" (predicate ":" spec ",")* "}"`.
pub open spec fn sp_parse_match(toks: Seq<TokenV>, i: int) -> (Result<
    MatchExprV,
    ParseErrorTypeV,
>, int)
    decreases toks.len() - i, 1int
        when 0 <= i <= toks.len()
{
    if at_tok(toks, i) == Some(TokTypeV::LBrace) {
        let rest = sp_parse_case_list(toks, i + 1, TokTypeV::RBrace);
        match rest.0 {
            Ok(cases) => (Ok(MatchExprV { cases }), rest.1),
            Err(e) => (Err(e), rest.1),
        }
    } else {
        (Err(ParseErrorTypeV::Expected(TokTypeV::LBrace)), i)
    }
}

/// `"[" spec ("," spec)* ","? "]"`, refusing an empty alternative list.
pub open spec fn sp_parse_variant(toks: Seq<TokenV>, i: int) -> (Result<
    VariantExprV,
    ParseErrorTypeV,
>, int)
    decreases toks.len() - i, 1int
        when 0 <= i <= toks.len()
{
    if at_tok(toks, i) == Some(TokTypeV::LBracket) {
        if at_tok(toks, i + 1) == Some(TokTypeV::RBracket) {
            (
                Err(ParseErrorTypeV::Custom("Variant expression must have at least one option"@)),
                i + 1,
            )
        } else {
            let rest = sp_parse_spec_list(toks, i + 1, TokTypeV::RBracket);
            match rest.0 {
                Ok(specs) => (Ok(VariantExprV { specs }), rest.1),
                Err(e) => (Err(e), rest.1),
            }
        }
    } else {
        (Err(ParseErrorTypeV::Expected(TokTypeV::LBracket)), i)
    }
}

/// `predicate ":" spec` — one case of a match expression.
pub open spec fn sp_parse_case(toks: Seq<TokenV>, i: int) -> (Result<
    (ExprV, SpecV),
    ParseErrorTypeV,
>, int)
    decreases toks.len() - i, 5int
        when 0 <= i <= toks.len()
        via sp_parse_case_dec
{
    let first = sp_parse_expr(toks, i);
    match first.0 {
        Err(e) => (Err(e), first.1),
        Ok(expr) => {
            let j = first.1;
            if at_tok(toks, j) == Some(TokTypeV::Colon) {
                let rest = sp_parse_spec(toks, j + 1);
                match rest.0 {
                    Ok(spec) => (Ok((expr, spec)), rest.1),
                    Err(e) => (Err(e), rest.1),
                }
            } else {
                (Err(ParseErrorTypeV::Expected(TokTypeV::Colon)), j)
            }
        }
    }
}

#[via_fn]
proof fn sp_parse_case_dec(toks: Seq<TokenV>, i: int) {
    lemma_expr_bounds(toks, i);
}

/// `STRING? (variant | match)? spec?` — a literal prefix, an optional
/// node, and an optional continuation; at least one of the literal and
/// the node must be present.
pub open spec fn sp_parse_spec(toks: Seq<TokenV>, i: int) -> (Result<SpecV, ParseErrorTypeV>, int)
    decreases toks.len() - i, 6int
        when 0 <= i <= toks.len()
{
    let taken = match at_tok(toks, i) {
        Some(TokTypeV::Str(s)) => (Some(s), i + 1),
        _ => (None, i),
    };
    let string = taken.0;
    let i1 = taken.1;
    if at_tok(toks, i1) == Some(TokTypeV::LBrace) {
        let node = sp_parse_match(toks, i1);
        match node.0 {
            Err(e) => (Err(e), node.1),
            Ok(m) => {
                let rest = sp_try_parse_spec(toks, step_from(i, node.1, toks.len() as int));
                match rest.0 {
                    Ok(cont) => (
                        Ok(SpecV { string, spectype: SpecTypeV::Match(m, cont) }),
                        rest.1,
                    ),
                    Err(e) => (Err(e), rest.1),
                }
            }
        }
    } else if at_tok(toks, i1) == Some(TokTypeV::LBracket) {
        let node = sp_parse_variant(toks, i1);
        match node.0 {
            Err(e) => (Err(e), node.1),
            Ok(v) => {
                let rest = sp_try_parse_spec(toks, step_from(i, node.1, toks.len() as int));
                match rest.0 {
                    Ok(cont) => (
                        Ok(SpecV { string, spectype: SpecTypeV::Variant(v, cont) }),
                        rest.1,
                    ),
                    Err(e) => (Err(e), rest.1),
                }
            }
        }
    } else {
        match string {
            Some(s) => (Ok(SpecV { string: Some(s), spectype: SpecTypeV::Leaf }), i1),
            None => (Err(ParseErrorTypeV::Expected(TokTypeV::Str(Seq::empty()))), i1),
        }
    }
}

/// A continuation spec, if one can start here.
pub open spec fn sp_try_parse_spec(toks: Seq<TokenV>, i: int) -> (Result<
    Option<Box<SpecV>>,
    ParseErrorTypeV,
>, int)
    decreases toks.len() - i, 7int
        when 0 <= i <= toks.len()
{
    let starts = match at_tok(toks, i) {
        Some(TokTypeV::Str(_)) => true,
        Some(TokTypeV::LBrace) => true,
        Some(TokTypeV::LBracket) => true,
        _ => false,
    };
    if starts {
        let rest = sp_parse_spec(toks, i);
        match rest.0 {
            Ok(s) => (Ok(Some(Box::new(s))), rest.1),
            Err(e) => (Err(e), rest.1),
        }
    } else {
        (Ok(None), i)
    }
}

/// `spec ("," spec)* ","?` followed by the closing token `end` — a
/// variant's alternatives.
pub open spec fn sp_parse_spec_list(toks: Seq<TokenV>, i: int, end: TokTypeV) -> (Result<
    Seq<SpecV>,
    ParseErrorTypeV,
>, int)
    decreases toks.len() - i, 8int
        when 0 <= i <= toks.len()
{
    if at_tok(toks, i) == Some(end) {
        (Ok(Seq::empty()), i + 1)
    } else {
        let head = sp_parse_spec(toks, i);
        match head.0 {
            Err(e) => (Err(e), head.1),
            Ok(s) => {
                let j = head.1;
                if at_tok(toks, j) == Some(end) {
                    (Ok(seq![s]), j + 1)
                } else if at_tok(toks, j) == Some(TokTypeV::Comma) {
                    let next = step_from(i, j + 1, toks.len() as int);
                    if next > i {
                        let rest = sp_parse_spec_list(toks, next, end);
                        match rest.0 {
                            Ok(l) => (Ok(seq![s] + l), rest.1),
                            Err(e) => (Err(e), rest.1),
                        }
                    } else {
                        // never reached: a parsed alternative consumed at least one token
                        (Err(ParseErrorTypeV::Expected(TokTypeV::Comma)), j)
                    }
                } else {
                    (Err(ParseErrorTypeV::Expected(TokTypeV::Comma)), j)
                }
            }
        }
    }
}

/// `(predicate ":" spec ",")*` followed by the closing token `end` —
/// a match's cases.
pub open spec fn sp_parse_case_list(toks: Seq<TokenV>, i: int, end: TokTypeV) -> (Result<
    Seq<(ExprV, SpecV)>,
    ParseErrorTypeV,
>, int)
    decreases toks.len() - i, 8int
        when 0 <= i <= toks.len()
{
    if at_tok(toks, i) == Some(end) {
        (Ok(Seq::empty()), i + 1)
    } else {
        let head = sp_parse_case(toks, i);
        match head.0 {
            Err(e) => (Err(e), head.1),
            Ok(c) => {
                let j = head.1;
                if at_tok(toks, j) == Some(end) {
                    (Ok(seq![c]), j + 1)
                } else if at_tok(toks, j) == Some(TokTypeV::Comma) {
                    let next = step_from(i, j + 1, toks.len() as int);
                    if next > i {
                        let rest = sp_parse_case_list(toks, next, end);
                        match rest.0 {
                            Ok(l) => (Ok(seq![c] + l), rest.1),
                            Err(e) => (Err(e), rest.1),
                        }
                    } else {
                        // never reached: a parsed case consumed at least one token
                        (Err(ParseErrorTypeV::Expected(TokTypeV::Comma)), j)
                    }
                } else {
                    (Err(ParseErrorTypeV::Expected(TokTypeV::Comma)), j)
                }
            }
        }
    }
}

// Position bounds for the grammar: parsing never moves backwards, never
// runs past the end, and consumes at least one token on success.

pub proof fn lemma_match_bounds(toks: Seq<TokenV>, i: int)
    requires
        0 <= i <= toks.len(),
    ensures
        i <= sp_parse_match(toks, i).1 <= toks.len(),
        sp_parse_match(toks, i).0 is Ok ==> sp_parse_match(toks, i).1 > i,
    decreases toks.len() - i, 9int,
{
    if at_tok(toks, i) == Some(TokTypeV::LBrace) {
        lemma_case_list_bounds(toks, i + 1, TokTypeV::RBrace);
    }
}

pub proof fn lemma_variant_bounds(toks: Seq<TokenV>, i: int)
    requires
        0 <= i <= toks.len(),
    ensures
        i <= sp_parse_variant(toks, i).1 <= toks.len(),
        sp_parse_variant(toks, i).0 is Ok ==> sp_parse_variant(toks, i).1 > i,
    decreases toks.len() - i, 9int,
{
    if at_tok(toks, i) == Some(TokTypeV::LBracket) {
        if at_tok(toks, i + 1) != Some(TokTypeV::RBracket) {
            lemma_spec_list_bounds(toks, i + 1, TokTypeV::RBracket);
        }
    }
}

pub proof fn lemma_case_bounds(toks: Seq<TokenV>, i: int)
    requires
        0 <= i <= toks.len(),
    ensures
        i <= sp_parse_case(toks, i).1 <= toks.len(),
        sp_parse_case(toks, i).0 is Ok ==> sp_parse_case(toks, i).1 > i,
    decreases toks.len() - i, 10int,
{
    lemma_expr_bounds(toks, i);
    let first = sp_parse_expr(toks, i);
    if first.0 is Ok {
        let j = first.1;
        if at_tok(toks, j) == Some(TokTypeV::Colon) {
            lemma_spec_bounds(toks, j + 1);
        }
    }
}

pub proof fn lemma_spec_bounds(toks: Seq<TokenV>, i: int)
    requires
        0 <= i <= toks.len(),
    ensures
        i <= sp_parse_spec(toks, i).1 <= toks.len(),
        sp_parse_spec(toks, i).0 is Ok ==> sp_parse_spec(toks, i).1 > i,
    decreases toks.len() - i, 11int,
{
    let taken = match at_tok(toks, i) {
        Some(TokTypeV::Str(s)) => (Some(s), i + 1),
        _ => (None, i),
    };
    let i1 = taken.1;
    if at_tok(toks, i1) == Some(TokTypeV::LBrace) {
        lemma_match_bounds(toks, i1);
        let node = sp_parse_match(toks, i1);
        if node.0 is Ok {
            assert(step_from(i, node.1, toks.len() as int) == node.1);
            lemma_try_bounds(toks, node.1);
        }
    } else if at_tok(toks, i1) == Some(TokTypeV::LBracket) {
        lemma_variant_bounds(toks, i1);
        let node = sp_parse_variant(toks, i1);
        if node.0 is Ok {
            assert(step_from(i, node.1, toks.len() as int) == node.1);
            lemma_try_bounds(toks, node.1);
        }
    }
}

pub proof fn lemma_try_bounds(toks: Seq<TokenV>, i: int)
    requires
        0 <= i <= toks.len(),
    ensures
        i <= sp_try_parse_spec(toks, i).1 <= toks.len(),
    decreases toks.len() - i, 12int,
{
    let starts = match at_tok(toks, i) {
        Some(TokTypeV::Str(_)) => true,
        Some(TokTypeV::LBrace) => true,
        Some(TokTypeV::LBracket) => true,
        _ => false,
    };
    if starts {
        lemma_spec_bounds(toks, i);
    }
}

pub proof fn lemma_spec_list_bounds(toks: Seq<TokenV>, i: int, end: TokTypeV)
    requires
        0 <= i <= toks.len(),
    ensures
        i <= sp_parse_spec_list(toks, i, end).1 <= toks.len(),
        sp_parse_spec_list(toks, i, end).0 is Ok ==> sp_parse_spec_list(toks, i, end).1 > i,
    decreases toks.len() - i, 13int,
{
    if at_tok(toks, i) != Some(end) {
        lemma_spec_bounds(toks, i);
        let head = sp_parse_spec(toks, i);
        if head.0 is Ok {
            let j = head.1;
            if at_tok(toks, j) != Some(end) && at_tok(toks, j) == Some(TokTypeV::Comma) {
                assert(step_from(i, j + 1, toks.len() as int) == j + 1);
                lemma_spec_list_bounds(toks, j + 1, end);
            }
        }
    }
}

pub proof fn lemma_case_list_bounds(toks: Seq<TokenV>, i: int, end: TokTypeV)
    requires
        0 <= i <= toks.len(),
    ensures
        i <= sp_parse_case_list(toks, i, end).1 <= toks.len(),
        sp_parse_case_list(toks, i, end).0 is Ok ==> sp_parse_case_list(toks, i, end).1 > i,
    decreases toks.len() - i, 13int,
{
    if at_tok(toks, i) != Some(end) {
        lemma_case_bounds(toks, i);
        let head = sp_parse_case(toks, i);
        if head.0 is Ok {
            let j = head.1;
            if at_tok(toks, j) != Some(end) && at_tok(toks, j) == Some(TokTypeV::Comma) {
                assert(step_from(i, j + 1, toks.len() as int) == j + 1);
                lemma_case_list_bounds(toks, j + 1, end);
            }
        }
    }
}

/// `spec ("=>" spec)? ";"`, with the cardinality rule: a mapped entry
/// is accepted exactly when both sides' option counts are defined and
/// equal.
pub open spec fn sp_parse_entry(toks: Seq<TokenV>, i: int) -> (Result<EntryV, ParseErrorTypeV>, int)
    decreases toks.len() - i, 14int
        when 0 <= i <= toks.len()
        via sp_parse_entry_dec
{
    let first = sp_parse_spec(toks, i);
    match first.0 {
        Err(e) => (Err(e), first.1),
        Ok(left) => {
            let j = first.1;
            if at_tok(toks, j) == Some(TokTypeV::MapsTo) {
                let second = sp_parse_spec(toks, j + 1);
                match second.0 {
                    Err(e) => (Err(e), second.1),
                    Ok(right) => {
                        let k = second.1;
                        if !count_ok(left) {
                            (
                                Err(
                                    ParseErrorTypeV::Custom("Too many options on left hand side"@),
                                ),
                                k,
                            )
                        } else if !count_ok(right) {
                            (
                                Err(
                                    ParseErrorTypeV::Custom("Too many options on right hand side"@),
                                ),
                                k,
                            )
                        } else if spec_count(left) != spec_count(right) {
                            (
                                Err(
                                    ParseErrorTypeV::Custom(
                                        "Left and right sides of mapping must match up"@,
                                    ),
                                ),
                                k,
                            )
                        } else if at_tok(toks, k) == Some(TokTypeV::Semicolon) {
                            (Ok(EntryV { left, right: Some(right) }), k + 1)
                        } else {
                            (Err(ParseErrorTypeV::Expected(TokTypeV::Semicolon)), k)
                        }
                    }
                }
            } else if at_tok(toks, j) == Some(TokTypeV::Semicolon) {
                (Ok(EntryV { left, right: None }), j + 1)
            } else {
                (Err(ParseErrorTypeV::Expected(TokTypeV::Semicolon)), j)
            }
        }
    }
}

#[via_fn]
proof fn sp_parse_entry_dec(toks: Seq<TokenV>, i: int) {
    lemma_spec_bounds(toks, i);
}

pub proof fn lemma_entry_bounds(toks: Seq<TokenV>, i: int)
    requires
        0 <= i <= toks.len(),
    ensures
        i <= sp_parse_entry(toks, i).1 <= toks.len(),
        sp_parse_entry(toks, i).0 is Ok ==> sp_parse_entry(toks, i).1 > i,
{
    lemma_spec_bounds(toks, i);
    let first = sp_parse_spec(toks, i);
    if first.0 is Ok {
        let j = first.1;
        if at_tok(toks, j) == Some(TokTypeV::MapsTo) {
            lemma_spec_bounds(toks, j + 1);
        }
    }
}

/// Where parsing continues after a malformed entry: everything from
/// the failure on, up to and including the malformed statement's
/// terminating `;`, is discarded — or everything, if the input ends
/// first — so recovery never costs a later valid statement.
pub open spec fn sp_recover(toks: Seq<TokenV>, i: int) -> int
    decreases toks.len() - i
        when 0 <= i <= toks.len()
{
    if i >= toks.len() {
        i
    } else if toks[i].toktype is Semicolon {
        i + 1
    } else {
        sp_recover(toks, i + 1)
    }
}

pub proof fn lemma_recover_bounds(toks: Seq<TokenV>, i: int)
    requires
        0 <= i <= toks.len(),
    ensures
        i <= sp_recover(toks, i) <= toks.len(),
        i < toks.len() ==> sp_recover(toks, i) >= i + 1,
    decreases toks.len() - i,
{
    if i < toks.len() && !(toks[i].toktype is Semicolon) {
        lemma_recover_bounds(toks, i + 1);
    }
}

/// The parser's whole output on a token sequence: one result per
/// statement, a parsed entry or the single error reported for a
/// malformed one, carrying the token at which parsing failed (`None`
/// for end of input).
pub open spec fn sp_parse_entries(toks: Seq<TokenV>, i: int) -> Seq<Result<EntryV, ParseErrorV>>
    decreases toks.len() - i, 17int
        when 0 <= i <= toks.len()
        via sp_parse_entries_dec
{
    if i >= toks.len() {
        Seq::empty()
    } else {
        let r = sp_parse_entry(toks, i);
        match r.0 {
            Ok(e) => seq![Ok::<EntryV, ParseErrorV>(e)] + sp_parse_entries(toks, r.1),
            Err(ty) => {
                if r.1 < toks.len() {
                    seq![Err::<EntryV, ParseErrorV>(ParseErrorV { ty, tok: Some(toks[r.1]) })]
                        + sp_parse_entries(toks, sp_recover(toks, r.1))
                } else {
                    seq![Err::<EntryV, ParseErrorV>(ParseErrorV { ty, tok: None })]
                        + sp_parse_entries(toks, r.1)
                }
            }
        }
    }
}

#[via_fn]
proof fn sp_parse_entries_dec(toks: Seq<TokenV>, i: int) {
    lemma_entry_bounds(toks, i);
    let r = sp_parse_entry(toks, i);
    if 0 <= i < toks.len() && !(r.0 is Ok) && r.1 < toks.len() {
        lemma_recover_bounds(toks, r.1);
    }
}

} // verus!

verus! {

// ------------------------------------------------------------------
// The executable parser. Every function is proved to return exactly
// what the corresponding `sp_parse_*` spec function denotes, and to
// leave the position exactly where the model says parsing stopped.
// ------------------------------------------------------------------

/// The deep view of a token vector matches it elementwise.
pub proof fn lemma_toks_deep_view(toks: &Vec<Token>)
    ensures
        toks.deep_view().len() == toks@.len(),
        forall|i: int| 0 <= i < toks@.len() ==> toks.deep_view()[i] == toks@[i]@,
{
}

/// Whether the token at `pos` has the type `ty`, without advancing.
fn next_is(toks: &Vec<Token>, pos: usize, ty: &TokType) -> (r: bool)
    ensures
        r == (at_tok(toks.deep_view(), pos as int) == Some(ty@)),
{
    proof {
        lemma_toks_deep_view(toks);
    }
    pos < toks.len() && toktype_eq(&toks[pos].toktype, ty)
}

/// Consumes the next token if it has the type `ty`.
fn eat(toks: &Vec<Token>, pos: &mut usize, ty: &TokType) -> (r: bool)
    requires
        *old(pos) <= toks@.len(),
    ensures
        r == (at_tok(toks.deep_view(), *old(pos) as int) == Some(ty@)),
        *final(pos) == if r {
            *old(pos) + 1
        } else {
            *old(pos) as int
        },
{
    if next_is(toks, *pos, ty) {
        let n = toks.len();
        proof {
            lemma_toks_deep_view(toks);
            assert(at_tok(toks.deep_view(), *pos as int) is Some);
            assert(*pos < n);
        }
        *pos = *pos + 1;
        true
    } else {
        false
    }
}

/// Consumes the next token if it has the type `expected`, or reports
/// what was expected, consuming nothing.
fn expect(toks: &Vec<Token>, pos: &mut usize, expected: TokType) -> (r: ParseResult<TokType>)
    requires
        *old(pos) <= toks@.len(),
    ensures
        match r {
            Ok(tt) => at_tok(toks.deep_view(), *old(pos) as int) == Some(expected@) && tt@
                == expected@ && *final(pos) == *old(pos) + 1,
            Err(e) => at_tok(toks.deep_view(), *old(pos) as int) != Some(expected@) && e@ == (
            ParseErrorV { ty: ParseErrorTypeV::Expected(expected@), tok: None }) && *final(pos)
                == *old(pos),
        },
{
    if next_is(toks, *pos, &expected) {
        let n = toks.len();
        proof {
            lemma_toks_deep_view(toks);
            assert(at_tok(toks.deep_view(), *pos as int) is Some);
            assert(*pos < n);
        }
        *pos = *pos + 1;
        Ok(expected)
    } else {
        Err(ParseError::new(ParseErrorType::Expected(expected)))
    }
}

/// One string token.
fn parse_string(toks: &Vec<Token>, pos: &mut usize) -> (r: ParseResult<String>)
    requires
        *old(pos) <= toks@.len(),
    ensures
        ({
            let sp = sp_parse_string(toks.deep_view(), *old(pos) as int);
            &&& *final(pos) == sp.1
            &&& match (r, sp.0) {
                (Ok(s), Ok(sv)) => s@ == sv,
                (Err(e), Err(tv)) => e@ == (ParseErrorV { ty: tv, tok: None }),
                _ => false,
            }
        }),
{
    proof {
        lemma_toks_deep_view(toks);
    }
    if *pos < toks.len() {
        match &toks[*pos].toktype {
            TokType::Str(s) => {
                let out = s.clone();
                *pos = *pos + 1;
                return Ok(out);
            }
            _ => {}
        }
    }
    Err(ParseError::new(ParseErrorType::Expected(TokType::Str(String::new()))))
}

impl CommaList<String> {
    /// `STRING ("," STRING)* ","?` followed by `end`.
    pub fn parse(toks: &Vec<Token>, pos: &mut usize, end: &TokType) -> (r: ParseResult<
        CommaList<String>,
    >)
        requires
            *old(pos) <= toks@.len(),
        ensures
            ({
                let sp = sp_parse_string_list(toks.deep_view(), *old(pos) as int, end@);
                &&& *final(pos) == sp.1
                &&& match (r, sp.0) {
                    (Ok(l), Ok(lv)) => l.list.deep_view() == lv,
                    (Err(e), Err(tv)) => e@ == (ParseErrorV { ty: tv, tok: None }),
                    _ => false,
                }
            }),
    {
        proof {
            lemma_toks_deep_view(toks);
        }
        let start: usize = *pos;
        let ghost v = toks.deep_view();
        let ghost i0 = start as int;
        let ghost endv = end@;
        let mut list: Vec<String> = Vec::new();
        let mut p: usize = start;
        loop
            invariant
                i0 == *old(pos) as int,
                i0 <= p <= toks@.len(),
                v == toks.deep_view(),
                v.len() == toks@.len(),
                0 <= i0 <= v.len(),
                endv == end@,
                ({
                    let tail = sp_parse_string_list(v, p as int, endv);
                    let all = sp_parse_string_list(v, i0, endv);
                    match tail.0 {
                        Ok(t) => all == (Ok::<_, ParseErrorTypeV>(list.deep_view() + t), tail.1),
                        Err(e) => all == (Err::<Seq<Seq<char>>, _>(e), tail.1),
                    }
                }),
            decreases toks@.len() - p,
        {
            let ghost p0 = p as int;
            if eat(toks, &mut p, end) {
                proof {
                    assert(list.deep_view() + Seq::<Seq<char>>::empty() =~= list.deep_view());
                }
                *pos = p;
                return Ok(CommaList { list });
            }
            let s = match parse_string(toks, &mut p) {
                Ok(s) => s,
                Err(e) => {
                    *pos = p;
                    return Err(e);
                }
            };
            let ghost lv0 = list.deep_view();
            list.push(s);
            proof {
                assert(list.deep_view() =~= lv0 + seq![s@]);
            }
            if eat(toks, &mut p, end) {
                proof {
                    assert(lv0 + seq![s@] =~= list.deep_view());
                }
                *pos = p;
                return Ok(CommaList { list });
            }
            match expect(toks, &mut p, TokType::Comma) {
                Ok(_) => {}
                Err(e) => {
                    *pos = p;
                    return Err(e);
                }
            }
            proof {
                let tail = sp_parse_string_list(v, p as int, endv);
                match tail.0 {
                    Ok(t) => {
                        assert(lv0 + (seq![s@] + t) =~= list.deep_view() + t);
                    }
                    Err(_) => {}
                }
            }
        }
    }
}

impl Expr {
    /// `("os" | "host") "(" STRING ("," STRING)* ")" | "default"`.
    pub fn parse(toks: &Vec<Token>, pos: &mut usize) -> (r: ParseResult<Expr>)
        requires
            *old(pos) <= toks@.len(),
        ensures
            ({
                let sp = sp_parse_expr(toks.deep_view(), *old(pos) as int);
                &&& *final(pos) == sp.1
                &&& match (r, sp.0) {
                    (Ok(e), Ok(ev)) => e@ == ev,
                    (Err(e), Err(tv)) => e@ == (ParseErrorV { ty: tv, tok: None }),
                    _ => false,
                }
            }),
    {
        proof {
            lemma_toks_deep_view(toks);
        }
        if *pos < toks.len() {
            match &toks[*pos].toktype {
                TokType::Str(s) => {
                    if str_eq(s.as_str(), "default") {
                        *pos = *pos + 1;
                        return Ok(Expr::Any);
                    }
                    let is_os = str_eq(s.as_str(), "os");
                    let is_host = str_eq(s.as_str(), "host");
                    if is_os || is_host {
                        *pos = *pos + 1;
                        match expect(toks, pos, TokType::LParen) {
                            Ok(_) => {}
                            Err(e) => {
                                return Err(e);
                            }
                        }
                        let names = match CommaList::<String>::parse(toks, pos, &TokType::RParen) {
                            Ok(l) => l.list,
                            Err(e) => {
                                return Err(e);
                            }
                        };
                        if is_os {
                            return Ok(Expr::Os(names));
                        } else {
                            return Ok(Expr::Host(names));
                        }
                    }
                }
                _ => {}
            }
        }
        Err(ParseError::new(ParseErrorType::Expected(TokType::Str(String::new()))))
    }
}

} // verus!

verus! {

/// `predicate ":" spec` — one case of a match expression.
fn parse_case(toks: &Vec<Token>, pos: &mut usize) -> (r: ParseResult<(Expr, Spec)>)
    requires
        *old(pos) <= toks@.len(),
    ensures
        ({
            let sp = sp_parse_case(toks.deep_view(), *old(pos) as int);
            &&& *final(pos) == sp.1
            &&& match (r, sp.0) {
                (Ok(c), Ok(cv)) => c.0@ == cv.0 && c.1@ == cv.1,
                (Err(e), Err(tv)) => e@ == (ParseErrorV { ty: tv, tok: None }),
                _ => false,
            }
        }),
    decreases toks@.len() - *pos, 5int,
{
    proof {
        lemma_toks_deep_view(toks);
    }
    let ghost v = toks.deep_view();
    let ghost i = *pos as int;
    let expr = match Expr::parse(toks, pos) {
        Ok(e) => e,
        Err(e) => {
            return Err(e);
        }
    };
    proof {
        lemma_expr_bounds(v, i);
    }
    match expect(toks, pos, TokType::Colon) {
        Ok(_) => {}
        Err(e) => {
            return Err(e);
        }
    }
    let spec = match Spec::parse(toks, pos) {
        Ok(s) => s,
        Err(e) => {
            return Err(e);
        }
    };
    Ok((expr, spec))
}

impl CommaList<Spec> {
    /// `spec ("," spec)* ","?` followed by `end`.
    pub fn parse(toks: &Vec<Token>, pos: &mut usize, end: &TokType) -> (r: ParseResult<
        CommaList<Spec>,
    >)
        requires
            *old(pos) <= toks@.len(),
        ensures
            ({
                let sp = sp_parse_spec_list(toks.deep_view(), *old(pos) as int, end@);
                &&& *final(pos) == sp.1
                &&& match (r, sp.0) {
                    (Ok(l), Ok(lv)) => view_of_specs(l.list@) == lv,
                    (Err(e), Err(tv)) => e@ == (ParseErrorV { ty: tv, tok: None }),
                    _ => false,
                }
            }),
        decreases toks@.len() - *pos, 8int,
    {
        proof {
            lemma_toks_deep_view(toks);
        }
        let start: usize = *pos;
        let ghost v = toks.deep_view();
        let ghost i0 = start as int;
        let ghost endv = end@;
        let mut list: Vec<Spec> = Vec::new();
        let mut p: usize = start;
        loop
            invariant
                i0 == *old(pos) as int,
                i0 <= p <= toks@.len(),
                v == toks.deep_view(),
                v.len() == toks@.len(),
                0 <= i0 <= v.len(),
                endv == end@,
                ({
                    let tail = sp_parse_spec_list(v, p as int, endv);
                    let all = sp_parse_spec_list(v, i0, endv);
                    match tail.0 {
                        Ok(t) => all == (Ok::<_, ParseErrorTypeV>(view_of_specs(list@) + t), tail.1),
                        Err(e) => all == (Err::<Seq<SpecV>, _>(e), tail.1),
                    }
                }),
            decreases toks@.len() + 1 - p,
        {
            let ghost p0 = p as int;
            if eat(toks, &mut p, end) {
                proof {
                    assert(view_of_specs(list@) + Seq::<SpecV>::empty() =~= view_of_specs(list@));
                }
                *pos = p;
                return Ok(CommaList { list });
            }
            let s = match Spec::parse(toks, &mut p) {
                Ok(s) => s,
                Err(e) => {
                    *pos = p;
                    return Err(e);
                }
            };
            proof {
                lemma_spec_bounds(v, p0);
                lemma_view_of_specs_push(list@, s);
                assert(view_of_specs(list@.push(s)) =~= view_of_specs(list@) + seq![s@]);
            }
            let ghost lv0 = view_of_specs(list@);
            let ghost sv = s@;
            list.push(s);
            if eat(toks, &mut p, end) {
                proof {
                    assert(lv0 + seq![sv] =~= view_of_specs(list@));
                }
                *pos = p;
                return Ok(CommaList { list });
            }
            match expect(toks, &mut p, TokType::Comma) {
                Ok(_) => {}
                Err(e) => {
                    *pos = p;
                    return Err(e);
                }
            }
            proof {
                assert(step_from(p0, p as int, v.len() as int) == p as int);
                let tail = sp_parse_spec_list(v, p as int, endv);
                match tail.0 {
                    Ok(t) => {
                        assert(lv0 + (seq![sv] + t) =~= view_of_specs(list@) + t);
                    }
                    Err(_) => {}
                }
            }
        }
    }
}

impl CommaList<(Expr, Spec)> {
    /// `predicate ":" spec ("," predicate ":" spec)* ","?` followed by
    /// `end`.
    pub fn parse(toks: &Vec<Token>, pos: &mut usize, end: &TokType) -> (r: ParseResult<
        CommaList<(Expr, Spec)>,
    >)
        requires
            *old(pos) <= toks@.len(),
        ensures
            ({
                let sp = sp_parse_case_list(toks.deep_view(), *old(pos) as int, end@);
                &&& *final(pos) == sp.1
                &&& match (r, sp.0) {
                    (Ok(l), Ok(lv)) => view_of_cases(l.list@) == lv,
                    (Err(e), Err(tv)) => e@ == (ParseErrorV { ty: tv, tok: None }),
                    _ => false,
                }
            }),
        decreases toks@.len() - *pos, 8int,
    {
        proof {
            lemma_toks_deep_view(toks);
        }
        let start: usize = *pos;
        let ghost v = toks.deep_view();
        let ghost i0 = start as int;
        let ghost endv = end@;
        let mut list: Vec<(Expr, Spec)> = Vec::new();
        let mut p: usize = start;
        loop
            invariant
                i0 == *old(pos) as int,
                i0 <= p <= toks@.len(),
                v == toks.deep_view(),
                v.len() == toks@.len(),
                0 <= i0 <= v.len(),
                endv == end@,
                ({
                    let tail = sp_parse_case_list(v, p as int, endv);
                    let all = sp_parse_case_list(v, i0, endv);
                    match tail.0 {
                        Ok(t) => all == (Ok::<_, ParseErrorTypeV>(view_of_cases(list@) + t), tail.1),
                        Err(e) => all == (Err::<Seq<(ExprV, SpecV)>, _>(e), tail.1),
                    }
                }),
            decreases toks@.len() + 1 - p,
        {
            let ghost p0 = p as int;
            if eat(toks, &mut p, end) {
                proof {
                    assert(view_of_cases(list@) + Seq::<(ExprV, SpecV)>::empty() =~= view_of_cases(
                        list@,
                    ));
                }
                *pos = p;
                return Ok(CommaList { list });
            }
            let c = match parse_case(toks, &mut p) {
                Ok(c) => c,
                Err(e) => {
                    *pos = p;
                    return Err(e);
                }
            };
            proof {
                lemma_case_bounds(v, p0);
                lemma_view_of_cases_push(list@, c);
                assert(view_of_cases(list@.push(c)) =~= view_of_cases(list@) + seq![
                    (c.0@, view_of_spec(c.1)),
                ]);
            }
            let ghost lv0 = view_of_cases(list@);
            let ghost cv = (c.0@, view_of_spec(c.1));
            list.push(c);
            if eat(toks, &mut p, end) {
                proof {
                    assert(lv0 + seq![cv] =~= view_of_cases(list@));
                }
                *pos = p;
                return Ok(CommaList { list });
            }
            match expect(toks, &mut p, TokType::Comma) {
                Ok(_) => {}
                Err(e) => {
                    *pos = p;
                    return Err(e);
                }
            }
            proof {
                assert(step_from(p0, p as int, v.len() as int) == p as int);
                let tail = sp_parse_case_list(v, p as int, endv);
                match tail.0 {
                    Ok(t) => {
                        assert(lv0 + (seq![cv] + t) =~= view_of_cases(list@) + t);
                    }
                    Err(_) => {}
                }
            }
        }
    }
}

impl MatchExpr {
    /// `"{" (predicate ":" spec ",")* "}"`.
    pub fn parse(toks: &Vec<Token>, pos: &mut usize) -> (r: ParseResult<MatchExpr>)
        requires
            *old(pos) <= toks@.len(),
        ensures
            ({
                let sp = sp_parse_match(toks.deep_view(), *old(pos) as int);
                &&& *final(pos) == sp.1
                &&& match (r, sp.0) {
                    (Ok(m), Ok(mv)) => m@ == mv,
                    (Err(e), Err(tv)) => e@ == (ParseErrorV { ty: tv, tok: None }),
                    _ => false,
                }
            }),
        decreases toks@.len() - *pos, 1int,
    {
        proof {
            lemma_toks_deep_view(toks);
        }
        match expect(toks, pos, TokType::LBrace) {
            Ok(_) => {}
            Err(e) => {
                return Err(e);
            }
        }
        let cases = match CommaList::<(Expr, Spec)>::parse(toks, pos, &TokType::RBrace) {
            Ok(l) => l.list,
            Err(e) => {
                return Err(e);
            }
        };
        Ok(MatchExpr { cases })
    }
}

impl VariantExpr {
    /// `"[" spec ("," spec)* ","? "]"`, refusing an empty alternative
    /// list.
    pub fn parse(toks: &Vec<Token>, pos: &mut usize) -> (r: ParseResult<VariantExpr>)
        requires
            *old(pos) <= toks@.len(),
        ensures
            ({
                let sp = sp_parse_variant(toks.deep_view(), *old(pos) as int);
                &&& *final(pos) == sp.1
                &&& match (r, sp.0) {
                    (Ok(e), Ok(ev)) => e@ == ev,
                    (Err(e), Err(tv)) => e@ == (ParseErrorV { ty: tv, tok: None }),
                    _ => false,
                }
            }),
        decreases toks@.len() - *pos, 1int,
    {
        proof {
            lemma_toks_deep_view(toks);
        }
        match expect(toks, pos, TokType::LBracket) {
            Ok(_) => {}
            Err(e) => {
                return Err(e);
            }
        }
        if next_is(toks, *pos, &TokType::RBracket) {
            return Err(
                ParseError::new(
                    ParseErrorType::Custom("Variant expression must have at least one option"),
                ),
            );
        }
        let specs = match CommaList::<Spec>::parse(toks, pos, &TokType::RBracket) {
            Ok(l) => l.list,
            Err(e) => {
                return Err(e);
            }
        };
        Ok(VariantExpr { specs })
    }
}

/// A continuation spec, if one can start at `pos`.
fn try_parse_spec(toks: &Vec<Token>, pos: &mut usize) -> (r: ParseResult<Option<Box<Spec>>>)
    requires
        *old(pos) <= toks@.len(),
    ensures
        ({
            let sp = sp_try_parse_spec(toks.deep_view(), *old(pos) as int);
            &&& *final(pos) == sp.1
            &&& match (r, sp.0) {
                (Ok(c), Ok(cv)) => view_of_cont(c) == cv,
                (Err(e), Err(tv)) => e@ == (ParseErrorV { ty: tv, tok: None }),
                _ => false,
            }
        }),
    decreases toks@.len() - *pos, 7int,
{
    proof {
        lemma_toks_deep_view(toks);
    }
    let starts = if *pos < toks.len() {
        match &toks[*pos].toktype {
            TokType::Str(_) => true,
            TokType::LBrace => true,
            TokType::LBracket => true,
            _ => false,
        }
    } else {
        false
    };
    if starts {
        match Spec::parse(toks, pos) {
            Ok(s) => Ok(Some(Box::new(s))),
            Err(e) => Err(e),
        }
    } else {
        Ok(None)
    }
}

impl Spec {
    /// `STRING? (variant | match)? spec?` — at least one of the literal
    /// and the node must be present.
    pub fn parse(toks: &Vec<Token>, pos: &mut usize) -> (r: ParseResult<Spec>)
        requires
            *old(pos) <= toks@.len(),
        ensures
            ({
                let sp = sp_parse_spec(toks.deep_view(), *old(pos) as int);
                &&& *final(pos) == sp.1
                &&& match (r, sp.0) {
                    (Ok(s), Ok(sv)) => s@ == sv,
                    (Err(e), Err(tv)) => e@ == (ParseErrorV { ty: tv, tok: None }),
                    _ => false,
                }
            }),
        decreases toks@.len() - *pos, 6int,
    {
        proof {
            lemma_toks_deep_view(toks);
        }
        let ghost v = toks.deep_view();
        let ghost i = *pos as int;
        let mut string: Option<String> = None;
        if *pos < toks.len() {
            match &toks[*pos].toktype {
                TokType::Str(s) => {
                    string = Some(s.clone());
                    *pos = *pos + 1;
                }
                _ => {}
            }
        }
        let ghost i1 = *pos as int;
        if next_is(toks, *pos, &TokType::LBrace) {
            let m = match MatchExpr::parse(toks, pos) {
                Ok(m) => m,
                Err(e) => {
                    return Err(e);
                }
            };
            proof {
                lemma_match_bounds(v, i1);
                assert(step_from(i, *pos as int, v.len() as int) == *pos as int);
            }
            let cont = match try_parse_spec(toks, pos) {
                Ok(c) => c,
                Err(e) => {
                    return Err(e);
                }
            };
            return Ok(Spec { string, spectype: SpecType::Match(Box::new(m), cont) });
        }
        if next_is(toks, *pos, &TokType::LBracket) {
            let ve = match VariantExpr::parse(toks, pos) {
                Ok(e) => e,
                Err(e) => {
                    return Err(e);
                }
            };
            proof {
                lemma_variant_bounds(v, i1);
                assert(step_from(i, *pos as int, v.len() as int) == *pos as int);
            }
            let cont = match try_parse_spec(toks, pos) {
                Ok(c) => c,
                Err(e) => {
                    return Err(e);
                }
            };
            return Ok(Spec { string, spectype: SpecType::Variant(Box::new(ve), cont) });
        }
        match string {
            Some(s) => Ok(Spec { string: Some(s), spectype: SpecType::Leaf }),
            None => Err(ParseError::new(ParseErrorType::Expected(TokType::Str(String::new())))),
        }
    }
}

impl Entry {
    /// `spec ("=>" spec)? ";"`, with the cardinality rule for mapped
    /// entries.
    pub fn parse(toks: &Vec<Token>, pos: &mut usize) -> (r: ParseResult<Entry>)
        requires
            *old(pos) <= toks@.len(),
        ensures
            ({
                let sp = sp_parse_entry(toks.deep_view(), *old(pos) as int);
                &&& *final(pos) == sp.1
                &&& match (r, sp.0) {
                    (Ok(e), Ok(ev)) => e@ == ev,
                    (Err(e), Err(tv)) => e@ == (ParseErrorV { ty: tv, tok: None }),
                    _ => false,
                }
            }),
        decreases toks@.len() - *pos, 9int,
    {
        proof {
            lemma_toks_deep_view(toks);
        }
        let ghost v = toks.deep_view();
        let ghost i = *pos as int;
        let left = match Spec::parse(toks, pos) {
            Ok(s) => s,
            Err(e) => {
                return Err(e);
            }
        };
        proof {
            lemma_spec_bounds(v, i);
        }
        let mut right: Option<Spec> = None;
        if eat(toks, pos, &TokType::MapsTo) {
            let ghost j1 = *pos as int;
            let right_val = match Spec::parse(toks, pos) {
                Ok(s) => s,
                Err(e) => {
                    return Err(e);
                }
            };
            proof {
                lemma_spec_bounds(v, j1);
            }
            let left_nr = match left.nr_of_options() {
                Some(n) => n,
                None => {
                    return Err(
                        ParseError::new(
                            ParseErrorType::Custom("Too many options on left hand side"),
                        ),
                    );
                }
            };
            let right_nr = match right_val.nr_of_options() {
                Some(n) => n,
                None => {
                    return Err(
                        ParseError::new(
                            ParseErrorType::Custom("Too many options on right hand side"),
                        ),
                    );
                }
            };
            if left_nr != right_nr {
                return Err(
                    ParseError::new(
                        ParseErrorType::Custom("Left and right sides of mapping must match up"),
                    ),
                );
            }
            right = Some(right_val);
        }
        match expect(toks, pos, TokType::Semicolon) {
            Ok(_) => {}
            Err(e) => {
                return Err(e);
            }
        }
        Ok(Entry { left, right })
    }
}

} // verus!

verus! {

/// The statement-level parser: yields one result per `entry;`
/// statement, recovering between statements so one malformed entry
/// does not suppress later ones.
pub struct Parser {
    toks: Vec<Token>,
    pos: usize,
}

impl Parser {
    /// The tokens being parsed.
    pub closed spec fn tokens(&self) -> Seq<TokenV> {
        self.toks.deep_view()
    }

    /// How many tokens have been consumed.
    pub closed spec fn position(&self) -> int {
        self.pos as int
    }

    pub closed spec fn wf(&self) -> bool {
        self.pos <= self.toks@.len()
    }

    pub fn new(toks: Vec<Token>) -> (r: Parser)
        ensures
            r.wf(),
            r.tokens() == toks.deep_view(),
            r.position() == 0,
    {
        Parser { toks, pos: 0 }
    }

    /// The next statement's entry or error, or `None` once the tokens
    /// are exhausted. After an error the parser has discarded the rest
    /// of the malformed statement, through its terminating `;`, so the
    /// following statements still come through.
    pub fn next(&mut self) -> (r: Option<ParseResult<Entry>>)
        requires
            old(self).wf(),
        ensures
            final(self).wf(),
            final(self).tokens() == old(self).tokens(),
            old(self).position() <= final(self).position() <= old(self).tokens().len(),
            ({
                let v = old(self).tokens();
                let i = old(self).position();
                if i >= v.len() {
                    r is None && final(self).position() == i
                } else {
                    &&& r is Some
                    &&& final(self).position() > i
                    &&& ({
                        let sp = sp_parse_entry(v, i);
                        match (r->0, sp.0) {
                            (Ok(e), Ok(ev)) => e@ == ev && final(self).position() == sp.1,
                            (Err(pe), Err(tv)) => pe.ty@ == tv && (if sp.1 < v.len() {
                                (pe.tok matches Some(t) && t@ == toks_index(v, sp.1))
                                    && final(self).position() == sp_recover(v, sp.1)
                            } else {
                                pe.tok is None && final(self).position() == sp.1
                            }),
                            _ => false,
                        }
                    })
                }
            }),
    {
        proof {
            lemma_toks_deep_view(&self.toks);
        }
        let start: usize = self.pos;
        let ghost v = self.toks.deep_view();
        let ghost i = start as int;
        if start >= self.toks.len() {
            return None;
        }
        let mut p: usize = start;
        let r = Entry::parse(&self.toks, &mut p);
        proof {
            lemma_entry_bounds(v, i);
        }
        match r {
            Ok(e) => {
                self.pos = p;
                Some(Ok(e))
            }
            Err(mut e) => {
                if p < self.toks.len() {
                    e.tok = Some(clone_token(&self.toks[p]));
                    let ghost k0 = p as int;
                    let ghost target = sp_recover(v, k0);
                    proof {
                        lemma_recover_bounds(v, k0);
                    }
                    // discard the malformed statement through its
                    // terminating `;`
                    loop
                        invariant_except_break
                            sp_recover(v, p as int) == target,
                        invariant
                            *self == *old(self),
                            p <= self.toks@.len(),
                            v == self.toks.deep_view(),
                            v.len() == self.toks@.len(),
                        ensures
                            *self == *old(self),
                            p as int == target,
                            p <= self.toks@.len(),
                        decreases self.toks@.len() - p,
                    {
                        proof {
                            lemma_toks_deep_view(&self.toks);
                        }
                        let ghost p0 = p as int;
                        if p >= self.toks.len() {
                            proof {
                                assert(sp_recover(v, p0) == p as int);
                            }
                            break ;
                        }
                        let is_semi = match &self.toks[p].toktype {
                            TokType::Semicolon => true,
                            _ => false,
                        };
                        p = p + 1;
                        if is_semi {
                            proof {
                                assert(sp_recover(v, p0) == p as int);
                            }
                            break ;
                        }
                    }
                    self.pos = p;
                    Some(Err(e))
                } else {
                    e.tok = None;
                    self.pos = p;
                    Some(Err(e))
                }
            }
        }
    }
}

/// The mathematical mirror of a vector of per-statement results.
pub open spec fn view_of_results(v: Seq<ParseResult<Entry>>) -> Seq<Result<EntryV, ParseErrorV>> {
    Seq::new(
        v.len(),
        |i: int|
            match v[i] {
                Ok(e) => Ok(e@),
                Err(p) => Err(p@),
            },
    )
}

/// The token at a valid position (a helper for stating contracts).
pub open spec fn toks_index(v: Seq<TokenV>, i: int) -> TokenV {
    v[i]
}

/// Builds a token with the same contents.
fn clone_token(t: &Token) -> (r: Token)
    ensures
        r@ == t@,
{
    let toktype = match &t.toktype {
        TokType::Str(s) => TokType::Str(s.clone()),
        TokType::LParen => TokType::LParen,
        TokType::RParen => TokType::RParen,
        TokType::LBrace => TokType::LBrace,
        TokType::RBrace => TokType::RBrace,
        TokType::LBracket => TokType::LBracket,
        TokType::RBracket => TokType::RBracket,
        TokType::MapsTo => TokType::MapsTo,
        TokType::Comma => TokType::Comma,
        TokType::Colon => TokType::Colon,
        TokType::Semicolon => TokType::Semicolon,
    };
    Token { toktype, line: t.line }
}

/// Lexes and parses a whole configuration source: one result per
/// statement, exactly as the lexing and parsing models denote.
pub fn get_entries(source: &str) -> (r: Vec<ParseResult<Entry>>)
    requires
        source@.len() < usize::MAX,
    ensures
        view_of_results(r@) == sp_parse_entries(lex_from(source@, 0, 1), 0),
{
    let mut lx = Lexer::new(source);
    let mut toks: Vec<Token> = Vec::new();
    loop
        invariant
            lx.wf(),
            toks.deep_view() + lx.remaining() == lex_from(source@, 0, 1),
        ensures
            toks.deep_view() == lex_from(source@, 0, 1),
        decreases lx.remaining().len(),
    {
        let ghost before = toks.deep_view();
        match lx.next() {
            Some(t) => {
                let ghost tv = t@;
                toks.push(t);
                proof {
                    assert(toks.deep_view() =~= before.push(tv));
                    assert(before.push(tv) + lx.remaining() =~= before + (seq![tv]
                        + lx.remaining()));
                }
            }
            None => {
                proof {
                    assert(toks.deep_view() + lx.remaining() =~= toks.deep_view());
                }
                break ;
            }
        }
    }
    let ghost v = toks.deep_view();
    let mut parser = Parser::new(toks);
    let mut out: Vec<ParseResult<Entry>> = Vec::new();
    loop
        invariant
            parser.wf(),
            parser.tokens() == v,
            0 <= parser.position() <= v.len(),
            v == lex_from(source@, 0, 1),
            view_of_results(out@) + sp_parse_entries(v, parser.position()) == sp_parse_entries(
                v,
                0,
            ),
        ensures
            view_of_results(out@) == sp_parse_entries(v, 0),
        decreases v.len() - parser.position(),
    {
        let ghost i = parser.position();
        let ghost before = view_of_results(out@);
        match parser.next() {
            Some(res) => {
                let ghost resv: Result<EntryV, ParseErrorV> = match res {
                    Ok(ref e) => Ok(e@),
                    Err(ref p) => Err(p@),
                };
                out.push(res);
                proof {
                    lemma_entry_bounds(v, i);
                    let sp = sp_parse_entry(v, i);
                    if !(sp.0 is Ok) && sp.1 < v.len() {
                        lemma_recover_bounds(v, sp.1);
                    }
                    assert(view_of_results(out@) =~= before.push(resv));
                    assert(before.push(resv) + sp_parse_entries(v, parser.position()) =~= before
                        + (seq![resv] + sp_parse_entries(v, parser.position())));
                    assert(seq![resv] + sp_parse_entries(v, parser.position()) =~= sp_parse_entries(
                        v,
                        i,
                    ));
                }
            }
            None => {
                proof {
                    assert(sp_parse_entries(v, parser.position()) =~= Seq::<
                        Result<EntryV, ParseErrorV>,
                    >::empty());
                    assert(view_of_results(out@) + sp_parse_entries(v, parser.position())
                        =~= view_of_results(out@));
                }
                break ;
            }
        }
    }
    out
}

} // verus!

verus! {

/// A parsed variant expression always has at least one alternative:
/// an empty alternative list is rejected with its own diagnostic.
pub proof fn lemma_parsed_variant_nonempty(toks: Seq<TokenV>, i: int)
    requires
        0 <= i <= toks.len(),
    ensures
        sp_parse_variant(toks, i).0 matches Ok(v) ==> v.specs.len() >= 1,
{
}

/// The cardinality rule of mapped entries: when a left spec, the `=>`
/// operator, a right spec and the closing `;` are all present, the
/// entry parses exactly when both sides' option counts are defined and
/// equal.
pub proof fn lemma_mapped_entry_balance(toks: Seq<TokenV>, i: int)
    requires
        0 <= i <= toks.len(),
    ensures
        ({
            let first = sp_parse_spec(toks, i);
            let second = sp_parse_spec(toks, first.1 + 1);
            let left = first.0->Ok_0;
            let right = second.0->Ok_0;
            (first.0 is Ok && at_tok(toks, first.1) == Some(TokTypeV::MapsTo) && second.0 is Ok
                && at_tok(toks, second.1) == Some(TokTypeV::Semicolon)) ==> (sp_parse_entry(
                toks,
                i,
            ).0 is Ok <==> (count_ok(left) && count_ok(right) && spec_count(left) == spec_count(
                right,
            )))
        }),
        ({
            let e = sp_parse_entry(toks, i).0->Ok_0;
            sp_parse_entry(toks, i).0 is Ok ==> (e.right matches Some(r) ==> count_ok(e.left)
                && count_ok(r) && spec_count(e.left) == spec_count(r))
        }),
{
    lemma_spec_bounds(toks, i);
    let first = sp_parse_spec(toks, i);
    if first.0 is Ok && at_tok(toks, first.1) == Some(TokTypeV::MapsTo) {
        lemma_spec_bounds(toks, first.1 + 1);
    }
}

} // verus!
