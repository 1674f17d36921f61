//! Surface tokens and the lexer.
//!
//! The parser works on a tree of tokens: identifiers, integer, character
//! and string literals, single punctuation characters, and delimited
//! groups.  The lexer turns source text into that tree; its mechanics
//! are not part of the grammar language itself, so its contracts only
//! pin the bookkeeping the parser relies on.

use vstd::prelude::*;
use crate::text::{push_char, str_to_chars, string_from_chars};

verus! {

/// The three delimiter shapes of the surface syntax.
#[derive(Debug, Clone, Copy, PartialEq, Eq)]
pub enum Delim {
    Paren,
    Bracket,
    Brace,
}

/// One token of the surface syntax.  A `Group` holds the tokens between
/// a pair of delimiters and the position of its closing delimiter, so
/// that errors at the end of the group can point there.
pub enum TokenKind {
    Ident(String),
    Int(u64),
    CharLit(char),
    StrLit(String),
    Punct(char),
    Group { delim: Delim, tokens: Vec<Token>, close_pos: usize },
}

/// A token and the position (character offset) where it starts.
pub struct Token {
    pub kind: TokenKind,
    pub pos: usize,
}

/// A positioned parse or lex error.  The message names the rule that
/// was violated; the position is a character offset into the source.
#[derive(Debug, Clone, PartialEq, Eq)]
pub struct ParseError {
    pub pos: usize,
    pub message: String,
}

impl ParseError {
    /// An error with the given message at the given position.
    pub fn new(pos: usize, msg: &str) -> (e: ParseError)
        ensures
            e.pos == pos,
            e.message@ == msg@,
    {
        ParseError { pos, message: String::from_str(msg) }
    }

    /// An error at a position where no token is left: the message gets
    /// the end-of-input prefix.
    pub fn at_end(pos: usize, msg: &str) -> (e: ParseError)
        ensures
            e.pos == pos,
            e.message@ == "unexpected end of input, "@ + msg@,
    {
        let mut m = String::from_str("unexpected end of input, ");
        m.append(msg);
        ParseError { pos, message: m }
    }
}

/// Whether a character may start an identifier.
pub open spec fn spec_ident_start(c: char) -> bool {
    (97 <= c as u32 <= 122) || (65 <= c as u32 <= 90) || c as u32 == 95
}

/// Whether a character may continue an identifier.
pub open spec fn spec_ident_continue(c: char) -> bool {
    spec_ident_start(c) || (48 <= c as u32 <= 57)
}

fn is_ident_start(c: char) -> (r: bool)
    ensures
        r == spec_ident_start(c),
{
    let u = c as u32;
    (97 <= u && u <= 122) || (65 <= u && u <= 90) || u == 95
}

fn is_ident_continue(c: char) -> (r: bool)
    ensures
        r == spec_ident_continue(c),
{
    let u = c as u32;
    is_ident_start(c) || (48 <= u && u <= 57)
}

fn is_space(c: char) -> bool {
    let u = c as u32;
    u == 32 || u == 9 || u == 10 || u == 13
}

fn is_digit(c: char) -> (r: bool)
    ensures
        r == (48 <= c as u32 <= 57),
{
    let u = c as u32;
    48 <= u && u <= 57
}

fn hex_value(c: char) -> (r: Option<u8>)
    ensures
        match r {
            Some(v) => v <= 15,
            None => true,
        },
{
    let u = c as u32;
    if 48 <= u && u <= 57 {
        Some((u - 48) as u8)
    } else if 97 <= u && u <= 102 {
        Some((u - 97 + 10) as u8)
    } else if 65 <= u && u <= 70 {
        Some((u - 65 + 10) as u8)
    } else {
        None
    }
}

/// A flat token, before grouping: a plain token or one side of a
/// delimiter pair.
enum FlatKind {
    Ident(String),
    Int(u64),
    CharLit(char),
    StrLit(String),
    Punct(char),
    Open(Delim),
    Close(Delim),
}

struct FlatToken {
    kind: FlatKind,
    pos: usize,
}

/// Reads an identifier starting at `i`.
fn lex_ident(cs: &Vec<char>, i: usize) -> (r: (String, usize))
    requires
        i < cs@.len(),
        spec_ident_start(cs@[i as int]),
    ensures
        i < r.1 <= cs@.len(),
{
    let mut j: usize = i;
    let mut name: Vec<char> = Vec::new();
    while j < cs.len() && is_ident_continue(cs[j])
        invariant
            i <= j <= cs@.len(),
        decreases cs@.len() - j,
    {
        name.push(cs[j]);
        j = j + 1;
    }
    // The first character is an identifier start, so the loop ran.
    assert(i < j);
    (string_from_chars(&name), j)
}

/// Reads an integer literal (decimal or `0x` hexadecimal) starting at
/// `i`, skipping a trailing alphanumeric suffix.
fn lex_number(cs: &Vec<char>, i: usize) -> (r: Result<(u64, usize), ParseError>)
    requires
        i < cs@.len(),
        48 <= cs@[i as int] as u32 <= 57,
    ensures
        r is Ok ==> i < r->Ok_0.1 <= cs@.len(),
{
    let n = cs.len();
    let mut j: usize = i;
    let mut value: u128 = 0;
    let hex = cs[i] as u32 == 48 && i + 1 < n && (cs[i + 1] as u32 == 120 || cs[i + 1] as u32
        == 88);
    if hex {
        j = i + 2;
        if j >= cs.len() || hex_value(cs[j]).is_none() {
            return Err(ParseError::new(i, "expected hexadecimal digits"));
        }
        while j < cs.len() && hex_value(cs[j]).is_some()
            invariant
                i < j <= cs@.len(),
                value <= 0xFFFF_FFFF_FFFF_FFFF,
            decreases cs@.len() - j,
        {
            let d = match hex_value(cs[j]) {
                Some(d) => d,
                None => 0,
            };
            value = value * 16 + d as u128;
            if value > 0xFFFF_FFFF_FFFF_FFFF {
                return Err(ParseError::new(i, "integer literal is too large"));
            }
            j = j + 1;
        }
    } else {
        while j < cs.len() && is_digit(cs[j])
            invariant
                i <= j <= cs@.len(),
                value <= 0xFFFF_FFFF_FFFF_FFFF,
            decreases cs@.len() - j,
        {
            let d: u32 = cs[j] as u32 - 48;
            value = value * 10 + d as u128;
            if value > 0xFFFF_FFFF_FFFF_FFFF {
                return Err(ParseError::new(i, "integer literal is too large"));
            }
            j = j + 1;
        }
    }
    // The first character is a digit, so one of the loops ran.
    assert(i < j);
    // A suffix such as `u64` is accepted and ignored.
    while j < cs.len() && is_ident_continue(cs[j])
        invariant
            i < j <= cs@.len(),
        decreases cs@.len() - j,
    {
        j = j + 1;
    }
    Ok(((value as u64), j))
}

/// Reads the body of an escape sequence; `i` is the position just past
/// the backslash.
fn lex_escape(cs: &Vec<char>, i: usize) -> (r: Result<(char, usize), ParseError>)
    ensures
        r is Ok ==> i < r->Ok_0.1 <= cs@.len(),
{
    let n = cs.len();
    if i >= n {
        return Err(ParseError::new(i, "unterminated escape sequence"));
    }
    let c = cs[i];
    let u = c as u32;
    if u == 110 {
        Ok(('\n', i + 1))
    } else if u == 114 {
        Ok(('\r', i + 1))
    } else if u == 116 {
        Ok(('\t', i + 1))
    } else if u == 92 {
        Ok(('\\', i + 1))
    } else if u == 39 {
        Ok(('\'', i + 1))
    } else if u == 34 {
        Ok(('"', i + 1))
    } else if u == 48 {
        Ok(('\0', i + 1))
    } else if u == 120 {
        if i + 1 < n && i + 2 < n {
            let h = hex_value(cs[i + 1]);
            let l = hex_value(cs[i + 2]);
            match (h, l) {
                (Some(h), Some(l)) => {
                    let v: u8 = h * 16 + l;
                    if v <= 127 {
                        Ok(((v as char), i + 3))
                    } else {
                        Err(ParseError::new(i, "invalid character escape"))
                    }
                },
                _ => Err(ParseError::new(i, "invalid character escape")),
            }
        } else {
            Err(ParseError::new(i, "invalid character escape"))
        }
    } else {
        Err(ParseError::new(i, "invalid character escape"))
    }
}

/// Reads a character literal starting at the opening quote.
fn lex_char_lit(cs: &Vec<char>, i: usize) -> (r: Result<(char, usize), ParseError>)
    requires
        i < cs@.len(),
    ensures
        r is Ok ==> i < r->Ok_0.1 <= cs@.len(),
{
    let n = cs.len();
    let mut j: usize = i + 1;
    if j >= n {
        return Err(ParseError::new(i, "unterminated character literal"));
    }
    let c: char;
    if cs[j] as u32 == 92 {
        match lex_escape(cs, j + 1) {
            Ok((e, k)) => {
                c = e;
                j = k;
            },
            Err(e) => {
                return Err(e);
            },
        }
    } else if cs[j] as u32 == 39 {
        return Err(ParseError::new(i, "empty character literal"));
    } else {
        c = cs[j];
        j = j + 1;
    }
    if j < cs.len() && cs[j] as u32 == 39 {
        Ok((c, j + 1))
    } else {
        Err(ParseError::new(i, "unterminated character literal"))
    }
}

/// Reads a string literal starting at the opening quote.
fn lex_str_lit(cs: &Vec<char>, i: usize) -> (r: Result<(String, usize), ParseError>)
    requires
        i < cs@.len(),
    ensures
        r is Ok ==> i < r->Ok_0.1 <= cs@.len(),
{
    let n = cs.len();
    let mut j: usize = i + 1;
    let mut value = String::new();
    while j < cs.len()
        invariant
            i < j <= cs@.len(),
        decreases cs@.len() - j,
    {
        if cs[j] as u32 == 34 {
            return Ok((value, j + 1));
        } else if cs[j] as u32 == 92 {
            match lex_escape(cs, j + 1) {
                Ok((e, k)) => {
                    push_char(&mut value, e);
                    j = k;
                },
                Err(e) => {
                    return Err(e);
                },
            }
        } else {
            push_char(&mut value, cs[j]);
            j = j + 1;
        }
    }
    Err(ParseError::new(i, "unterminated string literal"))
}

fn punct_char(c: char) -> (r: Option<char>) {
    let u = c as u32;
    if u == 61 || u == 60 || u == 62 || u == 45 || u == 44 || u == 46 || u == 63 || u == 64 || u
        == 124 || u == 58 || u == 59 || u == 95 || u == 35 || u == 38 || u == 33 || u == 43 || u
        == 42 || u == 47 || u == 37 || u == 94 || u == 126 || u == 36 || u == 43 {
        Some(c)
    } else {
        None
    }
}

/// Splits the characters into flat tokens.
fn lex_flat(cs: &Vec<char>) -> (r: Result<Vec<FlatToken>, ParseError>) {
    let mut out: Vec<FlatToken> = Vec::new();
    let mut i: usize = 0;
    while i < cs.len()
        invariant
            i <= cs@.len(),
        decreases cs@.len() - i,
    {
        let c = cs[i];
        let u = c as u32;
        if is_space(c) {
            i = i + 1;
        } else if u == 47 && i + 1 < cs.len() && cs[i + 1] as u32 == 47 {
            // A line comment runs to the end of the line.
            let mut j: usize = i + 2;
            while j < cs.len() && cs[j] as u32 != 10
                invariant
                    i < j <= cs@.len(),
                decreases cs@.len() - j,
            {
                j = j + 1;
            }
            i = j;
        } else if u == 95 && (i + 1 >= cs.len() || !is_ident_continue(cs[i + 1])) {
            out.push(FlatToken { kind: FlatKind::Punct('_'), pos: i });
            i = i + 1;
        } else if is_ident_start(c) {
            let (name, j) = lex_ident(cs, i);
            out.push(FlatToken { kind: FlatKind::Ident(name), pos: i });
            i = j;
        } else if is_digit(c) {
            match lex_number(cs, i) {
                Ok((v, j)) => {
                    out.push(FlatToken { kind: FlatKind::Int(v), pos: i });
                    i = j;
                },
                Err(e) => {
                    return Err(e);
                },
            }
        } else if u == 39 {
            match lex_char_lit(cs, i) {
                Ok((v, j)) => {
                    out.push(FlatToken { kind: FlatKind::CharLit(v), pos: i });
                    i = j;
                },
                Err(e) => {
                    return Err(e);
                },
            }
        } else if u == 34 {
            match lex_str_lit(cs, i) {
                Ok((v, j)) => {
                    out.push(FlatToken { kind: FlatKind::StrLit(v), pos: i });
                    i = j;
                },
                Err(e) => {
                    return Err(e);
                },
            }
        } else if u == 40 {
            out.push(FlatToken { kind: FlatKind::Open(Delim::Paren), pos: i });
            i = i + 1;
        } else if u == 91 {
            out.push(FlatToken { kind: FlatKind::Open(Delim::Bracket), pos: i });
            i = i + 1;
        } else if u == 123 {
            out.push(FlatToken { kind: FlatKind::Open(Delim::Brace), pos: i });
            i = i + 1;
        } else if u == 41 {
            out.push(FlatToken { kind: FlatKind::Close(Delim::Paren), pos: i });
            i = i + 1;
        } else if u == 93 {
            out.push(FlatToken { kind: FlatKind::Close(Delim::Bracket), pos: i });
            i = i + 1;
        } else if u == 125 {
            out.push(FlatToken { kind: FlatKind::Close(Delim::Brace), pos: i });
            i = i + 1;
        } else {
            match punct_char(c) {
                Some(p) => {
                    out.push(FlatToken { kind: FlatKind::Punct(p), pos: i });
                    i = i + 1;
                },
                None => {
                    return Err(ParseError::new(i, "unexpected character"));
                },
            }
        }
    }
    Ok(out)
}

fn delims_eq(a: Delim, b: Delim) -> (r: bool)
    ensures
        r == (a == b),
{
    match (a, b) {
        (Delim::Paren, Delim::Paren) => true,
        (Delim::Bracket, Delim::Bracket) => true,
        (Delim::Brace, Delim::Brace) => true,
        _ => false,
    }
}

/// Nests flat tokens into groups.  `closer` is the delimiter the
/// current group waits for, `None` at the top level; `open_pos` is the
/// position of the group's opening delimiter.
fn build_tree(flat: &Vec<FlatToken>, i: usize, closer: Option<Delim>, open_pos: usize) -> (r:
    Result<(Vec<Token>, usize, usize), ParseError>)
    requires
        i <= flat@.len(),
    ensures
        r is Ok ==> i <= r->Ok_0.1 <= flat@.len(),
    decreases flat@.len() - i, 0int,
{
    let mut out: Vec<Token> = Vec::new();
    let mut j: usize = i;
    while j < flat.len()
        invariant
            i <= j <= flat@.len(),
        decreases flat@.len() - j,
    {
        match &flat[j].kind {
            FlatKind::Ident(s) => {
                out.push(Token { kind: TokenKind::Ident(s.clone()), pos: flat[j].pos });
                j = j + 1;
            },
            FlatKind::Int(v) => {
                out.push(Token { kind: TokenKind::Int(*v), pos: flat[j].pos });
                j = j + 1;
            },
            FlatKind::CharLit(c) => {
                out.push(Token { kind: TokenKind::CharLit(*c), pos: flat[j].pos });
                j = j + 1;
            },
            FlatKind::StrLit(s) => {
                out.push(Token { kind: TokenKind::StrLit(s.clone()), pos: flat[j].pos });
                j = j + 1;
            },
            FlatKind::Punct(c) => {
                out.push(Token { kind: TokenKind::Punct(*c), pos: flat[j].pos });
                j = j + 1;
            },
            FlatKind::Open(d) => {
                match build_group(flat, j + 1, *d, flat[j].pos) {
                    Ok((inner, jj, close_pos)) => {
                        out.push(
                            Token {
                                kind: TokenKind::Group { delim: *d, tokens: inner, close_pos },
                                pos: flat[j].pos,
                            },
                        );
                        j = jj;
                    },
                    Err(e) => {
                        return Err(e);
                    },
                }
            },
            FlatKind::Close(d) => {
                match closer {
                    Some(want) => {
                        if delims_eq(*d, want) {
                            return Ok((out, j + 1, flat[j].pos));
                        } else {
                            return Err(ParseError::new(flat[j].pos, "mismatched closing delimiter"));
                        }
                    },
                    None => {
                        return Err(ParseError::new(flat[j].pos, "unexpected closing delimiter"));
                    },
                }
            },
        }
    }
    match closer {
        Some(_) => Err(ParseError::new(open_pos, "unclosed delimiter")),
        None => Ok((out, j, open_pos)),
    }
}

/// Nests the body of one delimited group, starting just past its
/// opening delimiter.
fn build_group(flat: &Vec<FlatToken>, i: usize, closer: Delim, open_pos: usize) -> (r: Result<(
    Vec<Token>, usize, usize), ParseError>)
    requires
        i <= flat@.len(),
    ensures
        r is Ok ==> i <= r->Ok_0.1 <= flat@.len(),
    decreases flat@.len() - i, 1int,
{
    build_tree(flat, i, Some(closer), open_pos)
}

/// Turns source text into a token tree, returning the tokens and the
/// position just past the end of the source, which end-of-input errors
/// carry.  Lexing is the surface mechanism in front of the grammar
/// itself; the parsing functions state their contracts over the token
/// tree this returns.
pub fn lex(src: &str) -> (r: Result<(Vec<Token>, usize), ParseError>)
    ensures
        r is Ok ==> r->Ok_0.1 == src@.len(),
{
    let cs = str_to_chars(src);
    let n = cs.len();
    match lex_flat(&cs) {
        Ok(flat) => {
            match build_tree(&flat, 0, None, n) {
                Ok((toks, _, _)) => Ok((toks, n)),
                Err(e) => Err(e),
            }
        },
        Err(e) => Err(e),
    }
}

} // verus!
