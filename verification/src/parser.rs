//! The grammar parser: recursive descent over the token tree.
//!
//! Each `parse_*` function takes the token list of the buffer it reads,
//! the index of the next token, and the position that errors at the end
//! of the buffer should carry (the closing delimiter of the enclosing
//! group, or the end of the source).  On success it returns the parsed
//! node and the index just past what it consumed.  Errors are reported
//! at the first offending token, with a message naming the violated
//! rule; an error where no token is left carries the end-of-input
//! prefix, as the tests of the error paths pin down.

use vstd::prelude::*;
use crate::model::{
    ActionCall, ClassPattern, ConditionBranch, Directives, Grammar, InputStatePattern, Literal,
    MatchArm, MatchArmRhs, Pattern, SequencePattern, State, StateTransition, TransitionMode,
};
use crate::text::string_eq_str;
use crate::token::{lex, Delim, ParseError, Token, TokenKind};

verus! {

/// A single byte pattern, read from a character or integer literal.
#[derive(Debug, Clone, Copy, PartialEq, Eq)]
pub struct BytePattern(pub u8);

/// The result of one parsing step: the parsed node and the index just
/// past the tokens it consumed.
pub type Parsed<T> = Result<(T, usize), ParseError>;

/// Whether a word is one the surface syntax claims for itself; such a
/// word is not accepted where a name is expected.
pub open spec fn spec_reserved(name: Seq<char>) -> bool {
    name == "as"@ || name == "else"@ || name == "if"@ || name == "in"@ || name == "move"@ || name
        == "true"@ || name == "false"@
}

/// Decides `spec_reserved`.
fn is_reserved(s: &String) -> (r: bool)
    ensures
        r == spec_reserved(s@),
{
    string_eq_str(s, "as") || string_eq_str(s, "else") || string_eq_str(s, "if") || string_eq_str(
        s,
        "in",
    ) || string_eq_str(s, "move") || string_eq_str(s, "true") || string_eq_str(s, "false")
}

/// The position an error raised at index `i` carries: the token's own
/// position, or the end position when no token is left.
pub open spec fn spec_err_pos(toks: Seq<Token>, i: int, end: usize) -> usize {
    if i < toks.len() {
        toks[i].pos
    } else {
        end
    }
}

/// The message an error raised at index `i` carries: the rule's own
/// words, with the end-of-input prefix when no token is left.
pub open spec fn spec_err_msg(toks: Seq<Token>, i: int, msg: Seq<char>) -> Seq<char> {
    if i < toks.len() {
        msg
    } else {
        "unexpected end of input, "@ + msg
    }
}

/// An error at the current token, or with the end-of-input prefix when
/// no token is left in the buffer.
fn err_at(toks: &Vec<Token>, i: usize, end: usize, msg: &str) -> (e: ParseError)
    ensures
        e.pos == spec_err_pos(toks@, i as int, end),
        e.message@ == spec_err_msg(toks@, i as int, msg@),
{
    if i < toks.len() {
        ParseError::new(toks[i].pos, msg)
    } else {
        ParseError::at_end(end, msg)
    }
}

/// Whether the token at `i` is the given punctuation character.
fn peek_punct(toks: &Vec<Token>, i: usize, c: char) -> (r: bool)
    ensures
        r == (i < toks@.len() && toks@[i as int].kind == TokenKind::Punct(c)),
{
    if i < toks.len() {
        match &toks[i].kind {
            TokenKind::Punct(p) => *p == c,
            _ => false,
        }
    } else {
        false
    }
}

/// Whether the tokens at `i` spell the state-enter arrow `-->`.
pub open spec fn spec_arrow_at(toks: Seq<Token>, i: int) -> bool {
    &&& i + 2 < toks.len()
    &&& toks[i].kind == TokenKind::Punct('-')
    &&& toks[i + 1].kind == TokenKind::Punct('-')
    &&& toks[i + 2].kind == TokenKind::Punct('>')
}

/// Whether the tokens at `i` spell the arrow `-->`.
fn peek_arrow(toks: &Vec<Token>, i: usize) -> (r: bool)
    ensures
        r == spec_arrow_at(toks@, i as int),
{
    let _n: usize = toks.len();
    peek_punct(toks, i, '-') && i + 1 < toks.len() && peek_punct(toks, i + 1, '-') && peek_punct(
        toks,
        i + 2,
        '>',
    )
}

/// Whether the token at `i` is an identifier usable as a name.
fn peek_name(toks: &Vec<Token>, i: usize) -> (r: bool)
    ensures
        r == (i < toks@.len() && (toks@[i as int].kind matches TokenKind::Ident(s)
            && !spec_reserved(s@))),
{
    if i < toks.len() {
        match &toks[i].kind {
            TokenKind::Ident(s) => !is_reserved(s),
            _ => false,
        }
    } else {
        false
    }
}

/// Whether the token at `i` is exactly the given word.
fn peek_kw(toks: &Vec<Token>, i: usize, kw: &str) -> (r: bool)
    ensures
        r == (i < toks@.len() && (toks@[i as int].kind matches TokenKind::Ident(s) && s@
            == kw@)),
{
    if i < toks.len() {
        match &toks[i].kind {
            TokenKind::Ident(s) => string_eq_str(s, kw),
            _ => false,
        }
    } else {
        false
    }
}

/// Reads a name: an identifier that is not a reserved word.
fn parse_name(toks: &Vec<Token>, i: usize, end: usize) -> (r: Parsed<String>)
    ensures
        r is Ok ==> r->Ok_0.1 == i + 1 && i < toks@.len() && (toks@[i as int].kind matches
            TokenKind::Ident(s) && r->Ok_0.0 == s),
        r is Ok == (i < toks@.len() && (toks@[i as int].kind matches TokenKind::Ident(s)
            && !spec_reserved(s@))),
        r is Err ==> r->Err_0.pos == spec_err_pos(toks@, i as int, end)
            && r->Err_0.message@ == spec_err_msg(toks@, i as int, "expected identifier"@),
{
    if i < toks.len() {
        match &toks[i].kind {
            TokenKind::Ident(s) => {
                if is_reserved(s) {
                    Err(ParseError::new(toks[i].pos, "expected identifier"))
                } else {
                    Ok((s.clone(), i + 1))
                }
            },
            _ => Err(ParseError::new(toks[i].pos, "expected identifier")),
        }
    } else {
        Err(ParseError::at_end(end, "expected identifier"))
    }
}

/// Which byte a byte-pattern token denotes: an ASCII character literal
/// or an integer literal in the byte range.
pub open spec fn spec_byte_token(k: TokenKind) -> Option<u8> {
    match k {
        TokenKind::CharLit(c) => if c as u32 <= 127 {
            Some(c as u8)
        } else {
            None
        },
        TokenKind::Int(v) => if v <= 255 {
            Some(v as u8)
        } else {
            None
        },
        _ => None,
    }
}

/// Reads a single byte pattern: an ASCII character literal or an
/// integer literal in the byte range.  A character outside ASCII and an
/// integer outside `0..=255` are rejected with messages naming the
/// violated bound.
pub fn parse_byte_pattern(toks: &Vec<Token>, i: usize, end: usize) -> (r: Parsed<BytePattern>)
    ensures
        match r {
            Ok((b, j)) => j == i + 1 && i < toks@.len() && spec_byte_token(toks@[i as int].kind)
                == Some(b.0),
            Err(_) => i >= toks@.len() || spec_byte_token(toks@[i as int].kind) is None,
        },
        (r is Err && i < toks@.len() && (toks@[i as int].kind matches TokenKind::CharLit(_)))
            ==> r->Err_0.pos == toks@[i as int].pos && r->Err_0.message@
            == "character should be in the ASCII range. For bigger byte values use numeric representation (e.g. 0x1F)"@,
        (r is Err && i < toks@.len() && (toks@[i as int].kind matches TokenKind::Int(_))) ==> r
            ->Err_0.pos == toks@[i as int].pos && r->Err_0.message@
            == "numeric pattern is not in the byte value range (0x00-0xFF, 0-255, etc.)"@,
        (r is Err && !(i < toks@.len() && ((toks@[i as int].kind matches TokenKind::CharLit(_))
            || (toks@[i as int].kind matches TokenKind::Int(_))))) ==> r->Err_0.pos
            == spec_err_pos(toks@, i as int, end) && r->Err_0.message@ == spec_err_msg(
            toks@,
            i as int,
            "expected character literal or integer literal"@,
        ),
{
    if i < toks.len() {
        match &toks[i].kind {
            TokenKind::CharLit(c) => {
                if (*c as u32) <= 127 {
                    Ok((BytePattern(*c as u8), i + 1))
                } else {
                    Err(
                        ParseError::new(
                            toks[i].pos,
                            "character should be in the ASCII range. For bigger byte values use numeric representation (e.g. 0x1F)",
                        ),
                    )
                }
            },
            TokenKind::Int(v) => {
                if *v <= 255 {
                    Ok((BytePattern(*v as u8), i + 1))
                } else {
                    Err(
                        ParseError::new(
                            toks[i].pos,
                            "numeric pattern is not in the byte value range (0x00-0xFF, 0-255, etc.)",
                        ),
                    )
                }
            },
            _ => Err(err_at(toks, i, end, "expected character literal or integer literal")),
        }
    } else {
        Err(err_at(toks, i, end, "expected character literal or integer literal"))
    }
}

/// Reads the optional `|i` case-insensitivity flag of a sequence
/// pattern.
fn parse_ignore_case_flag(toks: &Vec<Token>, i: usize, end: usize) -> (r: Parsed<bool>)
    ensures
        r is Ok ==> i <= r->Ok_0.1,
        r is Ok && r->Ok_0.1 != i ==> r->Ok_0.1 <= toks@.len(),
        !(i < toks@.len() && toks@[i as int].kind == TokenKind::Punct('|')) ==> r
            == Ok::<(bool, usize), ParseError>((false, i)),
        (i < toks@.len() && toks@[i as int].kind == TokenKind::Punct('|')) ==> match r {
            Ok(fj) => fj.0 == true && fj.1 == i + 2 && (i + 1 < toks@.len() && (toks@[
                i + 1].kind matches TokenKind::Ident(f) && f@ == "i"@)),
            Err(e) => if i + 1 < toks@.len() && (toks@[i + 1].kind matches TokenKind::Ident(f)
                && !spec_reserved(f@)) {
                toks@[i + 1].kind->Ident_0@ != "i"@ && e.pos == toks@[i + 1].pos && e.message@
                    == "unsupported sequence flag. Only ignore case flag (`i`) is currently supported"@
            } else {
                e.pos == spec_err_pos(toks@, i + 1, end) && e.message@ == spec_err_msg(
                    toks@,
                    i + 1,
                    "expected identifier"@,
                )
            },
        },
        match spec_flag_shape(toks@, i as int) {
            Some(fj) => r matches Ok(o) && o.0 == fj.0 && o.1 == fj.1,
            None => r is Err,
        },
{
    proof {
        reveal_strlit("i");
        reveal_strlit("as");
        reveal_strlit("else");
        reveal_strlit("if");
        reveal_strlit("in");
        reveal_strlit("move");
        reveal_strlit("true");
        reveal_strlit("false");
        assert("i"@ =~= seq!['i']);
        assert("as"@ =~= seq!['a', 's']);
        assert("else"@ =~= seq!['e', 'l', 's', 'e']);
        assert("if"@ =~= seq!['i', 'f']);
        assert("in"@ =~= seq!['i', 'n']);
        assert("move"@ =~= seq!['m', 'o', 'v', 'e']);
        assert("true"@ =~= seq!['t', 'r', 'u', 'e']);
        assert("false"@ =~= seq!['f', 'a', 'l', 's', 'e']);
        assert(!spec_reserved("i"@));
    }
    let _n: usize = toks.len();
    if peek_punct(toks, i, '|') {
        match parse_name(toks, i + 1, end) {
            Ok((flag, j)) => {
                if string_eq_str(&flag, "i") {
                    Ok((true, j))
                } else {
                    Err(
                        ParseError::new(
                            toks[i + 1].pos,
                            "unsupported sequence flag. Only ignore case flag (`i`) is currently supported",
                        ),
                    )
                }
            },
            Err(e) => Err(e),
        }
    } else {
        Ok((false, i))
    }
}

/// The byte list a comma-separated run of byte tokens denotes, read
/// from index `k` on; a trailing comma is allowed.
pub open spec fn spec_byte_list_tokens(ts: Seq<Token>, k: int) -> Option<Seq<u8>>
    decreases ts.len() - k,
{
    if k < 0 {
        None
    } else if k >= ts.len() {
        Some(Seq::empty())
    } else {
        match spec_byte_token(ts[k].kind) {
            None => None,
            Some(b) => {
                if k + 1 >= ts.len() {
                    Some(seq![b])
                } else if ts[k + 1].kind == TokenKind::Punct(',') {
                    match spec_byte_list_tokens(ts, k + 2) {
                        None => None,
                        Some(rest) => Some(seq![b] + rest),
                    }
                } else {
                    None
                }
            },
        }
    }
}

/// Reads the bracketed form of a sequence pattern: byte patterns
/// separated by commas, with an optional trailing comma; decides
/// `spec_byte_list_tokens` over the whole buffer.
fn parse_sequence_bytes(toks: &Vec<Token>, end: usize) -> (r: Result<Vec<u8>, ParseError>)
    ensures
        match r {
            Ok(bs) => spec_byte_list_tokens(toks@, 0) == Some(bs@),
            Err(_) => spec_byte_list_tokens(toks@, 0) is None,
        },
        r is Err ==> exists|k: int|
            #![trigger spec_byte_list_tokens(toks@, k)]
            0 <= k <= toks@.len() && (((k < toks@.len() && (toks@[k].kind matches
                TokenKind::CharLit(_))) && r->Err_0.pos == toks@[k].pos && r->Err_0.message@
                == "character should be in the ASCII range. For bigger byte values use numeric representation (e.g. 0x1F)"@)
                || ((k < toks@.len() && (toks@[k].kind matches TokenKind::Int(_))) && r
                ->Err_0.pos == toks@[k].pos && r->Err_0.message@
                == "numeric pattern is not in the byte value range (0x00-0xFF, 0-255, etc.)"@)
                || (r->Err_0.pos == spec_err_pos(toks@, k, end) && r->Err_0.message@
                == spec_err_msg(toks@, k, "expected character literal or integer literal"@))
                || (r->Err_0.pos == spec_err_pos(toks@, k, end) && r->Err_0.message@
                == spec_err_msg(toks@, k, "expected `,`"@))),
{
    let mut bytes: Vec<u8> = Vec::new();
    let mut i: usize = 0;
    proof {
        if spec_byte_list_tokens(toks@, 0) is Some {
            assert(bytes@ + spec_byte_list_tokens(toks@, 0)->0 =~= spec_byte_list_tokens(
                toks@,
                0,
            )->0);
        }
    }
    while i < toks.len()
        invariant
            i <= toks@.len(),
            spec_byte_list_tokens(toks@, i as int) is Some ==> spec_byte_list_tokens(toks@, 0)
                == Some(bytes@ + spec_byte_list_tokens(toks@, i as int)->0),
            spec_byte_list_tokens(toks@, i as int) is None ==> spec_byte_list_tokens(toks@, 0)
                is None,
        decreases toks@.len() - i,
    {
        let ghost i0 = i as int;
        match parse_byte_pattern(toks, i, end) {
            Ok((b, j)) => {
                bytes.push(b.0);
                i = j;
            },
            Err(e) => {
                proof {
                    assert(spec_byte_list_tokens(toks@, i0) is None);
                }
                return Err(e);
            },
        }
        if i < toks.len() {
            if peek_punct(toks, i, ',') {
                i = i + 1;
                proof {
                    let ghost bv = bytes@[bytes@.len() - 1];
                    if spec_byte_list_tokens(toks@, i as int) is Some {
                        assert((bytes@.drop_last() + seq![bv]) + spec_byte_list_tokens(
                            toks@,
                            i as int,
                        )->0 =~= bytes@.drop_last() + (seq![bv] + spec_byte_list_tokens(
                            toks@,
                            i as int,
                        )->0));
                        assert(bytes@.drop_last() + seq![bv] =~= bytes@);
                    }
                }
            } else {
                proof {
                    assert(spec_byte_list_tokens(toks@, i0) is None);
                    assert(spec_byte_list_tokens(toks@, i as int) == spec_byte_list_tokens(
                        toks@,
                        i as int,
                    ));
                }
                return Err(err_at(toks, i, end, "expected `,`"));
            }
        } else {
            proof {
                let ghost bv = bytes@[bytes@.len() - 1];
                assert(spec_byte_list_tokens(toks@, i0) == Some(seq![bv]));
                assert(bytes@.drop_last() + seq![bv] =~= bytes@);
            }
        }
    }
    proof {
        if spec_byte_list_tokens(toks@, i as int) is Some {
            assert(bytes@ + spec_byte_list_tokens(toks@, i as int)->0 =~= bytes@);
        }
    }
    Ok(bytes)
}

/// The shape of the optional `|i` flag at index `i`: absent (consuming
/// nothing), present (consuming two tokens), or malformed.
pub open spec fn spec_flag_shape(toks: Seq<Token>, i: int) -> Option<(bool, int)> {
    if !(i < toks.len() && toks[i].kind == TokenKind::Punct('|')) {
        Some((false, i))
    } else if i + 1 < toks.len() && (toks[i + 1].kind matches TokenKind::Ident(f) && f@
        == "i"@) {
        Some((true, i + 2))
    } else {
        None
    }
}

/// Reads a sequence pattern: an ASCII string literal or a bracketed
/// byte list, both with an optional `|i` flag.  A string literal with a
/// character outside ASCII is rejected with a message suggesting the
/// byte-array form.
pub fn parse_sequence_pattern(toks: &Vec<Token>, i: usize, end: usize) -> (r: Parsed<
    SequencePattern,
>)
    ensures
        r is Ok ==> i < r->Ok_0.1 <= toks@.len(),
        r is Ok && (toks@[i as int].kind matches TokenKind::StrLit(s)) ==> ({
            let lit = toks@[i as int].kind->StrLit_0;
            &&& r->Ok_0.0.bytes@.len() == lit@.len()
            &&& forall|k: int|
                0 <= k < lit@.len() ==> (#[trigger] r->Ok_0.0.bytes@[k]) == lit@[k] as u8
                    && lit@[k] as u32 <= 127
        }),
        (i < toks@.len() && (toks@[i as int].kind matches TokenKind::StrLit(lit) && (forall|
            q: int,
        |
            0 <= q < lit@.len() ==> ((#[trigger] lit@[q]) as u32) <= 127) && spec_flag_shape(
            toks@,
            i + 1,
        ) is Some)) ==> ({
            let fs = spec_flag_shape(toks@, i + 1)->0;
            r matches Ok(pj) && pj.0.ignore_case == fs.0 && pj.1 == fs.1
        }),
        (i < toks@.len() && (toks@[i as int].kind matches TokenKind::StrLit(lit) && !(forall|
            q: int,
        |
            0 <= q < lit@.len() ==> ((#[trigger] lit@[q]) as u32) <= 127))) ==> (r is Err && r
            ->Err_0.pos == toks@[i as int].pos && r->Err_0.message@
            == "characters in string sequence pattern should be in the ASCII range. Use array sequence patterns instead (e.g. ['f', 0x00, 'O'])"@),
        (r is Ok && (toks@[i as int].kind matches TokenKind::Group {
            delim: Delim::Bracket,
            ..
        })) ==> spec_byte_list_tokens(toks@[i as int].kind->Group_tokens@, 0) == Some(
            r->Ok_0.0.bytes@,
        ),
        (i < toks@.len() && ((toks@[i as int].kind matches TokenKind::Group {
            delim: Delim::Bracket,
            tokens: ts,
            ..
        } && spec_byte_list_tokens(ts@, 0) is Some) && spec_flag_shape(toks@, i + 1) is Some))
            ==> ({
            let fs = spec_flag_shape(toks@, i + 1)->0;
            r matches Ok(pj) && pj.0.ignore_case == fs.0 && pj.1 == fs.1
        }),
        !(i < toks@.len() && ((toks@[i as int].kind matches TokenKind::StrLit(_)) || (toks@[
            i as int].kind matches TokenKind::Group { delim: Delim::Bracket, .. }))) ==> (r
            is Err && r->Err_0.pos == spec_err_pos(toks@, i as int, end) && r->Err_0.message@
            == spec_err_msg(toks@, i as int, "expected string literal or square brackets"@)),
        r is Ok ==> spec_flag_shape(toks@, i + 1) == Some(
            (r->Ok_0.0.ignore_case, r->Ok_0.1 as int),
        ),
        r is Ok ==> (i < toks@.len() && ((toks@[i as int].kind matches TokenKind::StrLit(_))
            || (toks@[i as int].kind matches TokenKind::Group {
            delim: Delim::Bracket,
            ..
        }))),
{
    let _n: usize = toks.len();
    if i < toks.len() {
        match &toks[i].kind {
            TokenKind::StrLit(s) => {
                let strpos = toks[i].pos;
                let cs = crate::text::str_to_chars(s.as_str());
                let mut bytes: Vec<u8> = Vec::new();
                let mut k: usize = 0;
                while k < cs.len()
                    invariant
                        k <= cs@.len(),
                        cs@ == s@,
                        i < toks@.len(),
                        toks@[i as int].kind == TokenKind::StrLit(*s),
                        strpos == toks@[i as int].pos,
                        bytes@ == Seq::new(k as nat, |q: int| cs@[q] as u8),
                        forall|q: int| 0 <= q < k ==> ((#[trigger] cs@[q]) as u32) <= 127,
                    decreases cs@.len() - k,
                {
                    if (cs[k] as u32) <= 127 {
                        bytes.push(cs[k] as u8);
                        proof {
                            assert(bytes@ =~= Seq::new((k + 1) as nat, |q: int| cs@[q] as u8));
                        }
                        k = k + 1;
                    } else {
                        proof {
                            assert(((#[trigger] toks@[i as int].kind->StrLit_0@[
                                k as int]) as u32) > 127);
                        }
                        return Err(
                            ParseError::new(
                                strpos,
                                "characters in string sequence pattern should be in the ASCII range. Use array sequence patterns instead (e.g. ['f', 0x00, 'O'])",
                            ),
                        );
                    }
                }
                proof {
                    assert(forall|q: int|
                        0 <= q < cs@.len() ==> (#[trigger] bytes@[q]) == cs@[q] as u8);
                }
                match parse_ignore_case_flag(toks, i + 1, end) {
                    Ok((ignore_case, j)) => Ok((SequencePattern { bytes, ignore_case }, j)),
                    Err(e) => Err(e),
                }
            },
            TokenKind::Group { delim: Delim::Bracket, tokens, close_pos } => {
                match parse_sequence_bytes(tokens, *close_pos) {
                    Ok(bytes) => {
                        match parse_ignore_case_flag(toks, i + 1, end) {
                            Ok((ignore_case, j)) => Ok(
                                (SequencePattern { bytes, ignore_case }, j),
                            ),
                            Err(e) => Err(e),
                        }
                    },
                    Err(e) => Err(e),
                }
            },
            _ => Err(err_at(toks, i, end, "expected string literal or square brackets")),
        }
    } else {
        Err(err_at(toks, i, end, "expected string literal or square brackets"))
    }
}

/// Which pattern a bare keyword denotes: a byte class under its
/// canonical name or an alternate spelling, or an input-state
/// condition.  Any other word denotes no pattern.
pub open spec fn spec_keyword_pattern(name: Seq<char>) -> Option<Pattern> {
    if name == "alnum"@ {
        Some(Pattern::Class(ClassPattern::Alnum))
    } else if name == "alpha"@ {
        Some(Pattern::Class(ClassPattern::Alpha))
    } else if name == "ascii"@ {
        Some(Pattern::Class(ClassPattern::Ascii))
    } else if name == "lower"@ || name == "alpha_lo"@ {
        Some(Pattern::Class(ClassPattern::Lower))
    } else if name == "upper"@ || name == "alpha_up"@ {
        Some(Pattern::Class(ClassPattern::Upper))
    } else if name == "digit"@ {
        Some(Pattern::Class(ClassPattern::Digit))
    } else if name == "xdigit"@ {
        Some(Pattern::Class(ClassPattern::Xdigit))
    } else if name == "space"@ || name == "ws"@ {
        Some(Pattern::Class(ClassPattern::Space))
    } else if name == "eoc"@ {
        Some(Pattern::InputState(InputStatePattern::Eoc))
    } else if name == "eof"@ {
        Some(Pattern::InputState(InputStatePattern::Eof))
    } else {
        None
    }
}

/// The canonical keyword under which a class or input-state pattern is
/// written out.
pub open spec fn spec_canonical_keyword(p: Pattern) -> Seq<char>
    recommends
        p matches Pattern::Class(_) || p matches Pattern::InputState(_),
{
    match p {
        Pattern::Class(ClassPattern::Alnum) => "alnum"@,
        Pattern::Class(ClassPattern::Alpha) => "alpha"@,
        Pattern::Class(ClassPattern::Ascii) => "ascii"@,
        Pattern::Class(ClassPattern::Lower) => "lower"@,
        Pattern::Class(ClassPattern::Upper) => "upper"@,
        Pattern::Class(ClassPattern::Digit) => "digit"@,
        Pattern::Class(ClassPattern::Xdigit) => "xdigit"@,
        Pattern::Class(ClassPattern::Space) => "space"@,
        Pattern::InputState(InputStatePattern::Eoc) => "eoc"@,
        Pattern::InputState(InputStatePattern::Eof) => "eof"@,
        _ => Seq::empty(),
    }
}

/// The keyword leg of the round trip: writing a class or input-state
/// pattern under its canonical keyword and looking that keyword up
/// again yields the pattern back, and no such keyword collides with a
/// reserved word.
pub proof fn lemma_keyword_names_pattern(p: Pattern)
    requires
        p matches Pattern::Class(_) || p matches Pattern::InputState(_),
    ensures
        spec_keyword_pattern(spec_canonical_keyword(p)) == Some(p),
        !spec_reserved(spec_canonical_keyword(p)),
{
    reveal_strlit("alnum");
    reveal_strlit("alpha");
    reveal_strlit("ascii");
    reveal_strlit("lower");
    reveal_strlit("alpha_lo");
    reveal_strlit("upper");
    reveal_strlit("alpha_up");
    reveal_strlit("digit");
    reveal_strlit("xdigit");
    reveal_strlit("space");
    reveal_strlit("ws");
    reveal_strlit("eoc");
    reveal_strlit("eof");
    reveal_strlit("as");
    reveal_strlit("else");
    reveal_strlit("if");
    reveal_strlit("in");
    reveal_strlit("move");
    reveal_strlit("true");
    reveal_strlit("false");
    assert("alnum"@ =~= seq!['a', 'l', 'n', 'u', 'm']);
    assert("alpha"@ =~= seq!['a', 'l', 'p', 'h', 'a']);
    assert("ascii"@ =~= seq!['a', 's', 'c', 'i', 'i']);
    assert("lower"@ =~= seq!['l', 'o', 'w', 'e', 'r']);
    assert("alpha_lo"@ =~= seq!['a', 'l', 'p', 'h', 'a', '_', 'l', 'o']);
    assert("upper"@ =~= seq!['u', 'p', 'p', 'e', 'r']);
    assert("alpha_up"@ =~= seq!['a', 'l', 'p', 'h', 'a', '_', 'u', 'p']);
    assert("digit"@ =~= seq!['d', 'i', 'g', 'i', 't']);
    assert("xdigit"@ =~= seq!['x', 'd', 'i', 'g', 'i', 't']);
    assert("space"@ =~= seq!['s', 'p', 'a', 'c', 'e']);
    assert("ws"@ =~= seq!['w', 's']);
    assert("eoc"@ =~= seq!['e', 'o', 'c']);
    assert("eof"@ =~= seq!['e', 'o', 'f']);
    assert("as"@ =~= seq!['a', 's']);
    assert("else"@ =~= seq!['e', 'l', 's', 'e']);
    assert("if"@ =~= seq!['i', 'f']);
    assert("in"@ =~= seq!['i', 'n']);
    assert("move"@ =~= seq!['m', 'o', 'v', 'e']);
    assert("true"@ =~= seq!['t', 'r', 'u', 'e']);
    assert("false"@ =~= seq!['f', 'a', 'l', 's', 'e']);
    match p {
        Pattern::Class(ClassPattern::Alnum) => {
            assert(spec_keyword_pattern("alnum"@) == Some(p));
            assert(!spec_reserved("alnum"@));
        },
        Pattern::Class(ClassPattern::Alpha) => {
            assert(spec_keyword_pattern("alpha"@) == Some(p));
            assert(!spec_reserved("alpha"@));
        },
        Pattern::Class(ClassPattern::Ascii) => {
            assert(spec_keyword_pattern("ascii"@) == Some(p));
            assert(!spec_reserved("ascii"@));
        },
        Pattern::Class(ClassPattern::Lower) => {
            assert(spec_keyword_pattern("lower"@) == Some(p));
            assert(!spec_reserved("lower"@));
        },
        Pattern::Class(ClassPattern::Upper) => {
            assert(spec_keyword_pattern("upper"@) == Some(p));
            assert(!spec_reserved("upper"@));
        },
        Pattern::Class(ClassPattern::Digit) => {
            assert(spec_keyword_pattern("digit"@) == Some(p));
            assert(!spec_reserved("digit"@));
        },
        Pattern::Class(ClassPattern::Xdigit) => {
            assert(spec_keyword_pattern("xdigit"@) == Some(p));
            assert(!spec_reserved("xdigit"@));
        },
        Pattern::Class(ClassPattern::Space) => {
            assert(spec_keyword_pattern("space"@) == Some(p));
            assert(!spec_reserved("space"@));
        },
        Pattern::InputState(InputStatePattern::Eoc) => {
            assert(spec_keyword_pattern("eoc"@) == Some(p));
            assert(!spec_reserved("eoc"@));
        },
        Pattern::InputState(InputStatePattern::Eof) => {
            assert(spec_keyword_pattern("eof"@) == Some(p));
            assert(!spec_reserved("eof"@));
        },
        _ => {
            assert(false);
        },
    }
}

/// The byte leg of the round trip: a byte written as its integer
/// literal reads back as the same byte.
pub proof fn lemma_byte_token_round_trip(b: u8)
    ensures
        spec_byte_token(TokenKind::Int(b as u64)) == Some(b),
{
}

/// Reads a pattern keyword; decides `spec_keyword_pattern`, rejecting
/// any other word as an unknown pattern.
fn pattern_from_ident(name: &String, pos: usize) -> (r: Result<Pattern, ParseError>)
    ensures
        match r {
            Ok(p) => spec_keyword_pattern(name@) == Some(p),
            Err(e) => spec_keyword_pattern(name@) is None && e.pos == pos && e.message@
                == "unknown pattern"@,
        },
{
    if string_eq_str(name, "alnum") {
        Ok(Pattern::Class(ClassPattern::Alnum))
    } else if string_eq_str(name, "alpha") {
        Ok(Pattern::Class(ClassPattern::Alpha))
    } else if string_eq_str(name, "ascii") {
        Ok(Pattern::Class(ClassPattern::Ascii))
    } else if string_eq_str(name, "lower") || string_eq_str(name, "alpha_lo") {
        Ok(Pattern::Class(ClassPattern::Lower))
    } else if string_eq_str(name, "upper") || string_eq_str(name, "alpha_up") {
        Ok(Pattern::Class(ClassPattern::Upper))
    } else if string_eq_str(name, "digit") {
        Ok(Pattern::Class(ClassPattern::Digit))
    } else if string_eq_str(name, "xdigit") {
        Ok(Pattern::Class(ClassPattern::Xdigit))
    } else if string_eq_str(name, "space") || string_eq_str(name, "ws") {
        Ok(Pattern::Class(ClassPattern::Space))
    } else if string_eq_str(name, "eoc") {
        Ok(Pattern::InputState(InputStatePattern::Eoc))
    } else if string_eq_str(name, "eof") {
        Ok(Pattern::InputState(InputStatePattern::Eof))
    } else {
        Err(ParseError::new(pos, "unknown pattern"))
    }
}

/// Whether the token at `i` can start a pattern: the state-enter
/// arrow, a character or integer literal, a string literal or a
/// bracketed list, an identifier, the wildcard, or the word `if`.
pub open spec fn spec_pattern_starts(toks: Seq<Token>, i: int) -> bool {
    i < toks.len() && (spec_arrow_at(toks, i) || (toks[i].kind matches TokenKind::CharLit(_))
        || (toks[i].kind matches TokenKind::Int(_)) || (toks[i].kind matches TokenKind::StrLit(
        _,
    )) || (toks[i].kind matches TokenKind::Group { delim: Delim::Bracket, .. }) || (toks[i].kind
        matches TokenKind::Ident(s) && !spec_reserved(s@)) || toks[i].kind == TokenKind::Punct(
        '_',
    ) || (toks[i].kind matches TokenKind::Ident(s) && s@ == "if"@))
}

/// Whether the tokens from `i` to `j` spell exactly the given pattern.
pub open spec fn spec_pattern_at(toks: Seq<Token>, i: int, j: int, p: Pattern) -> bool {
    match p {
        Pattern::StateEnter => spec_arrow_at(toks, i) && j == i + 3,
        Pattern::Byte(b) => i < toks.len() && spec_byte_token(toks[i].kind) == Some(b) && j == i
            + 1,
        Pattern::Class(_) => i < toks.len() && (toks[i].kind matches TokenKind::Ident(s)
            && spec_keyword_pattern(s@) == Some(p)) && j == i + 1,
        Pattern::InputState(_) => i < toks.len() && (toks[i].kind matches TokenKind::Ident(s)
            && spec_keyword_pattern(s@) == Some(p)) && j == i + 1,
        Pattern::Condition(name) => spec_kw_at(toks, i, "if"@) && spec_name_at(
            toks,
            i + 1,
            name,
        ) && j == i + 2,
        Pattern::Sequence(sp) => (i < toks.len() && ((toks[i].kind matches TokenKind::StrLit(
            lit,
        ) && sp.bytes@.len() == lit@.len() && (forall|q: int|
            0 <= q < lit@.len() ==> (#[trigger] sp.bytes@[q]) == lit@[q] as u8 && lit@[q] as u32
                <= 127)) || (toks[i].kind matches TokenKind::Group {
            delim: Delim::Bracket,
            tokens: ts,
            ..
        } && spec_byte_list_tokens(ts@, 0) == Some(sp.bytes@)))) && spec_flag_shape(toks, i + 1)
            == Some((sp.ignore_case, j)),
        Pattern::Any => spec_punct_at(toks, i, '_') && j == i + 1,
    }
}

/// Whether the tokens from `i` to `j` spell exactly the given arm: a
/// pattern, the `=>` connector, and a right-hand side.
pub open spec fn spec_arm_at(toks: Seq<Token>, i: int, j: int, arm: MatchArm) -> bool {
    exists|m: int|
        #![trigger spec_pattern_at(toks, i, m, arm.pattern)]
        spec_pattern_at(toks, i, m, arm.pattern) && spec_punct_at(toks, m, '=') && spec_punct_at(
            toks,
            m + 1,
            '>',
        ) && spec_rhs_at(toks, m + 2, j, arm.rhs)
}

/// Whether the tokens from `i` to `j` spell exactly the given arms,
/// one after the other.
pub open spec fn spec_arms_at(toks: Seq<Token>, i: int, j: int, arms: Seq<MatchArm>) -> bool
    decreases arms.len(),
{
    if arms.len() == 0 {
        j == i
    } else {
        exists|m: int|
            #![trigger spec_arm_at(toks, i, m, arms[0])]
            spec_arm_at(toks, i, m, arms[0]) && spec_arms_at(toks, m, j, arms.drop_first())
    }
}

/// Whether the tokens from `i` to `j` spell exactly the given state:
/// its name, the colon, and its arms in order, ending at the end of
/// the buffer or at the next state's name.
pub open spec fn spec_state_at(toks: Seq<Token>, i: int, j: int, st: State) -> bool {
    &&& spec_name_at(toks, i, st.name)
    &&& spec_punct_at(toks, i + 1, ':')
    &&& st.arms@.len() > 0
    &&& spec_arms_at(toks, i + 2, j, st.arms@)
    &&& (j >= toks.len() || ((toks[j].kind matches TokenKind::Ident(s) && !spec_reserved(s@))
        && spec_punct_at(toks, j + 1, ':')))
}

/// Whether the tokens from `i` to `j` spell exactly the given states,
/// one after the other.
pub open spec fn spec_states_at(toks: Seq<Token>, i: int, j: int, states: Seq<State>) -> bool
    decreases states.len(),
{
    if states.len() == 0 {
        j == i
    } else {
        exists|m: int|
            #![trigger spec_state_at(toks, i, m, states[0])]
            spec_state_at(toks, i, m, states[0]) && spec_states_at(
                toks,
                m,
                j,
                states.drop_first(),
            )
    }
}

/// Whether the tokens from `i` on spell exactly the given grammar: its
/// name, `=`, and a braced group wholly filled by its states.
pub open spec fn spec_grammar_at(toks: Seq<Token>, i: int, j: int, g: Grammar) -> bool {
    &&& spec_name_at(toks, i, g.name)
    &&& spec_punct_at(toks, i + 1, '=')
    &&& i + 2 < toks.len()
    &&& (toks[i + 2].kind matches TokenKind::Group {
        delim: Delim::Brace,
        tokens: ts,
        ..
    } && spec_states_at(ts@, 0, ts@.len() as int, g.states@))
    &&& g.states@.len() > 0
    &&& j == i + 3
}

/// Reads an arm pattern.  Disambiguation order: state-enter arrow, byte
/// literal, sequence literal, identifier (class or input-state
/// keyword), wildcard `_`, predicate introduced by `if`.
pub fn parse_pattern(toks: &Vec<Token>, i: usize, end: usize) -> (r: Parsed<Pattern>)
    ensures
        r is Ok ==> i < r->Ok_0.1 <= toks@.len(),
        r is Ok && (toks@[i as int].kind matches TokenKind::CharLit(_) || toks@[i as int].kind
            matches TokenKind::Int(_)) ==> (r->Ok_0.0 matches Pattern::Byte(b)
            && spec_byte_token(toks@[i as int].kind) == Some(b)) && r->Ok_0.1 == i + 1,
        r is Ok && (toks@[i as int].kind matches TokenKind::Ident(s) && s@ != "if"@) ==> (
        spec_keyword_pattern(toks@[i as int].kind->Ident_0@) == Some(r->Ok_0.0) && r->Ok_0.1 == i
            + 1),
        r is Ok && (toks@[i as int].kind matches TokenKind::Ident(s) && s@ == "if"@) ==> (r
            ->Ok_0.0 matches Pattern::Condition(name) && toks@[i + 1].kind matches
            TokenKind::Ident(n2) && n2@ == name@),
        r is Ok && (toks@[i as int].kind matches TokenKind::Punct(c) && c == '_') ==> r->Ok_0.0
            == Pattern::Any && r->Ok_0.1 == i + 1,
        r is Ok && (toks@[i as int].kind matches TokenKind::StrLit(_) || toks@[i as int].kind
            matches TokenKind::Group { .. }) ==> r->Ok_0.0 matches Pattern::Sequence(_),
        (i < toks@.len() && (toks@[i as int].kind matches TokenKind::Ident(s) && !spec_reserved(
            s@,
        ) && spec_keyword_pattern(s@) is Some)) ==> r is Ok,
        spec_arrow_at(toks@, i as int) ==> r == Ok::<(Pattern, usize), ParseError>(
            (Pattern::StateEnter, (i + 3) as usize),
        ),
        (i < toks@.len() && toks@[i as int].kind == TokenKind::Punct('_')) ==> r == Ok::<
            (Pattern, usize),
            ParseError,
        >((Pattern::Any, (i + 1) as usize)),
        (i < toks@.len() && spec_byte_token(toks@[i as int].kind) is Some) ==> (r matches Ok(pj)
            && pj.0 == Pattern::Byte(spec_byte_token(toks@[i as int].kind)->0) && pj.1 == i + 1),
        (i < toks@.len() && (toks@[i as int].kind matches TokenKind::Ident(s) && s@ == "if"@))
            ==> match r {
            Ok(pj) => pj.1 == i + 2 && (i + 1 < toks@.len() && (toks@[i + 1].kind matches
                TokenKind::Ident(n) && !spec_reserved(n@) && pj.0 == Pattern::Condition(n))),
            Err(e) => !(i + 1 < toks@.len() && (toks@[i + 1].kind matches TokenKind::Ident(n)
                && !spec_reserved(n@))) && e.pos == spec_err_pos(toks@, i + 1, end) && e.message@
                == spec_err_msg(toks@, i + 1, "expected identifier"@),
        },
        (i < toks@.len() && (toks@[i as int].kind matches TokenKind::Ident(s) && !spec_reserved(
            s@,
        ) && spec_keyword_pattern(s@) is None)) ==> (r is Err && r->Err_0.pos == toks@[
            i as int].pos && r->Err_0.message@ == "unknown pattern"@),
        !spec_pattern_starts(toks@, i as int) ==> (r is Err && r->Err_0.pos == spec_err_pos(
            toks@,
            i as int,
            end,
        ) && r->Err_0.message@ == spec_err_msg(
            toks@,
            i as int,
            "expected one of: character literal, integer literal, string literal, square brackets, identifier, `_`, `if`"@,
        )),
        r is Ok ==> spec_pattern_at(toks@, i as int, r->Ok_0.1 as int, r->Ok_0.0),
{
    let _n: usize = toks.len();
    if peek_arrow(toks, i) {
        Ok((Pattern::StateEnter, i + 3))
    } else if i < toks.len() && (matches!(&toks[i].kind, TokenKind::CharLit(_)) || matches!(
        &toks[i].kind,
        TokenKind::Int(_),
    )) {
        match parse_byte_pattern(toks, i, end) {
            Ok((b, j)) => Ok((Pattern::Byte(b.0), j)),
            Err(e) => Err(e),
        }
    } else if i < toks.len() && (matches!(&toks[i].kind, TokenKind::StrLit(_)) || matches!(
        &toks[i].kind,
        TokenKind::Group { delim: Delim::Bracket, .. },
    )) {
        match parse_sequence_pattern(toks, i, end) {
            Ok((s, j)) => Ok((Pattern::Sequence(s), j)),
            Err(e) => Err(e),
        }
    } else if peek_name(toks, i) {
        match parse_name(toks, i, end) {
            Ok((name, j)) => {
                match pattern_from_ident(&name, toks[i].pos) {
                    Ok(p) => Ok((p, j)),
                    Err(e) => Err(e),
                }
            },
            Err(e) => Err(e),
        }
    } else if peek_punct(toks, i, '_') {
        Ok((Pattern::Any, i + 1))
    } else if peek_kw(toks, i, "if") {
        match parse_name(toks, i + 1, end) {
            Ok((name, j)) => Ok((Pattern::Condition(name), j)),
            Err(e) => Err(e),
        }
    } else {
        Err(
            err_at(
                toks,
                i,
                end,
                "expected one of: character literal, integer literal, string literal, square brackets, identifier, `_`, `if`",
            ),
        )
    }
}

/// Which literal a token denotes: an integer, a string, or one of the
/// two boolean words.
pub open spec fn spec_literal_token(k: TokenKind) -> Option<Literal> {
    match k {
        TokenKind::Int(v) => Some(Literal::Int(v)),
        TokenKind::StrLit(s) => Some(Literal::Str(s)),
        TokenKind::Ident(s) => if s@ == "true"@ {
            Some(Literal::Bool(true))
        } else if s@ == "false"@ {
            Some(Literal::Bool(false))
        } else {
            None
        },
        _ => None,
    }
}

/// The literal list a comma-separated run of literal tokens denotes,
/// read from index `k` on; a trailing comma is allowed.
pub open spec fn spec_literal_list_tokens(ts: Seq<Token>, k: int) -> Option<Seq<Literal>>
    decreases ts.len() - k,
{
    if k < 0 {
        None
    } else if k >= ts.len() {
        Some(Seq::empty())
    } else {
        match spec_literal_token(ts[k].kind) {
            None => None,
            Some(l) => {
                if k + 1 >= ts.len() {
                    Some(seq![l])
                } else if ts[k + 1].kind == TokenKind::Punct(',') {
                    match spec_literal_list_tokens(ts, k + 2) {
                        None => None,
                        Some(rest) => Some(seq![l] + rest),
                    }
                } else {
                    None
                }
            },
        }
    }
}

/// Reads one literal argument: an integer, a string, or a boolean;
/// decides `spec_literal_token`.
fn parse_literal(toks: &Vec<Token>, i: usize, end: usize) -> (r: Parsed<Literal>)
    ensures
        match r {
            Ok(lj) => lj.1 == i + 1 && i < toks@.len() && spec_literal_token(
                toks@[i as int].kind,
            ) == Some(lj.0),
            Err(e) => (i >= toks@.len() || spec_literal_token(toks@[i as int].kind) is None)
                && e.pos == spec_err_pos(toks@, i as int, end) && e.message@ == spec_err_msg(
                toks@,
                i as int,
                "expected literal"@,
            ),
        },
{
    if i < toks.len() {
        match &toks[i].kind {
            TokenKind::Int(v) => Ok((Literal::Int(*v), i + 1)),
            TokenKind::StrLit(s) => Ok((Literal::Str(s.clone()), i + 1)),
            TokenKind::Ident(s) => {
                if string_eq_str(s, "true") {
                    Ok((Literal::Bool(true), i + 1))
                } else if string_eq_str(s, "false") {
                    Ok((Literal::Bool(false), i + 1))
                } else {
                    Err(err_at(toks, i, end, "expected literal"))
                }
            },
            _ => Err(err_at(toks, i, end, "expected literal")),
        }
    } else {
        Err(err_at(toks, i, end, "expected literal"))
    }
}

/// Reads the literal arguments inside a parenthesized group: literals
/// separated by commas, with an optional trailing comma; decides
/// `spec_literal_list_tokens` over the whole buffer.
fn parse_literal_args(toks: &Vec<Token>, end: usize) -> (r: Result<Vec<Literal>, ParseError>)
    ensures
        match r {
            Ok(ls) => spec_literal_list_tokens(toks@, 0) == Some(ls@),
            Err(_) => spec_literal_list_tokens(toks@, 0) is None,
        },
{
    let mut args: Vec<Literal> = Vec::new();
    let mut i: usize = 0;
    proof {
        if spec_literal_list_tokens(toks@, 0) is Some {
            assert(args@ + spec_literal_list_tokens(toks@, 0)->0 =~= spec_literal_list_tokens(
                toks@,
                0,
            )->0);
        }
    }
    while i < toks.len()
        invariant
            i <= toks@.len(),
            spec_literal_list_tokens(toks@, i as int) is Some ==> spec_literal_list_tokens(
                toks@,
                0,
            ) == Some(args@ + spec_literal_list_tokens(toks@, i as int)->0),
            spec_literal_list_tokens(toks@, i as int) is None ==> spec_literal_list_tokens(
                toks@,
                0,
            ) is None,
        decreases toks@.len() - i,
    {
        let ghost i0 = i as int;
        match parse_literal(toks, i, end) {
            Ok((lit, j)) => {
                args.push(lit);
                i = j;
            },
            Err(e) => {
                return Err(e);
            },
        }
        if i < toks.len() {
            if peek_punct(toks, i, ',') {
                i = i + 1;
                proof {
                    let ghost lv = args@[args@.len() - 1];
                    if spec_literal_list_tokens(toks@, i as int) is Some {
                        assert((args@.drop_last() + seq![lv]) + spec_literal_list_tokens(
                            toks@,
                            i as int,
                        )->0 =~= args@.drop_last() + (seq![lv] + spec_literal_list_tokens(
                            toks@,
                            i as int,
                        )->0));
                        assert(args@.drop_last() + seq![lv] =~= args@);
                    }
                }
            } else {
                proof {
                    assert(spec_literal_list_tokens(toks@, i0) is None);
                }
                return Err(err_at(toks, i, end, "expected `,`"));
            }
        } else {
            proof {
                let ghost lv = args@[args@.len() - 1];
                assert(spec_literal_list_tokens(toks@, i0) == Some(seq![lv]));
                assert(args@.drop_last() + seq![lv] =~= args@);
            }
        }
    }
    proof {
        if spec_literal_list_tokens(toks@, i as int) is Some {
            assert(args@ + spec_literal_list_tokens(toks@, i as int)->0 =~= args@);
        }
    }
    Ok(args)
}

/// Reads the single identifier argument of a built-in action call: a
/// parenthesized group holding exactly one identifier.
fn parse_label_arg(toks: &Vec<Token>, i: usize, end: usize) -> (r: Parsed<String>)
    ensures
        r is Ok ==> r->Ok_0.1 == i + 1 && i < toks@.len(),
        r is Ok <==> (i < toks@.len() && (toks@[i as int].kind matches TokenKind::Group {
            delim: Delim::Paren,
            tokens: ts,
            ..
        } && ts@.len() == 1 && (ts@[0].kind matches TokenKind::Ident(l) && !spec_reserved(
            l@,
        )))),
        r is Ok ==> (toks@[i as int].kind matches TokenKind::Group { tokens: ts, .. } && r
            ->Ok_0.0 == ts@[0].kind->Ident_0),
        (r is Err && !(i < toks@.len() && (toks@[i as int].kind matches TokenKind::Group {
            delim: Delim::Paren,
            ..
        }))) ==> r->Err_0.pos == spec_err_pos(toks@, i as int, end) && r->Err_0.message@
            == spec_err_msg(toks@, i as int, "expected parentheses"@),
{
    if i < toks.len() {
        match &toks[i].kind {
            TokenKind::Group { delim: Delim::Paren, tokens, close_pos } => {
                match parse_name(tokens, 0, *close_pos) {
                    Ok((label, j)) => {
                        if j < tokens.len() {
                            Err(ParseError::new(tokens[j].pos, "too many arguments"))
                        } else {
                            Ok((label, i + 1))
                        }
                    },
                    Err(e) => Err(e),
                }
            },
            _ => Err(err_at(toks, i, end, "expected parentheses")),
        }
    } else {
        Err(err_at(toks, i, end, "expected parentheses"))
    }
}

/// Whether the token at `k` is a name equal to the given string.
pub open spec fn spec_name_at(toks: Seq<Token>, k: int, s: String) -> bool {
    k < toks.len() && (toks[k].kind matches TokenKind::Ident(n) && !spec_reserved(n@) && n == s)
}

/// Whether the token at `k` is the given punctuation character.
pub open spec fn spec_punct_at(toks: Seq<Token>, k: int, c: char) -> bool {
    k < toks.len() && toks[k].kind == TokenKind::Punct(c)
}

/// Whether the token at `k` is a parenthesized group holding exactly
/// the given label.
pub open spec fn spec_label_group_at(toks: Seq<Token>, k: int, label: String) -> bool {
    k < toks.len() && (toks[k].kind matches TokenKind::Group {
        delim: Delim::Paren,
        tokens: ts,
        ..
    } && ts@.len() == 1 && (ts@[0].kind matches TokenKind::Ident(l) && !spec_reserved(l@) && l
        == label))
}

/// Whether the tokens from `i` to `j` spell exactly the given action
/// call: a built-in under its `@` name with its single label, or a
/// user-defined name with its optional argument group and optional `?`.
pub open spec fn spec_action_call_at(toks: Seq<Token>, i: int, j: int, a: ActionCall) -> bool {
    match a {
        ActionCall::UserDefined { name, args, fallible } => {
            let after_args = if args@.len() > 0 {
                i + 2
            } else {
                i + 1
            };
            &&& spec_name_at(toks, i, name)
            &&& (if args@.len() > 0 {
                i + 1 < toks.len() && (toks[i + 1].kind matches TokenKind::Group {
                    delim: Delim::Paren,
                    tokens: ts,
                    ..
                } && spec_literal_list_tokens(ts@, 0) == Some(args@))
            } else {
                !(i + 1 < toks.len() && (toks[i + 1].kind matches TokenKind::Group {
                    delim: Delim::Paren,
                    ..
                }))
            })
            &&& fallible == spec_punct_at(toks, after_args, '?')
            &&& j == (if fallible {
                after_args + 1
            } else {
                after_args
            })
        },
        ActionCall::Mark(label) => spec_punct_at(toks, i, '@') && spec_kw_at(toks, i + 1, "mark"@)
            && spec_label_group_at(toks, i + 2, label) && j == i + 3,
        ActionCall::Back => spec_punct_at(toks, i, '@') && spec_kw_at(toks, i + 1, "back"@) && j
            == i + 2,
        ActionCall::Start(label) => spec_punct_at(toks, i, '@') && spec_kw_at(
            toks,
            i + 1,
            "start"@,
        ) && spec_label_group_at(toks, i + 2, label) && j == i + 3,
        ActionCall::End(label) => spec_punct_at(toks, i, '@') && spec_kw_at(toks, i + 1, "end"@)
            && spec_label_group_at(toks, i + 2, label) && j == i + 3,
    }
}

/// Whether the tokens from `i` to `j` spell exactly the given state
/// transition, closed by its `.`: the three spellings carry the three
/// modes.
pub open spec fn spec_transition_at(toks: Seq<Token>, i: int, j: int, t: StateTransition) -> bool {
    ||| (spec_arrow_at(toks, i) && spec_name_at(toks, i + 3, t.to_state) && spec_punct_at(
        toks,
        i + 4,
        '.',
    ) && j == i + 5 && t.mode == TransitionMode::Normal)
    ||| (spec_kw_at(toks, i, "move"@) && spec_arrow_at(toks, i + 1) && spec_name_at(
        toks,
        i + 4,
        t.to_state,
    ) && spec_punct_at(toks, i + 5, '.') && j == i + 6 && t.mode == TransitionMode::EpsilonMove)
    ||| (spec_kw_at(toks, i, "as"@) && spec_kw_at(toks, i + 1, "in"@) && spec_name_at(
        toks,
        i + 2,
        t.to_state,
    ) && spec_punct_at(toks, i + 3, '.') && j == i + 4 && t.mode == TransitionMode::Reconsume)
}

/// Whether the tokens from `i` to `j` spell the given run of action
/// calls followed by the given optional transition, under the
/// terminator discipline: each call before another item ends in `,`,
/// the last call ends in `.` unless a transition follows, and a
/// transition is always the final entry.
pub open spec fn spec_items_at(
    toks: Seq<Token>,
    i: int,
    j: int,
    calls: Seq<ActionCall>,
    tr: Option<StateTransition>,
) -> bool
    decreases calls.len(),
{
    if calls.len() == 0 {
        match tr {
            Some(t) => spec_transition_at(toks, i, j, t),
            None => spec_punct_at(toks, i, '.') && j == i + 1,
        }
    } else {
        exists|m: int|
            #![trigger spec_action_call_at(toks, i, m, calls[0])]
            spec_action_call_at(toks, i, m, calls[0]) && (if calls.len() == 1 && tr is None {
                spec_punct_at(toks, m, '.') && j == m + 1
            } else {
                spec_punct_at(toks, m, ',') && spec_items_at(toks, m + 1, j, calls.drop_first(), tr)
            })
    }
}

/// Whether the tokens from `i` to `j` spell exactly the given
/// directive list.
pub open spec fn spec_directives_at(toks: Seq<Token>, i: int, j: int, d: Directives) -> bool {
    spec_items_at(toks, i, j, d.action_calls@, d.state_transition)
}

/// Reads one action call: a built-in introduced by `@`, or a
/// user-defined action with optional literal arguments and an optional
/// `?` fallibility marker.  An empty argument list is rejected: calls
/// without arguments are written without parentheses.
pub fn parse_action_call(toks: &Vec<Token>, i: usize, end: usize) -> (r: Parsed<ActionCall>)
    ensures
        r is Ok ==> i < r->Ok_0.1 <= toks@.len(),
        r is Ok && (toks@[i as int].kind matches TokenKind::Ident(_)) ==> (r->Ok_0.0 matches
            ActionCall::UserDefined { name, .. } && toks@[i as int].kind == TokenKind::Ident(
            name,
        )),
        (i < toks@.len() && (toks@[i as int].kind matches TokenKind::Ident(nm)
            && !spec_reserved(nm@)) && !(i + 1 < toks@.len() && ((toks@[i + 1].kind matches
            TokenKind::Group { delim: Delim::Paren, .. }) || toks@[i + 1].kind
            == TokenKind::Punct('?')))) ==> (r matches Ok(cj) && cj.1 == i + 1 && (cj.0 matches
            ActionCall::UserDefined { name, args, fallible } && toks@[i as int].kind
            == TokenKind::Ident(name) && args@.len() == 0 && fallible == false)),
        (i < toks@.len() && (toks@[i as int].kind matches TokenKind::Ident(nm)
            && !spec_reserved(nm@)) && (i + 1 < toks@.len() && toks@[i + 1].kind
            == TokenKind::Punct('?'))) ==> (r matches Ok(cj) && cj.1 == i + 2 && (cj.0 matches
            ActionCall::UserDefined { name, args, fallible } && toks@[i as int].kind
            == TokenKind::Ident(name) && args@.len() == 0 && fallible == true)),
        (i < toks@.len() && (toks@[i as int].kind matches TokenKind::Ident(nm)
            && !spec_reserved(nm@)) && (i + 1 < toks@.len() && (toks@[i + 1].kind matches
            TokenKind::Group { delim: Delim::Paren, tokens: ts, .. } && spec_literal_list_tokens(
            ts@,
            0,
        ) is Some))) ==> ({
            let ls = spec_literal_list_tokens(toks@[i + 1].kind->Group_tokens@, 0)->0;
            if ls.len() == 0 {
                r is Err && r->Err_0.message@ == spec_err_msg(
                    toks@,
                    i + 2,
                    "expected at least one action argument (action calls without arguments don't need to have parentheses)"@,
                )
            } else {
                r matches Ok(cj) && (cj.0 matches ActionCall::UserDefined { name, args, fallible }
                    && toks@[i as int].kind == TokenKind::Ident(name) && args@ == ls && fallible
                    == (i + 2 < toks@.len() && toks@[i + 2].kind == TokenKind::Punct('?'))
                    && cj.1 == (if fallible {
                    i + 3
                } else {
                    i + 2
                }))
            }
        }),
        (i < toks@.len() && toks@[i as int].kind == TokenKind::Punct('@')) ==> match r {
            Ok(cj) => (i + 1 < toks@.len() && (toks@[i + 1].kind matches TokenKind::Ident(b)
                && ((b@ == "back"@ && cj.0 == ActionCall::Back && cj.1 == i + 2) || (b@
                == "mark"@ && cj.1 == i + 3 && (cj.0 matches ActionCall::Mark(l)
                && spec_label_group_at(toks@, i + 2, l))) || (b@ == "start"@ && cj.1 == i + 3
                && (cj.0 matches ActionCall::Start(l) && spec_label_group_at(toks@, i + 2, l)))
                || (b@ == "end"@ && cj.1 == i + 3 && (cj.0 matches ActionCall::End(l)
                && spec_label_group_at(toks@, i + 2, l)))))),
            Err(e) => true,
        },
        r is Ok ==> spec_action_call_at(toks@, i as int, r->Ok_0.1 as int, r->Ok_0.0),
        (i < toks@.len() && toks@[i as int].kind == TokenKind::Punct('@') && (i + 1
            < toks@.len() && (toks@[i + 1].kind matches TokenKind::Ident(b) && !spec_reserved(
            b@,
        ) && b@ != "mark"@ && b@ != "start"@ && b@ != "end"@ && b@ != "back"@))) ==> (r is Err
            && r->Err_0.pos == toks@[i + 1].pos && r->Err_0.message@
            == "unknown built-in directive"@),
        (i < toks@.len() && toks@[i as int].kind == TokenKind::Punct('@') && (i + 1
            < toks@.len() && (toks@[i + 1].kind matches TokenKind::Ident(b) && (b@ == "back"@
            || ((b@ == "mark"@ || b@ == "start"@ || b@ == "end"@) && i + 2 < toks@.len() && (
            toks@[i + 2].kind matches TokenKind::Group {
                delim: Delim::Paren,
                tokens: ts,
                ..
            } && ts@.len() == 1 && (ts@[0].kind matches TokenKind::Ident(l) && !spec_reserved(
                l@,
            )))))))) ==> r is Ok,
{
    proof {
        reveal_strlit("mark");
        reveal_strlit("start");
        reveal_strlit("end");
        reveal_strlit("back");
        reveal_strlit("as");
        reveal_strlit("else");
        reveal_strlit("if");
        reveal_strlit("in");
        reveal_strlit("move");
        reveal_strlit("true");
        reveal_strlit("false");
        assert("mark"@ =~= seq!['m', 'a', 'r', 'k']);
        assert("start"@ =~= seq!['s', 't', 'a', 'r', 't']);
        assert("end"@ =~= seq!['e', 'n', 'd']);
        assert("back"@ =~= seq!['b', 'a', 'c', 'k']);
        assert("as"@ =~= seq!['a', 's']);
        assert("else"@ =~= seq!['e', 'l', 's', 'e']);
        assert("if"@ =~= seq!['i', 'f']);
        assert("in"@ =~= seq!['i', 'n']);
        assert("move"@ =~= seq!['m', 'o', 'v', 'e']);
        assert("true"@ =~= seq!['t', 'r', 'u', 'e']);
        assert("false"@ =~= seq!['f', 'a', 'l', 's', 'e']);
        assert(!spec_reserved("mark"@) && !spec_reserved("start"@) && !spec_reserved("end"@)
            && !spec_reserved("back"@));
    }
    let _n: usize = toks.len();
    if peek_punct(toks, i, '@') {
        match parse_name(toks, i + 1, end) {
            Ok((name, j)) => {
                if string_eq_str(&name, "mark") {
                    match parse_label_arg(toks, j, end) {
                        Ok((label, k)) => Ok((ActionCall::Mark(label), k)),
                        Err(e) => Err(e),
                    }
                } else if string_eq_str(&name, "start") {
                    match parse_label_arg(toks, j, end) {
                        Ok((label, k)) => Ok((ActionCall::Start(label), k)),
                        Err(e) => Err(e),
                    }
                } else if string_eq_str(&name, "end") {
                    match parse_label_arg(toks, j, end) {
                        Ok((label, k)) => Ok((ActionCall::End(label), k)),
                        Err(e) => Err(e),
                    }
                } else if string_eq_str(&name, "back") {
                    Ok((ActionCall::Back, j))
                } else {
                    Err(ParseError::new(toks[i + 1].pos, "unknown built-in directive"))
                }
            },
            Err(e) => Err(e),
        }
    } else {
        match parse_name(toks, i, end) {
            Ok((name, j)) => {
                let mut k: usize = j;
                let mut args: Vec<Literal> = Vec::new();
                if k < toks.len() {
                    match &toks[k].kind {
                        TokenKind::Group { delim: Delim::Paren, tokens, close_pos } => {
                            match parse_literal_args(tokens, *close_pos) {
                                Ok(parsed) => {
                                    if parsed.len() == 0 {
                                        return Err(
                                            err_at(
                                                toks,
                                                k + 1,
                                                end,
                                                "expected at least one action argument (action calls without arguments don't need to have parentheses)",
                                            ),
                                        );
                                    }
                                    args = parsed;
                                    k = k + 1;
                                },
                                Err(e) => {
                                    return Err(e);
                                },
                            }
                        },
                        _ => {},
                    }
                }
                let fallible = peek_punct(toks, k, '?');
                if fallible {
                    k = k + 1;
                }
                Ok((ActionCall::UserDefined { name, args, fallible }, k))
            },
            Err(e) => Err(e),
        }
    }
}

/// Reads the destination of a state transition and the closing `.` of
/// the directive list; the transition must be the last entry.  A
/// transition terminated like an action, by a semicolon, gets its own
/// message; anything else after the destination is the generic missing
/// period.
fn parse_transition_dest(toks: &Vec<Token>, i: usize, end: usize, mode: TransitionMode) -> (r:
    Parsed<StateTransition>)
    ensures
        r is Ok ==> i < r->Ok_0.1 <= toks@.len(),
        r is Ok ==> r->Ok_0.1 == i + 2 && (toks@[i as int].kind matches TokenKind::Ident(s)
            && r->Ok_0.0.to_state == s) && r->Ok_0.0.mode == mode && toks@[i + 1].kind
            == TokenKind::Punct('.'),
        r is Ok <==> (i < toks@.len() && (toks@[i as int].kind matches TokenKind::Ident(s)
            && !spec_reserved(s@)) && i + 1 < toks@.len() && toks@[i + 1].kind
            == TokenKind::Punct('.')),
        (r is Err && !(i < toks@.len() && (toks@[i as int].kind matches TokenKind::Ident(s)
            && !spec_reserved(s@)))) ==> r->Err_0.pos == spec_err_pos(toks@, i as int, end) && r
            ->Err_0.message@ == spec_err_msg(toks@, i as int, "expected identifier"@),
        (r is Err && (i < toks@.len() && (toks@[i as int].kind matches TokenKind::Ident(s)
            && !spec_reserved(s@))) && i + 1 < toks@.len() && toks@[i + 1].kind
            == TokenKind::Punct(';')) ==> r->Err_0.pos == toks@[i + 1].pos && r
            ->Err_0.message@
            == "state transition don't need to be terminated by a semicolon"@,
        (r is Err && (i < toks@.len() && (toks@[i as int].kind matches TokenKind::Ident(s)
            && !spec_reserved(s@))) && !(i + 1 < toks@.len() && (toks@[i + 1].kind
            == TokenKind::Punct('.') || toks@[i + 1].kind == TokenKind::Punct(';')))) ==> r
            ->Err_0.pos == spec_err_pos(toks@, i + 1, end) && r->Err_0.message@
            == spec_err_msg(toks@, i + 1, "expected `.`"@),
{
    let _n: usize = toks.len();
    match parse_name(toks, i, end) {
        Ok((to_state, j)) => {
            if peek_punct(toks, j, '.') {
                Ok((StateTransition { to_state, mode }, j + 1))
            } else if peek_punct(toks, j, ';') {
                Err(
                    ParseError::new(
                        toks[j].pos,
                        "state transition don't need to be terminated by a semicolon",
                    ),
                )
            } else {
                Err(err_at(toks, j, end, "expected `.`"))
            }
        },
        Err(e) => Err(e),
    }
}

/// Whether the token at `i` is exactly the given word of the surface
/// syntax.
pub open spec fn spec_kw_at(toks: Seq<Token>, i: int, kw: Seq<char>) -> bool {
    i < toks.len() && (toks[i].kind matches TokenKind::Ident(s) && s@ == kw)
}

/// Whether the token at `i` can start a directive item: a transition
/// in one of its three spellings, or an action call (a name or a
/// built-in's `@`).
pub open spec fn spec_directive_item_starts(toks: Seq<Token>, i: int) -> bool {
    spec_arrow_at(toks, i) || spec_kw_at(toks, i, "move"@) || (spec_kw_at(toks, i, "as"@)
        && spec_kw_at(toks, i + 1, "in"@)) || (i < toks.len() && ((toks[i].kind matches
        TokenKind::Ident(s) && !spec_reserved(s@)) || toks[i].kind == TokenKind::Punct('@')))
}

/// Reads a directive list: `.` alone for the empty list, otherwise
/// action calls each terminated by `,` (more follow) or `.` (the list
/// ends), with an optional state transition as the last entry:
/// `--> state.` switches normally, `as in state.` re-offers the
/// matched byte, and `move --> state.` moves without touching a byte.
pub fn parse_directives(toks: &Vec<Token>, i: usize, end: usize) -> (r: Parsed<Directives>)
    ensures
        r is Ok ==> i < r->Ok_0.1 <= toks@.len(),
        r is Ok ==> toks@[r->Ok_0.1 - 1].kind == TokenKind::Punct('.'),
        (i < toks@.len() && toks@[i as int].kind == TokenKind::Punct('.')) ==> (r matches Ok(dj)
            && dj.1 == i + 1 && dj.0.action_calls@.len() == 0
            && dj.0.state_transition is None),
        (spec_arrow_at(toks@, i as int) && (i + 3 < toks@.len() && (toks@[i + 3].kind matches
            TokenKind::Ident(s) && !spec_reserved(s@))) && i + 4 < toks@.len() && toks@[
            i + 4].kind == TokenKind::Punct('.')) ==> (r matches Ok(dj) && dj.1 == i + 5
            && dj.0.action_calls@.len() == 0 && (dj.0.state_transition matches Some(t) && t.mode
            == TransitionMode::Normal && t.to_state == toks@[i + 3].kind->Ident_0)),
        (spec_kw_at(toks@, i as int, "move"@) && spec_arrow_at(toks@, i + 1) && (i + 4
            < toks@.len() && (toks@[i + 4].kind matches TokenKind::Ident(s) && !spec_reserved(
            s@,
        ))) && i + 5 < toks@.len() && toks@[i + 5].kind == TokenKind::Punct('.')) ==> (r
            matches Ok(dj) && dj.1 == i + 6 && dj.0.action_calls@.len() == 0 && (
        dj.0.state_transition matches Some(t) && t.mode == TransitionMode::EpsilonMove
            && t.to_state == toks@[i + 4].kind->Ident_0)),
        (spec_kw_at(toks@, i as int, "as"@) && spec_kw_at(toks@, i + 1, "in"@) && (i + 2
            < toks@.len() && (toks@[i + 2].kind matches TokenKind::Ident(s) && !spec_reserved(
            s@,
        ))) && i + 3 < toks@.len() && toks@[i + 3].kind == TokenKind::Punct('.')) ==> (r
            matches Ok(dj) && dj.1 == i + 4 && dj.0.action_calls@.len() == 0 && (
        dj.0.state_transition matches Some(t) && t.mode == TransitionMode::Reconsume
            && t.to_state == toks@[i + 2].kind->Ident_0)),
        ((i < toks@.len() && (toks@[i as int].kind matches TokenKind::Ident(nm)
            && !spec_reserved(nm@))) && i + 1 < toks@.len() && toks@[i + 1].kind
            == TokenKind::Punct('.')) ==> (r matches Ok(dj) && dj.1 == i + 2
            && dj.0.state_transition is None && dj.0.action_calls@.len() == 1 && (
        dj.0.action_calls@[0] matches ActionCall::UserDefined { name, args, fallible } && toks@[
            i as int].kind == TokenKind::Ident(name) && args@.len() == 0 && fallible == false)),
        (!(i < toks@.len() && toks@[i as int].kind == TokenKind::Punct('.'))
            && !spec_directive_item_starts(toks@, i as int)) ==> (r is Err && r->Err_0.pos
            == spec_err_pos(toks@, i as int, end) && r->Err_0.message@ == spec_err_msg(
            toks@,
            i as int,
            "match arm directives should consist of zero or more colon-terminated action calls with an optional trailing state transition (`--> {state}`)"@,
        )),
        r is Ok ==> spec_directives_at(toks@, i as int, r->Ok_0.1 as int, r->Ok_0.0),
        (spec_arrow_at(toks@, i as int) && !(i + 3 < toks@.len() && (toks@[i + 3].kind matches
            TokenKind::Ident(s) && !spec_reserved(s@)))) ==> (r is Err && r->Err_0.pos
            == spec_err_pos(toks@, i + 3, end) && r->Err_0.message@ == spec_err_msg(
            toks@,
            i + 3,
            "expected identifier"@,
        )),
        (spec_arrow_at(toks@, i as int) && (i + 3 < toks@.len() && (toks@[i + 3].kind matches
            TokenKind::Ident(s) && !spec_reserved(s@))) && spec_punct_at(toks@, i + 4, ';'))
            ==> (r is Err && r->Err_0.pos == toks@[i + 4].pos && r->Err_0.message@
            == "state transition don't need to be terminated by a semicolon"@),
        (spec_arrow_at(toks@, i as int) && (i + 3 < toks@.len() && (toks@[i + 3].kind matches
            TokenKind::Ident(s) && !spec_reserved(s@))) && !spec_punct_at(toks@, i + 4, '.')
            && !spec_punct_at(toks@, i + 4, ';')) ==> (r is Err && r->Err_0.pos
            == spec_err_pos(toks@, i + 4, end) && r->Err_0.message@ == spec_err_msg(
            toks@,
            i + 4,
            "expected `.`"@,
        )),
        ((i < toks@.len() && (toks@[i as int].kind matches TokenKind::Ident(nm)
            && !spec_reserved(nm@))) && !(i + 1 < toks@.len() && ((toks@[i + 1].kind matches
            TokenKind::Group { delim: Delim::Paren, .. }) || toks@[i + 1].kind
            == TokenKind::Punct('?') || toks@[i + 1].kind == TokenKind::Punct(',') || toks@[
            i + 1].kind == TokenKind::Punct('.')))) ==> (r is Err && r->Err_0.pos
            == spec_err_pos(toks@, i + 1, end) && r->Err_0.message@ == spec_err_msg(
            toks@,
            i + 1,
            "expected `,` or `.`"@,
        )),
{
    let _n: usize = toks.len();
    let mut action_calls: Vec<ActionCall> = Vec::new();
    if peek_punct(toks, i, '.') {
        return Ok((Directives { action_calls, state_transition: None }, i + 1));
    }
    let mut k: usize = i;
    proof {
        assert forall|jj: int, rest: Seq<ActionCall>, tr: Option<StateTransition>|
            ((rest.len() > 0 || tr is Some) && #[trigger] spec_items_at(
                toks@,
                k as int,
                jj,
                rest,
                tr,
            )) implies spec_items_at(toks@, i as int, jj, action_calls@ + rest, tr) by {
            assert(action_calls@ + rest =~= rest);
        }
    }
    loop
        invariant
            i <= k,
            toks@.len() <= usize::MAX,
            !(i < toks@.len() && toks@[i as int].kind == TokenKind::Punct('.')),
            ((spec_arrow_at(toks@, i as int) && (i + 3 < toks@.len() && (toks@[i + 3].kind
                matches TokenKind::Ident(s) && !spec_reserved(s@))) && i + 4 < toks@.len()
                && toks@[i + 4].kind == TokenKind::Punct('.')) || (spec_kw_at(
                toks@,
                i as int,
                "move"@,
            ) && spec_arrow_at(toks@, i + 1) && (i + 4 < toks@.len() && (toks@[i + 4].kind
                matches TokenKind::Ident(s) && !spec_reserved(s@))) && i + 5 < toks@.len()
                && toks@[i + 5].kind == TokenKind::Punct('.')) || (spec_kw_at(
                toks@,
                i as int,
                "as"@,
            ) && spec_kw_at(toks@, i + 1, "in"@) && (i + 2 < toks@.len() && (toks@[i + 2].kind
                matches TokenKind::Ident(s) && !spec_reserved(s@))) && i + 3 < toks@.len()
                && toks@[i + 3].kind == TokenKind::Punct('.')) || ((i < toks@.len() && (toks@[
                i as int].kind matches TokenKind::Ident(nm) && !spec_reserved(nm@))) && i + 1
                < toks@.len() && toks@[i + 1].kind == TokenKind::Punct('.'))
                || !spec_directive_item_starts(toks@, i as int) || (spec_arrow_at(
                toks@,
                i as int,
            ) && !(i + 3 < toks@.len() && (toks@[i + 3].kind matches TokenKind::Ident(s)
                && !spec_reserved(s@)))) || (spec_arrow_at(toks@, i as int) && (i + 3
                < toks@.len() && (toks@[i + 3].kind matches TokenKind::Ident(s)
                && !spec_reserved(s@))) && !spec_punct_at(toks@, i + 4, '.')) || ((i
                < toks@.len() && (toks@[i as int].kind matches TokenKind::Ident(nm)
                && !spec_reserved(nm@))) && !(i + 1 < toks@.len() && ((toks@[i + 1].kind
                matches TokenKind::Group { delim: Delim::Paren, .. }) || toks@[i + 1].kind
                == TokenKind::Punct('?') || toks@[i + 1].kind == TokenKind::Punct(',') || toks@[
                i + 1].kind == TokenKind::Punct('.'))))) ==> (k == i && action_calls@.len()
                == 0),
            forall|jj: int, rest: Seq<ActionCall>, tr: Option<StateTransition>|
                ((rest.len() > 0 || tr is Some) && #[trigger] spec_items_at(
                    toks@,
                    k as int,
                    jj,
                    rest,
                    tr,
                )) ==> spec_items_at(toks@, i as int, jj, action_calls@ + rest, tr),
        decreases toks@.len() - k,
    {
        proof {
            reveal_strlit("move");
            reveal_strlit("as");
            reveal_strlit("in");
            assert("move"@ =~= seq!['m', 'o', 'v', 'e']);
            assert("as"@ =~= seq!['a', 's']);
            assert("in"@ =~= seq!['i', 'n']);
        }
        if peek_kw(toks, k, "move") {
            if !peek_punct(toks, k + 1, '-') {
                return Err(err_at(toks, k + 1, end, "expected `-`"));
            }
            if !peek_punct(toks, k + 2, '-') {
                return Err(err_at(toks, k + 2, end, "expected `-`"));
            }
            if !peek_punct(toks, k + 3, '>') {
                return Err(err_at(toks, k + 3, end, "expected `>`"));
            }
            match parse_transition_dest(toks, k + 4, end, TransitionMode::EpsilonMove) {
                Ok((t, j)) => {
                    proof {
                        assert(spec_transition_at(toks@, k as int, j as int, t));
                        assert(spec_items_at(
                            toks@,
                            k as int,
                            j as int,
                            Seq::<ActionCall>::empty(),
                            Some(t),
                        ));
                        assert(action_calls@ + Seq::<ActionCall>::empty() =~= action_calls@);
                    }
                    return Ok(
                        (Directives { action_calls, state_transition: Some(t) }, j),
                    );
                },
                Err(e) => {
                    return Err(e);
                },
            }
        } else if peek_arrow(toks, k) {
            match parse_transition_dest(toks, k + 3, end, TransitionMode::Normal) {
                Ok((t, j)) => {
                    proof {
                        assert(spec_transition_at(toks@, k as int, j as int, t));
                        assert(spec_items_at(
                            toks@,
                            k as int,
                            j as int,
                            Seq::<ActionCall>::empty(),
                            Some(t),
                        ));
                        assert(action_calls@ + Seq::<ActionCall>::empty() =~= action_calls@);
                    }
                    return Ok(
                        (Directives { action_calls, state_transition: Some(t) }, j),
                    );
                },
                Err(e) => {
                    return Err(e);
                },
            }
        } else if peek_kw(toks, k, "as") && peek_kw(toks, k + 1, "in") {
            match parse_transition_dest(toks, k + 2, end, TransitionMode::Reconsume) {
                Ok((t, j)) => {
                    proof {
                        assert(spec_transition_at(toks@, k as int, j as int, t));
                        assert(spec_items_at(
                            toks@,
                            k as int,
                            j as int,
                            Seq::<ActionCall>::empty(),
                            Some(t),
                        ));
                        assert(action_calls@ + Seq::<ActionCall>::empty() =~= action_calls@);
                    }
                    return Ok(
                        (Directives { action_calls, state_transition: Some(t) }, j),
                    );
                },
                Err(e) => {
                    return Err(e);
                },
            }
        } else if peek_name(toks, k) || peek_punct(toks, k, '@') {
            let ghost k0 = k as int;
            let ghost pre_calls = action_calls@;
            match parse_action_call(toks, k, end) {
                Ok((call, j)) => {
                    action_calls.push(call);
                    if peek_punct(toks, j, ',') {
                        k = j + 1;
                        proof {
                            assert forall|jj: int, rest: Seq<ActionCall>, tr: Option<
                                StateTransition,
                            >|
                                ((rest.len() > 0 || tr is Some) && #[trigger] spec_items_at(
                                    toks@,
                                    k as int,
                                    jj,
                                    rest,
                                    tr,
                                )) implies spec_items_at(
                                toks@,
                                i as int,
                                jj,
                                action_calls@ + rest,
                                tr,
                            ) by {
                                let grown = seq![call] + rest;
                                assert(grown[0] == call);
                                assert(grown.drop_first() =~= rest);
                                assert(spec_action_call_at(toks@, k0, j as int, grown[0]));
                                assert(spec_items_at(toks@, k0, jj, grown, tr));
                                assert(grown.len() > 0);
                                assert(spec_items_at(toks@, i as int, jj, pre_calls + grown, tr));
                                assert(pre_calls + grown =~= action_calls@ + rest);
                            }
                        }
                    } else if peek_punct(toks, j, '.') {
                        proof {
                            let last = seq![call];
                            assert(last[0] == call);
                            assert(spec_action_call_at(toks@, k0, j as int, last[0]));
                            assert(spec_items_at(
                                toks@,
                                k0,
                                j + 1,
                                last,
                                Option::<StateTransition>::None,
                            ));
                            assert(spec_items_at(
                                toks@,
                                i as int,
                                j + 1,
                                pre_calls + last,
                                Option::<StateTransition>::None,
                            ));
                            assert(pre_calls + last =~= action_calls@);
                        }
                        return Ok(
                            (Directives { action_calls, state_transition: None }, j + 1),
                        );
                    } else {
                        return Err(err_at(toks, j, end, "expected `,` or `.`"));
                    }
                },
                Err(e) => {
                    return Err(e);
                },
            }
        } else {
            return Err(
                err_at(
                    toks,
                    k,
                    end,
                    "match arm directives should consist of zero or more colon-terminated action calls with an optional trailing state transition (`--> {state}`)",
                ),
            );
        }
    }
}

/// Whether the token at `k` is a braced group whose content spells
/// exactly the given directive list, wholly consumed.
pub open spec fn spec_braced_directives_at(toks: Seq<Token>, k: int, d: Directives) -> bool {
    k < toks.len() && (toks[k].kind matches TokenKind::Group {
        delim: Delim::Brace,
        tokens: ts,
        ..
    } && spec_directives_at(ts@, 0, ts@.len() as int, d))
}

/// Whether the tokens at `k` spell the given condition branch: its
/// predicate name and its braced directives, two tokens in all.
pub open spec fn spec_branch_at(toks: Seq<Token>, k: int, b: ConditionBranch) -> bool {
    spec_name_at(toks, k, b.condition) && spec_braced_directives_at(toks, k + 1, b.directives)
}

/// Whether the tokens from `k` to `j` spell the given run of `else if`
/// branches followed by the mandatory `else` branch.
pub open spec fn spec_else_chain_at(
    toks: Seq<Token>,
    k: int,
    j: int,
    rest: Seq<ConditionBranch>,
    els: Directives,
) -> bool
    decreases rest.len(),
{
    if rest.len() == 0 {
        spec_kw_at(toks, k, "else"@) && spec_braced_directives_at(toks, k + 1, els) && j == k + 2
    } else {
        spec_kw_at(toks, k, "else"@) && spec_kw_at(toks, k + 1, "if"@) && spec_branch_at(
            toks,
            k + 2,
            rest[0],
        ) && spec_else_chain_at(toks, k + 4, j, rest.drop_first(), els)
    }
}

/// Whether the tokens from `i` to `j` spell the given right-hand side:
/// a directive list, or an `if` chain of branches ending in `else`.
pub open spec fn spec_rhs_at(toks: Seq<Token>, i: int, j: int, rhs: MatchArmRhs) -> bool {
    match rhs {
        MatchArmRhs::Directives(d) => spec_directives_at(toks, i, j, d),
        MatchArmRhs::Condition { if_branch, else_if_branches, else_branch } => spec_kw_at(
            toks,
            i,
            "if"@,
        ) && spec_branch_at(toks, i + 1, if_branch) && spec_else_chain_at(
            toks,
            i + 3,
            j,
            else_if_branches@,
            else_branch,
        ),
    }
}

/// Reads a braced directive list; nothing may follow the list inside
/// the braces.
pub fn parse_braced_directives(toks: &Vec<Token>, i: usize, end: usize) -> (r: Parsed<Directives>)
    ensures
        r is Ok ==> i < r->Ok_0.1 <= toks@.len(),
        r is Ok ==> r->Ok_0.1 == i + 1 && (toks@[i as int].kind matches TokenKind::Group {
            delim: Delim::Brace,
            ..
        }),
        !(i < toks@.len() && (toks@[i as int].kind matches TokenKind::Group {
            delim: Delim::Brace,
            ..
        })) ==> (r is Err && r->Err_0.pos == spec_err_pos(toks@, i as int, end) && r
            ->Err_0.message@ == spec_err_msg(toks@, i as int, "expected curly braces"@)),
        (i < toks@.len() && (toks@[i as int].kind matches TokenKind::Group {
            delim: Delim::Brace,
            tokens: ts,
            ..
        } && ts@.len() == 1 && ts@[0].kind == TokenKind::Punct('.'))) ==> (r matches Ok(dj)
            && dj.1 == i + 1 && dj.0.action_calls@.len() == 0
            && dj.0.state_transition is None),
        (i < toks@.len() && (toks@[i as int].kind matches TokenKind::Group {
            delim: Delim::Brace,
            tokens: ts,
            ..
        } && ts@.len() > 1 && ts@[0].kind == TokenKind::Punct('.'))) ==> (r is Err && r
            ->Err_0.pos == toks@[i as int].kind->Group_tokens@[1].pos && r->Err_0.message@
            == "condition branch shouldn't contain anything besides a single directive list"@),
        r is Ok ==> spec_braced_directives_at(toks@, i as int, r->Ok_0.0),
{
    if i < toks.len() {
        match &toks[i].kind {
            TokenKind::Group { delim: Delim::Brace, tokens, close_pos } => {
                match parse_directives(tokens, 0, *close_pos) {
                    Ok((d, j)) => {
                        if j < tokens.len() {
                            Err(
                                ParseError::new(
                                    tokens[j].pos,
                                    "condition branch shouldn't contain anything besides a single directive list",
                                ),
                            )
                        } else {
                            Ok((d, i + 1))
                        }
                    },
                    Err(e) => Err(e),
                }
            },
            _ => Err(err_at(toks, i, end, "expected curly braces")),
        }
    } else {
        Err(err_at(toks, i, end, "expected curly braces"))
    }
}

/// Reads one condition branch: a predicate name and its braced
/// directive list.
pub fn parse_condition_branch(toks: &Vec<Token>, i: usize, end: usize) -> (r: Parsed<
    ConditionBranch,
>)
    ensures
        r is Ok ==> i < r->Ok_0.1 <= toks@.len(),
        r is Ok ==> r->Ok_0.1 == i + 2 && (toks@[i as int].kind matches TokenKind::Ident(s) && r
            ->Ok_0.0.condition == s) && (toks@[i + 1].kind matches TokenKind::Group {
            delim: Delim::Brace,
            ..
        }),
        !(i < toks@.len() && (toks@[i as int].kind matches TokenKind::Ident(s)
            && !spec_reserved(s@))) ==> (r is Err && r->Err_0.pos == spec_err_pos(
            toks@,
            i as int,
            end,
        ) && r->Err_0.message@ == spec_err_msg(toks@, i as int, "expected identifier"@)),
        ((i < toks@.len() && (toks@[i as int].kind matches TokenKind::Ident(s)
            && !spec_reserved(s@))) && (i + 1 < toks@.len() && (toks@[i + 1].kind matches
            TokenKind::Group { delim: Delim::Brace, tokens: ts, .. } && ts@.len() == 1 && ts@[
            0].kind == TokenKind::Punct('.')))) ==> (r matches Ok(bj) && bj.1 == i + 2
            && bj.0.directives.action_calls@.len() == 0
            && bj.0.directives.state_transition is None),
        r is Ok ==> spec_branch_at(toks@, i as int, r->Ok_0.0),
{
    match parse_name(toks, i, end) {
        Ok((condition, j)) => {
            match parse_braced_directives(toks, j, end) {
                Ok((directives, k)) => Ok((ConditionBranch { condition, directives }, k)),
                Err(e) => Err(e),
            }
        },
        Err(e) => Err(e),
    }
}

/// Reads the right-hand side of an arm: a directive list, or an
/// `if`/`else if`/`else` chain with a mandatory final `else`.
pub fn parse_match_arm_rhs(toks: &Vec<Token>, i: usize, end: usize) -> (r: Parsed<MatchArmRhs>)
    ensures
        r is Ok ==> i < r->Ok_0.1 <= toks@.len(),
        (r is Ok && spec_kw_at(toks@, i as int, "if"@)) ==> (r->Ok_0.0 matches
            MatchArmRhs::Condition { .. }),
        (r is Ok && !spec_kw_at(toks@, i as int, "if"@)) ==> (r->Ok_0.0 matches
            MatchArmRhs::Directives(_)),
        (!spec_kw_at(toks@, i as int, "if"@) && i < toks@.len() && toks@[i as int].kind
            == TokenKind::Punct('.')) ==> (r matches Ok(rj) && rj.1 == i + 1 && (rj.0 matches
            MatchArmRhs::Directives(d) && d.action_calls@.len() == 0
            && d.state_transition is None)),
        r is Ok ==> spec_rhs_at(toks@, i as int, r->Ok_0.1 as int, r->Ok_0.0),
        (spec_kw_at(toks@, i as int, "if"@) && (i + 1 < toks@.len() && (toks@[i + 1].kind
            matches TokenKind::Ident(s) && !spec_reserved(s@))) && (i + 2 < toks@.len() && (
        toks@[i + 2].kind matches TokenKind::Group { delim: Delim::Brace, tokens: ts, .. }
            && ts@.len() == 1 && ts@[0].kind == TokenKind::Punct('.'))) && !spec_kw_at(
            toks@,
            i + 3,
            "else"@,
        )) ==> (r is Err && r->Err_0.pos == spec_err_pos(toks@, i + 3, end) && r
            ->Err_0.message@ == spec_err_msg(toks@, i + 3, "expected `else`"@)),
{
    let _n: usize = toks.len();
    if peek_kw(toks, i, "if") {
        match parse_condition_branch(toks, i + 1, end) {
            Ok((if_branch, j0)) => {
                let mut else_if_branches: Vec<ConditionBranch> = Vec::new();
                let mut k: usize = j0;
                proof {
                    assert forall|jj: int, rest: Seq<ConditionBranch>, els: Directives| #[trigger]
                        spec_else_chain_at(toks@, k as int, jj, rest, els) implies
                        spec_else_chain_at(
                        toks@,
                        i + 3,
                        jj,
                        else_if_branches@ + rest,
                        els,
                    ) by {
                        assert(else_if_branches@ + rest =~= rest);
                    }
                }
                loop
                    invariant
                        i < k <= toks@.len(),
                        toks@.len() <= usize::MAX,
                        spec_kw_at(toks@, i as int, "if"@),
                        spec_branch_at(toks@, i + 1, if_branch),
                        forall|jj: int, rest: Seq<ConditionBranch>, els: Directives| #[trigger]
                            spec_else_chain_at(toks@, k as int, jj, rest, els)
                                ==> spec_else_chain_at(
                                toks@,
                                i + 3,
                                jj,
                                else_if_branches@ + rest,
                                els,
                            ),
                        ((i + 1 < toks@.len() && (toks@[i + 1].kind matches TokenKind::Ident(s)
                            && !spec_reserved(s@))) && (i + 2 < toks@.len() && (toks@[
                            i + 2].kind matches TokenKind::Group {
                            delim: Delim::Brace,
                            tokens: ts,
                            ..
                        } && ts@.len() == 1 && ts@[0].kind == TokenKind::Punct('.')))
                            && !spec_kw_at(toks@, i + 3, "else"@)) ==> k == i + 3,
                    decreases toks@.len() - k,
                {
                    if !peek_kw(toks, k, "else") {
                        return Err(err_at(toks, k, end, "expected `else`"));
                    }
                    if peek_kw(toks, k + 1, "if") {
                        match parse_condition_branch(toks, k + 2, end) {
                            Ok((b, j)) => {
                                let ghost k0 = k as int;
                                let ghost pre_b = else_if_branches@;
                                else_if_branches.push(b);
                                k = j;
                                proof {
                                    assert forall|
                                        jj: int,
                                        rest: Seq<ConditionBranch>,
                                        els: Directives,
                                    | #[trigger]
                                        spec_else_chain_at(toks@, k as int, jj, rest, els)
                                            implies spec_else_chain_at(
                                            toks@,
                                            i + 3,
                                            jj,
                                            else_if_branches@ + rest,
                                            els,
                                        ) by {
                                        let grown = seq![b] + rest;
                                        assert(grown[0] == b);
                                        assert(grown.drop_first() =~= rest);
                                        assert(spec_else_chain_at(toks@, k0, jj, grown, els));
                                        assert(spec_else_chain_at(
                                            toks@,
                                            i + 3,
                                            jj,
                                            pre_b + grown,
                                            els,
                                        ));
                                        assert(pre_b + grown =~= else_if_branches@ + rest);
                                    }
                                }
                            },
                            Err(e) => {
                                return Err(e);
                            },
                        }
                    } else {
                        match parse_braced_directives(toks, k + 1, end) {
                            Ok((else_branch, j)) => {
                                proof {
                                    assert(spec_else_chain_at(
                                        toks@,
                                        k as int,
                                        k + 2,
                                        Seq::<ConditionBranch>::empty(),
                                        else_branch,
                                    ));
                                    assert(else_if_branches@ + Seq::<ConditionBranch>::empty()
                                        =~= else_if_branches@);
                                }
                                return Ok(
                                    (
                                        MatchArmRhs::Condition {
                                            if_branch,
                                            else_if_branches,
                                            else_branch,
                                        },
                                        j,
                                    ),
                                );
                            },
                            Err(e) => {
                                return Err(e);
                            },
                        }
                    }
                }
            },
            Err(e) => Err(e),
        }
    } else {
        match parse_directives(toks, i, end) {
            Ok((d, j)) => Ok((MatchArmRhs::Directives(d), j)),
            Err(e) => Err(e),
        }
    }
}

/// Reads one match arm: a pattern, the `=>` connector, and a right-hand
/// side.
pub fn parse_match_arm(toks: &Vec<Token>, i: usize, end: usize) -> (r: Parsed<MatchArm>)
    ensures
        r is Ok ==> i < r->Ok_0.1 <= toks@.len(),
        ((i < toks@.len() && toks@[i as int].kind == TokenKind::Punct('_')) && (i + 1
            < toks@.len() && toks@[i + 1].kind == TokenKind::Punct('=')) && (i + 2
            < toks@.len() && toks@[i + 2].kind == TokenKind::Punct('>')) && (i + 3
            < toks@.len() && toks@[i + 3].kind == TokenKind::Punct('.'))) ==> (r matches Ok(aj)
            && aj.1 == i + 4 && aj.0.pattern == Pattern::Any && (aj.0.rhs matches
            MatchArmRhs::Directives(d) && d.action_calls@.len() == 0
            && d.state_transition is None)),
        ((i < toks@.len() && toks@[i as int].kind == TokenKind::Punct('_')) && !((i + 1
            < toks@.len() && toks@[i + 1].kind == TokenKind::Punct('=')) && (i + 2
            < toks@.len() && toks@[i + 2].kind == TokenKind::Punct('>')))) ==> (r is Err && r
            ->Err_0.pos == spec_err_pos(toks@, i + 1, end) && r->Err_0.message@
            == spec_err_msg(toks@, i + 1, "expected `=>`"@)),
        r is Ok ==> spec_arm_at(toks@, i as int, r->Ok_0.1 as int, r->Ok_0.0),
{
    let _n: usize = toks.len();
    match parse_pattern(toks, i, end) {
        Ok((pattern, j)) => {
            if peek_punct(toks, j, '=') && peek_punct(toks, j + 1, '>') {
                match parse_match_arm_rhs(toks, j + 2, end) {
                    Ok((rhs, k)) => Ok((MatchArm { pattern, rhs }, k)),
                    Err(e) => Err(e),
                }
            } else {
                Err(err_at(toks, j, end, "expected `=>`"))
            }
        },
        Err(e) => Err(e),
    }
}

/// Whether the tokens at `i` start the next state definition: a name
/// followed by `:`.
fn peek_state_name(toks: &Vec<Token>, i: usize) -> (r: bool)
    ensures
        r == ((i < toks@.len() && (toks@[i as int].kind matches TokenKind::Ident(s)
            && !spec_reserved(s@))) && spec_punct_at(toks@, i + 1, ':')),
{
    let _n: usize = toks.len();
    peek_name(toks, i) && peek_punct(toks, i + 1, ':')
}

/// Reads one state definition: a name, `:`, and arms up to the next
/// state name or the end of the buffer.  A state has at least one arm.
/// Whether the tokens from `i` to the end of the buffer spell the
/// smallest state: a name, a colon, and one wildcard arm with the
/// empty directive list.
pub open spec fn spec_smallest_state(toks: Seq<Token>, i: int) -> bool {
    &&& i < toks.len() && (toks[i].kind matches TokenKind::Ident(s) && !spec_reserved(s@))
    &&& toks.len() == i + 6
    &&& toks[i + 1].kind == TokenKind::Punct(':')
    &&& toks[i + 2].kind == TokenKind::Punct('_')
    &&& toks[i + 3].kind == TokenKind::Punct('=')
    &&& toks[i + 4].kind == TokenKind::Punct('>')
    &&& toks[i + 5].kind == TokenKind::Punct('.')
}

pub fn parse_state(toks: &Vec<Token>, i: usize, end: usize) -> (r: Parsed<State>)
    ensures
        r is Ok ==> i < r->Ok_0.1 <= toks@.len(),
        r is Ok ==> r->Ok_0.0.arms@.len() > 0,
        r is Ok ==> (toks@[i as int].kind matches TokenKind::Ident(s) && r->Ok_0.0.name == s),
        r is Ok ==> toks@[i + 1].kind == TokenKind::Punct(':'),
        !(i < toks@.len() && (toks@[i as int].kind matches TokenKind::Ident(s)
            && !spec_reserved(s@))) ==> (r is Err && r->Err_0.pos == spec_err_pos(
            toks@,
            i as int,
            end,
        ) && r->Err_0.message@ == spec_err_msg(toks@, i as int, "expected identifier"@)),
        spec_smallest_state(toks@, i as int) ==> (r matches Ok(sj) && sj.1 == i + 6
            && sj.0.arms@.len() == 1 && sj.0.arms@[0].pattern == Pattern::Any && (
        sj.0.arms@[0].rhs matches MatchArmRhs::Directives(d) && d.action_calls@.len() == 0
            && d.state_transition is None)),
        r is Ok ==> spec_state_at(toks@, i as int, r->Ok_0.1 as int, r->Ok_0.0),
{
    let _n: usize = toks.len();
    match parse_name(toks, i, end) {
        Ok((name, j0)) => {
            if !peek_punct(toks, j0, ':') {
                return Err(err_at(toks, j0, end, "expected `:`"));
            }
            let mut arms: Vec<MatchArm> = Vec::new();
            let mut k: usize = j0 + 1;
            proof {
                assert forall|jj: int, rest: Seq<MatchArm>| #[trigger]
                    spec_arms_at(toks@, k as int, jj, rest) implies spec_arms_at(
                    toks@,
                    i + 2,
                    jj,
                    arms@ + rest,
                ) by {
                    assert(arms@ + rest =~= rest);
                }
            }
            loop
                invariant
                    i < k <= toks@.len(),
                    (toks@[i as int].kind matches TokenKind::Ident(s) && name == s
                        && !spec_reserved(s@)),
                    toks@[i + 1].kind == TokenKind::Punct(':'),
                    spec_smallest_state(toks@, i as int) ==> (k == i + 2 && arms@.len() == 0),
                    forall|jj: int, rest: Seq<MatchArm>| #[trigger]
                        spec_arms_at(toks@, k as int, jj, rest) ==> spec_arms_at(
                            toks@,
                            i + 2,
                            jj,
                            arms@ + rest,
                        ),
                decreases toks@.len() - k,
            {
                match parse_match_arm(toks, k, end) {
                    Ok((arm, j)) => {
                        let ghost k0 = k as int;
                        let ghost pre_arms = arms@;
                        arms.push(arm);
                        k = j;
                        proof {
                            assert forall|jj: int, rest: Seq<MatchArm>| #[trigger]
                                spec_arms_at(toks@, k as int, jj, rest) implies spec_arms_at(
                                toks@,
                                i + 2,
                                jj,
                                arms@ + rest,
                            ) by {
                                let grown = seq![arm] + rest;
                                assert(grown[0] == arm);
                                assert(grown.drop_first() =~= rest);
                                assert(spec_arm_at(toks@, k0, k as int, grown[0]));
                                assert(spec_arms_at(toks@, k0, jj, grown));
                                assert(spec_arms_at(toks@, i + 2, jj, pre_arms + grown));
                                assert(pre_arms + grown =~= arms@ + rest);
                            }
                        }
                    },
                    Err(e) => {
                        return Err(e);
                    },
                }
                if k >= toks.len() || peek_state_name(toks, k) {
                    proof {
                        assert(spec_arms_at(toks@, k as int, k as int, Seq::<MatchArm>::empty()));
                        assert(arms@ + Seq::<MatchArm>::empty() =~= arms@);
                        assert(arms@.len() > 0);
                    }
                    return Ok((State { name, arms }, k));
                }
            }
        },
        Err(e) => Err(e),
    }
}

/// Reads a whole grammar: a name, `=`, and a braced nonempty list of
/// states.
#[verifier::rlimit(60)]
pub fn parse_grammar(toks: &Vec<Token>, i: usize, end: usize) -> (r: Parsed<Grammar>)
    ensures
        r is Ok ==> i < r->Ok_0.1 <= toks@.len(),
        r is Ok ==> r->Ok_0.0.states@.len() > 0,
        r is Ok ==> forall|k: int|
            0 <= k < r->Ok_0.0.states@.len() ==> (#[trigger] r->Ok_0.0.states@[k]).arms@.len()
                > 0,
        r is Ok ==> (toks@[i as int].kind matches TokenKind::Ident(s) && r->Ok_0.0.name == s),
        r is Ok ==> toks@[i + 1].kind == TokenKind::Punct('=') && (toks@[i + 2].kind matches
            TokenKind::Group { delim: Delim::Brace, .. }) && r->Ok_0.1 == i + 3,
        !(i < toks@.len() && (toks@[i as int].kind matches TokenKind::Ident(s)
            && !spec_reserved(s@))) ==> (r is Err && r->Err_0.pos == spec_err_pos(
            toks@,
            i as int,
            end,
        ) && r->Err_0.message@ == spec_err_msg(toks@, i as int, "expected identifier"@)),
        ((i < toks@.len() && (toks@[i as int].kind matches TokenKind::Ident(s)
            && !spec_reserved(s@))) && (i + 1 < toks@.len() && toks@[i + 1].kind
            == TokenKind::Punct('=')) && (i + 2 < toks@.len() && (toks@[i + 2].kind matches
            TokenKind::Group { delim: Delim::Brace, tokens: ts, .. } && spec_smallest_state(
            ts@,
            0,
        )))) ==> (r matches Ok(gj) && gj.1 == i + 3 && gj.0.states@.len() == 1 && ({
            let ts = toks@[i + 2].kind->Group_tokens;
            &&& gj.0.states@[0].name == ts@[0].kind->Ident_0
            &&& gj.0.states@[0].arms@.len() == 1
            &&& gj.0.states@[0].arms@[0].pattern == Pattern::Any
        })),
        r is Ok ==> spec_grammar_at(toks@, i as int, r->Ok_0.1 as int, r->Ok_0.0),
        ((i < toks@.len() && (toks@[i as int].kind matches TokenKind::Ident(s)
            && !spec_reserved(s@))) && (i + 1 < toks@.len() && toks@[i + 1].kind
            == TokenKind::Punct('=')) && (i + 2 < toks@.len() && (toks@[i + 2].kind matches
            TokenKind::Group { delim: Delim::Brace, tokens: ts, .. } && ts@.len() == 0))) ==> (
        r is Err && r->Err_0.pos == toks@[i + 2].kind->Group_close_pos && r->Err_0.message@
            == "unexpected end of input, "@ + "expected identifier"@),
{
    let _n: usize = toks.len();
    match parse_name(toks, i, end) {
        Ok((name, j0)) => {
            if !peek_punct(toks, j0, '=') {
                return Err(err_at(toks, j0, end, "expected `=`"));
            }
            let j1 = j0 + 1;
            if j1 < toks.len() {
                match &toks[j1].kind {
                    TokenKind::Group { delim: Delim::Brace, tokens, close_pos } => {
                        let mut states: Vec<State> = Vec::new();
                        let mut k: usize = 0;
                        proof {
                            assert forall|jj: int, rest: Seq<State>| #[trigger]
                                spec_states_at(tokens@, k as int, jj, rest) implies
                                spec_states_at(tokens@, 0, jj, states@ + rest) by {
                                assert(states@ + rest =~= rest);
                            }
                        }
                        loop
                            invariant
                                k <= tokens@.len(),
                                i < j1 < toks@.len(),
                                j1 == i + 2,
                                toks@.len() <= usize::MAX,
                                (toks@[i as int].kind matches TokenKind::Ident(s) && name == s
                                    && !spec_reserved(s@)),
                                toks@[i + 1].kind == TokenKind::Punct('='),
                                (toks@[j1 as int].kind matches TokenKind::Group {
                                    delim: Delim::Brace,
                                    ..
                                }),
                                toks@[j1 as int].kind->Group_tokens@ == tokens@,
                                toks@[j1 as int].kind->Group_close_pos == *close_pos,
                                tokens@.len() == 0 ==> k == 0,
                                spec_smallest_state(tokens@, 0) ==> (k == 0 && states@.len()
                                    == 0),
                                forall|q: int|
                                    0 <= q < states@.len() ==> (#[trigger] states@[
                                        q]).arms@.len() > 0,
                                forall|jj: int, rest: Seq<State>| #[trigger]
                                    spec_states_at(tokens@, k as int, jj, rest)
                                        ==> spec_states_at(tokens@, 0, jj, states@ + rest),
                            decreases tokens@.len() - k,
                        {
                            match parse_state(tokens, k, *close_pos) {
                                Ok((state, j)) => {
                                    let ghost k0 = k as int;
                                    let ghost pre_states = states@;
                                    states.push(state);
                                    k = j;
                                    proof {
                                        assert forall|jj: int, rest: Seq<State>| #[trigger]
                                            spec_states_at(tokens@, k as int, jj, rest) implies
                                            spec_states_at(tokens@, 0, jj, states@ + rest) by {
                                            let grown = seq![state] + rest;
                                            assert(grown[0] == state);
                                            assert(grown.drop_first() =~= rest);
                                            assert(spec_state_at(tokens@, k0, k as int, grown[0]));
                                            assert(spec_states_at(tokens@, k0, jj, grown));
                                            assert(spec_states_at(
                                                tokens@,
                                                0,
                                                jj,
                                                pre_states + grown,
                                            ));
                                            assert(pre_states + grown =~= states@ + rest);
                                        }
                                    }
                                },
                                Err(e) => {
                                    return Err(e);
                                },
                            }
                            if k >= tokens.len() {
                                proof {
                                    assert(k as int == tokens@.len() as int);
                                    assert(spec_states_at(
                                        tokens@,
                                        k as int,
                                        k as int,
                                        Seq::<State>::empty(),
                                    ));
                                    assert(states@ + Seq::<State>::empty() =~= states@);
                                    assert(states@.len() > 0);
                                }
                                return Ok((Grammar { name, states }, j1 + 1));
                            }
                        }
                    },
                    _ => Err(err_at(toks, j1, end, "expected curly braces")),
                }
            } else {
                Err(err_at(toks, j1, end, "expected curly braces"))
            }
        },
        Err(e) => Err(e),
    }
}

/// Demands that a parsing step consumed every token.
fn finish<T>(toks: &Vec<Token>, r: Parsed<T>) -> (out: Result<T, ParseError>)
    ensures
        out is Ok ==> (r matches Ok(xj) && out->Ok_0 == xj.0 && xj.1 >= toks@.len()),
{
    match r {
        Ok((x, j)) => {
            if j < toks.len() {
                Err(ParseError::new(toks[j].pos, "unexpected token"))
            } else {
                Ok(x)
            }
        },
        Err(e) => Err(e),
    }
}

/// Parses a whole grammar from source text: the lexer turns the text
/// into tokens, `parse_grammar` reads them, and anything left over is
/// an error.  The binding contracts live on the token-level functions;
/// this layer restates the model facts that survive the composition.
pub fn parse_grammar_str(src: &str) -> (r: Result<Grammar, ParseError>)
    ensures
        r is Ok ==> r->Ok_0.states@.len() > 0,
        r is Ok ==> forall|k: int|
            0 <= k < r->Ok_0.states@.len() ==> (#[trigger] r->Ok_0.states@[k]).arms@.len() > 0,
{
    match lex(src) {
        Ok((toks, end)) => {
            let r = parse_grammar(&toks, 0, end);
            finish(&toks, r)
        },
        Err(e) => Err(e),
    }
}

/// Parses one state definition from source text; a parsed state has at
/// least one arm.
pub fn parse_state_str(src: &str) -> (r: Result<State, ParseError>)
    ensures
        r is Ok ==> r->Ok_0.arms@.len() > 0,
{
    match lex(src) {
        Ok((toks, end)) => {
            let r = parse_state(&toks, 0, end);
            finish(&toks, r)
        },
        Err(e) => Err(e),
    }
}

/// Parses one match arm from source text: lexing composed with
/// `parse_match_arm`, whose contract over the tokens is the binding
/// one.
pub fn parse_match_arm_str(src: &str) -> Result<MatchArm, ParseError> {
    match lex(src) {
        Ok((toks, end)) => {
            let r = parse_match_arm(&toks, 0, end);
            finish(&toks, r)
        },
        Err(e) => Err(e),
    }
}

/// Parses one arm right-hand side from source text: lexing composed
/// with `parse_match_arm_rhs`, whose contract over the tokens is the
/// binding one.
pub fn parse_match_arm_rhs_str(src: &str) -> Result<MatchArmRhs, ParseError> {
    match lex(src) {
        Ok((toks, end)) => {
            let r = parse_match_arm_rhs(&toks, 0, end);
            finish(&toks, r)
        },
        Err(e) => Err(e),
    }
}

/// Parses one condition branch from source text: lexing composed with
/// `parse_condition_branch`, whose contract over the tokens is the
/// binding one.
pub fn parse_condition_branch_str(src: &str) -> Result<ConditionBranch, ParseError> {
    match lex(src) {
        Ok((toks, end)) => {
            let r = parse_condition_branch(&toks, 0, end);
            finish(&toks, r)
        },
        Err(e) => Err(e),
    }
}

/// Parses one directive list from source text: lexing composed with
/// `parse_directives`, whose contract over the tokens is the binding
/// one.
pub fn parse_directives_str(src: &str) -> Result<Directives, ParseError> {
    match lex(src) {
        Ok((toks, end)) => {
            let r = parse_directives(&toks, 0, end);
            finish(&toks, r)
        },
        Err(e) => Err(e),
    }
}

/// Parses one action call from source text: lexing composed with
/// `parse_action_call`, whose contract over the tokens is the binding
/// one.
pub fn parse_action_call_str(src: &str) -> Result<ActionCall, ParseError> {
    match lex(src) {
        Ok((toks, end)) => {
            let r = parse_action_call(&toks, 0, end);
            finish(&toks, r)
        },
        Err(e) => Err(e),
    }
}

/// Parses one pattern from source text: lexing composed with
/// `parse_pattern`, whose contract over the tokens is the binding one.
pub fn parse_pattern_str(src: &str) -> Result<Pattern, ParseError> {
    match lex(src) {
        Ok((toks, end)) => {
            let r = parse_pattern(&toks, 0, end);
            finish(&toks, r)
        },
        Err(e) => Err(e),
    }
}

/// Parses one byte pattern from source text: lexing composed with
/// `parse_byte_pattern`, whose contract over the tokens is the binding
/// one.
pub fn parse_byte_pattern_str(src: &str) -> Result<BytePattern, ParseError> {
    match lex(src) {
        Ok((toks, end)) => {
            let r = parse_byte_pattern(&toks, 0, end);
            finish(&toks, r)
        },
        Err(e) => Err(e),
    }
}

/// Parses one sequence pattern from source text: lexing composed with
/// `parse_sequence_pattern`, whose contract over the tokens is the
/// binding one.
pub fn parse_sequence_pattern_str(src: &str) -> Result<SequencePattern, ParseError> {
    match lex(src) {
        Ok((toks, end)) => {
            let r = parse_sequence_pattern(&toks, 0, end);
            finish(&toks, r)
        },
        Err(e) => Err(e),
    }
}

} // verus!
