//! Serialization of the grammar model back to the canonical surface
//! syntax.
//!
//! The canonical form writes byte patterns as decimal integers,
//! sequences as bracketed byte lists, classes under their canonical
//! keywords, one state per block with one arm per line, and directive
//! lists in the comma/period form.  Each rendering function's output is
//! fixed, character for character, by a spec function of the model; the
//! round-trip tests hold the canonical form and the parser against each
//! other.

use vstd::prelude::*;
use crate::model::{
    ActionCall, ClassPattern, ConditionBranch, Directives, Grammar, InputStatePattern, Literal,
    MatchArm, MatchArmRhs, Pattern, SequencePattern, State, StateTransition, TransitionMode,
};
use crate::text::push_char;

verus! {

/// The character of a decimal digit.
pub open spec fn spec_digit_char(d: u64) -> char {
    ((48 + (d % 10)) as u8) as char
}

/// The decimal digits of a value, most significant first.
pub open spec fn spec_dec_digits(v: u64) -> Seq<char>
    decreases v,
{
    if v < 10 {
        seq![spec_digit_char(v)]
    } else {
        spec_dec_digits(v / 10).push(spec_digit_char(v % 10))
    }
}

/// The decimal digits of a value, appended to the string.
fn push_decimal(out: &mut String, v: u64)
    ensures
        final (out)@ == old(out)@ + spec_dec_digits(v),
{
    let mut digits: Vec<char> = Vec::new();
    let mut x: u64 = v;
    if x == 0 {
        push_char(out, '0');
        proof {
            assert(out@ =~= old(out)@ + spec_dec_digits(0));
        }
        return ;
    }
    while x > 0
        invariant
            x > 0 ==> spec_dec_digits(v) == spec_dec_digits(x) + digits@.reverse(),
            x == 0 ==> spec_dec_digits(v) == digits@.reverse(),
        decreases x,
    {
        let d: u64 = x % 10;
        digits.push(((48 + d as u32) as u8) as char);
        proof {
            let ghost pre = digits@.drop_last();
            assert(digits@.reverse() =~= seq![spec_digit_char(x as u64)] + pre.reverse());
        }
        x = x / 10;
        proof {
            if x > 0 {
                assert(spec_dec_digits(v) =~= spec_dec_digits(x as u64) + digits@.reverse());
            } else {
                assert(spec_dec_digits(v) =~= digits@.reverse());
            }
        }
    }
    let ghost base = out@;
    let mut i: usize = digits.len();
    while i > 0
        invariant
            i <= digits@.len(),
            out@ == base + digits@.reverse().take(digits@.len() - i),
        decreases i,
    {
        i = i - 1;
        push_char(out, digits[i]);
        proof {
            assert(out@ =~= base + digits@.reverse().take(digits@.len() - i));
        }
    }
    proof {
        assert(digits@.reverse().take(digits@.len() as int) =~= digits@.reverse());
        assert(out@ =~= old(out)@ + spec_dec_digits(v));
    }
}

/// A string-argument character, escaped when it is a quote or a
/// backslash.
pub open spec fn spec_escaped_char(c: char) -> Seq<char> {
    if c == '"' || c == '\\' {
        seq!['\\', c]
    } else {
        seq![c]
    }
}

/// The characters of a string argument from index `i` on, escaped.
pub open spec fn spec_escaped_from(cs: Seq<char>, i: int) -> Seq<char>
    decreases cs.len() - i,
{
    if i < 0 || i >= cs.len() {
        Seq::empty()
    } else {
        spec_escaped_char(cs[i]) + spec_escaped_from(cs, i + 1)
    }
}

/// A string literal in canonical form: quotes around the escaped
/// characters.
pub open spec fn spec_ser_str_literal(s: Seq<char>) -> Seq<char> {
    seq!['"'] + spec_escaped_from(s, 0) + seq!['"']
}

/// A string literal with its quotes, escaping backslashes and quotes.
fn push_str_literal(out: &mut String, s: &String)
    ensures
        final (out)@ == old(out)@ + spec_ser_str_literal(s@),
{
    push_char(out, '"');
    let cs = crate::text::str_to_chars(s.as_str());
    let ghost base = out@;
    proof {
        assert(out@.skip(base.len() as int) =~= Seq::<char>::empty());
    }
    let mut i: usize = 0;
    while i < cs.len()
        invariant
            i <= cs@.len(),
            cs@ == s@,
            spec_escaped_from(cs@, 0) == out@.skip(base.len() as int) + spec_escaped_from(cs@, i as int),
            base.is_prefix_of(out@),
        decreases cs@.len() - i,
    {
        let ghost pre = out@;
        let c = cs[i];
        if c == '"' || c == '\\' {
            push_char(out, '\\');
        }
        push_char(out, c);
        proof {
            assert(out@.skip(base.len() as int) =~= pre.skip(base.len() as int) + spec_escaped_char(cs@[i as int]));
            assert((pre.skip(base.len() as int) + spec_escaped_char(cs@[i as int])) + spec_escaped_from(
                cs@,
                i + 1,
            ) =~= pre.skip(base.len() as int) + (spec_escaped_char(cs@[i as int]) + spec_escaped_from(
                cs@,
                i + 1,
            )));
        }
        i = i + 1;
    }
    proof {
        assert(spec_escaped_from(cs@, cs@.len() as int) =~= Seq::<char>::empty());
        assert(out@.skip(base.len() as int) + Seq::<char>::empty() =~= out@.skip(
            base.len() as int,
        ));
        assert(out@ =~= base + out@.skip(base.len() as int));
    }
    push_char(out, '"');
    proof {
        assert(out@ =~= old(out)@ + spec_ser_str_literal(s@));
    }
}

/// One literal argument in canonical form.
pub open spec fn spec_ser_literal(l: Literal) -> Seq<char> {
    match l {
        Literal::Int(v) => spec_dec_digits(v),
        Literal::Str(s) => spec_ser_str_literal(s@),
        Literal::Bool(b) => if b {
            "true"@
        } else {
            "false"@
        },
    }
}

/// One literal argument in canonical form.
fn push_literal(out: &mut String, l: &Literal)
    ensures
        final (out)@ == old(out)@ + spec_ser_literal(*l),
{
    match l {
        Literal::Int(v) => push_decimal(out, *v),
        Literal::Str(s) => push_str_literal(out, s),
        Literal::Bool(b) => {
            if *b {
                out.append("true");
            } else {
                out.append("false");
            }
        },
    }
}

/// The argument list from index `i` on, in canonical form: arguments
/// after the first are preceded by a comma and a space.
pub open spec fn spec_ser_args_from(args: Seq<Literal>, i: int) -> Seq<char>
    decreases args.len() - i,
{
    if i < 0 || i >= args.len() {
        Seq::empty()
    } else {
        (if i > 0 {
            ", "@
        } else {
            Seq::empty()
        }) + spec_ser_literal(args[i]) + spec_ser_args_from(args, i + 1)
    }
}

/// One action call in canonical form.
pub open spec fn spec_ser_action(a: ActionCall) -> Seq<char> {
    match a {
        ActionCall::UserDefined { name, args, fallible } => name@ + (if args@.len() > 0 {
            seq!['('] + spec_ser_args_from(args@, 0) + seq![')']
        } else {
            Seq::empty()
        }) + (if fallible {
            seq!['?']
        } else {
            Seq::empty()
        }),
        ActionCall::Mark(label) => "@mark("@ + label@ + seq![')'],
        ActionCall::Back => "@back"@,
        ActionCall::Start(label) => "@start("@ + label@ + seq![')'],
        ActionCall::End(label) => "@end("@ + label@ + seq![')'],
    }
}

/// One action call in canonical form.
fn push_action_call(out: &mut String, a: &ActionCall)
    ensures
        final (out)@ == old(out)@ + spec_ser_action(*a),
{
    match a {
        ActionCall::UserDefined { name, args, fallible } => {
            out.append(name.as_str());
            if args.len() > 0 {
                push_char(out, '(');
                let ghost base = out@;
                proof {
                    assert(out@.skip(base.len() as int) =~= Seq::<char>::empty());
                }
                let mut i: usize = 0;
                while i < args.len()
                    invariant
                        i <= args@.len(),
                        i == 0 ==> out@ == base,
                        spec_ser_args_from(args@, 0) == out@.skip(base.len() as int) + spec_ser_args_from(
                            args@,
                            i as int,
                        ),
                        base.is_prefix_of(out@),
                    decreases args@.len() - i,
                {
                    let ghost pre = out@;
                    if i > 0 {
                        out.append(", ");
                    }
                    push_literal(out, &args[i]);
                    proof {
                        let ghost piece = (if i > 0 {
                            ", "@
                        } else {
                            Seq::<char>::empty()
                        }) + spec_ser_literal(args@[i as int]);
                        assert(out@.skip(base.len() as int) =~= pre.skip(base.len() as int) + piece);
                        assert((pre.skip(base.len() as int) + piece) + spec_ser_args_from(args@, i + 1) =~= pre.skip(base.len() as int) + (piece + spec_ser_args_from(args@, i + 1)));
                    }
                    i = i + 1;
                }
                proof {
                    assert(spec_ser_args_from(args@, args@.len() as int)
                        =~= Seq::<char>::empty());
                    assert(out@.skip(base.len() as int) + Seq::<char>::empty() =~= out@.skip(
                        base.len() as int,
                    ));
                    assert(out@ =~= base + out@.skip(base.len() as int));
                }
                push_char(out, ')');
            }
            if *fallible {
                push_char(out, '?');
            }
            proof {
                assert(out@ =~= old(out)@ + spec_ser_action(*a));
            }
        },
        ActionCall::Mark(label) => {
            out.append("@mark(");
            out.append(label.as_str());
            push_char(out, ')');
            proof {
                assert(out@ =~= old(out)@ + spec_ser_action(*a));
            }
        },
        ActionCall::Back => {
            out.append("@back");
        },
        ActionCall::Start(label) => {
            out.append("@start(");
            out.append(label.as_str());
            push_char(out, ')');
            proof {
                assert(out@ =~= old(out)@ + spec_ser_action(*a));
            }
        },
        ActionCall::End(label) => {
            out.append("@end(");
            out.append(label.as_str());
            push_char(out, ')');
            proof {
                assert(out@ =~= old(out)@ + spec_ser_action(*a));
            }
        },
    }
}

/// The word of a transition mode, with its trailing spacing.
pub open spec fn spec_ser_mode(m: TransitionMode) -> Seq<char> {
    match m {
        TransitionMode::Normal => "--> "@,
        TransitionMode::Reconsume => "as in "@,
        TransitionMode::EpsilonMove => "move --> "@,
    }
}

/// The action calls of a directive list from index `i` on, in
/// canonical form: calls after the first are preceded by a comma and a
/// space.
pub open spec fn spec_ser_calls_from(calls: Seq<ActionCall>, i: int) -> Seq<char>
    decreases calls.len() - i,
{
    if i < 0 || i >= calls.len() {
        Seq::empty()
    } else {
        (if i > 0 {
            ", "@
        } else {
            Seq::empty()
        }) + spec_ser_action(calls[i]) + spec_ser_calls_from(calls, i + 1)
    }
}

/// One directive list in canonical form, ending in `.`.
pub open spec fn spec_ser_directives(d: Directives) -> Seq<char> {
    spec_ser_calls_from(d.action_calls@, 0) + (match d.state_transition {
        Some(t) => (if d.action_calls@.len() > 0 {
            ", "@
        } else {
            Seq::empty()
        }) + spec_ser_mode(t.mode) + t.to_state@ + seq!['.'],
        None => seq!['.'],
    })
}

/// One directive list in canonical form, ending in `.`.
fn push_directives(out: &mut String, d: &Directives)
    ensures
        final (out)@ == old(out)@ + spec_ser_directives(*d),
{
    let ghost base = out@;
    proof {
        assert(out@.skip(base.len() as int) =~= Seq::<char>::empty());
    }
    let mut i: usize = 0;
    while i < d.action_calls.len()
        invariant
            i <= d.action_calls@.len(),
            i == 0 ==> out@ == base,
            spec_ser_calls_from(d.action_calls@, 0) == out@.skip(base.len() as int) + spec_ser_calls_from(
                d.action_calls@,
                i as int,
            ),
            base.is_prefix_of(out@),
        decreases d.action_calls@.len() - i,
    {
        let ghost pre = out@;
        if i > 0 {
            out.append(", ");
        }
        push_action_call(out, &d.action_calls[i]);
        proof {
            let ghost piece = (if i > 0 {
                ", "@
            } else {
                Seq::<char>::empty()
            }) + spec_ser_action(d.action_calls@[i as int]);
            assert(out@.skip(base.len() as int) =~= pre.skip(base.len() as int) + piece);
            assert((pre.skip(base.len() as int) + piece) + spec_ser_calls_from(d.action_calls@, i + 1) =~= pre.skip(base.len() as int) + (piece + spec_ser_calls_from(d.action_calls@, i + 1)));
        }
        i = i + 1;
    }
    match &d.state_transition {
        Some(t) => {
            if d.action_calls.len() > 0 {
                out.append(", ");
            }
            match t.mode {
                TransitionMode::Normal => out.append("--> "),
                TransitionMode::Reconsume => out.append("as in "),
                TransitionMode::EpsilonMove => out.append("move --> "),
            }
            out.append(t.to_state.as_str());
            push_char(out, '.');
        },
        None => {
            push_char(out, '.');
        },
    }
    proof {
        assert(out@ =~= old(out)@ + spec_ser_directives(*d));
    }
}

/// One condition branch in canonical form: the predicate name and the
/// braced directives.
pub open spec fn spec_ser_branch(b: ConditionBranch) -> Seq<char> {
    b.condition@ + " { "@ + spec_ser_directives(b.directives) + " }"@
}

/// One condition branch in canonical form.
fn push_branch(out: &mut String, b: &ConditionBranch)
    ensures
        final (out)@ == old(out)@ + spec_ser_branch(*b),
{
    out.append(b.condition.as_str());
    out.append(" { ");
    push_directives(out, &b.directives);
    out.append(" }");
    proof {
        assert(out@ =~= old(out)@ + spec_ser_branch(*b));
    }
}

/// The `else if` branches from index `i` on, in canonical form.
pub open spec fn spec_ser_else_ifs_from(bs: Seq<ConditionBranch>, i: int) -> Seq<char>
    decreases bs.len() - i,
{
    if i < 0 || i >= bs.len() {
        Seq::empty()
    } else {
        " else if "@ + spec_ser_branch(bs[i]) + spec_ser_else_ifs_from(bs, i + 1)
    }
}

/// One right-hand side in canonical form.
pub open spec fn spec_ser_rhs(rhs: MatchArmRhs) -> Seq<char> {
    match rhs {
        MatchArmRhs::Directives(d) => spec_ser_directives(d),
        MatchArmRhs::Condition { if_branch, else_if_branches, else_branch } => "if "@
            + spec_ser_branch(if_branch) + spec_ser_else_ifs_from(else_if_branches@, 0)
            + " else { "@ + spec_ser_directives(else_branch) + " }"@,
    }
}

/// One right-hand side in canonical form.
fn push_rhs(out: &mut String, rhs: &MatchArmRhs)
    ensures
        final (out)@ == old(out)@ + spec_ser_rhs(*rhs),
{
    match rhs {
        MatchArmRhs::Directives(d) => push_directives(out, d),
        MatchArmRhs::Condition { if_branch, else_if_branches, else_branch } => {
            out.append("if ");
            push_branch(out, if_branch);
            let ghost base = out@;
            proof {
                assert(out@.skip(base.len() as int) =~= Seq::<char>::empty());
            }
            let mut i: usize = 0;
            while i < else_if_branches.len()
                invariant
                    i <= else_if_branches@.len(),
                    spec_ser_else_ifs_from(else_if_branches@, 0) == out@.skip(base.len() as int)
                        + spec_ser_else_ifs_from(else_if_branches@, i as int),
                    base.is_prefix_of(out@),
                decreases else_if_branches@.len() - i,
            {
                let ghost pre = out@;
                out.append(" else if ");
                push_branch(out, &else_if_branches[i]);
                proof {
                    let ghost piece = " else if "@ + spec_ser_branch(
                        else_if_branches@[i as int],
                    );
                    assert(out@.skip(base.len() as int) =~= pre.skip(base.len() as int) + piece);
                    assert((pre.skip(base.len() as int) + piece) + spec_ser_else_ifs_from(
                        else_if_branches@,
                        i + 1,
                    ) =~= pre.skip(base.len() as int) + (piece + spec_ser_else_ifs_from(
                        else_if_branches@,
                        i + 1,
                    )));
                }
                i = i + 1;
            }
            proof {
                assert(spec_ser_else_ifs_from(else_if_branches@, else_if_branches@.len() as int)
                    =~= Seq::<char>::empty());
                assert(out@.skip(base.len() as int) + Seq::<char>::empty() =~= out@.skip(
                    base.len() as int,
                ));
                assert(out@ =~= base + out@.skip(base.len() as int));
            }
            out.append(" else { ");
            push_directives(out, else_branch);
            out.append(" }");
            proof {
                assert(out@ =~= old(out)@ + spec_ser_rhs(*rhs));
            }
        },
    }
}

/// The canonical keyword text of a class.
pub open spec fn spec_ser_class(c: ClassPattern) -> Seq<char> {
    match c {
        ClassPattern::Alnum => "alnum"@,
        ClassPattern::Alpha => "alpha"@,
        ClassPattern::Ascii => "ascii"@,
        ClassPattern::Lower => "lower"@,
        ClassPattern::Upper => "upper"@,
        ClassPattern::Digit => "digit"@,
        ClassPattern::Xdigit => "xdigit"@,
        ClassPattern::Space => "space"@,
    }
}

/// The bytes of a sequence pattern from index `i` on, in canonical
/// form: decimal integers separated by a comma and a space.
pub open spec fn spec_ser_bytes_from(bs: Seq<u8>, i: int) -> Seq<char>
    decreases bs.len() - i,
{
    if i < 0 || i >= bs.len() {
        Seq::empty()
    } else {
        (if i > 0 {
            ", "@
        } else {
            Seq::empty()
        }) + spec_dec_digits(bs[i] as u64) + spec_ser_bytes_from(bs, i + 1)
    }
}

/// One pattern in canonical form.
pub open spec fn spec_ser_pattern(p: Pattern) -> Seq<char> {
    match p {
        Pattern::StateEnter => "-->"@,
        Pattern::Byte(b) => spec_dec_digits(b as u64),
        Pattern::Class(c) => spec_ser_class(c),
        Pattern::InputState(InputStatePattern::Eoc) => "eoc"@,
        Pattern::InputState(InputStatePattern::Eof) => "eof"@,
        Pattern::Condition(name) => "if "@ + name@,
        Pattern::Sequence(s) => seq!['['] + spec_ser_bytes_from(s.bytes@, 0) + seq![']'] + (
        if s.ignore_case {
            "|i"@
        } else {
            Seq::empty()
        }),
        Pattern::Any => seq!['_'],
    }
}

/// One pattern in canonical form.
fn push_pattern(out: &mut String, p: &Pattern)
    ensures
        final (out)@ == old(out)@ + spec_ser_pattern(*p),
{
    match p {
        Pattern::StateEnter => out.append("-->"),
        Pattern::Byte(b) => push_decimal(out, *b as u64),
        Pattern::Class(ClassPattern::Alnum) => out.append("alnum"),
        Pattern::Class(ClassPattern::Alpha) => out.append("alpha"),
        Pattern::Class(ClassPattern::Ascii) => out.append("ascii"),
        Pattern::Class(ClassPattern::Lower) => out.append("lower"),
        Pattern::Class(ClassPattern::Upper) => out.append("upper"),
        Pattern::Class(ClassPattern::Digit) => out.append("digit"),
        Pattern::Class(ClassPattern::Xdigit) => out.append("xdigit"),
        Pattern::Class(ClassPattern::Space) => out.append("space"),
        Pattern::InputState(InputStatePattern::Eoc) => out.append("eoc"),
        Pattern::InputState(InputStatePattern::Eof) => out.append("eof"),
        Pattern::Condition(name) => {
            out.append("if ");
            out.append(name.as_str());
            proof {
                assert(out@ =~= old(out)@ + spec_ser_pattern(*p));
            }
        },
        Pattern::Sequence(s) => {
            push_char(out, '[');
            let ghost base = out@;
            proof {
                assert(out@.skip(base.len() as int) =~= Seq::<char>::empty());
            }
            let mut i: usize = 0;
            while i < s.bytes.len()
                invariant
                    i <= s.bytes@.len(),
                    spec_ser_bytes_from(s.bytes@, 0) == out@.skip(base.len() as int) + spec_ser_bytes_from(
                        s.bytes@,
                        i as int,
                    ),
                    base.is_prefix_of(out@),
                decreases s.bytes@.len() - i,
            {
                let ghost pre = out@;
                if i > 0 {
                    out.append(", ");
                }
                push_decimal(out, s.bytes[i] as u64);
                proof {
                    let ghost piece = (if i > 0 {
                        ", "@
                    } else {
                        Seq::<char>::empty()
                    }) + spec_dec_digits(s.bytes@[i as int] as u64);
                    assert(out@.skip(base.len() as int) =~= pre.skip(base.len() as int) + piece);
                    assert((pre.skip(base.len() as int) + piece) + spec_ser_bytes_from(s.bytes@, i + 1) =~= pre.skip(base.len() as int) + (piece + spec_ser_bytes_from(s.bytes@, i + 1)));
                }
                i = i + 1;
            }
            proof {
                assert(spec_ser_bytes_from(s.bytes@, s.bytes@.len() as int)
                    =~= Seq::<char>::empty());
                assert(out@.skip(base.len() as int) + Seq::<char>::empty() =~= out@.skip(
                    base.len() as int,
                ));
                assert(out@ =~= base + out@.skip(base.len() as int));
            }
            push_char(out, ']');
            if s.ignore_case {
                out.append("|i");
            }
            proof {
                assert(out@ =~= old(out)@ + spec_ser_pattern(*p));
            }
        },
        Pattern::Any => push_char(out, '_'),
    }
}

/// One arm in canonical form: pattern, connector, right-hand side.
pub open spec fn spec_ser_arm(arm: MatchArm) -> Seq<char> {
    spec_ser_pattern(arm.pattern) + " => "@ + spec_ser_rhs(arm.rhs)
}

/// One arm in canonical form: pattern, connector, right-hand side.
pub fn serialize_match_arm(arm: &MatchArm) -> (r: String)
    ensures
        r@ == spec_ser_arm(*arm),
{
    let mut out = String::new();
    push_pattern(&mut out, &arm.pattern);
    out.append(" => ");
    push_rhs(&mut out, &arm.rhs);
    proof {
        assert(out@ =~= spec_ser_arm(*arm));
    }
    out
}

/// The arms of a state from index `i` on, one per indented line.
pub open spec fn spec_ser_arms_from(arms: Seq<MatchArm>, i: int) -> Seq<char>
    decreases arms.len() - i,
{
    if i < 0 || i >= arms.len() {
        Seq::empty()
    } else {
        "    "@ + spec_ser_arm(arms[i]) + seq!['\n'] + spec_ser_arms_from(arms, i + 1)
    }
}

/// One state in canonical form: the name, a colon, and one arm per
/// line.
pub open spec fn spec_ser_state(s: State) -> Seq<char> {
    s.name@ + ":\n"@ + spec_ser_arms_from(s.arms@, 0)
}

/// One state in canonical form: the name, a colon, and one arm per
/// line.
pub fn serialize_state(s: &State) -> (r: String)
    ensures
        r@ == spec_ser_state(*s),
{
    let mut out = String::new();
    out.append(s.name.as_str());
    out.append(":\n");
    let ghost base = out@;
    proof {
        assert(out@.skip(base.len() as int) =~= Seq::<char>::empty());
    }
    let mut i: usize = 0;
    while i < s.arms.len()
        invariant
            i <= s.arms@.len(),
            spec_ser_arms_from(s.arms@, 0) == out@.skip(base.len() as int) + spec_ser_arms_from(
                s.arms@,
                i as int,
            ),
            base.is_prefix_of(out@),
        decreases s.arms@.len() - i,
    {
        let ghost pre = out@;
        out.append("    ");
        let arm = serialize_match_arm(&s.arms[i]);
        out.append(arm.as_str());
        push_char(&mut out, '\n');
        proof {
            let ghost piece = "    "@ + spec_ser_arm(s.arms@[i as int]) + seq!['\n'];
            assert(out@.skip(base.len() as int) =~= pre.skip(base.len() as int) + piece);
            assert((pre.skip(base.len() as int) + piece) + spec_ser_arms_from(s.arms@, i + 1) =~= pre.skip(base.len() as int)
                + (piece + spec_ser_arms_from(s.arms@, i + 1)));
        }
        i = i + 1;
    }
    proof {
        assert(out@ =~= spec_ser_state(*s));
    }
    out
}

/// The states of a grammar from index `i` on.
pub open spec fn spec_ser_states_from(states: Seq<State>, i: int) -> Seq<char>
    decreases states.len() - i,
{
    if i < 0 || i >= states.len() {
        Seq::empty()
    } else {
        spec_ser_state(states[i]) + spec_ser_states_from(states, i + 1)
    }
}

/// A whole grammar in canonical form.
pub open spec fn spec_ser_grammar(g: Grammar) -> Seq<char> {
    g.name@ + " = {\n"@ + spec_ser_states_from(g.states@, 0) + "}\n"@
}

/// A whole grammar in canonical form; the output is exactly
/// `spec_ser_grammar` of the model.  Re-parsing the canonical form of a
/// well-formed grammar gives the grammar back; the round-trip tests
/// exercise this together with `parse_grammar_str`.
pub fn serialize_grammar(g: &Grammar) -> (r: String)
    ensures
        r@ == spec_ser_grammar(*g),
{
    let mut out = String::new();
    out.append(g.name.as_str());
    out.append(" = {\n");
    let ghost base = out@;
    proof {
        assert(out@.skip(base.len() as int) =~= Seq::<char>::empty());
    }
    let mut i: usize = 0;
    while i < g.states.len()
        invariant
            i <= g.states@.len(),
            spec_ser_states_from(g.states@, 0) == out@.skip(base.len() as int) + spec_ser_states_from(
                g.states@,
                i as int,
            ),
            base.is_prefix_of(out@),
        decreases g.states@.len() - i,
    {
        let ghost pre = out@;
        let st = serialize_state(&g.states[i]);
        out.append(st.as_str());
        proof {
            let ghost piece = spec_ser_state(g.states@[i as int]);
            assert(out@.skip(base.len() as int) =~= pre.skip(base.len() as int) + piece);
            assert((pre.skip(base.len() as int) + piece) + spec_ser_states_from(g.states@, i + 1) =~= pre.skip(base.len() as int) + (piece + spec_ser_states_from(g.states@, i + 1)));
        }
        i = i + 1;
    }
    out.append("}\n");
    proof {
        assert(out@ =~= spec_ser_grammar(*g));
    }
    out
}

} // verus!
