//! The grammar model: the typed representation of a parsed grammar.
//!
//! Everything here is immutable data.  A `Grammar` is a named, ordered
//! list of `State`s; a `State` is a named, ordered list of `MatchArm`s;
//! an arm pairs a `Pattern` with a right-hand side, which is either a
//! directive list or an `if`/`else if`/`else` chain of predicate
//! branches.  A directive list is an ordered list of action calls with
//! an optional trailing state transition.

use vstd::prelude::*;

verus! {

/// A fixed ASCII byte class, usable as an arm pattern.
#[derive(Debug, Clone, Copy, PartialEq, Eq)]
pub enum ClassPattern {
    Alnum,
    Alpha,
    Ascii,
    Lower,
    Upper,
    Digit,
    Xdigit,
    Space,
}

/// Which exhaustion of the input an arm waits for: the end of the
/// buffered chunk (more input may follow) or the end of the stream.
#[derive(Debug, Clone, Copy, PartialEq, Eq)]
pub enum InputStatePattern {
    Eoc,
    Eof,
}

/// A multi-byte pattern, matched byte for byte, case-insensitively over
/// ASCII letters when `ignore_case` is set.
#[derive(Debug, Clone, PartialEq, Eq)]
pub struct SequencePattern {
    pub bytes: Vec<u8>,
    pub ignore_case: bool,
}

/// The pattern of a match arm.  `StateEnter` is the prelude
/// pseudo-pattern: its directives run once each time the state becomes
/// active, before any byte is examined.  `Any` matches whatever no
/// earlier arm claimed, including both input-state conditions.
#[derive(Debug, Clone, PartialEq, Eq)]
pub enum Pattern {
    StateEnter,
    Byte(u8),
    Class(ClassPattern),
    InputState(InputStatePattern),
    Condition(String),
    Sequence(SequencePattern),
    Any,
}

/// How a transition hands over to the target state.  `Normal` counts
/// the byte that caused the match as consumed; `Reconsume` re-offers it
/// to the target state's arms; `EpsilonMove` moves without consuming or
/// re-offering any byte.
#[derive(Debug, Clone, Copy, PartialEq, Eq)]
pub enum TransitionMode {
    Normal,
    Reconsume,
    EpsilonMove,
}

/// A trailing state transition of a directive list.
#[derive(Debug, Clone, PartialEq, Eq)]
pub struct StateTransition {
    pub to_state: String,
    pub mode: TransitionMode,
}

/// A scalar constant argument of a user-defined action call.
#[derive(Debug, Clone, PartialEq, Eq)]
pub enum Literal {
    Int(u64),
    Str(String),
    Bool(bool),
}

/// One action call of a directive list: a user-defined action,
/// recorded by name, arguments and fallibility, or one of the fixed
/// built-ins.  `Mark`, `Start` and `End` record the cursor position
/// under a label; `Back` rewinds the cursor by one byte.
#[derive(Debug, Clone, PartialEq, Eq)]
pub enum ActionCall {
    UserDefined { name: String, args: Vec<Literal>, fallible: bool },
    Mark(String),
    Back,
    Start(String),
    End(String),
}

/// An ordered list of action calls with an optional trailing state
/// transition.  The transition, when present, is always the last
/// element; the surface syntax rejects anything after it.
#[derive(Debug, Clone, PartialEq, Eq)]
pub struct Directives {
    pub action_calls: Vec<ActionCall>,
    pub state_transition: Option<StateTransition>,
}

/// One `if`/`else if` branch of a conditional right-hand side: a
/// predicate name and the directives run when it holds.
#[derive(Debug, Clone, PartialEq, Eq)]
pub struct ConditionBranch {
    pub condition: String,
    pub directives: Directives,
}

/// The right-hand side of an arm: a plain directive list, or an
/// exclusive chain of predicate branches with a mandatory `else`.
#[derive(Debug, Clone, PartialEq, Eq)]
pub enum MatchArmRhs {
    Directives(Directives),
    Condition {
        if_branch: ConditionBranch,
        else_if_branches: Vec<ConditionBranch>,
        else_branch: Directives,
    },
}

/// One arm of a state: a pattern and its right-hand side.  Arms are
/// tried top to bottom; the first match wins.
#[derive(Debug, Clone, PartialEq, Eq)]
pub struct MatchArm {
    pub pattern: Pattern,
    pub rhs: MatchArmRhs,
}

/// A named state: a nonempty ordered list of arms.
#[derive(Debug, Clone, PartialEq, Eq)]
pub struct State {
    pub name: String,
    pub arms: Vec<MatchArm>,
}

/// A named grammar: a nonempty ordered list of states.
#[derive(Debug, Clone, PartialEq, Eq)]
pub struct Grammar {
    pub name: String,
    pub states: Vec<State>,
}

/// Which bytes a byte class denotes.  Each class is a fixed union of
/// ASCII ranges.
pub open spec fn class_matches(c: ClassPattern, b: u8) -> bool {
    match c {
        ClassPattern::Alnum => (97 <= b <= 122) || (65 <= b <= 90) || (48 <= b <= 57),
        ClassPattern::Alpha => (97 <= b <= 122) || (65 <= b <= 90),
        ClassPattern::Ascii => b <= 127,
        ClassPattern::Lower => 97 <= b <= 122,
        ClassPattern::Upper => 65 <= b <= 90,
        ClassPattern::Digit => 48 <= b <= 57,
        ClassPattern::Xdigit => (48 <= b <= 57) || (97 <= b <= 102) || (65 <= b <= 70),
        ClassPattern::Space => b == 32 || b == 10 || b == 13 || b == 9 || b == 12,
    }
}

impl ClassPattern {
    /// Decides membership of a byte in the class.
    pub fn contains(self, b: u8) -> (r: bool)
        ensures
            r == class_matches(self, b),
    {
        match self {
            ClassPattern::Alnum => (97 <= b && b <= 122) || (65 <= b && b <= 90) || (48 <= b && b
                <= 57),
            ClassPattern::Alpha => (97 <= b && b <= 122) || (65 <= b && b <= 90),
            ClassPattern::Ascii => b <= 127,
            ClassPattern::Lower => 97 <= b && b <= 122,
            ClassPattern::Upper => 65 <= b && b <= 90,
            ClassPattern::Digit => 48 <= b && b <= 57,
            ClassPattern::Xdigit => (48 <= b && b <= 57) || (97 <= b && b <= 102) || (65 <= b && b
                <= 70),
            ClassPattern::Space => b == 32 || b == 10 || b == 13 || b == 9 || b == 12,
        }
    }
}

/// ASCII case folding: uppercase letters map to their lowercase
/// counterparts, every other byte to itself.
pub open spec fn fold_byte(b: u8) -> u8 {
    if 65 <= b <= 90 {
        (b + 32) as u8
    } else {
        b
    }
}

/// Folds one byte to lowercase over ASCII.
pub fn fold_byte_exec(b: u8) -> (r: u8)
    ensures
        r == fold_byte(b),
{
    if 65 <= b && b <= 90 {
        b + 32
    } else {
        b
    }
}

/// Whether two bytes count as equal under the given case rule.
pub open spec fn bytes_agree(a: u8, b: u8, ignore_case: bool) -> bool {
    if ignore_case {
        fold_byte(a) == fold_byte(b)
    } else {
        a == b
    }
}

/// Decides byte agreement under the given case rule.
pub fn bytes_agree_exec(a: u8, b: u8, ignore_case: bool) -> (r: bool)
    ensures
        r == bytes_agree(a, b, ignore_case),
{
    if ignore_case {
        fold_byte_exec(a) == fold_byte_exec(b)
    } else {
        a == b
    }
}

} // verus!
