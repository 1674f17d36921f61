//! Lowering: from the grammar model to the machine description.
//!
//! Each state's arms become (compiled check, compiled effect) pairs in
//! source order; a leading state-enter arm becomes the state's prelude;
//! every transition target is resolved to the index of an existing
//! state.  Lowering is where the cross-state rules are enforced: state
//! names must be unique, targets must exist, a state-enter arm may only
//! stand first, and a prelude must not transition.

use vstd::prelude::*;
use crate::model::{
    class_matches, ClassPattern, ActionCall, Directives, Grammar, InputStatePattern, MatchArm,
    MatchArmRhs, Pattern, SequencePattern, StateTransition, TransitionMode,
};
use crate::text::string_eq_str;

verus! {

/// A compiled pattern check of one arm.
#[derive(Debug, Clone, PartialEq, Eq)]
pub enum Check {
    /// The next byte must equal this byte.
    Byte(u8),
    /// The next byte must fall in one of these inclusive ranges.
    Ranges(Vec<(u8, u8)>),
    /// The buffered chunk must be exhausted with more input possible.
    Eoc,
    /// The stream must be exhausted for good.
    Eof,
    /// The named external predicate must accept the next byte.
    Pred(String),
    /// The next bytes must spell this sequence; the match may suspend
    /// at a chunk boundary and resume later.
    Sequence(SequencePattern),
    /// Always passes.
    Any,
}

/// A transition with its target resolved to a state index.
#[derive(Debug, Clone, PartialEq, Eq)]
pub struct CompiledTransition {
    pub target: usize,
    pub mode: TransitionMode,
}

/// A compiled directive list: the ordered action calls and the optional
/// resolved transition.
#[derive(Debug, Clone, PartialEq, Eq)]
pub struct CompiledDirectives {
    pub actions: Vec<ActionCall>,
    pub transition: Option<CompiledTransition>,
}

/// A compiled right-hand side: a plain directive list or an exclusive
/// predicate-branch chain ending in the mandatory else branch.
#[derive(Debug, Clone, PartialEq, Eq)]
pub enum CompiledRhs {
    Direct(CompiledDirectives),
    Cond { branches: Vec<(String, CompiledDirectives)>, else_branch: CompiledDirectives },
}

/// One compiled arm: a check and the effect of its success.
#[derive(Debug, Clone, PartialEq, Eq)]
pub struct CompiledArm {
    pub check: Check,
    pub rhs: CompiledRhs,
}

/// One compiled state: its optional enter prelude and its ordered arms.
#[derive(Debug, Clone, PartialEq, Eq)]
pub struct MachineState {
    pub name: String,
    pub prelude: Option<CompiledRhs>,
    pub arms: Vec<CompiledArm>,
}

/// The machine description: what an external code emitter consumes.
#[derive(Debug, Clone, PartialEq, Eq)]
pub struct Machine {
    pub name: String,
    pub states: Vec<MachineState>,
}

/// The cross-state errors that lowering detects.
#[derive(Debug, Clone, PartialEq, Eq)]
pub enum CompileError {
    /// Two states share this name.
    DuplicateStateName { state: String },
    /// A transition names a state that does not exist.
    UnknownTargetState { state: String, target: String },
    /// A state-enter prelude contains a state transition.
    TransitionInPrelude { state: String },
    /// A state-enter arm stands anywhere but first.
    MisplacedStateEnter { state: String },
}

/// Whether a compiled directive list only targets states below `n`.
pub open spec fn directives_closed(cd: CompiledDirectives, n: int) -> bool {
    match cd.transition {
        Some(t) => t.target < n,
        None => true,
    }
}

/// Whether a compiled right-hand side only targets states below `n`.
pub open spec fn rhs_closed(r: CompiledRhs, n: int) -> bool {
    match r {
        CompiledRhs::Direct(d) => directives_closed(d, n),
        CompiledRhs::Cond { branches, else_branch } => directives_closed(else_branch, n) && (
        forall|i: int| 0 <= i < branches@.len() ==> directives_closed(
            (#[trigger] branches@[i]).1,
            n,
        )),
    }
}

/// Whether a compiled state only targets states below `n`.
pub open spec fn state_closed(st: MachineState, n: int) -> bool {
    (match st.prelude {
        Some(r) => rhs_closed(r, n),
        None => true,
    }) && (forall|i: int| 0 <= i < st.arms@.len() ==> rhs_closed(
        (#[trigger] st.arms@[i]).rhs,
        n,
    ))
}

/// Whether every transition of the machine targets one of its states.
pub open spec fn machine_closed(m: Machine) -> bool {
    m.states@.len() > 0 && (forall|i: int| 0 <= i < m.states@.len() ==> state_closed(
        #[trigger] m.states@[i],
        m.states@.len() as int,
    ))
}

/// The inclusive byte ranges a class compiles to.
pub open spec fn spec_class_ranges(c: ClassPattern) -> Seq<(u8, u8)> {
    match c {
        ClassPattern::Alnum => seq![(97u8, 122u8), (65u8, 90u8), (48u8, 57u8)],
        ClassPattern::Alpha => seq![(97u8, 122u8), (65u8, 90u8)],
        ClassPattern::Ascii => seq![(0u8, 127u8)],
        ClassPattern::Lower => seq![(97u8, 122u8)],
        ClassPattern::Upper => seq![(65u8, 90u8)],
        ClassPattern::Digit => seq![(48u8, 57u8)],
        ClassPattern::Xdigit => seq![(48u8, 57u8), (97u8, 102u8), (65u8, 70u8)],
        ClassPattern::Space => seq![
            (32u8, 32u8),
            (10u8, 10u8),
            (13u8, 13u8),
            (9u8, 9u8),
            (12u8, 12u8),
        ],
    }
}

/// Whether a byte falls in one of the inclusive ranges.
pub open spec fn in_ranges(rs: Seq<(u8, u8)>, b: u8) -> bool {
    exists|i: int| 0 <= i < rs.len() && (#[trigger] rs[i]).0 <= b <= rs[i].1
}

/// The ranges of a class denote exactly the bytes of the class.
pub proof fn lemma_class_ranges_exact(c: ClassPattern, b: u8)
    ensures
        in_ranges(spec_class_ranges(c), b) == class_matches(c, b),
{
    let rs = spec_class_ranges(c);
    if class_matches(c, b) {
        match c {
            ClassPattern::Alnum => {
                if 97 <= b <= 122 {
                    assert(rs[0].0 <= b <= rs[0].1);
                } else if 65 <= b <= 90 {
                    assert(rs[1].0 <= b <= rs[1].1);
                } else {
                    assert(rs[2].0 <= b <= rs[2].1);
                }
            },
            ClassPattern::Alpha => {
                if 97 <= b <= 122 {
                    assert(rs[0].0 <= b <= rs[0].1);
                } else {
                    assert(rs[1].0 <= b <= rs[1].1);
                }
            },
            ClassPattern::Ascii => {
                assert(rs[0].0 <= b <= rs[0].1);
            },
            ClassPattern::Lower => {
                assert(rs[0].0 <= b <= rs[0].1);
            },
            ClassPattern::Upper => {
                assert(rs[0].0 <= b <= rs[0].1);
            },
            ClassPattern::Digit => {
                assert(rs[0].0 <= b <= rs[0].1);
            },
            ClassPattern::Xdigit => {
                if 48 <= b <= 57 {
                    assert(rs[0].0 <= b <= rs[0].1);
                } else if 97 <= b <= 102 {
                    assert(rs[1].0 <= b <= rs[1].1);
                } else {
                    assert(rs[2].0 <= b <= rs[2].1);
                }
            },
            ClassPattern::Space => {
                if b == 32 {
                    assert(rs[0].0 <= b <= rs[0].1);
                } else if b == 10 {
                    assert(rs[1].0 <= b <= rs[1].1);
                } else if b == 13 {
                    assert(rs[2].0 <= b <= rs[2].1);
                } else if b == 9 {
                    assert(rs[3].0 <= b <= rs[3].1);
                } else {
                    assert(rs[4].0 <= b <= rs[4].1);
                }
            },
        }
    }
}

/// Builds the range list of a class.
pub fn class_ranges(c: ClassPattern) -> (r: Vec<(u8, u8)>)
    ensures
        r@ == spec_class_ranges(c),
{
    let mut r: Vec<(u8, u8)> = Vec::new();
    match c {
        ClassPattern::Alnum => {
            r.push((97, 122));
            r.push((65, 90));
            r.push((48, 57));
        },
        ClassPattern::Alpha => {
            r.push((97, 122));
            r.push((65, 90));
        },
        ClassPattern::Ascii => {
            r.push((0, 127));
        },
        ClassPattern::Lower => {
            r.push((97, 122));
        },
        ClassPattern::Upper => {
            r.push((65, 90));
        },
        ClassPattern::Digit => {
            r.push((48, 57));
        },
        ClassPattern::Xdigit => {
            r.push((48, 57));
            r.push((97, 102));
            r.push((65, 70));
        },
        ClassPattern::Space => {
            r.push((32, 32));
            r.push((10, 10));
            r.push((13, 13));
            r.push((9, 9));
            r.push((12, 12));
        },
    }
    assert(r@ =~= spec_class_ranges(c));
    r
}

/// Action-call equality up to the argument container: the names, the
/// argument values and the fallibility agree.
pub open spec fn action_eq(x: ActionCall, y: ActionCall) -> bool {
    match (x, y) {
        (
            ActionCall::UserDefined { name: n1, args: a1, fallible: f1 },
            ActionCall::UserDefined { name: n2, args: a2, fallible: f2 },
        ) => n1 == n2 && a1@ == a2@ && f1 == f2,
        _ => x == y,
    }
}

/// A copy of a literal.
fn clone_literal(l: &crate::model::Literal) -> (r: crate::model::Literal)
    ensures
        r == *l,
{
    match l {
        crate::model::Literal::Int(v) => crate::model::Literal::Int(*v),
        crate::model::Literal::Str(s) => crate::model::Literal::Str(s.clone()),
        crate::model::Literal::Bool(b) => crate::model::Literal::Bool(*b),
    }
}

/// A copy of an action call.
fn clone_action(a: &ActionCall) -> (r: ActionCall)
    ensures
        action_eq(r, *a),
{
    match a {
        ActionCall::UserDefined { name, args, fallible } => {
            let mut cargs: Vec<crate::model::Literal> = Vec::new();
            let mut i: usize = 0;
            while i < args.len()
                invariant
                    i <= args@.len(),
                    cargs@ == args@.subrange(0, i as int),
                decreases args@.len() - i,
            {
                cargs.push(clone_literal(&args[i]));
                i = i + 1;
            }
            assert(args@.subrange(0, args@.len() as int) =~= args@);
            ActionCall::UserDefined { name: name.clone(), args: cargs, fallible: *fallible }
        },
        ActionCall::Mark(l) => ActionCall::Mark(l.clone()),
        ActionCall::Back => ActionCall::Back,
        ActionCall::Start(l) => ActionCall::Start(l.clone()),
        ActionCall::End(l) => ActionCall::End(l.clone()),
    }
}

/// A copy of a byte vector.
fn copy_bytes(v: &Vec<u8>) -> (r: Vec<u8>)
    ensures
        r@ == v@,
{
    let mut r: Vec<u8> = Vec::new();
    let mut i: usize = 0;
    while i < v.len()
        invariant
            i <= v@.len(),
            r@ == v@.subrange(0, i as int),
        decreases v@.len() - i,
    {
        r.push(v[i]);
        i = i + 1;
    }
    assert(v@.subrange(0, v@.len() as int) =~= v@);
    r
}

/// Whether a check is the compiled form of a pattern: a byte check for
/// a byte pattern, the exact ranges of a class, the matching
/// input-state check, the named predicate, the same byte sequence
/// under the same case rule, or the wildcard.
pub open spec fn check_denotes(p: Pattern, r: Check) -> bool {
    match p {
        Pattern::Byte(b) => r == Check::Byte(b),
        Pattern::Class(c) => r matches Check::Ranges(rs) && rs@ == spec_class_ranges(c),
        Pattern::InputState(InputStatePattern::Eoc) => r == Check::Eoc,
        Pattern::InputState(InputStatePattern::Eof) => r == Check::Eof,
        Pattern::Condition(name) => r == Check::Pred(name),
        Pattern::Sequence(s) => r matches Check::Sequence(cs) && cs.bytes@ == s.bytes@
            && cs.ignore_case == s.ignore_case,
        Pattern::Any => r == Check::Any,
        Pattern::StateEnter => true,
    }
}

/// Compiles one pattern into its check.  A byte pattern keeps its byte;
/// a class becomes its exact byte ranges; the input-state patterns,
/// predicates, sequences and the wildcard map to their own checks.
pub fn compile_pattern(p: &Pattern) -> (r: Check)
    requires
        *p != Pattern::StateEnter,
    ensures
        check_denotes(*p, r),
{
    match p {
        Pattern::StateEnter => Check::Any,
        Pattern::Byte(b) => Check::Byte(*b),
        Pattern::Class(c) => Check::Ranges(class_ranges(*c)),
        Pattern::InputState(InputStatePattern::Eoc) => Check::Eoc,
        Pattern::InputState(InputStatePattern::Eof) => Check::Eof,
        Pattern::Condition(name) => Check::Pred(name.clone()),
        Pattern::Sequence(s) => Check::Sequence(
            SequencePattern { bytes: copy_bytes(&s.bytes), ignore_case: s.ignore_case },
        ),
        Pattern::Any => Check::Any,
    }
}

/// Whether any of the branches holds a state transition.
pub open spec fn spec_branches_have_transition(bs: Seq<crate::model::ConditionBranch>) -> bool {
    exists|i: int| 0 <= i < bs.len() && (#[trigger] bs[i]).directives.state_transition is Some
}

/// Whether a right-hand side holds a state transition anywhere.
pub open spec fn spec_rhs_has_transition(rhs: MatchArmRhs) -> bool {
    match rhs {
        MatchArmRhs::Directives(d) => d.state_transition is Some,
        MatchArmRhs::Condition { if_branch, else_if_branches, else_branch } => if_branch
            .directives.state_transition is Some || spec_branches_have_transition(
            else_if_branches@,
        ) || else_branch.state_transition is Some,
    }
}

/// Whether a directive list's transition target, if any, names an
/// existing state of the grammar.
pub open spec fn directives_targets_exist(d: Directives, g: Grammar) -> bool {
    match d.state_transition {
        Some(st) => exists|i: int|
            0 <= i < g.states@.len() && (#[trigger] g.states@[i]).name@ == st.to_state@,
        None => true,
    }
}

/// Whether every transition target of a right-hand side names an
/// existing state of the grammar.
pub open spec fn rhs_targets_exist(rhs: MatchArmRhs, g: Grammar) -> bool {
    match rhs {
        MatchArmRhs::Directives(d) => directives_targets_exist(d, g),
        MatchArmRhs::Condition { if_branch, else_if_branches, else_branch } => {
            &&& directives_targets_exist(if_branch.directives, g)
            &&& (forall|i: int|
                0 <= i < else_if_branches@.len() ==> directives_targets_exist(
                    (#[trigger] else_if_branches@[i]).directives,
                    g,
                ))
            &&& directives_targets_exist(else_branch, g)
        },
    }
}

/// Whether a compiled transition is the resolved form of a model
/// transition: present exactly when one was written, with the same
/// mode, and the target index naming the state the model named.
pub open spec fn transition_denotes(
    t: Option<StateTransition>,
    ct: Option<CompiledTransition>,
    g: Grammar,
) -> bool {
    match (t, ct) {
        (None, None) => true,
        (Some(st), Some(c)) => c.mode == st.mode && c.target < g.states@.len() && g.states@[
            c.target as int].name@ == st.to_state@,
        _ => false,
    }
}

/// Whether a compiled directive list is the lowered form of a model
/// directive list: the same action calls in the same order, and the
/// transition resolved per `transition_denotes`.
pub open spec fn directives_denote(d: Directives, cd: CompiledDirectives, g: Grammar) -> bool {
    &&& cd.actions@.len() == d.action_calls@.len()
    &&& (forall|i: int|
        0 <= i < d.action_calls@.len() ==> action_eq(
            #[trigger] cd.actions@[i],
            d.action_calls@[i],
        ))
    &&& transition_denotes(d.state_transition, cd.transition, g)
}

/// Whether a compiled right-hand side is the lowered form of a model
/// right-hand side: a plain list lowers to a plain list, a condition
/// chain to the chain of its branches in order, names kept, each
/// branch's directives lowered per `directives_denote`.
pub open spec fn rhs_denotes(rhs: MatchArmRhs, crhs: CompiledRhs, g: Grammar) -> bool {
    match (rhs, crhs) {
        (MatchArmRhs::Directives(d), CompiledRhs::Direct(cd)) => directives_denote(d, cd, g),
        (
            MatchArmRhs::Condition { if_branch, else_if_branches, else_branch },
            CompiledRhs::Cond { branches, else_branch: celse },
        ) => {
            &&& branches@.len() == 1 + else_if_branches@.len()
            &&& branches@[0].0 == if_branch.condition
            &&& directives_denote(if_branch.directives, branches@[0].1, g)
            &&& (forall|k: int|
                1 <= k < branches@.len() ==> (#[trigger] branches@[k]).0 == else_if_branches@[
                    k - 1].condition && directives_denote(
                    else_if_branches@[k - 1].directives,
                    branches@[k].1,
                    g,
                ))
            &&& directives_denote(else_branch, celse, g)
        },
        _ => false,
    }
}

/// The index of the state with the given name, if any; the first
/// occurrence wins.
fn find_state(g: &Grammar, name: &String) -> (r: Option<usize>)
    ensures
        match r {
            Some(i) => i < g.states@.len() && g.states@[i as int].name@ == name@,
            None => forall|i: int| 0 <= i < g.states@.len() ==> g.states@[i].name@ != name@,
        },
{
    let mut i: usize = 0;
    while i < g.states.len()
        invariant
            i <= g.states@.len(),
            forall|j: int| 0 <= j < i ==> g.states@[j].name@ != name@,
        decreases g.states@.len() - i,
    {
        if string_eq_str(&g.states[i].name, name.as_str()) {
            return Some(i);
        }
        i = i + 1;
    }
    None
}

/// Lowers one directive list: resolves the transition target against
/// the whole grammar.
fn compile_directives(g: &Grammar, state_name: &String, d: &Directives) -> (r: Result<
    CompiledDirectives,
    CompileError,
>)
    ensures
        r is Ok <==> directives_targets_exist(*d, *g),
        r is Ok ==> directives_denote(*d, r->Ok_0, *g),
        r is Ok ==> directives_closed(r->Ok_0, g.states@.len() as int),
        r is Err ==> r->Err_0 matches CompileError::UnknownTargetState { .. },
        r is Err ==> d.state_transition is Some && (forall|i: int|
            0 <= i < g.states@.len() ==> g.states@[i].name@ != d.state_transition->0.to_state@),
{
    let mut actions: Vec<ActionCall> = Vec::new();
    let mut i: usize = 0;
    while i < d.action_calls.len()
        invariant
            i <= d.action_calls@.len(),
            actions@.len() == i,
            forall|j: int|
                0 <= j < i ==> action_eq(#[trigger] actions@[j], d.action_calls@[j]),
        decreases d.action_calls@.len() - i,
    {
        actions.push(clone_action(&d.action_calls[i]));
        i = i + 1;
    }
    match &d.state_transition {
        Some(t) => {
            match find_state(g, &t.to_state) {
                Some(target) => Ok(
                    CompiledDirectives {
                        actions,
                        transition: Some(CompiledTransition { target, mode: t.mode }),
                    },
                ),
                None => Err(
                    CompileError::UnknownTargetState {
                        state: state_name.clone(),
                        target: t.to_state.clone(),
                    },
                ),
            }
        },
        None => Ok(CompiledDirectives { actions, transition: None }),
    }
}

/// Lowers one right-hand side.
fn compile_rhs(g: &Grammar, state_name: &String, rhs: &MatchArmRhs) -> (r: Result<
    CompiledRhs,
    CompileError,
>)
    ensures
        r is Ok <==> rhs_targets_exist(*rhs, *g),
        r is Ok ==> rhs_denotes(*rhs, r->Ok_0, *g),
        r is Ok ==> rhs_closed(r->Ok_0, g.states@.len() as int),
        r is Err ==> r->Err_0 matches CompileError::UnknownTargetState { .. },
{
    match rhs {
        MatchArmRhs::Directives(d) => {
            match compile_directives(g, state_name, d) {
                Ok(cd) => Ok(CompiledRhs::Direct(cd)),
                Err(e) => Err(e),
            }
        },
        MatchArmRhs::Condition { if_branch, else_if_branches, else_branch } => {
            let mut branches: Vec<(String, CompiledDirectives)> = Vec::new();
            match compile_directives(g, state_name, &if_branch.directives) {
                Ok(cd) => {
                    branches.push((if_branch.condition.clone(), cd));
                },
                Err(e) => {
                    return Err(e);
                },
            }
            let mut i: usize = 0;
            while i < else_if_branches.len()
                invariant
                    i <= else_if_branches@.len(),
                    branches@.len() == 1 + i,
                    branches@[0].0 == if_branch.condition,
                    directives_denote(if_branch.directives, branches@[0].1, *g),
                    forall|k: int|
                        1 <= k < branches@.len() ==> (#[trigger] branches@[k]).0
                            == else_if_branches@[k - 1].condition && directives_denote(
                            else_if_branches@[k - 1].directives,
                            branches@[k].1,
                            *g,
                        ),
                    forall|k: int|
                        0 <= k < i ==> directives_targets_exist(
                            (#[trigger] else_if_branches@[k]).directives,
                            *g,
                        ),
                    directives_targets_exist(if_branch.directives, *g),
                    (*rhs == MatchArmRhs::Condition {
                        if_branch: *if_branch,
                        else_if_branches: *else_if_branches,
                        else_branch: *else_branch,
                    }),
                    forall|j: int| 0 <= j < branches@.len() ==> directives_closed(
                        (#[trigger] branches@[j]).1,
                        g.states@.len() as int,
                    ),
                decreases else_if_branches@.len() - i,
            {
                match compile_directives(g, state_name, &else_if_branches[i].directives) {
                    Ok(cd) => {
                        branches.push((else_if_branches[i].condition.clone(), cd));
                    },
                    Err(e) => {
                        proof {
                            assert(!directives_targets_exist(
                                rhs->Condition_else_if_branches@[i as int].directives,
                                *g,
                            ));
                        }
                        return Err(e);
                    },
                }
                i = i + 1;
            }
            match compile_directives(g, state_name, else_branch) {
                Ok(cd) => Ok(CompiledRhs::Cond { branches, else_branch: cd }),
                Err(e) => Err(e),
            }
        },
    }
}

/// Whether an arm carries the state-enter pseudo-pattern.
fn is_state_enter(a: &MatchArm) -> (r: bool)
    ensures
        r == (a.pattern == Pattern::StateEnter),
{
    match &a.pattern {
        Pattern::StateEnter => true,
        _ => false,
    }
}

/// Whether a right-hand side holds a transition anywhere; decides
/// `spec_rhs_has_transition`.
pub fn rhs_has_transition(rhs: &MatchArmRhs) -> (r: bool)
    ensures
        r == spec_rhs_has_transition(*rhs),
{
    match rhs {
        MatchArmRhs::Directives(d) => d.state_transition.is_some(),
        MatchArmRhs::Condition { if_branch, else_if_branches, else_branch } => {
            if if_branch.directives.state_transition.is_some() {
                return true;
            }
            let mut i: usize = 0;
            while i < else_if_branches.len()
                invariant
                    i <= else_if_branches@.len(),
                    (*rhs == MatchArmRhs::Condition {
                        if_branch: *if_branch,
                        else_if_branches: *else_if_branches,
                        else_branch: *else_branch,
                    }),
                    forall|j: int|
                        0 <= j < i ==> !(else_if_branches@[j].directives.state_transition
                            is Some),
                decreases else_if_branches@.len() - i,
            {
                if else_if_branches[i].directives.state_transition.is_some() {
                    proof {
                        assert(spec_branches_have_transition(else_if_branches@)) by {
                            assert(0 <= i < else_if_branches@.len() && (#[trigger]
                            else_if_branches@[i as int]).directives.state_transition is Some);
                        }
                    }
                    return true;
                }
                i = i + 1;
            }
            else_branch.state_transition.is_some()
        },
    }
}

/// Whether a machine state is the lowered form of a grammar state: the
/// name is kept, a leading state-enter arm became the prelude, and the
/// remaining arms became checks and lowered effects for their patterns
/// and right-hand sides, in order.
pub open spec fn state_denotes(s: crate::model::State, ms: MachineState, g: Grammar) -> bool {
    &&& ms.name@ == s.name@
    &&& (ms.prelude is Some <==> (s.arms.len() > 0 && s.arms[0].pattern == Pattern::StateEnter))
    &&& (match ms.prelude {
        Some(p) => rhs_denotes(s.arms@[0].rhs, p, g),
        None => true,
    })
    &&& ({
        let off = if ms.prelude is Some {
            1int
        } else {
            0int
        };
        &&& ms.arms@.len() + off == s.arms@.len()
        &&& forall|k: int|
            0 <= k < ms.arms@.len() ==> check_denotes(
                s.arms@[k + off].pattern,
                (#[trigger] ms.arms@[k]).check,
            ) && rhs_denotes(s.arms@[k + off].rhs, ms.arms@[k].rhs, g)
    })
}

/// Whether a state-enter arm stands nowhere but first.
pub open spec fn state_no_misplaced_enter(s: crate::model::State) -> bool {
    forall|k: int|
        0 <= k < s.arms@.len() && (#[trigger] s.arms@[k]).pattern == Pattern::StateEnter ==> k
            == 0
}

/// Whether every transition target of the state's arms names an
/// existing state of the grammar.
pub open spec fn state_targets_exist(s: crate::model::State, g: Grammar) -> bool {
    forall|k: int|
        0 <= k < s.arms@.len() ==> rhs_targets_exist((#[trigger] s.arms@[k]).rhs, g)
}

/// The conditions under which a state lowers: no transition in an
/// enter prelude, no state-enter arm after the first, and every
/// transition target present in the grammar.
pub open spec fn state_lowers_clean(s: crate::model::State, g: Grammar) -> bool {
    &&& !(s.arms@.len() > 0 && s.arms@[0].pattern == Pattern::StateEnter
        && spec_rhs_has_transition(s.arms@[0].rhs))
    &&& state_no_misplaced_enter(s)
    &&& state_targets_exist(s, g)
}

/// Lowers one state: a leading state-enter arm becomes the prelude,
/// the remaining arms become checks and effects in their order.  An
/// enter prelude that holds a transition is rejected, exactly when the
/// leading state-enter arm's right-hand side holds one; a state-enter
/// arm anywhere but first is rejected.
pub fn compile_state(g: &Grammar, s: &crate::model::State) -> (r: Result<
    MachineState,
    CompileError,
>)
    ensures
        r is Ok <==> state_lowers_clean(*s, *g),
        r is Ok ==> state_denotes(*s, r->Ok_0, *g),
        r is Ok ==> state_closed(r->Ok_0, g.states@.len() as int),
        r is Err ==> !(r->Err_0 matches CompileError::DuplicateStateName { .. }),
        (r is Err && (r->Err_0 matches CompileError::TransitionInPrelude { .. })) <==> (
        s.arms@.len() > 0 && s.arms@[0].pattern == Pattern::StateEnter
            && spec_rhs_has_transition(s.arms@[0].rhs)),
        (r is Err && (r->Err_0 matches CompileError::MisplacedStateEnter { .. }))
            ==> !state_no_misplaced_enter(*s),
        (r is Err && (r->Err_0 matches CompileError::UnknownTargetState { .. }))
            ==> !state_targets_exist(*s, *g),
{
    let mut prelude: Option<CompiledRhs> = None;
    let mut arms: Vec<CompiledArm> = Vec::new();
    let mut i: usize = 0;
    if s.arms.len() > 0 && is_state_enter(&s.arms[0]) {
        if rhs_has_transition(&s.arms[0].rhs) {
            return Err(CompileError::TransitionInPrelude { state: s.name.clone() });
        }
        match compile_rhs(g, &s.name, &s.arms[0].rhs) {
            Ok(cr) => {
                prelude = Some(cr);
            },
            Err(e) => {
                proof {
                    assert(!rhs_targets_exist(s.arms@[0].rhs, *g));
                }
                return Err(e);
            },
        }
        i = 1;
    }
    while i < s.arms.len()
        invariant
            i <= s.arms@.len(),
            prelude is Some <==> (s.arms@.len() > 0 && s.arms@[0].pattern == Pattern::StateEnter),
            prelude is Some ==> i >= 1,
            arms@.len() + (if prelude is Some {
                1int
            } else {
                0int
            }) == i,
            forall|k: int|
                0 <= k < arms@.len() ==> check_denotes(
                    s.arms@[k + (if prelude is Some {
                        1int
                    } else {
                        0int
                    })].pattern,
                    (#[trigger] arms@[k]).check,
                ) && rhs_denotes(
                    s.arms@[k + (if prelude is Some {
                        1int
                    } else {
                        0int
                    })].rhs,
                    arms@[k].rhs,
                    *g,
                ),
            (match prelude {
                Some(p) => rhs_denotes(s.arms@[0].rhs, p, *g) && rhs_targets_exist(
                    s.arms@[0].rhs,
                    *g,
                ),
                None => true,
            }),
            forall|k: int|
                (if prelude is Some {
                    1int
                } else {
                    0int
                }) <= k < i ==> (#[trigger] s.arms@[k]).pattern != Pattern::StateEnter
                    && rhs_targets_exist(s.arms@[k].rhs, *g),
            !(s.arms@.len() > 0 && s.arms@[0].pattern == Pattern::StateEnter
                && spec_rhs_has_transition(s.arms@[0].rhs)),
            (match prelude {
                Some(r) => rhs_closed(r, g.states@.len() as int),
                None => true,
            }),
            forall|j: int| 0 <= j < arms@.len() ==> rhs_closed(
                (#[trigger] arms@[j]).rhs,
                g.states@.len() as int,
            ),
        decreases s.arms@.len() - i,
    {
        if is_state_enter(&s.arms[i]) {
            proof {
                assert((#[trigger] s.arms@[i as int]).pattern == Pattern::StateEnter);
            }
            return Err(CompileError::MisplacedStateEnter { state: s.name.clone() });
        }
        let check = compile_pattern(&s.arms[i].pattern);
        match compile_rhs(g, &s.name, &s.arms[i].rhs) {
            Ok(cr) => {
                arms.push(CompiledArm { check, rhs: cr });
            },
            Err(e) => {
                proof {
                    assert(!rhs_targets_exist((#[trigger] s.arms@[i as int]).rhs, *g));
                }
                return Err(e);
            },
        }
        i = i + 1;
    }
    Ok(MachineState { name: s.name.clone(), prelude, arms })
}

/// Whether two states of the grammar share a name.
pub open spec fn spec_has_duplicate_state(g: Grammar) -> bool {
    exists|i: int, j: int|
        0 <= i < j < g.states@.len() && g.states@[i].name@ == g.states@[j].name@
}

/// Finds the first state whose name already occurred earlier, if any.
fn find_duplicate_state(g: &Grammar) -> (r: Option<usize>)
    ensures
        match r {
            Some(j) => j < g.states@.len() && exists|i: int|
                0 <= i < j && g.states@[i].name@ == g.states@[j as int].name@,
            None => !spec_has_duplicate_state(*g),
        },
{
    let mut j: usize = 1;
    if g.states.len() == 0 {
        return None;
    }
    while j < g.states.len()
        invariant
            1 <= j,
            forall|a: int, b: int|
                0 <= a < b < j && b < g.states@.len() ==> g.states@[a].name@ != g.states@[b].name@,
        decreases g.states@.len() - j,
    {
        let mut i: usize = 0;
        while i < j
            invariant
                i <= j < g.states@.len(),
                forall|a: int| 0 <= a < i ==> g.states@[a].name@ != g.states@[j as int].name@,
            decreases j - i,
        {
            if string_eq_str(&g.states[i].name, g.states[j].name.as_str()) {
                return Some(j);
            }
            i = i + 1;
        }
        j = j + 1;
    }
    None
}

/// Lowers a whole grammar to its machine description.  It succeeds if
/// and only if state names are unique, every transition target names an
/// existing state, every state-enter arm stands first in its state, and
/// no prelude holds a transition; the machine then has one state per
/// grammar state, in order, under the same name.
pub fn compile_grammar(g: &Grammar) -> (r: Result<Machine, CompileError>)
    ensures
        r is Ok <==> (!spec_has_duplicate_state(*g) && (forall|i: int|
            0 <= i < g.states@.len() ==> state_lowers_clean(#[trigger] g.states@[i], *g))),
        r is Ok ==> r->Ok_0.states@.len() == g.states@.len(),
        r is Ok ==> forall|i: int|
            0 <= i < g.states@.len() ==> state_denotes(
                g.states@[i],
                #[trigger] r->Ok_0.states@[i],
                *g,
            ),
        r is Ok && g.states@.len() > 0 ==> machine_closed(r->Ok_0),
        (r is Err && (r->Err_0 matches CompileError::DuplicateStateName { .. }))
            <==> spec_has_duplicate_state(*g),
        (r is Err && !(r->Err_0 matches CompileError::DuplicateStateName { .. })) ==> (exists|
            i: int,
        |
            0 <= i < g.states@.len() && !state_lowers_clean(#[trigger] g.states@[i], *g)),
{
    match find_duplicate_state(g) {
        Some(j) => {
            return Err(CompileError::DuplicateStateName { state: g.states[j].name.clone() });
        },
        None => {},
    }
    let mut states: Vec<MachineState> = Vec::new();
    let mut i: usize = 0;
    while i < g.states.len()
        invariant
            i <= g.states@.len(),
            !spec_has_duplicate_state(*g),
            states@.len() == i,
            forall|k: int| 0 <= k < i ==> state_denotes(g.states@[k], #[trigger] states@[k], *g),
            forall|k: int| 0 <= k < i ==> state_lowers_clean(#[trigger] g.states@[k], *g),
            forall|k: int| 0 <= k < i ==> state_closed(
                #[trigger] states@[k],
                g.states@.len() as int,
            ),
        decreases g.states@.len() - i,
    {
        match compile_state(g, &g.states[i]) {
            Ok(ms) => {
                states.push(ms);
                assert(forall|k: int|
                    0 <= k < i + 1 ==> state_denotes(g.states@[k], #[trigger] states@[k], *g));
            },
            Err(e) => {
                proof {
                    assert(!state_lowers_clean(#[trigger] g.states@[i as int], *g));
                }
                return Err(e);
            },
        }
        i = i + 1;
    }
    Ok(Machine { name: g.name.clone(), states })
}

} // verus!
