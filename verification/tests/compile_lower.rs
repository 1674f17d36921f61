use byte_muncher::compile::{
    compile_grammar, compile_pattern, Check, CompileError,
};
use byte_muncher::model::{ClassPattern, Pattern};
use byte_muncher::parser::{parse_grammar_str, parse_match_arm_str, parse_pattern_str};

fn check_of(src: &str) -> Check {
    compile_pattern(&parse_pattern_str(src).unwrap())
}

fn arm_check_of(src: &str) -> Check {
    compile_pattern(&parse_match_arm_str(src).unwrap().pattern)
}

#[test]
fn compile_byte_pattern() {
    assert_eq!(check_of("'a'"), Check::Byte(97));
}

#[test]
fn compile_alias_pattern() {
    assert_eq!(check_of("alpha"), Check::Ranges(vec![(b'a', b'z'), (b'A', b'Z')]));
    assert_eq!(check_of("alpha_lo"), Check::Ranges(vec![(b'a', b'z')]));
    assert_eq!(check_of("alpha_up"), Check::Ranges(vec![(b'A', b'Z')]));
    assert_eq!(check_of("digit"), Check::Ranges(vec![(b'0', b'9')]));
    assert_eq!(
        check_of("ws"),
        Check::Ranges(vec![(b' ', b' '), (b'\n', b'\n'), (b'\r', b'\r'), (b'\t', b'\t'), (0x0C, 0x0C)])
    );
}

#[test]
fn compile_condition() {
    assert_eq!(check_of("if foo"), Check::Pred("foo".into()));
}

#[test]
fn compile_any() {
    assert_eq!(check_of("_"), Check::Any);
}

#[test]
fn compile_any_pattern_arm() {
    assert_eq!(arm_check_of("_ => rhs_action."), Check::Any);
}

#[test]
fn condition_compile_any_pattern_arm() {
    assert_eq!(arm_check_of("_ => rhs_action."), Check::Any);
}

#[test]
fn compile_byte_pattern_arm() {
    assert_eq!(arm_check_of("'a' => rhs_action."), Check::Byte(97));
}

#[test]
fn condition_compile_byte_pattern_arm() {
    assert_eq!(arm_check_of("'a' => rhs_action."), Check::Byte(97));
}

#[test]
fn compile_condition_pattern_arm() {
    assert_eq!(arm_check_of("if foo => rhs_action."), Check::Pred("foo".into()));
}

#[test]
fn condition_compile_condition_pattern_arm() {
    assert_eq!(arm_check_of("if foo => rhs_action."), Check::Pred("foo".into()));
}

#[test]
fn compile_class_pattern_arm() {
    assert_eq!(
        arm_check_of("alnum => rhs_action."),
        Check::Ranges(vec![(b'a', b'z'), (b'A', b'Z'), (b'0', b'9')])
    );
    assert_eq!(
        arm_check_of("alpha => rhs_action."),
        Check::Ranges(vec![(b'a', b'z'), (b'A', b'Z')])
    );
    assert_eq!(arm_check_of("ascii => rhs_action."), Check::Ranges(vec![(0x00, 0x7f)]));
    assert_eq!(arm_check_of("lower => rhs_action."), Check::Ranges(vec![(b'a', b'z')]));
    assert_eq!(arm_check_of("upper => rhs_action."), Check::Ranges(vec![(b'A', b'Z')]));
    assert_eq!(arm_check_of("digit => rhs_action."), Check::Ranges(vec![(b'0', b'9')]));
    assert_eq!(
        arm_check_of("xdigit => rhs_action."),
        Check::Ranges(vec![(b'0', b'9'), (b'a', b'f'), (b'A', b'F')])
    );
    assert_eq!(
        arm_check_of("space => rhs_action."),
        Check::Ranges(vec![(b' ', b' '), (b'\n', b'\n'), (b'\r', b'\r'), (b'\t', b'\t'), (0x0C, 0x0C)])
    );
}

#[test]
fn condition_compile_class_pattern_arm() {
    assert_eq!(
        arm_check_of("alnum => rhs_action."),
        Check::Ranges(vec![(b'a', b'z'), (b'A', b'Z'), (b'0', b'9')])
    );
    assert_eq!(
        arm_check_of("xdigit => rhs_action."),
        Check::Ranges(vec![(b'0', b'9'), (b'a', b'f'), (b'A', b'F')])
    );
}

#[test]
fn compile_state_enter() {
    let g = parse_grammar_str("G = { s: --> => setup. _ => step. }").unwrap();
    let m = compile_grammar(&g).unwrap();
    assert!(m.states[0].prelude.is_some());
    assert_eq!(m.states[0].arms.len(), 1);
    assert_eq!(m.states[0].arms[0].check, Check::Any);
}

#[test]
fn compile_input_state_pattern() {
    assert_eq!(arm_check_of("eof => rhs_action."), Check::Eof);
    assert_eq!(arm_check_of("eoc => rhs_action."), Check::Eoc);
}

#[test]
fn class_membership_is_exact() {
    assert!(ClassPattern::Digit.contains(0x39));
    assert!(!ClassPattern::Digit.contains(0x3A));
    assert!(ClassPattern::Xdigit.contains(b'f'));
    assert!(!ClassPattern::Xdigit.contains(b'g'));
    assert!(ClassPattern::Space.contains(0x0C));
    assert!(!ClassPattern::Ascii.contains(0x80));
}

#[test]
fn compiled_transition_targets_are_indices() {
    let g = parse_grammar_str("G = { a: 'x' => --> b. _ => stay. b: _ => back_again, as in a. }")
        .unwrap();
    let m = compile_grammar(&g).unwrap();
    assert_eq!(m.states.len(), 2);
    match &m.states[0].arms[0].rhs {
        byte_muncher::compile::CompiledRhs::Direct(d) => {
            assert_eq!(d.transition.as_ref().unwrap().target, 1);
        }
        _ => panic!("expected a plain directive list"),
    }
}

#[test]
fn duplicate_state_name_is_rejected() {
    let g = parse_grammar_str("G = { s: _ => a. s: _ => b. }").unwrap();
    assert_eq!(
        compile_grammar(&g).unwrap_err(),
        CompileError::DuplicateStateName { state: "s".into() }
    );
}

#[test]
fn unknown_target_state_is_rejected() {
    let g = parse_grammar_str("G = { s: _ => --> nowhere. }").unwrap();
    assert_eq!(
        compile_grammar(&g).unwrap_err(),
        CompileError::UnknownTargetState { state: "s".into(), target: "nowhere".into() }
    );
}

#[test]
fn transition_in_prelude_is_rejected() {
    let g = parse_grammar_str("G = { s: --> => setup, --> t. _ => step. t: _ => other. }")
        .unwrap();
    assert_eq!(
        compile_grammar(&g).unwrap_err(),
        CompileError::TransitionInPrelude { state: "s".into() }
    );
}

#[test]
fn misplaced_state_enter_is_rejected() {
    let g = parse_grammar_str("G = { s: 'a' => step. --> => setup. }").unwrap();
    assert_eq!(
        compile_grammar(&g).unwrap_err(),
        CompileError::MisplacedStateEnter { state: "s".into() }
    );
}

#[test]
fn transition_not_last_is_rejected_at_parse_time() {
    let e = parse_grammar_str("G = { s: 'a' => foo, --> t, bar. t: _ => x. }").unwrap_err();
    assert_eq!(e.message, "expected `.`");
}
