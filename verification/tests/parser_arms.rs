use byte_muncher::model::{
    ActionCall, ClassPattern, ConditionBranch, Directives, Literal, MatchArm, MatchArmRhs,
    Pattern, StateTransition, TransitionMode,
};
use byte_muncher::parser::{
    parse_condition_branch_str, parse_match_arm_rhs_str, parse_match_arm_str,
};

const ERR_UNEXPECTED_CONTENT_AFTER_DIRECTIVES: &str =
    "condition branch shouldn't contain anything besides a single directive list";

fn act(name: &str) -> ActionCall {
    ActionCall::UserDefined {
        name: name.into(),
        args: vec![],
        fallible: false,
    }
}

fn arm_ok(src: &str) -> MatchArm {
    parse_match_arm_str(src).unwrap()
}

fn arm_err(src: &str) -> String {
    parse_match_arm_str(src).unwrap_err().message
}

fn rhs_ok(src: &str) -> MatchArmRhs {
    parse_match_arm_rhs_str(src).unwrap()
}

fn rhs_err(src: &str) -> String {
    parse_match_arm_rhs_str(src).unwrap_err().message
}

fn branch_ok(src: &str) -> ConditionBranch {
    parse_condition_branch_str(src).unwrap()
}

fn branch_err(src: &str) -> String {
    parse_condition_branch_str(src).unwrap_err().message
}

#[test]
fn parse_match_arm() {
    assert_eq!(
        arm_ok("'a' => foo, --> baz_state."),
        MatchArm {
            pattern: Pattern::Byte(b'a'),
            rhs: MatchArmRhs::Directives(Directives {
                action_calls: vec![act("foo")],
                state_transition: Some(StateTransition {
                    to_state: "baz_state".into(),
                    mode: TransitionMode::Normal
                })
            })
        }
    );

    assert_eq!(
        arm_ok("alpha => foo, bar, baz(42)?."),
        MatchArm {
            pattern: Pattern::Class(ClassPattern::Alpha),
            rhs: MatchArmRhs::Directives(Directives {
                action_calls: vec![
                    act("foo"),
                    act("bar"),
                    ActionCall::UserDefined {
                        name: "baz".into(),
                        args: vec![Literal::Int(42)],
                        fallible: true
                    }
                ],
                state_transition: None
            })
        }
    );

    assert_eq!(
        arm_ok("'z' => if cond { foo. } else { bar. }"),
        MatchArm {
            pattern: Pattern::Byte(b'z'),
            rhs: MatchArmRhs::Condition {
                if_branch: ConditionBranch {
                    condition: "cond".into(),
                    directives: Directives {
                        action_calls: vec![act("foo")],
                        state_transition: None
                    }
                },
                else_if_branches: vec![],
                else_branch: Directives {
                    action_calls: vec![act("bar")],
                    state_transition: None
                }
            }
        }
    );
}

#[test]
fn parse_arm() {
    assert_eq!(
        arm_ok("'a' => foo, --> baz_state."),
        MatchArm {
            pattern: Pattern::Byte(b'a'),
            rhs: MatchArmRhs::Directives(Directives {
                action_calls: vec![act("foo")],
                state_transition: Some(StateTransition {
                    to_state: "baz_state".into(),
                    mode: TransitionMode::Normal
                })
            })
        }
    );

    assert_eq!(
        arm_ok("_ => qux, quz, move --> qux_state."),
        MatchArm {
            pattern: Pattern::Any,
            rhs: MatchArmRhs::Directives(Directives {
                action_calls: vec![act("qux"), act("quz")],
                state_transition: Some(StateTransition {
                    to_state: "qux_state".into(),
                    mode: TransitionMode::EpsilonMove
                })
            })
        }
    );
}

#[test]
fn invalid_connector_token_error() {
    assert_eq!(arm_err("\"foo\"|i =< bar."), "expected `=>`");
}

#[test]
fn match_arm_invalid_connector_token_error() {
    assert_eq!(arm_err("\"foo\"|i =< ( bar; )"), "expected `=>`");
}

#[test]
fn parse_directives() {
    assert_eq!(
        rhs_ok("foo, bar."),
        MatchArmRhs::Directives(Directives {
            action_calls: vec![act("foo"), act("bar")],
            state_transition: None
        })
    );
}

#[test]
fn parse_simple_condition() {
    assert_eq!(
        rhs_ok("if cond { foo, bar. } else { baz. }"),
        MatchArmRhs::Condition {
            if_branch: ConditionBranch {
                condition: "cond".into(),
                directives: Directives {
                    action_calls: vec![act("foo"), act("bar")],
                    state_transition: None
                }
            },
            else_if_branches: vec![],
            else_branch: Directives {
                action_calls: vec![act("baz")],
                state_transition: None
            }
        }
    );
}

#[test]
fn parse_else_if_condition() {
    assert_eq!(
        rhs_ok("if cond1 { foo. } else if cond2 { baz. } else if cond3 { qux. } else { quz. }"),
        MatchArmRhs::Condition {
            if_branch: ConditionBranch {
                condition: "cond1".into(),
                directives: Directives {
                    action_calls: vec![act("foo")],
                    state_transition: None
                }
            },
            else_if_branches: vec![
                ConditionBranch {
                    condition: "cond2".into(),
                    directives: Directives {
                        action_calls: vec![act("baz")],
                        state_transition: None
                    }
                },
                ConditionBranch {
                    condition: "cond3".into(),
                    directives: Directives {
                        action_calls: vec![act("qux")],
                        state_transition: None
                    }
                }
            ],
            else_branch: Directives {
                action_calls: vec![act("quz")],
                state_transition: None
            }
        }
    );
}

#[test]
fn missing_else_in_condition_error() {
    assert_eq!(
        rhs_err("if cond { foo. }"),
        "unexpected end of input, expected `else`"
    );
}

#[test]
fn unexpected_content_after_directives_in_else_branch_error() {
    assert_eq!(
        rhs_err("if cond { foo. } else { bar. 42 }"),
        ERR_UNEXPECTED_CONTENT_AFTER_DIRECTIVES
    );
}

#[test]
fn unexpected_content_after_action_list_in_else_branch_error() {
    assert_eq!(
        rhs_err("if cond { foo. } else { bar. 42 }"),
        ERR_UNEXPECTED_CONTENT_AFTER_DIRECTIVES
    );
}

#[test]
fn condition_branch_parse_match_arm() {
    assert_eq!(
        branch_ok("cond { foo, --> bar_state. }"),
        ConditionBranch {
            condition: "cond".into(),
            directives: Directives {
                action_calls: vec![act("foo")],
                state_transition: Some(StateTransition {
                    to_state: "bar_state".into(),
                    mode: TransitionMode::Normal
                })
            }
        }
    );
}

#[test]
fn condition_branch_parse() {
    assert_eq!(
        branch_ok("cond { foo, --> bar_state. }"),
        ConditionBranch {
            condition: "cond".into(),
            directives: Directives {
                action_calls: vec![act("foo")],
                state_transition: Some(StateTransition {
                    to_state: "bar_state".into(),
                    mode: TransitionMode::Normal
                })
            }
        }
    );
}

#[test]
fn content_after_directives_error() {
    assert_eq!(
        branch_err("some_condition { foo, bar. baz. }"),
        ERR_UNEXPECTED_CONTENT_AFTER_DIRECTIVES
    );
}

#[test]
fn mod_invalid_connector_token_error() {
    assert_eq!(arm_err("\"foo\"|i =< bar."), "expected `=>`");
}

#[test]
fn rhs_missing_else_in_condition_error() {
    assert_eq!(
        rhs_err("if cond { foo. }"),
        "unexpected end of input, expected `else`"
    );
}

#[test]
fn condition_branch_content_after_directives_error() {
    assert_eq!(
        branch_err("some_condition { foo, bar. baz. }"),
        ERR_UNEXPECTED_CONTENT_AFTER_DIRECTIVES
    );
}

#[test]
fn mod_parse_match_arm() {
    assert_eq!(
        arm_ok("'a' => foo, --> baz_state."),
        MatchArm {
            pattern: Pattern::Byte(b'a'),
            rhs: MatchArmRhs::Directives(Directives {
                action_calls: vec![act("foo")],
                state_transition: Some(StateTransition {
                    to_state: "baz_state".into(),
                    mode: TransitionMode::Normal
                })
            })
        }
    );
}

#[test]
fn match_arm_parse_match_arm() {
    assert_eq!(
        arm_ok("alpha => foo, bar, baz."),
        MatchArm {
            pattern: Pattern::Class(ClassPattern::Alpha),
            rhs: MatchArmRhs::Directives(Directives {
                action_calls: vec![act("foo"), act("bar"), act("baz")],
                state_transition: None
            })
        }
    );
}

#[test]
fn rhs_parse_simple_condition() {
    assert_eq!(
        rhs_ok("if cond { foo, bar. } else { baz. }"),
        MatchArmRhs::Condition {
            if_branch: ConditionBranch {
                condition: "cond".into(),
                directives: Directives {
                    action_calls: vec![act("foo"), act("bar")],
                    state_transition: None
                }
            },
            else_if_branches: vec![],
            else_branch: Directives {
                action_calls: vec![act("baz")],
                state_transition: None
            }
        }
    );
}

#[test]
fn rhs_parse_else_if_condition() {
    assert_eq!(
        rhs_ok("if cond1 { foo. } else if cond2 { baz. } else { quz. }"),
        MatchArmRhs::Condition {
            if_branch: ConditionBranch {
                condition: "cond1".into(),
                directives: Directives {
                    action_calls: vec![act("foo")],
                    state_transition: None
                }
            },
            else_if_branches: vec![ConditionBranch {
                condition: "cond2".into(),
                directives: Directives {
                    action_calls: vec![act("baz")],
                    state_transition: None
                }
            }],
            else_branch: Directives {
                action_calls: vec![act("quz")],
                state_transition: None
            }
        }
    );
}
