use byte_muncher::model::{
    ActionCall, Directives, Grammar, InputStatePattern, MatchArm, MatchArmRhs, Pattern, State,
    StateTransition, TransitionMode,
};
use byte_muncher::parser::{parse_grammar_str, parse_state_str};

fn act(name: &str) -> ActionCall {
    ActionCall::UserDefined {
        name: name.into(),
        args: vec![],
        fallible: false,
    }
}

fn plain(calls: Vec<ActionCall>, transition: Option<StateTransition>) -> MatchArmRhs {
    MatchArmRhs::Directives(Directives {
        action_calls: calls,
        state_transition: transition,
    })
}

fn goto(name: &str, mode: TransitionMode) -> Option<StateTransition> {
    Some(StateTransition {
        to_state: name.into(),
        mode,
    })
}

#[test]
fn state_parse() {
    assert_eq!(
        parse_state_str("foo_state:\n    'a' => bar, --> baz_state.\n    _   => qux, quz, as in qux_state.\n").unwrap(),
        State {
            name: "foo_state".into(),
            arms: vec![
                MatchArm {
                    pattern: Pattern::Byte(b'a'),
                    rhs: plain(vec![act("bar")], goto("baz_state", TransitionMode::Normal))
                },
                MatchArm {
                    pattern: Pattern::Any,
                    rhs: plain(
                        vec![act("qux"), act("quz")],
                        goto("qux_state", TransitionMode::Reconsume)
                    )
                }
            ]
        }
    );
}

#[test]
fn no_arms_error() {
    assert_eq!(
        parse_state_str("foo_state:").unwrap_err().message,
        "unexpected end of input, expected one of: character literal, integer literal, string literal, square brackets, identifier, `_`, `if`"
    );
}

#[test]
fn parse_parse() {
    assert_eq!(
        parse_grammar_str("TestGrammar = {\n    foo_state:\n        'a' => bar, --> baz_state.\n        _   => qux, quz, move --> qux_state.\n\n    baz_state:\n        eof => qux.\n        _ => --> qux_state.\n\n    qux_state:\n        --> => qux, quz.\n        _ => quz.\n}").unwrap(),
        Grammar {
            name: "TestGrammar".into(),
            states: vec![
                State {
                    name: "foo_state".into(),
                    arms: vec![
                        MatchArm {
                            pattern: Pattern::Byte(b'a'),
                            rhs: plain(vec![act("bar")], goto("baz_state", TransitionMode::Normal))
                        },
                        MatchArm {
                            pattern: Pattern::Any,
                            rhs: plain(
                                vec![act("qux"), act("quz")],
                                goto("qux_state", TransitionMode::EpsilonMove)
                            )
                        }
                    ]
                },
                State {
                    name: "baz_state".into(),
                    arms: vec![
                        MatchArm {
                            pattern: Pattern::InputState(InputStatePattern::Eof),
                            rhs: plain(vec![act("qux")], None)
                        },
                        MatchArm {
                            pattern: Pattern::Any,
                            rhs: plain(vec![], goto("qux_state", TransitionMode::Normal))
                        }
                    ]
                },
                State {
                    name: "qux_state".into(),
                    arms: vec![
                        MatchArm {
                            pattern: Pattern::StateEnter,
                            rhs: plain(vec![act("qux"), act("quz")], None)
                        },
                        MatchArm {
                            pattern: Pattern::Any,
                            rhs: plain(vec![act("quz")], None)
                        }
                    ]
                }
            ]
        }
    );
}

#[test]
fn empty_grammar_error() {
    assert_eq!(
        parse_grammar_str("FooGrammar = {}").unwrap_err().message,
        "unexpected end of input, expected identifier"
    );
}

#[test]
fn parse_no_arms_error() {
    assert_eq!(
        parse_state_str("foo_state:").unwrap_err().message,
        "unexpected end of input, expected one of: character literal, integer literal, string literal, square brackets, identifier, `_`, `if`"
    );
}

#[test]
fn state_no_arms_error() {
    assert_eq!(
        parse_state_str("foo_state:").unwrap_err().message,
        "unexpected end of input, expected one of: character literal, integer literal, string literal, square brackets, identifier, `_`, `if`"
    );
}
