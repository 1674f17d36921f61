use byte_muncher::model::{
    ActionCall, Directives, Literal, StateTransition, TransitionMode,
};
use byte_muncher::parser::{parse_action_call_str, parse_directives_str};

const ERR_EMPTY_ARGS: &str = "expected at least one action argument (action calls without arguments don't need to have parentheses)";

const ERR_TOO_MANY_ARGS: &str = "too many arguments";
const ERR_UNKNOWN_BUILT_IN: &str = "unknown built-in directive";

const ERR_UNEXPECTED_ITEM: &str = "match arm directives should consist of zero or more colon-terminated action calls with an optional trailing state transition (`--> {state}`)";

fn act(name: &str) -> ActionCall {
    ActionCall::UserDefined {
        name: name.into(),
        args: vec![],
        fallible: false,
    }
}

fn call_ok(src: &str) -> ActionCall {
    parse_action_call_str(src).unwrap()
}

fn call_err(src: &str) -> String {
    parse_action_call_str(src).unwrap_err().message
}

fn dir_ok(src: &str) -> Directives {
    parse_directives_str(src).unwrap()
}

fn dir_err(src: &str) -> String {
    parse_directives_str(src).unwrap_err().message
}

#[test]
fn parse_user_defined() {
    assert_eq!(call_ok("foo"), act("foo"));

    assert_eq!(
        call_ok("foo(\"bar\", 123)"),
        ActionCall::UserDefined {
            name: "foo".into(),
            args: vec![Literal::Str("bar".into()), Literal::Int(123)],
            fallible: false
        }
    );

    assert_eq!(
        call_ok("bar(true, 123)?"),
        ActionCall::UserDefined {
            name: "bar".into(),
            args: vec![Literal::Bool(true), Literal::Int(123)],
            fallible: true
        }
    );

    assert_eq!(
        call_ok("baz?"),
        ActionCall::UserDefined {
            name: "baz".into(),
            args: vec![],
            fallible: true
        }
    );
}

#[test]
fn parse_built_in() {
    assert_eq!(call_ok("@start(foo)"), ActionCall::Start("foo".into()));
    assert_eq!(call_ok("@end(bar)"), ActionCall::End("bar".into()));
}

#[test]
fn parse_back_built_in() {
    assert_eq!(call_ok("@back"), ActionCall::Back);
}

#[test]
fn parse_mark_built_in() {
    assert_eq!(call_ok("@mark(token_start)"), ActionCall::Mark("token_start".into()));
}

#[test]
fn missing_mark_built_in_argument_error() {
    assert_eq!(call_err("@mark()"), "unexpected end of input, expected identifier");
}

#[test]
fn too_many_args_for_built_in_error() {
    assert_eq!(call_err("@start(foo, bar)"), ERR_TOO_MANY_ARGS);
    assert_eq!(call_err("@end(foo, bar)"), ERR_TOO_MANY_ARGS);
}

#[test]
fn unknown_built_in_error() {
    assert_eq!(call_err("@foo"), ERR_UNKNOWN_BUILT_IN);
}

#[test]
fn empty_arg_list_error() {
    assert_eq!(call_err("foo()?"), ERR_EMPTY_ARGS);
}

#[test]
fn parse_empty_list() {
    assert_eq!(
        dir_ok("."),
        Directives {
            action_calls: vec![],
            state_transition: None
        }
    );
}

#[test]
fn parse_action_calls() {
    assert_eq!(
        dir_ok("foo, bar, baz."),
        Directives {
            action_calls: vec![act("foo"), act("bar"), act("baz")],
            state_transition: None
        }
    );
}

#[test]
fn parse_state_transition() {
    assert_eq!(
        dir_ok("foo, bar, --> baz_state."),
        Directives {
            action_calls: vec![act("foo"), act("bar")],
            state_transition: Some(StateTransition {
                to_state: "baz_state".into(),
                mode: TransitionMode::Normal
            })
        }
    );

    assert_eq!(
        dir_ok("--> foo_state."),
        Directives {
            action_calls: vec![],
            state_transition: Some(StateTransition {
                to_state: "foo_state".into(),
                mode: TransitionMode::Normal
            })
        }
    );

    assert_eq!(
        dir_ok("foo, bar, as in baz_state."),
        Directives {
            action_calls: vec![act("foo"), act("bar")],
            state_transition: Some(StateTransition {
                to_state: "baz_state".into(),
                mode: TransitionMode::Reconsume
            })
        }
    );

    assert_eq!(
        dir_ok("as in foo_state."),
        Directives {
            action_calls: vec![],
            state_transition: Some(StateTransition {
                to_state: "foo_state".into(),
                mode: TransitionMode::Reconsume
            })
        }
    );

    assert_eq!(
        dir_ok("foo, bar, move --> baz_state."),
        Directives {
            action_calls: vec![act("foo"), act("bar")],
            state_transition: Some(StateTransition {
                to_state: "baz_state".into(),
                mode: TransitionMode::EpsilonMove
            })
        }
    );

    assert_eq!(
        dir_ok("move --> foo_state."),
        Directives {
            action_calls: vec![],
            state_transition: Some(StateTransition {
                to_state: "foo_state".into(),
                mode: TransitionMode::EpsilonMove
            })
        }
    );
}

#[test]
fn unexpected_item_error() {
    assert_eq!(dir_err("foo, 123."), ERR_UNEXPECTED_ITEM);
    assert_eq!(dir_err("foo, -- bar."), ERR_UNEXPECTED_ITEM);
}

#[test]
fn unterminated_action_error() {
    assert_eq!(dir_err("foo, baz bar."), "expected `,` or `.`");
}

#[test]
fn transition_without_destination_state_error() {
    assert_eq!(dir_err("-->"), "unexpected end of input, expected identifier");
}

#[test]
fn state_transition_is_not_last_entry_error() {
    assert_eq!(dir_err("foo, --> bar_state, baz."), "expected `.`");
}

#[test]
fn action_call_unknown_built_in_error() {
    assert_eq!(call_err("@foo"), ERR_UNKNOWN_BUILT_IN);
}

#[test]
fn action_call_empty_arg_list_error() {
    assert_eq!(call_err("foo()?"), ERR_EMPTY_ARGS);
}

#[test]
fn mod_unexpected_item_error() {
    assert_eq!(dir_err("foo, 123."), ERR_UNEXPECTED_ITEM);
    assert_eq!(dir_err("foo, -- bar."), ERR_UNEXPECTED_ITEM);
}

#[test]
fn mod_unterminated_action_error() {
    assert_eq!(dir_err("foo, baz bar."), "expected `,` or `.`");
}

#[test]
fn mod_transition_without_destination_state_error() {
    assert_eq!(dir_err("-->"), "unexpected end of input, expected identifier");
}

#[test]
fn mod_state_transition_is_not_last_entry_error() {
    assert_eq!(dir_err("foo, --> bar_state, baz."), "expected `.`");
}

#[test]
fn mod_parse_empty_list() {
    assert_eq!(
        dir_ok("."),
        Directives {
            action_calls: vec![],
            state_transition: None
        }
    );
}

#[test]
fn mod_parse_action_calls() {
    assert_eq!(
        dir_ok("foo, bar, baz."),
        Directives {
            action_calls: vec![act("foo"), act("bar"), act("baz")],
            state_transition: None
        }
    );
}

#[test]
fn mod_parse_state_transition() {
    assert_eq!(
        dir_ok("foo, bar, --> baz_state."),
        Directives {
            action_calls: vec![act("foo"), act("bar")],
            state_transition: Some(StateTransition {
                to_state: "baz_state".into(),
                mode: TransitionMode::Normal
            })
        }
    );

    assert_eq!(
        dir_ok("move --> foo_state."),
        Directives {
            action_calls: vec![],
            state_transition: Some(StateTransition {
                to_state: "foo_state".into(),
                mode: TransitionMode::EpsilonMove
            })
        }
    );
}

#[test]
fn action_call_parse_user_defined() {
    assert_eq!(call_ok("foo"), act("foo"));

    assert_eq!(
        call_ok("bar(true, 123)?"),
        ActionCall::UserDefined {
            name: "bar".into(),
            args: vec![Literal::Bool(true), Literal::Int(123)],
            fallible: true
        }
    );
}

#[test]
fn transition_terminated_like_an_action_error() {
    // A transition is not an action call: ending it with an action
    // terminator gets its own message, distinct from the missing
    // period.
    assert_eq!(
        dir_err("foo, --> bar_state;"),
        "state transition don't need to be terminated by a semicolon"
    );
    assert_eq!(
        dir_err("foo, as in bar_state;"),
        "state transition don't need to be terminated by a semicolon"
    );
    assert_eq!(dir_err("foo, --> bar_state, baz."), "expected `.`");
}
