use byte_muncher::compile::compile_grammar;
use byte_muncher::machine::{
    machine_run, machine_start, machine_write, Halt, PredDef, RunCtx, TraceEvent,
};
use byte_muncher::model::TransitionMode;
use byte_muncher::parser::parse_grammar_str;

fn run(
    src: &str,
    chunks: &[(&[u8], bool)],
    preds: Vec<PredDef>,
    failing: Vec<&str>,
) -> RunCtx {
    let g = parse_grammar_str(src).unwrap();
    let m = compile_grammar(&g).unwrap();
    let chunk_vec: Vec<(Vec<u8>, bool)> =
        chunks.iter().map(|(c, l)| (c.to_vec(), *l)).collect();
    let failing_vec: Vec<String> = failing.iter().map(|s| s.to_string()).collect();
    machine_run(&m, &preds, &failing_vec, &chunk_vec, 10_000)
}

fn act(name: &str) -> TraceEvent {
    TraceEvent::Action { name: name.into() }
}

fn goto(target: usize, mode: TransitionMode) -> TraceEvent {
    TraceEvent::Transition { target, mode }
}

fn pred(name: &str, truth: &[u8]) -> PredDef {
    PredDef { name: name.into(), truth: truth.to_vec() }
}

#[test]
fn scenario_single_byte_then_finish() {
    // Byte 'a' in state s runs its action and moves into t; a stray
    // byte in t loops without a transition; the true end of input in t
    // runs the finishing action.
    let ctx = run(
        "G = { s: 'a' => move_action, --> t. t: eof => finish. _ => loop. }",
        &[(b"ab", true)],
        vec![],
        vec![],
    );
    assert_eq!(
        ctx.trace,
        vec![
            act("move_action"),
            goto(1, TransitionMode::Normal),
            act("loop"),
            act("finish"),
        ]
    );
    assert_eq!(ctx.halted, Some(Halt::Done));
}

#[test]
fn scenario_split_sequence_matches_once() {
    // The sequence "GET " with the ignore-case flag, split as "ge"
    // (non-final) then "t " (final), fires its arm exactly once, after
    // the second chunk arrives.
    let src = "H = { s: [71, 69, 84, 32]|i => matched. eof => fin. _ => other. }";
    let split = run(src, &[(b"ge", false), (b"t ", true)], vec![], vec![]);
    let whole = run(src, &[(b"get ", true)], vec![], vec![]);
    assert_eq!(split.trace, vec![act("matched"), act("fin")]);
    assert_eq!(split.trace, whole.trace);
}

#[test]
fn scenario_every_split_gives_the_same_trace() {
    // Splitting the same byte stream anywhere, with all but the last
    // chunk non-final, leaves the action trace unchanged.
    let src = "H = { s: [104, 105]|i => hi, --> s2. eof => early. s2: 120 => tail. eof => bye. }";
    let input: &[u8] = b"Hix";
    let whole = run(src, &[(input, true)], vec![], vec![]);
    assert_eq!(
        whole.trace,
        vec![act("hi"), goto(1, TransitionMode::Normal), act("tail"), act("bye")]
    );
    for cut in 0..=input.len() {
        let split = run(src, &[(&input[..cut], false), (&input[cut..], true)], vec![], vec![]);
        assert_eq!(split.trace, whole.trace, "split at {cut}");
    }
}

#[test]
fn scenario_sequence_fails_at_final_chunk() {
    // A sequence that cannot complete on the final chunk fails
    // outright and the next arm takes the bytes.
    let src = "H = { s: [120, 121, 122] => xyz. eof => fin. _ => other. }";
    let ctx = run(src, &[(b"xy", true)], vec![], vec![]);
    assert_eq!(ctx.trace, vec![act("other"), act("other"), act("fin")]);
}

#[test]
fn scenario_eoc_waits_eof_finishes() {
    // End-of-chunk fires only between chunks; end-of-file only at the
    // true end.
    let src = "G = { s: eoc => at_eoc. eof => at_eof. _ => byte. }";
    let ctx = run(src, &[(b"a", false), (b"", true)], vec![], vec![]);
    assert_eq!(ctx.trace, vec![act("byte"), act("at_eoc"), act("at_eof")]);
    assert_eq!(ctx.halted, Some(Halt::Done));
}

#[test]
fn scenario_reconsume_reoffers_the_byte() {
    // A reconsume transition hands the triggering byte to the target
    // state's arms again.
    let src = "G = { s: digit => seen, as in t. _ => junk. t: digit => got_digit. eof => fin. _ => not_digit. }";
    let ctx = run(src, &[(b"5", true)], vec![], vec![]);
    assert_eq!(
        ctx.trace,
        vec![
            act("seen"),
            goto(1, TransitionMode::Reconsume),
            act("got_digit"),
            act("fin"),
        ]
    );
}

#[test]
fn scenario_normal_transition_consumes_the_byte() {
    let src = "G = { s: digit => seen, --> t. _ => junk. t: digit => got_digit. eof => fin. _ => not_digit. }";
    let ctx = run(src, &[(b"5", true)], vec![], vec![]);
    assert_eq!(
        ctx.trace,
        vec![act("seen"), goto(1, TransitionMode::Normal), act("fin")]
    );
}

#[test]
fn scenario_epsilon_move_runs_target_prelude() {
    // An epsilon move activates the target, whose prelude runs before
    // any further dispatch.
    let src = "G = { s: _ => seen, move --> t. t: --> => entered. eof => fin. _ => rest. }";
    let ctx = run(src, &[(b"q", true)], vec![], vec![]);
    assert_eq!(
        ctx.trace,
        vec![
            act("seen"),
            goto(1, TransitionMode::EpsilonMove),
            act("entered"),
            act("fin"),
        ]
    );
}

#[test]
fn scenario_prelude_runs_once_per_activation() {
    let src = "G = { s: --> => setup. 'a' => got_a. 'r' => again, as in u. eof => fin. _ => other. u: --> => setup_u. 'r' => handled. eof => fin_u. _ => o_u. }";
    let ctx = run(src, &[(b"ar", true)], vec![], vec![]);
    assert_eq!(
        ctx.trace,
        vec![
            act("setup"),
            act("got_a"),
            act("again"),
            goto(1, TransitionMode::Reconsume),
            act("setup_u"),
            act("handled"),
            act("fin_u"),
        ]
    );
}

#[test]
fn scenario_first_match_wins() {
    // Both arms cover the byte; only the first fires.
    let src = "G = { s: digit => narrow. eof => fin. _ => wide. }";
    let ctx = run(src, &[(b"7", true)], vec![], vec![]);
    assert_eq!(ctx.trace, vec![act("narrow"), act("fin")]);
}

#[test]
fn scenario_digit_class_bytes() {
    // Byte 0x39 ('9') is a digit; byte 0x3A (':') is not.
    let src = "G = { s: digit => is_digit. eof => fin. _ => not_digit. }";
    let ctx = run(src, &[(&[0x39, 0x3A], true)], vec![], vec![]);
    assert_eq!(ctx.trace, vec![act("is_digit"), act("not_digit"), act("fin")]);
}

#[test]
fn scenario_failed_action_aborts_rhs() {
    // A failing fallible action aborts the remaining actions and the
    // transition of its directive list.
    let src = "G = { s: 'a' => before, risky?, after, --> t. _ => other. t: _ => unreachable_action. }";
    let ctx = run(src, &[(b"a", true)], vec![], vec!["risky"]);
    assert_eq!(
        ctx.trace,
        vec![act("before"), TraceEvent::FailedAction { name: "risky".into() }]
    );
    assert_eq!(ctx.halted, Some(Halt::Failed));
}

#[test]
fn scenario_fallible_action_that_succeeds() {
    let src = "G = { s: 'a' => before, risky?, after. eof => fin. _ => other. }";
    let ctx = run(src, &[(b"a", true)], vec![], vec![]);
    assert_eq!(ctx.trace, vec![act("before"), act("risky"), act("after"), act("fin")]);
}

#[test]
fn scenario_markers_record_positions() {
    let src = "G = { s: 'a' => @start(word). 'b' => @end(word), @mark(spot). eof => fin. _ => other. }";
    let ctx = run(src, &[(b"ab", true)], vec![], vec![]);
    assert_eq!(
        ctx.trace,
        vec![
            TraceEvent::StartMark { label: "word".into(), pos: 1 },
            TraceEvent::EndMark { label: "word".into(), pos: 2 },
            TraceEvent::Mark { label: "spot".into(), pos: 2 },
            act("fin"),
        ]
    );
}

#[test]
fn scenario_back_rewinds_one_byte() {
    // Rewinding makes the byte eligible again for the next dispatch.
    let src = "G = { s: 'a' => once, --> t. _ => other. t: 'a' => seen_again. eof => fin. _ => nope. }";
    let with_back =
        "G = { s: 'a' => once, @back, --> t. _ => other. t: 'a' => seen_again. eof => fin. _ => nope. }";
    let plain = run(src, &[(b"a", true)], vec![], vec![]);
    let rewound = run(with_back, &[(b"a", true)], vec![], vec![]);
    assert_eq!(plain.trace, vec![act("once"), goto(1, TransitionMode::Normal), act("fin")]);
    assert_eq!(
        rewound.trace,
        vec![
            act("once"),
            TraceEvent::Back { pos: 0 },
            goto(1, TransitionMode::Normal),
            act("seen_again"),
            act("fin"),
        ]
    );
}

#[test]
fn scenario_predicates_choose_branches() {
    let src = "G = { s: if vowel => v. eof => fin. _ => c. }";
    let preds = vec![pred("vowel", b"aeiou")];
    let ctx = run(src, &[(b"ax", true)], preds, vec![]);
    assert_eq!(ctx.trace, vec![act("v"), act("c"), act("fin")]);
}

#[test]
fn scenario_conditional_rhs_picks_one_branch() {
    let src = "G = { s: eof => fin. _ => if low { small. } else if high { big. } else { mid. } }";
    let preds = vec![pred("low", b"a"), pred("high", b"z")];
    let ctx = run(src, &[(b"azm", true)], preds, vec![]);
    assert_eq!(ctx.trace, vec![act("small"), act("big"), act("mid"), act("fin")]);
}

#[test]
fn scenario_unmatched_byte_strands_the_machine() {
    let src = "G = { s: 'a' => only_a. }";
    let ctx = run(src, &[(b"b", true)], vec![], vec![]);
    assert_eq!(ctx.trace, vec![TraceEvent::Stuck]);
    assert_eq!(ctx.halted, Some(Halt::Stuck));
}

#[test]
fn scenario_eoc_fires_at_each_chunk_boundary() {
    // Exhausting the buffer between chunks is observable on purpose:
    // an end-of-chunk arm runs once per boundary, so chunking is part
    // of the input, not noise, for grammars that listen to it.
    let src = "G = { s: eoc => pause. eof => fin. _ => b. }";
    let ctx = run(src, &[(b"a", false), (b"b", false), (b"", true)], vec![], vec![]);
    assert_eq!(
        ctx.trace,
        vec![act("b"), act("pause"), act("b"), act("pause"), act("fin")]
    );
}

#[test]
fn scenario_sequence_claims_the_suspension() {
    // A sequence arm earlier in the state suspends at the buffer end
    // even with nothing buffered yet; the end-of-chunk arm after it
    // never gets the boundary.
    let src = "G = { s: [97, 98] => ab. eoc => waiting. eof => fin. }";
    let ctx = run(src, &[(b"", false), (b"ab", true)], vec![], vec![]);
    assert_eq!(ctx.trace, vec![act("ab"), act("fin")]);
}

#[test]
fn scenario_epsilon_cycle_runs_out_of_fuel() {
    // A cycle of epsilon moves makes no progress on the input; the
    // step allowance of the write cuts it off.
    let g = parse_grammar_str("G = { s: _ => spin, move --> s. }").unwrap();
    let m = byte_muncher::compile::compile_grammar(&g).unwrap();
    let ctx = byte_muncher::machine::machine_run(
        &m,
        &vec![],
        &vec![],
        &vec![(b"".to_vec(), true)],
        8,
    );
    assert_eq!(ctx.halted, Some(Halt::OutOfFuel));
}

#[test]
fn incremental_writes_resume_the_machine() {
    let g = parse_grammar_str(
        "G = { s: [104, 105] => hi, --> t. eof => early. t: eof => bye. _ => rest. }",
    )
    .unwrap();
    let m = byte_muncher::compile::compile_grammar(&g).unwrap();
    let preds = vec![];
    let failing = vec![];
    let mut ctx = machine_start(&m);
    machine_write(&m, &preds, &failing, &mut ctx, &b"h".to_vec(), false, 1000);
    assert_eq!(ctx.trace, vec![]);
    assert!(ctx.halted.is_none());
    machine_write(&m, &preds, &failing, &mut ctx, &b"i".to_vec(), true, 1000);
    assert_eq!(
        ctx.trace,
        vec![act("hi"), goto(1, TransitionMode::Normal), act("bye")]
    );
    assert_eq!(ctx.halted, Some(Halt::Done));
}
