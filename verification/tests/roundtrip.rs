use byte_muncher::parser::{parse_grammar_str, parse_match_arm_str};
use byte_muncher::serial::{serialize_grammar, serialize_match_arm};

// Parsing a grammar, serializing the model back to the canonical
// surface syntax, and re-parsing yields a structurally equal model.
fn roundtrips(src: &str) {
    let first = parse_grammar_str(src).unwrap();
    let canonical = serialize_grammar(&first);
    let second = parse_grammar_str(&canonical).unwrap();
    assert_eq!(first, second, "canonical form:\n{canonical}");
    // The canonical form is a fixed point: serializing again gives the
    // same text.
    assert_eq!(canonical, serialize_grammar(&second));
}

#[test]
fn round_trip_simple_grammar() {
    roundtrips("G = { s: 'a' => move_action, --> t. t: eof => finish. _ => loop. }");
}

#[test]
fn round_trip_full_grammar() {
    roundtrips(
        "TestGrammar = {\n    foo_state:\n        'a' => bar, --> baz_state.\n        _   => qux, quz, move --> qux_state.\n\n    baz_state:\n        eof => qux.\n        _ => --> qux_state.\n\n    qux_state:\n        --> => qux, quz.\n        _ => quz.\n}",
    );
}

#[test]
fn round_trip_every_pattern_kind() {
    roundtrips(
        "P = { s: --> => setup. 'a' => a1. 0x1F => a2. \"GET \"|i => a3. [1, 2, 3] => a4. alnum => a5. alpha => a6. ascii => a7. lower => a8. upper => a9. digit => b1. xdigit => b2. space => b3. eoc => b4. eof => b5. if cond => b6. _ => b7. }",
    );
}

#[test]
fn round_trip_every_directive_kind() {
    roundtrips(
        "D = { s: 'a' => foo(\"ba\\\\r\\\"x\", 123, true, false)?, @mark(m), @back, @start(sp), @end(sp), as in t. 'b' => . 'c' => move --> t. _ => plain. t: _ => if c1 { x. } else if c2 { y, --> s. } else { z. } }",
    );
}

#[test]
fn round_trip_after_serialization_is_stable() {
    let src = "G = { s: [71, 69, 84, 32]|i => matched, --> t. eof => fin. t: _ => other. }";
    let g = parse_grammar_str(src).unwrap();
    let text1 = serialize_grammar(&g);
    let g2 = parse_grammar_str(&text1).unwrap();
    let text2 = serialize_grammar(&g2);
    assert_eq!(text1, text2);
    assert_eq!(g, g2);
}

#[test]
fn canonical_forms_are_fixed() {
    let canon = |src: &str| serialize_match_arm(&parse_match_arm_str(src).unwrap());
    assert_eq!(canon("'a' => x."), "97 => x.");
    assert_eq!(canon("alnum => x."), "alnum => x.");
    assert_eq!(canon("alpha_lo => x."), "lower => x.");
    assert_eq!(canon("ws => x."), "space => x.");
    assert_eq!(canon("eoc => x."), "eoc => x.");
    assert_eq!(canon("\"Hi\"|i => x."), "[72, 105]|i => x.");
    assert_eq!(canon("_ => ."), "_ => .");
    assert_eq!(
        canon("--> => a, b(1, \"s\", true)?, @mark(m), @back, move --> t."),
        "--> => a, b(1, \"s\", true)?, @mark(m), @back, move --> t."
    );
}
