use byte_muncher::model::{ClassPattern, InputStatePattern, Pattern, SequencePattern};
use byte_muncher::parser::{
    parse_byte_pattern_str, parse_pattern_str, parse_sequence_pattern_str, BytePattern,
};

const ERR_CHAR_IS_NOT_ASCII: &str = "character should be in the ASCII range. For bigger byte values use numeric representation (e.g. 0x1F)";

const ERR_INT_IS_OUT_OF_BOUNDS: &str =
    "numeric pattern is not in the byte value range (0x00-0xFF, 0-255, etc.)";

const ERR_STR_IS_NOT_ASCII: &str = "characters in string sequence pattern should be in the ASCII range. Use array sequence patterns instead (e.g. ['f', 0x00, 'O'])";

const ERR_UNSUPPORTED_FLAG: &str =
    "unsupported sequence flag. Only ignore case flag (`i`) is currently supported";

const ERR_UNKNOWN_PATTERN: &str = "unknown pattern";

fn byte_ok(src: &str) -> BytePattern {
    parse_byte_pattern_str(src).unwrap()
}

fn byte_err(src: &str) -> String {
    parse_byte_pattern_str(src).unwrap_err().message
}

fn pat_ok(src: &str) -> Pattern {
    parse_pattern_str(src).unwrap()
}

fn pat_err(src: &str) -> String {
    parse_pattern_str(src).unwrap_err().message
}

fn seq_ok(src: &str) -> SequencePattern {
    parse_sequence_pattern_str(src).unwrap()
}

fn seq_err(src: &str) -> String {
    parse_sequence_pattern_str(src).unwrap_err().message
}

#[test]
fn parse_char_literal() {
    assert_eq!(byte_ok("'a'"), BytePattern(0x61));
    assert_eq!(byte_ok("'>'"), BytePattern(0x3e));
    assert_eq!(byte_ok("'0'"), BytePattern(0x30));
}

#[test]
fn non_ascii_char_literal_error() {
    assert_eq!(byte_err("'£'"), ERR_CHAR_IS_NOT_ASCII);
    assert_eq!(byte_err("'🐼'"), ERR_CHAR_IS_NOT_ASCII);
}

#[test]
fn parse_int_literal() {
    assert_eq!(byte_ok("0x61"), BytePattern(0x61));
    assert_eq!(byte_ok("62"), BytePattern(0x3e));
    assert_eq!(byte_ok("48u64"), BytePattern(0x30));
}

#[test]
fn int_literal_outside_byte_range_error() {
    assert_eq!(byte_err("0x777"), ERR_INT_IS_OUT_OF_BOUNDS);
    assert_eq!(byte_err("256"), ERR_INT_IS_OUT_OF_BOUNDS);
}

#[test]
fn parse_int_literal_outside_byte_range_error() {
    assert_eq!(byte_err("0x777"), ERR_INT_IS_OUT_OF_BOUNDS);
    assert_eq!(byte_err("256"), ERR_INT_IS_OUT_OF_BOUNDS);
}

#[test]
fn byte_unexpected_token_error() {
    assert_eq!(byte_err("-3"), "expected character literal or integer literal");
}

#[test]
fn parse_unexpected_token_error() {
    assert_eq!(byte_err("-3"), "expected character literal or integer literal");
}

#[test]
fn parse_byte_pattern() {
    assert_eq!(pat_ok("'a'"), Pattern::Byte(0x61));
    assert_eq!(pat_ok("0x61"), Pattern::Byte(0x61));
}

#[test]
fn parse_seq_pattern() {
    assert_eq!(
        pat_ok("\"FooBar\"|i"),
        Pattern::Sequence(SequencePattern {
            bytes: vec![0x46, 0x6f, 0x6f, 0x42, 0x61, 0x72],
            ignore_case: true
        })
    );

    assert_eq!(
        pat_ok("[1, 2, 0x03]|i"),
        Pattern::Sequence(SequencePattern {
            bytes: vec![0x01, 0x02, 0x03],
            ignore_case: true
        })
    );
}

#[test]
fn parse_class_pattern() {
    assert_eq!(pat_ok("alnum"), Pattern::Class(ClassPattern::Alnum));
    assert_eq!(pat_ok("alpha"), Pattern::Class(ClassPattern::Alpha));
    assert_eq!(pat_ok("ascii"), Pattern::Class(ClassPattern::Ascii));
    assert_eq!(pat_ok("lower"), Pattern::Class(ClassPattern::Lower));
    assert_eq!(pat_ok("upper"), Pattern::Class(ClassPattern::Upper));
    assert_eq!(pat_ok("digit"), Pattern::Class(ClassPattern::Digit));
    assert_eq!(pat_ok("xdigit"), Pattern::Class(ClassPattern::Xdigit));
    assert_eq!(pat_ok("space"), Pattern::Class(ClassPattern::Space));
}

#[test]
fn parse_set_pattern() {
    assert_eq!(pat_ok("alpha"), Pattern::Class(ClassPattern::Alpha));
    assert_eq!(pat_ok("alpha_lo"), Pattern::Class(ClassPattern::Lower));
    assert_eq!(pat_ok("alpha_up"), Pattern::Class(ClassPattern::Upper));
    assert_eq!(pat_ok("digit"), Pattern::Class(ClassPattern::Digit));
    assert_eq!(pat_ok("ws"), Pattern::Class(ClassPattern::Space));
}

#[test]
fn parse_input_state_pattern() {
    assert_eq!(pat_ok("eoc"), Pattern::InputState(InputStatePattern::Eoc));
    assert_eq!(pat_ok("eof"), Pattern::InputState(InputStatePattern::Eof));
}

#[test]
fn parse_condition_pattern() {
    assert_eq!(pat_ok("if foobar"), Pattern::Condition("foobar".into()));
}

#[test]
fn condition_pattern_without_identifier_error() {
    assert_eq!(pat_err("if =>"), "expected identifier");
}

#[test]
fn parse_any_pattern() {
    assert_eq!(pat_ok("_"), Pattern::Any);
}

#[test]
fn parse_state_enter_pattern() {
    assert_eq!(pat_ok("-->"), Pattern::StateEnter);
}

#[test]
fn unknown_pattern_error() {
    assert_eq!(pat_err("foobar"), ERR_UNKNOWN_PATTERN);
}

#[test]
fn mod_unexpected_token_error() {
    assert_eq!(
        pat_err("-3"),
        "expected one of: character literal, integer literal, string literal, square brackets, identifier, `_`, `if`"
    );
}

#[test]
fn parse_str_literal() {
    assert_eq!(
        seq_ok("\"FooBar\""),
        SequencePattern {
            bytes: vec![0x46, 0x6f, 0x6f, 0x42, 0x61, 0x72],
            ignore_case: false
        }
    );

    assert_eq!(
        seq_ok("\"QuXQuZ\"|i"),
        SequencePattern {
            bytes: vec![0x51, 0x75, 0x58, 0x51, 0x75, 0x5a],
            ignore_case: true
        }
    );
}

#[test]
fn sequence_parse_non_ascii_char_literal_error() {
    assert_eq!(seq_err("\"Foo™Bar\""), ERR_STR_IS_NOT_ASCII);
    assert_eq!(seq_err("\"💖 yo 💖\""), ERR_STR_IS_NOT_ASCII);
}

#[test]
fn parse_array() {
    assert_eq!(
        seq_ok("[0x46, 'o', 111u64, 0x42, 'a', 0x72]"),
        SequencePattern {
            bytes: vec![0x46, 0x6f, 0x6f, 0x42, 0x61, 0x72],
            ignore_case: false
        }
    );

    assert_eq!(
        seq_ok("[0x51, 'u', 0x58, 0x51, 'u', 0x5a]|i"),
        SequencePattern {
            bytes: vec![0x51, 0x75, 0x58, 0x51, 0x75, 0x5a],
            ignore_case: true
        }
    );
}

#[test]
fn non_ascii_char_in_array_error() {
    assert_eq!(seq_err("['f', '🐼', 0x51]|i"), ERR_CHAR_IS_NOT_ASCII);
}

#[test]
fn int_literal_in_array_outside_byte_range_error() {
    assert_eq!(seq_err("['f', 'o', 0x515151]"), ERR_INT_IS_OUT_OF_BOUNDS);
}

#[test]
fn malformed_flag_error() {
    assert_eq!(seq_err("\"Foo\"|\"Bar\""), "expected identifier");
}

#[test]
fn unsupported_flag_error() {
    assert_eq!(seq_err("\"Foo\"|s"), ERR_UNSUPPORTED_FLAG);
}

#[test]
fn sequence_unexpected_token_error() {
    assert_eq!(seq_err("-3"), "expected string literal or square brackets");
}

#[test]
fn byte_parse_char_literal() {
    assert_eq!(byte_ok("'a'"), BytePattern(0x61));
    assert_eq!(byte_ok("'>'"), BytePattern(0x3e));
    assert_eq!(byte_ok("'0'"), BytePattern(0x30));
}

#[test]
fn byte_parse_int_literal() {
    assert_eq!(byte_ok("0x61"), BytePattern(0x61));
    assert_eq!(byte_ok("62"), BytePattern(0x3e));
    assert_eq!(byte_ok("48u64"), BytePattern(0x30));
}

#[test]
fn mod_parse_byte_pattern() {
    assert_eq!(pat_ok("'a'"), Pattern::Byte(0x61));
    assert_eq!(pat_ok("0x61"), Pattern::Byte(0x61));
}

#[test]
fn mod_parse_seq_pattern() {
    assert_eq!(
        pat_ok("\"FooBar\"|i"),
        Pattern::Sequence(SequencePattern {
            bytes: vec![0x46, 0x6f, 0x6f, 0x42, 0x61, 0x72],
            ignore_case: true
        })
    );

    assert_eq!(
        pat_ok("[1, 2, 0x03]|i"),
        Pattern::Sequence(SequencePattern {
            bytes: vec![0x01, 0x02, 0x03],
            ignore_case: true
        })
    );
}

#[test]
fn mod_parse_input_state_pattern() {
    assert_eq!(pat_ok("eoc"), Pattern::InputState(InputStatePattern::Eoc));
    assert_eq!(pat_ok("eof"), Pattern::InputState(InputStatePattern::Eof));
}

#[test]
fn mod_parse_condition_pattern() {
    assert_eq!(pat_ok("if foobar"), Pattern::Condition("foobar".into()));
}

#[test]
fn mod_condition_pattern_without_identifier_error() {
    assert_eq!(pat_err("if =>"), "expected identifier");
}

#[test]
fn mod_parse_any_pattern() {
    assert_eq!(pat_ok("_"), Pattern::Any);
}

#[test]
fn mod_unknown_pattern_error() {
    assert_eq!(pat_err("foobar"), ERR_UNKNOWN_PATTERN);
}

#[test]
fn unexpected_token_error() {
    assert_eq!(
        pat_err("-3"),
        "expected one of: character literal, integer literal, string literal, square brackets, identifier, `_`, `if`"
    );
}

#[test]
fn sequence_parse_str_literal() {
    assert_eq!(
        seq_ok("\"FooBar\""),
        SequencePattern {
            bytes: vec![0x46, 0x6f, 0x6f, 0x42, 0x61, 0x72],
            ignore_case: false
        }
    );

    assert_eq!(
        seq_ok("\"QuXQuZ\"|i"),
        SequencePattern {
            bytes: vec![0x51, 0x75, 0x58, 0x51, 0x75, 0x5a],
            ignore_case: true
        }
    );
}

#[test]
fn parse_non_ascii_char_literal_error() {
    assert_eq!(seq_err("\"Foo™Bar\""), ERR_STR_IS_NOT_ASCII);
    assert_eq!(seq_err("\"💖 yo 💖\""), ERR_STR_IS_NOT_ASCII);
}

#[test]
fn sequence_malformed_flag_error() {
    assert_eq!(seq_err("\"Foo\"|\"Bar\""), "expected identifier");
}

#[test]
fn sequence_unsupported_flag_error() {
    assert_eq!(seq_err("\"Foo\"|s"), ERR_UNSUPPORTED_FLAG);
}
