use twixelbox_bot::parser::ChatCommand;
use twixelbox_bot::parser::ParseError;
use twixelbox_bot::parser::SignedCommand;

#[test]
fn test_parse_valid_command() {
    let cmd = ChatCommand::parse("10 10 10 255 0 0").unwrap();
    assert_eq!(
        cmd,
        ChatCommand {
            x: 10,
            y: 10,
            z: 10,
            r: 255,
            g: 0,
            b: 0
        }
    );
}

#[test]
fn test_parse_color_out_of_range() {
    assert_eq!(
        ChatCommand::parse("10 10 10 256 0 0"),
        Err(ParseError::ColorRangeError)
    );
    assert_eq!(
        ChatCommand::parse("10 10 10 0 256 0"),
        Err(ParseError::ColorRangeError)
    );
    assert_eq!(
        ChatCommand::parse("10 10 10 0 0 256"),
        Err(ParseError::ColorRangeError)
    );
}

#[test]
fn test_parse_color_boundary() {
    let cmd = ChatCommand::parse("0 0 0 255 255 255").unwrap();
    assert_eq!(cmd.r, 255);
    assert_eq!(cmd.g, 255);
    assert_eq!(cmd.b, 255);
}

#[test]
fn test_parse_too_few_fields() {
    assert_eq!(ChatCommand::parse("1 2 3"), Err(ParseError::FieldCountError));
}

#[test]
fn test_parse_too_many_fields() {
    assert_eq!(
        ChatCommand::parse("1 2 3 4 5 6 7"),
        Err(ParseError::FieldCountError)
    );
}

#[test]
fn test_parse_non_numeric_token() {
    assert_eq!(
        ChatCommand::parse("a 2 3 4 5 6"),
        Err(ParseError::NumericFormatError)
    );
    assert_eq!(
        ChatCommand::parse("1 2 3 4 5 x"),
        Err(ParseError::NumericFormatError)
    );
}

#[test]
fn test_parse_non_numeric_beats_field_count() {
    // The numeric shape of every token is checked before the count.
    assert_eq!(
        ChatCommand::parse("1 a"),
        Err(ParseError::NumericFormatError)
    );
}

#[test]
fn test_parse_empty_line() {
    // An empty line is one empty token, which is not numeric.
    assert_eq!(ChatCommand::parse(""), Err(ParseError::NumericFormatError));
}

#[test]
fn test_parse_double_space() {
    // Adjacent spaces produce an empty token, which is not numeric.
    assert_eq!(
        ChatCommand::parse("10  10 10 255 0 0"),
        Err(ParseError::NumericFormatError)
    );
}

#[test]
fn test_parse_leading_plus() {
    let cmd = ChatCommand::parse("+10 10 10 255 0 0").unwrap();
    assert_eq!(cmd.x, 10);
}

#[test]
fn test_parse_negative_coordinate_rejected() {
    assert_eq!(
        ChatCommand::parse("-1 10 10 255 0 0"),
        Err(ParseError::NumericFormatError)
    );
}

#[test]
fn test_parse_u32_overflow() {
    assert_eq!(
        ChatCommand::parse("4294967296 0 0 0 0 0"),
        Err(ParseError::NumericFormatError)
    );
    let cmd = ChatCommand::parse("4294967295 0 0 0 0 0").unwrap();
    assert_eq!(cmd.x, u32::MAX);
}

#[test]
fn test_parse_signed_negative_coordinates() {
    let cmd = SignedCommand::parse("-290 -40 -90 200 10 10").unwrap();
    assert_eq!(
        cmd,
        SignedCommand {
            x: -290,
            y: -40,
            z: -90,
            r: 200,
            g: 10,
            b: 10
        }
    );
}

#[test]
fn test_parse_signed_negative_color_rejected() {
    assert_eq!(
        SignedCommand::parse("0 0 0 -1 0 0"),
        Err(ParseError::ColorRangeError)
    );
}

#[test]
fn test_parse_signed_i32_range() {
    let cmd = SignedCommand::parse("-2147483648 2147483647 0 0 0 0").unwrap();
    assert_eq!(cmd.x, i32::MIN);
    assert_eq!(cmd.y, i32::MAX);
    assert_eq!(
        SignedCommand::parse("-2147483649 0 0 0 0 0"),
        Err(ParseError::NumericFormatError)
    );
    assert_eq!(
        SignedCommand::parse("2147483648 0 0 0 0 0"),
        Err(ParseError::NumericFormatError)
    );
}

#[test]
fn test_offset_shifts_into_bounds() {
    let cmd = SignedCommand::parse("-290 -40 -90 200 10 10").unwrap();
    let cube = cmd.offset(300, 50, 100).unwrap();
    assert_eq!(cube.position, (10, 10, 10));
    assert_eq!(cube.colour, (200, 10, 10));
}

#[test]
fn test_offset_drops_negative_result() {
    let cmd = SignedCommand::parse("-301 0 0 1 2 3").unwrap();
    assert!(cmd.offset(300, 50, 100).is_none());
}

#[test]
fn test_parse_line_bytes() {
    let r = ChatCommand::parse_line(b"1 2 3 4 5 6").unwrap();
    assert_eq!(
        r,
        ChatCommand {
            x: 1,
            y: 2,
            z: 3,
            r: 4,
            g: 5,
            b: 6
        }
    );
}
