use teloxide::utils::command::{
    parse_i64, ArgShape, CommandDecl, CommandTable, CommandValue, FieldKind, FieldValue,
    ParseError,
};

fn table(accept_unaddressed: bool) -> CommandTable {
    CommandTable::new(
        vec![
            CommandDecl {
                name: "cmd".to_string(),
                shape: ArgShape::Positional(vec![FieldKind::Integer, FieldKind::Text]),
            },
            CommandDecl { name: "echo".to_string(), shape: ArgShape::RestOfLine },
            CommandDecl { name: "ping".to_string(), shape: ArgShape::Positional(vec![]) },
        ],
        accept_unaddressed,
    )
}

fn expect_ok(r: Result<CommandValue, ParseError>) -> CommandValue {
    match r {
        Ok(v) => v,
        Err(e) => panic!("expected a parsed command, got {:?}", e),
    }
}

#[test]
fn positional_int_and_text() {
    let v = expect_ok(table(true).parse("/cmd 5 hello", "mybot"));
    assert_eq!(v.name, "cmd");
    assert_eq!(v.args, vec![FieldValue::Integer(5), FieldValue::Text("hello".to_string())]);
}

#[test]
fn other_recipient_is_rejected() {
    let r = table(true).parse("/cmd@othername 5 hello", "mybot");
    assert_eq!(r, Err(ParseError::WrongRecipient));
}

#[test]
fn matching_recipient_is_case_insensitive() {
    let v = expect_ok(table(true).parse("/cmd@MyBot 5 hello", "mybot"));
    assert_eq!(v.name, "cmd");
    assert_eq!(v.args, vec![FieldValue::Integer(5), FieldValue::Text("hello".to_string())]);
}

#[test]
fn unknown_identity_is_rejected() {
    let r = table(true).parse("/unknown 1 2", "mybot");
    assert_eq!(r, Err(ParseError::UnknownCommand));
}

#[test]
fn plain_text_is_not_a_command() {
    let r = table(true).parse("hello there", "mybot");
    assert_eq!(r, Err(ParseError::NotACommand));
}

#[test]
fn empty_text_is_not_a_command() {
    let r = table(true).parse("", "mybot");
    assert_eq!(r, Err(ParseError::NotACommand));
}

#[test]
fn wrong_arity_is_distinguished() {
    let r = table(true).parse("/cmd 5", "mybot");
    assert_eq!(r, Err(ParseError::WrongArity { expected: 2, got: 1 }));
}

#[test]
fn bad_integer_token_names_its_position() {
    let r = table(true).parse("/cmd five hello", "mybot");
    assert_eq!(r, Err(ParseError::InvalidArgument { index: 0 }));
}

#[test]
fn rest_of_line_keeps_inner_spacing() {
    let v = expect_ok(table(true).parse("/echo  hello  world", "mybot"));
    assert_eq!(v.name, "echo");
    assert_eq!(v.args, vec![FieldValue::Text("hello  world".to_string())]);
}

#[test]
fn zero_arity_command_parses() {
    let v = expect_ok(table(true).parse("/ping", "mybot"));
    assert_eq!(v.name, "ping");
    assert_eq!(v.args, vec![]);
}

#[test]
fn missing_suffix_rejected_when_configured() {
    let r = table(false).parse("/cmd 5 hello", "mybot");
    assert_eq!(r, Err(ParseError::WrongRecipient));
}

#[test]
fn missing_suffix_accepted_when_configured() {
    let v = expect_ok(table(false).parse("/cmd@mybot 5 hello", "mybot"));
    assert_eq!(v.name, "cmd");
}

#[test]
fn extreme_integer_arguments() {
    let v = expect_ok(table(true).parse("/cmd 9223372036854775807 x", "mybot"));
    assert_eq!(v.args[0], FieldValue::Integer(i64::MAX));
    let v = expect_ok(table(true).parse("/cmd -9223372036854775808 x", "mybot"));
    assert_eq!(v.args[0], FieldValue::Integer(i64::MIN));
    let r = table(true).parse("/cmd 9223372036854775808 x", "mybot");
    assert_eq!(r, Err(ParseError::InvalidArgument { index: 0 }));
}

#[test]
fn parse_i64_accepts_decimal_tokens() {
    assert_eq!(parse_i64("42"), Some(42));
    assert_eq!(parse_i64("-7"), Some(-7));
    assert_eq!(parse_i64("0"), Some(0));
    assert_eq!(parse_i64("007"), Some(7));
}

#[test]
fn parse_i64_rejects_everything_else() {
    assert_eq!(parse_i64(""), None);
    assert_eq!(parse_i64("-"), None);
    assert_eq!(parse_i64("12a"), None);
    assert_eq!(parse_i64("+5"), None);
    assert_eq!(parse_i64("1 2"), None);
    assert_eq!(parse_i64("18446744073709551616"), None);
}
