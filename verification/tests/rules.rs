use usbguard_gui::model::error::ParseErrorKind;
use usbguard_gui::model::ids::DeviceId;
use usbguard_gui::model::rule::{AttributeName, AttributeValue, AttributeValues, ConditionClause, ConditionName, RuleTarget, SetOperator};
use usbguard_gui::model::target::Target;
use usbguard_gui::rules::grammar::MAX_INPUT_LEN;
use usbguard_gui::rules::lexer::{tokenize, TokenKind};
use usbguard_gui::rules::{parse_device, parse_partial, parse_query, parse_rule, render_checked};

fn kinds(input: &str) -> Vec<TokenKind> {
    tokenize(input.as_bytes()).unwrap().into_iter().map(|t| t.kind).collect()
}

#[test]
fn words_braces_and_strings() {
    assert_eq!(
        kinds(r#"allow with-interface { 03:01:01 } name "a b""#),
        vec![
            TokenKind::Word(b"allow".to_vec()),
            TokenKind::Word(b"with-interface".to_vec()),
            TokenKind::LBrace,
            TokenKind::Word(b"03:01:01".to_vec()),
            TokenKind::RBrace,
            TokenKind::Word(b"name".to_vec()),
            TokenKind::Str(b"a b".to_vec()),
        ]
    );
}

#[test]
fn escapes_including_non_utf8() {
    assert_eq!(kinds(r#""q\"b\\s\xff\t""#), vec![TokenKind::Str(b"q\"b\\s\xff\t".to_vec())]);
}

#[test]
fn condition_parameters_keep_nested_parens_and_strings() {
    assert_eq!(
        kinds(r#"if !allowed-matches(name "x)" if rule-applied(10))"#),
        vec![
            TokenKind::Word(b"if".to_vec()),
            TokenKind::Bang,
            TokenKind::Word(b"allowed-matches".to_vec()),
            TokenKind::Param(br#"name "x)" if rule-applied(10)"#.to_vec()),
        ]
    );
}

#[test]
fn comment_runs_to_the_end() {
    assert_eq!(
        kinds("block # a { b"),
        vec![TokenKind::Word(b"block".to_vec()), TokenKind::Comment(b" a { b".to_vec())]
    );
}

#[test]
fn errors_have_offsets() {
    let err = tokenize(br#"name "abc"#).unwrap_err();
    assert_eq!((err.kind, err.offset), (ParseErrorKind::UnterminatedString, 5));
    let err = tokenize(br#"name "\q""#).unwrap_err();
    assert_eq!((err.kind, err.offset), (ParseErrorKind::InvalidEscape, 6));
    let err = tokenize(b"if random(0.5").unwrap_err();
    assert_eq!(err.kind, ParseErrorKind::UnterminatedParameter);
    let err = tokenize(b"x((((((((((1))))))))))").unwrap_err();
    assert_eq!(err.kind, ParseErrorKind::TooDeep);
}

/// Parses, renders, and checks the text is reproduced exactly.
fn round_trip(text: &str) {
    let rule = parse_query(text).unwrap_or_else(|e| panic!("{text}: {e:?}"));
    assert_eq!(rule.to_string(), text);
    assert_eq!(render_checked(&rule).unwrap(), text);
}

/// Rules as the daemon prints them and as the grammar allows them.
const CORPUS: &str = r#"allow id 1d6b:0002 serial "0000:00:14.0" name "xHCI Host Controller" hash "jEP/6WzviqdJ5VSeTUY8PatCNBKeaREvo2OqdplND/o=" parent-hash "G1ehGQdrl3dJ9HvW9w2HdC//pk87pKzFE1WY25bq8k4=" with-interface 09:00:00 with-connect-type ""
allow id 8087:0026 serial "" name "" hash "r3EP7g7D3/Fi6tzyZ2ptbdJ9/JuBNIGNz4H2oWUGZZ4=" parent-hash "jEP/6WzviqdJ5VSeTUY8PatCNBKeaREvo2OqdplND/o=" via-port "1-10" with-interface { e0:01:01 e0:01:01 e0:01:01 e0:01:01 e0:01:01 e0:01:01 e0:01:01 } with-connect-type "not used"
block id 0781:5581 serial "4C530001131110110271" name "Ultra" via-port "2-1" with-interface 08:06:50 with-connect-type "hotplug"
reject with-interface all-of { 08:*:* 03:00:* }
allow with-interface one-of { 03:00:01 03:01:01 } if !rule-applied
block id 1234:* label "usb-key"
allow id *:* if { localtime(09:00-17:00) !random(0.5) }
match
allow name "say \"hi\"" # trailing comment
reject via-port "1-2.3" if none-of { true false }"#;

#[test]
fn real_corpus_round_trips() {
    for line in CORPUS.lines().filter(|l| !l.is_empty() && !l.starts_with('#')) {
        round_trip(line);
    }
}

#[test]
fn attribute_forms() {
    let rule = parse_rule(r#"block id 1234:* with-interface one-of { 03:*:* 08:06:50 } label "usb-key""#).unwrap();
    assert_eq!(rule.target, Some(RuleTarget::Block));
    let wi = rule.attribute(AttributeName::WithInterface).unwrap();
    let AttributeValues::SetOf { operator, values } = &wi.values else {
        panic!("expected a set");
    };
    assert_eq!(*operator, Some(SetOperator::OneOf));
    assert_eq!(values.len(), 2);
    assert!(matches!(values[0], AttributeValue::Interface(_)));
}

#[test]
fn every_set_operator_including_match_all() {
    for op in ["all-of", "one-of", "none-of", "equals", "equals-ordered", "match-all"] {
        round_trip(&format!("allow with-interface {op} {{ 03:00:00 }}"));
    }
}

#[test]
fn conditions() {
    round_trip("allow if localtime(08:00-18:30:15)");
    round_trip("allow if !rule-applied(10)");
    round_trip("allow if rule-evaluated");
    round_trip("allow if random(0.25)");
    round_trip("allow if one-of { true !false random }");
    round_trip(r#"allow if allowed-matches(id 1234:5678 name "x)y")"#);
    round_trip("allow if { rule-applied(00:10:00) }");
    let rule = parse_rule("reject if !true").unwrap();
    let Some(ConditionClause::Single(c)) = rule.condition else {
        panic!("expected one condition");
    };
    assert!(c.negated);
    assert_eq!(c.name, ConditionName::True);
}

#[test]
fn invalid_conditions() {
    for bad in [
        "allow if localtime",
        "allow if localtime(25)",
        "allow if true(1)",
        "allow if random(1.5)",
        "allow if rule-applied(x)",
        "allow if allowed-matches(bogus)",
    ] {
        let err = parse_rule(bad).unwrap_err();
        assert_eq!(err.kind, ParseErrorKind::InvalidConditionParameter, "{bad}");
    }
    assert_eq!(parse_rule("allow if sometimes").unwrap_err().kind, ParseErrorKind::UnknownCondition);
}

#[test]
fn targets_per_entry_point() {
    assert_eq!(parse_rule("match").unwrap_err().kind, ParseErrorKind::InvalidTarget);
    assert_eq!(parse_rule(r#"name "x""#).unwrap_err().kind, ParseErrorKind::InvalidTarget);
    assert_eq!(parse_query("match").unwrap().target, Some(RuleTarget::Match));
    assert_eq!(parse_partial(r#"name "x""#).unwrap().target, None);
    assert_eq!(parse_partial("allow").unwrap_err().kind, ParseErrorKind::InvalidTarget);
    assert_eq!(parse_rule("").unwrap_err().kind, ParseErrorKind::Empty);
    assert_eq!(parse_partial("# only").unwrap_err().kind, ParseErrorKind::Empty);
}

#[test]
fn errors_point_at_the_offending_token() {
    let err = parse_rule(r#"allow name "ok" colour "red""#).unwrap_err();
    assert_eq!((err.kind, err.offset), (ParseErrorKind::UnknownAttribute, 16));
    let err = parse_rule("allow id 12345:0000").unwrap_err();
    assert_eq!((err.kind, err.offset), (ParseErrorKind::InvalidValue, 9));
    let err = parse_rule(r#"allow name "a" name "b""#).unwrap_err();
    assert_eq!(err.kind, ParseErrorKind::DuplicateAttribute);
    let err = parse_rule("allow name").unwrap_err();
    assert_eq!((err.kind, err.offset), (ParseErrorKind::UnexpectedEnd, 10));
    let err = parse_rule("allow name unquoted").unwrap_err();
    assert_eq!(err.kind, ParseErrorKind::InvalidValue);
    let err = parse_rule("allow with-interface { 03:00:00").unwrap_err();
    assert_eq!(err.kind, ParseErrorKind::UnexpectedEnd);
    let err = parse_rule("allow }").unwrap_err();
    assert_eq!(err.kind, ParseErrorKind::UnexpectedToken);
}

#[test]
fn hostile_device_name_cannot_inject() {
    let text = r#"allow name "a\" if true \\ \xff\xfe end" serial "1""#;
    let rule = parse_rule(text).unwrap();
    let name = rule.string_value(AttributeName::Name).unwrap();
    assert_eq!(name.as_bytes(), b"a\" if true \\ \xff\xfe end");
    assert!(rule.condition.is_none());
    let rendered = render_checked(&rule).unwrap();
    assert_eq!(parse_rule(&rendered).unwrap(), rule);
}

#[test]
fn control_characters_are_escaped_on_render() {
    let rule = parse_rule(r#"allow name "a\nb\x01""#).unwrap();
    assert_eq!(rule.to_string(), r#"allow name "a\x0ab\x01""#);
}

#[test]
fn device_rows_survive_bad_text() {
    let good = parse_device(DeviceId::new(3), r#"block id 1111:0001 name "Example Keyboard" via-port "1-1""#.into());
    assert_eq!(good.target, Target::Block);
    assert_eq!(good.attrs.name.as_deref(), Some("Example Keyboard"));

    let bad = parse_device(DeviceId::new(4), r#"allow name "unterminated"#.into());
    assert_eq!(bad.target, Target::Allow);
    assert!(bad.parse_error.is_some());
    assert_eq!(bad.rule_text, r#"allow name "unterminated"#);
}

#[test]
fn oversized_input_is_rejected_before_parsing() {
    let huge = format!("allow name \"{}\"", "a".repeat(MAX_INPUT_LEN));
    assert_eq!(parse_rule(&huge).unwrap_err().kind, ParseErrorKind::TooLong);
}

#[test]
fn string_values_are_typed_by_attribute() {
    let rule = parse_rule(r#"allow via-port "1-2.1" hash "abc=""#).unwrap();
    assert!(matches!(
        rule.attribute(AttributeName::ViaPort).unwrap().values,
        AttributeValues::Single(AttributeValue::String(_))
    ));
}

#[test]
fn render_then_parse_gives_the_rule_back() {
    for text in [
        r#"allow id 1234:5678 name "Disk" with-interface { 08:06:50 03:*:* } if !true # note"#,
        r#"reject serial "\x00\xff" via-port "3-1.2""#,
        "block with-interface none-of { 09:00:00 } if one-of { rule-applied(10) localtime(00:00-23:59) }",
    ] {
        let rule = parse_query(text).unwrap();
        let again = parse_query(&rule.to_string()).unwrap();
        assert_eq!(again, rule);
    }
}
