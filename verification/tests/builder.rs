use usbguard_gui::i18n::fill;
use usbguard_gui::model::error::{ParseError, ParseErrorKind};
use usbguard_gui::model::ids::DeviceId;
use usbguard_gui::model::rule::{AttributeName, RuleTarget, SetOperator};
use usbguard_gui::presentation::{caret_message, display_name, identity};
use usbguard_gui::rules::builder::{build_rule, FieldErrorKind, FieldInput};
use usbguard_gui::rules::{parse_device, render_checked};

fn field(name: AttributeName, operator: Option<SetOperator>, text: &str) -> FieldInput {
    FieldInput { name, operator, text: text.to_owned() }
}

#[test]
fn builds_and_renders() {
    let rule = build_rule(
        RuleTarget::Allow,
        &[
            field(AttributeName::Id, None, "1234:5678"),
            field(AttributeName::Name, None, "My \"Disk\""),
            field(AttributeName::WithInterface, Some(SetOperator::OneOf), "08:06:50  03:*:*"),
        ],
    )
    .unwrap();
    assert_eq!(
        render_checked(&rule).unwrap(),
        r#"allow id 1234:5678 name "My \"Disk\"" with-interface one-of { 08:06:50 03:*:* }"#
    );
}

#[test]
fn several_values_without_operator_form_a_set() {
    let rule = build_rule(RuleTarget::Block, &[field(AttributeName::WithInterface, None, "03:00:01 03:01:01")]).unwrap();
    assert_eq!(rule.to_string(), "block with-interface { 03:00:01 03:01:01 }");
}

#[test]
fn errors_name_the_row() {
    let err = build_rule(
        RuleTarget::Allow,
        &[field(AttributeName::Name, None, "ok"), field(AttributeName::Id, None, "12:34")],
    )
    .unwrap_err();
    assert_eq!(err.row, 1);
    assert_eq!(err.kind, FieldErrorKind::InvalidValue { name: AttributeName::Id, word: "12:34".to_owned() });

    let dup = build_rule(
        RuleTarget::Allow,
        &[field(AttributeName::Serial, None, "a"), field(AttributeName::Serial, None, "b")],
    )
    .unwrap_err();
    assert_eq!(dup.row, 1);

    assert!(build_rule(RuleTarget::Allow, &[field(AttributeName::Id, None, "  ")]).is_err());
    assert!(build_rule(RuleTarget::Allow, &[field(AttributeName::Name, Some(SetOperator::OneOf), "x")]).is_err());
}

#[test]
fn a_bare_target_is_a_valid_rule() {
    assert_eq!(build_rule(RuleTarget::Reject, &[]).unwrap().to_string(), "reject");
}

#[test]
fn row_errors_are_exact() {
    let empty = build_rule(RuleTarget::Allow, &[field(AttributeName::Id, None, " \t ")]).unwrap_err();
    assert_eq!((empty.row, empty.kind), (0, FieldErrorKind::Empty));
    let text_set = build_rule(RuleTarget::Allow, &[field(AttributeName::Label, Some(SetOperator::AllOf), "x")]).unwrap_err();
    assert_eq!((text_set.row, text_set.kind), (0, FieldErrorKind::SetOfText));
    let dup = build_rule(RuleTarget::Allow, &[field(AttributeName::Hash, None, "a"), field(AttributeName::Hash, None, "b")])
        .unwrap_err();
    assert_eq!(dup.kind, FieldErrorKind::Duplicate(AttributeName::Hash));
}

#[test]
fn placeholders_are_filled_wherever_they_are() {
    assert_eq!(fill("{b} then {a}", &[("a", "1"), ("b", "2")]), "2 then 1");
    assert_eq!(fill("no placeholders", &[("a", "1")]), "no placeholders");
}

#[test]
fn placeholders_fill_in_order() {
    assert_eq!(fill("{a}{a}", &[("a", "{b}"), ("b", "x")]), "xx");
    assert_eq!(fill("{ab}", &[("a", "1")]), "{ab}");
}

#[test]
fn carets_point_at_the_character() {
    let err = ParseError::new(ParseErrorKind::UnknownAttribute, 16);
    assert_eq!(
        caret_message(r#"allow name "ok" colour "red""#, err),
        "unknown attribute (character 17):\nallow name \"ok\" colour \"red\"\n                ^"
    );
    let mid = ParseError::new(ParseErrorKind::InvalidValue, 2);
    assert_eq!(caret_message("é x", mid), "invalid value for this attribute (character 2):\né x\n ^");
}

#[test]
fn device_names_and_identities() {
    let d = parse_device(DeviceId::new(8), r#"allow name "  Stick " hash "h=""#.into());
    assert_eq!(display_name(&d), "Stick");
    assert_eq!(identity(&d), "h=");
    let bare = parse_device(DeviceId::new(9), r#"block via-port "1-1""#.into());
    assert_eq!(display_name(&bare), "USB device 9");
    assert_eq!(identity(&bare), r#"via-port "1-1""#);
}
