use iced_css::{parse, Length, MarginValue, Paddings, Property};

fn err(css: &str) -> (String, u32, u32) {
    let e = parse(css).unwrap_err();
    (e.message, e.line, e.column)
}

#[test]
fn selector_errors() {
    assert_eq!(
        err("button { width: 10px; }"),
        ("unsupported selector start: Ident(\"button\")".to_string(), 0, 7)
    );
    assert_eq!(err(".a, .b { width: 10px; }"), ("UnexpectedToken(Comma)".to_string(), 0, 3));
    assert_eq!(err(".7 { }"), ("unsupported selector start: Number { has_sign: false, value: 0.7, int_value: None }".to_string(), 0, 3));
    assert_eq!(err("."), ("EndOfInput".to_string(), 0, 2));
    assert_eq!(err(".a"), ("EndOfInput".to_string(), 0, 3));
    assert_eq!(err("}"), ("unsupported selector start: CloseCurlyBracket".to_string(), 0, 2));
}

#[test]
fn declaration_errors() {
    assert_eq!(err(".a { ; }"), ("UnexpectedToken(Semicolon)".to_string(), 0, 5));
    assert_eq!(err(".a { width }"), ("EndOfInput".to_string(), 0, 12));
    assert_eq!(err(".a { width 1px }"), ("UnexpectedToken(Dimension { has_sign: false, value: 1.0, int_value: Some(1), unit: \"px\" })".to_string(), 0, 11));
    assert_eq!(err(".a { width: }"), ("EndOfInput".to_string(), 0, 13));
}

#[test]
fn length_errors() {
    assert_eq!(err(".a { width: 2em; }"), ("unsupported length unit: em".to_string(), 0, 16));
    assert_eq!(err(".a { width: 100; }"), ("non-zero lengths require a unit".to_string(), 0, 16));
    assert_eq!(err(".a { width: banana; }"), ("expected a length, got Ident(\"banana\")".to_string(), 0, 19));
    assert_eq!(
        err(".a {\n width: 1px 2px; }"),
        ("UnexpectedToken(Dimension { has_sign: false, value: 2.0, int_value: Some(2), unit: \"px\" })".to_string(), 1, 12)
    );
}

#[test]
fn margin_and_padding_errors() {
    assert_eq!(err(".m { margin: 10%; }"), ("percentage margins are not supported yet".to_string(), 0, 17));
    assert_eq!(err(".m { margin: 1px 2px 3px 4px 5px; }"), ("margin max 4 values".to_string(), 0, 29));
    assert_eq!(err(".m { margin: ; }"), ("margin needs at least 1 value".to_string(), 0, 13));
    assert_eq!(err(".p { padding: auto; }"), ("padding does not accept auto".to_string(), 0, 19));
    assert_eq!(err(".p { padding-top: 5%; }"), ("percentage paddings are not supported yet".to_string(), 0, 21));
    assert_eq!(err(".p { padding: 1px 2px 3px 4px 5px; }"), ("padding max 4 values".to_string(), 0, 30));
    assert_eq!(err(".p { padding:; }"), ("padding needs at least 1 value".to_string(), 0, 14));
}

#[test]
fn case_of_units_and_auto_is_ignored() {
    let sheet = parse(".a { width: 10PX; height: AuTo; }").unwrap();
    assert_eq!(
        sheet.rules[0].declarations,
        vec![Property::Width(Length::Px(10.0f32.to_bits())), Property::Height(Length::Auto)]
    );
}

#[test]
fn blocks_inside_values_are_passed_over() {
    let sheet = parse(".a { background: rgb(1; 2) { x; } [;]; border: a(}); width: 5px }").unwrap();
    assert_eq!(
        sheet.rules[0].declarations,
        vec![
            Property::Unsupported("background".to_string()),
            Property::Unsupported("border".to_string()),
            Property::Width(Length::Px(5.0f32.to_bits())),
        ]
    );
}

#[test]
fn unclosed_block_ends_with_the_input() {
    let sheet = parse(".a { margin-left: auto").unwrap();
    assert_eq!(sheet.rules[0].declarations, vec![Property::MarginLeft(MarginValue::Auto)]);
}

#[test]
fn padding_shorthands() {
    let sheet = parse(".p { padding: 1px 2px 3px; padding-right: 0 }").unwrap();
    let b = |v: f32| v.to_bits();
    assert_eq!(
        sheet.rules[0].declarations,
        vec![
            Property::Padding(Paddings { top: b(1.0), right: b(2.0), bottom: b(3.0), left: b(2.0) }),
            Property::PaddingRight(b(0.0)),
        ]
    );
}

#[test]
fn several_rules_and_empty_blocks() {
    let sheet = parse(".a {} .b { min-width: 1px; max-width: 50%; } .a { }").unwrap();
    assert_eq!(sheet.rules.len(), 3);
    assert_eq!(sheet.rules[0].declarations, vec![]);
    assert_eq!(
        sheet.rules[1].declarations,
        vec![Property::MinWidth(Length::Px(1.0f32.to_bits())), Property::MaxWidth(Length::Percent(0.5f32.to_bits()))]
    );
}

#[test]
fn stray_and_unclosed_brackets() {
    let sheet = parse(".a { color: red ) ] ; width: 1px }").unwrap();
    assert_eq!(
        sheet.rules[0].declarations,
        vec![Property::Unsupported("color".to_string()), Property::Width(Length::Px(1.0f32.to_bits()))]
    );
    let sheet = parse(".a { x: [ ; width: 1px }").unwrap();
    assert_eq!(sheet.rules[0].declarations, vec![Property::Unsupported("x".to_string())]);
    let sheet = parse(".a { color: f(x").unwrap();
    assert_eq!(sheet.rules[0].declarations, vec![Property::Unsupported("color".to_string())]);
    assert_eq!(err(".a { width: ] }"), ("expected a length, got CloseSquareBracket".to_string(), 0, 14));
    assert_eq!(err(".m { margin: 1px ) }"), ("expected a length, got CloseParenthesis".to_string(), 0, 19));
    assert_eq!(err(".a { } }"), ("unsupported selector start: CloseCurlyBracket".to_string(), 0, 9));
}

#[test]
fn error_positions_across_lines_and_rules() {
    assert_eq!(err(".a {\n  width: 1em;\n}"), ("unsupported length unit: em".to_string(), 1, 13));
    assert_eq!(err(".a { width: 1px }\n.b { height: 5 }"), ("non-zero lengths require a unit".to_string(), 1, 15));
    assert_eq!(err(".a { width: 1px f(2) }"), ("UnexpectedToken(Function(\"f\"))".to_string(), 0, 16));
}

#[test]
fn comments_are_passed_over() {
    let sheet = parse("/* x */.a{/*c*/width:/*d*/2PX/*e*/}").unwrap();
    assert_eq!(sheet.rules[0].declarations, vec![Property::Width(Length::Px(2.0f32.to_bits()))]);
}
