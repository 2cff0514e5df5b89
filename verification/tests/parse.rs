use iced_css::{parse, Length, MarginValue, Margins, Property};

fn px(v: f32) -> Length {
    Length::Px(v.to_bits())
}

fn mpx(v: f32) -> MarginValue {
    MarginValue::Px(v.to_bits())
}

#[test]
fn single_class_rule() {
    let sheet = parse(".btn { width: 50px; height: 50px; }").unwrap();
    assert_eq!(sheet.rules.len(), 1);
    assert_eq!(sheet.rules[0].class, "btn");
    assert_eq!(
        sheet.rules[0].declarations,
        vec![Property::Width(px(50.0)), Property::Height(px(50.0))]
    );
}

#[test]
fn last_declaration_without_semicolon() {
    let sheet = parse(".a { width: 10px }").unwrap();
    assert_eq!(sheet.rules[0].declarations, vec![Property::Width(px(10.0))]);
}

#[test]
fn percent_and_auto() {
    let sheet = parse(".a { width: 50%; height: auto; }").unwrap();
    assert_eq!(
        sheet.rules[0].declarations,
        vec![
            Property::Width(Length::Percent(0.5f32.to_bits())),
            Property::Height(Length::Auto),
        ]
    );
}

#[test]
fn unitless_zero_is_allowed() {
    let sheet = parse(".a { width: 0; }").unwrap();
    assert_eq!(sheet.rules[0].declarations, vec![Property::Width(px(0.0))]);
}

#[test]
fn unitless_nonzero_is_an_error() {
    assert!(parse(".a { width: 100; }").is_err());
}

#[test]
fn margin_shorthands() {
    let sheet = parse(
        ".a1 { margin: 10px; } .a2 { margin: 10px 20px; } \
         .a3 { margin: 10px 20px 30px; } .a4 { margin: 10px 20px 30px 40px; }",
    )
    .unwrap();
    let margins: Vec<Margins> = sheet
        .rules
        .iter()
        .map(|r| match r.declarations[0] {
            Property::Margin(m) => m,
            _ => panic!("expected margin"),
        })
        .collect();

    let px = mpx;
    assert_eq!(margins[0], Margins { top: px(10.0), right: px(10.0), bottom: px(10.0), left: px(10.0) });
    assert_eq!(margins[1], Margins { top: px(10.0), right: px(20.0), bottom: px(10.0), left: px(20.0) });
    assert_eq!(margins[2], Margins { top: px(10.0), right: px(20.0), bottom: px(30.0), left: px(20.0) });
    assert_eq!(margins[3], Margins { top: px(10.0), right: px(20.0), bottom: px(30.0), left: px(40.0) });
}

#[test]
fn margin_five_values_is_an_error() {
    assert!(parse(".m { margin: 1px 2px 3px 4px 5px; }").is_err());
}

#[test]
fn margin_zero_auto() {
    let sheet = parse(".m { margin: 0 auto; }").unwrap();
    assert_eq!(
        sheet.rules[0].declarations,
        vec![Property::Margin(Margins {
            top: mpx(0.0),
            right: MarginValue::Auto,
            bottom: mpx(0.0),
            left: MarginValue::Auto,
        })]
    );
}

#[test]
fn margin_unitless_nonzero_is_an_error() {
    assert!(parse(".m { margin: 10 auto; }").is_err());
}

#[test]
fn unsupported_property_is_carried() {
    let sheet = parse(".a { background-color: #ffffff; width: 10px; }").unwrap();
    assert_eq!(
        sheet.rules[0].declarations,
        vec![
            Property::Unsupported("background-color".to_string()),
            Property::Width(px(10.0)),
        ]
    );
}

#[test]
fn unterminated_block_is_an_error() {
    assert!(parse(".btn { width: 50px; height:").is_err());
}

#[test]
fn unsupported_selector_is_an_error() {
    assert!(parse("button { width: 10px; }").is_err());
    assert!(parse(".a, .b { width: 10px; }").is_err());
}

#[test]
fn comments_and_empty_sheets() {
    assert_eq!(parse("").unwrap().rules.len(), 0);
    assert_eq!(parse("/* nothing */").unwrap().rules.len(), 0);
    let sheet = parse(".a /* c */ { /* c */ width: 10px; /* c */ }").unwrap();
    assert_eq!(sheet.rules.len(), 1);
}

#[test]
fn error_reports_location() {
    let err = parse(".a { width: banana; }").unwrap_err();
    assert!(err.message.contains("banana"), "{}", err.message);
    assert_eq!(err.line, 0);
}
