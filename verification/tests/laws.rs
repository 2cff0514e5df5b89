use iced_css::{parse, Length, MarginValue, Margins, Paddings, Property};

fn px(v: f32) -> Length {
    Length::Px(v.to_bits())
}

#[test]
fn last_declaration_of_a_size_wins() {
    let sheet = parse(".a { width: 1px; width: 2px } .b { height: 3px } .a { width: 4px; }").unwrap();
    let r = sheet.resolve(&["b", "a"]);
    assert_eq!(r.width, Some(px(4.0)));
    assert_eq!(r.height, Some(px(3.0)));
    assert_eq!(r.min_width, None);
}

#[test]
fn margin_sides_follow_their_last_setter() {
    let sheet = parse(".a { margin-right: auto } .b { margin: 1px 2px; margin-bottom: 9px }").unwrap();
    let m = sheet.resolve(&["a", "b"]).margin.unwrap();
    assert_eq!(m.top, MarginValue::Px(1.0f32.to_bits()));
    assert_eq!(m.right, MarginValue::Px(2.0f32.to_bits()));
    assert_eq!(m.bottom, MarginValue::Px(9.0f32.to_bits()));
    assert_eq!(m.left, MarginValue::Px(2.0f32.to_bits()));
    let only_a = sheet.resolve(&["a"]).margin.unwrap();
    assert_eq!(only_a.right, MarginValue::Auto);
    assert_eq!(only_a.top, MarginValue::Px(0));
    assert_eq!(sheet.resolve(&["c"]).margin, None);
}

#[test]
fn padding_sides_follow_their_last_setter() {
    let sheet = parse(".a { padding-left: 7px; padding: 1px; padding-top: 3px }").unwrap();
    let b = |v: f32| v.to_bits();
    assert_eq!(
        sheet.resolve(&["a"]).padding,
        Some(Paddings { top: b(3.0), right: b(1.0), bottom: b(1.0), left: b(1.0) })
    );
}

#[test]
fn repeated_and_reordered_classes_resolve_alike() {
    let sheet = parse(".x { width: 1px; margin: 2px } .y { width: 3px; padding: 4px }").unwrap();
    assert_eq!(sheet.resolve(&["x", "y"]), sheet.resolve(&["y", "x", "y"]));
}

#[test]
fn unlisted_rules_change_nothing() {
    let with = parse(".x { width: 1px } .z { width: 5px; height: 6px } .y { height: 2px }").unwrap();
    let without = parse(".x { width: 1px } .y { height: 2px }").unwrap();
    assert_eq!(with.resolve(&["x", "y"]), without.resolve(&["x", "y"]));
}

#[test]
fn unsupported_declarations_do_nothing() {
    let sheet = parse(".x { color: red; width: 1px; display: none }").unwrap();
    let plain = parse(".x { width: 1px }").unwrap();
    assert_eq!(sheet.resolve(&["x"]), plain.resolve(&["x"]));
}

fn mpx(v: f32) -> MarginValue {
    MarginValue::Px(v.to_bits())
}

fn shorthand(value: &str) -> Result<Margins, String> {
    match parse(&format!(".m {{ margin: {value} }}")) {
        Ok(sheet) => match &sheet.rules[0].declarations[0] {
            Property::Margin(m) => Ok(*m),
            other => panic!("not a margin: {other:?}"),
        },
        Err(e) => Err(e.message),
    }
}

#[test]
fn margin_shorthand_counts() {
    let (a, b, c, d) = (mpx(1.0), mpx(2.0), MarginValue::Auto, mpx(0.0));
    assert_eq!(shorthand("1px"), Ok(Margins { top: a, right: a, bottom: a, left: a }));
    assert_eq!(shorthand("1px 2px"), Ok(Margins { top: a, right: b, bottom: a, left: b }));
    assert_eq!(shorthand("1px 2px auto"), Ok(Margins { top: a, right: b, bottom: c, left: b }));
    assert_eq!(shorthand("1px 2px auto 0"), Ok(Margins { top: a, right: b, bottom: c, left: d }));
    assert_eq!(shorthand(""), Err("margin needs at least 1 value".to_string()));
    assert_eq!(shorthand("1px 2px auto 0 1px 1px"), Err("margin max 4 values".to_string()));
    assert_eq!(shorthand("1px 3em"), Err("unsupported length unit: em".to_string()));
}

#[test]
fn margin_side_rule() {
    let side = |value: &str| match parse(&format!(".m {{ margin-left: {value} }}")) {
        Ok(sheet) => Ok(sheet.rules[0].declarations[0].clone()),
        Err(e) => Err(e.message),
    };
    assert_eq!(side("3Px"), Ok(Property::MarginLeft(mpx(3.0))));
    assert_eq!(side("AUTO"), Ok(Property::MarginLeft(MarginValue::Auto)));
    assert_eq!(side("0"), Ok(Property::MarginLeft(mpx(0.0))));
    assert_eq!(side("10%"), Err("percentage margins are not supported yet".to_string()));
    assert_eq!(side("7"), Err("non-zero lengths require a unit".to_string()));
}

#[test]
fn length_rule() {
    let width = |value: &str| match parse(&format!(".w {{ width: {value}; }}")) {
        Ok(sheet) => Ok(sheet.rules[0].declarations[0].clone()),
        Err(e) => Err(e.message),
    };
    assert_eq!(width("12pX"), Ok(Property::Width(px(12.0))));
    assert_eq!(width("50%"), Ok(Property::Width(Length::Percent(0.5f32.to_bits()))));
    assert_eq!(width("0"), Ok(Property::Width(px(0.0))));
    assert_eq!(width("Auto"), Ok(Property::Width(Length::Auto)));
    assert_eq!(width("3vh"), Err("unsupported length unit: vh".to_string()));
    assert_eq!(width("3"), Err("non-zero lengths require a unit".to_string()));
    assert_eq!(width("#fff"), Err("expected a length, got IDHash(\"fff\")".to_string()));
}

#[test]
fn a_sheet_is_its_blocks() {
    let sheet = parse("/* a */ .a { width: 1px } .b { } .a { height: 2px; }").unwrap();
    let classes: Vec<&str> = sheet.rules.iter().map(|r| r.class.as_str()).collect();
    assert_eq!(classes, vec!["a", "b", "a"]);
    assert_eq!(sheet.rules[1].declarations, vec![]);
    assert_eq!(sheet.rules[2].declarations, vec![Property::Height(px(2.0))]);
    let e = parse(".a { width: 1px } .b { width: 10px 20px } .c { width: 1px }").unwrap_err();
    assert!(e.message.starts_with("UnexpectedToken(Dimension"));
    assert!(parse(".a { width: 1px } .b { color: red; margin: 10% }").is_err());
}

#[test]
fn lengths_compare_as_floats() {
    assert_eq!(Length::Px((-0.0f32).to_bits()), px(0.0));
    assert_eq!(MarginValue::Px((-0.0f32).to_bits()), MarginValue::Px(0));
    assert_ne!(Length::Px(f32::NAN.to_bits()), Length::Px(f32::NAN.to_bits()));
    assert_ne!(px(1.0), Length::Percent(1.0f32.to_bits()));
    let z = Paddings { top: 0, right: 0, bottom: 0, left: 0 };
    let nz = Paddings { top: (-0.0f32).to_bits(), ..z };
    assert_eq!(z, nz);
    let sheet = parse(".a { width: -0px } .b { width: 0 }").unwrap();
    assert_eq!(sheet.resolve(&["a"]), sheet.resolve(&["b"]));
}
