use iced_css::{parse, Length, MarginValue};

fn px(v: f32) -> Length {
    Length::Px(v.to_bits())
}

#[test]
fn later_rule_wins() {
    let sheet = parse(".wide { width: 10px; } .base { width: 20px; height: 30px; }").unwrap();
    let resolved = sheet.resolve(&["wide", "base"]);
    assert_eq!(resolved.width, Some(px(20.0)));
    assert_eq!(resolved.height, Some(px(30.0)));
}

#[test]
fn class_list_order_irrelevant() {
    let sheet = parse(".wide { width: 10px; } .base { width: 20px; }").unwrap();
    assert_eq!(sheet.resolve(&["base", "wide"]), sheet.resolve(&["wide", "base"]));
}

#[test]
fn merge_distinct_properties() {
    let sheet = parse(".w { width: 10px; } .h { height: 20px; }").unwrap();
    let resolved = sheet.resolve(&["w", "h"]);
    assert_eq!(resolved.width, Some(px(10.0)));
    assert_eq!(resolved.height, Some(px(20.0)));
}

#[test]
fn unlisted_classes_ignored() {
    let sheet = parse(".a { width: 10px; } .b { width: 99px; }").unwrap();
    let resolved = sheet.resolve(&["a"]);
    assert_eq!(resolved.width, Some(px(10.0)));
}

#[test]
fn margin_longhand_over_shorthand() {
    let sheet = parse(".m { margin: 10px; margin-left: 40px; }").unwrap();
    let resolved = sheet.resolve(&["m"]);
    let m = resolved.margin.unwrap();
    assert_eq!(m.top, MarginValue::Px(10.0f32.to_bits()));
    assert_eq!(m.left, MarginValue::Px(40.0f32.to_bits()));
}

#[test]
fn margin_longhand_alone_zeroes_rest() {
    let sheet = parse(".m { margin-top: 5px; }").unwrap();
    let m = sheet.resolve(&["m"]).margin.unwrap();
    assert_eq!(m.top, MarginValue::Px(5.0f32.to_bits()));
    assert_eq!(m.right, MarginValue::Px(0.0f32.to_bits()));
    assert_eq!(m.bottom, MarginValue::Px(0.0f32.to_bits()));
    assert_eq!(m.left, MarginValue::Px(0.0f32.to_bits()));
}

#[test]
fn padding_longhand_over_shorthand() {
    let sheet = parse(".p { padding: 10px; padding-left: 40px; }").unwrap();
    let p = sheet.resolve(&["p"]).padding.unwrap();
    assert_eq!(f32::from_bits(p.top), 10.0);
    assert_eq!(f32::from_bits(p.left), 40.0);
}

#[test]
fn padding_longhand_alone_zeroes_rest() {
    let sheet = parse(".p { padding-bottom: 5px; }").unwrap();
    let p = sheet.resolve(&["p"]).padding.unwrap();
    assert_eq!(
        (f32::from_bits(p.top), f32::from_bits(p.right), f32::from_bits(p.bottom), f32::from_bits(p.left)),
        (0.0, 0.0, 5.0, 0.0)
    );
}

#[test]
fn min_max_height_resolve() {
    let sheet = parse(".s { min-height: 10px; max-height: 20px; }").unwrap();
    let resolved = sheet.resolve(&["s"]);
    assert_eq!(resolved.min_height, Some(px(10.0)));
    assert_eq!(resolved.max_height, Some(px(20.0)));
}

#[test]
fn has_class() {
    let sheet = parse(".a { width: 10px; }").unwrap();
    assert!(sheet.has_class("a"));
    assert!(!sheet.has_class("b"));
}
