use iced_css::integration::{compile_policy, literal_class_names, unknown_classes, ClassListError, Placement};
use iced_css::{parse, Error, Event, MarginValue, Margins, ParseError, Policy, Resolved};

#[test]
fn policies() {
    assert_eq!(compile_policy("Compile"), Ok(Policy::Compile));
    assert_eq!(compile_policy("OnDemand"), Err("not implemented yet".to_string()));
    assert_eq!(compile_policy("Auto"), Err("not implemented yet".to_string()));
    assert_eq!(
        compile_policy("Elsex"),
        Err("unknown policy `Elsex`; expected Compile, OnDemand, or Auto".to_string())
    );
}

#[test]
fn unknown_classes_are_reported_in_order() {
    let sheet = parse(".btn { width: 50px; } .other { }").unwrap();
    assert_eq!(unknown_classes(&sheet, &["btn", "other"]), Vec::<String>::new());
    assert_eq!(
        unknown_classes(&sheet, &["nope", "btn", "x"]),
        vec![
            "unknown class `nope`: undefined in css".to_string(),
            "unknown class `x`: undefined in css".to_string()
        ]
    );
}

#[test]
fn error_texts() {
    let err = parse(".btn { width: 50px; height:").unwrap_err();
    assert_eq!(err.describe(), "CSS parse error at line 1, column 28: EndOfInput");
    let e = ParseError { message: "m".to_string(), line: 41, column: 7 };
    assert_eq!(e.describe(), "CSS parse error at line 42, column 7: m");
    let e = ParseError { message: "n".to_string(), line: 999, column: 105 };
    assert_eq!(e.describe(), "CSS parse error at line 1000, column 105: n");
    let e = ParseError { message: String::new(), line: 0, column: 0 };
    assert_eq!(e.describe(), "CSS parse error at line 1, column 0: ");
    assert_eq!(Error("boom".to_string()).describe(), "iced-css error: boom");
}

#[test]
fn margin_placement() {
    let px = MarginValue::Px(3.0f32.to_bits());
    let m = |left, right| Margins { top: px, right, bottom: px, left };
    assert_eq!(m(MarginValue::Auto, MarginValue::Auto).placement(), Placement::Center);
    assert_eq!(m(MarginValue::Auto, px).placement(), Placement::Right);
    assert_eq!(m(px, MarginValue::Auto).placement(), Placement::Left);
    assert_eq!(m(px, px).placement(), Placement::Unaligned);
    assert_eq!(MarginValue::Auto.pixels(), 0.0f32.to_bits());
    assert_eq!(px.pixels(), 3.0f32.to_bits());
}

#[test]
fn sizing_is_needed_for_sizes_and_padding() {
    let sheet = parse(".m { margin: 1px } .h { min-height: 1px } .p { padding: 1px }").unwrap();
    assert!(!sheet.resolve(&["m"]).needs_sizing());
    assert!(sheet.resolve(&["h"]).needs_sizing());
    assert!(sheet.resolve(&["p"]).needs_sizing());
    assert!(!Resolved::default().needs_sizing());
}

#[test]
fn events_clone() {
    let e = Event::Reloaded(Err(Error("x".to_string())));
    match e.clone() {
        Event::Reloaded(Err(Error(m))) => assert_eq!(m, "x"),
        _ => panic!("clone changed the event"),
    }
}

#[test]
fn class_lists_must_be_arrays_of_literals() {
    assert_eq!(literal_class_names(&None), Err(ClassListError::NotAnArray));
    assert_eq!(
        ClassListError::NotAnArray.message(),
        "under the Compile policy, style_classes takes an array of string literals"
    );
    let names = Some(vec![Some("a".to_string()), None, None]);
    assert_eq!(literal_class_names(&names), Err(ClassListError::NotALiteral(1)));
    assert_eq!(
        ClassListError::NotALiteral(1).message(),
        "under the Compile policy, class names must be string literals"
    );
    let names = Some(vec![Some("a".to_string()), Some("b".to_string())]);
    assert_eq!(literal_class_names(&names), Ok(vec!["a".to_string(), "b".to_string()]));
}
