//! The decisions around the widget layer and the build-time check of class
//! lists: which loading policy a sheet may use, which listed classes a sheet
//! lacks, how a margin places a widget, and the texts of errors.

use vstd::prelude::*;
use crate::parse::{ParseError, RuleV, Stylesheet};
use crate::resolve::Resolved;
use crate::text::{concat, decimal, str_eq, string_of, u32_to_decimal};
use crate::values::{MarginValue, Margins, ZERO_BITS};

verus! {

/// When a style sheet is read: while building, on request, or on every change.
#[derive(Debug, Clone, Copy, PartialEq, Eq, Structural)]
pub enum Policy {
    Compile,
    OnDemand,
    Auto,
}

/// An error of the widget layer.
#[derive(Debug, Clone, PartialEq, Eq)]
pub struct Error(pub String);

/// The events of the runtime policies.
#[derive(Debug)]
pub enum Event {
    Reload,
    Reloaded(Result<(), Error>),
    Internal,
}

impl Clone for Event {
    fn clone(&self) -> (e: Event)
        ensures
            e == *self,
    {
        match self {
            Event::Reload => Event::Reload,
            Event::Reloaded(outcome) => match outcome {
                Ok(unit) => Event::Reloaded(Ok(*unit)),
                Err(error) => {
                    let message = error.0.clone();
                    Event::Reloaded(Err(Error(message)))
                },
            },
            Event::Internal => Event::Internal,
        }
    }
}

/// The outcome of asking for a policy by name while building: only `Compile`
/// can be used; the runtime policies are not implemented yet; any other name
/// is refused.
pub open spec fn policy_outcome(name: Seq<char>) -> Result<Policy, Seq<char>> {
    if name == "Compile"@ {
        Ok(Policy::Compile)
    } else if name == "OnDemand"@ || name == "Auto"@ {
        Err("not implemented yet"@)
    } else {
        Err("unknown policy `"@ + name + "`; expected Compile, OnDemand, or Auto"@)
    }
}

/// The policy that a build asks for by name, or the message that refuses it.
pub fn compile_policy(name: &str) -> (r: Result<Policy, String>)
    ensures
        match r {
            Ok(p) => policy_outcome(name@) == Ok::<Policy, Seq<char>>(p),
            Err(message) => policy_outcome(name@) == Err::<Policy, Seq<char>>(message@),
        },
{
    if str_eq(name, "Compile") {
        Ok(Policy::Compile)
    } else if str_eq(name, "OnDemand") || str_eq(name, "Auto") {
        Err(string_of("not implemented yet"))
    } else {
        let mut message = concat("unknown policy `", name);
        message.append("`; expected Compile, OnDemand, or Auto");
        Err(message)
    }
}

/// Whether some rule is for `class`.
pub open spec fn sheet_has_class(rules: Seq<RuleV>, class: Seq<char>) -> bool {
    exists|i: int| 0 <= i < rules.len() && #[trigger] rules[i].class == class
}

/// The message for a class that no rule is for.
pub open spec fn unknown_class_message(class: Seq<char>) -> Seq<char> {
    "unknown class `"@ + class + "`: undefined in css"@
}

/// One message for each listed class that no rule is for, in list order.
pub open spec fn unknown_class_messages(rules: Seq<RuleV>, classes: Seq<Seq<char>>) -> Seq<Seq<char>>
    decreases classes.len(),
{
    if classes.len() == 0 {
        seq![]
    } else {
        let before = unknown_class_messages(rules, classes.drop_last());
        if sheet_has_class(rules, classes.last()) {
            before
        } else {
            before.push(unknown_class_message(classes.last()))
        }
    }
}

/// A class list is refused exactly when some listed class has no rule, and
/// then with as many messages as such classes.
pub proof fn law_unknown_classes_exactly_the_missing(rules: Seq<RuleV>, classes: Seq<Seq<char>>)
    ensures
        unknown_class_messages(rules, classes).len() == 0
            <==> forall|i: int| 0 <= i < classes.len() ==> sheet_has_class(rules, #[trigger] classes[i]),
        unknown_class_messages(rules, classes).len() <= classes.len(),
    decreases classes.len(),
{
    if classes.len() > 0 {
        let before = classes.drop_last();
        law_unknown_classes_exactly_the_missing(rules, before);
        if forall|i: int| 0 <= i < classes.len() ==> sheet_has_class(rules, #[trigger] classes[i]) {
            assert forall|i: int| 0 <= i < before.len() implies sheet_has_class(rules, #[trigger] before[i]) by {
                assert(before[i] == classes[i]);
            }
            assert(sheet_has_class(rules, classes[classes.len() - 1]));
        } else {
            let i = choose|i: int| 0 <= i < classes.len() && !sheet_has_class(rules, #[trigger] classes[i]);
            if i < classes.len() - 1 {
                assert(before[i] == classes[i]);
            }
        }
        if forall|i: int| 0 <= i < before.len() ==> sheet_has_class(rules, #[trigger] before[i]) {
            if sheet_has_class(rules, classes.last()) {
                assert forall|i: int| 0 <= i < classes.len() implies sheet_has_class(rules, #[trigger] classes[i]) by {
                    if i < classes.len() - 1 {
                        assert(before[i] == classes[i]);
                    }
                }
            }
        }
    }
}

/// The messages that refuse a class list at build time: one for each listed
/// class that the sheet has no rule for, in list order.
pub fn unknown_classes(sheet: &Stylesheet, classes: &[&str]) -> (messages: Vec<String>)
    ensures
        messages@.map_values(|m: String| m@) == unknown_class_messages(sheet@, classes@.map_values(|c: &str| c@)),
{
    let ghost names = classes@.map_values(|c: &str| c@);
    let mut messages: Vec<String> = Vec::new();
    let mut i: usize = 0;
    while i < classes.len()
        invariant
            i <= classes@.len(),
            names == classes@.map_values(|c: &str| c@),
            messages@.map_values(|m: String| m@) == unknown_class_messages(sheet@, names.take(i as int)),
        decreases classes@.len() - i,
    {
        assert(names.take(i + 1).drop_last() == names.take(i as int));
        assert(names.take(i + 1).last() == classes@[i as int]@);
        if !sheet.has_class(classes[i]) {
            let mut message = concat("unknown class `", classes[i]);
            message.append("`: undefined in css");
            let ghost before = messages@.map_values(|m: String| m@);
            messages.push(message);
            assert(messages@.map_values(|m: String| m@) == before.push(unknown_class_message(classes@[i as int]@)));
        }
        i += 1;
    }
    assert(names.take(classes@.len() as int) == names);
    messages
}

/// Why a class list is refused at build time.
#[derive(Debug, Clone, Copy, PartialEq, Eq, Structural)]
pub enum ClassListError {
    /// The list is not an array expression.
    NotAnArray,
    /// The element at this index is not a string literal.
    NotALiteral(usize),
}

impl ClassListError {
    /// The message that refuses the list.
    pub fn message(&self) -> (text: String)
        ensures
            text@ == match *self {
                ClassListError::NotAnArray => "under the Compile policy, style_classes takes an array of string literals"@,
                ClassListError::NotALiteral(_) => "under the Compile policy, class names must be string literals"@,
            },
    {
        match self {
            ClassListError::NotAnArray => string_of("under the Compile policy, style_classes takes an array of string literals"),
            ClassListError::NotALiteral(_) => string_of("under the Compile policy, class names must be string literals"),
        }
    }
}

/// The class names of a list given at build time: `elements` is `None` when
/// the list is not an array, and an element is `None` when it is not a string
/// literal. The first element that is not a literal refuses the list.
pub fn literal_class_names(elements: &Option<Vec<Option<String>>>) -> (r: Result<Vec<String>, ClassListError>)
    ensures
        match elements {
            None => r == Err::<Vec<String>, ClassListError>(ClassListError::NotAnArray),
            Some(es) => match r {
                Ok(names) => {
                    &&& names@.len() == es@.len()
                    &&& forall|i: int| 0 <= i < es@.len() ==> (#[trigger] es@[i]) is Some && names@[i]@ == es@[i]->0@
                },
                Err(ClassListError::NotALiteral(i)) => {
                    &&& i < es@.len()
                    &&& es@[i as int] is None
                    &&& forall|j: int| 0 <= j < i ==> (#[trigger] es@[j]) is Some
                },
                Err(ClassListError::NotAnArray) => false,
            },
        },
{
    match elements {
        None => Err(ClassListError::NotAnArray),
        Some(es) => {
            let mut names: Vec<String> = Vec::new();
            let mut i: usize = 0;
            while i < es.len()
                invariant
                    *elements == Some(*es),
                    i <= es@.len(),
                    names@.len() == i,
                    forall|j: int| 0 <= j < i ==> (#[trigger] es@[j]) is Some && names@[j]@ == es@[j]->0@,
                decreases es@.len() - i,
            {
                match &es[i] {
                    Some(name) => names.push(name.clone()),
                    None => return Err(ClassListError::NotALiteral(i)),
                }
                i += 1;
            }
            Ok(names)
        },
    }
}

/// How a margin places a widget across the space it is given.
#[derive(Debug, Clone, Copy, PartialEq, Eq, Structural)]
pub enum Placement {
    /// Both horizontal sides are `auto`: centered.
    Center,
    /// Only the left side is `auto`: pushed to the right.
    Right,
    /// Only the right side is `auto`: pushed to the left.
    Left,
    /// Neither side is `auto`.
    Unaligned,
}

pub open spec fn placement_of(m: Margins) -> Placement {
    match (m.left, m.right) {
        (MarginValue::Auto, MarginValue::Auto) => Placement::Center,
        (MarginValue::Auto, _) => Placement::Right,
        (_, MarginValue::Auto) => Placement::Left,
        _ => Placement::Unaligned,
    }
}

impl Margins {
    /// How the margin places a widget horizontally.
    pub fn placement(&self) -> (p: Placement)
        ensures
            p == placement_of(*self),
    {
        match (self.left, self.right) {
            (MarginValue::Auto, MarginValue::Auto) => Placement::Center,
            (MarginValue::Auto, _) => Placement::Right,
            (_, MarginValue::Auto) => Placement::Left,
            _ => Placement::Unaligned,
        }
    }
}

impl MarginValue {
    /// The space that a side takes: its pixels, or none for `auto`.
    pub fn pixels(&self) -> (bits: u32)
        ensures
            bits == match *self {
                MarginValue::Px(b) => b,
                MarginValue::Auto => ZERO_BITS,
            },
    {
        match *self {
            MarginValue::Px(b) => b,
            MarginValue::Auto => ZERO_BITS,
        }
    }
}

impl Resolved {
    /// Whether the widget needs a box that sizes it: some sizing property or
    /// the padding is set.
    pub fn needs_sizing(&self) -> (r: bool)
        ensures
            r == (self.width is Some || self.height is Some || self.min_width is Some
                || self.max_width is Some || self.min_height is Some || self.max_height is Some
                || self.padding is Some),
    {
        self.width.is_some() || self.height.is_some() || self.min_width.is_some()
            || self.max_width.is_some() || self.min_height.is_some() || self.max_height.is_some()
            || self.padding.is_some()
    }
}

impl ParseError {
    /// The error as a sentence, with the line counted from 1.
    pub fn describe(&self) -> (text: String)
        requires
            self.line < u32::MAX,
        ensures
            text@ == "CSS parse error at line "@ + decimal(self.line as nat + 1) + ", column "@
                + decimal(self.column as nat) + ": "@ + self.message@,
    {
        let mut text = string_of("CSS parse error at line ");
        text.append(u32_to_decimal(self.line + 1).as_str());
        text.append(", column ");
        text.append(u32_to_decimal(self.column).as_str());
        text.append(": ");
        text.append(self.message.as_str());
        text
    }
}

impl Error {
    /// The error as a sentence.
    pub fn describe(&self) -> (text: String)
        ensures
            text@ == "iced-css error: "@ + self.0@,
    {
        concat("iced-css error: ", self.0.as_str())
    }
}

/// A margin places a widget by which of its horizontal sides are `auto`, and
/// by nothing else: both center it, the left alone pushes it right, the right
/// alone pushes it left, and neither leaves it unaligned, whatever the pixels
/// of the sides and whatever the vertical sides.
pub proof fn law_placement_follows_auto_sides(m: Margins, n: Margins)
    ensures
        placement_of(m) == Placement::Center <==> (m.left is Auto && m.right is Auto),
        placement_of(m) == Placement::Right <==> (m.left is Auto && !(m.right is Auto)),
        placement_of(m) == Placement::Left <==> (!(m.left is Auto) && m.right is Auto),
        placement_of(m) == Placement::Unaligned <==> (!(m.left is Auto) && !(m.right is Auto)),
        (m.left is Auto) == (n.left is Auto) && (m.right is Auto) == (n.right is Auto)
            ==> placement_of(m) == placement_of(n),
{
}

} // verus!
