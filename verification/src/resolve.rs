//! Resolving a list of classes against a style sheet: the declarations of
//! every rule whose class is listed apply in sheet order, so a later rule wins
//! over an earlier one, whatever the order of the class list.

use vstd::prelude::*;
use crate::parse::{Property, PropertyV, RuleV, Stylesheet};
use crate::text::str_eq;
use crate::values::{Length, MarginValue, Margins, Paddings, zero_margins, zero_paddings};

verus! {

/// The sizing, margin and padding that a list of classes gives a widget.
#[derive(Debug, Clone, Copy, PartialEq)]
pub struct Resolved {
    pub width: Option<Length>,
    pub height: Option<Length>,
    pub min_width: Option<Length>,
    pub max_width: Option<Length>,
    pub min_height: Option<Length>,
    pub max_height: Option<Length>,
    pub margin: Option<Margins>,
    pub padding: Option<Paddings>,
}

/// Nothing set.
pub open spec fn unset() -> Resolved {
    Resolved {
        width: None,
        height: None,
        min_width: None,
        max_width: None,
        min_height: None,
        max_height: None,
        margin: None,
        padding: None,
    }
}

impl Default for Resolved {
    fn default() -> (r: Resolved)
        ensures
            r == unset(),
    {
        Resolved {
            width: None,
            height: None,
            min_width: None,
            max_width: None,
            min_height: None,
            max_height: None,
            margin: None,
            padding: None,
        }
    }
}

/// The margin that a longhand declaration starts from: the one set so far, or zero.
pub open spec fn margin_base(m: Option<Margins>) -> Margins {
    match m {
        Some(m) => m,
        None => zero_margins(),
    }
}

/// The padding that a longhand declaration starts from: the one set so far, or zero.
pub open spec fn padding_base(p: Option<Paddings>) -> Paddings {
    match p {
        Some(p) => p,
        None => zero_paddings(),
    }
}

/// What one declaration does: a property replaces what was set before; a
/// side of a margin or padding replaces that side only, of the margin or
/// padding set so far or else of zero; an unsupported property does nothing.
pub open spec fn apply_declaration(r: Resolved, d: PropertyV) -> Resolved {
    match d {
        PropertyV::Width(l) => Resolved { width: Some(l), ..r },
        PropertyV::Height(l) => Resolved { height: Some(l), ..r },
        PropertyV::MinWidth(l) => Resolved { min_width: Some(l), ..r },
        PropertyV::MaxWidth(l) => Resolved { max_width: Some(l), ..r },
        PropertyV::MinHeight(l) => Resolved { min_height: Some(l), ..r },
        PropertyV::MaxHeight(l) => Resolved { max_height: Some(l), ..r },
        PropertyV::Margin(m) => Resolved { margin: Some(m), ..r },
        PropertyV::MarginTop(v) => Resolved { margin: Some(Margins { top: v, ..margin_base(r.margin) }), ..r },
        PropertyV::MarginRight(v) => Resolved { margin: Some(Margins { right: v, ..margin_base(r.margin) }), ..r },
        PropertyV::MarginBottom(v) => Resolved { margin: Some(Margins { bottom: v, ..margin_base(r.margin) }), ..r },
        PropertyV::MarginLeft(v) => Resolved { margin: Some(Margins { left: v, ..margin_base(r.margin) }), ..r },
        PropertyV::Padding(p) => Resolved { padding: Some(p), ..r },
        PropertyV::PaddingTop(v) => Resolved { padding: Some(Paddings { top: v, ..padding_base(r.padding) }), ..r },
        PropertyV::PaddingRight(v) => Resolved { padding: Some(Paddings { right: v, ..padding_base(r.padding) }), ..r },
        PropertyV::PaddingBottom(v) => Resolved { padding: Some(Paddings { bottom: v, ..padding_base(r.padding) }), ..r },
        PropertyV::PaddingLeft(v) => Resolved { padding: Some(Paddings { left: v, ..padding_base(r.padding) }), ..r },
        PropertyV::Unsupported(_) => r,
    }
}

/// The declarations applied in order, starting from `r`.
pub open spec fn apply_declarations(r: Resolved, ds: Seq<PropertyV>) -> Resolved
    decreases ds.len(),
{
    if ds.len() == 0 {
        r
    } else {
        apply_declaration(apply_declarations(r, ds.drop_last()), ds.last())
    }
}

/// The rules applied in sheet order, starting from nothing set: a rule's
/// declarations apply when its class is listed.
pub open spec fn resolve_rules(rules: Seq<RuleV>, classes: Seq<Seq<char>>) -> Resolved
    decreases rules.len(),
{
    if rules.len() == 0 {
        unset()
    } else {
        let before = resolve_rules(rules.drop_last(), classes);
        if classes.contains(rules.last().class) {
            apply_declarations(before, rules.last().declarations)
        } else {
            before
        }
    }
}

/// The texts of a list of class names.
pub open spec fn class_texts(classes: Seq<&str>) -> Seq<Seq<char>> {
    classes.map_values(|c: &str| c@)
}

/// Whether `class` is one of `classes`.
fn is_listed(classes: &[&str], class: &str) -> (r: bool)
    ensures
        r == class_texts(classes@).contains(class@),
{
    let mut i: usize = 0;
    while i < classes.len()
        invariant
            i <= classes@.len(),
            forall|j: int| 0 <= j < i ==> classes@[j]@ != class@,
        decreases classes@.len() - i,
    {
        if str_eq(classes[i], class) {
            assert(class_texts(classes@)[i as int] == class@);
            return true;
        }
        i += 1;
    }
    assert forall|j: int| 0 <= j < class_texts(classes@).len() implies class_texts(classes@)[j] != class@ by {
        assert(class_texts(classes@)[j] == classes@[j]@);
    }
    false
}

fn apply_one(r: Resolved, d: &Property) -> (out: Resolved)
    ensures
        out == apply_declaration(r, d@),
{
    let mut r = r;
    match d {
        Property::Width(l) => r.width = Some(*l),
        Property::Height(l) => r.height = Some(*l),
        Property::MinWidth(l) => r.min_width = Some(*l),
        Property::MaxWidth(l) => r.max_width = Some(*l),
        Property::MinHeight(l) => r.min_height = Some(*l),
        Property::MaxHeight(l) => r.max_height = Some(*l),
        Property::Margin(m) => r.margin = Some(*m),
        Property::MarginTop(v) => {
            let mut m = margin_or_zero(r.margin);
            m.top = *v;
            r.margin = Some(m);
        },
        Property::MarginRight(v) => {
            let mut m = margin_or_zero(r.margin);
            m.right = *v;
            r.margin = Some(m);
        },
        Property::MarginBottom(v) => {
            let mut m = margin_or_zero(r.margin);
            m.bottom = *v;
            r.margin = Some(m);
        },
        Property::MarginLeft(v) => {
            let mut m = margin_or_zero(r.margin);
            m.left = *v;
            r.margin = Some(m);
        },
        Property::Padding(p) => r.padding = Some(*p),
        Property::PaddingTop(v) => {
            let mut p = padding_or_zero(r.padding);
            p.top = *v;
            r.padding = Some(p);
        },
        Property::PaddingRight(v) => {
            let mut p = padding_or_zero(r.padding);
            p.right = *v;
            r.padding = Some(p);
        },
        Property::PaddingBottom(v) => {
            let mut p = padding_or_zero(r.padding);
            p.bottom = *v;
            r.padding = Some(p);
        },
        Property::PaddingLeft(v) => {
            let mut p = padding_or_zero(r.padding);
            p.left = *v;
            r.padding = Some(p);
        },
        Property::Unsupported(_) => {},
    }
    r
}

fn margin_or_zero(m: Option<Margins>) -> (out: Margins)
    ensures
        out == margin_base(m),
{
    match m {
        Some(m) => m,
        None => Margins::default(),
    }
}

fn padding_or_zero(p: Option<Paddings>) -> (out: Paddings)
    ensures
        out == padding_base(p),
{
    match p {
        Some(p) => p,
        None => Paddings::default(),
    }
}

impl Stylesheet {
    /// What the listed classes give a widget: the declarations of the rules
    /// whose class is listed, applied in sheet order.
    pub fn resolve(&self, classes: &[&str]) -> (r: Resolved)
        ensures
            r == resolve_rules(self@, class_texts(classes@)),
    {
        let mut resolved = Resolved::default();
        let mut i: usize = 0;
        while i < self.rules.len()
            invariant
                i <= self.rules@.len(),
                resolved == resolve_rules(self@.take(i as int), class_texts(classes@)),
            decreases self.rules@.len() - i,
        {
            let rule = &self.rules[i];
            assert(self@.take(i + 1).drop_last() == self@.take(i as int));
            assert(self@.take(i + 1).last() == rule@);
            if is_listed(classes, rule.class.as_str()) {
                let ghost start = resolved;
                let ds = &rule.declarations;
                let mut j: usize = 0;
                while j < ds.len()
                    invariant
                        j <= ds@.len(),
                        ds@.map_values(|p: Property| p@) == rule@.declarations,
                        resolved == apply_declarations(start, rule@.declarations.take(j as int)),
                    decreases ds@.len() - j,
                {
                    assert(rule@.declarations.take(j + 1).drop_last() == rule@.declarations.take(j as int));
                    resolved = apply_one(resolved, &ds[j]);
                    j += 1;
                }
                assert(rule@.declarations.take(ds@.len() as int) == rule@.declarations);
            }
            i += 1;
        }
        assert(self@.take(self@.len() as int) == self@);
        resolved
    }

    /// Whether some rule of the sheet is for `class`.
    pub fn has_class(&self, class: &str) -> (r: bool)
        ensures
            r == exists|i: int| 0 <= i < self@.len() && #[trigger] self@[i].class == class@,
    {
        let mut i: usize = 0;
        while i < self.rules.len()
            invariant
                i <= self.rules@.len(),
                forall|j: int| 0 <= j < i ==> #[trigger] self@[j].class != class@,
            decreases self.rules@.len() - i,
        {
            if str_eq(self.rules[i].class.as_str(), class) {
                assert(self@[i as int].class == class@);
                return true;
            }
            i += 1;
        }
        false
    }
}


/// The declarations of the listed rules, in sheet order.
pub open spec fn listed_declarations(rules: Seq<RuleV>, classes: Seq<Seq<char>>) -> Seq<PropertyV>
    decreases rules.len(),
{
    if rules.len() == 0 {
        seq![]
    } else {
        let before = listed_declarations(rules.drop_last(), classes);
        if classes.contains(rules.last().class) {
            before + rules.last().declarations
        } else {
            before
        }
    }
}

/// The sizing properties.
#[derive(Debug, Clone, Copy, PartialEq, Eq, Structural)]
pub enum SizeProperty {
    Width,
    Height,
    MinWidth,
    MaxWidth,
    MinHeight,
    MaxHeight,
}

pub open spec fn size_of(r: Resolved, f: SizeProperty) -> Option<Length> {
    match f {
        SizeProperty::Width => r.width,
        SizeProperty::Height => r.height,
        SizeProperty::MinWidth => r.min_width,
        SizeProperty::MaxWidth => r.max_width,
        SizeProperty::MinHeight => r.min_height,
        SizeProperty::MaxHeight => r.max_height,
    }
}

/// The length that a declaration gives a sizing property, if it is a declaration of it.
pub open spec fn declared_size(d: PropertyV, f: SizeProperty) -> Option<Length> {
    match (d, f) {
        (PropertyV::Width(l), SizeProperty::Width) => Some(l),
        (PropertyV::Height(l), SizeProperty::Height) => Some(l),
        (PropertyV::MinWidth(l), SizeProperty::MinWidth) => Some(l),
        (PropertyV::MaxWidth(l), SizeProperty::MaxWidth) => Some(l),
        (PropertyV::MinHeight(l), SizeProperty::MinHeight) => Some(l),
        (PropertyV::MaxHeight(l), SizeProperty::MaxHeight) => Some(l),
        _ => None,
    }
}

/// The length of the last declaration of a sizing property, if there is one.
pub open spec fn last_size(ds: Seq<PropertyV>, f: SizeProperty) -> Option<Length>
    decreases ds.len(),
{
    if ds.len() == 0 {
        None
    } else {
        match declared_size(ds.last(), f) {
            Some(l) => Some(l),
            None => last_size(ds.drop_last(), f),
        }
    }
}

/// The sides of a box.
#[derive(Debug, Clone, Copy, PartialEq, Eq, Structural)]
pub enum Side {
    Top,
    Right,
    Bottom,
    Left,
}

pub open spec fn margin_side(m: Margins, s: Side) -> MarginValue {
    match s {
        Side::Top => m.top,
        Side::Right => m.right,
        Side::Bottom => m.bottom,
        Side::Left => m.left,
    }
}

pub open spec fn padding_side(p: Paddings, s: Side) -> u32 {
    match s {
        Side::Top => p.top,
        Side::Right => p.right,
        Side::Bottom => p.bottom,
        Side::Left => p.left,
    }
}

/// The value that a declaration gives a side of the margin: the shorthand gives every side.
pub open spec fn declared_margin_side(d: PropertyV, s: Side) -> Option<MarginValue> {
    match (d, s) {
        (PropertyV::Margin(m), _) => Some(margin_side(m, s)),
        (PropertyV::MarginTop(v), Side::Top) => Some(v),
        (PropertyV::MarginRight(v), Side::Right) => Some(v),
        (PropertyV::MarginBottom(v), Side::Bottom) => Some(v),
        (PropertyV::MarginLeft(v), Side::Left) => Some(v),
        _ => None,
    }
}

/// The value that a declaration gives a side of the padding: the shorthand gives every side.
pub open spec fn declared_padding_side(d: PropertyV, s: Side) -> Option<u32> {
    match (d, s) {
        (PropertyV::Padding(p), _) => Some(padding_side(p, s)),
        (PropertyV::PaddingTop(v), Side::Top) => Some(v),
        (PropertyV::PaddingRight(v), Side::Right) => Some(v),
        (PropertyV::PaddingBottom(v), Side::Bottom) => Some(v),
        (PropertyV::PaddingLeft(v), Side::Left) => Some(v),
        _ => None,
    }
}

/// Whether a declaration sets some side of a box, by what it `declared` of each side.
pub open spec fn sets_a_side<T>(declared: spec_fn(PropertyV, Side) -> Option<T>, d: PropertyV) -> bool {
    declared(d, Side::Top) is Some || declared(d, Side::Right) is Some || declared(d, Side::Bottom) is Some
        || declared(d, Side::Left) is Some
}

/// The value of the last declaration that sets side `s`, if there is one.
pub open spec fn last_declared<T>(declared: spec_fn(PropertyV, Side) -> Option<T>, ds: Seq<PropertyV>, s: Side) -> Option<T>
    decreases ds.len(),
{
    if ds.len() == 0 {
        None
    } else {
        match declared(ds.last(), s) {
            Some(v) => Some(v),
            None => last_declared(declared, ds.drop_last(), s),
        }
    }
}

pub open spec fn is_margin_declaration(d: PropertyV) -> bool {
    sets_a_side(|d: PropertyV, s: Side| declared_margin_side(d, s), d)
}

pub open spec fn is_padding_declaration(d: PropertyV) -> bool {
    sets_a_side(|d: PropertyV, s: Side| declared_padding_side(d, s), d)
}

/// The value of the last declaration that sets a side of the margin, if there is one.
pub open spec fn last_margin_side(ds: Seq<PropertyV>, s: Side) -> Option<MarginValue> {
    last_declared(|d: PropertyV, s: Side| declared_margin_side(d, s), ds, s)
}

/// The value of the last declaration that sets a side of the padding, if there is one.
pub open spec fn last_padding_side(ds: Seq<PropertyV>, s: Side) -> Option<u32> {
    last_declared(|d: PropertyV, s: Side| declared_padding_side(d, s), ds, s)
}

pub proof fn lemma_apply_declarations_concat(r: Resolved, a: Seq<PropertyV>, b: Seq<PropertyV>)
    ensures
        apply_declarations(r, a + b) == apply_declarations(apply_declarations(r, a), b),
    decreases b.len(),
{
    if b.len() == 0 {
        assert(a + b == a);
    } else {
        assert((a + b).drop_last() == a + b.drop_last());
        assert((a + b).last() == b.last());
        lemma_apply_declarations_concat(r, a, b.drop_last());
    }
}

/// Resolving applies the declarations of the listed rules, in sheet order,
/// one after the other.
pub proof fn lemma_resolve_applies_listed_declarations(rules: Seq<RuleV>, classes: Seq<Seq<char>>)
    ensures
        resolve_rules(rules, classes) == apply_declarations(unset(), listed_declarations(rules, classes)),
    decreases rules.len(),
{
    if rules.len() > 0 {
        lemma_resolve_applies_listed_declarations(rules.drop_last(), classes);
        if classes.contains(rules.last().class) {
            lemma_apply_declarations_concat(
                unset(),
                listed_declarations(rules.drop_last(), classes),
                rules.last().declarations,
            );
        }
    }
}

proof fn lemma_size_after(r: Resolved, ds: Seq<PropertyV>, f: SizeProperty)
    ensures
        size_of(apply_declarations(r, ds), f) == match last_size(ds, f) {
            Some(l) => Some(l),
            None => size_of(r, f),
        },
    decreases ds.len(),
{
    if ds.len() > 0 {
        lemma_size_after(r, ds.drop_last(), f);
    }
}

/// A later declaration wins: each sizing property of the result is the length
/// of its last declaration among the listed rules in sheet order, and unset
/// when no listed rule declares it.
pub proof fn law_size_is_last_declared(rules: Seq<RuleV>, classes: Seq<Seq<char>>, f: SizeProperty)
    ensures
        size_of(resolve_rules(rules, classes), f) == last_size(listed_declarations(rules, classes), f),
{
    lemma_resolve_applies_listed_declarations(rules, classes);
    lemma_size_after(unset(), listed_declarations(rules, classes), f);
}

/// Declarations applied one after the other to a box of four sides: the box
/// is there when it was or when some declaration sets a side of it, and each
/// side is the one of the last declaration that sets it, or else what it was.
/// `present` says whether a state has the box, `side` gives a side of it (of
/// the box a side declaration starts from when it is absent), and `declared`
/// what a declaration sets; one declaration must act so on the box.
proof fn lemma_sides_after<T>(
    present: spec_fn(Resolved) -> bool,
    side: spec_fn(Resolved, Side) -> T,
    declared: spec_fn(PropertyV, Side) -> Option<T>,
    r: Resolved,
    ds: Seq<PropertyV>,
)
    requires
        forall|q: Resolved, d: PropertyV| #[trigger] present(apply_declaration(q, d))
            == (present(q) || sets_a_side(declared, d)),
        forall|q: Resolved, d: PropertyV, s: Side| #[trigger] side(apply_declaration(q, d), s)
            == match declared(d, s) {
                Some(v) => v,
                None => side(q, s),
            },
    ensures
        present(apply_declarations(r, ds))
            == (present(r) || exists|i: int| 0 <= i < ds.len() && sets_a_side(declared, #[trigger] ds[i])),
        forall|s: Side| #[trigger] side(apply_declarations(r, ds), s) == match last_declared(declared, ds, s) {
            Some(v) => v,
            None => side(r, s),
        },
    decreases ds.len(),
{
    if ds.len() > 0 {
        let before = ds.drop_last();
        lemma_sides_after(present, side, declared, r, before);
        let prev = apply_declarations(r, before);
        assert(apply_declarations(r, ds) == apply_declaration(prev, ds.last()));
        assert(present(apply_declaration(prev, ds.last())) == (present(prev) || sets_a_side(declared, ds.last())));
        if exists|i: int| 0 <= i < ds.len() && sets_a_side(declared, #[trigger] ds[i]) {
            let i = choose|i: int| 0 <= i < ds.len() && sets_a_side(declared, #[trigger] ds[i]);
            if i < ds.len() - 1 {
                assert(before[i] == ds[i]);
            }
        } else {
            assert forall|i: int| 0 <= i < before.len() implies !sets_a_side(declared, #[trigger] before[i]) by {
                assert(before[i] == ds[i]);
            }
            assert(!sets_a_side(declared, ds[ds.len() - 1]));
        }
        if exists|i: int| 0 <= i < before.len() && sets_a_side(declared, #[trigger] before[i]) {
            let i = choose|i: int| 0 <= i < before.len() && sets_a_side(declared, #[trigger] before[i]);
            assert(ds[i] == before[i]);
        }
        assert forall|s: Side| #[trigger] side(apply_declarations(r, ds), s) == match last_declared(declared, ds, s) {
            Some(v) => v,
            None => side(r, s),
        } by {
            assert(side(apply_declaration(prev, ds.last()), s) == match declared(ds.last(), s) {
                Some(v) => v,
                None => side(prev, s),
            });
        }
    } else {
        assert forall|s: Side| #[trigger] side(apply_declarations(r, ds), s) == match last_declared(declared, ds, s) {
            Some(v) => v,
            None => side(r, s),
        } by {}
    }
}

/// A later declaration wins, side by side: the margin is set when a listed
/// rule declares any part of it; then each side is the value of the last
/// declaration that sets it, the shorthand setting every side, and zero
/// pixels when only other sides are declared.
pub proof fn law_margin_sides_are_last_declared(rules: Seq<RuleV>, classes: Seq<Seq<char>>, s: Side)
    ensures
        ({
            let ds = listed_declarations(rules, classes);
            let m = resolve_rules(rules, classes).margin;
            &&& (m is Some <==> exists|i: int| 0 <= i < ds.len() && is_margin_declaration(#[trigger] ds[i]))
            &&& m is Some ==> margin_side(m->0, s) == match last_margin_side(ds, s) {
                Some(v) => v,
                None => MarginValue::Px(0),
            }
        }),
{
    let present = |q: Resolved| q.margin is Some;
    let side = |q: Resolved, s: Side| margin_side(margin_base(q.margin), s);
    let declared = |d: PropertyV, s: Side| declared_margin_side(d, s);
    assert forall|q: Resolved, d: PropertyV| #[trigger] present(apply_declaration(q, d))
        == (present(q) || sets_a_side(declared, d)) by {}
    assert forall|q: Resolved, d: PropertyV, s: Side| #[trigger] side(apply_declaration(q, d), s)
        == match declared(d, s) {
            Some(v) => v,
            None => side(q, s),
        } by {
        match s {
            Side::Top => {},
            Side::Right => {},
            Side::Bottom => {},
            Side::Left => {},
        }
    }
    let ds = listed_declarations(rules, classes);
    lemma_resolve_applies_listed_declarations(rules, classes);
    lemma_sides_after(present, side, declared, unset(), ds);
    assert(side(apply_declarations(unset(), ds), s) == match last_declared(declared, ds, s) {
        Some(v) => v,
        None => side(unset(), s),
    });
    if exists|i: int| 0 <= i < ds.len() && is_margin_declaration(#[trigger] ds[i]) {
        let i = choose|i: int| 0 <= i < ds.len() && is_margin_declaration(#[trigger] ds[i]);
        assert(sets_a_side(declared, ds[i]));
    }
    if exists|i: int| 0 <= i < ds.len() && sets_a_side(declared, #[trigger] ds[i]) {
        let i = choose|i: int| 0 <= i < ds.len() && sets_a_side(declared, #[trigger] ds[i]);
        assert(is_margin_declaration(ds[i]));
    }
}

/// A later declaration wins, side by side, for the padding as for the margin.
pub proof fn law_padding_sides_are_last_declared(rules: Seq<RuleV>, classes: Seq<Seq<char>>, s: Side)
    ensures
        ({
            let ds = listed_declarations(rules, classes);
            let p = resolve_rules(rules, classes).padding;
            &&& (p is Some <==> exists|i: int| 0 <= i < ds.len() && is_padding_declaration(#[trigger] ds[i]))
            &&& p is Some ==> padding_side(p->0, s) == match last_padding_side(ds, s) {
                Some(v) => v,
                None => 0u32,
            }
        }),
{
    let present = |q: Resolved| q.padding is Some;
    let side = |q: Resolved, s: Side| padding_side(padding_base(q.padding), s);
    let declared = |d: PropertyV, s: Side| declared_padding_side(d, s);
    assert forall|q: Resolved, d: PropertyV| #[trigger] present(apply_declaration(q, d))
        == (present(q) || sets_a_side(declared, d)) by {}
    assert forall|q: Resolved, d: PropertyV, s: Side| #[trigger] side(apply_declaration(q, d), s)
        == match declared(d, s) {
            Some(v) => v,
            None => side(q, s),
        } by {
        match s {
            Side::Top => {},
            Side::Right => {},
            Side::Bottom => {},
            Side::Left => {},
        }
    }
    let ds = listed_declarations(rules, classes);
    lemma_resolve_applies_listed_declarations(rules, classes);
    lemma_sides_after(present, side, declared, unset(), ds);
    assert(side(apply_declarations(unset(), ds), s) == match last_declared(declared, ds, s) {
        Some(v) => v,
        None => side(unset(), s),
    });
    if exists|i: int| 0 <= i < ds.len() && is_padding_declaration(#[trigger] ds[i]) {
        let i = choose|i: int| 0 <= i < ds.len() && is_padding_declaration(#[trigger] ds[i]);
        assert(sets_a_side(declared, ds[i]));
    }
    if exists|i: int| 0 <= i < ds.len() && sets_a_side(declared, #[trigger] ds[i]) {
        let i = choose|i: int| 0 <= i < ds.len() && sets_a_side(declared, #[trigger] ds[i]);
        assert(is_padding_declaration(ds[i]));
    }
}

/// An unsupported declaration has no effect.
pub proof fn law_unsupported_declaration_ignored(r: Resolved, name: Seq<char>)
    ensures
        apply_declaration(r, PropertyV::Unsupported(name)) == r,
{
}

/// The order of the class list does not matter, nor does listing a class
/// twice: two lists with the same classes resolve alike.
pub proof fn law_class_order_irrelevant(rules: Seq<RuleV>, a: Seq<Seq<char>>, b: Seq<Seq<char>>)
    requires
        forall|c: Seq<char>| a.contains(c) <==> b.contains(c),
    ensures
        resolve_rules(rules, a) == resolve_rules(rules, b),
    decreases rules.len(),
{
    if rules.len() > 0 {
        law_class_order_irrelevant(rules.drop_last(), a, b);
        assert(a.contains(rules.last().class) == b.contains(rules.last().class));
    }
}

/// A rule whose class is not listed has no effect.
pub proof fn law_unlisted_rule_ignored(rules: Seq<RuleV>, i: int, classes: Seq<Seq<char>>)
    requires
        0 <= i < rules.len(),
        !classes.contains(rules[i].class),
    ensures
        resolve_rules(rules, classes) == resolve_rules(rules.remove(i), classes),
    decreases rules.len(),
{
    if i == rules.len() - 1 {
        assert(rules.remove(i) == rules.drop_last());
    } else {
        assert(rules.remove(i).drop_last() == rules.drop_last().remove(i));
        assert(rules.remove(i).last() == rules.last());
        law_unlisted_rule_ignored(rules.drop_last(), i, classes);
    }
}

} // verus!
