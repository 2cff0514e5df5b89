//! The grammar of a style sheet: class rules holding sizing, margin and
//! padding declarations.
//!
//! A sheet is a list of rules `.class { declarations }`; a declaration is
//! `name: value`, ended by `;` or by the end of its block. Values of the
//! supported properties are checked; other properties are carried by name with
//! their values passed over. The first error ends parsing, and its message and
//! location are those that cssparser's parser reports for it.

use vstd::prelude::*;
use crate::lexer::{CssToken, LexKind, SourceLoc, Tok, sheet_tokens, tokenize, well_formed_stream};
use crate::syntax::{
    Block, TokClass, after_token, block_end_from, class_of, classify_all, ends_block, ends_value,
    lemma_after_token_bounds, lemma_value_end_bounds, stream_ok, tok_seq, value_end,
};
use crate::text::{concat, eq_ignore_ascii_case, str_eq, str_eq_ignore_ascii_case, string_of};
use crate::values::{
    Length, MarginValue, Margins, Paddings, ZERO_BITS, bits_are_zero, expand_margins,
    expand_paddings, is_zero_bits, margins_of, paddings_of,
};

verus! {

/// A declaration.
#[derive(Debug, Clone, PartialEq)]
pub enum Property {
    Width(Length),
    Height(Length),
    MinWidth(Length),
    MaxWidth(Length),
    MinHeight(Length),
    MaxHeight(Length),
    Margin(Margins),
    MarginTop(MarginValue),
    MarginRight(MarginValue),
    MarginBottom(MarginValue),
    MarginLeft(MarginValue),
    Padding(Paddings),
    /// Pixels, as the bit pattern of an `f32`; likewise for the other sides.
    PaddingTop(u32),
    PaddingRight(u32),
    PaddingBottom(u32),
    PaddingLeft(u32),
    /// A property that is not supported, by name; its value is not kept.
    Unsupported(String),
}

/// A declaration, with its texts as character sequences.
pub ghost enum PropertyV {
    Width(Length),
    Height(Length),
    MinWidth(Length),
    MaxWidth(Length),
    MinHeight(Length),
    MaxHeight(Length),
    Margin(Margins),
    MarginTop(MarginValue),
    MarginRight(MarginValue),
    MarginBottom(MarginValue),
    MarginLeft(MarginValue),
    Padding(Paddings),
    PaddingTop(u32),
    PaddingRight(u32),
    PaddingBottom(u32),
    PaddingLeft(u32),
    Unsupported(Seq<char>),
}

impl View for Property {
    type V = PropertyV;

    open spec fn view(&self) -> PropertyV {
        match self {
            Property::Width(l) => PropertyV::Width(*l),
            Property::Height(l) => PropertyV::Height(*l),
            Property::MinWidth(l) => PropertyV::MinWidth(*l),
            Property::MaxWidth(l) => PropertyV::MaxWidth(*l),
            Property::MinHeight(l) => PropertyV::MinHeight(*l),
            Property::MaxHeight(l) => PropertyV::MaxHeight(*l),
            Property::Margin(m) => PropertyV::Margin(*m),
            Property::MarginTop(v) => PropertyV::MarginTop(*v),
            Property::MarginRight(v) => PropertyV::MarginRight(*v),
            Property::MarginBottom(v) => PropertyV::MarginBottom(*v),
            Property::MarginLeft(v) => PropertyV::MarginLeft(*v),
            Property::Padding(p) => PropertyV::Padding(*p),
            Property::PaddingTop(v) => PropertyV::PaddingTop(*v),
            Property::PaddingRight(v) => PropertyV::PaddingRight(*v),
            Property::PaddingBottom(v) => PropertyV::PaddingBottom(*v),
            Property::PaddingLeft(v) => PropertyV::PaddingLeft(*v),
            Property::Unsupported(name) => PropertyV::Unsupported(name@),
        }
    }
}

/// A rule: a class and its declarations, in source order.
#[derive(Debug, Clone, PartialEq)]
pub struct Rule {
    pub class: String,
    pub declarations: Vec<Property>,
}

pub ghost struct RuleV {
    pub class: Seq<char>,
    pub declarations: Seq<PropertyV>,
}

impl View for Rule {
    type V = RuleV;

    open spec fn view(&self) -> RuleV {
        RuleV { class: self.class@, declarations: self.declarations@.map_values(|p: Property| p@) }
    }
}

/// A style sheet: its rules, in source order.
#[derive(Debug, Clone, PartialEq)]
pub struct Stylesheet {
    pub rules: Vec<Rule>,
}

impl View for Stylesheet {
    type V = Seq<RuleV>;

    open spec fn view(&self) -> Seq<RuleV> {
        self.rules@.map_values(|r: Rule| r@)
    }
}

impl Default for Stylesheet {
    fn default() -> (s: Stylesheet)
        ensures
            s@ == Seq::<RuleV>::empty(),
    {
        Stylesheet { rules: Vec::new() }
    }
}

/// Why a sheet was refused, and where: the line counts from 0, the column from 1.
#[derive(Debug, Clone, PartialEq)]
pub struct ParseError {
    pub message: String,
    pub line: u32,
    pub column: u32,
}

pub ghost struct ParseErrorV {
    pub message: Seq<char>,
    pub line: u32,
    pub column: u32,
}

impl View for ParseError {
    type V = ParseErrorV;

    open spec fn view(&self) -> ParseErrorV {
        ParseErrorV { message: self.message@, line: self.line, column: self.column }
    }
}

/// The properties that the grammar knows by name.
#[derive(Debug, Clone, Copy, PartialEq, Eq, Structural)]
pub enum PropName {
    Width,
    Height,
    MinWidth,
    MaxWidth,
    MinHeight,
    MaxHeight,
    Margin,
    MarginTop,
    MarginRight,
    MarginBottom,
    MarginLeft,
    Padding,
    PaddingTop,
    PaddingRight,
    PaddingBottom,
    PaddingLeft,
    Other,
}

pub open spec fn prop_name(name: Seq<char>) -> PropName {
    if name == "width"@ {
        PropName::Width
    } else if name == "height"@ {
        PropName::Height
    } else if name == "min-width"@ {
        PropName::MinWidth
    } else if name == "max-width"@ {
        PropName::MaxWidth
    } else if name == "min-height"@ {
        PropName::MinHeight
    } else if name == "max-height"@ {
        PropName::MaxHeight
    } else if name == "margin"@ {
        PropName::Margin
    } else if name == "margin-top"@ {
        PropName::MarginTop
    } else if name == "margin-right"@ {
        PropName::MarginRight
    } else if name == "margin-bottom"@ {
        PropName::MarginBottom
    } else if name == "margin-left"@ {
        PropName::MarginLeft
    } else if name == "padding"@ {
        PropName::Padding
    } else if name == "padding-top"@ {
        PropName::PaddingTop
    } else if name == "padding-right"@ {
        PropName::PaddingRight
    } else if name == "padding-bottom"@ {
        PropName::PaddingBottom
    } else if name == "padding-left"@ {
        PropName::PaddingLeft
    } else {
        PropName::Other
    }
}

/// The error with the given message at the given location.
pub open spec fn error_at(message: Seq<char>, at: SourceLoc) -> ParseErrorV {
    ParseErrorV { message, line: at.line, column: at.column }
}

/// The error of a token that is not the one expected, as cssparser names it.
pub open spec fn unexpected_at(t: Tok, at: SourceLoc) -> ParseErrorV {
    error_at("UnexpectedToken("@ + t.debug + ")"@, at)
}

/// The error of an input that ends where a token is expected.
pub open spec fn end_of_input_at(at: SourceLoc) -> ParseErrorV {
    error_at("EndOfInput"@, at)
}

/// Where the parser stands before position `k`: after the token before it.
pub open spec fn before(toks: Seq<Tok>, k: int) -> SourceLoc {
    if k <= 0 {
        SourceLoc { line: 0, column: 1 }
    } else {
        toks[k - 1].end
    }
}

/// A length at `v`: `Npx` (any case of `px`), a percentage, a unitless zero,
/// or `auto` (any case). On success the one token at `v` is read.
pub open spec fn length_at(toks: Seq<Tok>, v: int) -> Result<Length, ParseErrorV> {
    let t = toks[v];
    if ends_value(t) {
        Err(end_of_input_at(t.start))
    } else if t.kind == LexKind::Dimension {
        if eq_ignore_ascii_case(t.text, "px"@) {
            Ok(Length::Px(t.bits))
        } else {
            Err(error_at("unsupported length unit: "@ + t.text, t.end))
        }
    } else if t.kind == LexKind::Percentage {
        Ok(Length::Percent(t.bits))
    } else if t.kind == LexKind::Number {
        if is_zero_bits(t.bits) {
            Ok(Length::Px(ZERO_BITS))
        } else {
            Err(error_at("non-zero lengths require a unit"@, t.end))
        }
    } else if t.kind == LexKind::Ident && eq_ignore_ascii_case(t.text, "auto"@) {
        Ok(Length::Auto)
    } else {
        Err(error_at("expected a length, got "@ + t.debug, t.end))
    }
}

/// A margin side at `v`: a length other than a percentage.
pub open spec fn margin_value_at(toks: Seq<Tok>, v: int) -> Result<MarginValue, ParseErrorV> {
    match length_at(toks, v) {
        Ok(Length::Px(b)) => Ok(MarginValue::Px(b)),
        Ok(Length::Auto) => Ok(MarginValue::Auto),
        Ok(Length::Percent(_)) => Err(error_at("percentage margins are not supported yet"@, toks[v].end)),
        Err(e) => Err(e),
    }
}

/// A padding side at `v`: a length in pixels.
pub open spec fn padding_value_at(toks: Seq<Tok>, v: int) -> Result<u32, ParseErrorV> {
    match length_at(toks, v) {
        Ok(Length::Px(b)) => Ok(b),
        Ok(Length::Auto) => Err(error_at("padding does not accept auto"@, toks[v].end)),
        Ok(Length::Percent(_)) => Err(error_at("percentage paddings are not supported yet"@, toks[v].end)),
        Err(e) => Err(e),
    }
}

/// The sides of a shorthand from `p` to the end of the value, after `values`,
/// each read by `side_at`; at most four in all, else the error `too_many`.
pub open spec fn side_list<T>(
    toks: Seq<Tok>,
    p: int,
    values: Seq<T>,
    side_at: spec_fn(int) -> Result<T, ParseErrorV>,
    too_many: Seq<char>,
) -> Result<(Seq<T>, int), ParseErrorV>
    decreases toks.len() - p,
{
    if p < 0 || p >= toks.len() || ends_value(toks[p]) {
        Ok((values, p))
    } else if values.len() >= 4 {
        Err(error_at(too_many, before(toks, p)))
    } else {
        match side_at(p) {
            Ok(x) => side_list(toks, p + 1, values.push(x), side_at, too_many),
            Err(e) => Err(e),
        }
    }
}

/// The margin sides from `p` to the end of the value, after `values`; at most four in all.
pub open spec fn margin_list(toks: Seq<Tok>, p: int, values: Seq<MarginValue>) -> Result<(Seq<MarginValue>, int), ParseErrorV> {
    side_list(toks, p, values, |q: int| margin_value_at(toks, q), "margin max 4 values"@)
}

/// The padding sides from `p` to the end of the value, after `values`; at most four in all.
pub open spec fn padding_list(toks: Seq<Tok>, p: int, values: Seq<u32>) -> Result<(Seq<u32>, int), ParseErrorV> {
    side_list(toks, p, values, |q: int| padding_value_at(toks, q), "padding max 4 values"@)
}

/// A `margin` shorthand value at `v`: one to four sides.
pub open spec fn margins_at(toks: Seq<Tok>, v: int) -> Result<(Margins, int), ParseErrorV> {
    match margin_list(toks, v, seq![]) {
        Ok((values, m)) => if values.len() == 0 {
            Err(error_at("margin needs at least 1 value"@, before(toks, m)))
        } else {
            Ok((margins_of(values), m))
        },
        Err(e) => Err(e),
    }
}

/// A `padding` shorthand value at `v`: one to four sides.
pub open spec fn paddings_at(toks: Seq<Tok>, v: int) -> Result<(Paddings, int), ParseErrorV> {
    match padding_list(toks, v, seq![]) {
        Ok((values, m)) => if values.len() == 0 {
            Err(error_at("padding needs at least 1 value"@, before(toks, m)))
        } else {
            Ok((paddings_of(values), m))
        },
        Err(e) => Err(e),
    }
}

/// A value of one token at `v` that must end the declaration's value.
pub open spec fn alone_at<T>(toks: Seq<Tok>, r: Result<T, ParseErrorV>, v: int) -> Result<(T, int), ParseErrorV> {
    match r {
        Ok(x) => if ends_value(toks[v + 1]) {
            Ok((x, v + 1))
        } else {
            Err(unexpected_at(toks[v + 1], toks[v].end))
        },
        Err(e) => Err(e),
    }
}

pub open spec fn length_property(p: PropName, l: Length) -> PropertyV {
    match p {
        PropName::Height => PropertyV::Height(l),
        PropName::MinWidth => PropertyV::MinWidth(l),
        PropName::MaxWidth => PropertyV::MaxWidth(l),
        PropName::MinHeight => PropertyV::MinHeight(l),
        PropName::MaxHeight => PropertyV::MaxHeight(l),
        _ => PropertyV::Width(l),
    }
}

pub open spec fn margin_side_property(p: PropName, m: MarginValue) -> PropertyV {
    match p {
        PropName::MarginRight => PropertyV::MarginRight(m),
        PropName::MarginBottom => PropertyV::MarginBottom(m),
        PropName::MarginLeft => PropertyV::MarginLeft(m),
        _ => PropertyV::MarginTop(m),
    }
}

pub open spec fn padding_side_property(p: PropName, b: u32) -> PropertyV {
    match p {
        PropName::PaddingRight => PropertyV::PaddingRight(b),
        PropName::PaddingBottom => PropertyV::PaddingBottom(b),
        PropName::PaddingLeft => PropertyV::PaddingLeft(b),
        _ => PropertyV::PaddingTop(b),
    }
}

pub open spec fn is_length_name(p: PropName) -> bool {
    p == PropName::Width || p == PropName::Height || p == PropName::MinWidth || p == PropName::MaxWidth
        || p == PropName::MinHeight || p == PropName::MaxHeight
}

pub open spec fn is_margin_side_name(p: PropName) -> bool {
    p == PropName::MarginTop || p == PropName::MarginRight || p == PropName::MarginBottom || p == PropName::MarginLeft
}

pub open spec fn is_padding_side_name(p: PropName) -> bool {
    p == PropName::PaddingTop || p == PropName::PaddingRight || p == PropName::PaddingBottom || p == PropName::PaddingLeft
}

/// The value of a declaration of `name` at `v`, and where the value stops.
pub open spec fn value_at(toks: Seq<Tok>, name: Seq<char>, v: int) -> Result<(PropertyV, int), ParseErrorV> {
    let p = prop_name(name);
    if is_length_name(p) {
        match alone_at(toks, length_at(toks, v), v) {
            Ok((l, m)) => Ok((length_property(p, l), m)),
            Err(e) => Err(e),
        }
    } else if p == PropName::Margin {
        match margins_at(toks, v) {
            Ok((ms, m)) => Ok((PropertyV::Margin(ms), m)),
            Err(e) => Err(e),
        }
    } else if is_margin_side_name(p) {
        match alone_at(toks, margin_value_at(toks, v), v) {
            Ok((x, m)) => Ok((margin_side_property(p, x), m)),
            Err(e) => Err(e),
        }
    } else if p == PropName::Padding {
        match paddings_at(toks, v) {
            Ok((ps, m)) => Ok((PropertyV::Padding(ps), m)),
            Err(e) => Err(e),
        }
    } else if is_padding_side_name(p) {
        match alone_at(toks, padding_value_at(toks, v), v) {
            Ok((x, m)) => Ok((padding_side_property(p, x), m)),
            Err(e) => Err(e),
        }
    } else {
        Ok((PropertyV::Unsupported(name), value_end(toks, v)))
    }
}


/// The declarations of a block from `k` on, and where they stop: at the `}`
/// that closes the block or at the end of the input.
pub open spec fn declarations_at(toks: Seq<Tok>, k: int) -> Result<(Seq<PropertyV>, int), ParseErrorV>
    decreases toks.len() - k,
{
    if k < 1 || k >= toks.len() || ends_block(toks[k]) {
        Ok((seq![], k))
    } else if toks[k].kind != LexKind::Ident {
        Err(unexpected_at(toks[k], toks[k - 1].end))
    } else if ends_block(toks[k + 1]) {
        Err(end_of_input_at(toks[k + 1].start))
    } else if class_of(toks[k + 1]) != TokClass::Colon {
        Err(unexpected_at(toks[k + 1], toks[k].end))
    } else {
        match value_at(toks, toks[k].text, k + 2) {
            Ok((p, m)) => {
                let next = if class_of(toks[m]) == TokClass::Semicolon {
                    m + 1
                } else {
                    m
                };
                if next <= k || next >= toks.len() {
                    Ok((seq![p], m))
                } else {
                    match declarations_at(toks, next) {
                        Ok((ps, j)) => Ok((seq![p] + ps, j)),
                        Err(e) => Err(e),
                    }
                }
            },
            Err(e) => Err(e),
        }
    }
}

/// The rules of a sheet from `i` on.
pub open spec fn rules_at(toks: Seq<Tok>, i: int) -> Result<Seq<RuleV>, ParseErrorV>
    decreases toks.len() - i,
{
    if i < 0 || i >= toks.len() || toks[i].kind == LexKind::End {
        Ok(seq![])
    } else if class_of(toks[i]) != TokClass::Dot {
        Err(error_at("unsupported selector start: "@ + toks[i].debug, toks[i].end))
    } else if toks[i + 1].kind == LexKind::End {
        Err(end_of_input_at(toks[i + 1].start))
    } else if toks[i + 1].kind != LexKind::Ident {
        Err(unexpected_at(toks[i + 1], toks[i].end))
    } else if toks[i + 2].kind == LexKind::End {
        Err(end_of_input_at(toks[i + 2].start))
    } else if class_of(toks[i + 2]) != TokClass::Open(Block::Curly) {
        Err(unexpected_at(toks[i + 2], toks[i + 1].end))
    } else {
        match declarations_at(toks, i + 3) {
            Ok((ds, j)) => {
                let rule = RuleV { class: toks[i + 1].text, declarations: ds };
                let next = if class_of(toks[j]) == TokClass::Close(Block::Curly) {
                    j + 1
                } else {
                    j
                };
                if next <= i || next >= toks.len() {
                    Ok(seq![rule])
                } else {
                    match rules_at(toks, next) {
                        Ok(rs) => Ok(seq![rule] + rs),
                        Err(e) => Err(e),
                    }
                }
            },
            Err(e) => Err(e),
        }
    }
}

/// The outcome of parsing a token stream: its rules, or the first error.
pub open spec fn sheet_of(toks: Seq<Tok>) -> Result<Seq<RuleV>, ParseErrorV> {
    rules_at(toks, 0)
}

/// A shorthand's sides that parse stop where the value stops.
pub proof fn lemma_side_list_bounds<T>(
    toks: Seq<Tok>,
    p: int,
    values: Seq<T>,
    side_at: spec_fn(int) -> Result<T, ParseErrorV>,
    too_many: Seq<char>,
)
    requires
        well_formed_stream(toks),
        0 <= p <= toks.len() - 1,
    ensures
        side_list(toks, p, values, side_at, too_many) matches Ok((vs, m))
            ==> p <= m <= toks.len() - 1 && ends_value(toks[m]),
    decreases toks.len() - p,
{
    if !ends_value(toks[p]) && values.len() < 4 {
        if let Ok(x) = side_at(p) {
            assert(p < toks.len() - 1);
            lemma_side_list_bounds(toks, p + 1, values.push(x), side_at, too_many);
        }
    }
}

/// A value that parses stops where a value stops, at or after its start.
pub proof fn lemma_value_bounds(toks: Seq<Tok>, name: Seq<char>, v: int)
    requires
        well_formed_stream(toks),
        0 <= v <= toks.len() - 1,
    ensures
        value_at(toks, name, v) matches Ok((p, m)) ==> v <= m <= toks.len() - 1 && ends_value(toks[m]),
{
    lemma_side_list_bounds(toks, v, seq![], |q: int| margin_value_at(toks, q), "margin max 4 values"@);
    lemma_side_list_bounds(toks, v, seq![], |q: int| padding_value_at(toks, q), "padding max 4 values"@);
    lemma_value_end_bounds(toks, v);
}

/// Declarations that parse stop at the end of their block.
pub proof fn lemma_declarations_bounds(toks: Seq<Tok>, k: int)
    requires
        well_formed_stream(toks),
        1 <= k <= toks.len() - 1,
    ensures
        declarations_at(toks, k) matches Ok((ps, j)) ==> k <= j <= toks.len() - 1 && ends_block(toks[j]),
    decreases toks.len() - k,
{
    if !ends_block(toks[k]) && toks[k].kind == LexKind::Ident && !ends_block(toks[k + 1])
        && class_of(toks[k + 1]) == TokClass::Colon {
        assert(k + 2 <= toks.len() - 1);
        lemma_value_bounds(toks, toks[k].text, k + 2);
        if let Ok((p, m)) = value_at(toks, toks[k].text, k + 2) {
            let next = if class_of(toks[m]) == TokClass::Semicolon {
                m + 1
            } else {
                m
            };
            if class_of(toks[m]) == TokClass::Semicolon {
                assert(m < toks.len() - 1);
            }
            lemma_declarations_bounds(toks, next);
        }
    }
}

/// An outcome of the library against an outcome of the grammar.
pub open spec fn agrees<T>(r: Result<T, ParseError>, s: Result<T, ParseErrorV>) -> bool {
    match r {
        Ok(x) => s == Ok::<T, ParseErrorV>(x),
        Err(e) => s == Err::<T, ParseErrorV>(e@),
    }
}

/// An outcome with a position against an outcome of the grammar.
pub open spec fn agrees_at<T>(r: Result<(T, usize), ParseError>, s: Result<(T, int), ParseErrorV>) -> bool {
    match r {
        Ok((x, m)) => s == Ok::<(T, int), ParseErrorV>((x, m as int)),
        Err(e) => s == Err::<(T, int), ParseErrorV>(e@),
    }
}

fn error_with(message: String, at: SourceLoc) -> (e: ParseError)
    ensures
        e@ == error_at(message@, at),
{
    ParseError { message, line: at.line, column: at.column }
}

fn end_of_input(at: SourceLoc) -> (e: ParseError)
    ensures
        e@ == end_of_input_at(at),
{
    error_with(string_of("EndOfInput"), at)
}

fn unexpected(t: &CssToken, at: SourceLoc) -> (e: ParseError)
    ensures
        e@ == unexpected_at(t@, at),
{
    let mut message = concat("UnexpectedToken(", t.debug.as_str());
    message.append(")");
    error_with(message, at)
}

fn location_before(toks: &Vec<CssToken>, k: usize) -> (at: SourceLoc)
    requires
        k <= toks.len(),
    ensures
        at == before(tok_seq(toks@), k as int),
{
    if k == 0 {
        SourceLoc { line: 0, column: 1 }
    } else {
        toks[k - 1].end
    }
}

fn ends_value_at(toks: &Vec<CssToken>, cls: &Vec<TokClass>, i: usize) -> (r: bool)
    requires
        stream_ok(toks@, cls@),
        i < toks.len(),
    ensures
        r == ends_value(tok_seq(toks@)[i as int]),
{
    assert(cls@[i as int] == class_of(toks@[i as int]@));
    match toks[i].kind {
        LexKind::End => true,
        _ => match cls[i] {
            TokClass::Close(Block::Curly) | TokClass::Semicolon => true,
            _ => false,
        },
    }
}

fn ends_block_at(toks: &Vec<CssToken>, cls: &Vec<TokClass>, i: usize) -> (r: bool)
    requires
        stream_ok(toks@, cls@),
        i < toks.len(),
    ensures
        r == ends_block(tok_seq(toks@)[i as int]),
{
    assert(cls@[i as int] == class_of(toks@[i as int]@));
    match toks[i].kind {
        LexKind::End => true,
        _ => match cls[i] {
            TokClass::Close(Block::Curly) => true,
            _ => false,
        },
    }
}

/// The property that a declaration name stands for.
pub fn prop_name_of(name: &str) -> (p: PropName)
    ensures
        p == prop_name(name@),
{
    if str_eq(name, "width") {
        PropName::Width
    } else if str_eq(name, "height") {
        PropName::Height
    } else if str_eq(name, "min-width") {
        PropName::MinWidth
    } else if str_eq(name, "max-width") {
        PropName::MaxWidth
    } else if str_eq(name, "min-height") {
        PropName::MinHeight
    } else if str_eq(name, "max-height") {
        PropName::MaxHeight
    } else if str_eq(name, "margin") {
        PropName::Margin
    } else if str_eq(name, "margin-top") {
        PropName::MarginTop
    } else if str_eq(name, "margin-right") {
        PropName::MarginRight
    } else if str_eq(name, "margin-bottom") {
        PropName::MarginBottom
    } else if str_eq(name, "margin-left") {
        PropName::MarginLeft
    } else if str_eq(name, "padding") {
        PropName::Padding
    } else if str_eq(name, "padding-top") {
        PropName::PaddingTop
    } else if str_eq(name, "padding-right") {
        PropName::PaddingRight
    } else if str_eq(name, "padding-bottom") {
        PropName::PaddingBottom
    } else if str_eq(name, "padding-left") {
        PropName::PaddingLeft
    } else {
        PropName::Other
    }
}

/// Reads a length at `v`.
fn length_from(toks: &Vec<CssToken>, cls: &Vec<TokClass>, v: usize) -> (r: Result<Length, ParseError>)
    requires
        stream_ok(toks@, cls@),
        v < toks.len(),
    ensures
        agrees(r, length_at(tok_seq(toks@), v as int)),
{
    let ghost l = tok_seq(toks@);
    assert(l[v as int] == toks@[v as int]@);
    let t = &toks[v];
    if ends_value_at(toks, cls, v) {
        return Err(end_of_input(t.start));
    }
    match t.kind {
        LexKind::Dimension => {
            if str_eq_ignore_ascii_case(t.text.as_str(), "px") {
                Ok(Length::Px(t.bits))
            } else {
                Err(error_with(concat("unsupported length unit: ", t.text.as_str()), t.end))
            }
        },
        LexKind::Percentage => Ok(Length::Percent(t.bits)),
        LexKind::Number => {
            if bits_are_zero(t.bits) {
                Ok(Length::Px(ZERO_BITS))
            } else {
                Err(error_with(string_of("non-zero lengths require a unit"), t.end))
            }
        },
        _ => {
            let is_auto = match t.kind {
                LexKind::Ident => str_eq_ignore_ascii_case(t.text.as_str(), "auto"),
                _ => false,
            };
            if is_auto {
                Ok(Length::Auto)
            } else {
                Err(error_with(concat("expected a length, got ", t.debug.as_str()), t.end))
            }
        },
    }
}

fn margin_value_from(toks: &Vec<CssToken>, cls: &Vec<TokClass>, v: usize) -> (r: Result<MarginValue, ParseError>)
    requires
        stream_ok(toks@, cls@),
        v < toks.len(),
    ensures
        agrees(r, margin_value_at(tok_seq(toks@), v as int)),
{
    assert(tok_seq(toks@)[v as int] == toks@[v as int]@);
    match length_from(toks, cls, v) {
        Ok(Length::Px(b)) => Ok(MarginValue::Px(b)),
        Ok(Length::Auto) => Ok(MarginValue::Auto),
        Ok(Length::Percent(_)) => Err(error_with(string_of("percentage margins are not supported yet"), toks[v].end)),
        Err(e) => Err(e),
    }
}

fn padding_value_from(toks: &Vec<CssToken>, cls: &Vec<TokClass>, v: usize) -> (r: Result<u32, ParseError>)
    requires
        stream_ok(toks@, cls@),
        v < toks.len(),
    ensures
        agrees(r, padding_value_at(tok_seq(toks@), v as int)),
{
    assert(tok_seq(toks@)[v as int] == toks@[v as int]@);
    match length_from(toks, cls, v) {
        Ok(Length::Px(b)) => Ok(b),
        Ok(Length::Auto) => Err(error_with(string_of("padding does not accept auto"), toks[v].end)),
        Ok(Length::Percent(_)) => Err(error_with(string_of("percentage paddings are not supported yet"), toks[v].end)),
        Err(e) => Err(e),
    }
}

/// The sides of a shorthand at `v`, each read by `read`, up to the end of the
/// value: `read` stands for `side_at`, and more than four sides give `too_many`.
fn sides_from<T, F: Fn(usize) -> Result<T, ParseError>>(
    toks: &Vec<CssToken>,
    cls: &Vec<TokClass>,
    v: usize,
    read: F,
    Ghost(side_at): Ghost<spec_fn(int) -> Result<T, ParseErrorV>>,
    too_many: &str,
) -> (r: Result<(Vec<T>, usize), ParseError>)
    requires
        stream_ok(toks@, cls@),
        v < toks.len(),
        forall|q: usize| q < toks.len() ==> #[trigger] read.requires((q,)),
        forall|q: usize, x: Result<T, ParseError>| #[trigger] read.ensures((q,), x) ==> agrees(x, side_at(q as int)),
    ensures
        match r {
            Ok((values, m)) => side_list(tok_seq(toks@), v as int, seq![], side_at, too_many@)
                == Ok::<(Seq<T>, int), ParseErrorV>((values@, m as int)) && values@.len() <= 4 && v <= m < toks.len(),
            Err(e) => side_list(tok_seq(toks@), v as int, seq![], side_at, too_many@)
                == Err::<(Seq<T>, int), ParseErrorV>(e@),
        },
{
    let ghost l = tok_seq(toks@);
    let n = toks.len();
    let mut values: Vec<T> = Vec::new();
    let mut p = v;
    loop
        invariant
            stream_ok(toks@, cls@),
            l == tok_seq(toks@),
            n == toks.len(),
            v <= p < n,
            values@.len() <= 4,
            forall|q: usize| q < toks.len() ==> #[trigger] read.requires((q,)),
            forall|q: usize, x: Result<T, ParseError>| #[trigger] read.ensures((q,), x) ==> agrees(x, side_at(q as int)),
            side_list(l, p as int, values@, side_at, too_many@) == side_list(l, v as int, seq![], side_at, too_many@),
        ensures
            v <= p < n,
            ends_value(l[p as int]),
            side_list(l, p as int, values@, side_at, too_many@) == side_list(l, v as int, seq![], side_at, too_many@),
        decreases n - p,
    {
        if ends_value_at(toks, cls, p) {
            break;
        }
        if values.len() >= 4 {
            return Err(error_with(string_of(too_many), location_before(toks, p)));
        }
        match read(p) {
            Ok(x) => {
                assert(p < n - 1) by {
                    assert(l[p as int] == toks@[p as int]@);
                }
                values.push(x);
                p += 1;
            },
            Err(e) => return Err(e),
        }
    }
    Ok((values, p))
}

fn margins_from(toks: &Vec<CssToken>, cls: &Vec<TokClass>, v: usize) -> (r: Result<(Margins, usize), ParseError>)
    requires
        stream_ok(toks@, cls@),
        v < toks.len(),
    ensures
        agrees_at(r, margins_at(tok_seq(toks@), v as int)),
{
    let ghost l = tok_seq(toks@);
    let read = |q: usize| -> (x: Result<MarginValue, ParseError>)
        requires
            stream_ok(toks@, cls@),
            q < toks.len(),
        ensures
            agrees(x, margin_value_at(tok_seq(toks@), q as int)),
        { margin_value_from(toks, cls, q) };
    let ghost side_at = |q: int| margin_value_at(l, q);
    match sides_from(toks, cls, v, read, Ghost(side_at), "margin max 4 values") {
        Ok((values, p)) => {
            assert(margin_list(l, v as int, seq![]) == side_list(l, v as int, seq![], side_at, "margin max 4 values"@));
            if values.len() == 0 {
                Err(error_with(string_of("margin needs at least 1 value"), location_before(toks, p)))
            } else {
                Ok((expand_margins(&values), p))
            }
        },
        Err(e) => {
            assert(margin_list(l, v as int, seq![]) == side_list(l, v as int, seq![], side_at, "margin max 4 values"@));
            Err(e)
        },
    }
}

fn paddings_from(toks: &Vec<CssToken>, cls: &Vec<TokClass>, v: usize) -> (r: Result<(Paddings, usize), ParseError>)
    requires
        stream_ok(toks@, cls@),
        v < toks.len(),
    ensures
        agrees_at(r, paddings_at(tok_seq(toks@), v as int)),
{
    let ghost l = tok_seq(toks@);
    let read = |q: usize| -> (x: Result<u32, ParseError>)
        requires
            stream_ok(toks@, cls@),
            q < toks.len(),
        ensures
            agrees(x, padding_value_at(tok_seq(toks@), q as int)),
        { padding_value_from(toks, cls, q) };
    let ghost side_at = |q: int| padding_value_at(l, q);
    match sides_from(toks, cls, v, read, Ghost(side_at), "padding max 4 values") {
        Ok((values, p)) => {
            assert(padding_list(l, v as int, seq![]) == side_list(l, v as int, seq![], side_at, "padding max 4 values"@));
            if values.len() == 0 {
                Err(error_with(string_of("padding needs at least 1 value"), location_before(toks, p)))
            } else {
                Ok((expand_paddings(&values), p))
            }
        },
        Err(e) => {
            assert(padding_list(l, v as int, seq![]) == side_list(l, v as int, seq![], side_at, "padding max 4 values"@));
            Err(e)
        },
    }
}


fn after_token_from(toks: &Vec<CssToken>, cls: &Vec<TokClass>, i: usize) -> (j: usize)
    requires
        stream_ok(toks@, cls@),
        i < toks.len() - 1,
    ensures
        j as int == after_token(tok_seq(toks@), i as int),
        i < j <= toks.len() - 1,
{
    proof {
        lemma_after_token_bounds(tok_seq(toks@), i as int);
    }
    assert(cls@[i as int] == class_of(toks@[i as int]@));
    assert(tok_seq(toks@)[i as int] == toks@[i as int]@);
    match cls[i] {
        TokClass::Open(b) => block_end_from(toks, cls, b, i + 1),
        _ => i + 1,
    }
}

fn value_end_from(toks: &Vec<CssToken>, cls: &Vec<TokClass>, v: usize) -> (m: usize)
    requires
        stream_ok(toks@, cls@),
        v < toks.len(),
    ensures
        m as int == value_end(tok_seq(toks@), v as int),
{
    let ghost l = tok_seq(toks@);
    let n = toks.len();
    let mut p = v;
    loop
        invariant
            stream_ok(toks@, cls@),
            l == tok_seq(toks@),
            n == toks.len(),
            v <= p < n,
            value_end(l, p as int) == value_end(l, v as int),
        decreases n - p,
    {
        if ends_value_at(toks, cls, p) {
            return p;
        }
        assert(p < n - 1);
        p = after_token_from(toks, cls, p);
    }
}

fn length_property_of(p: PropName, l: Length) -> (r: Property)
    ensures
        r@ == length_property(p, l),
{
    match p {
        PropName::Height => Property::Height(l),
        PropName::MinWidth => Property::MinWidth(l),
        PropName::MaxWidth => Property::MaxWidth(l),
        PropName::MinHeight => Property::MinHeight(l),
        PropName::MaxHeight => Property::MaxHeight(l),
        _ => Property::Width(l),
    }
}

fn margin_side_property_of(p: PropName, m: MarginValue) -> (r: Property)
    ensures
        r@ == margin_side_property(p, m),
{
    match p {
        PropName::MarginRight => Property::MarginRight(m),
        PropName::MarginBottom => Property::MarginBottom(m),
        PropName::MarginLeft => Property::MarginLeft(m),
        _ => Property::MarginTop(m),
    }
}

fn padding_side_property_of(p: PropName, b: u32) -> (r: Property)
    ensures
        r@ == padding_side_property(p, b),
{
    match p {
        PropName::PaddingRight => Property::PaddingRight(b),
        PropName::PaddingBottom => Property::PaddingBottom(b),
        PropName::PaddingLeft => Property::PaddingLeft(b),
        _ => Property::PaddingTop(b),
    }
}

/// A value of one token at `v`, which must end the declaration's value.
fn alone_from<T>(toks: &Vec<CssToken>, cls: &Vec<TokClass>, r: Result<T, ParseError>, v: usize) -> (out: Result<(T, usize), ParseError>)
    requires
        stream_ok(toks@, cls@),
        v < toks.len(),
        r is Ok ==> v < toks.len() - 1,
    ensures
        match (r, out) {
            (Ok(x), Ok((y, m))) => y == x,
            _ => true,
        },
        forall|s: Result<T, ParseErrorV>| agrees(r, s) ==> agrees_at(out, alone_at(tok_seq(toks@), s, v as int)),
{
    match r {
        Ok(x) => {
            assert(tok_seq(toks@)[v as int + 1] == toks@[v as int + 1]@);
            assert(tok_seq(toks@)[v as int] == toks@[v as int]@);
            if ends_value_at(toks, cls, v + 1) {
                Ok((x, v + 1))
            } else {
                Err(unexpected(&toks[v + 1], toks[v].end))
            }
        },
        Err(e) => Err(e),
    }
}

/// Reads the value of a declaration of `name` at `v`.
fn value_from(toks: &Vec<CssToken>, cls: &Vec<TokClass>, name: &String, v: usize) -> (r: Result<(Property, usize), ParseError>)
    requires
        stream_ok(toks@, cls@),
        v < toks.len(),
    ensures
        match r {
            Ok((p, m)) => value_at(tok_seq(toks@), name@, v as int) == Ok::<(PropertyV, int), ParseErrorV>((p@, m as int)),
            Err(e) => value_at(tok_seq(toks@), name@, v as int) == Err::<(PropertyV, int), ParseErrorV>(e@),
        },
{
    let ghost l = tok_seq(toks@);
    assert(l[v as int] == toks@[v as int]@);
    let p = prop_name_of(name.as_str());
    match p {
        PropName::Width | PropName::Height | PropName::MinWidth | PropName::MaxWidth
        | PropName::MinHeight | PropName::MaxHeight => {
            let r = length_from(toks, cls, v);
            match alone_from(toks, cls, r, v) {
                Ok((len, m)) => Ok((length_property_of(p, len), m)),
                Err(e) => Err(e),
            }
        },
        PropName::Margin => match margins_from(toks, cls, v) {
            Ok((ms, m)) => Ok((Property::Margin(ms), m)),
            Err(e) => Err(e),
        },
        PropName::MarginTop | PropName::MarginRight | PropName::MarginBottom | PropName::MarginLeft => {
            let r = margin_value_from(toks, cls, v);
            match alone_from(toks, cls, r, v) {
                Ok((x, m)) => Ok((margin_side_property_of(p, x), m)),
                Err(e) => Err(e),
            }
        },
        PropName::Padding => match paddings_from(toks, cls, v) {
            Ok((ps, m)) => Ok((Property::Padding(ps), m)),
            Err(e) => Err(e),
        },
        PropName::PaddingTop | PropName::PaddingRight | PropName::PaddingBottom | PropName::PaddingLeft => {
            let r = padding_value_from(toks, cls, v);
            match alone_from(toks, cls, r, v) {
                Ok((x, m)) => Ok((padding_side_property_of(p, x), m)),
                Err(e) => Err(e),
            }
        },
        PropName::Other => Ok((Property::Unsupported(name.clone()), value_end_from(toks, cls, v))),
    }
}


/// Declarations `ps` in front of an outcome of the grammar.
pub open spec fn after_declarations(ps: Seq<PropertyV>, r: Result<(Seq<PropertyV>, int), ParseErrorV>) -> Result<(Seq<PropertyV>, int), ParseErrorV> {
    match r {
        Ok((qs, j)) => Ok((ps + qs, j)),
        Err(e) => Err(e),
    }
}

/// Rules `rs` in front of an outcome of the grammar.
pub open spec fn after_rules(rs: Seq<RuleV>, r: Result<Seq<RuleV>, ParseErrorV>) -> Result<Seq<RuleV>, ParseErrorV> {
    match r {
        Ok(qs) => Ok(rs + qs),
        Err(e) => Err(e),
    }
}

/// Reads the declarations of a block from `start`.
fn declarations_from(toks: &Vec<CssToken>, cls: &Vec<TokClass>, start: usize) -> (r: Result<(Vec<Property>, usize), ParseError>)
    requires
        stream_ok(toks@, cls@),
        1 <= start <= toks.len() - 1,
    ensures
        match r {
            Ok((ps, j)) => declarations_at(tok_seq(toks@), start as int) == Ok::<(Seq<PropertyV>, int), ParseErrorV>((ps@.map_values(|p: Property| p@), j as int)),
            Err(e) => declarations_at(tok_seq(toks@), start as int) == Err::<(Seq<PropertyV>, int), ParseErrorV>(e@),
        },
{
    let ghost l = tok_seq(toks@);
    let n = toks.len();
    let mut props: Vec<Property> = Vec::new();
    let mut k = start;
    loop
        invariant
            stream_ok(toks@, cls@),
            l == tok_seq(toks@),
            n == toks.len(),
            1 <= k <= n - 1,
            after_declarations(props@.map_values(|p: Property| p@), declarations_at(l, k as int)) == declarations_at(l, start as int),
        decreases n - k,
    {
        let ghost done = props@.map_values(|p: Property| p@);
        assert(l[k as int] == toks@[k as int]@);
        assert(cls@[k as int] == class_of(toks@[k as int]@));
        if ends_block_at(toks, cls, k) {
            assert(done + seq![] == done);
            return Ok((props, k));
        }
        match toks[k].kind {
            LexKind::Ident => {},
            _ => return Err(unexpected(&toks[k], toks[k - 1].end)),
        }
        assert(k + 1 <= n - 1);
        assert(l[k + 1] == toks@[k + 1]@);
        assert(cls@[k + 1] == class_of(toks@[k + 1]@));
        if ends_block_at(toks, cls, k + 1) {
            return Err(end_of_input(toks[k + 1].start));
        }
        match cls[k + 1] {
            TokClass::Colon => {},
            _ => return Err(unexpected(&toks[k + 1], toks[k].end)),
        }
        assert(k + 2 <= n - 1);
        proof {
            lemma_value_bounds(l, l[k as int].text, k + 2);
        }
        match value_from(toks, cls, &toks[k].text, k + 2) {
            Ok((p, m)) => {
                assert(l[m as int] == toks@[m as int]@);
                assert(cls@[m as int] == class_of(toks@[m as int]@));
                let next = match cls[m] {
                    TokClass::Semicolon => m + 1,
                    _ => m,
                };
                let ghost pv = p@;
                props.push(p);
                assert(props@.map_values(|p: Property| p@) == done.push(pv));
                proof {
                    match declarations_at(l, next as int) {
                        Ok((ps, j)) => {
                            assert(done + (seq![pv] + ps) == done.push(pv) + ps);
                        },
                        Err(e) => {},
                    }
                }
                k = next;
            },
            Err(e) => return Err(e),
        }
    }
}

/// Reads the rules of a sheet.
fn rules_from(toks: &Vec<CssToken>, cls: &Vec<TokClass>) -> (r: Result<Vec<Rule>, ParseError>)
    requires
        stream_ok(toks@, cls@),
    ensures
        match r {
            Ok(rs) => sheet_of(tok_seq(toks@)) == Ok::<Seq<RuleV>, ParseErrorV>(rs@.map_values(|r: Rule| r@)),
            Err(e) => sheet_of(tok_seq(toks@)) == Err::<Seq<RuleV>, ParseErrorV>(e@),
        },
{
    let ghost l = tok_seq(toks@);
    let n = toks.len();
    let mut rules: Vec<Rule> = Vec::new();
    let mut i: usize = 0;
    loop
        invariant
            stream_ok(toks@, cls@),
            l == tok_seq(toks@),
            n == toks.len(),
            i <= n - 1,
            after_rules(rules@.map_values(|r: Rule| r@), rules_at(l, i as int)) == rules_at(l, 0),
        decreases n - i,
    {
        let ghost done = rules@.map_values(|r: Rule| r@);
        assert(l[i as int] == toks@[i as int]@);
        assert(cls@[i as int] == class_of(toks@[i as int]@));
        match toks[i].kind {
            LexKind::End => {
                assert(done + seq![] == done);
                return Ok(rules);
            },
            _ => {},
        }
        match cls[i] {
            TokClass::Dot => {},
            _ => return Err(error_with(concat("unsupported selector start: ", toks[i].debug.as_str()), toks[i].end)),
        }
        assert(i + 1 <= n - 1);
        assert(l[i + 1] == toks@[i + 1]@);
        match toks[i + 1].kind {
            LexKind::End => return Err(end_of_input(toks[i + 1].start)),
            LexKind::Ident => {},
            _ => return Err(unexpected(&toks[i + 1], toks[i].end)),
        }
        assert(i + 2 <= n - 1);
        assert(l[i + 2] == toks@[i + 2]@);
        assert(cls@[i + 2] == class_of(toks@[i + 2]@));
        match toks[i + 2].kind {
            LexKind::End => return Err(end_of_input(toks[i + 2].start)),
            _ => {},
        }
        match cls[i + 2] {
            TokClass::Open(Block::Curly) => {},
            _ => return Err(unexpected(&toks[i + 2], toks[i + 1].end)),
        }
        assert(i + 3 <= n - 1);
        proof {
            lemma_declarations_bounds(l, i + 3);
        }
        match declarations_from(toks, cls, i + 3) {
            Ok((declarations, j)) => {
                assert(l[j as int] == toks@[j as int]@);
                assert(cls@[j as int] == class_of(toks@[j as int]@));
                let next = match cls[j] {
                    TokClass::Close(Block::Curly) => j + 1,
                    _ => j,
                };
                let rule = Rule { class: toks[i + 1].text.clone(), declarations };
                let ghost rv = rule@;
                rules.push(rule);
                assert(rules@.map_values(|r: Rule| r@) == done.push(rv));
                proof {
                    match rules_at(l, next as int) {
                        Ok(rs) => {
                            assert(done + (seq![rv] + rs) == done.push(rv) + rs);
                        },
                        Err(e) => {},
                    }
                }
                i = next;
            },
            Err(e) => return Err(e),
        }
    }
}

/// Parses a token stream into a style sheet.
pub fn parse_tokens(toks: &Vec<CssToken>) -> (r: Result<Stylesheet, ParseError>)
    requires
        well_formed_stream(tok_seq(toks@)),
    ensures
        match r {
            Ok(sheet) => sheet_of(tok_seq(toks@)) == Ok::<Seq<RuleV>, ParseErrorV>(sheet@),
            Err(e) => sheet_of(tok_seq(toks@)) == Err::<Seq<RuleV>, ParseErrorV>(e@),
        },
{
    let cls = classify_all(toks);
    match rules_from(toks, &cls) {
        Ok(rules) => Ok(Stylesheet { rules }),
        Err(e) => Err(e),
    }
}

/// Parses a style sheet.
///
/// The sheet is a list of rules `.class { name: value; ... }`. The supported
/// properties are `width`, `height`, `min-width`, `max-width`, `min-height`,
/// `max-height` (a length each), `margin` (one to four margin values),
/// `margin-top`, `margin-right`, `margin-bottom`, `margin-left` (one each),
/// `padding` (one to four pixel values) and `padding-top`, `padding-right`,
/// `padding-bottom`, `padding-left` (one each); any other property is kept
/// by name. The first error ends parsing.
pub fn parse(css: &str) -> (r: Result<Stylesheet, ParseError>)
    ensures
        match r {
            Ok(sheet) => sheet_of(sheet_tokens(css@)) == Ok::<Seq<RuleV>, ParseErrorV>(sheet@),
            Err(e) => sheet_of(sheet_tokens(css@)) == Err::<Seq<RuleV>, ParseErrorV>(e@),
        },
{
    let toks = tokenize(css);
    parse_tokens(&toks)
}

} // verus!
