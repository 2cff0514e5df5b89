//! The token stream of a style sheet, as cssparser's tokenizer produces it.
//!
//! Whitespace and comments are left out; every other token is kept in source
//! order, blocks included, so that the grammar in `parse` can follow nested
//! blocks itself. The stream always ends with a single `End` entry.

use vstd::prelude::*;
use cssparser::{Parser, ParserInput, SourceLocation, Token};
use crate::text::str_starts_with;

verus! {

/// A line and column as cssparser counts them: lines from 0, columns from 1.
#[derive(Clone, Copy, PartialEq, Eq, Structural, Debug)]
pub struct SourceLoc {
    pub line: u32,
    pub column: u32,
}

/// What a token carries that the grammar reads.
#[derive(Clone, Copy, PartialEq, Eq, Structural, Debug)]
pub enum LexKind {
    /// An identifier; `text` is its unescaped name.
    Ident,
    /// A function token such as `rgb(`.
    Function,
    /// A number; `bits` is the bit pattern of its `f32` value.
    Number,
    /// A percentage; `bits` is the bit pattern of the value divided by 100.
    Percentage,
    /// A dimension such as `10px`; `bits` is the value's bit pattern, `text` the unit.
    Dimension,
    /// Any other token; its `Debug` rendering tells which.
    Other,
    /// The end of the input.
    End,
}

/// One token as the tokenizer hands it out.
pub ghost struct RawTok {
    /// Whether the input has ended; then there is no token.
    pub at_end: bool,
    /// The name of an identifier or the unit of a dimension; empty otherwise.
    pub text: Seq<char>,
    /// The bit pattern of the `f32` value of a number, percentage or dimension; 0 otherwise.
    pub bits: u32,
    /// The token's `Debug` rendering, such as `Colon` or `Ident("btn")`; empty at the end.
    pub debug: Seq<char>,
    /// Where the token starts, after any whitespace and comments before it.
    pub start: SourceLoc,
    /// Where the token ends.
    pub end: SourceLoc,
}

/// One token of the stream, as the grammar sees it.
pub ghost struct Tok {
    pub kind: LexKind,
    pub text: Seq<char>,
    pub bits: u32,
    pub debug: Seq<char>,
    pub start: SourceLoc,
    pub end: SourceLoc,
}

/// Whether `s` begins with `prefix`.
pub open spec fn starts_with(s: Seq<char>, prefix: Seq<char>) -> bool {
    prefix.len() <= s.len() && s.take(prefix.len() as int) == prefix
}

/// The kind of a token, read from the variant name that begins the derived
/// `Debug` rendering of cssparser's tokens.
pub open spec fn kind_of(at_end: bool, debug: Seq<char>) -> LexKind {
    if at_end {
        LexKind::End
    } else if starts_with(debug, "Ident("@) {
        LexKind::Ident
    } else if starts_with(debug, "Function("@) {
        LexKind::Function
    } else if starts_with(debug, "Number {"@) {
        LexKind::Number
    } else if starts_with(debug, "Percentage {"@) {
        LexKind::Percentage
    } else if starts_with(debug, "Dimension {"@) {
        LexKind::Dimension
    } else {
        LexKind::Other
    }
}

/// A token of the stream as the grammar sees it.
pub open spec fn cook(r: RawTok) -> Tok {
    Tok {
        kind: kind_of(r.at_end, r.debug),
        text: r.text,
        bits: r.bits,
        debug: r.debug,
        start: r.start,
        end: r.end,
    }
}

/// The token stream of a whole style sheet, as the grammar sees it.
pub open spec fn sheet_tokens(css: Seq<char>) -> Seq<Tok> {
    css_tokens(css).map_values(|r: RawTok| cook(r))
}

/// A token read from the input, without its start location.
pub struct Lexeme {
    pub at_end: bool,
    pub text: String,
    pub bits: u32,
    pub debug: String,
    pub end: SourceLoc,
}

/// A token of the stream with both of its locations.
pub struct CssToken {
    pub kind: LexKind,
    pub text: String,
    pub bits: u32,
    pub debug: String,
    pub start: SourceLoc,
    pub end: SourceLoc,
}

impl View for CssToken {
    type V = Tok;

    open spec fn view(&self) -> Tok {
        Tok {
            kind: self.kind,
            text: self.text@,
            bits: self.bits,
            debug: self.debug@,
            start: self.start,
            end: self.end,
        }
    }
}

/// A token stream as `tokenize` gives it: it ends with `End`, and only there.
pub open spec fn well_formed_stream(toks: Seq<Tok>) -> bool {
    &&& toks.len() > 0
    &&& toks.last().kind == LexKind::End
    &&& forall|i: int| 0 <= i < toks.len() - 1 ==> toks[i].kind != LexKind::End
}

/// The tokenizer's output: it ends once, at its last entry.
pub open spec fn well_formed_raw(toks: Seq<RawTok>) -> bool {
    &&& toks.len() > 0
    &&& toks.last().at_end
    &&& forall|i: int| 0 <= i < toks.len() - 1 ==> !toks[i].at_end
}

#[verifier::external_type_specification]
#[verifier::external_body]
pub struct ExParserInput<'i>(ParserInput<'i>);

/// The tokens that an input has not yet handed out.
pub uninterp spec fn remaining_tokens(input: ParserInput<'_>) -> Seq<RawTok>;

/// What the tokenizer hands out for a whole style sheet.
pub uninterp spec fn css_tokens(css: Seq<char>) -> Seq<RawTok>;

/// `cssparser::ParserInput::new` starts a tokenizer at the beginning of `css`;
/// what it will hand out is the sheet's tokens and then the end, once.
pub assume_specification<'i>[ ParserInput::<'i>::new ](css: &'i str) -> (input: ParserInput<'i>)
    ensures
        remaining_tokens(input) == css_tokens(css@),
        well_formed_raw(remaining_tokens(input)),
;

/// Calls `cssparser::Parser::skip_whitespace` on a fresh parser over the input
/// and returns `current_source_location`: the start of the next token. Skipping
/// whitespace and comments leaves the remaining tokens as they were.
#[verifier::external_body]
fn skip_trivia(input: &mut ParserInput<'_>) -> (start: SourceLoc)
    ensures
        remaining_tokens(*final(input)) == remaining_tokens(*old(input)),
        remaining_tokens(*old(input)).len() > 0 ==> start == remaining_tokens(*old(input))[0].start,
{
    let mut parser = Parser::new(input);
    parser.skip_whitespace();
    let location = parser.current_source_location();
    SourceLoc { line: location.line, column: location.column }
}

/// Calls `cssparser::Parser::next` on a fresh parser over the input, so that no
/// block is skipped, and converts the token: the first remaining token is
/// handed out and dropped from the input; at the end of the input, the end is
/// handed out and stays.
#[verifier::external_body]
fn next_lexeme(input: &mut ParserInput<'_>) -> (lexeme: Lexeme)
    ensures
        remaining_tokens(*old(input)).len() > 0 ==> {
            let t = remaining_tokens(*old(input))[0];
            &&& lexeme.at_end == t.at_end
            &&& lexeme.text@ == t.text
            &&& lexeme.bits == t.bits
            &&& lexeme.debug@ == t.debug
            &&& lexeme.end == t.end
            &&& remaining_tokens(*final(input)) == if t.at_end {
                remaining_tokens(*old(input))
            } else {
                remaining_tokens(*old(input)).drop_first()
            }
        },
{
    let mut parser = Parser::new(input);
    let token = parser.next().ok().cloned();
    let SourceLocation { line, column } = parser.current_source_location();
    let (text, bits) = match &token {
        Some(Token::Ident(name)) => (name.to_string(), 0),
        Some(Token::Dimension { value, unit, .. }) => (unit.to_string(), value.to_bits()),
        Some(Token::Number { value: v, .. } | Token::Percentage { unit_value: v, .. }) => (String::new(), v.to_bits()),
        _ => Default::default(),
    };
    let debug = token.as_ref().map(|t| format!("{t:?}")).unwrap_or_default();
    Lexeme { at_end: token.is_none(), text, bits, debug, end: SourceLoc { line, column } }
}

/// The kind of a token that the tokenizer handed out.
fn lexeme_kind(at_end: bool, debug: &str) -> (kind: LexKind)
    ensures
        kind == kind_of(at_end, debug@),
{
    if at_end {
        LexKind::End
    } else if str_starts_with(debug, "Ident(") {
        LexKind::Ident
    } else if str_starts_with(debug, "Function(") {
        LexKind::Function
    } else if str_starts_with(debug, "Number {") {
        LexKind::Number
    } else if str_starts_with(debug, "Percentage {") {
        LexKind::Percentage
    } else if str_starts_with(debug, "Dimension {") {
        LexKind::Dimension
    } else {
        LexKind::Other
    }
}

/// The whole token stream of `css`.
pub fn tokenize(css: &str) -> (toks: Vec<CssToken>)
    ensures
        toks@.map_values(|t: CssToken| t@) == sheet_tokens(css@),
        well_formed_stream(toks@.map_values(|t: CssToken| t@)),
{
    let mut input = ParserInput::new(css);
    let mut toks: Vec<CssToken> = Vec::new();
    let ghost all = css_tokens(css@);
    let ghost mut consumed: Seq<RawTok> = seq![];
    loop
        invariant
            all == css_tokens(css@),
            well_formed_raw(all),
            remaining_tokens(input).len() > 0,
            consumed + remaining_tokens(input) == all,
            toks@.map_values(|t: CssToken| t@) == consumed.map_values(|r: RawTok| cook(r)),
        decreases remaining_tokens(input).len(),
    {
        let ghost before = remaining_tokens(input);
        let start = skip_trivia(&mut input);
        let lexeme = next_lexeme(&mut input);
        let kind = lexeme_kind(lexeme.at_end, lexeme.debug.as_str());
        let ghost old_view = toks@.map_values(|t: CssToken| t@);
        toks.push(CssToken { kind, text: lexeme.text, bits: lexeme.bits, debug: lexeme.debug, start, end: lexeme.end });
        assert(toks@.map_values(|t: CssToken| t@) == old_view.push(cook(before[0])));
        assert(all[consumed.len() as int] == before[0]);
        proof {
            consumed = consumed.push(before[0]);
        }
        assert(toks@.map_values(|t: CssToken| t@) == consumed.map_values(|r: RawTok| cook(r)));
        if lexeme.at_end {
            assert(consumed.len() == all.len());
            assert(consumed == all);
            assert(well_formed_stream(toks@.map_values(|t: CssToken| t@))) by {
                let v = toks@.map_values(|t: CssToken| t@);
                assert forall|i: int| 0 <= i < v.len() - 1 implies v[i].kind != LexKind::End by {
                    assert(v[i] == cook(all[i]));
                }
                assert(v.last() == cook(all.last()));
            }
            return toks;
        }
        assert(consumed + before.drop_first() == all);
        assert(before.drop_first().len() > 0);
    }
}

/// The stream the grammar reads is the tokenizer's, token for token: the
/// same number of tokens, each with the numbers' bits, the texts, the `Debug`
/// rendering and the locations that the tokenizer gave it, and the end where
/// the tokenizer's input ended.
pub proof fn law_stream_keeps_the_tokens(css: Seq<char>)
    ensures
        sheet_tokens(css).len() == css_tokens(css).len(),
        forall|i: int| 0 <= i < css_tokens(css).len() ==> {
            let t = #[trigger] sheet_tokens(css)[i];
            let r = css_tokens(css)[i];
            &&& t.bits == r.bits
            &&& t.text == r.text
            &&& t.debug == r.debug
            &&& t.start == r.start
            &&& t.end == r.end
            &&& (t.kind == LexKind::End <==> r.at_end)
        },
{
}

} // verus!
