use iced_css::lexer::{tokenize, CssToken, LexKind, SourceLoc};
use iced_css::parse::parse_tokens;
use iced_css::{Length, Property};

fn loc(line: u32, column: u32) -> SourceLoc {
    SourceLoc { line, column }
}

#[test]
fn empty_input_is_only_the_end() {
    let toks = tokenize("");
    assert_eq!(toks.len(), 1);
    assert_eq!(toks[0].kind, LexKind::End);
    assert_eq!(toks[0].start, loc(0, 1));
}

#[test]
fn tokens_skip_whitespace_and_comments() {
    let toks = tokenize(" .a /* c */ {\n  width : 10px }");
    let kinds: Vec<LexKind> = toks.iter().map(|t| t.kind).collect();
    assert_eq!(
        kinds,
        vec![
            LexKind::Other,
            LexKind::Ident,
            LexKind::Other,
            LexKind::Ident,
            LexKind::Other,
            LexKind::Dimension,
            LexKind::Other,
            LexKind::End,
        ]
    );
    assert_eq!(toks[0].debug, "Delim('.')");
    assert_eq!(toks[0].start, loc(0, 2));
    assert_eq!(toks[0].end, loc(0, 3));
    assert_eq!(toks[1].text, "a");
    assert_eq!(toks[2].debug, "CurlyBracketBlock");
    assert_eq!(toks[3].text, "width");
    assert_eq!(toks[3].start, loc(1, 3));
    assert_eq!(toks[4].debug, "Colon");
    assert_eq!(toks[5].text, "px");
    assert_eq!(toks[5].bits, 10.0f32.to_bits());
    assert_eq!(toks[6].debug, "CloseCurlyBracket");
    assert_eq!(toks[7].start, loc(1, 17));
}

#[test]
fn numbers_keep_their_float_bits() {
    let toks = tokenize("50% 0 -0 1.5em rgb(");
    assert_eq!(toks[0].kind, LexKind::Percentage);
    assert_eq!(toks[0].bits, 0.5f32.to_bits());
    assert_eq!(toks[1].kind, LexKind::Number);
    assert_eq!(toks[1].bits, 0.0f32.to_bits());
    assert_eq!(toks[2].kind, LexKind::Number);
    assert_eq!(toks[2].bits, (-0.0f32).to_bits());
    assert_eq!(toks[3].kind, LexKind::Dimension);
    assert_eq!(toks[3].text, "em");
    assert_eq!(toks[3].bits, 1.5f32.to_bits());
    assert_eq!(toks[4].kind, LexKind::Function);
    assert_eq!(toks[5].kind, LexKind::End);
}

fn tok(kind: LexKind, text: &str, bits: u32, debug: &str, column: u32) -> CssToken {
    CssToken {
        kind,
        text: text.to_string(),
        bits,
        debug: debug.to_string(),
        start: loc(0, column),
        end: loc(0, column + 1),
    }
}

#[test]
fn parse_tokens_reads_a_given_stream() {
    let toks = vec![
        tok(LexKind::Other, "", 0, "Delim('.')", 1),
        tok(LexKind::Ident, "x", 0, "Ident(\"x\")", 2),
        tok(LexKind::Other, "", 0, "CurlyBracketBlock", 3),
        tok(LexKind::Ident, "height", 0, "Ident(\"height\")", 4),
        tok(LexKind::Other, "", 0, "Colon", 5),
        tok(LexKind::Ident, "AUTO", 0, "Ident(\"AUTO\")", 6),
        tok(LexKind::Other, "", 0, "CloseCurlyBracket", 7),
        tok(LexKind::End, "", 0, "", 8),
    ];
    let sheet = parse_tokens(&toks).unwrap();
    assert_eq!(sheet.rules.len(), 1);
    assert_eq!(sheet.rules[0].class, "x");
    assert_eq!(sheet.rules[0].declarations, vec![Property::Height(Length::Auto)]);
}

#[test]
fn parse_tokens_reports_a_given_stream() {
    let toks = vec![
        tok(LexKind::Other, "", 0, "Delim('.')", 1),
        tok(LexKind::End, "", 0, "", 9),
    ];
    let err = parse_tokens(&toks).unwrap_err();
    assert_eq!(err.message, "EndOfInput");
    assert_eq!((err.line, err.column), (0, 9));
}
