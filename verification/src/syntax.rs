//! How the grammar sees the token stream: which tokens open and close blocks,
//! how far a block reaches, and where a declaration value stops.
//!
//! Blocks follow CSS Syntax as cssparser's parser does: a function or an
//! opening bracket starts a block; the block runs to the closing bracket of
//! the same kind, closing brackets of another kind inside it are passed over,
//! and the end of the input closes every open block.

use vstd::prelude::*;
use crate::lexer::{CssToken, LexKind, Tok, well_formed_stream};
use crate::text::str_eq;

verus! {

/// The three kinds of block.
#[derive(Debug, Clone, Copy, PartialEq, Eq, Structural)]
pub enum Block {
    Paren,
    Square,
    Curly,
}

/// The part a token plays in the grammar's structure.
#[derive(Debug, Clone, Copy, PartialEq, Eq, Structural)]
pub enum TokClass {
    /// A function or an opening bracket.
    Open(Block),
    /// A closing bracket.
    Close(Block),
    Colon,
    Semicolon,
    /// The delimiter `.` that starts a class selector.
    Dot,
    /// Any other token, or the end of the input.
    Plain,
}

/// The class of a token, from its kind and from the `Debug` rendering that
/// cssparser's tokens have for the variants without a payload.
pub open spec fn class_of(t: Tok) -> TokClass {
    if t.kind == LexKind::Function {
        TokClass::Open(Block::Paren)
    } else if t.kind != LexKind::Other {
        TokClass::Plain
    } else if t.debug == "ParenthesisBlock"@ {
        TokClass::Open(Block::Paren)
    } else if t.debug == "SquareBracketBlock"@ {
        TokClass::Open(Block::Square)
    } else if t.debug == "CurlyBracketBlock"@ {
        TokClass::Open(Block::Curly)
    } else if t.debug == "CloseParenthesis"@ {
        TokClass::Close(Block::Paren)
    } else if t.debug == "CloseSquareBracket"@ {
        TokClass::Close(Block::Square)
    } else if t.debug == "CloseCurlyBracket"@ {
        TokClass::Close(Block::Curly)
    } else if t.debug == "Colon"@ {
        TokClass::Colon
    } else if t.debug == "Semicolon"@ {
        TokClass::Semicolon
    } else if t.debug == "Delim('.')"@ {
        TokClass::Dot
    } else {
        TokClass::Plain
    }
}

pub open spec fn opens(t: Tok) -> Option<Block> {
    match class_of(t) {
        TokClass::Open(b) => Some(b),
        _ => None,
    }
}

pub open spec fn closes(t: Tok) -> Option<Block> {
    match class_of(t) {
        TokClass::Close(b) => Some(b),
        _ => None,
    }
}

/// The tokens of a vector, by their views.
pub open spec fn tok_seq(toks: Seq<CssToken>) -> Seq<Tok> {
    toks.map_values(|t: CssToken| t@)
}

/// A token vector together with the classes of its tokens.
pub open spec fn stream_ok(toks: Seq<CssToken>, cls: Seq<TokClass>) -> bool {
    &&& well_formed_stream(tok_seq(toks))
    &&& cls.len() == toks.len()
    &&& forall|i: int| 0 <= i < toks.len() ==> #[trigger] cls[i] == class_of(toks[i]@)
}

/// Where the tokenizer stands after reading on from `i` with the given blocks
/// open (innermost last): just after the token that closes the outermost of
/// them, or at the end of the input.
pub open spec fn block_end(toks: Seq<Tok>, stack: Seq<Block>, i: int) -> int
    decreases toks.len() - i,
{
    if i < 0 || i >= toks.len() - 1 || stack.len() == 0 {
        toks.len() - 1
    } else {
        let t = toks[i];
        let popped = if closes(t) == Some(stack.last()) {
            stack.drop_last()
        } else {
            stack
        };
        if popped.len() == 0 {
            i + 1
        } else {
            let pushed = match opens(t) {
                Some(b) => popped.push(b),
                None => popped,
            };
            block_end(toks, pushed, i + 1)
        }
    }
}

/// The position after the token at `i` together with the block that it opens.
pub open spec fn after_token(toks: Seq<Tok>, i: int) -> int {
    match opens(toks[i]) {
        Some(b) => block_end(toks, seq![b], i + 1),
        None => i + 1,
    }
}

/// The end of the input or the `}` that closes the current block.
pub open spec fn ends_block(t: Tok) -> bool {
    t.kind == LexKind::End || closes(t) == Some(Block::Curly)
}

/// What a declaration's value stops before: the end of its block or a `;`.
pub open spec fn ends_value(t: Tok) -> bool {
    ends_block(t) || class_of(t) == TokClass::Semicolon
}

/// The first position from `p` on, at the level of `p`, where a value stops.
pub open spec fn value_end(toks: Seq<Tok>, p: int) -> int
    decreases toks.len() - p,
{
    if p < 0 || p >= toks.len() || ends_value(toks[p]) {
        p
    } else {
        let q = after_token(toks, p);
        if q <= p || q > toks.len() {
            p
        } else {
            value_end(toks, q)
        }
    }
}

pub proof fn lemma_block_end_bounds(toks: Seq<Tok>, stack: Seq<Block>, i: int)
    requires
        toks.len() > 0,
        0 <= i <= toks.len() - 1,
    ensures
        i <= block_end(toks, stack, i) <= toks.len() - 1,
    decreases toks.len() - i,
{
    if i < toks.len() - 1 && stack.len() > 0 {
        let t = toks[i];
        let popped = if closes(t) == Some(stack.last()) {
            stack.drop_last()
        } else {
            stack
        };
        if popped.len() != 0 {
            let pushed = match opens(t) {
                Some(b) => popped.push(b),
                None => popped,
            };
            lemma_block_end_bounds(toks, pushed, i + 1);
        }
    }
}

pub proof fn lemma_after_token_bounds(toks: Seq<Tok>, i: int)
    requires
        0 <= i < toks.len() - 1,
    ensures
        i < after_token(toks, i) <= toks.len() - 1,
{
    if let Some(b) = opens(toks[i]) {
        lemma_block_end_bounds(toks, seq![b], i + 1);
    }
}

pub proof fn lemma_value_end_bounds(toks: Seq<Tok>, p: int)
    requires
        well_formed_stream(toks),
        0 <= p <= toks.len() - 1,
    ensures
        p <= value_end(toks, p) <= toks.len() - 1,
        ends_value(toks[value_end(toks, p)]),
    decreases toks.len() - p,
{
    if !ends_value(toks[p]) {
        assert(p < toks.len() - 1);
        lemma_after_token_bounds(toks, p);
        lemma_value_end_bounds(toks, after_token(toks, p));
    }
}

/// The class of a token.
pub fn classify(t: &CssToken) -> (c: TokClass)
    ensures
        c == class_of(t@),
{
    match t.kind {
        LexKind::Function => TokClass::Open(Block::Paren),
        LexKind::Other => {
            let d = t.debug.as_str();
            if str_eq(d, "ParenthesisBlock") {
                TokClass::Open(Block::Paren)
            } else if str_eq(d, "SquareBracketBlock") {
                TokClass::Open(Block::Square)
            } else if str_eq(d, "CurlyBracketBlock") {
                TokClass::Open(Block::Curly)
            } else if str_eq(d, "CloseParenthesis") {
                TokClass::Close(Block::Paren)
            } else if str_eq(d, "CloseSquareBracket") {
                TokClass::Close(Block::Square)
            } else if str_eq(d, "CloseCurlyBracket") {
                TokClass::Close(Block::Curly)
            } else if str_eq(d, "Colon") {
                TokClass::Colon
            } else if str_eq(d, "Semicolon") {
                TokClass::Semicolon
            } else if str_eq(d, "Delim('.')") {
                TokClass::Dot
            } else {
                TokClass::Plain
            }
        },
        _ => TokClass::Plain,
    }
}

/// The classes of all tokens of a stream.
pub fn classify_all(toks: &Vec<CssToken>) -> (cls: Vec<TokClass>)
    requires
        well_formed_stream(tok_seq(toks@)),
    ensures
        stream_ok(toks@, cls@),
{
    let mut cls: Vec<TokClass> = Vec::new();
    let mut i: usize = 0;
    while i < toks.len()
        invariant
            i <= toks.len(),
            cls@.len() == i,
            forall|j: int| 0 <= j < i ==> #[trigger] cls@[j] == class_of(toks@[j]@),
        decreases toks.len() - i,
    {
        cls.push(classify(&toks[i]));
        i += 1;
    }
    cls
}

/// `block_end` from `i` with one block, of kind `opened`, open.
pub fn block_end_from(toks: &Vec<CssToken>, cls: &Vec<TokClass>, opened: Block, i: usize) -> (j: usize)
    requires
        stream_ok(toks@, cls@),
        i <= toks.len() - 1,
    ensures
        j as int == block_end(tok_seq(toks@), seq![opened], i as int),
{
    let ghost l = tok_seq(toks@);
    let n = toks.len();
    let mut stack: Vec<Block> = Vec::new();
    stack.push(opened);
    let ghost i0 = i as int;
    let mut pos = i;
    assert(stack@ == seq![opened]);
    loop
        invariant
            stream_ok(toks@, cls@),
            l == tok_seq(toks@),
            n == toks.len(),
            pos <= n - 1,
            i0 == i as int,
            stack@.len() > 0,
            block_end(l, stack@, pos as int) == block_end(l, seq![opened], i0),
        decreases n - pos,
    {
        assert(l.len() == n);
        if pos >= n - 1 {
            return n - 1;
        }
        assert(l[pos as int] == toks@[pos as int]@);
        assert(cls@[pos as int] == class_of(l[pos as int]));
        let ghost before = stack@;
        let top = stack[stack.len() - 1];
        let closes_top = match cls[pos] {
            TokClass::Close(b) => b == top,
            _ => false,
        };
        if closes_top {
            stack.pop();
            assert(stack@ == before.drop_last());
            if stack.len() == 0 {
                return pos + 1;
            }
        }
        match cls[pos] {
            TokClass::Open(b) => stack.push(b),
            _ => {},
        }
        pos += 1;
    }
}

} // verus!
