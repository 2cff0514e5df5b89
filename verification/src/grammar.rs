//! Laws of the grammar in `parse`, stated case by case over the token stream
//! that `tokenize` gives and that `parse` reads.

use vstd::prelude::*;
use crate::lexer::{LexKind, Tok, well_formed_stream};
use crate::parse::{
    ParseErrorV, PropName, PropertyV, RuleV, before, declarations_at, end_of_input_at, error_at,
    length_at, lemma_declarations_bounds, lemma_value_bounds, margin_list, margin_value_at,
    margins_at, padding_list, padding_value_at, paddings_at, prop_name, rules_at, sheet_of,
    unexpected_at, value_at,
};
use crate::syntax::{Block, TokClass, class_of, ends_block, ends_value, value_end};
use crate::text::{ascii_lower, eq_ignore_ascii_case};
use crate::values::{Length, MarginValue, Margins, Paddings, ZERO_BITS, is_zero_bits};

verus! {

/// The length rule: what the one token of a length value gives.
/// - a dimension whose unit is `px` in any case gives those pixels; any other
///   unit gives "unsupported length unit: <unit>";
/// - a percentage gives the percentage divided by 100, as the token carries it;
/// - a unitless zero gives zero pixels; any other unitless number gives
///   "non-zero lengths require a unit";
/// - `auto` in any case gives `Auto`; any other token gives
///   "expected a length, got <token>";
/// - a value that is already over (`;`, `}` or the end) gives `EndOfInput`.
pub proof fn law_length_rule(toks: Seq<Tok>, v: int)
    requires
        0 <= v < toks.len(),
    ensures
        ({
            let t = toks[v];
            &&& ends_value(t) ==> length_at(toks, v) == Err::<Length, ParseErrorV>(end_of_input_at(t.start))
            &&& !ends_value(t) && t.kind == LexKind::Dimension && eq_ignore_ascii_case(t.text, "px"@)
                ==> length_at(toks, v) == Ok::<Length, ParseErrorV>(Length::Px(t.bits))
            &&& !ends_value(t) && t.kind == LexKind::Dimension && !eq_ignore_ascii_case(t.text, "px"@)
                ==> length_at(toks, v) == Err::<Length, ParseErrorV>(error_at("unsupported length unit: "@ + t.text, t.end))
            &&& !ends_value(t) && t.kind == LexKind::Percentage
                ==> length_at(toks, v) == Ok::<Length, ParseErrorV>(Length::Percent(t.bits))
            &&& !ends_value(t) && t.kind == LexKind::Number && is_zero_bits(t.bits)
                ==> length_at(toks, v) == Ok::<Length, ParseErrorV>(Length::Px(ZERO_BITS))
            &&& !ends_value(t) && t.kind == LexKind::Number && !is_zero_bits(t.bits)
                ==> length_at(toks, v) == Err::<Length, ParseErrorV>(error_at("non-zero lengths require a unit"@, t.end))
            &&& !ends_value(t) && t.kind == LexKind::Ident && eq_ignore_ascii_case(t.text, "auto"@)
                ==> length_at(toks, v) == Ok::<Length, ParseErrorV>(Length::Auto)
            &&& !ends_value(t) && t.kind != LexKind::Dimension && t.kind != LexKind::Percentage
                && t.kind != LexKind::Number
                && !(t.kind == LexKind::Ident && eq_ignore_ascii_case(t.text, "auto"@))
                ==> length_at(toks, v) == Err::<Length, ParseErrorV>(error_at("expected a length, got "@ + t.debug, t.end))
        }),
{
}

/// The margin-side rule: pixels and `auto` carry over from the length rule, a
/// percentage gives "percentage margins are not supported yet", and an error
/// of the length rule passes through unchanged.
pub proof fn law_margin_side_rule(toks: Seq<Tok>, v: int)
    requires
        0 <= v < toks.len(),
    ensures
        length_at(toks, v) matches Ok(Length::Px(b))
            ==> margin_value_at(toks, v) == Ok::<MarginValue, ParseErrorV>(MarginValue::Px(b)),
        length_at(toks, v) == Ok::<Length, ParseErrorV>(Length::Auto)
            ==> margin_value_at(toks, v) == Ok::<MarginValue, ParseErrorV>(MarginValue::Auto),
        length_at(toks, v) matches Ok(Length::Percent(_))
            ==> margin_value_at(toks, v) == Err::<MarginValue, ParseErrorV>(
                error_at("percentage margins are not supported yet"@, toks[v].end)),
        length_at(toks, v) matches Err(e) ==> margin_value_at(toks, v) == Err::<MarginValue, ParseErrorV>(e),
{
}

/// `margin_list` after the first `k` of the values at `v`, when they all parse.
proof fn lemma_margin_list_prefix(toks: Seq<Tok>, v: int, vals: Seq<MarginValue>, k: int)
    requires
        0 <= v,
        0 <= k <= vals.len(),
        k <= 4,
        v + vals.len() < toks.len(),
        forall|i: int| 0 <= i < vals.len() ==> !ends_value(#[trigger] toks[v + i]),
        forall|i: int| 0 <= i < vals.len() ==> margin_value_at(toks, v + i) == Ok::<MarginValue, ParseErrorV>(#[trigger] vals[i]),
    ensures
        margin_list(toks, v, seq![]) == margin_list(toks, v + k, vals.take(k)),
    decreases k,
{
    if k > 0 {
        lemma_margin_list_prefix(toks, v, vals, k - 1);
        assert(!ends_value(toks[v + (k - 1)]));
        assert(margin_value_at(toks, v + (k - 1)) == Ok::<MarginValue, ParseErrorV>(vals[k - 1]));
        assert(vals.take(k - 1).push(vals[k - 1]) == vals.take(k));
        assert(vals.take(k - 1).len() == k - 1);
        assert(margin_list(toks, v + (k - 1), vals.take(k - 1))
            == margin_list(toks, v + (k - 1) + 1, vals.take(k - 1).push(vals[k - 1])));
        assert(v + (k - 1) + 1 == v + k);
    } else {
        assert(vals.take(0) == Seq::<MarginValue>::empty());
    }
}

/// The margin shorthand rule, for a value made of `n` margin sides `vals`
/// (each pixels, a unitless zero or `auto`): one to four values give the four
/// sides (one: every side; two: vertical, horizontal; three: top, horizontal,
/// bottom; four: top, right, bottom, left); no value gives "margin needs at
/// least 1 value"; more than four give "margin max 4 values", where the fifth
/// value starts.
pub proof fn law_margin_shorthand(toks: Seq<Tok>, v: int, vals: Seq<MarginValue>)
    requires
        0 <= v,
        v + vals.len() < toks.len(),
        forall|i: int| 0 <= i < vals.len() ==> !ends_value(#[trigger] toks[v + i]),
        forall|i: int| 0 <= i < vals.len() ==> margin_value_at(toks, v + i) == Ok::<MarginValue, ParseErrorV>(#[trigger] vals[i]),
        vals.len() <= 4 ==> ends_value(toks[v + vals.len()]),
    ensures
        vals.len() == 0 ==> margins_at(toks, v) == Err::<(Margins, int), ParseErrorV>(
            error_at("margin needs at least 1 value"@, before(toks, v))),
        vals.len() == 1 ==> margins_at(toks, v) == Ok::<(Margins, int), ParseErrorV>((
            Margins { top: vals[0], right: vals[0], bottom: vals[0], left: vals[0] }, v + 1)),
        vals.len() == 2 ==> margins_at(toks, v) == Ok::<(Margins, int), ParseErrorV>((
            Margins { top: vals[0], right: vals[1], bottom: vals[0], left: vals[1] }, v + 2)),
        vals.len() == 3 ==> margins_at(toks, v) == Ok::<(Margins, int), ParseErrorV>((
            Margins { top: vals[0], right: vals[1], bottom: vals[2], left: vals[1] }, v + 3)),
        vals.len() == 4 ==> margins_at(toks, v) == Ok::<(Margins, int), ParseErrorV>((
            Margins { top: vals[0], right: vals[1], bottom: vals[2], left: vals[3] }, v + 4)),
        vals.len() > 4 ==> margins_at(toks, v) == Err::<(Margins, int), ParseErrorV>(
            error_at("margin max 4 values"@, before(toks, v + 4))),
{
    if vals.len() <= 4 {
        lemma_margin_list_prefix(toks, v, vals, vals.len() as int);
        assert(vals.take(vals.len() as int) == vals);
    } else {
        lemma_margin_list_prefix(toks, v, vals, 4);
        assert(!ends_value(toks[v + 4]));
    }
}

/// An error in the margin shorthand's values passes through: when the values
/// before it parse and are fewer than four, the first value that fails gives
/// the shorthand's error.
pub proof fn law_margin_shorthand_error(toks: Seq<Tok>, v: int, vals: Seq<MarginValue>, e: ParseErrorV)
    requires
        0 <= v,
        vals.len() < 4,
        v + vals.len() < toks.len(),
        forall|i: int| 0 <= i < vals.len() ==> !ends_value(#[trigger] toks[v + i]),
        forall|i: int| 0 <= i < vals.len() ==> margin_value_at(toks, v + i) == Ok::<MarginValue, ParseErrorV>(#[trigger] vals[i]),
        !ends_value(toks[v + vals.len()]),
        margin_value_at(toks, v + vals.len()) == Err::<MarginValue, ParseErrorV>(e),
    ensures
        margins_at(toks, v) == Err::<(Margins, int), ParseErrorV>(e),
{
    lemma_margin_list_prefix(toks, v, vals, vals.len() as int);
    assert(vals.take(vals.len() as int) == vals);
}


/// One declaration at `k`: `name: value`, then the position after it, past
/// its `;` when it has one.
pub open spec fn declaration_at(toks: Seq<Tok>, k: int) -> Result<(PropertyV, int), ParseErrorV> {
    if toks[k].kind != LexKind::Ident {
        Err(unexpected_at(toks[k], toks[k - 1].end))
    } else if ends_block(toks[k + 1]) {
        Err(end_of_input_at(toks[k + 1].start))
    } else if class_of(toks[k + 1]) != TokClass::Colon {
        Err(unexpected_at(toks[k + 1], toks[k].end))
    } else {
        match value_at(toks, toks[k].text, k + 2) {
            Ok((p, m)) => Ok((p, if class_of(toks[m]) == TokClass::Semicolon { m + 1 } else { m })),
            Err(e) => Err(e),
        }
    }
}

/// `ds` are declarations that parse one after the other, the `i`-th at
/// `starts[i]`, each inside the block, each starting where the one before stops.
pub open spec fn declaration_chain(toks: Seq<Tok>, starts: Seq<int>, ds: Seq<PropertyV>) -> bool {
    &&& starts.len() == ds.len() + 1
    &&& forall|i: int| 0 <= i < ds.len() ==> !ends_block(toks[starts[i]])
        && #[trigger] declaration_at(toks, starts[i]) == Ok::<(PropertyV, int), ParseErrorV>((ds[i], starts[i + 1]))
}

/// The declarations of a block from `k`: a chain that reaches the block's end.
pub open spec fn block_declarations(toks: Seq<Tok>, k: int, starts: Seq<int>, ds: Seq<PropertyV>, j: int) -> bool {
    &&& declaration_chain(toks, starts, ds)
    &&& starts[0] == k
    &&& starts.last() == j
    &&& ends_block(toks[j])
}

/// A block from `k` whose declarations parse up to one that fails with `e`.
pub open spec fn block_fails(toks: Seq<Tok>, k: int, starts: Seq<int>, ds: Seq<PropertyV>, e: ParseErrorV) -> bool {
    &&& declaration_chain(toks, starts, ds)
    &&& starts[0] == k
    &&& !ends_block(toks[starts.last()])
    &&& declaration_at(toks, starts.last()) == Err::<(PropertyV, int), ParseErrorV>(e)
}

/// One rule at `i`: `.class {`, the declarations of the block, and the
/// position after the block's `}` (or at the end of the input, which closes it).
pub open spec fn rule_at(toks: Seq<Tok>, i: int) -> Result<(RuleV, int), ParseErrorV> {
    if class_of(toks[i]) != TokClass::Dot {
        Err(error_at("unsupported selector start: "@ + toks[i].debug, toks[i].end))
    } else if toks[i + 1].kind == LexKind::End {
        Err(end_of_input_at(toks[i + 1].start))
    } else if toks[i + 1].kind != LexKind::Ident {
        Err(unexpected_at(toks[i + 1], toks[i].end))
    } else if toks[i + 2].kind == LexKind::End {
        Err(end_of_input_at(toks[i + 2].start))
    } else if class_of(toks[i + 2]) != TokClass::Open(Block::Curly) {
        Err(unexpected_at(toks[i + 2], toks[i + 1].end))
    } else {
        match declarations_at(toks, i + 3) {
            Ok((ds, j)) => Ok((
                RuleV { class: toks[i + 1].text, declarations: ds },
                if class_of(toks[j]) == TokClass::Close(Block::Curly) { j + 1 } else { j },
            )),
            Err(e) => Err(e),
        }
    }
}

/// `rs` are rules that parse one after the other, the `i`-th at `heads[i]`,
/// each starting where the one before stops.
pub open spec fn rule_chain(toks: Seq<Tok>, heads: Seq<int>, rs: Seq<RuleV>) -> bool {
    &&& heads.len() == rs.len() + 1
    &&& forall|i: int| 0 <= i < rs.len() ==> toks[heads[i]].kind != LexKind::End
        && #[trigger] rule_at(toks, heads[i]) == Ok::<(RuleV, int), ParseErrorV>((rs[i], heads[i + 1]))
}

/// The whole sheet is the blocks `rs`, from its start to its end.
pub open spec fn sheet_blocks(toks: Seq<Tok>, heads: Seq<int>, rs: Seq<RuleV>) -> bool {
    &&& rule_chain(toks, heads, rs)
    &&& heads[0] == 0
    &&& toks[heads.last()].kind == LexKind::End
}

/// The sheet's blocks `rs` parse, and then the next one fails with `e`.
pub open spec fn sheet_fails(toks: Seq<Tok>, heads: Seq<int>, rs: Seq<RuleV>, e: ParseErrorV) -> bool {
    &&& rule_chain(toks, heads, rs)
    &&& heads[0] == 0
    &&& toks[heads.last()].kind != LexKind::End
    &&& rule_at(toks, heads.last()) == Err::<(RuleV, int), ParseErrorV>(e)
}

/// The declarations from `k` are the first one and then those after it.
proof fn lemma_declarations_step(toks: Seq<Tok>, k: int)
    requires
        well_formed_stream(toks),
        1 <= k <= toks.len() - 1,
        !ends_block(toks[k]),
    ensures
        declaration_at(toks, k) matches Ok((p, next)) ==> k < next <= toks.len() - 1,
        declarations_at(toks, k) == match declaration_at(toks, k) {
            Ok((p, next)) => match declarations_at(toks, next) {
                Ok((ps, j)) => Ok::<(Seq<PropertyV>, int), ParseErrorV>((seq![p] + ps, j)),
                Err(e) => Err(e),
            },
            Err(e) => Err(e),
        },
{
    if toks[k].kind == LexKind::Ident && !ends_block(toks[k + 1]) && class_of(toks[k + 1]) == TokClass::Colon {
        assert(k + 2 <= toks.len() - 1);
        lemma_value_bounds(toks, toks[k].text, k + 2);
        if let Ok((p, m)) = value_at(toks, toks[k].text, k + 2) {
            if class_of(toks[m]) == TokClass::Semicolon {
                assert(m < toks.len() - 1);
            }
        }
    }
}

/// The rules from `i` are the first one and then those after it.
proof fn lemma_rules_step(toks: Seq<Tok>, i: int)
    requires
        well_formed_stream(toks),
        0 <= i <= toks.len() - 1,
        toks[i].kind != LexKind::End,
    ensures
        rule_at(toks, i) matches Ok((r, next)) ==> i < next <= toks.len() - 1,
        rules_at(toks, i) == match rule_at(toks, i) {
            Ok((r, next)) => match rules_at(toks, next) {
                Ok(rest) => Ok::<Seq<RuleV>, ParseErrorV>(seq![r] + rest),
                Err(e) => Err(e),
            },
            Err(e) => Err(e),
        },
{
    if class_of(toks[i]) == TokClass::Dot && toks[i + 1].kind == LexKind::Ident && toks[i + 2].kind != LexKind::End
        && class_of(toks[i + 2]) == TokClass::Open(Block::Curly) {
        assert(i + 3 <= toks.len() - 1);
        lemma_declarations_bounds(toks, i + 3);
        if let Ok((ds, j)) = declarations_at(toks, i + 3) {
            if class_of(toks[j]) == TokClass::Close(Block::Curly) {
                assert(j < toks.len() - 1);
            }
        }
    }
}

/// A chain of declarations from `k`, and where it stops: at the block's end,
/// or at the first declaration that fails.
proof fn lemma_declarations_decompose(toks: Seq<Tok>, k: int) -> (r: (Seq<int>, Seq<PropertyV>))
    requires
        well_formed_stream(toks),
        1 <= k <= toks.len() - 1,
    ensures
        declaration_chain(toks, r.0, r.1),
        r.0[0] == k,
        1 <= r.0.last() <= toks.len() - 1,
        match declarations_at(toks, k) {
            Ok((ds, j)) => r.1 == ds && block_declarations(toks, k, r.0, r.1, j),
            Err(e) => block_fails(toks, k, r.0, r.1, e),
        },
    decreases toks.len() - k,
{
    if ends_block(toks[k]) {
        (seq![k], seq![])
    } else {
        lemma_declarations_step(toks, k);
        match declaration_at(toks, k) {
            Ok((p, next)) => {
                let (starts, ds) = lemma_declarations_decompose(toks, next);
                let all_starts = seq![k] + starts;
                let all_ds = seq![p] + ds;
                assert forall|i: int| 0 <= i < all_ds.len() implies !ends_block(toks[all_starts[i]])
                    && #[trigger] declaration_at(toks, all_starts[i]) == Ok::<(PropertyV, int), ParseErrorV>((all_ds[i], all_starts[i + 1])) by {
                    if i > 0 {
                        assert(all_starts[i] == starts[i - 1]);
                        assert(all_starts[i + 1] == starts[i]);
                        assert(all_ds[i] == ds[i - 1]);
                        assert(declaration_at(toks, starts[i - 1]) == Ok::<(PropertyV, int), ParseErrorV>((ds[i - 1], starts[i])));
                    }
                }
                assert(all_starts.last() == starts.last());
                (all_starts, all_ds)
            },
            Err(e) => (seq![k], seq![]),
        }
    }
}

/// A chain of declarations that reaches the block's end is what the block parses to.
proof fn lemma_block_declarations_parse(toks: Seq<Tok>, starts: Seq<int>, ds: Seq<PropertyV>)
    requires
        well_formed_stream(toks),
        declaration_chain(toks, starts, ds),
        1 <= starts[0] <= toks.len() - 1,
        ends_block(toks[starts.last()]),
    ensures
        declarations_at(toks, starts[0]) == Ok::<(Seq<PropertyV>, int), ParseErrorV>((ds, starts.last())),
    decreases ds.len(),
{
    if ds.len() > 0 {
        assert(declaration_at(toks, starts[0]) == Ok::<(PropertyV, int), ParseErrorV>((ds[0], starts[1])));
        lemma_declarations_step(toks, starts[0]);
        let rest_starts = starts.drop_first();
        let rest_ds = ds.drop_first();
        assert forall|i: int| 0 <= i < rest_ds.len() implies !ends_block(toks[rest_starts[i]])
            && #[trigger] declaration_at(toks, rest_starts[i]) == Ok::<(PropertyV, int), ParseErrorV>((rest_ds[i], rest_starts[i + 1])) by {
            assert(declaration_at(toks, starts[i + 1]) == Ok::<(PropertyV, int), ParseErrorV>((ds[i + 1], starts[i + 2])));
        }
        lemma_block_declarations_parse(toks, rest_starts, rest_ds);
        assert(seq![ds[0]] + rest_ds == ds);
        assert(rest_starts.last() == starts.last());
    } else {
        assert(ds == Seq::<PropertyV>::empty());
    }
}

/// A chain of declarations that ends in a failing one makes the block fail.
proof fn lemma_block_fails_parse(toks: Seq<Tok>, starts: Seq<int>, ds: Seq<PropertyV>, e: ParseErrorV)
    requires
        well_formed_stream(toks),
        declaration_chain(toks, starts, ds),
        1 <= starts[0] <= toks.len() - 1,
        !ends_block(toks[starts.last()]),
        declaration_at(toks, starts.last()) == Err::<(PropertyV, int), ParseErrorV>(e),
    ensures
        declarations_at(toks, starts[0]) == Err::<(Seq<PropertyV>, int), ParseErrorV>(e),
    decreases ds.len(),
{
    lemma_declarations_step(toks, starts[0]);
    if ds.len() > 0 {
        assert(declaration_at(toks, starts[0]) == Ok::<(PropertyV, int), ParseErrorV>((ds[0], starts[1])));
        let rest_starts = starts.drop_first();
        let rest_ds = ds.drop_first();
        assert forall|i: int| 0 <= i < rest_ds.len() implies !ends_block(toks[rest_starts[i]])
            && #[trigger] declaration_at(toks, rest_starts[i]) == Ok::<(PropertyV, int), ParseErrorV>((rest_ds[i], rest_starts[i + 1])) by {
            assert(declaration_at(toks, starts[i + 1]) == Ok::<(PropertyV, int), ParseErrorV>((ds[i + 1], starts[i + 2])));
        }
        lemma_block_fails_parse(toks, rest_starts, rest_ds, e);
    }
}

/// A block's declarations are its `name: value` pieces, one after the other:
/// the block parses exactly when each piece parses up to the block's end, and
/// then to those declarations in source order; otherwise the first piece that
/// fails gives the block's error, and nothing of the block is kept. The
/// pieces are unique: any chain that reaches the end, or that fails, is the
/// one the parser follows.
pub proof fn law_block_is_its_declarations(toks: Seq<Tok>, k: int) -> (r: (Seq<int>, Seq<PropertyV>))
    requires
        well_formed_stream(toks),
        1 <= k <= toks.len() - 1,
    ensures
        match declarations_at(toks, k) {
            Ok((ds, j)) => r.1 == ds && block_declarations(toks, k, r.0, r.1, j),
            Err(e) => block_fails(toks, k, r.0, r.1, e),
        },
        forall|starts: Seq<int>, ds: Seq<PropertyV>, j: int| #[trigger] block_declarations(toks, k, starts, ds, j)
            ==> declarations_at(toks, k) == Ok::<(Seq<PropertyV>, int), ParseErrorV>((ds, j)),
        forall|starts: Seq<int>, ds: Seq<PropertyV>, e: ParseErrorV| #[trigger] block_fails(toks, k, starts, ds, e)
            ==> declarations_at(toks, k) == Err::<(Seq<PropertyV>, int), ParseErrorV>(e),
{
    assert forall|starts: Seq<int>, ds: Seq<PropertyV>, j: int| #[trigger] block_declarations(toks, k, starts, ds, j)
        implies declarations_at(toks, k) == Ok::<(Seq<PropertyV>, int), ParseErrorV>((ds, j)) by {
        lemma_block_declarations_parse(toks, starts, ds);
    }
    assert forall|starts: Seq<int>, ds: Seq<PropertyV>, e: ParseErrorV| #[trigger] block_fails(toks, k, starts, ds, e)
        implies declarations_at(toks, k) == Err::<(Seq<PropertyV>, int), ParseErrorV>(e) by {
        lemma_block_fails_parse(toks, starts, ds, e);
    }
    lemma_declarations_decompose(toks, k)
}

/// A chain of rules from `i`, and where it stops: at the end of the input, or
/// at the first rule that fails.
proof fn lemma_rules_decompose(toks: Seq<Tok>, i: int) -> (r: (Seq<int>, Seq<RuleV>))
    requires
        well_formed_stream(toks),
        0 <= i <= toks.len() - 1,
    ensures
        rule_chain(toks, r.0, r.1),
        r.0[0] == i,
        match rules_at(toks, i) {
            Ok(rs) => r.1 == rs && toks[r.0.last()].kind == LexKind::End,
            Err(e) => toks[r.0.last()].kind != LexKind::End
                && rule_at(toks, r.0.last()) == Err::<(RuleV, int), ParseErrorV>(e),
        },
    decreases toks.len() - i,
{
    if toks[i].kind == LexKind::End {
        (seq![i], seq![])
    } else {
        lemma_rules_step(toks, i);
        match rule_at(toks, i) {
            Ok((rule, next)) => {
                let (heads, rs) = lemma_rules_decompose(toks, next);
                let all_heads = seq![i] + heads;
                let all_rs = seq![rule] + rs;
                assert forall|n: int| 0 <= n < all_rs.len() implies toks[all_heads[n]].kind != LexKind::End
                    && #[trigger] rule_at(toks, all_heads[n]) == Ok::<(RuleV, int), ParseErrorV>((all_rs[n], all_heads[n + 1])) by {
                    if n > 0 {
                        assert(all_heads[n] == heads[n - 1]);
                        assert(all_heads[n + 1] == heads[n]);
                        assert(all_rs[n] == rs[n - 1]);
                        assert(rule_at(toks, heads[n - 1]) == Ok::<(RuleV, int), ParseErrorV>((rs[n - 1], heads[n])));
                    }
                }
                assert(all_heads.last() == heads.last());
                (all_heads, all_rs)
            },
            Err(e) => (seq![i], seq![]),
        }
    }
}

/// A chain of rules that reaches the end of the input is what the sheet parses to.
proof fn lemma_rule_chain_parse(toks: Seq<Tok>, heads: Seq<int>, rs: Seq<RuleV>)
    requires
        well_formed_stream(toks),
        rule_chain(toks, heads, rs),
        0 <= heads[0] <= toks.len() - 1,
        toks[heads.last()].kind == LexKind::End,
    ensures
        rules_at(toks, heads[0]) == Ok::<Seq<RuleV>, ParseErrorV>(rs),
    decreases rs.len(),
{
    if rs.len() > 0 {
        assert(rule_at(toks, heads[0]) == Ok::<(RuleV, int), ParseErrorV>((rs[0], heads[1])));
        lemma_rules_step(toks, heads[0]);
        let rest_heads = heads.drop_first();
        let rest_rs = rs.drop_first();
        assert forall|n: int| 0 <= n < rest_rs.len() implies toks[rest_heads[n]].kind != LexKind::End
            && #[trigger] rule_at(toks, rest_heads[n]) == Ok::<(RuleV, int), ParseErrorV>((rest_rs[n], rest_heads[n + 1])) by {
            assert(rule_at(toks, heads[n + 1]) == Ok::<(RuleV, int), ParseErrorV>((rs[n + 1], heads[n + 2])));
        }
        assert(rest_heads.last() == heads.last());
        lemma_rule_chain_parse(toks, rest_heads, rest_rs);
        assert(seq![rs[0]] + rest_rs == rs);
    } else {
        assert(rs == Seq::<RuleV>::empty());
    }
}

/// A chain of rules that ends in a failing one makes the sheet fail.
proof fn lemma_rule_chain_fails(toks: Seq<Tok>, heads: Seq<int>, rs: Seq<RuleV>, e: ParseErrorV)
    requires
        well_formed_stream(toks),
        rule_chain(toks, heads, rs),
        0 <= heads[0] <= toks.len() - 1,
        toks[heads.last()].kind != LexKind::End,
        rule_at(toks, heads.last()) == Err::<(RuleV, int), ParseErrorV>(e),
    ensures
        rules_at(toks, heads[0]) == Err::<Seq<RuleV>, ParseErrorV>(e),
    decreases rs.len(),
{
    if rs.len() > 0 {
        assert(rule_at(toks, heads[0]) == Ok::<(RuleV, int), ParseErrorV>((rs[0], heads[1])));
        lemma_rules_step(toks, heads[0]);
        let rest_heads = heads.drop_first();
        let rest_rs = rs.drop_first();
        assert forall|n: int| 0 <= n < rest_rs.len() implies toks[rest_heads[n]].kind != LexKind::End
            && #[trigger] rule_at(toks, rest_heads[n]) == Ok::<(RuleV, int), ParseErrorV>((rest_rs[n], rest_heads[n + 1])) by {
            assert(rule_at(toks, heads[n + 1]) == Ok::<(RuleV, int), ParseErrorV>((rs[n + 1], heads[n + 2])));
        }
        assert(rest_heads.last() == heads.last());
        lemma_rule_chain_fails(toks, rest_heads, rest_rs, e);
    } else {
        lemma_rules_step(toks, heads[0]);
    }
}

/// A sheet is its blocks `.class { declarations }`, one after the other: it
/// parses exactly when each block parses, up to the end of the input, and
/// then to one rule per block in source order (a class that comes twice gives
/// two rules); otherwise the first block that fails, at its selector, its
/// brace or one of its declarations (see `law_block_is_its_declarations`),
/// gives the error of the whole sheet, and no part of the sheet is kept. The
/// blocks are unique: any chain of blocks that reaches the end, or that fails,
/// is the one the parser follows.
pub proof fn law_sheet_is_its_blocks(toks: Seq<Tok>) -> (r: (Seq<int>, Seq<RuleV>))
    requires
        well_formed_stream(toks),
    ensures
        match sheet_of(toks) {
            Ok(rs) => r.1 == rs && sheet_blocks(toks, r.0, r.1),
            Err(e) => sheet_fails(toks, r.0, r.1, e),
        },
        forall|heads: Seq<int>, rs: Seq<RuleV>| #[trigger] sheet_blocks(toks, heads, rs)
            ==> sheet_of(toks) == Ok::<Seq<RuleV>, ParseErrorV>(rs),
        forall|heads: Seq<int>, rs: Seq<RuleV>, e: ParseErrorV| #[trigger] sheet_fails(toks, heads, rs, e)
            ==> sheet_of(toks) == Err::<Seq<RuleV>, ParseErrorV>(e),
{
    assert forall|heads: Seq<int>, rs: Seq<RuleV>| #[trigger] sheet_blocks(toks, heads, rs)
        implies sheet_of(toks) == Ok::<Seq<RuleV>, ParseErrorV>(rs) by {
        lemma_rule_chain_parse(toks, heads, rs);
    }
    assert forall|heads: Seq<int>, rs: Seq<RuleV>, e: ParseErrorV| #[trigger] sheet_fails(toks, heads, rs, e)
        implies sheet_of(toks) == Err::<Seq<RuleV>, ParseErrorV>(e) by {
        lemma_rule_chain_fails(toks, heads, rs, e);
    }
    lemma_rules_decompose(toks, 0)
}

/// A sheet of one rule with one declaration, `.class { name: value }` with an
/// optional `;` after the value: the value's outcome decides the sheet. A
/// value that parses gives the one rule with the one declaration; a value
/// that fails (a bad length, a percentage margin, a fifth margin value, a
/// token after a single-token value) gives its error as the sheet's error.
pub proof fn law_one_declaration_sheet(toks: Seq<Tok>)
    requires
        well_formed_stream(toks),
        class_of(toks[0]) == TokClass::Dot,
        toks[1].kind == LexKind::Ident,
        class_of(toks[2]) == TokClass::Open(Block::Curly),
        toks[3].kind == LexKind::Ident,
        class_of(toks[4]) == TokClass::Colon,
    ensures
        value_at(toks, toks[3].text, 5) matches Err(e) ==> sheet_of(toks) == Err::<Seq<RuleV>, ParseErrorV>(e),
        value_at(toks, toks[3].text, 5) matches Ok((p, m)) ==> {
            let close = if class_of(toks[m]) == TokClass::Semicolon { m + 1 } else { m };
            class_of(toks[close]) == TokClass::Close(Block::Curly) && close + 1 == toks.len() - 1
                ==> sheet_of(toks) == Ok::<Seq<RuleV>, ParseErrorV>(
                    seq![RuleV { class: toks[1].text, declarations: seq![p] }])
        },
{
    assert(toks[0].kind != LexKind::End);
    assert(toks[2].kind != LexKind::End);
    assert(toks[4].kind != LexKind::End);
    assert(5 <= toks.len() - 1);
    lemma_rules_step(toks, 0);
    lemma_declarations_step(toks, 3);
    lemma_value_bounds(toks, toks[3].text, 5);
    if let Ok((p, m)) = value_at(toks, toks[3].text, 5) {
        let close = if class_of(toks[m]) == TokClass::Semicolon { m + 1 } else { m };
        if class_of(toks[close]) == TokClass::Close(Block::Curly) && close + 1 == toks.len() - 1 {
            assert(ends_block(toks[close]));
            assert(declarations_at(toks, close) == Ok::<(Seq<PropertyV>, int), ParseErrorV>((seq![], close)));
            assert(seq![p] + Seq::<PropertyV>::empty() == seq![p]);
            let rule = RuleV { class: toks[1].text, declarations: seq![p] };
            assert(rule_at(toks, 0) == Ok::<(RuleV, int), ParseErrorV>((rule, close + 1)));
            assert(rules_at(toks, close + 1) == Ok::<Seq<RuleV>, ParseErrorV>(seq![]));
            assert(seq![rule] + Seq::<RuleV>::empty() == seq![rule]);
        }
    }
}

/// `padding_list` after the first `k` of the values at `v`, when they all parse.
proof fn lemma_padding_list_prefix(toks: Seq<Tok>, v: int, vals: Seq<u32>, k: int)
    requires
        0 <= v,
        0 <= k <= vals.len(),
        k <= 4,
        v + vals.len() < toks.len(),
        forall|i: int| 0 <= i < vals.len() ==> !ends_value(#[trigger] toks[v + i]),
        forall|i: int| 0 <= i < vals.len() ==> padding_value_at(toks, v + i) == Ok::<u32, ParseErrorV>(#[trigger] vals[i]),
    ensures
        padding_list(toks, v, seq![]) == padding_list(toks, v + k, vals.take(k)),
    decreases k,
{
    if k > 0 {
        lemma_padding_list_prefix(toks, v, vals, k - 1);
        assert(!ends_value(toks[v + (k - 1)]));
        assert(padding_value_at(toks, v + (k - 1)) == Ok::<u32, ParseErrorV>(vals[k - 1]));
        assert(vals.take(k - 1).push(vals[k - 1]) == vals.take(k));
        assert(vals.take(k - 1).len() == k - 1);
        assert(padding_list(toks, v + (k - 1), vals.take(k - 1))
            == padding_list(toks, v + (k - 1) + 1, vals.take(k - 1).push(vals[k - 1])));
        assert(v + (k - 1) + 1 == v + k);
    } else {
        assert(vals.take(0) == Seq::<u32>::empty());
    }
}

/// The padding shorthand rule, for a value made of `n` pixel sides `vals`:
/// one value is every side; two are vertical then horizontal; three are top,
/// horizontal, bottom; four are top, right, bottom, left; no value gives
/// "padding needs at least 1 value"; more than four give "padding max 4
/// values", where the fifth value starts.
pub proof fn law_padding_shorthand(toks: Seq<Tok>, v: int, vals: Seq<u32>)
    requires
        0 <= v,
        v + vals.len() < toks.len(),
        forall|i: int| 0 <= i < vals.len() ==> !ends_value(#[trigger] toks[v + i]),
        forall|i: int| 0 <= i < vals.len() ==> padding_value_at(toks, v + i) == Ok::<u32, ParseErrorV>(#[trigger] vals[i]),
        vals.len() <= 4 ==> ends_value(toks[v + vals.len()]),
    ensures
        vals.len() == 0 ==> paddings_at(toks, v) == Err::<(Paddings, int), ParseErrorV>(
            error_at("padding needs at least 1 value"@, before(toks, v))),
        vals.len() == 1 ==> paddings_at(toks, v) == Ok::<(Paddings, int), ParseErrorV>((
            Paddings { top: vals[0], right: vals[0], bottom: vals[0], left: vals[0] }, v + 1)),
        vals.len() == 2 ==> paddings_at(toks, v) == Ok::<(Paddings, int), ParseErrorV>((
            Paddings { top: vals[0], right: vals[1], bottom: vals[0], left: vals[1] }, v + 2)),
        vals.len() == 3 ==> paddings_at(toks, v) == Ok::<(Paddings, int), ParseErrorV>((
            Paddings { top: vals[0], right: vals[1], bottom: vals[2], left: vals[1] }, v + 3)),
        vals.len() == 4 ==> paddings_at(toks, v) == Ok::<(Paddings, int), ParseErrorV>((
            Paddings { top: vals[0], right: vals[1], bottom: vals[2], left: vals[3] }, v + 4)),
        vals.len() > 4 ==> paddings_at(toks, v) == Err::<(Paddings, int), ParseErrorV>(
            error_at("padding max 4 values"@, before(toks, v + 4))),
{
    if vals.len() <= 4 {
        lemma_padding_list_prefix(toks, v, vals, vals.len() as int);
        assert(vals.take(vals.len() as int) == vals);
    } else {
        lemma_padding_list_prefix(toks, v, vals, 4);
        assert(!ends_value(toks[v + 4]));
    }
}

/// Whether a text is `px` in some case of its two letters.
pub open spec fn is_px_unit(text: Seq<char>) -> bool {
    &&& text.len() == 2
    &&& (text[0] == 'p' || text[0] == 'P')
    &&& (text[1] == 'x' || text[1] == 'X')
}

/// Whether a text is `auto` in some case of each of its letters.
pub open spec fn is_auto_word(text: Seq<char>) -> bool {
    &&& text.len() == 4
    &&& (text[0] == 'a' || text[0] == 'A')
    &&& (text[1] == 'u' || text[1] == 'U')
    &&& (text[2] == 't' || text[2] == 'T')
    &&& (text[3] == 'o' || text[3] == 'O')
}

/// The ASCII lower-case form of a character is a given lower-case letter
/// exactly when the character is that letter or its capital.
proof fn lemma_lower_letter(c: char, upper: char, lower: char)
    requires
        'A' <= upper <= 'Z',
        lower as u32 == upper as u32 + 32,
    ensures
        ascii_lower(c) == lower <==> (c == lower || c == upper),
{
    if 'A' <= c && c <= 'Z' {
        assert(((c as u32) + 32) as char as u32 == (c as u32) + 32);
    }
}

/// Units and keywords are matched without regard to case, all letters
/// counting: a dimension gives pixels exactly when its unit is `px` in some
/// case, and is refused as an unsupported unit otherwise; an identifier gives
/// `auto` exactly when it is `auto` in some case.
pub proof fn law_units_and_keywords_ignore_case(toks: Seq<Tok>, v: int)
    requires
        0 <= v < toks.len(),
        !ends_value(toks[v]),
    ensures
        toks[v].kind == LexKind::Dimension && is_px_unit(toks[v].text)
            ==> length_at(toks, v) == Ok::<Length, ParseErrorV>(Length::Px(toks[v].bits)),
        toks[v].kind == LexKind::Dimension && !is_px_unit(toks[v].text)
            ==> length_at(toks, v) == Err::<Length, ParseErrorV>(
                error_at("unsupported length unit: "@ + toks[v].text, toks[v].end)),
        toks[v].kind == LexKind::Ident && is_auto_word(toks[v].text)
            ==> length_at(toks, v) == Ok::<Length, ParseErrorV>(Length::Auto),
        toks[v].kind == LexKind::Ident && !is_auto_word(toks[v].text)
            ==> length_at(toks, v) == Err::<Length, ParseErrorV>(
                error_at("expected a length, got "@ + toks[v].debug, toks[v].end)),
{
    reveal_strlit("px");
    reveal_strlit("auto");
    let t = toks[v].text;
    assert(ascii_lower('p') == 'p' && ascii_lower('x') == 'x' && ascii_lower('a') == 'a'
        && ascii_lower('u') == 'u' && ascii_lower('t') == 't' && ascii_lower('o') == 'o');
    assert(eq_ignore_ascii_case(t, "px"@) <==> is_px_unit(t)) by {
        if t.len() == 2 {
            lemma_lower_letter(t[0], 'P', 'p');
            lemma_lower_letter(t[1], 'X', 'x');
        }
    }
    assert(eq_ignore_ascii_case(t, "auto"@) <==> is_auto_word(t)) by {
        if t.len() == 4 {
            lemma_lower_letter(t[0], 'A', 'a');
            lemma_lower_letter(t[1], 'U', 'u');
            lemma_lower_letter(t[2], 'T', 't');
            lemma_lower_letter(t[3], 'O', 'o');
        }
    }
}

/// Whether a token passes through a value without ending it and without
/// opening a block: not the end, not a function, and not a bracket, `;` or `}`.
pub open spec fn passes_through(t: Tok) -> bool {
    &&& t.kind != LexKind::End
    &&& t.kind != LexKind::Function
    &&& t.kind == LexKind::Other ==> {
        &&& t.debug != "ParenthesisBlock"@
        &&& t.debug != "SquareBracketBlock"@
        &&& t.debug != "CurlyBracketBlock"@
        &&& t.debug != "CloseCurlyBracket"@
        &&& t.debug != "Semicolon"@
    }
}

/// Whether a token ends a declaration's value: `;`, the `}` of the block, or the end.
pub open spec fn stops_value(t: Tok) -> bool {
    t.kind == LexKind::End || (t.kind == LexKind::Other && (t.debug == "Semicolon"@ || t.debug == "CloseCurlyBracket"@))
}

/// The value of an unsupported property runs to the first `;`, `}` or end of
/// input: every other token on the way, commas, colons, stray closing
/// brackets and plain values alike, is passed over, and the property is kept
/// by name.
pub proof fn law_unsupported_value_runs_to_its_end(toks: Seq<Tok>, name: Seq<char>, v: int, m: int)
    requires
        prop_name(name) == PropName::Other,
        0 <= v <= m < toks.len(),
        forall|i: int| v <= i < m ==> passes_through(#[trigger] toks[i]),
        stops_value(toks[m]),
    ensures
        value_at(toks, name, v) == Ok::<(PropertyV, int), ParseErrorV>((PropertyV::Unsupported(name), m)),
{
    lemma_value_end_plain(toks, v, m);
}

proof fn lemma_value_end_plain(toks: Seq<Tok>, p: int, m: int)
    requires
        0 <= p <= m < toks.len(),
        forall|i: int| p <= i < m ==> passes_through(#[trigger] toks[i]),
        stops_value(toks[m]),
    ensures
        value_end(toks, p) == m,
    decreases m - p,
{
    if p == m {
        reveal_strlit("ParenthesisBlock");
        reveal_strlit("SquareBracketBlock");
        reveal_strlit("CurlyBracketBlock");
        reveal_strlit("CloseParenthesis");
        reveal_strlit("CloseSquareBracket");
        reveal_strlit("CloseCurlyBracket");
        reveal_strlit("Colon");
        reveal_strlit("Semicolon");
        let t = toks[m];
        if t.kind != LexKind::End {
            if t.debug == "Semicolon"@ {
                assert(t.debug.len() == 9);
                assert(class_of(t) == TokClass::Semicolon);
            } else {
                assert(t.debug == "CloseCurlyBracket"@);
                assert(t.debug.len() == 17);
                assert(t.debug != "CurlyBracketBlock"@) by {
                    assert(t.debug[1] != "CurlyBracketBlock"@[1]);
                }
                assert(class_of(t) == TokClass::Close(Block::Curly));
            }
        }
        assert(ends_value(toks[m]));
    } else {
        assert(passes_through(toks[p]));
        assert(!ends_value(toks[p]));
        lemma_value_end_plain(toks, p + 1, m);
    }
}

} // verus!
