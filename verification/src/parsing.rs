use vstd::prelude::*;

use crate::numeric::dec_val;
use crate::numeric::int_literal_ok;
use crate::numeric::parse_int_literal;
use crate::tokens::toks_view;
use crate::tokens::TokView;
use crate::tokens::Token;
use crate::values::val_view;
use crate::values::vals_view;
use crate::values::ParamVal;
use crate::values::ValView;

verus! {

/// An error from the value grammar. Negation applies only to numeric
/// literals; every other expression form is unsupported; a numeric literal
/// that is malformed or does not fit its 64-bit representation is
/// unrecognized.
#[derive(Debug, PartialEq, Eq, Structural, Clone, Copy)]
pub enum ParseError {
    UnsupportedExpression,
    NonNegatableLiteral,
    NonNegatableExpression,
    UnrecognizedLiteral,
}

/// Negation of a 64-bit float by its bit pattern: the sign bit flips and
/// nothing else changes.
pub open spec fn neg_bits(bits: u64) -> u64 {
    bits ^ 0x8000_0000_0000_0000u64
}

/// The value grammar, one value expression starting at `pos`:
///
/// ```text
/// value          := array | signed_literal | literal
/// array          := '[' (value (',' value)*)? ']'
/// signed_literal := '-' (int_literal | float_literal)
/// literal        := bool_literal | int_literal | float_literal | string_literal
/// ```
///
/// On success the result carries the parsed value and the position just
/// after it; the parser always consumes at least one token.
pub open spec fn spec_parse_value(t: Seq<TokView>, pos: int) -> Result<(ValView, int), ParseError>
    decreases t.len() - pos, 0int,
{
    if pos < 0 || pos >= t.len() {
        Err(ParseError::UnsupportedExpression)
    } else {
        match t[pos] {
            TokView::LitBool(b) => Ok((ValView::Bool(b), pos + 1)),
            TokView::LitInt(s) => if int_literal_ok(s) {
                Ok((ValView::Int(dec_val(s) as i64), pos + 1))
            } else {
                Err(ParseError::UnrecognizedLiteral)
            },
            TokView::LitFloat(bits) => Ok((ValView::Float(bits), pos + 1)),
            TokView::LitStr(s) => Ok((ValView::Str(s), pos + 1)),
            TokView::Minus => {
                if pos + 1 >= t.len() {
                    Err(ParseError::UnsupportedExpression)
                } else {
                    match t[pos + 1] {
                        TokView::LitInt(s) => if int_literal_ok(s) {
                            Ok((ValView::Int((0 - dec_val(s)) as i64), pos + 2))
                        } else {
                            Err(ParseError::UnrecognizedLiteral)
                        },
                        TokView::LitFloat(bits) => Ok((ValView::Float(neg_bits(bits)), pos + 2)),
                        TokView::LitBool(_) => Err(ParseError::NonNegatableLiteral),
                        TokView::LitStr(_) => Err(ParseError::NonNegatableLiteral),
                        TokView::Minus => Err(ParseError::NonNegatableExpression),
                        TokView::Ident(_) => Err(ParseError::NonNegatableExpression),
                        TokView::LBracket => Err(ParseError::NonNegatableExpression),
                        _ => Err(ParseError::UnsupportedExpression),
                    }
                }
            },
            TokView::LBracket => {
                if pos + 1 < t.len() && t[pos + 1] == TokView::RBracket {
                    Ok((ValView::Array(Seq::empty()), pos + 2))
                } else {
                    match spec_parse_elems(t, pos + 1) {
                        Ok((es, end)) => Ok((ValView::Array(es), end)),
                        Err(e) => Err(e),
                    }
                }
            },
            _ => Err(ParseError::UnsupportedExpression),
        }
    }
}

/// The elements of a non-empty bracketed array, after the opening
/// bracket: one or more comma-separated values, then the closing bracket.
///
/// A successful inner value parse always advances, so the guard on `p`
/// below only records that fact for the termination measure; it never
/// changes the result.
pub open spec fn spec_parse_elems(t: Seq<TokView>, pos: int) -> Result<
    (Seq<ValView>, int),
    ParseError,
>
    decreases t.len() - pos, 1int,
{
    match spec_parse_value(t, pos) {
        Err(e) => Err(e),
        Ok((v, p)) => {
            let p2 = if p > pos {
                p
            } else {
                pos + 1
            };
            if p2 >= t.len() {
                Err(ParseError::UnsupportedExpression)
            } else if t[p2] == TokView::RBracket {
                Ok((seq![v], p2 + 1))
            } else if t[p2] == TokView::Comma {
                match spec_parse_elems(t, p2 + 1) {
                    Ok((rest, end)) => Ok((seq![v] + rest, end)),
                    Err(e) => Err(e),
                }
            } else {
                Err(ParseError::UnsupportedExpression)
            }
        },
    }
}

/// Whether an executable value-parse result agrees with the grammar.
pub open spec fn value_result_matches(
    r: Result<(ParamVal, usize), ParseError>,
    s: Result<(ValView, int), ParseError>,
) -> bool {
    match (r, s) {
        (Ok((v, np)), Ok((sv, sp))) => v@ == sv && np as int == sp,
        (Err(e), Err(se)) => e == se,
        _ => false,
    }
}

/// Whether an executable element-list parse result agrees with the
/// grammar.
pub open spec fn elems_result_matches(
    r: Result<(Vec<ParamVal>, usize), ParseError>,
    s: Result<(Seq<ValView>, int), ParseError>,
) -> bool {
    match (r, s) {
        (Ok((es, np)), Ok((sv, sp))) => vals_view(es@) == sv && np as int == sp,
        (Err(e), Err(se)) => e == se,
        _ => false,
    }
}

/// Parses one value expression at `pos`, exactly as the grammar
/// (`spec_parse_value`) prescribes; on success the returned position lies
/// strictly beyond `pos`.
pub fn parse_value(tokens: &Vec<Token>, pos: usize) -> (r: Result<(ParamVal, usize), ParseError>)
    ensures
        value_result_matches(r, spec_parse_value(toks_view(tokens@), pos as int)),
        r matches Ok((v, np)) ==> pos < np <= tokens@.len(),
    decreases tokens@.len() - pos, 0int,
{
    if pos >= tokens.len() {
        return Err(ParseError::UnsupportedExpression);
    }
    match &tokens[pos] {
        Token::LitBool(b) => Ok((ParamVal::Bool(*b), pos + 1)),
        Token::LitInt(s) => match parse_int_literal(s.as_str()) {
            Some(n) => Ok((ParamVal::Int(n), pos + 1)),
            None => Err(ParseError::UnrecognizedLiteral),
        },
        Token::LitFloat(bits) => Ok((ParamVal::Float(*bits), pos + 1)),
        Token::LitStr(s) => Ok((ParamVal::Str(s.clone()), pos + 1)),
        Token::Minus => {
            if pos + 1 >= tokens.len() {
                return Err(ParseError::UnsupportedExpression);
            }
            match &tokens[pos + 1] {
                Token::LitInt(s) => match parse_int_literal(s.as_str()) {
                    Some(n) => Ok((ParamVal::Int(0 - n), pos + 2)),
                    None => Err(ParseError::UnrecognizedLiteral),
                },
                Token::LitFloat(bits) => Ok(
                    (ParamVal::Float(*bits ^ 0x8000_0000_0000_0000u64), pos + 2),
                ),
                Token::LitBool(_) => Err(ParseError::NonNegatableLiteral),
                Token::LitStr(_) => Err(ParseError::NonNegatableLiteral),
                Token::Minus => Err(ParseError::NonNegatableExpression),
                Token::Ident(_) => Err(ParseError::NonNegatableExpression),
                Token::LBracket => Err(ParseError::NonNegatableExpression),
                _ => Err(ParseError::UnsupportedExpression),
            }
        },
        Token::LBracket => {
            if pos + 1 < tokens.len() {
                if let Token::RBracket = &tokens[pos + 1] {
                    proof {
                        assert(vals_view(Seq::<ParamVal>::empty()) =~= Seq::<ValView>::empty());
                    }
                    return Ok((ParamVal::Array(Vec::new()), pos + 2));
                }
            }
            match parse_elems(tokens, pos + 1) {
                Ok((es, end)) => Ok((ParamVal::Array(es), end)),
                Err(e) => Err(e),
            }
        },
        _ => Err(ParseError::UnsupportedExpression),
    }
}

/// Parses the comma-separated elements of a non-empty array and its
/// closing bracket, exactly as `spec_parse_elems` prescribes.
fn parse_elems(tokens: &Vec<Token>, pos: usize) -> (r: Result<(Vec<ParamVal>, usize), ParseError>)
    ensures
        elems_result_matches(r, spec_parse_elems(toks_view(tokens@), pos as int)),
        r matches Ok((es, np)) ==> pos < np <= tokens@.len(),
    decreases tokens@.len() - pos, 1int,
{
    match parse_value(tokens, pos) {
        Err(e) => Err(e),
        Ok((v, p)) => {
            if p >= tokens.len() {
                return Err(ParseError::UnsupportedExpression);
            }
            match &tokens[p] {
                Token::RBracket => {
                    let mut out: Vec<ParamVal> = Vec::new();
                    out.push(v);
                    proof {
                        assert(out@.drop_first() =~= Seq::<ParamVal>::empty());
                        assert(vals_view(out@.drop_first()) =~= Seq::<ValView>::empty());
                        assert(vals_view(out@) =~= seq![val_view(out@[0])]);
                    }
                    Ok((out, p + 1))
                },
                Token::Comma => match parse_elems(tokens, p + 1) {
                    Ok((rest, end)) => {
                        let ghost old_rest = rest@;
                        let mut rest = rest;
                        rest.insert(0, v);
                        proof {
                            assert(rest@.drop_first() =~= old_rest);
                            lemma_vals_view_cons(rest@, old_rest);
                        }
                        Ok((rest, end))
                    },
                    Err(e) => Err(e),
                },
                _ => Err(ParseError::UnsupportedExpression),
            }
        },
    }
}

/// Prepending an element maps its view onto the front of the views.
proof fn lemma_vals_view_cons(whole: Seq<ParamVal>, rest: Seq<ParamVal>)
    requires
        whole.len() == rest.len() + 1,
        whole.drop_first() == rest,
    ensures
        vals_view(whole) == seq![val_view(whole[0])] + vals_view(rest),
{
}

} // verus!
