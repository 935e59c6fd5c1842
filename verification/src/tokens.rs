use vstd::prelude::*;

verus! {

/// One lexical token of an attribute-argument item list.
///
/// Integer literals carry their decimal digit text, so that fitting into a
/// 64-bit signed integer is checked during value parsing, not during
/// lexing. Float literals carry the IEEE-754 bit pattern of the lexed
/// (non-negative) number; string literals carry their unescaped contents.
#[derive(Debug, PartialEq, Clone)]
pub enum Token {
    Ident(String),
    LitBool(bool),
    LitInt(String),
    LitFloat(u64),
    LitStr(String),
    Minus,
    Comma,
    Equals,
    LBracket,
    RBracket,
}

/// The mathematical identity of a token.
pub enum TokView {
    Ident(Seq<char>),
    LitBool(bool),
    LitInt(Seq<char>),
    LitFloat(u64),
    LitStr(Seq<char>),
    Minus,
    Comma,
    Equals,
    LBracket,
    RBracket,
}

impl View for Token {
    type V = TokView;

    open spec fn view(&self) -> TokView {
        match self {
            Token::Ident(s) => TokView::Ident(s@),
            Token::LitBool(b) => TokView::LitBool(*b),
            Token::LitInt(s) => TokView::LitInt(s@),
            Token::LitFloat(bits) => TokView::LitFloat(*bits),
            Token::LitStr(s) => TokView::LitStr(s@),
            Token::Minus => TokView::Minus,
            Token::Comma => TokView::Comma,
            Token::Equals => TokView::Equals,
            Token::LBracket => TokView::LBracket,
            Token::RBracket => TokView::RBracket,
        }
    }
}

/// The views of a token sequence, in order.
pub open spec fn toks_view(ts: Seq<Token>) -> Seq<TokView> {
    Seq::new(ts.len(), |i: int| ts[i]@)
}

} // verus!
