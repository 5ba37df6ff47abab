use vstd::prelude::*;

verus! {

/// The lexical categories of the language.
#[derive(Clone, Copy, PartialEq, Eq, Structural, Debug)]
pub enum TokenType {
    Number,
    Add,
    Sub,
    Mult,
    Div,
    Exp,
    LParen,
    RParen,
    Ident,
    EOI,
    Assign,
}

/// One token: its literal text, its category, and the source offset used for
/// error pointers.
#[derive(Clone, Debug)]
pub struct Token {
    pub value: String,
    pub token: TokenType,
    pub start: usize,
}

/// The mathematical model of a token.
pub struct TokenV {
    pub value: Seq<char>,
    pub token: TokenType,
    pub start: nat,
}

impl View for Token {
    type V = TokenV;

    open spec fn view(&self) -> TokenV {
        TokenV { value: self.value@, token: self.token, start: self.start as nat }
    }
}

impl Token {
    pub fn new(value: String, token: TokenType, start: usize) -> (t: Token)
        ensures
            t@ == (TokenV { value: value@, token, start: start as nat }),
    {
        Token { value, token, start }
    }
}

/// The model of a token sequence.
pub open spec fn tokens_view(toks: Seq<Token>) -> Seq<TokenV> {
    toks.map_values(|t: Token| t@)
}

} // verus!
