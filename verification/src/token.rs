use vstd::prelude::*;

verus! {

/// The four arithmetic operators.
#[derive(Debug, Clone, Copy, PartialEq, Eq, Structural)]
pub enum OperatorType {
    Add,
    Subtract,
    Multiply,
    Divide,
}

/// What kind of fragment a token classifies.
#[derive(Debug, Clone, Copy, PartialEq, Eq, Structural)]
pub enum TokenType {
    /// A number literal.
    Operand,
    /// One of the four arithmetic operators.
    Operator(OperatorType),
    LeftParen,
    RightParen,
    /// The end-of-input marker; the scanner appends exactly one.
    Eof,
}

/// The mathematical image of a token: its kind, the characters of its
/// lexeme, and the character offset where it begins in the source text.
pub struct TokenModel {
    pub kind: TokenType,
    pub lexeme: Seq<char>,
    pub position: nat,
}

/// The part of a token the parser reads: its kind and its lexeme. Positions
/// play no role in parsing.
pub struct TokenInfo {
    pub kind: TokenType,
    pub lexeme: Seq<char>,
}

/// A token's image for the parser: the position forgotten.
pub open spec fn token_info(t: TokenModel) -> TokenInfo {
    TokenInfo { kind: t.kind, lexeme: t.lexeme }
}

/// A classified, positioned fragment of source text, produced by scanning.
#[derive(Debug)]
pub struct Token {
    pub kind: TokenType,
    /// The literal substring the token was matched from.
    pub lexeme: String,
    /// Zero-based character offset of the token's first character.
    pub position: usize,
}

impl View for Token {
    type V = TokenModel;

    open spec fn view(&self) -> TokenModel {
        TokenModel { kind: self.kind, lexeme: self.lexeme@, position: self.position as nat }
    }
}

/// The operator a token kind carries, if it is an operator kind.
pub open spec fn spec_operator_of(kind: TokenType) -> Option<OperatorType> {
    match kind {
        TokenType::Operator(op) => Some(op),
        _ => None,
    }
}

impl Token {
    pub fn new(kind: TokenType, lexeme: String, position: usize) -> (t: Token)
        ensures
            t@ == (TokenModel { kind, lexeme: lexeme@, position: position as nat }),
    {
        Token { kind, lexeme, position }
    }

    /// The operator this token carries, if it is an operator token.
    pub fn operator_type(&self) -> (r: Option<OperatorType>)
        ensures
            r == spec_operator_of(self.kind),
    {
        match self.kind {
            TokenType::Operator(op) => Some(op),
            _ => None,
        }
    }
}

} // verus!
